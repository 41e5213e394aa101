//! Integer Miller-plane machinery: a primitive pair of in-plane lattice
//! vectors orthogonal to (h, k, l), and the stacking-vector search.

use vstd::prelude::*;
use vstd::math::abs;
use vstd::math::max3;
use crate::linalg::{
    IVec3, cross_x, cross_y, cross_z, lemma_cross_orthogonal, lemma_norm2_basics,
    lemma_triple_product,
};
use crate::number::{
    divides, gcd3, gcd, div_exact, lemma_gcd3_basics, lemma_gcd3_scale, lemma_divides_of_abs,
};
use crate::structure::SurfaceError;

verus! {

/// The Miller triple as an integer vector.
pub open spec fn miller_vec(h: i32, k: i32, l: i32) -> IVec3 {
    IVec3 { x: h as i64, y: k as i64, z: l as i64 }
}

/// Component gcd of a vector.
pub open spec fn vec_gcd(v: IVec3) -> nat {
    gcd3(abs(v.x as int), abs(v.y as int), abs(v.z as int))
}

/// A primitive integer vector: its components share no common factor.
pub open spec fn is_primitive(v: IVec3) -> bool {
    vec_gcd(v) == 1
}

/// Largest absolute Miller index.
pub open spec fn miller_mag(h: i32, k: i32, l: i32) -> int {
    max3(abs(h as int) as int, abs(k as int) as int, abs(l as int) as int)
}

/// A dot product scaled on one side stays a scaled dot product.
proof fn lemma_scaled_dot(n: IVec3, p: IVec3, w: IVec3, g: int)
    requires
        w.x == p.x * g,
        w.y == p.y * g,
        w.z == p.z * g,
    ensures
        n.dot_spec(w) == g * n.dot_spec(p),
{
    assert(n.x * (p.x * g) == g * (n.x * p.x)) by (nonlinear_arith);
    assert(n.y * (p.y * g) == g * (n.y * p.y)) by (nonlinear_arith);
    assert(n.z * (p.z * g) == g * (n.z * p.z)) by (nonlinear_arith);
    let a = n.x * p.x;
    let b = n.y * p.y;
    let c = n.z * p.z;
    assert(g * a + g * b + g * c == g * (a + b + c)) by (nonlinear_arith);
}

/// A cross product scaled on one side stays a scaled cross product.
proof fn lemma_scaled_cross(u: IVec3, p: IVec3, w: IVec3, g: int)
    requires
        w.x == p.x * g,
        w.y == p.y * g,
        w.z == p.z * g,
    ensures
        cross_x(u, w) == g * cross_x(u, p),
        cross_y(u, w) == g * cross_y(u, p),
        cross_z(u, w) == g * cross_z(u, p),
{
    assert(u.y * (p.z * g) == g * (u.y * p.z)) by (nonlinear_arith);
    assert(u.z * (p.y * g) == g * (u.z * p.y)) by (nonlinear_arith);
    assert(u.z * (p.x * g) == g * (u.z * p.x)) by (nonlinear_arith);
    assert(u.x * (p.z * g) == g * (u.x * p.z)) by (nonlinear_arith);
    assert(u.x * (p.y * g) == g * (u.x * p.y)) by (nonlinear_arith);
    assert(u.y * (p.x * g) == g * (u.y * p.x)) by (nonlinear_arith);
    let a = u.y * p.z;
    let b = u.z * p.y;
    assert(g * a - g * b == g * (a - b)) by (nonlinear_arith);
    let c = u.z * p.x;
    let d = u.x * p.z;
    assert(g * c - g * d == g * (c - d)) by (nonlinear_arith);
    let e = u.x * p.y;
    let f = u.y * p.x;
    assert(g * e - g * f == g * (e - f)) by (nonlinear_arith);
}

/// Divide a non-zero integer vector by its component gcd.
fn make_primitive(w: IVec3) -> (res: (IVec3, i64))
    requires
        !w.is_zero_spec(),
        w.x != i64::MIN,
        w.y != i64::MIN,
        w.z != i64::MIN,
    ensures
        res.1 > 0,
        res.1 as nat == vec_gcd(w),
        res.0.x as int * res.1 as int == w.x as int,
        res.0.y as int * res.1 as int == w.y as int,
        res.0.z as int * res.1 as int == w.z as int,
        is_primitive(res.0),
        abs(res.0.x as int) <= abs(w.x as int),
        abs(res.0.y as int) <= abs(w.y as int),
        abs(res.0.z as int) <= abs(w.z as int),
{
    let g1 = gcd(w.x, w.y);
    let g = gcd(g1, w.z);
    proof {
        lemma_gcd3_basics(abs(w.x as int), abs(w.y as int), abs(w.z as int));
        assert(g as nat == vec_gcd(w));
        lemma_divides_of_abs(g as int, w.x as int);
        lemma_divides_of_abs(g as int, w.y as int);
        lemma_divides_of_abs(g as int, w.z as int);
    }
    let px = div_exact(w.x, g);
    let py = div_exact(w.y, g);
    let pz = div_exact(w.z, g);
    let p = IVec3 { x: px, y: py, z: pz };
    proof {
        assert(abs(w.x as int) == (g as int) * (abs(px as int) as int) && abs(w.y as int) == (
        g as int) * (abs(py as int) as int) && abs(w.z as int) == (g as int) * (abs(
            pz as int,
        ) as int)) by (nonlinear_arith)
            requires
                px as int * (g as int) == w.x as int,
                py as int * (g as int) == w.y as int,
                pz as int * (g as int) == w.z as int,
                (g as int) > 0,
        ;
        lemma_gcd3_scale(g as nat, abs(px as int), abs(py as int), abs(pz as int));
        assert(vec_gcd(w) == (g as nat) * vec_gcd(p));
        assert(vec_gcd(p) == 1) by (nonlinear_arith)
            requires
                (g as int) * (vec_gcd(p) as int) == g as int,
                (g as int) > 0,
        ;
    }
    (p, g)
}

/// Two primitive integer vectors spanning the lattice plane orthogonal
/// to the Miller triple (h, k, l): each has zero dot product with
/// (h, k, l), each has component gcd 1, and their cross product is
/// non-zero, so they are linearly independent.
pub fn find_primitive_in_plane_basis(h: i32, k: i32, l: i32) -> (res: Result<
    (IVec3, IVec3),
    SurfaceError,
>)
    requires
        h != i32::MIN,
        k != i32::MIN,
        l != i32::MIN,
    ensures
        res is Err <==> (h == 0 && k == 0 && l == 0),
        res matches Err(e) ==> e == SurfaceError::DegenerateIndices,
        res matches Ok(uv) ==> ({
            let n = miller_vec(h, k, l);
            &&& n.dot_spec(uv.0) == 0
            &&& n.dot_spec(uv.1) == 0
            &&& is_primitive(uv.0)
            &&& is_primitive(uv.1)
            &&& !(cross_x(uv.0, uv.1) == 0 && cross_y(uv.0, uv.1) == 0 && cross_z(uv.0, uv.1)
                == 0)
            &&& uv.0.bounded_by(miller_mag(h, k, l))
            &&& uv.1.bounded_by(2 * miller_mag(h, k, l) * miller_mag(h, k, l))
        }),
{
    if h == 0 && k == 0 && l == 0 {
        return Err(SurfaceError::DegenerateIndices);
    }
    let n = IVec3 { x: h as i64, y: k as i64, z: l as i64 };
    let ghost m = miller_mag(h, k, l);

    // Trial vector: the z axis, or the y axis when (h, k, l) is along z.
    let t = IVec3 { x: 0, y: 0, z: 1 };
    let u_raw0 = n.cross(&t);
    let u_raw: IVec3;
    if u_raw0.x == 0 && u_raw0.y == 0 && u_raw0.z == 0 {
        let t2 = IVec3 { x: 0, y: 1, z: 0 };
        u_raw = n.cross(&t2);
        proof {
            lemma_cross_orthogonal(n, t2);
        }
    } else {
        u_raw = u_raw0;
        proof {
            lemma_cross_orthogonal(n, t);
        }
    }
    assert(n.dot_spec(u_raw) == 0);
    assert(!u_raw.is_zero_spec());
    assert(u_raw.bounded_by(m));

    let (u, gu) = make_primitive(u_raw);
    proof {
        lemma_scaled_dot(n, u, u_raw, gu as int);
        assert(n.dot_spec(u) == 0) by (nonlinear_arith)
            requires
                (gu as int) * n.dot_spec(u) == 0,
                (gu as int) > 0,
        ;
        assert(!u.is_zero_spec());
        assert(u.bounded_by(m));
    }

    let v_raw = n.cross(&u);
    proof {
        lemma_cross_orthogonal(n, u);
        lemma_triple_product(n, u, v_raw);
        lemma_norm2_basics(u);
        if v_raw.is_zero_spec() {
            // Each component of n x u vanishing forces n itself to
            // vanish, against the degeneracy check above.
            assert(n.x * u.norm2_spec() == 0);
            assert(n.y * u.norm2_spec() == 0);
            assert(n.z * u.norm2_spec() == 0);
            assert(n.x == 0 && n.y == 0 && n.z == 0) by (nonlinear_arith)
                requires
                    n.x * u.norm2_spec() == 0,
                    n.y * u.norm2_spec() == 0,
                    n.z * u.norm2_spec() == 0,
                    u.norm2_spec() > 0,
            ;
            assert(false);
        }
        assert({
            &&& -(m * m) <= n.y * u.z <= m * m
            &&& -(m * m) <= n.z * u.y <= m * m
            &&& -(m * m) <= n.z * u.x <= m * m
            &&& -(m * m) <= n.x * u.z <= m * m
            &&& -(m * m) <= n.x * u.y <= m * m
            &&& -(m * m) <= n.y * u.x <= m * m
        }) by (nonlinear_arith)
            requires
                n.bounded_by(m),
                u.bounded_by(m),
                m >= 0,
        ;
        assert((2 * m) * m == 2 * (m * m)) by (nonlinear_arith);
        assert(m * m <= 4611686014132420609) by (nonlinear_arith)
            requires
                0 <= m <= 2147483647,
        ;
        assert(v_raw.bounded_by(2 * m * m));
    }

    let (v, gv) = make_primitive(v_raw);
    proof {
        lemma_scaled_dot(n, v, v_raw, gv as int);
        assert(n.dot_spec(v) == 0) by (nonlinear_arith)
            requires
                (gv as int) * n.dot_spec(v) == 0,
                (gv as int) > 0,
        ;
        assert(v.bounded_by(2 * m * m));
        lemma_scaled_cross(u, v, v_raw, gv as int);
        if cross_x(u, v) == 0 && cross_y(u, v) == 0 && cross_z(u, v) == 0 {
            assert(n.x * u.norm2_spec() == 0);
            assert(n.y * u.norm2_spec() == 0);
            assert(n.z * u.norm2_spec() == 0);
            assert(n.x == 0 && n.y == 0 && n.z == 0) by (nonlinear_arith)
                requires
                    n.x * u.norm2_spec() == 0,
                    n.y * u.norm2_spec() == 0,
                    n.z * u.norm2_spec() == 0,
                    u.norm2_spec() > 0,
            ;
            assert(false);
        }
    }
    Ok((u, v))
}

/// Integer dot of a Miller triple with a candidate stacking vector.
pub open spec fn stack_dot(h: i32, k: i32, l: i32, a: int, b: int, c: int) -> int {
    (h as int) * a + (k as int) * b + (l as int) * c
}

/// (a, b, c) precedes (x, y, z) lexicographically.
pub open spec fn lex_before(a: int, b: int, c: int, x: int, y: int, z: int) -> bool {
    a < x || (a == x && (b < y || (b == y && c < z)))
}

/// Search the integer cube [-10, 10]^3, in lexicographic order, for
/// the first stacking vector whose dot with (h, k, l) equals
/// gcd(|h|, |k|, |l|); when the cube holds no solution, fall back to
/// the unit vector along the first non-zero index.
pub fn find_stacking_vector(h: i32, k: i32, l: i32) -> (w: IVec3)
    requires
        h != i32::MIN,
        k != i32::MIN,
        l != i32::MIN,
    ensures
        ({
            let target = gcd3(abs(h as int), abs(k as int), abs(l as int)) as int;
            let n = miller_vec(h, k, l);
            ||| (n.dot_spec(w) == target && w.bounded_by(10) && (forall|a: int, b: int, c: int|
                -10 <= a <= 10 && -10 <= b <= 10 && -10 <= c <= 10 && lex_before(
                    a,
                    b,
                    c,
                    w.x as int,
                    w.y as int,
                    w.z as int,
                ) ==> #[trigger] stack_dot(h, k, l, a, b, c) != target))
            ||| ((forall|a: int, b: int, c: int|
                -10 <= a <= 10 && -10 <= b <= 10 && -10 <= c <= 10 ==> #[trigger] stack_dot(
                    h,
                    k,
                    l,
                    a,
                    b,
                    c,
                ) != target) && w == (if h != 0 {
                IVec3 { x: 1, y: 0, z: 0 }
            } else if k != 0 {
                IVec3 { x: 0, y: 1, z: 0 }
            } else {
                IVec3 { x: 0, y: 0, z: 1 }
            }))
        }),
{
    let g1 = gcd(h as i64, k as i64);
    let target = gcd(g1, l as i64);
    assert(target as int == gcd3(abs(h as int), abs(k as int), abs(l as int)));
    let mut x: i64 = -10;
    while x <= 10
        invariant
            -10 <= x <= 11,
            target as int == gcd3(abs(h as int), abs(k as int), abs(l as int)),
            forall|a: int, b: int, c: int|
                -10 <= a < x && -10 <= b <= 10 && -10 <= c <= 10 ==> #[trigger] stack_dot(
                    h,
                    k,
                    l,
                    a,
                    b,
                    c,
                ) != target as int,
        decreases 11 - x,
    {
        let mut y: i64 = -10;
        while y <= 10
            invariant
                -10 <= x <= 10,
                -10 <= y <= 11,
                target as int == gcd3(abs(h as int), abs(k as int), abs(l as int)),
                forall|a: int, b: int, c: int|
                    -10 <= a < x && -10 <= b <= 10 && -10 <= c <= 10 ==> #[trigger] stack_dot(
                        h,
                        k,
                        l,
                        a,
                        b,
                        c,
                    ) != target as int,
                forall|b: int, c: int|
                    -10 <= b < y && -10 <= c <= 10 ==> #[trigger] stack_dot(
                        h,
                        k,
                        l,
                        x as int,
                        b,
                        c,
                    ) != target as int,
            decreases 11 - y,
        {
            let mut z: i64 = -10;
            while z <= 10
                invariant
                    -10 <= x <= 10,
                    -10 <= y <= 10,
                    -10 <= z <= 11,
                    target as int == gcd3(abs(h as int), abs(k as int), abs(l as int)),
                    forall|a: int, b: int, c: int|
                        -10 <= a < x && -10 <= b <= 10 && -10 <= c <= 10 ==> #[trigger] stack_dot(
                            h,
                            k,
                            l,
                            a,
                            b,
                            c,
                        ) != target as int,
                    forall|b: int, c: int|
                        -10 <= b < y && -10 <= c <= 10 ==> #[trigger] stack_dot(
                            h,
                            k,
                            l,
                            x as int,
                            b,
                            c,
                        ) != target as int,
                    forall|c: int|
                        -10 <= c < z ==> #[trigger] stack_dot(h, k, l, x as int, y as int, c)
                            != target as int,
                decreases 11 - z,
            {
                proof {
                    assert(-30_000_000_000 <= (h as int) * (x as int) <= 30_000_000_000
                        && -30_000_000_000 <= (k as int) * (y as int) <= 30_000_000_000
                        && -30_000_000_000 <= (l as int) * (z as int) <= 30_000_000_000)
                        by (nonlinear_arith)
                        requires
                            -10 <= x as int <= 10,
                            -10 <= y as int <= 10,
                            -10 <= z as int <= 10,
                    ;
                }
                let d = (h as i64) * x + (k as i64) * y + (l as i64) * z;
                assert(d as int == stack_dot(h, k, l, x as int, y as int, z as int));
                if d == target {
                    proof {
                        assert forall|a: int, b: int, c: int|
                            -10 <= a <= 10 && -10 <= b <= 10 && -10 <= c <= 10 && lex_before(
                                a,
                                b,
                                c,
                                x as int,
                                y as int,
                                z as int,
                            ) implies #[trigger] stack_dot(h, k, l, a, b, c)
                            != target as int by {
                            if a == x as int && b == y as int {
                                assert(c < z as int);
                            } else if a == x as int {
                                assert(b < y as int);
                            } else {
                                assert(a < x as int);
                            }
                        }
                    }
                    return IVec3 { x, y, z };
                }
                z = z + 1;
            }
            assert(forall|c: int|
                -10 <= c <= 10 ==> #[trigger] stack_dot(h, k, l, x as int, y as int, c)
                    != target as int);
            y = y + 1;
        }
        assert(forall|b: int, c: int|
            -10 <= b <= 10 && -10 <= c <= 10 ==> #[trigger] stack_dot(h, k, l, x as int, b, c)
                != target as int);
        x = x + 1;
    }
    if h != 0 {
        IVec3 { x: 1, y: 0, z: 0 }
    } else if k != 0 {
        IVec3 { x: 0, y: 1, z: 0 }
    } else {
        IVec3 { x: 0, y: 0, z: 1 }
    }
}

} // verus!
