//! Lagrange-Gauss reduction of a pair of integer lattice vectors: the
//! returned pair spans the same plane, is ordered by norm, and is
//! reduced (the mutual projection coefficient is at most one half).

use vstd::prelude::*;
use vstd::math::abs;
use vstd::arithmetic::div_mod::{lemma_fundamental_div_mod, lemma_div_pos_is_pos};
use crate::linalg::{IVec3, lemma_norm2_basics, lemma_cauchy_schwarz};

verus! {

/// The pair (a, b) is the image of (u0, v0) under the integer matrix
/// [[p, q], [r, s]] with determinant +-1, so both pairs generate the
/// same planar sublattice.
pub open spec fn unimodular_combo(
    u0: IVec3,
    v0: IVec3,
    a: IVec3,
    b: IVec3,
    p: int,
    q: int,
    r: int,
    s: int,
) -> bool {
    &&& (p * s - q * r == 1 || p * s - q * r == -1)
    &&& a.x == p * u0.x + q * v0.x
    &&& a.y == p * u0.y + q * v0.y
    &&& a.z == p * u0.z + q * v0.z
    &&& b.x == r * u0.x + s * v0.x
    &&& b.y == r * u0.y + s * v0.y
    &&& b.z == r * u0.z + s * v0.z
}

proof fn lemma_unimodular_update(r: int, s: int, m: int, p: int, q: int, a: int, b: int)
    ensures
        (r - m * p) * a + (s - m * q) * b == (r * a + s * b) - m * (p * a + q * b),
{
    assert((r - m * p) * a == r * a - (m * p) * a) by (nonlinear_arith);
    assert((s - m * q) * b == s * b - (m * q) * b) by (nonlinear_arith);
    assert((m * p) * a == m * (p * a)) by (nonlinear_arith);
    assert((m * q) * b == m * (q * b)) by (nonlinear_arith);
    assert(m * (p * a) + m * (q * b) == m * (p * a + q * b)) by (nonlinear_arith);
}

proof fn lemma_unimodular_det(p: int, q: int, r: int, s: int, m: int)
    ensures
        p * (s - m * q) - q * (r - m * p) == p * s - q * r,
        r * q - s * p == -(p * s - q * r),
{
    assert(p * (s - m * q) == p * s - p * (m * q)) by (nonlinear_arith);
    assert(q * (r - m * p) == q * r - q * (m * p)) by (nonlinear_arith);
    assert(p * (m * q) == q * (m * p)) by (nonlinear_arith);
    assert(r * q == q * r) by (nonlinear_arith);
    assert(s * p == p * s) by (nonlinear_arith);
}

/// Components small enough that the norm stays below this cap.
proof fn lemma_comp_bound(a: IVec3, n: int, m: int)
    requires
        a.norm2_spec() <= n,
        0 <= m,
        n <= m * m,
    ensures
        a.bounded_by(m),
{
    lemma_norm2_basics(a);
    assert(-m <= a.x <= m) by (nonlinear_arith)
        requires
            a.x * a.x <= m * m,
            m >= 0,
    ;
    assert(-m <= a.y <= m) by (nonlinear_arith)
        requires
            a.y * a.y <= m * m,
            m >= 0,
    ;
    assert(-m <= a.z <= m) by (nonlinear_arith)
        requires
            a.z * a.z <= m * m,
            m >= 0,
    ;
}

/// Nearest integer to `dotv / nsq`, ties rounded away from zero.
fn rounded_ratio(dotv: i64, nsq: i64) -> (mu: i64)
    requires
        0 < nsq <= 30_000_000_000_000_000,
        -30_000_000_000_000_000 <= dotv <= 30_000_000_000_000_000,
    ensures
        -(nsq as int) <= 2 * (dotv as int - mu as int * nsq as int) <= nsq as int,
        mu == 0 ==> 2 * abs(dotv as int) < nsq as int,
{
    let dot_abs: i64 = if dotv < 0 {
        -dotv
    } else {
        dotv
    };
    let q0: i64 = (2 * dot_abs + nsq) / (2 * nsq);
    let mu: i64 = if dotv < 0 {
        -q0
    } else {
        q0
    };
    proof {
        let s = 2 * (dot_abs as int) + nsq as int;
        let t = 2 * (nsq as int);
        lemma_fundamental_div_mod(s, t);
        lemma_div_pos_is_pos(s, t);
        assert(q0 as int == s / t);
        assert(t * (s / t) == (s / t) * t) by (nonlinear_arith);
        assert((s / t) * (2 * (nsq as int)) == 2 * ((s / t) * (nsq as int))) by (nonlinear_arith);
        // 2 (|dotv| - q0 nsq) == s % t - nsq, which lies in [-nsq, nsq)
        assert(-(nsq as int) <= 2 * ((dot_abs as int) - (q0 as int) * (nsq as int)) < nsq as int);
        if q0 == 0 {
            assert(s % t == s);
            assert(2 * (dot_abs as int) < nsq as int);
        }
        if dotv < 0 {
            assert((-(q0 as int)) * (nsq as int) == -((q0 as int) * (nsq as int)))
                by (nonlinear_arith);
        }
    }
    mu
}

/// Lagrange-Gauss reduction.  On return the first vector is no longer
/// than the second and twice the absolute mutual dot product is at most
/// the first vector's squared norm; a zero first vector returns the
/// pair unchanged beyond the initial norm ordering.
pub fn reduce_2d_integer(u0: IVec3, v0: IVec3) -> (res: (IVec3, IVec3))
    requires
        u0.bounded_by(100_000_000),
        v0.bounded_by(100_000_000),
    ensures
        res.0.norm2_spec() <= res.1.norm2_spec(),
        2 * abs(res.0.dot_spec(res.1)) <= res.0.norm2_spec(),
        exists|p: int, q: int, r: int, s: int|
            #[trigger] unimodular_combo(u0, v0, res.0, res.1, p, q, r, s),
{
    let mut u = u0;
    let mut v = v0;
    let ghost mut cp: int = 1;
    let ghost mut cq: int = 0;
    let ghost mut cr: int = 0;
    let ghost mut cs: int = 1;
    proof {
        assert(u.norm2_spec() <= 30_000_000_000_000_000 && v.norm2_spec()
            <= 30_000_000_000_000_000) by (nonlinear_arith)
            requires
                u.bounded_by(100_000_000),
                v.bounded_by(100_000_000),
        ;
        lemma_norm2_basics(u);
        lemma_norm2_basics(v);
    }
    let nu0 = u.dot(&u);
    let nv0 = v.dot(&v);
    if nu0 > nv0 {
        let t = u;
        u = v;
        v = t;
        proof {
            cp = 0;
            cq = 1;
            cr = 1;
            cs = 0;
        }
    }
    loop
        invariant
            u.norm2_spec() <= v.norm2_spec(),
            v.norm2_spec() <= 30_000_000_000_000_000,
            0 <= u.norm2_spec(),
            unimodular_combo(u0, v0, u, v, cp, cq, cr, cs),
        decreases u.norm2_spec() + v.norm2_spec(),
    {
        proof {
            lemma_norm2_basics(u);
            lemma_norm2_basics(v);
            lemma_comp_bound(u, 30_000_000_000_000_000, 180_000_000);
            lemma_comp_bound(v, 30_000_000_000_000_000, 180_000_000);
        }
        let dotv = u.dot(&v);
        let nsq = u.dot(&u);
        if nsq == 0 {
            proof {
                assert(u.is_zero_spec());
                assert(u.dot_spec(v) == 0) by (nonlinear_arith)
                    requires
                        u.is_zero_spec(),
                        u.dot_spec(v) == u.x * v.x + u.y * v.y + u.z * v.z,
                ;
            }
            proof {
                assert(unimodular_combo(u0, v0, u, v, cp, cq, cr, cs));
            }
            return (u, v);
        }
        proof {
            lemma_cauchy_schwarz(u, v);
            assert(u.norm2_spec() * v.norm2_spec() <= 900_000_000_000_000_000_000_000_000_000_000)
                by (nonlinear_arith)
                requires
                    0 <= u.norm2_spec() <= 30_000_000_000_000_000,
                    0 <= v.norm2_spec() <= 30_000_000_000_000_000,
            ;
            assert(-30_000_000_000_000_000 <= u.dot_spec(v) <= 30_000_000_000_000_000)
                by (nonlinear_arith)
                requires
                    u.dot_spec(v) * u.dot_spec(v) <= 900_000_000_000_000_000_000_000_000_000_000,
            ;
        }
        let mu = rounded_ratio(dotv, nsq);
        if mu == 0 {
            proof {
                assert(unimodular_combo(u0, v0, u, v, cp, cq, cr, cs));
            }
            return (u, v);
        }
        let ghost d = dotv as int;
        let ghost q = nsq as int;
        let ghost m = mu as int;
        let ghost r = d - m * q;
        let ghost ad = abs(d) as int;
        proof {
            // Bound mu * u_i so the update below stays inside i64:
            // (2 m q)^2 = (2d - 2r)^2 <= (2|d| + q)^2, and with
            // d^2 <= q (v.v) this cancels one q, leaving
            // 4 m^2 q <= 4 v.v + 4 |d| + q.
            let a2 = 2 * d - 2 * r;
            let b2 = 2 * ad + q;
            assert(a2 * a2 <= b2 * b2) by (nonlinear_arith)
                requires
                    -b2 <= a2 <= b2,
                    b2 >= 0,
            ;
            assert(ad * ad == d * d) by (nonlinear_arith)
                requires
                    ad == d || ad == -d,
            ;
            assert(b2 * b2 == 4 * (ad * ad) + 4 * (ad * q) + q * q) by (nonlinear_arith)
                requires
                    b2 == 2 * ad + q,
            ;
            assert(a2 == 2 * (m * q));
            assert((2 * (m * q)) * (2 * (m * q)) == 4 * ((m * m) * (q * q))) by (nonlinear_arith);
            assert(4 * ((m * m) * (q * q)) <= 4 * (d * d) + 4 * (ad * q) + q * q);
            assert(d * d <= q * v.norm2_spec());
            assert((m * m) * (q * q) == q * ((m * m) * q)) by (nonlinear_arith);
            assert(ad * q == q * ad) by (nonlinear_arith);
            assert(q * v.norm2_spec() == v.norm2_spec() * q) by (nonlinear_arith);
            assert(4 * (q * ((m * m) * q)) <= 4 * (v.norm2_spec() * q) + 4 * (q * ad) + q * q);
            assert(v.norm2_spec() * q == q * v.norm2_spec()) by (nonlinear_arith);
            assert(q * (4 * ((m * m) * q)) == 4 * (q * ((m * m) * q))) by (nonlinear_arith);
            assert(q * (4 * v.norm2_spec() + 4 * ad + q) == 4 * (q * v.norm2_spec()) + 4 * (q
                * ad) + q * q) by (nonlinear_arith);
            assert(q * (4 * ((m * m) * q)) <= q * (4 * v.norm2_spec() + 4 * ad + q));
            assert(4 * ((m * m) * q) <= 4 * v.norm2_spec() + 4 * ad + q) by (nonlinear_arith)
                requires
                    q * (4 * ((m * m) * q)) <= q * (4 * v.norm2_spec() + 4 * ad + q),
                    q > 0,
            ;
            assert((m * m) * q <= 70_000_000_000_000_000);
            assert(m * m >= 0) by (nonlinear_arith);
            assert((m * m) * (u.x * u.x) <= (m * m) * q && (m * m) * (u.y * u.y) <= (m * m) * q
                && (m * m) * (u.z * u.z) <= (m * m) * q) by (nonlinear_arith)
                requires
                    m * m >= 0,
                    u.x * u.x <= q,
                    u.y * u.y <= q,
                    u.z * u.z <= q,
            ;
            assert((m * u.x) * (m * u.x) == (m * m) * (u.x * u.x)) by (nonlinear_arith);
            assert((m * u.y) * (m * u.y) == (m * m) * (u.y * u.y)) by (nonlinear_arith);
            assert((m * u.z) * (m * u.z) == (m * m) * (u.z * u.z)) by (nonlinear_arith);
            assert(-270_000_000 <= m * u.x <= 270_000_000) by (nonlinear_arith)
                requires
                    (m * u.x) * (m * u.x) <= 70_000_000_000_000_000,
            ;
            assert(-270_000_000 <= m * u.y <= 270_000_000) by (nonlinear_arith)
                requires
                    (m * u.y) * (m * u.y) <= 70_000_000_000_000_000,
            ;
            assert(-270_000_000 <= m * u.z <= 270_000_000) by (nonlinear_arith)
                requires
                    (m * u.z) * (m * u.z) <= 70_000_000_000_000_000,
            ;
        }
        let cx = mu * u.x;
        let cy = mu * u.y;
        let cz = mu * u.z;
        let vn = IVec3 { x: v.x - cx, y: v.y - cy, z: v.z - cz };
        let vv = v.dot(&v);
        let nvn = vn.dot(&vn);
        proof {
            // ||v - m u||^2 == v.v - 2 m (u.v) + m^2 (u.u)
            assert((v.x - cx as int) * (v.x - cx as int) == v.x * v.x - 2 * (v.x * (cx as int)) + (
            cx as int) * (cx as int)) by (nonlinear_arith);
            assert((v.y - cy as int) * (v.y - cy as int) == v.y * v.y - 2 * (v.y * (cy as int)) + (
            cy as int) * (cy as int)) by (nonlinear_arith);
            assert((v.z - cz as int) * (v.z - cz as int) == v.z * v.z - 2 * (v.z * (cz as int)) + (
            cz as int) * (cz as int)) by (nonlinear_arith);
            assert(v.x * (m * u.x) == m * (u.x * v.x)) by (nonlinear_arith);
            assert(v.y * (m * u.y) == m * (u.y * v.y)) by (nonlinear_arith);
            assert(v.z * (m * u.z) == m * (u.z * v.z)) by (nonlinear_arith);
            assert(m * (u.x * v.x) + m * (u.y * v.y) + m * (u.z * v.z) == m * (u.x * v.x + u.y
                * v.y + u.z * v.z)) by (nonlinear_arith);
            assert((m * m) * (u.x * u.x) + (m * m) * (u.y * u.y) + (m * m) * (u.z * u.z) == (m * m)
                * (u.x * u.x + u.y * u.y + u.z * u.z)) by (nonlinear_arith);
            assert(nvn as int == vv as int - 2 * (m * d) + (m * m) * q);
        }
        if nvn >= vv {
            proof {
                // No norm progress forces |mu| = 1 and a tie: the pair
                // is already reduced.
                assert((m * m) * q + 2 * (m * r) <= 0) by {
                    assert(m * d == m * (m * q) + m * r) by (nonlinear_arith)
                        requires
                            d == m * q + r,
                    ;
                    assert(m * (m * q) == (m * m) * q) by (nonlinear_arith);
                };
                if m >= 1 {
                    assert(m * (-2 * r) <= m * q) by (nonlinear_arith)
                        requires
                            -2 * r <= q,
                            m >= 0,
                    ;
                    assert(m * (-2 * r) == -2 * (m * r)) by (nonlinear_arith);
                    assert((m * m) * q <= m * q);
                    assert(m <= 1) by (nonlinear_arith)
                        requires
                            (m * m) * q <= m * q,
                            q > 0,
                            m >= 1,
                    ;
                    assert(m == 1);
                    assert(m * r == r) by (nonlinear_arith)
                        requires
                            m == 1,
                    ;
                    assert((m * m) * q == q) by (nonlinear_arith)
                        requires
                            m == 1,
                    ;
                    assert(2 * r == -q);
                    assert(m * q == q) by (nonlinear_arith)
                        requires
                            m == 1,
                    ;
                    assert(2 * d == q);
                } else {
                    assert(m <= -1);
                    let p = -m;
                    assert(p * (2 * r) <= p * q) by (nonlinear_arith)
                        requires
                            2 * r <= q,
                            p >= 0,
                    ;
                    assert(p * (2 * r) == -(2 * (m * r))) by (nonlinear_arith)
                        requires
                            p == -m,
                    ;
                    assert((m * m) * q == (p * p) * q) by (nonlinear_arith)
                        requires
                            p == -m,
                    ;
                    assert((p * p) * q <= p * q);
                    assert(p <= 1) by (nonlinear_arith)
                        requires
                            (p * p) * q <= p * q,
                            q > 0,
                            p >= 1,
                    ;
                    assert(p == 1 && m == -1);
                    assert(m * r == -r) by (nonlinear_arith)
                        requires
                            m == -1,
                    ;
                    assert((m * m) * q == q) by (nonlinear_arith)
                        requires
                            m == -1,
                    ;
                    assert(2 * r == q);
                    assert(m * q == -q) by (nonlinear_arith)
                        requires
                            m == -1,
                    ;
                    assert(2 * d == -q);
                }
                assert(2 * abs(u.dot_spec(v)) <= u.norm2_spec());
                assert(unimodular_combo(u0, v0, u, v, cp, cq, cr, cs));
            }
            return (u, v);
        }
        proof {
            lemma_norm2_basics(vn);
            lemma_unimodular_update(cr, cs, m, cp, cq, u0.x as int, v0.x as int);
            lemma_unimodular_update(cr, cs, m, cp, cq, u0.y as int, v0.y as int);
            lemma_unimodular_update(cr, cs, m, cp, cq, u0.z as int, v0.z as int);
            lemma_unimodular_det(cp, cq, cr, cs, m);
            cr = cr - m * cp;
            cs = cs - m * cq;
            assert(unimodular_combo(u0, v0, u, vn, cp, cq, cr, cs));
        }
        v = vn;
        let nu2 = u.dot(&u);
        let nv2 = v.dot(&v);
        if nu2 > nv2 {
            let t = u;
            u = v;
            v = t;
            proof {
                lemma_unimodular_det(cp, cq, cr, cs, 0);
                let tp = cp;
                let tq = cq;
                cp = cr;
                cq = cs;
                cr = tp;
                cs = tq;
            }
        }
    }
}

} // verus!
