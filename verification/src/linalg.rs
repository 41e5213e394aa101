//! Integer 3-vectors and the algebraic identities behind the
//! Miller-plane basis construction.

use vstd::prelude::*;

verus! {

/// An integer vector in the bulk lattice's fractional coordinates.
#[derive(Debug, Clone, Copy, PartialEq, Eq, Structural)]
pub struct IVec3 {
    pub x: i64,
    pub y: i64,
    pub z: i64,
}

/// First component of the cross product.
pub open spec fn cross_x(a: IVec3, b: IVec3) -> int {
    a.y * b.z - a.z * b.y
}

/// Second component of the cross product.
pub open spec fn cross_y(a: IVec3, b: IVec3) -> int {
    a.z * b.x - a.x * b.z
}

/// Third component of the cross product.
pub open spec fn cross_z(a: IVec3, b: IVec3) -> int {
    a.x * b.y - a.y * b.x
}

impl IVec3 {
    /// Mathematical dot product of two vectors.
    pub open spec fn dot_spec(self, o: IVec3) -> int {
        self.x * o.x + self.y * o.y + self.z * o.z
    }

    /// Squared Euclidean norm.
    pub open spec fn norm2_spec(self) -> int {
        self.dot_spec(self)
    }

    /// The zero vector.
    pub open spec fn is_zero_spec(self) -> bool {
        self.x == 0 && self.y == 0 && self.z == 0
    }

    /// Every component lies in `[-m, m]`.
    pub open spec fn bounded_by(self, m: int) -> bool {
        -m <= self.x <= m && -m <= self.y <= m && -m <= self.z <= m
    }

    pub fn new(x: i64, y: i64, z: i64) -> (v: IVec3)
        ensures
            v == (IVec3 { x, y, z }),
    {
        IVec3 { x, y, z }
    }

    /// Dot product; the bound keeps the three summed products inside `i64`.
    pub fn dot(&self, o: &IVec3) -> (d: i64)
        requires
            self.bounded_by(1_000_000_000),
            o.bounded_by(1_000_000_000),
        ensures
            d as int == self.dot_spec(*o),
    {
        proof {
            assert(-1_000_000_000_000_000_000 <= self.x * o.x <= 1_000_000_000_000_000_000
                && -1_000_000_000_000_000_000 <= self.y * o.y <= 1_000_000_000_000_000_000
                && -1_000_000_000_000_000_000 <= self.z * o.z <= 1_000_000_000_000_000_000)
                by (nonlinear_arith)
                requires
                    self.bounded_by(1_000_000_000),
                    o.bounded_by(1_000_000_000),
            ;
        }
        self.x * o.x + self.y * o.y + self.z * o.z
    }

    /// Cross product; the bound keeps each two-product difference inside `i64`.
    pub fn cross(&self, o: &IVec3) -> (c: IVec3)
        requires
            self.bounded_by(2_147_483_647),
            o.bounded_by(2_147_483_647),
        ensures
            c.x as int == cross_x(*self, *o),
            c.y as int == cross_y(*self, *o),
            c.z as int == cross_z(*self, *o),
    {
        proof {
            assert({
                let m = 4_611_686_014_132_420_609int;
                &&& -m <= self.y * o.z <= m
                &&& -m <= self.z * o.y <= m
                &&& -m <= self.z * o.x <= m
                &&& -m <= self.x * o.z <= m
                &&& -m <= self.x * o.y <= m
                &&& -m <= self.y * o.x <= m
            })
                by (nonlinear_arith)
                requires
                    self.bounded_by(2_147_483_647),
                    o.bounded_by(2_147_483_647),
            ;
        }
        IVec3 {
            x: self.y * o.z - self.z * o.y,
            y: self.z * o.x - self.x * o.z,
            z: self.x * o.y - self.y * o.x,
        }
    }
}

/// A vector is orthogonal to its cross product with any other vector,
/// and so is the other vector.
pub proof fn lemma_cross_orthogonal(a: IVec3, b: IVec3)
    ensures
        a.x * cross_x(a, b) + a.y * cross_y(a, b) + a.z * cross_z(a, b) == 0,
        b.x * cross_x(a, b) + b.y * cross_y(a, b) + b.z * cross_z(a, b) == 0,
{
    assert(a.x * (a.y * b.z - a.z * b.y) + a.y * (a.z * b.x - a.x * b.z) + a.z * (a.x * b.y
        - a.y * b.x) == 0) by (nonlinear_arith);
    assert(b.x * (a.y * b.z - a.z * b.y) + b.y * (a.z * b.x - a.x * b.z) + b.z * (a.x * b.y
        - a.y * b.x) == 0) by (nonlinear_arith);
}

/// The squared norm is nonnegative and vanishes only on the zero vector;
/// each squared component is below the squared norm.
pub proof fn lemma_norm2_basics(a: IVec3)
    ensures
        a.norm2_spec() >= 0,
        (a.norm2_spec() == 0) <==> a.is_zero_spec(),
        a.x * a.x <= a.norm2_spec(),
        a.y * a.y <= a.norm2_spec(),
        a.z * a.z <= a.norm2_spec(),
{
    assert(a.x * a.x >= 0 && a.y * a.y >= 0 && a.z * a.z >= 0 && (a.x * a.x == 0 <==> a.x == 0)
        && (a.y * a.y == 0 <==> a.y == 0) && (a.z * a.z == 0 <==> a.z == 0)) by (nonlinear_arith);
}

/// Cauchy-Schwarz for integer 3-vectors, from the sum of squares
/// `sum_i ((u.u) v_i - (u.v) u_i)^2 = (u.u) ((u.u)(v.v) - (u.v)^2)`.
pub proof fn lemma_cauchy_schwarz(u: IVec3, v: IVec3)
    ensures
        u.dot_spec(v) * u.dot_spec(v) <= u.norm2_spec() * v.norm2_spec(),
{
    let d = u.dot_spec(v);
    let q = u.norm2_spec();
    let vv = v.norm2_spec();
    lemma_norm2_basics(u);
    lemma_norm2_basics(v);
    if q == 0 {
        assert(d == 0);
        assert(q * vv == 0);
        assert(d * d == 0) by (nonlinear_arith)
            requires
                d == 0,
        ;
    } else {
        lemma_cs_component(q, d, v.x as int, u.x as int);
        lemma_cs_component(q, d, v.y as int, u.y as int);
        lemma_cs_component(q, d, v.z as int, u.z as int);
        let a = v.x as int;
        let b = v.y as int;
        let c = v.z as int;
        let s = u.x as int;
        let t = u.y as int;
        let w = u.z as int;
        assert((q * q) * (a * a) + (q * q) * (b * b) + (q * q) * (c * c) == (q * q) * (a * a + b
            * b + c * c)) by (nonlinear_arith);
        assert((q * d) * (s * a) + (q * d) * (t * b) + (q * d) * (w * c) == (q * d) * (s * a + t
            * b + w * c)) by (nonlinear_arith);
        assert((d * d) * (s * s) + (d * d) * (t * t) + (d * d) * (w * w) == (d * d) * (s * s + t
            * t + w * w)) by (nonlinear_arith);
        assert((q * d) * d == q * (d * d)) by (nonlinear_arith);
        assert((d * d) * q == q * (d * d)) by (nonlinear_arith);
        assert((q * q) * vv - 2 * (q * (d * d)) + q * (d * d) == (q * q) * vv - q * (d * d));
        assert((q * q) * vv - q * (d * d) >= 0);
        assert((q * q) * vv == q * (q * vv)) by (nonlinear_arith);
        assert(q * vv >= d * d) by (nonlinear_arith)
            requires
                q * (q * vv) - q * (d * d) >= 0,
                q > 0,
        ;
    }
}

/// One component of the Cauchy-Schwarz square expansion:
/// `(q a - d s)^2 = q^2 a^2 - 2 q d (s a) + d^2 s^2`, and the square is
/// nonnegative.
proof fn lemma_cs_component(q: int, d: int, a: int, s: int)
    ensures
        (q * a - d * s) * (q * a - d * s) == (q * q) * (a * a) - 2 * ((q * d) * (s * a)) + (d * d)
            * (s * s),
        (q * a - d * s) * (q * a - d * s) >= 0,
{
    let p = q * a;
    let r = d * s;
    assert((p - r) * (p - r) == p * p - 2 * (p * r) + r * r) by (nonlinear_arith);
    assert((p - r) * (p - r) >= 0) by (nonlinear_arith);
    assert((q * a) * (q * a) == (q * q) * (a * a)) by (nonlinear_arith);
    assert((q * a) * (d * s) == (q * d) * (s * a)) by (nonlinear_arith);
    assert((d * s) * (d * s) == (d * d) * (s * s)) by (nonlinear_arith);
}

/// Vector triple product against one of its factors: with `w = n x u`,
/// `u x w = n (u . u) - u (n . u)`.
pub proof fn lemma_triple_product(n: IVec3, u: IVec3, w: IVec3)
    requires
        w.x == cross_x(n, u),
        w.y == cross_y(n, u),
        w.z == cross_z(n, u),
    ensures
        cross_x(u, w) == n.x * u.norm2_spec() - u.x * n.dot_spec(u),
        cross_y(u, w) == n.y * u.norm2_spec() - u.y * n.dot_spec(u),
        cross_z(u, w) == n.z * u.norm2_spec() - u.z * n.dot_spec(u),
{
    lemma_triple_scalar_x(n.x as int, n.y as int, n.z as int, u.x as int, u.y as int, u.z as int);
    lemma_triple_scalar_y(n.x as int, n.y as int, n.z as int, u.x as int, u.y as int, u.z as int);
    lemma_triple_scalar_z(n.x as int, n.y as int, n.z as int, u.x as int, u.y as int, u.z as int);
}

proof fn lemma_triple_scalar_x(p: int, q: int, r: int, s: int, t: int, w: int)
    ensures
        t * (p * t - q * s) - w * (r * s - p * w) == p * (s * s + t * t + w * w) - s * (p * s + q
            * t + r * w),
{
    assert(t * (p * t - q * s) == p * (t * t) - q * (s * t)) by (nonlinear_arith);
    assert(w * (r * s - p * w) == r * (s * w) - p * (w * w)) by (nonlinear_arith);
    assert(p * (s * s + t * t + w * w) == p * (s * s) + p * (t * t) + p * (w * w))
        by (nonlinear_arith);
    assert(s * (p * s + q * t + r * w) == s * (p * s) + s * (q * t) + s * (r * w))
        by (nonlinear_arith);
    assert(s * (p * s) == p * (s * s)) by (nonlinear_arith);
    assert(s * (q * t) == q * (s * t)) by (nonlinear_arith);
    assert(s * (r * w) == r * (s * w)) by (nonlinear_arith);
}

proof fn lemma_triple_scalar_y(p: int, q: int, r: int, s: int, t: int, w: int)
    ensures
        w * (q * w - r * t) - s * (p * t - q * s) == q * (s * s + t * t + w * w) - t * (p * s + q
            * t + r * w),
{
    assert(w * (q * w - r * t) == q * (w * w) - r * (t * w)) by (nonlinear_arith);
    assert(s * (p * t - q * s) == p * (s * t) - q * (s * s)) by (nonlinear_arith);
    assert(q * (s * s + t * t + w * w) == q * (s * s) + q * (t * t) + q * (w * w))
        by (nonlinear_arith);
    assert(t * (p * s + q * t + r * w) == t * (p * s) + t * (q * t) + t * (r * w))
        by (nonlinear_arith);
    assert(t * (p * s) == p * (s * t)) by (nonlinear_arith);
    assert(t * (q * t) == q * (t * t)) by (nonlinear_arith);
    assert(t * (r * w) == r * (t * w)) by (nonlinear_arith);
}

proof fn lemma_triple_scalar_z(p: int, q: int, r: int, s: int, t: int, w: int)
    ensures
        s * (r * s - p * w) - t * (q * w - r * t) == r * (s * s + t * t + w * w) - w * (p * s + q
            * t + r * w),
{
    assert(s * (r * s - p * w) == r * (s * s) - p * (s * w)) by (nonlinear_arith);
    assert(t * (q * w - r * t) == q * (t * w) - r * (t * t)) by (nonlinear_arith);
    assert(r * (s * s + t * t + w * w) == r * (s * s) + r * (t * t) + r * (w * w))
        by (nonlinear_arith);
    assert(w * (p * s + q * t + r * w) == w * (p * s) + w * (q * t) + w * (r * w))
        by (nonlinear_arith);
    assert(w * (p * s) == p * (s * w)) by (nonlinear_arith);
    assert(w * (q * t) == q * (t * w)) by (nonlinear_arith);
    assert(w * (r * w) == r * (w * w)) by (nonlinear_arith);
}

} // verus!
