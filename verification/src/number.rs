//! Divisibility and greatest-common-divisor arithmetic for the integer
//! lattice computations.

use vstd::prelude::*;
use vstd::arithmetic::div_mod::{
    lemma_fundamental_div_mod, lemma_fundamental_div_mod_converse_mod, lemma_div_multiples_vanish,
};
use vstd::math::abs;

verus! {

/// `d` evenly divides `a`.
pub open spec fn divides(d: int, a: int) -> bool {
    exists|q: int| a == #[trigger] (d * q)
}

/// Greatest common divisor by the Euclidean recursion.
pub open spec fn gcd_nat(a: nat, b: nat) -> nat
    decreases b,
{
    if b == 0 {
        a
    } else {
        gcd_nat(b, a % b)
    }
}

/// Greatest common divisor of three values, folded pairwise as the
/// basis search does.
pub open spec fn gcd3(a: nat, b: nat, c: nat) -> nat {
    gcd_nat(gcd_nat(a, b), c)
}

pub proof fn lemma_divides_combo(d: int, x: int, y: int, c: int)
    requires
        divides(d, x),
        divides(d, y),
    ensures
        divides(d, x * c + y),
{
    let kx = choose|k: int| x == #[trigger] (d * k);
    let ky = choose|k: int| y == #[trigger] (d * k);
    assert(x * c + y == d * (kx * c + ky)) by (nonlinear_arith)
        requires
            x == d * kx,
            y == d * ky,
    ;
}

/// The gcd divides both of its arguments.
pub proof fn lemma_gcd_divides(a: nat, b: nat)
    ensures
        divides(gcd_nat(a, b) as int, a as int),
        divides(gcd_nat(a, b) as int, b as int),
    decreases b,
{
    if b == 0 {
        assert(a as int == gcd_nat(a, b) as int * 1);
        assert(0int == gcd_nat(a, b) as int * 0);
    } else {
        lemma_gcd_divides(b, a % b);
        let g = gcd_nat(b, a % b) as int;
        lemma_fundamental_div_mod(a as int, b as int);
        lemma_divides_combo(g, b as int, (a % b) as int, a as int / b as int);
        assert(b as int * (a as int / b as int) + (a % b) as int == a as int);
    }
}

/// The gcd is zero exactly when both arguments are zero.
pub proof fn lemma_gcd_pos(a: nat, b: nat)
    ensures
        (gcd_nat(a, b) == 0) <==> (a == 0 && b == 0),
    decreases b,
{
    if b != 0 {
        lemma_gcd_pos(b, a % b);
    }
}

/// Scaling both arguments scales the remainder.
proof fn lemma_mod_scale(g: nat, a: nat, b: nat)
    requires
        g > 0,
        b > 0,
    ensures
        (g * a) % (g * b) == g * (a % b),
    decreases 0nat,
{
    let q = a as int / b as int;
    let r = (a % b) as int;
    lemma_fundamental_div_mod(a as int, b as int);
    assert(g as int * a as int == q * (g as int * b as int) + g as int * r) by (nonlinear_arith)
        requires
            a as int == b as int * q + r,
    ;
    assert(0 <= g as int * r && g as int * r < g as int * b as int) by (nonlinear_arith)
        requires
            0 <= r,
            r < (b as int),
            (g as int) > 0,
    ;
    lemma_fundamental_div_mod_converse_mod(
        (g * a) as int,
        (g * b) as int,
        q,
        g as int * r,
    );
}

/// The gcd distributes over a common positive factor.
pub proof fn lemma_gcd_scale(g: nat, a: nat, b: nat)
    requires
        g > 0,
    ensures
        gcd_nat(g * a, g * b) == g * gcd_nat(a, b),
    decreases b,
{
    if b == 0 {
        assert(g * b == 0);
    } else {
        assert(g * b != 0) by (nonlinear_arith)
            requires
                g > 0,
                b > 0,
        ;
        lemma_mod_scale(g, a, b);
        lemma_gcd_scale(g, b, a % b);
    }
}

/// Divisibility is transitive.
pub proof fn lemma_divides_trans(a: int, b: int, c: int)
    requires
        divides(a, b),
        divides(b, c),
    ensures
        divides(a, c),
{
    let k1 = choose|k: int| b == #[trigger] (a * k);
    let k2 = choose|k: int| c == #[trigger] (b * k);
    assert(c == a * (k1 * k2)) by (nonlinear_arith)
        requires
            b == a * k1,
            c == b * k2,
    ;
}

/// A divisor of the absolute value divides the value itself.
pub proof fn lemma_divides_of_abs(d: int, x: int)
    requires
        divides(d, abs(x) as int),
    ensures
        divides(d, x),
{
    let k = choose|k: int| abs(x) as int == #[trigger] (d * k);
    if x >= 0 {
        assert(x == d * k);
    } else {
        assert(x == d * (-k)) by (nonlinear_arith)
            requires
                -x == d * k,
        ;
    }
}

/// The three-way gcd divides each argument and is zero exactly on the
/// zero triple.
pub proof fn lemma_gcd3_basics(a: nat, b: nat, c: nat)
    ensures
        divides(gcd3(a, b, c) as int, a as int),
        divides(gcd3(a, b, c) as int, b as int),
        divides(gcd3(a, b, c) as int, c as int),
        (gcd3(a, b, c) == 0) <==> (a == 0 && b == 0 && c == 0),
{
    lemma_gcd_divides(a, b);
    lemma_gcd_divides(gcd_nat(a, b), c);
    lemma_gcd_pos(a, b);
    lemma_gcd_pos(gcd_nat(a, b), c);
    lemma_divides_trans(gcd3(a, b, c) as int, gcd_nat(a, b) as int, a as int);
    lemma_divides_trans(gcd3(a, b, c) as int, gcd_nat(a, b) as int, b as int);
}

/// The three-way gcd distributes over a common positive factor.
pub proof fn lemma_gcd3_scale(g: nat, a: nat, b: nat, c: nat)
    requires
        g > 0,
    ensures
        gcd3(g * a, g * b, g * c) == g * gcd3(a, b, c),
{
    lemma_gcd_scale(g, a, b);
    lemma_gcd_scale(g, gcd_nat(a, b), c);
}

/// Euclidean gcd of the absolute values of two machine integers.
pub fn gcd(a: i64, b: i64) -> (g: i64)
    requires
        a != i64::MIN,
        b != i64::MIN,
    ensures
        g as nat == gcd_nat(abs(a as int), abs(b as int)),
        g >= 0,
{
    let mut x: i64 = if a < 0 { -a } else { a };
    let mut y: i64 = if b < 0 { -b } else { b };
    while y != 0
        invariant
            x >= 0,
            y >= 0,
            gcd_nat(x as nat, y as nat) == gcd_nat(abs(a as int), abs(b as int)),
        decreases y,
    {
        let t = y;
        y = x % y;
        x = t;
    }
    x
}

/// Exact division of a multiple by a positive divisor.
pub fn div_exact(x: i64, g: i64) -> (q: i64)
    requires
        g > 0,
        x != i64::MIN,
        divides(g as int, x as int),
    ensures
        q as int * g as int == x as int,
        abs(q as int) <= abs(x as int),
{
    let qv: i64 = if x >= 0 { x / g } else { -((-x) / g) };
    proof {
        let k = choose|k: int| x as int == #[trigger] (g as int * k);
        if x >= 0 {
            assert(k >= 0) by (nonlinear_arith)
                requires
                    x as int == g as int * k,
                    (x as int) >= 0,
                    (g as int) > 0,
            ;
            lemma_div_multiples_vanish(k, g as int);
            assert(x as int / g as int == k);
        } else {
            assert(-(x as int) == g as int * (-k) && -k >= 0) by (nonlinear_arith)
                requires
                    x as int == g as int * k,
                    (x as int) < 0,
                    (g as int) > 0,
            ;
            lemma_div_multiples_vanish(-k, g as int);
            assert((-(x as int)) / g as int == -k);
        }
        assert(abs(qv as int) <= abs(x as int)) by (nonlinear_arith)
            requires
                x as int == g as int * (qv as int),
                (g as int) >= 1,
        ;
    }
    qv
}

} // verus!
