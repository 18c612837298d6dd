//! Exact rational scalars.
//!
//! Every scalar the engine computes with — node values, path coordinates,
//! curve parameters — is a rational number held in canonical form
//! (positive denominator, numerator and denominator coprime). Canonical form
//! makes equality structural and results bit-exact and deterministic, which
//! is what the cache's fingerprinting scheme needs.

use vstd::prelude::*;

verus! {

use vstd::arithmetic::div_mod::lemma_fundamental_div_mod;
use vstd::arithmetic::div_mod::lemma_fundamental_div_mod_converse;

/// Numerators and denominators of values that arithmetic accepts as inputs
/// stay within this limit, so that raw cross-multiplication products fit an
/// `i128` with room to spare.
pub const RAT_LIMIT: i128 = 0x4000_0000_0000_0000;

/// Coordinates and curve parameters handed to the geometry kernel stay within
/// this much smaller limit, so that the three levels of exact de Casteljau
/// arithmetic fit an `i128`.
pub const COORD_LIMIT: i128 = 65536;

/// An exact rational number in canonical form: `d > 0` and `gcd(|n|, d) == 1`.
#[derive(Clone, Copy, PartialEq, Eq, Structural, Debug)]
pub struct Rat {
    pub n: i128,
    pub d: i128,
}

/// Well-formed rational: positive denominator.
pub open spec fn rat_wf(r: Rat) -> bool {
    r.d > 0
}

/// `r` represents the exact fraction `n / d`.
pub open spec fn rat_is(r: Rat, n: int, d: int) -> bool {
    d != 0 && r.d > 0 && r.n * d == n * r.d
}

/// Magnitude bound under which arithmetic on `r` is accepted.
pub open spec fn rat_in_range(r: Rat) -> bool {
    0 < r.d <= RAT_LIMIT && -RAT_LIMIT <= r.n <= RAT_LIMIT
}

/// Magnitude bound for geometry inputs.
pub open spec fn rat_small(r: Rat) -> bool {
    0 < r.d <= COORD_LIMIT && -COORD_LIMIT <= r.n <= COORD_LIMIT
}

pub open spec fn abs_i(n: int) -> int {
    if n < 0 {
        -n
    } else {
        n
    }
}

/// Greatest common divisor.
pub open spec fn gcd(a: nat, b: nat) -> nat
    decreases b,
{
    if b == 0 {
        a
    } else {
        gcd(b, a % b)
    }
}

/// `d` divides `n` exactly.
pub open spec fn divides(d: int, n: int) -> bool {
    exists|k: int| n == #[trigger] (d * k)
}

pub proof fn lemma_gcd_divides(a: nat, b: nat)
    ensures
        divides(gcd(a, b) as int, a as int),
        divides(gcd(a, b) as int, b as int),
    decreases b,
{
    if b == 0 {
        assert(a as int == (a as int) * 1);
        assert(b as int == (a as int) * 0);
    } else {
        lemma_gcd_divides(b, a % b);
        let g = gcd(b, a % b) as int;
        let k1 = choose|k: int| b as int == #[trigger] (g * k);
        let k2 = choose|k: int| (a % b) as int == #[trigger] (g * k);
        lemma_fundamental_div_mod(a as int, b as int);
        let q = a as int / b as int;
        assert(a as int == (b as int) * q + (a % b) as int);
        assert(a as int == g * (k1 * q + k2)) by (nonlinear_arith)
            requires
                a as int == (b as int) * q + (a % b) as int,
                b as int == g * k1,
                (a % b) as int == g * k2,
        ;
    }
}

pub proof fn lemma_gcd_pos(a: nat, b: nat)
    ensures
        a > 0 || b > 0 ==> gcd(a, b) > 0,
    decreases b,
{
    if b != 0 {
        lemma_gcd_pos(b, a % b);
    }
}

pub proof fn lemma_gcd_le(a: nat, b: nat)
    ensures
        b > 0 ==> gcd(a, b) <= b,
{
    if b > 0 {
        lemma_gcd_divides(a, b);
        lemma_gcd_pos(a, b);
        let g = gcd(a, b) as int;
        let k = choose|kk: int| b as int == #[trigger] (g * kk);
        assert(g <= b as int) by (nonlinear_arith)
            requires
                b as int == g * k,
                g > 0,
                b as int > 0,
        ;
    }
}

/// If `g` divides `x` exactly, integer division by `g` is exact: `x / g * g == x`.
pub proof fn lemma_div_exact(x: int, g: int)
    requires
        g > 0,
        divides(g, x),
    ensures
        x == g * (x / g),
        forall|k: int| x == #[trigger] (g * k) ==> k == x / g,
{
    let k0 = choose|k: int| x == #[trigger] (g * k);
    lemma_fundamental_div_mod_converse(x, g, k0, 0);
    assert forall|k: int| x == #[trigger] (g * k) implies k == x / g by {
        assert(k == k0) by (nonlinear_arith)
            requires
                g * k == g * k0,
                g > 0,
        ;
    }
}

/// Magnitude bound on a product from bounds on its factors.
pub proof fn lemma_mul_bound(a: int, b: int, la: int, lb: int)
    requires
        -la <= a <= la,
        -lb <= b <= lb,
    ensures
        -(la * lb) <= a * b <= la * lb,
{
    assert(-(la * lb) <= a * b <= la * lb) by (nonlinear_arith)
        requires
            -la <= a <= la,
            -lb <= b <= lb,
    ;
}

/// A product of positives is positive.
pub proof fn lemma_mul_pos(a: int, b: int)
    requires
        a > 0,
        b > 0,
    ensures
        a * b > 0,
{
    assert(a * b > 0) by (nonlinear_arith)
        requires
            a > 0,
            b > 0,
    ;
}

/// The canonical form of the fraction `n / d`.
pub open spec fn rat_norm(n: int, d: int) -> Rat
    recommends
        d > 0,
{
    let g = gcd(abs_i(n) as nat, d as nat) as int;
    Rat { n: (n / g) as i128, d: (d / g) as i128 }
}

/// Canonical form represents the fraction it was built from, is well formed,
/// and is no larger in magnitude.
pub proof fn lemma_rat_norm(n: int, d: int)
    requires
        0 < d < RAW_LIMIT,
        -RAW_LIMIT < n < RAW_LIMIT,
    ensures
        rat_wf(rat_norm(n, d)),
        rat_is(rat_norm(n, d), n, d),
        rat_norm(n, d).d <= d,
        abs_i(rat_norm(n, d).n as int) <= abs_i(n),
        n >= 0 ==> rat_norm(n, d).n >= 0,
        n <= 0 ==> rat_norm(n, d).n <= 0,
{
    let a = abs_i(n);
    let g = gcd(a as nat, d as nat) as int;
    lemma_gcd_pos(a as nat, d as nat);
    lemma_gcd_divides(a as nat, d as nat);
    lemma_gcd_le(a as nat, d as nat);
    // g divides a, hence divides n whatever its sign.
    let ka = choose|k: int| a == #[trigger] (g * k);
    if n < 0 {
        assert(n == g * (-ka)) by (nonlinear_arith)
            requires
                a == g * ka,
                n == -a,
        ;
    }
    lemma_div_exact(n, g);
    lemma_div_exact(d, g);
    let n1 = n / g;
    let d1 = d / g;
    assert(d1 > 0) by (nonlinear_arith)
        requires
            d == g * d1,
            d > 0,
            g > 0,
    ;
    assert(n1 * d == n * d1) by (nonlinear_arith)
        requires
            n == g * n1,
            d == g * d1,
    ;
    assert(d1 <= d) by (nonlinear_arith)
        requires
            d == g * d1,
            g >= 1,
            d1 > 0,
    ;
    if n >= 0 {
        assert(n1 >= 0 && n1 <= n) by (nonlinear_arith)
            requires
                n == g * n1,
                g >= 1,
                n >= 0,
        ;
    } else {
        assert(n1 <= 0 && -n1 <= -n) by (nonlinear_arith)
            requires
                n == g * n1,
                g >= 1,
                n < 0,
        ;
    }
    // The casts back to i128 do not truncate.
    assert(rat_norm(n, d).n == n1 && rat_norm(n, d).d == d1);
}

fn gcd_exec(a: u128, b: u128) -> (g: u128)
    ensures
        g as nat == gcd(a as nat, b as nat),
    decreases b,
{
    if b == 0 {
        a
    } else {
        gcd_exec(b, a % b)
    }
}

/// Largest raw numerator or denominator magnitude `normalize` accepts; all
/// cross-multiplied intermediates in this crate stay below it.
pub const RAW_LIMIT: i128 = 0x4000_0000_0000_0000_0000_0000_0000_0000;

/// Reduce the fraction `n / d` to canonical form.
pub fn normalize(n: i128, d: i128) -> (r: Rat)
    requires
        0 < d < RAW_LIMIT,
        -RAW_LIMIT < n < RAW_LIMIT,
    ensures
        r == rat_norm(n as int, d as int),
        rat_wf(r),
        rat_is(r, n as int, d as int),
        r.d <= d,
        abs_i(r.n as int) <= abs_i(n as int),
{
    proof {
        lemma_rat_norm(n as int, d as int);
    }
    let m: u128 = if n >= 0 {
        n as u128
    } else {
        (-n) as u128
    };
    let g: u128 = gcd_exec(m, d as u128);
    proof {
        lemma_gcd_pos(m as nat, d as nat);
        lemma_gcd_divides(m as nat, d as nat);
        lemma_gcd_le(m as nat, d as nat);
        let gi = g as int;
        let ka = choose|k: int| m as int == #[trigger] (gi * k);
        if n < 0 {
            assert(n as int == gi * (-ka)) by (nonlinear_arith)
                requires
                    m as int == gi * ka,
                    n as int == -(m as int),
            ;
        }
        lemma_div_exact(n as int, gi);
        lemma_div_exact(m as int, gi);
        lemma_div_exact(d as int, gi);
        if n < 0 {
            assert(m as int / gi == -(n as int / gi)) by (nonlinear_arith)
                requires
                    n as int == gi * (n as int / gi),
                    m as int == gi * (m as int / gi),
                    m as int == -(n as int),
                    gi > 0,
            ;
        }
    }
    let q: u128 = m / g;
    let dq: u128 = d as u128 / g;
    let rn: i128 = if n >= 0 {
        q as i128
    } else {
        -(q as i128)
    };
    Rat { n: rn, d: dq as i128 }
}

pub open spec fn rat_add_spec(a: Rat, b: Rat) -> Rat {
    rat_norm(a.n * b.d + b.n * a.d, a.d * b.d)
}

pub open spec fn rat_sub_spec(a: Rat, b: Rat) -> Rat {
    rat_norm(a.n * b.d - b.n * a.d, a.d * b.d)
}

pub open spec fn rat_mul_spec(a: Rat, b: Rat) -> Rat {
    rat_norm(a.n * b.n, a.d * b.d)
}

pub open spec fn rat_div_spec(a: Rat, b: Rat) -> Rat
    recommends
        b.n != 0,
{
    if b.n < 0 {
        rat_norm(-(a.n * b.d), -(a.d * b.n))
    } else {
        rat_norm(a.n * b.d, a.d * b.n)
    }
}

/// Runtime check that `r` is within the range arithmetic accepts.
pub fn rat_check_range(r: Rat) -> (ok: bool)
    ensures
        ok == rat_in_range(r),
{
    0 < r.d && r.d <= RAT_LIMIT && -RAT_LIMIT <= r.n && r.n <= RAT_LIMIT
}

/// Runtime check that `r` is within the range the geometry kernel accepts.
pub fn rat_check_small(r: Rat) -> (ok: bool)
    ensures
        ok == rat_small(r),
{
    0 < r.d && r.d <= COORD_LIMIT && -COORD_LIMIT <= r.n && r.n <= COORD_LIMIT
}

proof fn lemma_range_products(a: Rat, b: Rat)
    requires
        rat_in_range(a),
        rat_in_range(b),
    ensures
        -RAW_LIMIT < a.n * b.d < RAW_LIMIT,
        -RAW_LIMIT < b.n * a.d < RAW_LIMIT,
        -RAW_LIMIT < a.n * b.n < RAW_LIMIT,
        -RAW_LIMIT < a.d * b.n < RAW_LIMIT,
        0 < a.d * b.d < RAW_LIMIT,
        -RAW_LIMIT < a.n * b.d + b.n * a.d < RAW_LIMIT,
        -RAW_LIMIT < a.n * b.d - b.n * a.d < RAW_LIMIT,
        b.n > 0 ==> a.d * b.n > 0,
        b.n < 0 ==> a.d * b.n < 0,
{
    assert(-RAW_LIMIT < a.n * b.d + b.n * a.d < RAW_LIMIT && -RAW_LIMIT < a.n * b.d - b.n * a.d
        < RAW_LIMIT && -RAW_LIMIT < a.n * b.d < RAW_LIMIT && -RAW_LIMIT < b.n * a.d < RAW_LIMIT
        && -RAW_LIMIT < a.n * b.n < RAW_LIMIT && -RAW_LIMIT < a.d * b.n < RAW_LIMIT && 0 < a.d
        * b.d < RAW_LIMIT && (b.n > 0 ==> a.d * b.n > 0) && (b.n < 0 ==> a.d * b.n < 0))
        by (nonlinear_arith)
        requires
            0 < a.d <= RAT_LIMIT,
            -RAT_LIMIT <= a.n <= RAT_LIMIT,
            0 < b.d <= RAT_LIMIT,
            -RAT_LIMIT <= b.n <= RAT_LIMIT,
            RAT_LIMIT == 0x4000_0000_0000_0000,
            RAW_LIMIT == 0x4000_0000_0000_0000_0000_0000_0000_0000,
    ;
}

/// Exact rational addition. Rejects inputs outside the accepted range instead
/// of overflowing.
pub fn rat_add(a: Rat, b: Rat) -> (r: Option<Rat>)
    ensures
        (r is Some) == (rat_in_range(a) && rat_in_range(b)),
        rat_in_range(a) && rat_in_range(b) ==> r == Some(rat_add_spec(a, b)),
        r matches Some(v) ==> rat_wf(v),
{
    if !rat_check_range(a) || !rat_check_range(b) {
        return None;
    }
    proof {
        lemma_range_products(a, b);
    }
    Some(normalize(a.n * b.d + b.n * a.d, a.d * b.d))
}

/// Exact rational subtraction.
pub fn rat_sub(a: Rat, b: Rat) -> (r: Option<Rat>)
    ensures
        (r is Some) == (rat_in_range(a) && rat_in_range(b)),
        rat_in_range(a) && rat_in_range(b) ==> r == Some(rat_sub_spec(a, b)),
        r matches Some(v) ==> rat_wf(v),
{
    if !rat_check_range(a) || !rat_check_range(b) {
        return None;
    }
    proof {
        lemma_range_products(a, b);
    }
    Some(normalize(a.n * b.d - b.n * a.d, a.d * b.d))
}

/// Exact rational multiplication.
pub fn rat_mul(a: Rat, b: Rat) -> (r: Option<Rat>)
    ensures
        (r is Some) == (rat_in_range(a) && rat_in_range(b)),
        rat_in_range(a) && rat_in_range(b) ==> r == Some(rat_mul_spec(a, b)),
        r matches Some(v) ==> rat_wf(v),
{
    if !rat_check_range(a) || !rat_check_range(b) {
        return None;
    }
    proof {
        lemma_range_products(a, b);
    }
    Some(normalize(a.n * b.n, a.d * b.d))
}

/// Exact rational division. `None` on a zero divisor as well as on inputs
/// outside the accepted range.
pub fn rat_div(a: Rat, b: Rat) -> (r: Option<Rat>)
    ensures
        (r is Some) == (rat_in_range(a) && rat_in_range(b) && b.n != 0),
        rat_in_range(a) && rat_in_range(b) && b.n != 0 ==> r == Some(rat_div_spec(a, b)),
        r matches Some(v) ==> rat_wf(v),
{
    if !rat_check_range(a) || !rat_check_range(b) || b.n == 0 {
        return None;
    }
    proof {
        lemma_range_products(a, b);
    }
    if b.n < 0 {
        Some(normalize(-(a.n * b.d), -(a.d * b.n)))
    } else {
        Some(normalize(a.n * b.d, a.d * b.n))
    }
}

/// The canonical form of `n / d`, accepting a negative or zero denominator.
pub open spec fn rat_of_spec(n: int, d: int) -> Rat
    recommends
        d != 0,
{
    if d < 0 {
        rat_norm(-n, -d)
    } else {
        rat_norm(n, d)
    }
}

/// Build the rational `n / d` in canonical form; `None` exactly when `d == 0`.
pub fn rat_new(n: i64, d: i64) -> (r: Option<Rat>)
    ensures
        (r is Some) == (d != 0),
        d != 0 ==> r == Some(rat_of_spec(n as int, d as int)),
        r matches Some(v) ==> rat_wf(v),
{
    if d == 0 {
        return None;
    }
    let n128: i128 = n as i128;
    let d128: i128 = d as i128;
    if d128 < 0 {
        Some(normalize(-n128, -d128))
    } else {
        Some(normalize(n128, d128))
    }
}

/// The integer `n` as a rational.
pub fn rat_int(n: i64) -> (r: Rat)
    ensures
        r.n == n as int,
        r.d == 1,
        rat_wf(r),
        -RAT_LIMIT <= n as int <= RAT_LIMIT ==> rat_in_range(r),
{
    Rat { n: n as i128, d: 1 }
}

/// `a <= b` as rationals, by cross multiplication.
pub open spec fn rat_le_spec(a: Rat, b: Rat) -> bool
    recommends
        rat_wf(a),
        rat_wf(b),
{
    a.n * b.d <= b.n * a.d
}

/// Compare two in-range rationals.
pub fn rat_le(a: Rat, b: Rat) -> (r: bool)
    requires
        rat_in_range(a),
        rat_in_range(b),
    ensures
        r == rat_le_spec(a, b),
{
    proof {
        lemma_range_products(a, b);
    }
    a.n * b.d <= b.n * a.d
}

} // verus!
