//! Unsigned rational numbers with exact, checked arithmetic.
//!
//! Beats, durations and tempi are rationals `num / den` with `den >= 1`.
//! Results are reduced by the greatest common divisor so that long chains
//! of additions keep small representations; an operation whose reduced
//! result does not fit in `u64` (or whose unreduced numerator does not fit
//! in `u128`) reports `None`.

use vstd::arithmetic::div_mod::{
    lemma_fundamental_div_mod, lemma_mod_multiples_basic,
};
use vstd::prelude::*;

verus! {

/// An unsigned rational number; well formed when `den >= 1`.
#[derive(Clone, Copy, Debug, PartialEq, Eq, Structural)]
pub struct Rat {
    pub num: u64,
    pub den: u64,
}

impl Rat {
    /// Well-formedness: the denominator is positive.
    pub open spec fn wf(self) -> bool {
        self.den >= 1
    }

    /// Mathematical equality of two rationals, by cross-multiplication.
    pub open spec fn same_value(self, other: Rat) -> bool {
        self.num * other.den == other.num * self.den
    }

    /// Mathematical `self <= other`, by cross-multiplication.
    pub open spec fn le(self, other: Rat) -> bool {
        self.num * other.den <= other.num * self.den
    }

    /// The rational `n / 1`.
    pub fn from_int(n: u64) -> (r: Rat)
        ensures
            r == (Rat { num: n, den: 1 }),
    {
        Rat { num: n, den: 1 }
    }

    /// Exact equality test of the represented values.
    pub fn eq_value(&self, other: &Rat) -> (r: bool)
        ensures
            r == self.same_value(*other),
    {
        mul_wide(self.num, other.den) == mul_wide(other.num, self.den)
    }

    /// Exact `<=` test of the represented values.
    pub fn le_value(&self, other: &Rat) -> (r: bool)
        ensures
            r == self.le(*other),
    {
        mul_wide(self.num, other.den) <= mul_wide(other.num, self.den)
    }
}

/// Full-width product of two `u64` values; never overflows `u128`.
pub fn mul_wide(a: u64, b: u64) -> (r: u128)
    ensures
        r == a as int * b as int,
{
    proof {
        assert(a as int * b as int <= u64::MAX as int * u64::MAX as int) by (nonlinear_arith)
            requires
                a <= u64::MAX,
                b <= u64::MAX,
        ;
    }
    (a as u128) * (b as u128)
}

/// Greatest common divisor, by Euclid's recursion.
pub open spec fn spec_gcd(a: nat, b: nat) -> nat
    decreases b,
{
    if b == 0 {
        a
    } else {
        spec_gcd(b, a % b)
    }
}

/// `spec_gcd` divides both arguments and is positive when either is.
pub proof fn lemma_gcd_divides(a: nat, b: nat)
    ensures
        a % spec_gcd(a, b) == 0 || spec_gcd(a, b) == 0,
        b % spec_gcd(a, b) == 0 || spec_gcd(a, b) == 0,
        a >= 1 || b >= 1 ==> spec_gcd(a, b) >= 1,
    decreases b,
{
    let g = spec_gcd(a, b);
    if b == 0 {
        if a >= 1 {
            lemma_mod_multiples_basic(1, a as int);
        }
    } else {
        lemma_gcd_divides(b, a % b);
        assert(g == spec_gcd(b, a % b));
        assert(g >= 1);
        // a = b * (a / b) + a % b, and g divides b and a % b.
        lemma_fundamental_div_mod(a as int, b as int);
        let q = a as int / b as int;
        lemma_fundamental_div_mod(b as int, g as int);
        lemma_fundamental_div_mod((a % b) as int, g as int);
        let b1 = b as int / g as int;
        let r1 = (a % b) as int / g as int;
        assert(a as int == (g as int) * (b1 * q + r1)) by (nonlinear_arith)
            requires
                a as int == b as int * q + (a % b) as int,
                b as int == g as int * b1,
                (a % b) as int == g as int * r1,
        ;
        lemma_mod_multiples_basic(b1 * q + r1, g as int);
        assert(((g as int) * (b1 * q + r1)) % (g as int) == 0);
    }
}

/// Reduce `n / d` by their gcd; `None` when the reduced parts exceed `u64`.
/// `d` must be positive; `n < 2^128` and `d < 2^128` mirror the machine
/// arithmetic of the executable operations.
pub open spec fn spec_rat_reduce(n: nat, d: nat) -> Option<Rat> {
    let g = spec_gcd(n, d);
    let rn = n / g;
    let rd = d / g;
    if rn <= u64::MAX && rd <= u64::MAX {
        Some(Rat { num: rn as u64, den: rd as u64 })
    } else {
        None
    }
}

/// The sum `a + b`, reduced; `None` on arithmetic overflow.
pub open spec fn spec_rat_add(a: Rat, b: Rat) -> Option<Rat> {
    let n = a.num * b.den + b.num * a.den;
    let d = a.den * b.den;
    if n > u128::MAX {
        None
    } else {
        spec_rat_reduce(n as nat, d as nat)
    }
}

/// The product `a * b`, reduced; `None` on arithmetic overflow.
pub open spec fn spec_rat_mul(a: Rat, b: Rat) -> Option<Rat> {
    let n = a.num * b.num;
    let d = a.den * b.den;
    spec_rat_reduce(n as nat, d as nat)
}

/// A reduction result is well formed and represents exactly `n / d`.
pub proof fn lemma_rat_reduce_value(n: nat, d: nat)
    requires
        d >= 1,
        spec_rat_reduce(n, d) is Some,
    ensures
        spec_rat_reduce(n, d)->Some_0.wf(),
        spec_rat_reduce(n, d)->Some_0.num * d == n * spec_rat_reduce(n, d)->Some_0.den,
{
    let g = spec_gcd(n, d);
    lemma_gcd_divides(n, d);
    lemma_fundamental_div_mod(n as int, g as int);
    lemma_fundamental_div_mod(d as int, g as int);
    let rn = n as int / g as int;
    let rd = d as int / g as int;
    assert(rn * d == n * rd) by (nonlinear_arith)
        requires
            n as int == g as int * rn,
            d as int == g as int * rd,
    ;
    assert(rd >= 1) by (nonlinear_arith)
        requires
            d as int == g as int * rd,
            d >= 1,
            g >= 1,
            rd >= 0,
    ;
}

/// The reduced sum represents exactly the mathematical sum.
pub proof fn lemma_rat_add_value(a: Rat, b: Rat)
    requires
        a.wf(),
        b.wf(),
        spec_rat_add(a, b) is Some,
    ensures
        spec_rat_add(a, b)->Some_0.wf(),
        spec_rat_add(a, b)->Some_0.num * (a.den * b.den) == (a.num * b.den + b.num * a.den)
            * spec_rat_add(a, b)->Some_0.den,
{
    let n = (a.num * b.den + b.num * a.den) as nat;
    let d = (a.den * b.den) as nat;
    assert(a.den * b.den >= 1) by (nonlinear_arith)
        requires
            a.den >= 1,
            b.den >= 1,
    ;
    lemma_rat_reduce_value(n, d);
}

/// The reduced product represents exactly the mathematical product.
pub proof fn lemma_rat_mul_value(a: Rat, b: Rat)
    requires
        a.wf(),
        b.wf(),
        spec_rat_mul(a, b) is Some,
    ensures
        spec_rat_mul(a, b)->Some_0.wf(),
        spec_rat_mul(a, b)->Some_0.num * (a.den * b.den) == (a.num * b.num)
            * spec_rat_mul(a, b)->Some_0.den,
{
    let n = (a.num * b.num) as nat;
    let d = (a.den * b.den) as nat;
    assert(a.den * b.den >= 1) by (nonlinear_arith)
        requires
            a.den >= 1,
            b.den >= 1,
    ;
    lemma_rat_reduce_value(n, d);
}

/// Euclid's algorithm, matching `spec_gcd`.
pub fn gcd_u128(a0: u128, b0: u128) -> (g: u128)
    ensures
        g as nat == spec_gcd(a0 as nat, b0 as nat),
{
    let mut a: u128 = a0;
    let mut b: u128 = b0;
    while b != 0
        invariant
            spec_gcd(a as nat, b as nat) == spec_gcd(a0 as nat, b0 as nat),
        decreases b,
    {
        let r = a % b;
        a = b;
        b = r;
    }
    a
}

/// Reduce `n / d` into a `Rat`, mirroring `spec_rat_reduce`.
pub fn rat_reduce(n: u128, d: u128) -> (r: Option<Rat>)
    requires
        d >= 1,
    ensures
        r == spec_rat_reduce(n as nat, d as nat),
{
    let g = gcd_u128(n, d);
    proof {
        lemma_gcd_divides(n as nat, d as nat);
    }
    assert(g >= 1);
    let rn = n / g;
    let rd = d / g;
    if rn <= u64::MAX as u128 && rd <= u64::MAX as u128 {
        Some(Rat { num: rn as u64, den: rd as u64 })
    } else {
        None
    }
}

impl Rat {
    /// Checked, reduced addition, mirroring `spec_rat_add`.
    pub fn add_checked(&self, other: &Rat) -> (r: Option<Rat>)
        requires
            self.wf(),
            other.wf(),
        ensures
            r == spec_rat_add(*self, *other),
    {
        let p1 = mul_wide(self.num, other.den);
        let p2 = mul_wide(other.num, self.den);
        let d = mul_wide(self.den, other.den);
        proof {
            assert(self.den * other.den >= 1) by (nonlinear_arith)
                requires
                    self.den >= 1,
                    other.den >= 1,
            ;
        }
        match p1.checked_add(p2) {
            Some(n) => rat_reduce(n, d),
            None => None,
        }
    }

    /// Checked, reduced multiplication, mirroring `spec_rat_mul`.
    pub fn mul_checked(&self, other: &Rat) -> (r: Option<Rat>)
        requires
            self.wf(),
            other.wf(),
        ensures
            r == spec_rat_mul(*self, *other),
    {
        let n = mul_wide(self.num, other.num);
        let d = mul_wide(self.den, other.den);
        proof {
            assert(self.den * other.den >= 1) by (nonlinear_arith)
                requires
                    self.den >= 1,
                    other.den >= 1,
            ;
        }
        rat_reduce(n, d)
    }
}

} // verus!
