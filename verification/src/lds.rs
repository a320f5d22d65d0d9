//! Scalar low-discrepancy sequences over exact fractions.
//!
//! The digit-reversal (Van der Corput) value of a positive integer `k` in
//! base `b` is the fraction obtained by reversing the base-`b` digits of `k`
//! behind the radix point: `k = a_0 + a_1 b + ... + a_{d-1} b^{d-1}` maps to
//! `a_0 / b + a_1 / b^2 + ... + a_{d-1} / b^d`.  The value always lies in
//! `[0, 1)` and is returned as an exact fraction with denominator `b^d`.

use vstd::prelude::*;

verus! {

use vstd::arithmetic::div_mod::lemma_div_decreases;
use vstd::arithmetic::div_mod::lemma_div_pos_is_pos;
use vstd::arithmetic::div_mod::lemma_fundamental_div_mod;
use vstd::arithmetic::div_mod::lemma_fundamental_div_mod_converse;
use vstd::arithmetic::div_mod::lemma_mod_multiples_basic;
use vstd::arithmetic::div_mod::lemma_mod_multiples_vanish;
use vstd::arithmetic::div_mod::lemma_small_mod;

/// An error reported when a generator is asked for with unusable bases.
#[derive(Clone, Copy, Debug, PartialEq, Eq, Structural)]
pub enum ConfigError {
    /// The list of bases is shorter than the generator needs.
    TooFewBases,
    /// A base smaller than 2 cannot drive a digit-reversal sequence.
    BaseTooSmall,
}

/// An exact nonnegative fraction `num / den`.
///
/// Every scalar drawn from a sequence is such a fraction with
/// `0 <= num < den`, i.e. a value in `[0, 1)`.
#[derive(Clone, Copy, Debug, PartialEq, Eq, Structural)]
pub struct Frac {
    pub num: u128,
    pub den: u128,
}

/// `b` raised to the power `e`.
pub open spec fn pow_nat(b: nat, e: nat) -> nat
    decreases e,
{
    if e == 0 {
        1
    } else {
        b * pow_nat(b, (e - 1) as nat)
    }
}

/// A positive base keeps every power positive.
pub proof fn lemma_pow_nat_pos(b: nat, e: nat)
    requires
        b >= 1,
    ensures
        pow_nat(b, e) >= 1,
    decreases e,
{
    if e > 0 {
        lemma_pow_nat_pos(b, (e - 1) as nat);
        assert(b * pow_nat(b, (e - 1) as nat) >= 1) by (nonlinear_arith)
            requires
                b >= 1,
                pow_nat(b, (e - 1) as nat) >= 1,
        ;
    }
}

/// Powers of a base of at least 1 never shrink as the exponent grows.
pub proof fn lemma_pow_nat_increases(b: nat, e1: nat, e2: nat)
    requires
        b >= 1,
        e1 <= e2,
    ensures
        pow_nat(b, e1) <= pow_nat(b, e2),
    decreases e2,
{
    if e1 < e2 {
        lemma_pow_nat_increases(b, e1, (e2 - 1) as nat);
        lemma_pow_nat_pos(b, (e2 - 1) as nat);
        assert(pow_nat(b, (e2 - 1) as nat) <= b * pow_nat(b, (e2 - 1) as nat)) by (nonlinear_arith)
            requires
                b >= 1,
                pow_nat(b, (e2 - 1) as nat) >= 1,
        ;
    }
}

/// The number of base-`b` digits of `k` (0 for `k == 0`).
pub open spec fn vdc_digits(k: nat, b: nat) -> nat
    decreases k via vdc_digits_decreases
{
    if b < 2 || k == 0 {
        0
    } else {
        1 + vdc_digits(k / b, b)
    }
}

#[via_fn]
proof fn vdc_digits_decreases(k: nat, b: nat) {
    if !(b < 2 || k == 0) {
        lemma_div_decreases(k as int, b as int);
    }
}

/// The denominator of the digit-reversal fraction of `k` in base `b`.
pub open spec fn vdc_den(k: nat, b: nat) -> nat {
    pow_nat(b, vdc_digits(k, b))
}

/// The numerator of the digit-reversal fraction of `k` in base `b`:
/// the digits of `k`, least significant first, read as the digits of the
/// numerator, most significant first.
pub open spec fn vdc_num(k: nat, b: nat) -> nat
    decreases k via vdc_num_decreases
{
    if b < 2 || k == 0 {
        0
    } else {
        (k % b) * pow_nat(b, (vdc_digits(k, b) - 1) as nat) + vdc_num(k / b, b)
    }
}

#[via_fn]
proof fn vdc_num_decreases(k: nat, b: nat) {
    if !(b < 2 || k == 0) {
        lemma_div_decreases(k as int, b as int);
    }
}

/// Dropping the lowest digit drops exactly one digit.
proof fn lemma_vdc_digits_step(k: nat, b: nat)
    requires
        b >= 2,
        k >= 1,
    ensures
        vdc_digits(k, b) == 1 + vdc_digits(k / b, b),
{
}

/// The denominator never exceeds `b * k` (for positive `k`), so it fits in
/// a `u128` whenever `k` and `b` fit in 64 bits.
pub proof fn lemma_vdc_den_bound(k: nat, b: nat)
    requires
        b >= 2,
        k >= 1,
    ensures
        vdc_den(k, b) <= b * k,
    decreases k,
{
    lemma_div_pos_is_pos(k as int, b as int);
    if k / b == 0 {
        reveal_with_fuel(vdc_digits, 2);
        assert(vdc_digits(k, b) == 1);
        let p0: nat = pow_nat(b, 0);
        assert(vdc_den(k, b) == b * p0);
        assert(b * p0 <= b * k) by (nonlinear_arith)
            requires
                k >= 1,
                b >= 2,
                p0 == 1,
        ;
    } else {
        lemma_vdc_den_bound(k / b, b);
        lemma_vdc_digits_step(k, b);
        assert(vdc_den(k, b) == b * vdc_den(k / b, b));
        lemma_fundamental_div_mod(k as int, b as int);
        assert(b * (k / b) <= k);
        assert(b * vdc_den(k / b, b) <= b * (b * (k / b))) by (nonlinear_arith)
            requires
                b >= 2,
                vdc_den(k / b, b) <= b * (k / b),
        ;
        assert(b * (b * (k / b)) <= b * k) by (nonlinear_arith)
            requires
                b >= 2,
                b * (k / b) <= k,
        ;
    }
}

/// The fraction is a true value in `[0, 1)`: numerator below denominator.
pub proof fn lemma_vdc_num_lt_den(k: nat, b: nat)
    requires
        b >= 2,
    ensures
        vdc_num(k, b) < vdc_den(k, b),
    decreases k,
{
    if k == 0 {
        assert(vdc_den(k, b) == 1);
    } else {
        lemma_div_pos_is_pos(k as int, b as int);
        lemma_vdc_num_lt_den(k / b, b);
        lemma_vdc_digits_step(k, b);
        let d1 = (vdc_digits(k, b) - 1) as nat;
        assert(vdc_digits(k / b, b) == d1);
        assert(vdc_den(k, b) == b * pow_nat(b, d1));
        assert(k % b <= b - 1) by {
            lemma_fundamental_div_mod(k as int, b as int);
        }
        assert((k % b) * pow_nat(b, d1) + vdc_num(k / b, b) < b * pow_nat(b, d1))
            by (nonlinear_arith)
            requires
                b >= 2,
                k % b <= b - 1,
                vdc_num(k / b, b) < pow_nat(b, d1),
        ;
    }
}

/// Computes the digit-reversal fraction of `k` in base `base`.
pub fn vdc(k: usize, base: usize) -> (r: Frac)
    requires
        base >= 2,
    ensures
        r.num == vdc_num(k as nat, base as nat),
        r.den == vdc_den(k as nat, base as nat),
        r.num < r.den,
{
    let ghost k0: nat = k as nat;
    let ghost bn: nat = base as nat;
    let b: u128 = base as u128;
    let mut kk: usize = k;
    let mut num: u128 = 0;
    let mut den: u128 = 1;
    proof {
        lemma_vdc_num_lt_den(k0, bn);
        lemma_pow_nat_pos(bn, vdc_digits(k0, bn));
        if k0 >= 1 {
            lemma_vdc_den_bound(k0, bn);
        }
    }
    while kk != 0
        invariant
            base >= 2,
            b == base as u128,
            bn == base as nat,
            k0 == k as nat,
            kk <= k,
            num < den,
            den * pow_nat(bn, vdc_digits(kk as nat, bn)) == vdc_den(k0, bn),
            num * pow_nat(bn, vdc_digits(kk as nat, bn)) + vdc_num(kk as nat, bn)
                == vdc_num(k0, bn),
            k0 >= 1 ==> vdc_den(k0, bn) <= bn * k0,
            k0 == 0 ==> vdc_den(k0, bn) == 1,
        decreases kk,
    {
        let ghost kn: nat = kk as nat;
        let ghost dk: nat = vdc_digits(kn, bn);
        let ghost p1: nat = pow_nat(bn, (dk - 1) as nat);
        let ghost rd: nat = kn % bn;
        let ghost nv: nat = num as nat;
        let ghost dv: nat = den as nat;
        let digit: usize = kk % base;
        proof {
            lemma_vdc_digits_step(kn, bn);
            lemma_div_pos_is_pos(kn as int, bn as int);
            lemma_pow_nat_pos(bn, (dk - 1) as nat);
            assert(pow_nat(bn, dk) == bn * p1);
            // den * b stays within the final denominator.
            assert(dv * (bn * p1) == (dv * bn) * p1) by (nonlinear_arith);
            assert(dv * bn <= (dv * bn) * p1) by (nonlinear_arith)
                requires
                    dv >= 1,
                    bn >= 2,
                    p1 >= 1,
            ;
            assert(bn * k0 < 0x100000000000000000000000000000000) by (nonlinear_arith)
                requires
                    bn < 0x10000000000000000,
                    k0 < 0x10000000000000000,
            ;
            // num * b + digit stays strictly below den * b.
            assert(nv * bn + rd <= dv * bn - 1) by (nonlinear_arith)
                requires
                    nv < dv,
                    bn >= 2,
                    rd < bn,
            ;
            // The accumulated numerator absorbs the next digit.
            assert((nv * bn + rd) * p1 == nv * (bn * p1) + rd * p1) by (nonlinear_arith);
        }
        num = num * b + (digit as u128);
        den = den * b;
        kk = kk / base;
    }
    // An empty run leaves the zero fraction 0 / 1; otherwise every digit of
    // `k` has been folded in and the denominator is complete.
    proof {
        assert(vdc_digits(kk as nat, bn) == 0);
        assert(vdc_num(kk as nat, bn) == 0);
        let pf: nat = pow_nat(bn, vdc_digits(kk as nat, bn));
        assert(pf == 1);
        assert(num * pf == num) by (nonlinear_arith)
            requires
                pf == 1,
        ;
        assert(den * pf == den) by (nonlinear_arith)
            requires
                pf == 1,
        ;
    }
    Frac { num, den }
}

/// Powers multiply when exponents add.
pub proof fn lemma_pow_nat_adds(b: nat, e1: nat, e2: nat)
    ensures
        pow_nat(b, e1 + e2) == pow_nat(b, e1) * pow_nat(b, e2),
    decreases e1,
{
    if e1 == 0 {
        assert(1 * pow_nat(b, e2) == pow_nat(b, e2)) by (nonlinear_arith);
    } else {
        lemma_pow_nat_adds(b, (e1 - 1) as nat, e2);
        assert((e1 - 1) + e2 == (e1 + e2) - 1);
        assert(pow_nat(b, e1 + e2) == b * pow_nat(b, ((e1 + e2) - 1) as nat));
        assert(b * (pow_nat(b, (e1 - 1) as nat) * pow_nat(b, e2)) == (b * pow_nat(
            b,
            (e1 - 1) as nat,
        )) * pow_nat(b, e2)) by (nonlinear_arith);
    }
}

/// The numerator of a positive position is never a multiple of the base:
/// its lowest digit is the leading digit of the position, which is nonzero.
pub proof fn lemma_vdc_num_mod(k: nat, b: nat)
    requires
        b >= 2,
        k >= 1,
    ensures
        vdc_num(k, b) % b != 0,
        vdc_num(k, b) >= 1,
    decreases k,
{
    lemma_div_pos_is_pos(k as int, b as int);
    lemma_vdc_digits_step(k, b);
    let d1 = (vdc_digits(k, b) - 1) as nat;
    let rd: nat = k % b;
    if k < b {
        assert(k / b == 0) by (nonlinear_arith)
            requires
                b >= 2,
                0 <= k < b,
        ;
        assert(vdc_digits(k, b) == 1);
        assert(rd == k) by {
            lemma_small_mod(k, b);
        }
        let p0: nat = pow_nat(b, 0);
        assert(rd * p0 == rd) by (nonlinear_arith)
            requires
                p0 == 1,
        ;
        assert(vdc_num(k / b, b) == 0);
        assert(vdc_num(k, b) == k);
        lemma_small_mod(k, b);
    } else {
        assert(k / b >= 1) by (nonlinear_arith)
            requires
                b >= 2,
                k >= b,
        ;
        lemma_vdc_num_mod(k / b, b);
        assert(vdc_digits(k / b, b) >= 1);
        assert(d1 >= 1);
        let rest: nat = vdc_num(k / b, b);
        assert(vdc_num(k, b) == rd * pow_nat(b, d1) + rest);
        assert(pow_nat(b, d1) == b * pow_nat(b, (d1 - 1) as nat));
        let a: nat = rd * pow_nat(b, (d1 - 1) as nat);
        assert(rd * pow_nat(b, d1) == b * a) by (nonlinear_arith)
            requires
                pow_nat(b, d1) == b * pow_nat(b, (d1 - 1) as nat),
                a == rd * pow_nat(b, (d1 - 1) as nat),
        ;
        lemma_mod_multiples_vanish(a as int, rest as int, b as int);
        assert(vdc_num(k, b) % b == rest % b);
        assert(rest % b != 0);
    }
}

/// Positions with more digits cannot share a value with positions with
/// fewer: the shorter value, brought to the longer denominator, would have
/// to end in zero digits, and values never do.
proof fn lemma_vdc_unequal_digits(k1: nat, k2: nat, b: nat)
    requires
        b >= 2,
        k1 >= 1,
        k2 >= 1,
        vdc_digits(k1, b) < vdc_digits(k2, b),
    ensures
        vdc_num(k1, b) * vdc_den(k2, b) != vdc_num(k2, b) * vdc_den(k1, b),
{
    if vdc_num(k1, b) * vdc_den(k2, b) == vdc_num(k2, b) * vdc_den(k1, b) {
        let d1 = vdc_digits(k1, b);
        let d2 = vdc_digits(k2, b);
        let m = (d2 - d1) as nat;
        let n1 = vdc_num(k1, b);
        let n2 = vdc_num(k2, b);
        lemma_pow_nat_adds(b, d1, m);
        assert(vdc_den(k2, b) == pow_nat(b, d1) * pow_nat(b, m));
        lemma_pow_nat_pos(b, d1);
        assert(n1 * (pow_nat(b, d1) * pow_nat(b, m)) == (n1 * pow_nat(b, m)) * pow_nat(b, d1))
            by (nonlinear_arith);
        assert((n1 * pow_nat(b, m)) * pow_nat(b, d1) == n2 * pow_nat(b, d1));
        assert(n1 * pow_nat(b, m) == n2) by (nonlinear_arith)
            requires
                (n1 * pow_nat(b, m)) * pow_nat(b, d1) == n2 * pow_nat(b, d1),
                pow_nat(b, d1) >= 1,
        ;
        assert(m >= 1);
        assert(pow_nat(b, m) == b * pow_nat(b, (m - 1) as nat));
        let a: nat = n1 * pow_nat(b, (m - 1) as nat);
        assert(n2 == a * b) by (nonlinear_arith)
            requires
                n2 == n1 * (b * pow_nat(b, (m - 1) as nat)),
                a == n1 * pow_nat(b, (m - 1) as nat),
        ;
        lemma_mod_multiples_basic(a as int, b as int);
        lemma_vdc_num_mod(k2, b);
        assert(false);
    }
}

/// The digit-reversal map is one to one: equal fractions (compared by cross
/// multiplication) come from equal positions.
pub proof fn lemma_vdc_injective(k1: nat, k2: nat, b: nat)
    requires
        b >= 2,
        vdc_num(k1, b) * vdc_den(k2, b) == vdc_num(k2, b) * vdc_den(k1, b),
    ensures
        k1 == k2,
    decreases k1,
{
    if k1 == 0 {
        if k2 != 0 {
            assert(vdc_den(k1, b) == 1);
            assert(vdc_num(k2, b) * 1 == vdc_num(k2, b)) by (nonlinear_arith);
            assert(0 * vdc_den(k2, b) == 0) by (nonlinear_arith);
            lemma_vdc_num_mod(k2, b);
        }
    } else if k2 == 0 {
        assert(vdc_den(k2, b) == 1);
        assert(vdc_num(k1, b) * 1 == vdc_num(k1, b)) by (nonlinear_arith);
        assert(0 * vdc_den(k1, b) == 0) by (nonlinear_arith);
        lemma_vdc_num_mod(k1, b);
    } else {
        let d1 = vdc_digits(k1, b);
        let d2 = vdc_digits(k2, b);
        if d1 < d2 {
            lemma_vdc_unequal_digits(k1, k2, b);
        } else if d2 < d1 {
            lemma_vdc_unequal_digits(k2, k1, b);
        } else {
            // Equal digit counts: equal denominators, so equal numerators.
            let den: nat = pow_nat(b, d1);
            lemma_pow_nat_pos(b, d1);
            let n1 = vdc_num(k1, b);
            let n2 = vdc_num(k2, b);
            assert(n1 == n2) by (nonlinear_arith)
                requires
                    n1 * den == n2 * den,
                    den >= 1,
            ;
            // The lowest digit and the rest of each numerator agree.
            lemma_div_pos_is_pos(k1 as int, b as int);
            lemma_div_pos_is_pos(k2 as int, b as int);
            lemma_div_decreases(k1 as int, b as int);
            lemma_vdc_digits_step(k1, b);
            lemma_vdc_digits_step(k2, b);
            let p1: nat = pow_nat(b, (d1 - 1) as nat);
            lemma_pow_nat_pos(b, (d1 - 1) as nat);
            lemma_vdc_num_lt_den(k1 / b, b);
            lemma_vdc_num_lt_den(k2 / b, b);
            assert(vdc_den(k1 / b, b) == p1);
            assert(vdc_den(k2 / b, b) == p1);
            lemma_fundamental_div_mod(k1 as int, b as int);
            lemma_fundamental_div_mod(k2 as int, b as int);
            lemma_fundamental_div_mod_converse(
                n1 as int,
                p1 as int,
                (k1 % b) as int,
                vdc_num(k1 / b, b) as int,
            );
            lemma_fundamental_div_mod_converse(
                n2 as int,
                p1 as int,
                (k2 % b) as int,
                vdc_num(k2 / b, b) as int,
            );
            assert(k1 % b == k2 % b);
            assert(vdc_num(k1 / b, b) == vdc_num(k2 / b, b));
            lemma_vdc_injective(k1 / b, k2 / b, b);
            assert(k1 == b * (k1 / b) + k1 % b);
            assert(k2 == b * (k2 / b) + k2 % b);
        }
    }
}

/// Distinct positions give distinct fractions: the digit-reversal sequence
/// never repeats a value.
pub proof fn lemma_vdc_distinct(k1: nat, k2: nat, b: nat)
    requires
        b >= 2,
        k1 != k2,
    ensures
        vdc_num(k1, b) * vdc_den(k2, b) != vdc_num(k2, b) * vdc_den(k1, b),
{
    if vdc_num(k1, b) * vdc_den(k2, b) == vdc_num(k2, b) * vdc_den(k1, b) {
        lemma_vdc_injective(k1, k2, b);
    }
}

/// Van der Corput sequence generator: a position counter over a fixed base.
///
/// `pop` advances the position by one and returns the digit-reversal
/// fraction of the new position; `reseed` repositions the counter
/// absolutely, so the draws after `reseed(s)` depend on `s` alone.
#[derive(Debug)]
pub struct VdCorput {
    count: usize,
    base: usize,
}

impl VdCorput {
    /// The base of the sequence.
    pub closed spec fn base(self) -> nat {
        self.base as nat
    }

    /// The current position of the sequence.
    pub closed spec fn count(self) -> nat {
        self.count as nat
    }

    /// A generator is well formed when its base can carry digits.
    pub open spec fn wf(self) -> bool {
        self.base() >= 2
    }

    /// Creates a generator over `base`; a base below 2 is rejected.
    pub fn new(base: usize) -> (r: Result<Self, ConfigError>)
        ensures
            base >= 2 ==> (r matches Ok(g) && g.wf() && g.base() == base && g.count() == 0),
            base < 2 ==> (r matches Err(e) && e == ConfigError::BaseTooSmall),
    {
        if base < 2 {
            Err(ConfigError::BaseTooSmall)
        } else {
            Ok(VdCorput { count: 0, base })
        }
    }

    /// Creates a generator from a base that is already known to be valid.
    pub(crate) fn from_base(base: usize) -> (r: Self)
        requires
            base >= 2,
        ensures
            r.wf(),
            r.base() == base,
            r.count() == 0,
    {
        VdCorput { count: 0, base }
    }

    /// Advances the position and returns the fraction at the new position.
    pub fn pop(&mut self) -> (r: Frac)
        requires
            old(self).wf(),
            old(self).count() < usize::MAX,
        ensures
            final(self).wf(),
            final(self).base() == old(self).base(),
            final(self).count() == old(self).count() + 1,
            r.num == vdc_num(old(self).count() + 1, old(self).base()),
            r.den == vdc_den(old(self).count() + 1, old(self).base()),
            r.num < r.den,
    {
        self.count = self.count + 1;
        vdc(self.count, self.base)
    }

    /// Moves the position to `seed`; the next `pop` draws position `seed + 1`.
    pub fn reseed(&mut self, seed: usize)
        ensures
            final(self).base() == old(self).base(),
            final(self).count() == seed,
            final(self).wf() == old(self).wf(),
    {
        self.count = seed;
    }
}

/// Two-dimensional Halton point generator: one Van der Corput sequence for
/// each coordinate.
#[derive(Debug)]
pub struct Halton {
    vdc0: VdCorput,
    vdc1: VdCorput,
}

impl Halton {
    /// The base of coordinate 0.
    pub closed spec fn base0(self) -> nat {
        self.vdc0.base()
    }

    /// The base of coordinate 1.
    pub closed spec fn base1(self) -> nat {
        self.vdc1.base()
    }

    /// The position of coordinate 0.
    pub closed spec fn count0(self) -> nat {
        self.vdc0.count()
    }

    /// The position of coordinate 1.
    pub closed spec fn count1(self) -> nat {
        self.vdc1.count()
    }

    /// Both inner sequences carry valid bases.
    pub open spec fn wf(self) -> bool {
        self.base0() >= 2 && self.base1() >= 2
    }

    /// Creates a generator over the two given bases.
    pub fn new(base0: usize, base1: usize) -> (r: Result<Self, ConfigError>)
        ensures
            base0 >= 2 && base1 >= 2 ==> (r matches Ok(g) && g.wf() && g.base0() == base0
                && g.base1() == base1 && g.count0() == 0 && g.count1() == 0),
            base0 < 2 || base1 < 2 ==> (r matches Err(e) && e == ConfigError::BaseTooSmall),
    {
        if base0 < 2 || base1 < 2 {
            Err(ConfigError::BaseTooSmall)
        } else {
            Ok(Halton { vdc0: VdCorput::from_base(base0), vdc1: VdCorput::from_base(base1) })
        }
    }

    /// Draws the next point: one fraction per coordinate.
    pub fn pop(&mut self) -> (r: (Frac, Frac))
        requires
            old(self).wf(),
            old(self).count0() < usize::MAX,
            old(self).count1() < usize::MAX,
        ensures
            final(self).wf(),
            final(self).base0() == old(self).base0(),
            final(self).base1() == old(self).base1(),
            final(self).count0() == old(self).count0() + 1,
            final(self).count1() == old(self).count1() + 1,
            r.0.num == vdc_num(old(self).count0() + 1, old(self).base0()),
            r.0.den == vdc_den(old(self).count0() + 1, old(self).base0()),
            r.1.num == vdc_num(old(self).count1() + 1, old(self).base1()),
            r.1.den == vdc_den(old(self).count1() + 1, old(self).base1()),
    {
        (self.vdc0.pop(), self.vdc1.pop())
    }

    /// Repositions both coordinates to `seed`.
    pub fn reseed(&mut self, seed: usize)
        ensures
            final(self).wf() == old(self).wf(),
            final(self).base0() == old(self).base0(),
            final(self).base1() == old(self).base1(),
            final(self).count0() == seed,
            final(self).count1() == seed,
    {
        self.vdc0.reseed(seed);
        self.vdc1.reseed(seed);
    }
}

/// Circle sequence generator: one scalar draw per point; the draw `v`
/// stands for the point `(cos(2 pi v), sin(2 pi v))` on the unit circle.
#[derive(Debug)]
pub struct Circle {
    vdc: VdCorput,
}

impl Circle {
    /// The base of the underlying scalar sequence.
    pub closed spec fn base(self) -> nat {
        self.vdc.base()
    }

    /// The position of the underlying scalar sequence.
    pub closed spec fn count(self) -> nat {
        self.vdc.count()
    }

    /// The underlying sequence carries a valid base.
    pub open spec fn wf(self) -> bool {
        self.base() >= 2
    }

    /// Creates a generator over `base`; a base below 2 is rejected.
    pub fn new(base: usize) -> (r: Result<Self, ConfigError>)
        ensures
            base >= 2 ==> (r matches Ok(g) && g.wf() && g.base() == base && g.count() == 0),
            base < 2 ==> (r matches Err(e) && e == ConfigError::BaseTooSmall),
    {
        if base < 2 {
            Err(ConfigError::BaseTooSmall)
        } else {
            Ok(Circle { vdc: VdCorput::from_base(base) })
        }
    }

    /// Creates a generator from a base that is already known to be valid.
    pub(crate) fn from_base(base: usize) -> (r: Self)
        requires
            base >= 2,
        ensures
            r.wf(),
            r.base() == base,
            r.count() == 0,
    {
        Circle { vdc: VdCorput::from_base(base) }
    }

    /// Draws the angle fraction of the next point on the circle.
    pub fn pop(&mut self) -> (r: Frac)
        requires
            old(self).wf(),
            old(self).count() < usize::MAX,
        ensures
            final(self).wf(),
            final(self).base() == old(self).base(),
            final(self).count() == old(self).count() + 1,
            r.num == vdc_num(old(self).count() + 1, old(self).base()),
            r.den == vdc_den(old(self).count() + 1, old(self).base()),
            r.num < r.den,
    {
        self.vdc.pop()
    }

    /// Repositions the underlying sequence to `seed`.
    pub fn reseed(&mut self, seed: usize)
        ensures
            final(self).wf() == old(self).wf(),
            final(self).base() == old(self).base(),
            final(self).count() == seed,
    {
        self.vdc.reseed(seed);
    }
}

/// Sphere sequence generator: one scalar draw for the polar coordinate and
/// one circle draw for the azimuth.  The draw pair `(v, c)` stands for the
/// point `(sin(phi) cos(theta), sin(phi) sin(theta), cos(phi))` with
/// `cos(phi) = 2 v - 1` and `theta = 2 * pi * c`.
#[derive(Debug)]
pub struct Sphere {
    vdc: VdCorput,
    cirgen: Circle,
}

impl Sphere {
    /// The base of the polar scalar sequence.
    pub closed spec fn base0(self) -> nat {
        self.vdc.base()
    }

    /// The base of the azimuthal circle sequence.
    pub closed spec fn base1(self) -> nat {
        self.cirgen.base()
    }

    /// The position of the polar scalar sequence.
    pub closed spec fn count0(self) -> nat {
        self.vdc.count()
    }

    /// The position of the azimuthal circle sequence.
    pub closed spec fn count1(self) -> nat {
        self.cirgen.count()
    }

    /// Both inner sequences carry valid bases.
    pub open spec fn wf(self) -> bool {
        self.base0() >= 2 && self.base1() >= 2
    }

    /// Creates a generator from the first two entries of `base`.
    pub fn new(base: &[usize]) -> (r: Result<Self, ConfigError>)
        ensures
            base@.len() < 2 ==> (r matches Err(e) && e == ConfigError::TooFewBases),
            base@.len() >= 2 && (base@[0] < 2 || base@[1] < 2) ==> (r matches Err(e)
                && e == ConfigError::BaseTooSmall),
            base@.len() >= 2 && base@[0] >= 2 && base@[1] >= 2 ==> (r matches Ok(g) && g.wf()
                && g.base0() == base@[0] && g.base1() == base@[1] && g.count0() == 0
                && g.count1() == 0),
    {
        if base.len() < 2 {
            Err(ConfigError::TooFewBases)
        } else if base[0] < 2 || base[1] < 2 {
            Err(ConfigError::BaseTooSmall)
        } else {
            Ok(Sphere::from_bases(base[0], base[1]))
        }
    }

    /// Creates a generator from two bases that are already known to be valid.
    pub(crate) fn from_bases(base0: usize, base1: usize) -> (r: Self)
        requires
            base0 >= 2,
            base1 >= 2,
        ensures
            r.wf(),
            r.base0() == base0,
            r.base1() == base1,
            r.count0() == 0,
            r.count1() == 0,
    {
        Sphere { vdc: VdCorput::from_base(base0), cirgen: Circle::from_base(base1) }
    }

    /// Draws the next point: the polar fraction and the azimuthal fraction.
    pub fn pop(&mut self) -> (r: (Frac, Frac))
        requires
            old(self).wf(),
            old(self).count0() < usize::MAX,
            old(self).count1() < usize::MAX,
        ensures
            final(self).wf(),
            final(self).base0() == old(self).base0(),
            final(self).base1() == old(self).base1(),
            final(self).count0() == old(self).count0() + 1,
            final(self).count1() == old(self).count1() + 1,
            r.0.num == vdc_num(old(self).count0() + 1, old(self).base0()),
            r.0.den == vdc_den(old(self).count0() + 1, old(self).base0()),
            r.1.num == vdc_num(old(self).count1() + 1, old(self).base1()),
            r.1.den == vdc_den(old(self).count1() + 1, old(self).base1()),
    {
        (self.vdc.pop(), self.cirgen.pop())
    }

    /// Repositions both inner sequences to `seed`.
    pub fn reseed(&mut self, seed: usize)
        ensures
            final(self).wf() == old(self).wf(),
            final(self).base0() == old(self).base0(),
            final(self).base1() == old(self).base1(),
            final(self).count0() == seed,
            final(self).count1() == seed,
    {
        self.cirgen.reseed(seed);
        self.vdc.reseed(seed);
    }
}

/// 3-sphere sequence generator in Hopf coordinates: three scalar draws per
/// point, mapped downstream through the Hopf fibration.
#[derive(Debug)]
pub struct Sphere3Hopf {
    vdc0: VdCorput,
    vdc1: VdCorput,
    vdc2: VdCorput,
}

impl Sphere3Hopf {
    /// The base of draw `i` (0, 1 or 2).
    pub closed spec fn base_at(self, i: int) -> nat {
        if i == 0 {
            self.vdc0.base()
        } else if i == 1 {
            self.vdc1.base()
        } else {
            self.vdc2.base()
        }
    }

    /// The position of draw `i` (0, 1 or 2).
    pub closed spec fn count_at(self, i: int) -> nat {
        if i == 0 {
            self.vdc0.count()
        } else if i == 1 {
            self.vdc1.count()
        } else {
            self.vdc2.count()
        }
    }

    /// All three sequences carry valid bases.
    pub open spec fn wf(self) -> bool {
        self.base_at(0) >= 2 && self.base_at(1) >= 2 && self.base_at(2) >= 2
    }

    /// Creates a generator from the first three entries of `base`.
    pub fn new(base: &[usize]) -> (r: Result<Self, ConfigError>)
        ensures
            base@.len() < 3 ==> (r matches Err(e) && e == ConfigError::TooFewBases),
            base@.len() >= 3 && (base@[0] < 2 || base@[1] < 2 || base@[2] < 2) ==> (r matches Err(e)
                && e == ConfigError::BaseTooSmall),
            base@.len() >= 3 && base@[0] >= 2 && base@[1] >= 2 && base@[2] >= 2 ==> (r matches Ok(g)
                && g.wf() && g.base_at(0) == base@[0] && g.base_at(1) == base@[1]
                && g.base_at(2) == base@[2] && g.count_at(0) == 0 && g.count_at(1) == 0
                && g.count_at(2) == 0),
    {
        if base.len() < 3 {
            Err(ConfigError::TooFewBases)
        } else if base[0] < 2 || base[1] < 2 || base[2] < 2 {
            Err(ConfigError::BaseTooSmall)
        } else {
            Ok(Sphere3Hopf {
                vdc0: VdCorput::from_base(base[0]),
                vdc1: VdCorput::from_base(base[1]),
                vdc2: VdCorput::from_base(base[2]),
            })
        }
    }

    /// Draws the next point: the three Hopf coordinate fractions.
    pub fn pop(&mut self) -> (r: (Frac, Frac, Frac))
        requires
            old(self).wf(),
            old(self).count_at(0) < usize::MAX,
            old(self).count_at(1) < usize::MAX,
            old(self).count_at(2) < usize::MAX,
        ensures
            final(self).wf(),
            forall|i: int| 0 <= i < 3 ==> final(self).base_at(i) == old(self).base_at(i),
            forall|i: int| 0 <= i < 3 ==> final(self).count_at(i) == old(self).count_at(i) + 1,
            r.0.num == vdc_num(old(self).count_at(0) + 1, old(self).base_at(0)),
            r.0.den == vdc_den(old(self).count_at(0) + 1, old(self).base_at(0)),
            r.1.num == vdc_num(old(self).count_at(1) + 1, old(self).base_at(1)),
            r.1.den == vdc_den(old(self).count_at(1) + 1, old(self).base_at(1)),
            r.2.num == vdc_num(old(self).count_at(2) + 1, old(self).base_at(2)),
            r.2.den == vdc_den(old(self).count_at(2) + 1, old(self).base_at(2)),
    {
        (self.vdc0.pop(), self.vdc1.pop(), self.vdc2.pop())
    }

    /// Repositions all three sequences to `seed`.
    pub fn reseed(&mut self, seed: usize)
        ensures
            final(self).wf() == old(self).wf(),
            forall|i: int| 0 <= i < 3 ==> final(self).base_at(i) == old(self).base_at(i),
            forall|i: int| 0 <= i < 3 ==> final(self).count_at(i) == seed,
    {
        self.vdc0.reseed(seed);
        self.vdc1.reseed(seed);
        self.vdc2.reseed(seed);
    }
}

} // verus!
