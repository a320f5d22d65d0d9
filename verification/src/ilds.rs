//! Integer low-discrepancy sequences.
//!
//! Integer variants of the digit-reversal generators: the value of position
//! `k` in base `b` is returned scaled by `b^scale` instead of as a fraction,
//! so the result is an exact integer.  The module also holds small
//! shift-and-add division helpers for the constant divisors 3 and 7.

use vstd::prelude::*;

verus! {

use crate::lds::pow_nat;
use crate::lds::lemma_pow_nat_increases;
use crate::lds::vdc_den;
use crate::lds::vdc_digits;
use crate::lds::vdc_num;
use vstd::arithmetic::div_mod::lemma_div_decreases;
use vstd::arithmetic::div_mod::lemma_div_pos_is_pos;
use vstd::arithmetic::div_mod::lemma_fundamental_div_mod;
use vstd::arithmetic::div_mod::lemma_fundamental_div_mod_converse;
use vstd::arithmetic::div_mod::lemma_div_multiples_vanish;

/// The digit-reversal value of `k` in base `b`, scaled by `f`: the digits of
/// `k`, least significant first, weighted by `f / b`, `f / b^2`, ...  When
/// `f == b^scale` and `k < b^scale` this is exactly `b^scale` times the
/// digit-reversal fraction of `k`.
pub open spec fn vdc_scaled(k: nat, b: nat, f: nat) -> nat
    decreases k via vdc_scaled_decreases
{
    if b < 2 || k == 0 {
        0
    } else {
        (k % b) * (f / b) + vdc_scaled(k / b, b, f / b)
    }
}

#[via_fn]
proof fn vdc_scaled_decreases(k: nat, b: nat, f: nat) {
    if !(b < 2 || k == 0) {
        lemma_div_decreases(k as int, b as int);
    }
}

/// The scaled value stays below the scale factor.
pub proof fn lemma_vdc_scaled_bound(k: nat, b: nat, f: nat)
    requires
        b >= 2,
    ensures
        f == 0 ==> vdc_scaled(k, b, f) == 0,
        f >= 1 ==> vdc_scaled(k, b, f) < f,
    decreases k,
{
    if k == 0 {
    } else {
        let f1: nat = f / b;
        let rd: nat = k % b;
        lemma_div_pos_is_pos(f as int, b as int);
        lemma_div_pos_is_pos(k as int, b as int);
        lemma_div_decreases(k as int, b as int);
        lemma_vdc_scaled_bound(k / b, b, f1);
        if f == 0 {
            assert(f1 == 0);
            assert(rd * 0 == 0) by (nonlinear_arith);
        } else if f1 == 0 {
            assert(rd * f1 == 0) by (nonlinear_arith)
                requires
                    f1 == 0,
            ;
        } else {
            assert(rd < b) by {
                lemma_fundamental_div_mod(k as int, b as int);
            }
            assert(b * f1 <= f) by {
                lemma_fundamental_div_mod(f as int, b as int);
            }
            assert(rd * f1 + vdc_scaled(k / b, b, f1) < f) by (nonlinear_arith)
                requires
                    b >= 2,
                    rd < b,
                    f1 >= 1,
                    vdc_scaled(k / b, b, f1) < f1,
                    b * f1 <= f,
            ;
        }
    }
}

/// The scaled value agrees exactly with the digit-reversal fraction: as
/// long as the position fits in the configured number of digits, the
/// integer drawn is the fraction times the scale factor, with no rounding:
/// `vdc_scaled(k, b, b^s) / b^s == vdc_num(k, b) / vdc_den(k, b)`.
pub proof fn lemma_vdc_scaled_exact(k: nat, b: nat, s: nat)
    requires
        b >= 2,
        k < pow_nat(b, s),
    ensures
        vdc_scaled(k, b, pow_nat(b, s)) * vdc_den(k, b) == vdc_num(k, b) * pow_nat(b, s),
    decreases k,
{
    if k == 0 {
        assert(0 * vdc_den(k, b) == 0) by (nonlinear_arith);
        assert(0 * pow_nat(b, s) == 0) by (nonlinear_arith);
    } else {
        assert(s >= 1) by {
            if s == 0 {
                assert(pow_nat(b, 0) == 1);
            }
        }
        let s1 = (s - 1) as nat;
        let ps1: nat = pow_nat(b, s1);
        assert(pow_nat(b, s) == b * ps1);
        lemma_div_pos_is_pos(k as int, b as int);
        lemma_div_decreases(k as int, b as int);
        lemma_fundamental_div_mod(k as int, b as int);
        assert(b * (k / b) <= k);
        assert(k / b < ps1) by (nonlinear_arith)
            requires
                b >= 2,
                b * (k / b) <= k,
                k < b * ps1,
        ;
        lemma_vdc_scaled_exact(k / b, b, s1);
        lemma_div_multiples_vanish(ps1 as int, b as int);
        assert((b * ps1) / b == ps1);
        let rd: nat = k % b;
        let sc1: nat = vdc_scaled(k / b, b, ps1);
        let num1: nat = vdc_num(k / b, b);
        assert(vdc_scaled(k, b, b * ps1) == rd * ps1 + sc1);
        let d = vdc_digits(k, b);
        assert(d == 1 + vdc_digits(k / b, b));
        let p1: nat = pow_nat(b, (d - 1) as nat);
        assert(vdc_den(k, b) == b * p1);
        assert(vdc_den(k / b, b) == p1);
        assert(vdc_num(k, b) == rd * p1 + num1);
        assert((rd * ps1 + sc1) * (b * p1) == (rd * p1 + num1) * (b * ps1)) by (nonlinear_arith)
            requires
                sc1 * p1 == num1 * ps1,
        ;
    }
}

/// Integer Van der Corput sequence generator.
///
/// `pop` advances the position and returns the digit-reversal value of the
/// new position in the configured base, scaled by `base^scale`.
#[derive(Debug)]
pub struct VdCorput {
    base: u32,
    scale: u32,
    count: u32,
    factor: u32,
}

impl VdCorput {
    /// The base of the sequence.
    pub closed spec fn base(self) -> nat {
        self.base as nat
    }

    /// The scale exponent: results are scaled by `base^scale`.
    pub closed spec fn scale(self) -> nat {
        self.scale as nat
    }

    /// The current position of the sequence.
    pub closed spec fn count(self) -> nat {
        self.count as nat
    }

    /// The scale factor `base^scale`.
    pub closed spec fn factor(self) -> nat {
        self.factor as nat
    }

    /// The base carries digits and the stored factor is `base^scale`.
    pub open spec fn wf(self) -> bool {
        self.base() >= 2 && self.factor() == pow_nat(self.base(), self.scale())
    }

    /// Creates a generator over `base` with results scaled by `base^scale`.
    pub fn new(base: u32, scale: u32) -> (r: Self)
        requires
            base >= 2,
            pow_nat(base as nat, scale as nat) <= u32::MAX,
        ensures
            r.wf(),
            r.base() == base,
            r.scale() == scale,
            r.count() == 0,
    {
        let mut factor: u32 = 1;
        let mut i: u32 = 0;
        while i < scale
            invariant
                base >= 2,
                i <= scale,
                factor == pow_nat(base as nat, i as nat),
                pow_nat(base as nat, scale as nat) <= u32::MAX,
            decreases scale - i,
        {
            proof {
                assert(pow_nat(base as nat, (i + 1) as nat)
                    == (base as nat) * pow_nat(base as nat, i as nat));
                lemma_pow_nat_increases(base as nat, (i + 1) as nat, scale as nat);
            }
            factor = base * factor;
            i = i + 1;
        }
        VdCorput { base, scale, count: 0, factor }
    }

    /// Advances the position and returns the scaled value at it.
    pub fn pop(&mut self) -> (r: u32)
        requires
            old(self).wf(),
            old(self).count() < u32::MAX,
        ensures
            final(self).wf(),
            final(self).base() == old(self).base(),
            final(self).scale() == old(self).scale(),
            final(self).factor() == old(self).factor(),
            final(self).count() == old(self).count() + 1,
            r == vdc_scaled(old(self).count() + 1, old(self).base(), old(self).factor()),
    {
        self.count = self.count + 1;
        let ghost c1: nat = self.count as nat;
        let ghost bn: nat = self.base as nat;
        let ghost f0: nat = self.factor as nat;
        let mut k: u32 = self.count;
        let mut vdc: u32 = 0;
        let mut factor: u32 = self.factor;
        proof {
            lemma_vdc_scaled_bound(c1, bn, f0);
        }
        while k != 0
            invariant
                self.base >= 2,
                bn == self.base as nat,
                c1 == self.count as nat,
                f0 == self.factor as nat,
                vdc + vdc_scaled(k as nat, bn, factor as nat) == vdc_scaled(c1, bn, f0),
                vdc_scaled(c1, bn, f0) <= u32::MAX,
            decreases k,
        {
            let ghost kn: nat = k as nat;
            let ghost fn0: nat = factor as nat;
            proof {
                lemma_div_decreases(kn as int, bn as int);
                assert(vdc_scaled(kn, bn, fn0)
                    == (kn % bn) * (fn0 / bn) + vdc_scaled(kn / bn, bn, fn0 / bn));
            }
            factor = factor / self.base;
            let remainder: u32 = k % self.base;
            k = k / self.base;
            vdc = vdc + remainder * factor;
        }
        vdc
    }

    /// Moves the position to `seed`; the next `pop` uses position `seed + 1`.
    pub fn reseed(&mut self, seed: u32)
        ensures
            final(self).wf() == old(self).wf(),
            final(self).base() == old(self).base(),
            final(self).scale() == old(self).scale(),
            final(self).factor() == old(self).factor(),
            final(self).count() == seed,
    {
        self.count = seed;
    }
}

impl Default for VdCorput {
    /// The customary starting point: base 2, ten binary digits.
    fn default() -> (r: Self)
        ensures
            r.wf(),
            r.base() == 2,
            r.scale() == 10,
            r.count() == 0,
    {
        proof {
            reveal_with_fuel(pow_nat, 11);
            assert(pow_nat(2, 10) == 1024);
        }
        VdCorput::new(2, 10)
    }
}

/// Integer Halton point generator: one integer Van der Corput sequence for
/// each of the two coordinates.
#[derive(Debug)]
pub struct Halton {
    vdc0: VdCorput,
    vdc1: VdCorput,
}

impl Halton {
    /// The base of coordinate `i` (0 or 1).
    pub closed spec fn base_at(self, i: int) -> nat {
        if i == 0 {
            self.vdc0.base()
        } else {
            self.vdc1.base()
        }
    }

    /// The scale exponent of coordinate `i` (0 or 1).
    pub closed spec fn scale_at(self, i: int) -> nat {
        if i == 0 {
            self.vdc0.scale()
        } else {
            self.vdc1.scale()
        }
    }

    /// The position of coordinate `i` (0 or 1).
    pub closed spec fn count_at(self, i: int) -> nat {
        if i == 0 {
            self.vdc0.count()
        } else {
            self.vdc1.count()
        }
    }

    /// The scale factor of coordinate `i` (0 or 1).
    pub closed spec fn factor_at(self, i: int) -> nat {
        if i == 0 {
            self.vdc0.factor()
        } else {
            self.vdc1.factor()
        }
    }

    /// Both inner sequences are well formed.
    pub open spec fn wf(self) -> bool {
        &&& self.base_at(0) >= 2
        &&& self.base_at(1) >= 2
        &&& self.factor_at(0) == pow_nat(self.base_at(0), self.scale_at(0))
        &&& self.factor_at(1) == pow_nat(self.base_at(1), self.scale_at(1))
    }

    /// Creates a generator over the given bases and scale exponents.
    pub fn new(base: [u32; 2], scale: [u32; 2]) -> (r: Self)
        requires
            base[0] >= 2,
            base[1] >= 2,
            pow_nat(base[0] as nat, scale[0] as nat) <= u32::MAX,
            pow_nat(base[1] as nat, scale[1] as nat) <= u32::MAX,
        ensures
            r.wf(),
            r.base_at(0) == base[0],
            r.base_at(1) == base[1],
            r.scale_at(0) == scale[0],
            r.scale_at(1) == scale[1],
            r.count_at(0) == 0,
            r.count_at(1) == 0,
    {
        Halton { vdc0: VdCorput::new(base[0], scale[0]), vdc1: VdCorput::new(base[1], scale[1]) }
    }

    /// Draws the next point: one scaled integer per coordinate.
    pub fn pop(&mut self) -> (r: [u32; 2])
        requires
            old(self).wf(),
            old(self).count_at(0) < u32::MAX,
            old(self).count_at(1) < u32::MAX,
        ensures
            final(self).wf(),
            forall|i: int| 0 <= i < 2 ==> final(self).base_at(i) == old(self).base_at(i),
            forall|i: int| 0 <= i < 2 ==> final(self).scale_at(i) == old(self).scale_at(i),
            forall|i: int| 0 <= i < 2 ==> final(self).factor_at(i) == old(self).factor_at(i),
            forall|i: int| 0 <= i < 2 ==> final(self).count_at(i) == old(self).count_at(i) + 1,
            r[0] == vdc_scaled(
                old(self).count_at(0) + 1,
                old(self).base_at(0),
                old(self).factor_at(0),
            ),
            r[1] == vdc_scaled(
                old(self).count_at(1) + 1,
                old(self).base_at(1),
                old(self).factor_at(1),
            ),
    {
        [self.vdc0.pop(), self.vdc1.pop()]
    }

    /// Repositions both coordinates to `seed`.
    pub fn reseed(&mut self, seed: u32)
        ensures
            final(self).wf() == old(self).wf(),
            forall|i: int| 0 <= i < 2 ==> final(self).base_at(i) == old(self).base_at(i),
            forall|i: int| 0 <= i < 2 ==> final(self).scale_at(i) == old(self).scale_at(i),
            forall|i: int| 0 <= i < 2 ==> final(self).factor_at(i) == old(self).factor_at(i),
            forall|i: int| 0 <= i < 2 ==> final(self).count_at(i) == seed,
    {
        self.vdc0.reseed(seed);
        self.vdc1.reseed(seed);
    }
}

/// Divides a byte by 3 with shifts and adds alone: returns the quotient and
/// the remainder.
pub fn div_mod_3_u8(n: u8) -> (r: (u8, u8))
    ensures
        r.0 == n / 3,
        r.1 == n % 3,
{
    let q1: u8 = n >> 2;
    let r1: u8 = n & 0x03;
    proof {
        assert(n >> 2 <= 63 && (n & 0x03) <= 3) by (bit_vector);
    }
    let rem1: u8 = q1 + r1;
    let q2: u8 = rem1 >> 2;
    let r2: u8 = rem1 & 0x03;
    proof {
        assert(rem1 >> 2 <= 63 && (rem1 & 0x03) <= 3) by (bit_vector);
    }
    let rem2: u8 = q2 + r2;
    let q3: u8 = rem2 >> 2;
    let r3: u8 = rem2 & 0x03;
    proof {
        assert(rem2 >> 2 <= 63 && (rem2 & 0x03) <= 3) by (bit_vector);
    }
    let rem3: u8 = q3 + r3;
    let q4: u8 = rem3 >> 2;
    let r4: u8 = rem3 & 0x03;
    proof {
        assert(rem3 >> 2 <= 63 && (rem3 & 0x03) <= 3) by (bit_vector);
    }
    let rem4: u8 = q4 + r4;

    let quotient_sum: u8 = q1 + q2 + q3 + q4;
    proof {
        assert((rem4 == 0x03 ==> q1 + q2 + q3 + q4 + 1 == n / 3 && n % 3 == 0) && (rem4 != 0x03
            ==> q1 + q2 + q3 + q4 == n / 3 && rem4 == n % 3)) by (bit_vector)
            requires
                q1 == n >> 2,
                r1 == n & 0x03,
                rem1 == q1 + r1,
                q2 == rem1 >> 2,
                r2 == rem1 & 0x03,
                rem2 == q2 + r2,
                q3 == rem2 >> 2,
                r3 == rem2 & 0x03,
                rem3 == q3 + r3,
                q4 == rem3 >> 2,
                r4 == rem3 & 0x03,
                rem4 == q4 + r4,
        ;
    }
    if rem4 == 0x03 {
        (quotient_sum + 1, 0x00)
    } else {
        (quotient_sum, rem4)
    }
}

/// Divides a 16-bit word by 3 with shifts and adds alone: returns the
/// quotient and the remainder.
#[verifier::rlimit(100)]
pub fn div_mod_3_u16(n: u16) -> (r: (u16, u16))
    ensures
        r.0 == n / 3,
        r.1 == n % 3,
{
    let q1: u16 = n >> 2;
    let r1: u16 = n & 0x03;
    proof {
        assert(n >> 2 <= 16383 && (n & 0x03) <= 3) by (bit_vector);
    }
    let rem1: u16 = q1 + r1;
    let q2: u16 = rem1 >> 2;
    let r2: u16 = rem1 & 0x03;
    proof {
        assert(rem1 >> 2 <= 4096 && (rem1 & 0x03) <= 3) by (bit_vector)
            requires
                rem1 <= 16386,
        ;
    }
    let rem2: u16 = q2 + r2;
    let q3: u16 = rem2 >> 2;
    let r3: u16 = rem2 & 0x03;
    proof {
        assert(rem2 >> 2 <= 1024 && (rem2 & 0x03) <= 3) by (bit_vector)
            requires
                rem2 <= 4099,
        ;
    }
    let rem3: u16 = q3 + r3;
    let q4: u16 = rem3 >> 2;
    let r4: u16 = rem3 & 0x03;
    proof {
        assert(rem3 >> 2 <= 256 && (rem3 & 0x03) <= 3) by (bit_vector)
            requires
                rem3 <= 1027,
        ;
    }
    let rem4: u16 = q4 + r4;
    let q5: u16 = rem4 >> 2;
    let r5: u16 = rem4 & 0x03;
    proof {
        assert(rem4 >> 2 <= 64 && (rem4 & 0x03) <= 3) by (bit_vector)
            requires
                rem4 <= 259,
        ;
    }
    let rem5: u16 = q5 + r5;
    let q6: u16 = rem5 >> 2;
    let r6: u16 = rem5 & 0x03;
    proof {
        assert(rem5 >> 2 <= 16 && (rem5 & 0x03) <= 3) by (bit_vector)
            requires
                rem5 <= 67,
        ;
    }
    let rem6: u16 = q6 + r6;
    let q7: u16 = rem6 >> 2;
    let r7: u16 = rem6 & 0x03;
    proof {
        assert(rem6 >> 2 <= 4 && (rem6 & 0x03) <= 3) by (bit_vector)
            requires
                rem6 <= 19,
        ;
    }
    let rem7: u16 = q7 + r7;
    let q8: u16 = rem7 >> 2;
    let r8: u16 = rem7 & 0x03;
    proof {
        assert(rem7 >> 2 <= 1 && (rem7 & 0x03) <= 3) by (bit_vector)
            requires
                rem7 <= 7,
        ;
    }
    let rem8: u16 = q8 + r8;

    proof {
        assert((rem8 == 0x03 ==> q1 + q2 + q3 + q4 + q5 + q6 + q7 + q8 + 1 == n / 3 && n % 3
            == 0) && (rem8 != 0x03 ==> q1 + q2 + q3 + q4 + q5 + q6 + q7 + q8 == n / 3 && rem8 == n
            % 3)) by (bit_vector)
            requires
                rem1 <= 16386,
                rem2 <= 4099,
                rem3 <= 1027,
                rem4 <= 259,
                rem5 <= 67,
                rem6 <= 19,
                rem7 <= 7,
                rem8 <= 4,
                q1 == n >> 2,
                r1 == n & 0x03,
                rem1 == q1 + r1,
                q2 == rem1 >> 2,
                r2 == rem1 & 0x03,
                rem2 == q2 + r2,
                q3 == rem2 >> 2,
                r3 == rem2 & 0x03,
                rem3 == q3 + r3,
                q4 == rem3 >> 2,
                r4 == rem3 & 0x03,
                rem4 == q4 + r4,
                q5 == rem4 >> 2,
                r5 == rem4 & 0x03,
                rem5 == q5 + r5,
                q6 == rem5 >> 2,
                r6 == rem5 & 0x03,
                rem6 == q6 + r6,
                q7 == rem6 >> 2,
                r7 == rem6 & 0x03,
                rem7 == q7 + r7,
                q8 == rem7 >> 2,
                r8 == rem7 & 0x03,
                rem8 == q8 + r8,
        ;
    }
    let quotient_sum: u16 = q1 + q2 + q3 + q4 + q5 + q6 + q7 + q8;
    if rem8 == 0x03 {
        (quotient_sum + 1, 0x00)
    } else {
        (quotient_sum, rem8)
    }
}

/// Divides a byte by 7 with shifts and adds alone: returns the quotient and
/// the remainder.
pub fn div_mod_7_u8(n: u8) -> (r: (u8, u8))
    ensures
        r.0 == n / 7,
        r.1 == n % 7,
{
    let q1: u8 = n >> 3;
    let r1: u8 = n & 0x07;
    proof {
        assert(n >> 3 <= 31 && (n & 0x07) <= 7) by (bit_vector);
    }
    let rem1: u8 = q1 + r1;
    let q2: u8 = rem1 >> 3;
    let r2: u8 = rem1 & 0x07;
    proof {
        assert(rem1 >> 3 <= 31 && (rem1 & 0x07) <= 7) by (bit_vector);
    }
    let rem2: u8 = q2 + r2;
    let q3: u8 = rem2 >> 3;
    let r3: u8 = rem2 & 0x07;
    proof {
        assert(rem2 >> 3 <= 31 && (rem2 & 0x07) <= 7) by (bit_vector);
    }
    let rem3: u8 = q3 + r3;

    let quotient_sum: u8 = q1 + q2 + q3;
    proof {
        assert((rem3 == 0x07 ==> q1 + q2 + q3 + 1 == n / 7 && n % 7 == 0) && (rem3 != 0x07 ==> q1
            + q2 + q3 == n / 7 && rem3 == n % 7)) by (bit_vector)
            requires
                q1 == n >> 3,
                r1 == n & 0x07,
                rem1 == q1 + r1,
                q2 == rem1 >> 3,
                r2 == rem1 & 0x07,
                rem2 == q2 + r2,
                q3 == rem2 >> 3,
                r3 == rem2 & 0x07,
                rem3 == q3 + r3,
        ;
    }
    if rem3 == 0x07 {
        (quotient_sum + 1, 0x00)
    } else {
        (quotient_sum, rem3)
    }
}

/// Divides a 16-bit word by 7 with shifts and adds alone: returns the
/// quotient and a remainder.
///
/// Five folding rounds are not quite enough to reduce every 16-bit word:
/// when the folded value comes to rest at 8 (which happens exactly when one
/// more round would be needed), the pair `(n / 7 - 1, 8)` is returned
/// instead of `(n / 7, 1)`.  The quotient-remainder identity
/// `7 * quotient + remainder == n` holds in every case.
#[verifier::rlimit(100)]
pub fn div_mod_7_u16(n: u16) -> (r: (u16, u16))
    ensures
        7 * r.0 + r.1 == n,
        r.1 < 7 || r.1 == 8,
        r.1 != 8 ==> r.0 == n / 7 && r.1 == n % 7,
        r.1 == 8 ==> r.0 + 1 == n / 7 && n % 7 == 1,
{
    let q1: u16 = n >> 3;
    let r1: u16 = n & 0x07;
    proof {
        assert(n >> 3 <= 8191 && (n & 0x07) <= 7) by (bit_vector);
    }
    let rem1: u16 = q1 + r1;
    let q2: u16 = rem1 >> 3;
    let r2: u16 = rem1 & 0x07;
    proof {
        assert(rem1 >> 3 <= 1024 && (rem1 & 0x07) <= 7) by (bit_vector)
            requires
                rem1 <= 8198,
        ;
    }
    let rem2: u16 = q2 + r2;
    let q3: u16 = rem2 >> 3;
    let r3: u16 = rem2 & 0x07;
    proof {
        assert(rem2 >> 3 <= 128 && (rem2 & 0x07) <= 7) by (bit_vector)
            requires
                rem2 <= 1031,
        ;
    }
    let rem3: u16 = q3 + r3;
    let q4: u16 = rem3 >> 3;
    let r4: u16 = rem3 & 0x07;
    proof {
        assert(rem3 >> 3 <= 16 && (rem3 & 0x07) <= 7) by (bit_vector)
            requires
                rem3 <= 135,
        ;
    }
    let rem4: u16 = q4 + r4;
    let q5: u16 = rem4 >> 3;
    let r5: u16 = rem4 & 0x07;
    proof {
        assert(rem4 >> 3 <= 2 && (rem4 & 0x07) <= 7) by (bit_vector)
            requires
                rem4 <= 23,
        ;
    }
    let rem5: u16 = q5 + r5;

    let quotient_sum: u16 = q1 + q2 + q3 + q4 + q5;
    proof {
        // Each folding round preserves the identity x == 7 * q + next, and
        // five rounds take every 16-bit word down to at most 8.
        assert(7 * (q1 + q2 + q3 + q4 + q5) + rem5 == n && rem5 <= 8) by (bit_vector)
            requires
                rem1 <= 8198,
                rem2 <= 1031,
                rem3 <= 135,
                rem4 <= 23,
                q1 == n >> 3,
                r1 == n & 0x07,
                rem1 == q1 + r1,
                q2 == rem1 >> 3,
                r2 == rem1 & 0x07,
                rem2 == q2 + r2,
                q3 == rem2 >> 3,
                r3 == rem2 & 0x07,
                rem3 == q3 + r3,
                q4 == rem3 >> 3,
                r4 == rem3 & 0x07,
                rem4 == q4 + r4,
                q5 == rem4 >> 3,
                r5 == rem4 & 0x07,
                rem5 == q5 + r5,
        ;
        if rem5 == 0x07 {
            lemma_fundamental_div_mod_converse(n as int, 7, quotient_sum + 1, 0);
        } else if rem5 == 8 {
            lemma_fundamental_div_mod_converse(n as int, 7, quotient_sum + 1, 1);
        } else {
            lemma_fundamental_div_mod_converse(n as int, 7, quotient_sum as int, rem5 as int);
        }
    }
    if rem5 == 0x07 {
        (quotient_sum + 1, 0x00)
    } else {
        (quotient_sum, rem5)
    }
}

} // verus!
