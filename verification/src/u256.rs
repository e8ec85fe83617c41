//! An unsigned 256-bit integer, wide enough to hold the product of two
//! 128-bit balances.

use vstd::arithmetic::div_mod::lemma_fundamental_div_mod_converse;
use vstd::arithmetic::power2::{lemma2_to64, lemma_pow2_adds, lemma_pow2_unfold, pow2};
use vstd::prelude::*;

verus! {

/// Two to the power 128, as a mathematical integer.
pub open spec fn pow2_128() -> int {
    0x1_0000_0000_0000_0000_0000_0000_0000_0000int
}

/// Two to the power 256, as a mathematical integer.
pub open spec fn pow2_256() -> int {
    pow2_128() * pow2_128()
}

/// An unsigned 256-bit integer kept as two 128-bit halves.
#[derive(Clone, Copy, Debug)]
pub struct U256 {
    pub hi: u128,
    pub lo: u128,
}

impl View for U256 {
    type V = int;

    open spec fn view(&self) -> int {
        self.hi as int * pow2_128() + self.lo as int
    }
}

impl U256 {
    /// The value zero.
    pub fn zero() -> (r: Self)
        ensures
            r@ == 0,
    {
        U256 { hi: 0, lo: 0 }
    }

    /// The value one.
    pub fn one() -> (r: Self)
        ensures
            r@ == 1,
    {
        U256 { hi: 0, lo: 1 }
    }

    /// Widens a 128-bit value.
    pub fn from_u128(value: u128) -> (r: Self)
        ensures
            r@ == value,
    {
        U256 { hi: 0, lo: value }
    }

    /// Whether the value is zero.
    pub fn is_zero(&self) -> (r: bool)
        ensures
            r == (self@ == 0),
    {
        self.hi == 0 && self.lo == 0
    }

    /// The largest value, two to the power 256 less one.
    pub fn max_value() -> (r: Self)
        ensures
            r@ == pow2_256() - 1,
    {
        assert(pow2_256() == pow2_128() * pow2_128());
        assert(pow2_128() * pow2_128() == (pow2_128() - 1) * pow2_128() + pow2_128())
            by (nonlinear_arith);
        U256 { hi: u128::MAX, lo: u128::MAX }
    }

    /// Every value lies below two to the power 256.
    pub proof fn lemma_bounded(self)
        ensures
            0 <= self@ < pow2_256(),
    {
        assert(self.hi as int * pow2_128() <= (pow2_128() - 1) * pow2_128()) by (nonlinear_arith)
            requires
                self.hi as int <= pow2_128() - 1,
        ;
        assert(pow2_128() * pow2_128() == (pow2_128() - 1) * pow2_128() + pow2_128())
            by (nonlinear_arith);
        assert(0 <= self.hi as int * pow2_128()) by (nonlinear_arith)
            requires
                0 <= self.hi as int,
        ;
    }

    /// Two values with the same view are the same value.
    pub proof fn lemma_view_injective(self, other: Self)
        requires
            self@ == other@,
        ensures
            self == other,
    {
        assert(self.hi == other.hi) by (nonlinear_arith)
            requires
                self.hi as int * pow2_128() + self.lo as int == other.hi as int * pow2_128()
                    + other.lo as int,
                0 <= (self.lo as int) < pow2_128(),
                0 <= (other.lo as int) < pow2_128(),
        ;
    }

    /// Whether `self` is strictly below `other`.
    pub fn lt(&self, other: &Self) -> (r: bool)
        ensures
            r == (self@ < other@),
    {
        proof {
            lemma_order_by_halves(*self, *other);
            lemma_order_by_halves(*other, *self);
        }
        self.hi < other.hi || (self.hi == other.hi && self.lo < other.lo)
    }

    /// Whether `self` is at most `other`.
    pub fn le(&self, other: &Self) -> (r: bool)
        ensures
            r == (self@ <= other@),
    {
        !other.lt(self)
    }

    /// Whether the two values are equal.
    pub fn equals(&self, other: &Self) -> (r: bool)
        ensures
            r == (self@ == other@),
    {
        proof {
            if self@ == other@ {
                self.lemma_view_injective(*other);
            }
        }
        self.hi == other.hi && self.lo == other.lo
    }

    /// The smaller of the two values.
    pub fn min(self, other: Self) -> (r: Self)
        ensures
            r@ == if self@ <= other@ { self@ } else { other@ },
            r == self || r == other,
    {
        if self.le(&other) {
            self
        } else {
            other
        }
    }

    /// The low 128 bits of a value that fits in them.
    pub fn as_u128(&self) -> (r: u128)
        requires
            self@ <= u128::MAX,
        ensures
            r == self@,
    {
        proof {
            if self.hi != 0 {
                assert(self.hi as int * pow2_128() >= pow2_128()) by (nonlinear_arith)
                    requires
                        self.hi as int >= 1,
                ;
            }
        }
        self.lo
    }

    /// The value as a 128-bit integer, where it fits in one.
    pub fn try_as_u128(&self) -> (r: Option<u128>)
        ensures
            r == if self@ <= u128::MAX { Some(self@ as u128) } else { None },
    {
        if self.fits_u128() {
            Some(self.as_u128())
        } else {
            None
        }
    }

    /// The sum, where it fits in 256 bits.
    pub fn checked_add(self, other: Self) -> (r: Option<Self>)
        ensures
            self@ + other@ < pow2_256() ==> r is Some && r->0@ == self@ + other@,
            self@ + other@ >= pow2_256() ==> r is None,
    {
        let room: u128 = u128::MAX - other.lo;
        let (lo, carry): (u128, u128) = if self.lo > room {
            (self.lo - room - 1, 1)
        } else {
            (self.lo + other.lo, 0)
        };
        assert(pow2_256() == pow2_128() * pow2_128());
        assert((self.hi + other.hi + carry) * pow2_128() == self.hi * pow2_128() + other.hi
            * pow2_128() + carry * pow2_128()) by (nonlinear_arith);
        assert(self.hi + other.hi + carry >= pow2_128() ==> (self.hi + other.hi + carry)
            * pow2_128() >= pow2_128() * pow2_128()) by (nonlinear_arith);
        assert(self.hi + other.hi + carry < pow2_128() ==> (self.hi + other.hi + carry)
            * pow2_128() <= (pow2_128() - 1) * pow2_128()) by (nonlinear_arith);
        assert(pow2_128() * pow2_128() == (pow2_128() - 1) * pow2_128() + pow2_128())
            by (nonlinear_arith);
        if self.hi > u128::MAX - other.hi {
            return None;
        }
        let hi_sum: u128 = self.hi + other.hi;
        if hi_sum > u128::MAX - carry {
            return None;
        }
        Some(U256 { hi: hi_sum + carry, lo })
    }

    /// The difference, where `other` does not exceed `self`.
    pub fn checked_sub(self, other: Self) -> (r: Option<Self>)
        ensures
            self@ >= other@ ==> r is Some && r->0@ == self@ - other@,
            self@ < other@ ==> r is None,
    {
        if self.lt(&other) {
            return None;
        }
        proof {
            lemma_order_by_halves(self, other);
            lemma_order_by_halves(other, self);
        }
        assert(self.hi >= other.hi);
        let r = if self.lo >= other.lo {
            U256 { hi: self.hi - other.hi, lo: self.lo - other.lo }
        } else {
            assert(self.hi > other.hi);
            U256 { hi: self.hi - other.hi - 1, lo: u128::MAX - other.lo + self.lo + 1 }
        };
        assert(r@ == self@ - other@) by (nonlinear_arith)
            requires
                r.hi as int * pow2_128() + r.lo as int == r@,
                self@ == self.hi as int * pow2_128() + self.lo as int,
                other@ == other.hi as int * pow2_128() + other.lo as int,
                (r.hi == self.hi - other.hi && r.lo == self.lo - other.lo) || (r.hi == self.hi
                    - other.hi - 1 && r.lo == pow2_128() - other.lo + self.lo),
        ;
        Some(r)
    }

    /// The product with a 128-bit factor, where it fits in 256 bits.
    pub fn checked_mul_u128(self, factor: u128) -> (r: Option<Self>)
        ensures
            self@ * factor < pow2_256() ==> r is Some && r->0@ == self@ * factor,
            self@ * factor >= pow2_256() ==> r is None,
    {
        let t = mul_u128(self.hi, factor);
        let p = mul_u128(self.lo, factor);
        proof {
            let k = pow2_128();
            let h = self.hi as int;
            let l = self.lo as int;
            let f = factor as int;
            assert((h * k + l) * f == (h * f) * k + l * f) by (nonlinear_arith);
            assert((t.hi as int * k + t.lo as int) * k == t.hi as int * (k * k) + t.lo as int * k)
                by (nonlinear_arith);
            assert((t.lo as int + p.hi as int) * k == t.lo as int * k + p.hi as int * k)
                by (nonlinear_arith);
            assert(self@ * factor == t.hi as int * pow2_256() + (t.lo as int + p.hi as int) * k
                + p.lo as int);
            assert(t.hi as int >= 1 ==> t.hi as int * (k * k) >= k * k) by (nonlinear_arith)
                requires
                    k > 0,
            ;
            assert(t.lo as int + p.hi as int >= k ==> (t.lo as int + p.hi as int) * k >= k * k)
                by (nonlinear_arith)
                requires
                    k > 0,
            ;
            assert(t.lo as int + p.hi as int <= k - 1 ==> (t.lo as int + p.hi as int) * k <= (k
                - 1) * k) by (nonlinear_arith)
                requires
                    k > 0,
            ;
            assert(k * k == (k - 1) * k + k) by (nonlinear_arith);
            assert(0 <= (t.lo as int + p.hi as int) * k) by (nonlinear_arith)
                requires
                    0 <= t.lo as int + p.hi as int,
                    k > 0,
            ;
            assert(0 <= t.hi as int * (k * k)) by (nonlinear_arith)
                requires
                    0 <= t.hi as int,
                    k > 0,
            ;
        }
        if t.hi != 0 {
            return None;
        }
        if t.lo > u128::MAX - p.hi {
            return None;
        }
        Some(U256 { hi: t.lo + p.hi, lo: p.lo })
    }

    /// The product, where it fits in 256 bits.
    pub fn checked_mul(self, other: Self) -> (r: Option<Self>)
        ensures
            self@ * other@ < pow2_256() ==> r is Some && r->0@ == self@ * other@,
            self@ * other@ >= pow2_256() ==> r is None,
    {
        if other.hi == 0 {
            self.checked_mul_u128(other.lo)
        } else if self.hi == 0 {
            assert(self@ * other@ == other@ * self@) by (nonlinear_arith);
            other.checked_mul_u128(self.lo)
        } else {
            proof {
                let k = pow2_128();
                assert(self@ >= k) by (nonlinear_arith)
                    requires
                        self@ == self.hi as int * k + self.lo as int,
                        self.hi as int >= 1,
                        self.lo as int >= 0,
                        k > 0,
                ;
                assert(other@ >= k) by (nonlinear_arith)
                    requires
                        other@ == other.hi as int * k + other.lo as int,
                        other.hi as int >= 1,
                        other.lo as int >= 0,
                        k > 0,
                ;
                assert(self@ * other@ >= k * k) by (nonlinear_arith)
                    requires
                        self@ >= k,
                        other@ >= k,
                        k > 0,
                ;
            }
            None
        }
    }

    /// Half the value, rounded down.
    pub fn halve(self) -> (r: Self)
        ensures
            r@ == self@ / 2,
    {
        let half: u128 = 0x8000_0000_0000_0000_0000_0000_0000_0000u128;
        let hi: u128 = self.hi / 2;
        let lo: u128 = self.lo / 2 + (self.hi % 2) * half;
        proof {
            let k = pow2_128();
            assert((2 * hi as int + (self.hi % 2) as int) * k == 2 * (hi as int * k) + (self.hi
                % 2) as int * k) by (nonlinear_arith);
            assert(self@ == 2 * (hi as int * k + lo as int) + (self.lo % 2) as int);
        }
        U256 { hi, lo }
    }

    /// Twice the value plus a carry-in bit.
    fn double_with(self, bit: bool) -> (r: Self)
        requires
            2 * self@ + (if bit { 1int } else { 0int }) < pow2_256(),
        ensures
            r@ == 2 * self@ + (if bit { 1int } else { 0int }),
    {
        let half: u128 = 0x8000_0000_0000_0000_0000_0000_0000_0000u128;
        proof {
            let k = pow2_128();
            assert(pow2_256() == k * k);
            assert(self.hi as int >= half as int ==> self.hi as int * k >= half as int * k)
                by (nonlinear_arith)
                requires
                    k > 0,
            ;
            assert(half as int * k + half as int * k == k * k) by (nonlinear_arith)
                requires
                    2 * half as int == k,
            ;
            assert((2 * self.hi as int + self.lo as int / half as int) * k == 2 * (self.hi as int
                * k) + (self.lo as int / half as int) * k) by (nonlinear_arith);
        }
        let hi: u128 = self.hi * 2 + self.lo / half;
        let lo: u128 = (self.lo % half) * 2 + if bit { 1 } else { 0 };
        U256 { hi, lo }
    }

    /// The value with its top bit dropped, doubled.
    fn shift_out_top(self) -> (r: Self)
        ensures
            r@ == 2 * (self@ % pow2_255()),
            self@ / pow2_255() == if self.hi >= 0x8000_0000_0000_0000_0000_0000_0000_0000u128 {
                1int
            } else {
                0int
            },
    {
        let half: u128 = 0x8000_0000_0000_0000_0000_0000_0000_0000u128;
        let top: u128 = self.hi / half;
        let rest = U256 { hi: self.hi % half, lo: self.lo };
        proof {
            let k = pow2_128();
            assert((top as int * half as int + rest.hi as int) * k == top as int * (half as int
                * k) + rest.hi as int * k) by (nonlinear_arith);
            assert(half as int * k == pow2_255()) by (nonlinear_arith)
                requires
                    half as int == 0x8000_0000_0000_0000_0000_0000_0000_0000int,
                    k == pow2_128(),
            ;
            assert(self@ == top as int * pow2_255() + rest@);
            assert(rest.hi as int * k <= (half as int - 1) * k) by (nonlinear_arith)
                requires
                    rest.hi as int <= half as int - 1,
                    k > 0,
            ;
            assert((half as int - 1) * k == half as int * k - k) by (nonlinear_arith);
            assert(0 <= rest.hi as int * k) by (nonlinear_arith)
                requires
                    0 <= rest.hi as int,
                    k > 0,
            ;
            assert(0 <= rest@ < pow2_255());
            lemma_fundamental_div_mod_converse(self@, pow2_255(), top as int, rest@);
            assert(pow2_256() == 2 * pow2_255()) by (nonlinear_arith)
                requires
                    pow2_256() == pow2_128() * pow2_128(),
                    pow2_255() == 0x8000_0000_0000_0000_0000_0000_0000_0000int * pow2_128(),
            ;
        }
        rest.double_with(false)
    }

    /// Quotient and remainder of the division by a nonzero `divisor`.
    pub fn div_rem(self, divisor: Self) -> (r: (Self, Self))
        requires
            divisor@ != 0,
        ensures
            r.0@ == self@ / divisor@,
            r.1@ == self@ % divisor@,
    {
        let mut quotient = U256::zero();
        let mut remainder = U256::zero();
        let mut pending = self;
        let mut i: u32 = 256;
        let ghost mut prefix: int = 0;
        let ghost mut rest: int = self@;
        let ghost mut weight: int = pow2_256();
        proof {
            self.lemma_bounded();
            divisor.lemma_bounded();
            lemma_pow2_256();
        }
        while i > 0
            invariant
                i <= 256,
                divisor@ > 0,
                weight == pow2(i as nat),
                weight > 0,
                self@ == prefix * weight + rest,
                0 <= rest < weight,
                0 <= prefix,
                pending@ * weight == rest * pow2_256(),
                prefix == quotient@ * divisor@ + remainder@,
                0 <= remainder@ < divisor@,
                self@ < pow2_256(),
                divisor@ < pow2_256(),
            decreases i,
        {
            let top: bool = pending.hi >= 0x8000_0000_0000_0000_0000_0000_0000_0000u128;
            let ghost bit: int = if top { 1 } else { 0 };
            let ghost half_weight: int = pow2((i - 1) as nat) as int;
            let ghost old_pending = pending@;
            let ghost old_prefix = prefix;
            let ghost old_rest = rest;
            let ghost old_quotient = quotient@;
            let ghost old_remainder = remainder@;
            proof {
                lemma_pow2_unfold(i as nat);
                vstd::arithmetic::power2::lemma_pow2_pos((i - 1) as nat);
                assert(weight == 2 * half_weight);
                pending.lemma_bounded();
            }
            pending = pending.shift_out_top();
            proof {
                lemma_long_division_step(
                    old_pending,
                    pending@,
                    bit,
                    old_rest,
                    half_weight,
                    old_prefix,
                    self@,
                );
                prefix = 2 * old_prefix + bit;
                rest = old_rest - bit * half_weight;
                weight = half_weight;
                lemma_quotient_step(
                    old_quotient,
                    old_remainder,
                    divisor@,
                    bit,
                    prefix,
                    half_weight,
                    rest,
                    self@,
                );
            }
            // The running remainder doubles and takes in the next bit; where it
            // reaches the divisor, the divisor is subtracted and the quotient
            // gets a one.
            let gap = divisor.checked_sub(remainder).unwrap();
            let reached: bool = if top {
                gap.le(&remainder.checked_add(U256::one()).unwrap())
            } else {
                gap.le(&remainder)
            };
            if reached {
                let over = remainder.checked_sub(gap);
                remainder = match over {
                    Some(v) => v.checked_add(if top {
                        U256::one()
                    } else {
                        U256::zero()
                    }).unwrap(),
                    None => U256::zero(),
                };
                quotient = quotient.double_with(true);
            } else {
                remainder = remainder.double_with(top);
                quotient = quotient.double_with(false);
            }
            i = i - 1;
        }
        proof {
            vstd::arithmetic::power2::lemma2_to64();
            assert(weight == 1);
            assert(prefix * 1 == prefix) by (nonlinear_arith);
            lemma_fundamental_div_mod_converse(self@, divisor@, quotient@, remainder@);
        }
        (quotient, remainder)
    }

    /// The quotient, where the divisor is not zero.
    pub fn checked_div(self, divisor: Self) -> (r: Option<Self>)
        ensures
            divisor@ != 0 ==> r is Some && r->0@ == self@ / divisor@,
            divisor@ == 0 ==> r is None,
    {
        if divisor.is_zero() {
            None
        } else {
            Some(self.div_rem(divisor).0)
        }
    }

    /// Whether the value fits in 128 bits.
    pub fn fits_u128(&self) -> (r: bool)
        ensures
            r == (self@ <= u128::MAX),
    {
        self.hi == 0
    }
}

proof fn lemma_order_by_halves(a: U256, b: U256)
    ensures
        a@ < b@ <==> (a.hi < b.hi || (a.hi == b.hi && a.lo < b.lo)),
{
    if a.hi < b.hi {
        assert(a.hi as int * pow2_128() + pow2_128() <= b.hi as int * pow2_128())
            by (nonlinear_arith)
            requires
                a.hi as int + 1 <= b.hi as int,
        ;
    } else if a.hi > b.hi {
        assert(b.hi as int * pow2_128() + pow2_128() <= a.hi as int * pow2_128())
            by (nonlinear_arith)
            requires
                b.hi as int + 1 <= a.hi as int,
        ;
    }
}

/// Two to the power 255, as a mathematical integer.
pub open spec fn pow2_255() -> int {
    0x8000_0000_0000_0000_0000_0000_0000_0000int * pow2_128()
}

proof fn lemma_pow2_256()
    ensures
        pow2(256) == pow2_256(),
        pow2(128) == pow2_128(),
{
    lemma2_to64();
    lemma_pow2_adds(64, 64);
    lemma_pow2_adds(128, 128);
    assert(0x1_0000_0000_0000_0000int * 0x1_0000_0000_0000_0000int == pow2_128())
        by (nonlinear_arith);
}

/// One step of reading a dividend from its top bit down: the bits read so
/// far (`prefix`) take in the next bit, and what is left keeps its place.
proof fn lemma_long_division_step(
    pending: int,
    shifted: int,
    bit: int,
    rest: int,
    half_weight: int,
    prefix: int,
    whole: int,
)
    requires
        half_weight > 0,
        0 <= rest < 2 * half_weight,
        0 <= pending < pow2_256(),
        pending * (2 * half_weight) == rest * pow2_256(),
        whole == prefix * (2 * half_weight) + rest,
        bit == pending / pow2_255(),
        bit == 0 || bit == 1,
        shifted == 2 * (pending % pow2_255()),
    ensures
        whole == (2 * prefix + bit) * half_weight + (rest - bit * half_weight),
        0 <= rest - bit * half_weight < half_weight,
        shifted * half_weight == (rest - bit * half_weight) * pow2_256(),
{
    let h = pow2_255();
    assert(pow2_256() == 2 * h) by (nonlinear_arith)
        requires
            pow2_256() == pow2_128() * pow2_128(),
            h == 0x8000_0000_0000_0000_0000_0000_0000_0000int * pow2_128(),
    ;
    assert(h > 0);
    vstd::arithmetic::div_mod::lemma_fundamental_div_mod(pending, h);
    let low = pending % h;
    assert(pending == h * bit + low);
    assert(0 <= low < h) by {
        vstd::arithmetic::div_mod::lemma_mod_bound(pending, h);
    }
    assert(pending * half_weight == rest * h) by (nonlinear_arith)
        requires
            pending * (2 * half_weight) == rest * (2 * h),
    ;
    assert((h * bit + low) * half_weight == bit * (h * half_weight) + low * half_weight)
        by (nonlinear_arith);
    assert(rest * h == bit * (h * half_weight) + low * half_weight);
    assert((rest - bit * half_weight) * h == low * half_weight) by (nonlinear_arith)
        requires
            rest * h == bit * (h * half_weight) + low * half_weight,
    ;
    assert(0 <= rest - bit * half_weight < half_weight) by (nonlinear_arith)
        requires
            (rest - bit * half_weight) * h == low * half_weight,
            0 <= low < h,
            half_weight > 0,
            h > 0,
    ;
    assert((2 * low) * half_weight == (rest - bit * half_weight) * (2 * h)) by (nonlinear_arith)
        requires
            (rest - bit * half_weight) * h == low * half_weight,
    ;
    assert((2 * prefix + bit) * half_weight + (rest - bit * half_weight) == prefix * (2
        * half_weight) + rest) by (nonlinear_arith);
}

/// One step of long division on the bits read so far.
proof fn lemma_quotient_step(
    quotient: int,
    remainder: int,
    divisor: int,
    bit: int,
    prefix: int,
    half_weight: int,
    rest: int,
    whole: int,
)
    requires
        0 <= remainder < divisor,
        0 <= quotient,
        bit == 0 || bit == 1,
        prefix == 2 * (quotient * divisor + remainder) + bit,
        half_weight > 0,
        0 <= rest,
        whole == prefix * half_weight + rest,
        whole < pow2_256(),
    ensures
        prefix < pow2_256(),
        2 * remainder + bit >= divisor ==> prefix == (2 * quotient + 1) * divisor + (2 * remainder
            + bit - divisor) && 2 * quotient + 1 < pow2_256() && 0 <= 2 * remainder + bit - divisor
            < divisor,
        2 * remainder + bit < divisor ==> prefix == (2 * quotient) * divisor + (2 * remainder
            + bit) && 2 * quotient < pow2_256(),
{
    assert(prefix <= prefix * half_weight) by (nonlinear_arith)
        requires
            prefix >= 0,
            half_weight >= 1,
    ;
    assert((2 * quotient + 1) * divisor == 2 * (quotient * divisor) + divisor)
        by (nonlinear_arith);
    assert((2 * quotient) * divisor == 2 * (quotient * divisor)) by (nonlinear_arith);
    assert(2 * quotient <= (2 * quotient) * divisor) by (nonlinear_arith)
        requires
            quotient >= 0,
            divisor >= 1,
    ;
    assert(2 * quotient + 1 <= (2 * quotient + 1) * divisor) by (nonlinear_arith)
        requires
            quotient >= 0,
            divisor >= 1,
    ;
    assert(0 <= quotient * divisor) by (nonlinear_arith)
        requires
            quotient >= 0,
            divisor >= 1,
    ;
}

/// Two to the power 64, as a mathematical integer.
pub open spec fn pow2_64() -> int {
    0x1_0000_0000_0000_0000int
}

proof fn lemma_half_product_bound(x: int, y: int)
    by (nonlinear_arith)
    requires
        0 <= x < pow2_64(),
        0 <= y < pow2_64(),
    ensures
        0 <= x * y <= 0xffff_ffff_ffff_fffe_0000_0000_0000_0001int,
{
}

proof fn lemma_split_product(a: int, b: int, a1: int, a0: int, b1: int, b0: int, k: int)
    requires
        a == a1 * k + a0,
        b == b1 * k + b0,
    ensures
        a * b == (a1 * b1) * (k * k) + (a1 * b0) * k + (a0 * b1) * k + a0 * b0,
{
    assert((a1 * k + a0) * b == (a1 * k) * b + a0 * b) by (nonlinear_arith);
    assert((a1 * k) * (b1 * k + b0) == (a1 * k) * (b1 * k) + (a1 * k) * b0) by (nonlinear_arith);
    assert(a0 * (b1 * k + b0) == a0 * (b1 * k) + a0 * b0) by (nonlinear_arith);
    assert((a1 * k) * (b1 * k) == (a1 * b1) * (k * k)) by (nonlinear_arith);
    assert((a1 * k) * b0 == (a1 * b0) * k) by (nonlinear_arith);
    assert(a0 * (b1 * k) == (a0 * b1) * k) by (nonlinear_arith);
}

/// The full 256-bit product of two 128-bit values.
pub fn mul_u128(a: u128, b: u128) -> (r: U256)
    ensures
        r@ == a as int * b as int,
{
    let k: u128 = 0x1_0000_0000_0000_0000u128;
    let a1: u128 = a / k;
    let a0: u128 = a % k;
    let b1: u128 = b / k;
    let b0: u128 = b % k;
    proof {
        lemma_half_product_bound(a0 as int, b0 as int);
        lemma_half_product_bound(a0 as int, b1 as int);
        lemma_half_product_bound(a1 as int, b0 as int);
        lemma_half_product_bound(a1 as int, b1 as int);
        lemma_split_product(
            a as int,
            b as int,
            a1 as int,
            a0 as int,
            b1 as int,
            b0 as int,
            pow2_64(),
        );
    }
    let p00: u128 = a0 * b0;
    let p01: u128 = a0 * b1;
    let p10: u128 = a1 * b0;
    let p11: u128 = a1 * b1;
    let cross: u128 = p00 / k + p01 % k + p10 % k;
    let lo: u128 = p00 % k + (cross % k) * k;
    let hi: u128 = p11 + p01 / k + p10 / k + cross / k;
    assert(pow2_64() * pow2_64() == pow2_128()) by (nonlinear_arith);
    U256 { hi, lo }
}

} // verus!
