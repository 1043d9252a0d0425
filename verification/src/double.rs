//! Double-precision numbers, held as their IEEE 754 bit patterns.
//!
//! Every number that is not a NaN is an exact multiple of 2^-1074, so its model
//! is an integer: the value times 2^1074. Order, equality, truncation and
//! rounding are stated on that integer.

use vstd::arithmetic::div_mod::{
    lemma_div_multiples_vanish, lemma_div_multiples_vanish_quotient, lemma_div_nonincreasing,
    lemma_fundamental_div_mod, lemma_fundamental_div_mod_converse,
};
use vstd::arithmetic::power2::{
    lemma2_to64, lemma2_to64_rest, lemma_pow2_adds, lemma_pow2_pos, lemma_pow2_strictly_increases,
    lemma_pow2_unfold, pow2,
};
use vstd::prelude::*;

verus! {

/// One more than the largest fraction field: 2^52.
pub const IMPLICIT_BIT: u64 = 0x10_0000_0000_0000;

/// The weight of the sign bit: 2^63.
pub const SIGN_BIT: u64 = 0x8000_0000_0000_0000;

/// The magnitude field of an infinity. Larger magnitude fields are NaNs.
pub const INFINITE: u64 = 0x7ff0_0000_0000_0000;

/// The bit pattern of a quiet NaN.
pub const NOT_A_NUMBER: u64 = 0x7ff8_0000_0000_0000;

/// A double-precision number by its bit pattern.
#[derive(Debug, Clone, Copy)]
pub struct Double {
    pub bits: u64,
}

/// The magnitude that a magnitude field (the bits below the sign) encodes, times
/// 2^1074. An infinity counts as 2^1024, above every finite number.
pub open spec fn scaled_magnitude(field: int) -> int {
    let exponent = field / (IMPLICIT_BIT as int);
    let fraction = field % (IMPLICIT_BIT as int);
    if exponent == 0 {
        fraction
    } else {
        (fraction + IMPLICIT_BIT) * pow2((exponent - 1) as nat)
    }
}

/// The number of binary digits of `n`.
pub open spec fn bit_length(n: nat) -> nat
    decreases n,
{
    if n == 0 {
        0
    } else {
        1 + bit_length(n / 2)
    }
}

/// `n / unit` rounded to the nearest integer, a tie to the even neighbour.
pub open spec fn half_even(n: int, unit: int) -> int {
    let below = n / unit;
    let over = n % unit;
    if 2 * over < unit || (2 * over == unit && below % 2 == 0) {
        below
    } else {
        below + 1
    }
}

/// The magnitude field of the double nearest to `n`: 53 significant digits are
/// kept, and the exponent field counts the digits that were dropped.
pub open spec fn rounded_field(n: nat) -> int {
    let digits = bit_length(n);
    if n == 0 {
        0
    } else if digits <= 53 {
        (digits - 53 + 1074) * IMPLICIT_BIT + n * pow2((53 - digits) as nat)
    } else {
        (digits - 53 + 1074) * IMPLICIT_BIT + half_even(n as int, pow2((digits - 53) as nat) as int)
    }
}

impl Double {
    pub open spec fn is_negative(self) -> bool {
        self.bits >= SIGN_BIT
    }

    /// The bits below the sign.
    pub open spec fn field(self) -> int {
        if self.bits >= SIGN_BIT {
            self.bits - SIGN_BIT
        } else {
            self.bits as int
        }
    }

    pub open spec fn is_nan(self) -> bool {
        self.field() > INFINITE
    }

    /// The same number, every NaN as the quiet one.
    pub open spec fn settled(self) -> Double {
        if self.is_nan() {
            Double { bits: NOT_A_NUMBER }
        } else {
            self
        }
    }

    /// The value times 2^1074.
    pub open spec fn scaled(self) -> int {
        if self.is_negative() {
            -scaled_magnitude(self.field())
        } else {
            scaled_magnitude(self.field())
        }
    }

    /// `self < other`. A NaN is not comparable.
    pub open spec fn less(self, other: Double) -> bool {
        !self.is_nan() && !other.is_nan() && self.scaled() < other.scaled()
    }

    /// `self == other`. A NaN equals nothing, and the two zeros are equal.
    pub open spec fn equal(self, other: Double) -> bool {
        !self.is_nan() && !other.is_nan() && self.scaled() == other.scaled()
    }

    /// The value without its fraction, kept within 128 bits. A NaN gives 0.
    pub open spec fn truncated(self) -> int {
        let whole = scaled_magnitude(self.field()) / (pow2(1074) as int);
        if self.is_nan() {
            0
        } else if self.is_negative() {
            if -whole < i128::MIN {
                i128::MIN as int
            } else {
                -whole
            }
        } else if whole > i128::MAX {
            i128::MAX as int
        } else {
            whole
        }
    }

    /// The double nearest to an integer, a tie going to the even bit pattern.
    pub open spec fn nearest(n: int) -> Double {
        if n < 0 {
            Double { bits: (SIGN_BIT + rounded_field((-n) as nat)) as u64 }
        } else {
            Double { bits: rounded_field(n as nat) as u64 }
        }
    }
}

proof fn lemma_magnitude_step(field: int)
    requires
        0 <= field,
    ensures
        scaled_magnitude(field) < scaled_magnitude(field + 1),
{
    let unit = IMPLICIT_BIT as int;
    let exponent = field / unit;
    let fraction = field % unit;
    if fraction + 1 < unit {
        lemma_fundamental_div_mod_converse(field + 1, unit, exponent, fraction + 1);
        if exponent > 0 {
            let weight = pow2((exponent - 1) as nat) as int;
            lemma_pow2_pos((exponent - 1) as nat);
            assert((fraction + unit) * weight < (fraction + 1 + unit) * weight) by (nonlinear_arith)
                requires
                    weight > 0,
            ;
        }
    } else {
        lemma_fundamental_div_mod_converse(field + 1, unit, exponent + 1, 0);
        lemma_pow2_pos(exponent as nat);
        if exponent > 0 {
            let weight = pow2((exponent - 1) as nat) as int;
            lemma_pow2_pos((exponent - 1) as nat);
            lemma_pow2_unfold(exponent as nat);
            assert((fraction + unit) * weight < (0 + unit) * (2 * weight)) by (nonlinear_arith)
                requires
                    weight > 0,
                    fraction + 1 == unit,
            ;
        } else {
            lemma2_to64();
        }
    }
}

/// A larger magnitude field encodes a larger magnitude.
proof fn lemma_magnitude_increases(low: int, high: int)
    requires
        0 <= low < high,
    ensures
        scaled_magnitude(low) < scaled_magnitude(high),
    decreases high - low,
{
    lemma_magnitude_step(high - 1);
    if low < high - 1 {
        lemma_magnitude_increases(low, high - 1);
    }
}

/// 2^k, for as many digits as 128 bits hold.
pub(crate) fn power_of_two(k: u32) -> (power: u128)
    requires
        k < 128,
    ensures
        power == pow2(k as nat),
{
    let mut power: u128 = 1;
    let mut i: u32 = 0;
    proof {
        lemma2_to64();
        lemma2_to64_rest();
        lemma_pow2_adds(64, 63);
    }
    while i < k
        invariant
            i <= k < 128,
            power == pow2(i as nat),
            pow2(127) == 0x8000_0000_0000_0000_0000_0000_0000_0000,
        decreases k - i,
    {
        proof {
            lemma_pow2_unfold((i + 1) as nat);
            if i + 1 < 127 {
                lemma_pow2_strictly_increases((i + 1) as nat, 127);
            }
        }
        power = power * 2;
        i += 1;
    }
    power
}

proof fn lemma_magnitude_order(a: int, b: int)
    requires
        0 <= a,
        0 <= b,
    ensures
        scaled_magnitude(a) < scaled_magnitude(b) <==> a < b,
        scaled_magnitude(a) == scaled_magnitude(b) <==> a == b,
        scaled_magnitude(a) >= 0,
        scaled_magnitude(b) >= 0,
        scaled_magnitude(a) == 0 <==> a == 0,
        scaled_magnitude(b) == 0 <==> b == 0,
{
    assert(scaled_magnitude(0) == 0);
    if a < b {
        lemma_magnitude_increases(a, b);
    }
    if b < a {
        lemma_magnitude_increases(b, a);
    }
    if a > 0 {
        lemma_magnitude_increases(0, a);
    }
    if b > 0 {
        lemma_magnitude_increases(0, b);
    }
}

/// The whole part of a magnitude, by the size of its exponent field.
proof fn lemma_whole_part(field: int)
    requires
        0 <= field < SIGN_BIT,
    ensures
        ({
            let exponent = field / (IMPLICIT_BIT as int);
            let significand = field % (IMPLICIT_BIT as int) + IMPLICIT_BIT;
            let whole = scaled_magnitude(field) / (pow2(1074) as int);
            &&& exponent < 1023 ==> whole == 0
            &&& 1023 <= exponent < 1075 ==> whole == significand / (pow2(
                (1075 - exponent) as nat,
            ) as int)
            &&& 1075 <= exponent ==> whole == significand * pow2((exponent - 1075) as nat)
        }),
{
    let exponent = field / (IMPLICIT_BIT as int);
    let fraction = field % (IMPLICIT_BIT as int);
    let significand = fraction + IMPLICIT_BIT;
    let scale = pow2(1074) as int;
    lemma_pow2_pos(1074);
    lemma2_to64();
    lemma2_to64_rest();
    if exponent < 1023 {
        let weight = pow2(1021) as int;
        lemma_pow2_pos(1021);
        lemma_pow2_adds(1021, 53);
        if exponent == 0 {
            assert(fraction < weight * pow2(53)) by (nonlinear_arith)
                requires
                    fraction < pow2(53),
                    weight >= 1,
            ;
        } else {
            let small = pow2((exponent - 1) as nat) as int;
            lemma_pow2_pos((exponent - 1) as nat);
            if exponent - 1 < 1021 {
                lemma_pow2_strictly_increases((exponent - 1) as nat, 1021);
            }
            assert(0 <= significand * small < weight * pow2(53)) by (nonlinear_arith)
                requires
                    0 <= significand < pow2(53),
                    0 < small <= weight,
            ;
        }
        assert(0 <= scaled_magnitude(field) < scale);
        lemma_fundamental_div_mod_converse(
            scaled_magnitude(field),
            scale,
            0,
            scaled_magnitude(field),
        );
    } else if exponent < 1075 {
        let weight = pow2((exponent - 1) as nat) as int;
        let rest = pow2((1075 - exponent) as nat) as int;
        lemma_pow2_pos((exponent - 1) as nat);
        lemma_pow2_pos((1075 - exponent) as nat);
        lemma_pow2_adds((exponent - 1) as nat, (1075 - exponent) as nat);
        lemma_div_multiples_vanish_quotient(weight, significand, rest);
        assert(significand * weight == weight * significand) by (nonlinear_arith);
    } else {
        let rest = pow2((exponent - 1075) as nat) as int;
        lemma_pow2_adds(1074, (exponent - 1075) as nat);
        lemma_div_multiples_vanish(significand * rest, scale);
        assert(significand * (scale * rest) == scale * (significand * rest)) by (nonlinear_arith);
    }
}

/// A number with `digits` binary digits lies between two powers of two.
proof fn lemma_bit_length(n: nat)
    requires
        n > 0,
    ensures
        bit_length(n) > 0,
        pow2((bit_length(n) - 1) as nat) <= n < pow2(bit_length(n)),
    decreases n,
{
    lemma2_to64();
    if n >= 2 {
        lemma_bit_length(n / 2);
        lemma_pow2_unfold(bit_length(n / 2));
        lemma_pow2_unfold(bit_length(n));
    } else {
        assert(bit_length(0) == 0);
    }
}

proof fn lemma_bit_length_bound(n: nat, limit: nat)
    requires
        n < pow2(limit),
    ensures
        bit_length(n) <= limit,
{
    if n > 0 {
        lemma_bit_length(n);
        if bit_length(n) > limit {
            if limit < bit_length(n) - 1 {
                lemma_pow2_strictly_increases(limit, (bit_length(n) - 1) as nat);
            }
        }
    }
}

fn binary_digits(n: u128) -> (digits: u32)
    ensures
        digits == bit_length(n as nat),
        digits <= 128,
{
    let mut digits: u32 = 0;
    let mut rest: u128 = n;
    proof {
        lemma2_to64();
        lemma_pow2_adds(64, 64);
        lemma_bit_length_bound(n as nat, 128);
    }
    while rest > 0
        invariant
            digits + bit_length(rest as nat) == bit_length(n as nat),
            bit_length(n as nat) <= 128,
        decreases rest,
    {
        rest = rest / 2;
        digits += 1;
    }
    digits
}

/// The magnitude field of the double nearest to `n`.
fn round_magnitude(n: u128) -> (field: u64)
    ensures
        field == rounded_field(n as nat),
        field < INFINITE,
{
    if n == 0 {
        return 0;
    }
    let digits = binary_digits(n);
    proof {
        lemma_bit_length(n as nat);
        lemma2_to64();
        lemma2_to64_rest();
    }
    let significand: u128;
    if digits <= 53 {
        let power = power_of_two(53 - digits);
        proof {
            lemma_pow2_adds(digits as nat, (53 - digits) as nat);
            assert(n * power < pow2(digits as nat) * power) by (nonlinear_arith)
                requires
                    n < pow2(digits as nat),
                    power > 0,
            ;
            lemma_pow2_pos((53 - digits) as nat);
        }
        significand = n * power;
    } else {
        let unit = power_of_two(digits - 53);
        proof {
            lemma_pow2_adds(53, (digits - 53) as nat);
            lemma_pow2_pos((digits - 53) as nat);
            if digits - 53 < 75 {
                lemma_pow2_strictly_increases((digits - 53) as nat, 75);
            }
            lemma_pow2_adds(64, 11);
        }
        let below = n / unit;
        let over = n % unit;
        assert(below < pow2(53)) by (nonlinear_arith)
            requires
                below == n / unit,
                n < pow2(53) * unit,
                unit > 0,
        ;
        significand = if 2 * over < unit || (2 * over == unit && below % 2 == 0) {
            below
        } else {
            below + 1
        };
    }
    (digits as u64 + 1021) * IMPLICIT_BIT + significand as u64
}

impl Double {
    pub fn from_bits(bits: u64) -> (number: Double)
        ensures
            number.bits == bits,
    {
        Double { bits }
    }

    fn magnitude_field(self) -> (field: u64)
        ensures
            field == self.field(),
    {
        if self.bits >= SIGN_BIT {
            self.bits - SIGN_BIT
        } else {
            self.bits
        }
    }

    /// Whether this is no number at all.
    pub fn is_not_a_number(self) -> (nan: bool)
        ensures
            nan == self.is_nan(),
    {
        self.magnitude_field() > INFINITE
    }

    /// `self < other`, false where one of them is a NaN.
    pub fn is_less(self, other: Double) -> (less: bool)
        ensures
            less == self.less(other),
    {
        let a = self.magnitude_field();
        let b = other.magnitude_field();
        proof {
            lemma_magnitude_order(a as int, b as int);
        }
        if a > INFINITE || b > INFINITE {
            return false;
        }
        match (self.bits >= SIGN_BIT, other.bits >= SIGN_BIT) {
            (false, false) => a < b,
            (true, true) => b < a,
            (true, false) => a > 0 || b > 0,
            (false, true) => false,
        }
    }

    /// `self == other`, false where one of them is a NaN.
    pub fn is_equal(self, other: Double) -> (equal: bool)
        ensures
            equal == self.equal(other),
    {
        let a = self.magnitude_field();
        let b = other.magnitude_field();
        proof {
            lemma_magnitude_order(a as int, b as int);
        }
        if a > INFINITE || b > INFINITE {
            return false;
        }
        if (self.bits >= SIGN_BIT) == (other.bits >= SIGN_BIT) {
            a == b
        } else {
            a == 0 && b == 0
        }
    }

    /// The whole part, the nearest 128-bit integer where it has more digits,
    /// and 0 for a NaN.
    pub fn truncate(self) -> (whole: i128)
        ensures
            whole == self.truncated(),
    {
        let field = self.magnitude_field();
        if field > INFINITE {
            return 0;
        }
        let negative = self.bits >= SIGN_BIT;
        let exponent: u64 = field / IMPLICIT_BIT;
        let significand: u64 = field % IMPLICIT_BIT + IMPLICIT_BIT;
        proof {
            lemma_whole_part(field as int);
            lemma2_to64();
            lemma2_to64_rest();
            lemma_pow2_adds(64, 63);
        }
        if exponent < 1023 {
            return 0;
        }
        if exponent >= 1150 {
            proof {
                let rest = pow2((exponent - 1075) as nat) as int;
                lemma_pow2_adds(64, 11);
                if exponent > 1150 {
                    lemma_pow2_strictly_increases(75, (exponent - 1075) as nat);
                }
                assert(significand * rest >= IMPLICIT_BIT * pow2(75)) by (nonlinear_arith)
                    requires
                        significand >= IMPLICIT_BIT,
                        rest >= pow2(75),
                ;
                assert(IMPLICIT_BIT * pow2(75) == 0x8000_0000_0000_0000_0000_0000_0000_0000);
            }
            return if negative {
                i128::MIN
            } else {
                i128::MAX
            };
        }
        let whole: u128;
        if exponent < 1075 {
            let unit = power_of_two((1075 - exponent) as u32);
            proof {
                lemma_pow2_pos((1075 - exponent) as nat);
                lemma_div_nonincreasing(significand as int, unit as int);
            }
            whole = significand as u128 / unit;
        } else {
            let unit = power_of_two((exponent - 1075) as u32);
            proof {
                lemma_pow2_adds(64, 10);
                if exponent - 1075 < 74 {
                    lemma_pow2_strictly_increases((exponent - 1075) as nat, 74);
                }
                lemma_pow2_pos((exponent - 1075) as nat);
                assert(significand * unit <= (2 * IMPLICIT_BIT - 1) * pow2(74)) by (nonlinear_arith)
                    requires
                        significand <= 2 * IMPLICIT_BIT - 1,
                        0 < unit <= pow2(74),
                ;
                assert((2 * IMPLICIT_BIT - 1) * pow2(74)
                    < 0x8000_0000_0000_0000_0000_0000_0000_0000);
            }
            whole = significand as u128 * unit;
        }
        if negative {
            -(whole as i128)
        } else {
            whole as i128
        }
    }

    /// The double nearest to `n`, a tie going to the even bit pattern.
    pub fn from_integer(n: i128) -> (number: Double)
        ensures
            number == Double::nearest(n as int),
            !number.is_nan(),
    {
        if n < 0 {
            let field = round_magnitude((-(n + 1)) as u128 + 1);
            Double { bits: SIGN_BIT + field }
        } else {
            let field = round_magnitude(n as u128);
            Double { bits: field }
        }
    }
}

impl PartialEq for Double {
    fn eq(&self, other: &Double) -> (equal: bool) {
        self.is_equal(*other)
    }
}

impl vstd::std_specs::cmp::PartialEqSpecImpl for Double {
    open spec fn obeys_eq_spec() -> bool {
        true
    }

    open spec fn eq_spec(&self, other: &Double) -> bool {
        self.equal(*other)
    }
}

/// The magnitude of a field that is given by a significand and the weight of its last
/// digit.
proof fn lemma_magnitude_at(k: nat, significand: int)
    requires
        IMPLICIT_BIT <= significand <= 2 * IMPLICIT_BIT,
    ensures
        scaled_magnitude((k + 1074) * IMPLICIT_BIT + significand) == significand * pow2(k + 1074),
{
    let unit = IMPLICIT_BIT as int;
    let field = (k + 1074) * unit + significand;
    if significand < 2 * unit {
        lemma_fundamental_div_mod_converse(field, unit, (k + 1075) as int, significand - unit);
    } else {
        lemma_fundamental_div_mod_converse(field, unit, (k + 1076) as int, 0);
        lemma_pow2_unfold(k + 1075);
        let weight = pow2(k + 1074) as int;
        assert((0 + unit) * (2 * weight) == (2 * unit) * weight) by (nonlinear_arith);
    }
}

/// How far apart two numbers are.
pub open spec fn distance(a: int, b: int) -> int {
    if a < b {
        b - a
    } else {
        a - b
    }
}

proof fn lemma_rounded_is_closest(n: nat, field: int)
    requires
        0 <= field,
    ensures
        0 <= rounded_field(n),
        ({
            let exact = (n * pow2(1074)) as int;
            let rounded = scaled_magnitude(rounded_field(n));
            let other = scaled_magnitude(field);
            &&& distance(rounded, exact) <= distance(other, exact)
            &&& distance(rounded, exact) == distance(other, exact) && rounded != other
                ==> rounded_field(n) % 2 == 0
        }),
{
    let scale = pow2(1074) as int;
    let exact = n * scale;
    let chosen = rounded_field(n);
    let digits = bit_length(n);
    lemma_pow2_pos(1074);
    lemma2_to64();
    lemma2_to64_rest();
    if n > 0 {
        lemma_bit_length(n);
    }
    if n == 0 {
        assert(scaled_magnitude(0) == 0);
        lemma_magnitude_order(0, field);
    } else if digits <= 53 {
        let power = pow2((53 - digits) as nat) as int;
        let significand = n * power;
        lemma_pow2_pos((53 - digits) as nat);
        lemma_pow2_adds(digits, (53 - digits) as nat);
        lemma_pow2_adds((digits - 1) as nat, (53 - digits) as nat);
        assert(pow2((digits - 1) as nat) * power <= significand < pow2(digits) * power)
            by (nonlinear_arith)
            requires
                pow2((digits - 1) as nat) <= n < pow2(digits),
                power > 0,
                significand == n * power,
        ;
        let weight = pow2((digits + 1021) as nat) as int;
        let unit = IMPLICIT_BIT as int;
        assert(chosen == (digits + 1021) * unit + significand);
        lemma_fundamental_div_mod_converse(chosen, unit, (digits + 1022) as int, significand - unit);
        lemma_pow2_adds((53 - digits) as nat, (digits + 1021) as nat);
        assert((n * power) * weight == n * (power * weight)) by (nonlinear_arith);
        assert(scaled_magnitude(chosen) == exact);
    } else {
        let k = (digits - 53) as nat;
        let unit = pow2(k) as int;
        let weight = pow2(k + 1074) as int;
        let below = n as int / unit;
        let over = n as int % unit;
        let significand = half_even(n as int, unit);
        lemma_pow2_pos(k);
        lemma_pow2_adds(k, 1074);
        lemma_pow2_adds(53, k);
        lemma_pow2_adds(52, k);
        lemma_fundamental_div_mod(n as int, unit);
        assert(IMPLICIT_BIT <= below < 2 * IMPLICIT_BIT) by (nonlinear_arith)
            requires
                n == unit * below + over,
                0 <= over < unit,
                IMPLICIT_BIT * unit <= n < 2 * IMPLICIT_BIT * unit,
        ;
        assert(exact == below * weight + over * scale) by (nonlinear_arith)
            requires
                n == unit * below + over,
                weight == unit * scale,
                exact == n * scale,
        ;
        assert((below + 1) * weight == below * weight + weight) by (nonlinear_arith);
        assert(0 <= over * scale < weight) by (nonlinear_arith)
            requires
                0 <= over < unit,
                scale > 0,
                weight == unit * scale,
        ;
        if 2 * over <= unit {
            assert(2 * (over * scale) <= weight) by (nonlinear_arith)
                requires
                    2 * over <= unit,
                    scale > 0,
                    weight == unit * scale,
            ;
        }
        if 2 * over >= unit {
            assert(2 * (over * scale) >= weight) by (nonlinear_arith)
                requires
                    2 * over >= unit,
                    scale > 0,
                    weight == unit * scale,
            ;
        }
        if 2 * over < unit {
            assert(2 * (over * scale) < weight) by (nonlinear_arith)
                requires
                    2 * over < unit,
                    scale > 0,
                    weight == unit * scale,
            ;
        }
        if 2 * over > unit {
            assert(2 * (over * scale) > weight) by (nonlinear_arith)
                requires
                    2 * over > unit,
                    scale > 0,
                    weight == unit * scale,
            ;
        }
        assert(chosen == (k + 1074) * IMPLICIT_BIT + significand);
        lemma_magnitude_at(k, below);
        lemma_magnitude_at(k, below + 1);
        let low = (k + 1074) * IMPLICIT_BIT + below;
        if field < low {
            lemma_magnitude_increases(field, low);
        }
        if field > low + 1 {
            lemma_magnitude_increases(low + 1, field);
        }
        assert(chosen % 2 == significand % 2);
    }
}

impl Double {
    /// No other double is closer to an integer than the one that it is rounded to,
    /// and where another is as close, the chosen bit pattern is the even one.
    pub proof fn nearest_is_closest(n: int, other: Double)
        requires
            i128::MIN <= n <= i128::MAX,
            !other.is_nan(),
        ensures
            ({
                let exact = n * pow2(1074);
                let chosen = Double::nearest(n);
                &&& distance(chosen.scaled(), exact) <= distance(other.scaled(), exact)
                &&& distance(chosen.scaled(), exact) == distance(other.scaled(), exact)
                    && chosen.scaled() != other.scaled() ==> chosen.bits % 2 == 0
            }),
    {
        let magnitude = (if n < 0 {
            -n
        } else {
            n
        }) as nat;
        let scale = pow2(1074) as int;
        lemma_pow2_pos(1074);
        assert(magnitude * scale == (if n < 0 {
            -(n * scale)
        } else {
            n * scale
        })) by (nonlinear_arith)
            requires
                magnitude == (if n < 0 {
                    -n
                } else {
                    n
                }),
        ;
        assert(magnitude * scale >= 0) by (nonlinear_arith)
            requires
                scale > 0,
                magnitude >= 0,
        ;
        lemma2_to64();
        lemma_pow2_adds(64, 64);
        lemma_rounded_range(magnitude);
        lemma_rounded_is_closest(magnitude, other.field());
        lemma_rounded_is_closest(magnitude, 0);
        lemma_magnitude_order(0, other.field());
        lemma_magnitude_order(0, rounded_field(magnitude));
    }
}

/// The magnitude of every 128-bit integer rounds to a finite double.
pub(crate) proof fn lemma_rounded_in_range(n: nat)
    requires
        n <= 0x8000_0000_0000_0000_0000_0000_0000_0000,
    ensures
        0 <= rounded_field(n) < INFINITE,
{
    lemma2_to64();
    lemma_pow2_adds(64, 64);
    lemma_rounded_range(n);
}

/// A rounded 128-bit integer is finite.
proof fn lemma_rounded_range(n: nat)
    requires
        n < pow2(128),
    ensures
        0 <= rounded_field(n) < INFINITE,
{
    let digits = bit_length(n);
    lemma2_to64();
    lemma2_to64_rest();
    lemma_bit_length_bound(n, 128);
    if n > 0 {
        lemma_bit_length(n);
        if digits <= 53 {
            let power = pow2((53 - digits) as nat) as int;
            lemma_pow2_pos((53 - digits) as nat);
            lemma_pow2_adds(digits, (53 - digits) as nat);
            assert(0 <= n * power < pow2(digits) * power) by (nonlinear_arith)
                requires
                    0 <= n < pow2(digits),
                    power > 0,
            ;
        } else {
            let unit = pow2((digits - 53) as nat) as int;
            lemma_pow2_pos((digits - 53) as nat);
            lemma_pow2_adds(53, (digits - 53) as nat);
            let below = n as int / unit;
            assert(0 <= below < pow2(53)) by (nonlinear_arith)
                requires
                    below == n as int / unit,
                    0 <= n < pow2(53) * unit,
                    unit > 0,
            ;
        }
    }
}

} // verus!
