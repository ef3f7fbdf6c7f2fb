//! Numbers: small integers, big integers and floats, and their exact order.
//!
//! A float is held by the 64 bits of its binary64 form and is always finite.
//! Every number has a scaled value, the integer `value * 2^1074`; numbers
//! are ordered by it, so that an integer and a float compare exactly.

use vstd::prelude::*;
use vstd::arithmetic::power2::{lemma2_to64, lemma2_to64_rest, lemma_pow2_adds, lemma_pow2_pos,
    lemma_pow2_strictly_increases, pow2};
use crate::order::{int_order, Order};

verus! {

/// The least small integer, `-2^59`.
pub const SMALL_INTEGER_MIN: i64 = -0x0800_0000_0000_0000;

/// The greatest small integer, `2^59 - 1`.
pub const SMALL_INTEGER_MAX: i64 = 0x07ff_ffff_ffff_ffff;

/// Whether `value` fits the bits that a tagged word leaves to an integer.
pub open spec fn is_small(value: int) -> bool {
    SMALL_INTEGER_MIN <= value <= SMALL_INTEGER_MAX
}

/// An integer that fits in a tagged word.
#[derive(Clone, Copy, Debug, PartialEq, Eq)]
pub struct SmallInteger {
    value: i64,
}

impl View for SmallInteger {
    type V = int;

    closed spec fn view(&self) -> int {
        self.value as int
    }
}

impl SmallInteger {
    /// The least small integer.
    pub const MIN_VALUE: i64 = SMALL_INTEGER_MIN;

    /// The greatest small integer.
    pub const MAX_VALUE: i64 = SMALL_INTEGER_MAX;

    /// Whether the value is in the range of small integers.
    pub open spec fn wf(&self) -> bool {
        is_small(self@)
    }

    /// The small integer `value`, if it is in range.
    pub fn new(value: i64) -> (small: Option<SmallInteger>)
        ensures
            small is Some <==> is_small(value as int),
            small matches Some(s) ==> s@ == value && s.wf(),
    {
        if SMALL_INTEGER_MIN <= value && value <= SMALL_INTEGER_MAX {
            Some(SmallInteger { value })
        } else {
            None
        }
    }

    /// The value.
    pub fn value(&self) -> (value: i64)
        ensures
            value == self@,
    {
        self.value
    }

    /// Whether the value is in the range of small integers.
    pub fn is_valid(&self) -> (valid: bool)
        ensures
            valid == self.wf(),
    {
        SMALL_INTEGER_MIN <= self.value && self.value <= SMALL_INTEGER_MAX
    }
}

/// The value of a sign and a magnitude.
pub open spec fn signed_value(negative: bool, magnitude: int) -> int {
    if negative {
        -magnitude
    } else {
        magnitude
    }
}

/// An integer outside the range of small integers, as sign and magnitude.
/// The magnitude is below `2^128`.
#[derive(Clone, Copy, Debug, PartialEq, Eq)]
pub struct BigInteger {
    negative: bool,
    magnitude: u128,
}

impl View for BigInteger {
    type V = int;

    closed spec fn view(&self) -> int {
        signed_value(self.negative, self.magnitude as int)
    }
}

impl BigInteger {
    /// Whether the value is outside the range of small integers.
    pub open spec fn wf(&self) -> bool {
        !is_small(self@) && -u128::MAX <= self@ <= u128::MAX
    }

    /// Whether the value is outside the range of small integers.
    pub fn is_valid(&self) -> (valid: bool)
        ensures
            valid == self.wf(),
    {
        if self.negative {
            self.magnitude > 0x0800_0000_0000_0000
        } else {
            self.magnitude > 0x07ff_ffff_ffff_ffff
        }
    }

    /// Whether the value is below zero.
    pub fn is_negative(&self) -> (negative: bool)
        requires
            self.wf(),
        ensures
            negative == (self@ < 0),
    {
        self.negative
    }

    /// The absolute value.
    pub fn magnitude(&self) -> (magnitude: u128)
        requires
            self.wf(),
        ensures
            magnitude == (if self@ < 0 {
                -self@
            } else {
                self@
            }),
    {
        self.magnitude
    }
}

/// The absolute value of `value`.
fn magnitude_of(value: i64) -> (magnitude: u128)
    ensures
        magnitude == (if value < 0 {
            -(value as int)
        } else {
            value as int
        }),
{
    if value >= 0 {
        value as u128
    } else {
        (-(value as i128)) as u128
    }
}

/// An integer of either size.
#[derive(Clone, Copy, Debug, PartialEq, Eq)]
pub enum Integer {
    Small(SmallInteger),
    Big(BigInteger),
}

impl View for Integer {
    type V = int;

    open spec fn view(&self) -> int {
        match self {
            Integer::Small(s) => s@,
            Integer::Big(b) => b@,
        }
    }
}

/// The remainder of a division that truncates toward zero: it has the sign
/// of the dividend.
pub open spec fn rem_spec(dividend: int, divisor: int) -> int {
    let d = if divisor < 0 {
        -divisor
    } else {
        divisor
    };
    if dividend >= 0 {
        dividend % d
    } else {
        -((-dividend) % d)
    }
}

impl Integer {
    /// Whether the integer is held in the form its value calls for.
    pub open spec fn wf(&self) -> bool {
        match self {
            Integer::Small(s) => s.wf(),
            Integer::Big(b) => b.wf(),
        }
    }

    /// The integer with the given sign and magnitude.
    pub fn from_sign_magnitude(negative: bool, magnitude: u128) -> (integer: Integer)
        ensures
            integer.wf(),
            integer@ == signed_value(negative, magnitude as int),
    {
        if negative {
            if magnitude <= 0x0800_0000_0000_0000 {
                let value: i64 = if magnitude == 0x0800_0000_0000_0000 {
                    SMALL_INTEGER_MIN
                } else {
                    -(magnitude as i64)
                };
                Integer::Small(SmallInteger { value })
            } else {
                Integer::Big(BigInteger { negative: true, magnitude })
            }
        } else if magnitude <= 0x07ff_ffff_ffff_ffff {
            Integer::Small(SmallInteger { value: magnitude as i64 })
        } else {
            Integer::Big(BigInteger { negative: false, magnitude })
        }
    }

    /// The integer `value`.
    pub fn from_i64(value: i64) -> (integer: Integer)
        ensures
            integer.wf(),
            integer@ == value,
    {
        if value < 0 {
            Integer::from_sign_magnitude(true, magnitude_of(value))
        } else {
            Integer::from_sign_magnitude(false, value as u128)
        }
    }

    /// Whether the value is below zero.
    pub fn is_negative(&self) -> (negative: bool)
        requires
            self.wf(),
        ensures
            negative == (self@ < 0),
    {
        match self {
            Integer::Small(s) => s.value < 0,
            Integer::Big(b) => b.negative,
        }
    }

    /// The absolute value.
    pub fn magnitude(&self) -> (magnitude: u128)
        requires
            self.wf(),
        ensures
            magnitude == (if self@ < 0 {
                -self@
            } else {
                self@
            }),
    {
        match self {
            Integer::Small(s) => magnitude_of(s.value),
            Integer::Big(b) => b.magnitude,
        }
    }

    /// Whether the value is zero.
    pub fn is_zero(&self) -> (zero: bool)
        requires
            self.wf(),
        ensures
            zero == (self@ == 0),
    {
        self.magnitude() == 0
    }

    /// The integer of opposite sign.
    pub fn negate(&self) -> (negated: Integer)
        requires
            self.wf(),
        ensures
            negated.wf(),
            negated@ == -self@,
    {
        Integer::from_sign_magnitude(!self.is_negative(), self.magnitude())
    }

    /// The remainder of dividing by `divisor`, with the sign of the dividend.
    pub fn rem(&self, divisor: &Integer) -> (remainder: Integer)
        requires
            self.wf(),
            divisor.wf(),
            divisor@ != 0,
        ensures
            remainder.wf(),
            remainder@ == rem_spec(self@, divisor@),
    {
        let magnitude = self.magnitude() % divisor.magnitude();
        Integer::from_sign_magnitude(self.is_negative(), magnitude)
    }

    /// The order of two integers.
    pub fn compare(&self, other: &Integer) -> (order: Order)
        requires
            self.wf(),
            other.wf(),
        ensures
            order == int_order(self@, other@),
    {
        let a = self.magnitude();
        let b = other.magnitude();
        match (self.is_negative(), other.is_negative()) {
            (false, false) => crate::order::compare_unsigned(a, b),
            (true, true) => crate::order::compare_unsigned(b, a),
            (true, false) => Order::Less,
            (false, true) => Order::Greater,
        }
    }
}

/// The exponent field of a binary64.
pub open spec fn float_exponent(bits: u64) -> int {
    (bits as int / 0x10_0000_0000_0000) % 0x800
}

/// The fraction field of a binary64.
pub open spec fn float_fraction(bits: u64) -> int {
    bits as int % 0x10_0000_0000_0000
}

/// Whether the sign bit of a binary64 is set.
pub open spec fn float_negative(bits: u64) -> bool {
    bits >= 0x8000_0000_0000_0000
}

/// Whether a binary64 is a number and not an infinity.
pub open spec fn float_finite(bits: u64) -> bool {
    float_exponent(bits) != 0x7ff
}

/// The significand of a finite binary64, with its hidden bit.
pub open spec fn float_mantissa(bits: u64) -> int {
    if float_exponent(bits) == 0 {
        float_fraction(bits)
    } else {
        float_fraction(bits) + 0x10_0000_0000_0000
    }
}

/// The power of two by which the significand is to be multiplied to give the
/// scaled value.
pub open spec fn float_shift(bits: u64) -> nat {
    if float_exponent(bits) == 0 {
        0
    } else {
        (float_exponent(bits) - 1) as nat
    }
}

/// The value of a finite binary64, times `2^1074`.
pub open spec fn float_scaled(bits: u64) -> int {
    signed_value(float_negative(bits), float_mantissa(bits) * pow2(float_shift(bits)))
}

/// The value of an integer, times `2^1074`.
pub open spec fn integer_scaled(value: int) -> int {
    value * pow2(1074)
}

/// The integer that a float holds, where it holds one whose magnitude is
/// below `2^128`.
pub open spec fn float_integral(bits: u64) -> Option<int> {
    let scaled = float_scaled(bits);
    let unit = pow2(1074) as int;
    if scaled % unit == 0 && -u128::MAX <= scaled / unit <= u128::MAX {
        Some(scaled / unit)
    } else {
        None
    }
}

/// A finite float, held by its bits. Zero has no sign.
#[derive(Clone, Copy, Debug, PartialEq, Eq)]
pub struct Float {
    bits: u64,
}

impl View for Float {
    type V = u64;

    /// The bits of the binary64 form.
    closed spec fn view(&self) -> u64 {
        self.bits
    }
}

/// A float taken apart: sign, significand and shift.
struct Parts {
    negative: bool,
    mantissa: u64,
    shift: u32,
}

impl Float {
    /// Whether the bits are those of a finite number other than negative
    /// zero.
    pub open spec fn wf(&self) -> bool {
        float_finite(self@) && self@ != 0x8000_0000_0000_0000
    }

    /// The float with the given bits, unless they are those of an infinity
    /// or of no number. Negative zero is taken as zero.
    pub fn from_bits(bits: u64) -> (float: Option<Float>)
        ensures
            float is Some <==> float_finite(bits),
            float matches Some(f) ==> f.wf() && f@ == (if bits == 0x8000_0000_0000_0000 {
                0
            } else {
                bits
            }),
    {
        if (bits / 0x10_0000_0000_0000) % 0x800 == 0x7ff {
            None
        } else if bits == 0x8000_0000_0000_0000 {
            Some(Float { bits: 0 })
        } else {
            Some(Float { bits })
        }
    }

    /// The bits of the binary64 form.
    pub fn to_bits(&self) -> (bits: u64)
        ensures
            bits == self@,
    {
        self.bits
    }

    /// Whether the bits are those of a finite number other than negative
    /// zero.
    pub fn is_valid(&self) -> (valid: bool)
        ensures
            valid == self.wf(),
    {
        (self.bits / 0x10_0000_0000_0000) % 0x800 != 0x7ff && self.bits != 0x8000_0000_0000_0000
    }

    /// Whether the float is zero.
    pub fn is_zero(&self) -> (zero: bool)
        requires
            self.wf(),
        ensures
            zero == (self@ == 0),
            zero == (float_scaled(self@) == 0),
    {
        proof {
            lemma_pow2_pos(float_shift(self.bits));
            lemma_scaled_zero(self.bits);
        }
        self.bits == 0
    }

    /// The float of opposite sign.
    pub fn negate(&self) -> (negated: Float)
        requires
            self.wf(),
        ensures
            negated.wf(),
            float_scaled(negated@) == -float_scaled(self@),
    {
        let bits = self.bits;
        if bits == 0 {
            proof {
                lemma_scaled_zero(0);
            }
            Float { bits: 0 }
        } else if bits >= 0x8000_0000_0000_0000 {
            let flipped: u64 = bits - 0x8000_0000_0000_0000;
            proof {
                assert(flipped as int / 0x10_0000_0000_0000 == bits as int / 0x10_0000_0000_0000
                    - 0x800);
                assert(float_exponent(flipped) == float_exponent(bits));
                assert(float_fraction(flipped) == float_fraction(bits));
            }
            Float { bits: flipped }
        } else {
            let flipped: u64 = bits + 0x8000_0000_0000_0000;
            proof {
                assert(flipped as int / 0x10_0000_0000_0000 == bits as int / 0x10_0000_0000_0000
                    + 0x800);
                assert(float_exponent(flipped) == float_exponent(bits));
                assert(float_fraction(flipped) == float_fraction(bits));
            }
            Float { bits: flipped }
        }
    }

    fn parts(&self) -> (parts: Parts)
        requires
            self.wf(),
        ensures
            parts.negative == float_negative(self@),
            parts.mantissa == float_mantissa(self@),
            parts.shift == float_shift(self@),
            parts.mantissa < 0x20_0000_0000_0000,
            parts.shift <= 2045,
            parts.shift >= 1 ==> parts.mantissa >= 0x10_0000_0000_0000,
    {
        let exponent = (self.bits / 0x10_0000_0000_0000) % 0x800;
        let fraction = self.bits % 0x10_0000_0000_0000;
        let negative = self.bits >= 0x8000_0000_0000_0000;
        if exponent == 0 {
            Parts { negative, mantissa: fraction, shift: 0 }
        } else {
            Parts {
                negative,
                mantissa: fraction + 0x10_0000_0000_0000,
                shift: (exponent - 1) as u32,
            }
        }
    }

    /// The integer that the float holds, where it holds one whose magnitude
    /// is below `2^128`.
    pub fn to_integer(&self) -> (integer: Option<Integer>)
        requires
            self.wf(),
        ensures
            integer matches Some(i) ==> i.wf() && float_integral(self@) == Some(i@),
            integer is None ==> float_integral(self@) is None,
    {
        let parts = self.parts();
        let ghost unit = pow2(1074) as int;
        let ghost own = pow2(parts.shift as nat) as int;
        proof {
            lemma_pow2_edges();
            lemma_pow2_pos(1074);
            lemma_pow2_pos(parts.shift as nat);
        }
        if parts.mantissa == 0 {
            proof {
                lemma_scaled_zero(self@);
                lemma_quotient_of_scaled(parts.negative, 0, unit, 0, 0);
            }
            return Some(Integer::from_sign_magnitude(false, 0));
        }
        if parts.shift >= 1074 {
            let k = parts.shift - 1074;
            let ghost pk = pow2(k as nat) as int;
            proof {
                lemma_pow2_adds(k as nat, 1074);
                lemma_pow2_pos(k as nat);
                assert(parts.mantissa * own == (parts.mantissa * pk) * unit + 0)
                    by (nonlinear_arith)
                    requires
                        own == pk * unit,
                ;
                lemma_quotient_of_scaled(
                    parts.negative,
                    parts.mantissa * own,
                    unit,
                    parts.mantissa * pk,
                    0,
                );
            }
            if k > 75 {
                proof {
                    if k > 76 {
                        lemma_pow2_strictly_increases(76, k as nat);
                    }
                    assert(parts.mantissa * pk >= 0x1_0000_0000_0000_0000_0000_0000_0000_0000)
                        by (nonlinear_arith)
                        requires
                            parts.mantissa >= 0x10_0000_0000_0000,
                            pk >= 0x1000_0000_0000_0000_0000,
                    ;
                }
                None
            } else {
                let power = pow2_exec(k);
                assert(parts.mantissa * power < 0x1_0000_0000_0000_0000_0000_0000_0000_0000)
                    by (nonlinear_arith)
                    requires
                        parts.mantissa < 0x20_0000_0000_0000,
                        power <= 0x800_0000_0000_0000_0000,
                ;
                Some(Integer::from_sign_magnitude(parts.negative, parts.mantissa as u128 * power))
            }
        } else {
            let k = 1074 - parts.shift;
            let ghost pk = pow2(k as nat) as int;
            proof {
                lemma_pow2_adds(k as nat, parts.shift as nat);
                lemma_pow2_pos(k as nat);
            }
            if k >= 53 {
                proof {
                    if k > 53 {
                        lemma_pow2_strictly_increases(53, k as nat);
                    }
                    let rest = parts.mantissa * own;
                    assert(0 < rest < unit && rest == 0 * unit + rest) by (nonlinear_arith)
                        requires
                            rest == parts.mantissa * own,
                            0 < parts.mantissa < pk,
                            0 < own,
                            unit == pk * own,
                    ;
                    lemma_quotient_of_scaled(parts.negative, rest, unit, 0, rest);
                }
                None
            } else {
                let power = pow2_exec(k);
                let quotient = parts.mantissa as u128 / power;
                let remainder = parts.mantissa as u128 % power;
                proof {
                    let rest = remainder * own;
                    vstd::arithmetic::div_mod::lemma_fundamental_div_mod(
                        parts.mantissa as int,
                        power as int,
                    );
                    assert(parts.mantissa * own == quotient * unit + rest && 0 <= rest < unit && (
                    rest == 0 <==> remainder == 0)) by (nonlinear_arith)
                        requires
                            rest == remainder * own,
                            parts.mantissa == power * quotient + remainder,
                            0 <= remainder < power,
                            0 < own,
                            unit == power * own,
                    ;
                    lemma_quotient_of_scaled(
                        parts.negative,
                        parts.mantissa * own,
                        unit,
                        quotient as int,
                        rest,
                    );
                }
                if remainder == 0 {
                    Some(Integer::from_sign_magnitude(parts.negative, quotient))
                } else {
                    None
                }
            }
        }
    }

    /// The order of two floats.
    pub fn compare(&self, other: &Float) -> (order: Order)
        requires
            self.wf(),
            other.wf(),
        ensures
            order == int_order(float_scaled(self@), float_scaled(other@)),
    {
        let a = self.parts();
        let b = other.parts();
        proof {
            lemma_pow2_pos(a.shift as nat);
            lemma_pow2_pos(b.shift as nat);
            lemma_product_sign(a.mantissa as int, pow2(a.shift as nat) as int);
            lemma_product_sign(b.mantissa as int, pow2(b.shift as nat) as int);
        }
        match (a.negative, b.negative) {
            (false, false) => compare_float_magnitudes(a.mantissa, a.shift, b.mantissa, b.shift),
            (true, true) => compare_float_magnitudes(b.mantissa, b.shift, a.mantissa, a.shift),
            (true, false) => {
                proof {
                    lemma_scaled_zero(self@);
                }
                Order::Less
            },
            (false, true) => {
                proof {
                    lemma_scaled_zero(other@);
                }
                Order::Greater
            },
        }
    }

    /// The order of a float and an integer.
    pub fn compare_integer(&self, other: &Integer) -> (order: Order)
        requires
            self.wf(),
            other.wf(),
        ensures
            order == int_order(float_scaled(self@), integer_scaled(other@)),
    {
        let a = self.parts();
        let magnitude = other.magnitude();
        let negative = other.is_negative();
        proof {
            lemma_pow2_pos(a.shift as nat);
            lemma_pow2_pos(1074);
            lemma_product_sign(a.mantissa as int, pow2(a.shift as nat) as int);
            lemma_product_sign(magnitude as int, pow2(1074) as int);
            lemma_scaled_zero(self@);
            assert(other@ * pow2(1074) == signed_value(negative, magnitude * pow2(1074)))
                by (nonlinear_arith)
                requires
                    other@ == signed_value(negative, magnitude as int),
            ;
        }
        match (a.negative, negative) {
            (false, false) => compare_integer_float_magnitudes(
                magnitude,
                a.mantissa,
                a.shift,
            ).reverse(),
            (true, true) => compare_integer_float_magnitudes(magnitude, a.mantissa, a.shift),
            (true, false) => Order::Less,
            (false, true) => Order::Greater,
        }
    }
}

/// A float whose sign bit is set is below zero, for negative zero is no
/// float; and only the bits of zero have the scaled value zero.
pub proof fn lemma_scaled_zero(bits: u64)
    requires
        float_finite(bits),
        bits != 0x8000_0000_0000_0000,
    ensures
        float_negative(bits) ==> float_scaled(bits) < 0,
        !float_negative(bits) ==> float_scaled(bits) >= 0,
        float_scaled(bits) == 0 <==> bits == 0,
{
    let p = pow2(float_shift(bits)) as int;
    let m = float_mantissa(bits);
    lemma_pow2_pos(float_shift(bits));
    lemma_product_sign(m, p);
    assert(m == 0 <==> (bits == 0 || bits == 0x8000_0000_0000_0000)) by {
        if m == 0 {
            assert(float_exponent(bits) == 0);
            assert(bits as int / 0x10_0000_0000_0000 == 0 || bits as int / 0x10_0000_0000_0000
                == 0x800);
        }
    }
}

/// Where a magnitude is `quotient` units and a rest below a unit, the signed
/// value is a whole number of units exactly where the rest is nothing, and
/// then it is `quotient` units with the sign.
pub proof fn lemma_quotient_of_scaled(
    negative: bool,
    magnitude: int,
    unit: int,
    quotient: int,
    rest: int,
)
    requires
        0 < unit,
        0 <= rest < unit,
        magnitude == quotient * unit + rest,
    ensures
        (signed_value(negative, magnitude) % unit == 0) == (rest == 0),
        rest == 0 ==> signed_value(negative, magnitude) / unit == signed_value(negative, quotient),
{
    if !negative {
        vstd::arithmetic::div_mod::lemma_fundamental_div_mod_converse(
            magnitude,
            unit,
            quotient,
            rest,
        );
    } else if rest == 0 {
        assert(-magnitude == (-quotient) * unit + 0) by (nonlinear_arith)
            requires
                magnitude == quotient * unit,
        ;
        vstd::arithmetic::div_mod::lemma_fundamental_div_mod_converse(
            -magnitude,
            unit,
            -quotient,
            0,
        );
    } else {
        assert(-magnitude == (-quotient - 1) * unit + (unit - rest)) by (nonlinear_arith)
            requires
                magnitude == quotient * unit + rest,
        ;
        vstd::arithmetic::div_mod::lemma_fundamental_div_mod_converse(
            -magnitude,
            unit,
            -quotient - 1,
            unit - rest,
        );
    }
}

/// Floats of the same value have the same bits.
pub proof fn lemma_float_scaled_injective(a: u64, b: u64)
    requires
        float_finite(a),
        float_finite(b),
        a != 0x8000_0000_0000_0000,
        b != 0x8000_0000_0000_0000,
        float_scaled(a) == float_scaled(b),
    ensures
        a == b,
{
    lemma_scaled_zero(a);
    lemma_scaled_zero(b);
    if float_scaled(a) != 0 {
        let ma = float_mantissa(a);
        let mb = float_mantissa(b);
        let sa = float_shift(a);
        let sb = float_shift(b);
        lemma_pow2_pos(sa);
        lemma_pow2_pos(sb);
        assert(ma * pow2(sa) == mb * pow2(sb));
        if sa < sb {
            lemma_higher_shift_wins(ma, sa, mb, sb);
        } else if sb < sa {
            lemma_higher_shift_wins(mb, sb, ma, sa);
        }
        assert(ma == mb) by (nonlinear_arith)
            requires
                ma * pow2(sa) == mb * pow2(sa),
                pow2(sa) > 0,
        ;
        lemma_float_fields(a);
        lemma_float_fields(b);
    }
}

/// The bits of a binary64 are its sign above its exponent above its
/// fraction.
pub proof fn lemma_float_fields(bits: u64)
    ensures
        bits == (if float_negative(bits) {
            0x8000_0000_0000_0000int
        } else {
            0int
        }) + float_exponent(bits) * 0x10_0000_0000_0000 + float_fraction(bits),
        0 <= float_fraction(bits) < 0x10_0000_0000_0000,
        0 <= float_exponent(bits) < 0x800,
{
    let top = bits as int / 0x10_0000_0000_0000;
    assert(bits == top * 0x10_0000_0000_0000 + float_fraction(bits));
    assert(top == (top / 0x800) * 0x800 + top % 0x800);
    assert(0 <= top < 0x1000);
    assert(top / 0x800 == 0 || top / 0x800 == 1);
}

/// A product with a positive factor has the sign of the other factor.
pub proof fn lemma_product_sign(m: int, p: int)
    by (nonlinear_arith)
    requires
        0 <= m,
        0 < p,
    ensures
        0 <= m * p,
        m * p == 0 <==> m == 0,
{
}

/// Multiplying both sides by a positive factor keeps the order.
pub proof fn lemma_scale_keeps_order(x: int, y: int, c: int)
    by (nonlinear_arith)
    requires
        0 < c,
    ensures
        int_order(x * c, y * c) == int_order(x, y),
{
}

/// The powers of two at the edges of the number formats.
pub proof fn lemma_pow2_edges()
    ensures
        pow2(52) == 0x10_0000_0000_0000,
        pow2(53) == 0x20_0000_0000_0000,
        pow2(75) == 0x800_0000_0000_0000_0000,
        pow2(76) == 0x1000_0000_0000_0000_0000,
{
    lemma2_to64();
    lemma2_to64_rest();
    lemma_pow2_adds(64, 11);
    lemma_pow2_adds(64, 12);
}

/// `2^exponent`, for exponents up to 75.
fn pow2_exec(exponent: u32) -> (power: u128)
    requires
        exponent <= 75,
    ensures
        power == pow2(exponent as nat),
        1 <= power <= 0x800_0000_0000_0000_0000,
{
    let mut power: u128 = 1;
    let mut i: u32 = 0;
    proof {
        lemma2_to64();
        lemma_pow2_edges();
    }
    while i < exponent
        invariant
            i <= exponent <= 75,
            power == pow2(i as nat),
            pow2(75) == 0x800_0000_0000_0000_0000,
        decreases exponent - i,
    {
        proof {
            vstd::arithmetic::power2::lemma_pow2_unfold((i + 1) as nat);
            if i + 1 < 75 {
                lemma_pow2_strictly_increases((i + 1) as nat, 75);
            }
        }
        power = power * 2;
        i += 1;
    }
    proof {
        lemma_pow2_pos(exponent as nat);
        if exponent < 75 {
            lemma_pow2_strictly_increases(exponent as nat, 75);
        }
    }
    power
}

/// The order of `m1 * 2^s1` and `m2 * 2^s2`, the magnitudes of two floats.
fn compare_float_magnitudes(m1: u64, s1: u32, m2: u64, s2: u32) -> (order: Order)
    requires
        m1 < 0x20_0000_0000_0000,
        m2 < 0x20_0000_0000_0000,
        s1 >= 1 ==> m1 >= 0x10_0000_0000_0000,
        s2 >= 1 ==> m2 >= 0x10_0000_0000_0000,
    ensures
        order == int_order(m1 * pow2(s1 as nat), m2 * pow2(s2 as nat)),
{
    if s1 == s2 {
        proof {
            lemma_pow2_pos(s1 as nat);
            lemma_scale_keeps_order(m1 as int, m2 as int, pow2(s1 as nat) as int);
        }
        crate::order::compare_unsigned(m1 as u128, m2 as u128)
    } else if s1 < s2 {
        proof {
            lemma_higher_shift_wins(m1 as int, s1 as nat, m2 as int, s2 as nat);
        }
        Order::Less
    } else {
        proof {
            lemma_higher_shift_wins(m2 as int, s2 as nat, m1 as int, s1 as nat);
        }
        Order::Greater
    }
}

/// A float with the higher shift is the greater in magnitude: its
/// significand has the hidden bit, and the other stays below twice that.
pub proof fn lemma_higher_shift_wins(m1: int, s1: nat, m2: int, s2: nat)
    requires
        0 <= m1 < 0x20_0000_0000_0000,
        m2 >= 0x10_0000_0000_0000,
        s1 < s2,
    ensures
        m1 * pow2(s1) < m2 * pow2(s2),
{
    let lower = pow2(s1) as int;
    let higher = pow2(s2) as int;
    lemma_pow2_pos(s1);
    vstd::arithmetic::power2::lemma_pow2_unfold(s1 + 1);
    if s1 + 1 < s2 {
        lemma_pow2_strictly_increases(s1 + 1, s2);
    }
    assert(2 * lower <= higher);
    assert(m1 * lower < m2 * higher) by (nonlinear_arith)
        requires
            0 <= m1 < 0x20_0000_0000_0000,
            m2 >= 0x10_0000_0000_0000,
            0 < lower,
            2 * lower <= higher,
    ;
}

/// The order of the integer magnitude `magnitude` and the float magnitude
/// `mantissa * 2^(shift - 1074)`.
fn compare_integer_float_magnitudes(magnitude: u128, mantissa: u64, shift: u32) -> (order: Order)
    requires
        mantissa < 0x20_0000_0000_0000,
        shift <= 2045,
        shift >= 1 ==> mantissa >= 0x10_0000_0000_0000,
    ensures
        order == int_order(magnitude * pow2(1074), mantissa * pow2(shift as nat)),
{
    proof {
        lemma_pow2_edges();
    }
    if shift >= 1074 {
        let k = shift - 1074;
        let ghost unit = pow2(1074) as int;
        let ghost pk = pow2(k as nat) as int;
        proof {
            lemma_pow2_adds(k as nat, 1074);
            lemma_pow2_pos(1074);
            lemma_pow2_pos(k as nat);
            assert(mantissa * pow2(shift as nat) == (mantissa * pk) * unit) by (nonlinear_arith)
                requires
                    pow2(shift as nat) == pk * unit,
            ;
            lemma_scale_keeps_order(magnitude as int, mantissa * pk, unit);
        }
        if k > 75 {
            proof {
                if k > 76 {
                    lemma_pow2_strictly_increases(76, k as nat);
                }
                assert(mantissa * pk >= 0x1_0000_0000_0000_0000_0000_0000_0000_0000)
                    by (nonlinear_arith)
                    requires
                        mantissa >= 0x10_0000_0000_0000,
                        pk >= 0x1000_0000_0000_0000_0000,
                ;
            }
            Order::Less
        } else {
            let power = pow2_exec(k);
            assert(mantissa * power < 0x1_0000_0000_0000_0000_0000_0000_0000_0000)
                by (nonlinear_arith)
                requires
                    mantissa < 0x20_0000_0000_0000,
                    power <= 0x800_0000_0000_0000_0000,
            ;
            crate::order::compare_unsigned(magnitude, mantissa as u128 * power)
        }
    } else {
        let k = 1074 - shift;
        let ghost unit = pow2(shift as nat) as int;
        let ghost pk = pow2(k as nat) as int;
        proof {
            lemma_pow2_adds(k as nat, shift as nat);
            lemma_pow2_pos(shift as nat);
            lemma_pow2_pos(k as nat);
            assert(magnitude * pow2(1074) == (magnitude * pk) * unit) by (nonlinear_arith)
                requires
                    pow2(1074) == pk * unit,
            ;
            lemma_scale_keeps_order(magnitude * pk, mantissa as int, unit);
        }
        if magnitude == 0 {
            assert(magnitude * pk == 0);
            crate::order::compare_unsigned(0, mantissa as u128)
        } else if k >= 53 || magnitude >= 0x20_0000_0000_0000 {
            proof {
                if k > 53 {
                    lemma_pow2_strictly_increases(53, k as nat);
                }
                assert(magnitude * pk >= 0x20_0000_0000_0000) by (nonlinear_arith)
                    requires
                        magnitude >= 1,
                        pk >= 1,
                        pk >= 0x20_0000_0000_0000 || magnitude >= 0x20_0000_0000_0000,
                ;
            }
            Order::Greater
        } else {
            let power = pow2_exec(k);
            proof {
                if k < 52 {
                    lemma_pow2_strictly_increases(k as nat, 52);
                }
            }
            assert(magnitude * power < 0x400_0000_0000_0000_0000_0000_0000) by (nonlinear_arith)
                requires
                    magnitude < 0x20_0000_0000_0000,
                    power <= 0x10_0000_0000_0000,
            ;
            crate::order::compare_unsigned(magnitude * power, mantissa as u128)
        }
    }
}

} // verus!
