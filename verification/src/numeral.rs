//! Decimal numerals: the text form in which a reading's value travels.
//!
//! A numeral is an optional sign, digits with an optional decimal point among
//! them (at least one digit in all), and an optional exponent: `e` or `E`, an
//! optional sign, and at least one digit. So `42.0`, `-.5`, `7.` and `1e-3`
//! are numerals; `inf`, `nan`, `1e`, `.` and the empty text are not. Every
//! numeral denotes a finite decimal number.
use crate::decimal::lemma_pow10_grows;
use crate::decimal::lemma_pow10_values;
use crate::decimal::pow10;
use crate::decimal::ten_to_the;
use crate::decimal::Decimal;
use crate::decimal::RoundToTwoDecimals;
use vstd::prelude::*;
use vstd::string::*;
use vstd::utf8::*;

verus! {

/// A decimal digit.
pub open spec fn is_digit(c: char) -> bool {
    '0' <= c <= '9'
}

/// A sign in front of a number or of an exponent.
pub open spec fn is_sign(c: char) -> bool {
    c == '+' || c == '-'
}

/// The letter that introduces an exponent.
pub open spec fn is_exponent_mark(c: char) -> bool {
    c == 'e' || c == 'E'
}

/// Where the run of digits that starts at `from` ends: the index of the
/// first character at or after `from` that is no digit, or the length of
/// `text` where there is none.
pub open spec fn digits_end(text: Seq<char>, from: int) -> int
    decreases text.len() - from,
{
    if 0 <= from < text.len() && is_digit(text[from]) {
        digits_end(text, from + 1)
    } else {
        from
    }
}

/// How a numeral's text divides into its parts.
pub struct Parts {
    /// The numeral begins with `-`.
    pub negative: bool,
    /// The digits before the decimal point.
    pub whole: Seq<char>,
    /// The digits after the decimal point.
    pub fraction: Seq<char>,
    /// The exponent begins with `-`.
    pub exponent_negative: bool,
    /// The digits of the exponent; empty where the numeral has none.
    pub exponent: Seq<char>,
}

/// The parts of `text` if it is a numeral.
pub open spec fn numeral_parts(text: Seq<char>) -> Option<Parts> {
    let signed = text.len() > 0 && is_sign(text[0]);
    let whole_from: int = if signed { 1 } else { 0 };
    let whole_to = digits_end(text, whole_from);
    let pointed = whole_to < text.len() && text[whole_to] == '.';
    let fraction_from = if pointed { whole_to + 1 } else { whole_to };
    let fraction_to = digits_end(text, fraction_from);
    let negative = signed && text[0] == '-';
    let whole = text.subrange(whole_from, whole_to);
    let fraction = text.subrange(fraction_from, fraction_to);
    if whole.len() + fraction.len() == 0 {
        None
    } else if fraction_to == text.len() {
        Some(Parts { negative, whole, fraction, exponent_negative: false, exponent: Seq::empty() })
    } else if !is_exponent_mark(text[fraction_to]) {
        None
    } else {
        let exponent_signed = fraction_to + 1 < text.len() && is_sign(text[fraction_to + 1]);
        let exponent_from = if exponent_signed { fraction_to + 2 } else { fraction_to + 1 };
        let exponent_to = digits_end(text, exponent_from);
        if exponent_to == exponent_from || exponent_to != text.len() {
            None
        } else {
            Some(
                Parts {
                    negative,
                    whole,
                    fraction,
                    exponent_negative: exponent_signed && text[fraction_to + 1] == '-',
                    exponent: text.subrange(exponent_from, exponent_to),
                },
            )
        }
    }
}

/// Whether `text` is a numeral.
pub open spec fn is_numeral(text: Seq<char>) -> bool {
    numeral_parts(text) is Some
}

/// What a digit counts for.
pub open spec fn digit_value(c: char) -> nat {
    (c as u8 - '0' as u8) as nat
}

/// The number that results when the digits of `digits` are appended, one
/// after the other, to the decimal notation of `start`.
pub open spec fn extend_value(start: nat, digits: Seq<char>) -> nat
    decreases digits.len(),
{
    if digits.len() == 0 {
        start
    } else {
        extend_value(start * 10 + digit_value(digits[0]), digits.drop_first())
    }
}

/// The number that `digits` denotes in decimal notation; zero for no digits.
pub open spec fn digits_value(digits: Seq<char>) -> nat {
    extend_value(0, digits)
}

impl Parts {
    /// The digits of the numeral read as one whole number, the decimal point
    /// left out.
    pub open spec fn coefficient(self) -> nat {
        digits_value(self.whole + self.fraction)
    }

    /// The power of ten by which the coefficient is multiplied: the exponent
    /// that is written, less one for each digit of the fraction.
    pub open spec fn power(self) -> int {
        if self.exponent_negative {
            -(digits_value(self.exponent) as int) - self.fraction.len()
        } else {
            digits_value(self.exponent) as int - self.fraction.len()
        }
    }

    /// The decimal places that the number needs when the coefficient's
    /// digits are all kept.
    pub open spec fn scale(self) -> int {
        if self.power() < 0 {
            -self.power()
        } else {
            0
        }
    }

    /// The number counted in units of `10^-scale`.
    pub open spec fn units(self) -> int {
        let magnitude: int = if self.power() < 0 {
            self.coefficient() as int
        } else {
            (self.coefficient() * pow10(self.power() as nat)) as int
        };
        if self.negative {
            -magnitude
        } else {
            magnitude
        }
    }

    /// The number as a `Decimal`, where its scale fits a `u8` and its units
    /// an `i64`.
    pub open spec fn decimal(self) -> Option<Decimal> {
        if self.scale() <= u8::MAX && i64::MIN <= self.units() <= i64::MAX {
            Some(Decimal { units: self.units() as i64, scale: self.scale() as u8 })
        } else {
            None
        }
    }
}

/// The run of digits that starts at `from` lies within `text` and holds
/// digits only.
proof fn lemma_digits_end(text: Seq<char>, from: int)
    requires
        0 <= from <= text.len(),
    ensures
        from <= digits_end(text, from) <= text.len(),
        forall|i: int| from <= i < digits_end(text, from) ==> is_digit(#[trigger] text[i]),
        digits_end(text, from) < text.len() ==> !is_digit(text[digits_end(text, from)]),
    decreases text.len() - from,
{
    if from < text.len() && is_digit(text[from]) {
        lemma_digits_end(text, from + 1);
    }
}

/// A numeral holds ASCII characters only.
proof fn lemma_numeral_is_ascii(text: Seq<char>)
    requires
        is_numeral(text),
    ensures
        is_ascii_chars(text),
{
    let signed = text.len() > 0 && is_sign(text[0]);
    let whole_from: int = if signed { 1 } else { 0 };
    let whole_to = digits_end(text, whole_from);
    lemma_digits_end(text, whole_from);
    let pointed = whole_to < text.len() && text[whole_to] == '.';
    let fraction_from = if pointed { whole_to + 1 } else { whole_to };
    let fraction_to = digits_end(text, fraction_from);
    lemma_digits_end(text, fraction_from);
    if fraction_to < text.len() {
        let exponent_signed = fraction_to + 1 < text.len() && is_sign(text[fraction_to + 1]);
        let exponent_from = if exponent_signed { fraction_to + 2 } else { fraction_to + 1 };
        lemma_digits_end(text, exponent_from);
    }
}

/// The characters of a numeral as bytes.
const ZERO: u8 = 48;

const NINE: u8 = 57;

const PLUS: u8 = 43;

const MINUS: u8 = 45;

const POINT: u8 = 46;

const LOWER_E: u8 = 101;

const UPPER_E: u8 = 69;

/// `bytes` holds the ASCII text `text`, one byte for each character.
pub open spec fn spelled(bytes: Seq<u8>, text: Seq<char>) -> bool {
    &&& is_ascii_chars(text)
    &&& bytes.len() == text.len()
    &&& forall|i: int| 0 <= i < text.len() ==> bytes[i] == text[i] as u8
}

/// Scans the run of digits that starts at `from`.
fn scan_digits(bytes: &[u8], from: usize, Ghost(text): Ghost<Seq<char>>) -> (to: usize)
    requires
        from <= bytes.len(),
        spelled(bytes@, text),
    ensures
        to == digits_end(text, from as int),
        from <= to <= bytes.len(),
        forall|i: int| from <= i < to ==> is_digit(#[trigger] text[i]),
{
    let mut to: usize = from;
    while to < bytes.len() && ZERO <= bytes[to] && bytes[to] <= NINE
        invariant
            from <= to <= bytes.len(),
            spelled(bytes@, text),
            digits_end(text, from as int) == digits_end(text, to as int),
            forall|i: int| from <= i < to ==> is_digit(#[trigger] text[i]),
        decreases bytes.len() - to,
    {
        assert(is_digit(text[to as int]));
        to += 1;
    }
    assert(!(0 <= to < text.len() && is_digit(text[to as int])));
    to
}

/// Where the parts of a numeral lie in its text.
struct Bounds {
    negative: bool,
    whole_from: usize,
    whole_to: usize,
    fraction_from: usize,
    fraction_to: usize,
    exponent_negative: bool,
    exponent_from: usize,
    exponent_to: usize,
}

impl Bounds {
    /// The parts that lie at these bounds in `text`.
    spec fn parts(self, text: Seq<char>) -> Parts {
        Parts {
            negative: self.negative,
            whole: text.subrange(self.whole_from as int, self.whole_to as int),
            fraction: text.subrange(self.fraction_from as int, self.fraction_to as int),
            exponent_negative: self.exponent_negative,
            exponent: text.subrange(self.exponent_from as int, self.exponent_to as int),
        }
    }

    /// The bounds lie in order within `text`, and hold digits only.
    spec fn fits(self, text: Seq<char>) -> bool {
        &&& self.whole_from <= self.whole_to <= self.fraction_from <= self.fraction_to
            <= self.exponent_from <= self.exponent_to <= text.len()
        &&& forall|i: int| self.whole_from <= i < self.whole_to ==> is_digit(#[trigger] text[i])
        &&& forall|i: int|
            self.fraction_from <= i < self.fraction_to ==> is_digit(#[trigger] text[i])
        &&& forall|i: int|
            self.exponent_from <= i < self.exponent_to ==> is_digit(#[trigger] text[i])
    }
}

/// Divides a text into the parts of a numeral, if it is one.
fn scan(bytes: &[u8], Ghost(text): Ghost<Seq<char>>) -> (bounds: Option<Bounds>)
    requires
        spelled(bytes@, text),
    ensures
        match bounds {
            Some(b) => numeral_parts(text) == Some(b.parts(text)) && b.fits(text),
            None => numeral_parts(text) is None,
        },
{
    let len: usize = bytes.len();
    let signed = len > 0 && (bytes[0] == PLUS || bytes[0] == MINUS);
    let negative = signed && bytes[0] == MINUS;
    let whole_from: usize = if signed { 1 } else { 0 };
    let whole_to: usize = scan_digits(bytes, whole_from, Ghost(text));
    let pointed = whole_to < len && bytes[whole_to] == POINT;
    let fraction_from: usize = if pointed { whole_to + 1 } else { whole_to };
    let fraction_to: usize = scan_digits(bytes, fraction_from, Ghost(text));
    if (whole_to - whole_from) + (fraction_to - fraction_from) == 0 {
        return None;
    }
    if fraction_to == len {
        let found = Bounds {
            negative,
            whole_from,
            whole_to,
            fraction_from,
            fraction_to,
            exponent_negative: false,
            exponent_from: len,
            exponent_to: len,
        };
        assert(text.subrange(len as int, len as int) =~= Seq::<char>::empty());
        return Some(found);
    }
    if !(bytes[fraction_to] == LOWER_E || bytes[fraction_to] == UPPER_E) {
        return None;
    }
    let exponent_signed = fraction_to + 1 < len && (bytes[fraction_to + 1] == PLUS
        || bytes[fraction_to + 1] == MINUS);
    let exponent_negative = exponent_signed && bytes[fraction_to + 1] == MINUS;
    let exponent_from: usize = if exponent_signed { fraction_to + 2 } else { fraction_to + 1 };
    let exponent_to: usize = scan_digits(bytes, exponent_from, Ghost(text));
    if exponent_to == exponent_from || exponent_to != len {
        return None;
    }
    Some(
        Bounds {
            negative,
            whole_from,
            whole_to,
            fraction_from,
            fraction_to,
            exponent_negative,
            exponent_from,
            exponent_to,
        },
    )
}

/// Decides whether `text` is a numeral.
pub fn check_numeral(text: &str) -> (numeral: bool)
    ensures
        numeral == is_numeral(text@),
{
    if !text.is_ascii() {
        proof {
            if is_numeral(text@) {
                lemma_numeral_is_ascii(text@);
            }
        }
        return false;
    }
    let bytes = text.as_bytes();
    proof {
        is_ascii_chars_encode_utf8(text@);
    }
    scan(bytes, Ghost(text@)).is_some()
}

/// Appending digits never makes a number smaller.
proof fn lemma_extend_grows(start: nat, digits: Seq<char>)
    ensures
        extend_value(start, digits) >= start,
    decreases digits.len(),
{
    if digits.len() > 0 {
        lemma_extend_grows(start * 10 + digit_value(digits[0]), digits.drop_first());
    }
}

/// Appending two runs of digits in turn is appending their concatenation.
proof fn lemma_extend_concat(start: nat, first: Seq<char>, second: Seq<char>)
    ensures
        extend_value(start, first + second) == extend_value(extend_value(start, first), second),
    decreases first.len(),
{
    if first.len() == 0 {
        assert(first + second =~= second);
    } else {
        assert((first + second).drop_first() =~= first.drop_first() + second);
        lemma_extend_concat(start * 10 + digit_value(first[0]), first.drop_first(), second);
    }
}

/// A number of `n` digits is below ten to the power `n`.
proof fn lemma_extend_bound(start: nat, digits: Seq<char>)
    requires
        forall|i: int| 0 <= i < digits.len() ==> is_digit(#[trigger] digits[i]),
    ensures
        extend_value(start, digits) < (start + 1) * pow10(digits.len()),
    decreases digits.len(),
{
    if digits.len() > 0 {
        let rest = digits.drop_first();
        let next = start * 10 + digit_value(digits[0]);
        assert forall|i: int| 0 <= i < rest.len() implies is_digit(#[trigger] rest[i]) by {
            assert(rest[i] == digits[i + 1]);
        }
        lemma_extend_bound(next, rest);
        assert(is_digit(digits[0]));
        assert(digit_value(digits[0]) <= 9);
        let p = pow10(rest.len()) as int;
        let q = pow10(digits.len()) as int;
        assert(q == 10 * p);
        assert(extend_value(start, digits) == extend_value(next, rest));
        assert((next + 1) * p <= (start + 1) * q) by (nonlinear_arith)
            requires
                next + 1 <= (start + 1) * 10,
                p >= 0,
                q == 10 * p,
        ;
    } else {
        assert(pow10(0) == 1);
        assert((start + 1) * 1 == start + 1);
    }
}

/// In magnitude the units are never below the coefficient.
proof fn lemma_units_hold_the_coefficient(parts: Parts)
    ensures
        parts.negative ==> parts.units() <= -(parts.coefficient() as int),
        !parts.negative ==> parts.units() >= parts.coefficient(),
{
    if parts.power() >= 0 {
        lemma_pow10_grows(0, parts.power() as nat);
        let c = parts.coefficient() as int;
        let p = pow10(parts.power() as nat) as int;
        assert(c * p >= c) by (nonlinear_arith)
            requires
                c >= 0,
                p >= 1,
        ;
    }
}

/// A number that no `u64` holds has twenty digits or more.
proof fn lemma_exponent_is_long(digits: Seq<char>)
    requires
        forall|i: int| 0 <= i < digits.len() ==> is_digit(#[trigger] digits[i]),
        digits_value(digits) > u64::MAX,
    ensures
        digits.len() >= 20,
{
    lemma_extend_bound(0, digits);
    lemma_pow10_values();
    if digits.len() <= 19 {
        lemma_pow10_grows(digits.len(), 19);
        let q = pow10(digits.len()) as int;
        assert((0 + 1) * q == q) by (nonlinear_arith);
    }
}

/// A coefficient other than zero, multiplied by ten to the power 19 or
/// more, is beyond an `i64` in magnitude.
proof fn lemma_large_power(coefficient: nat, power: int)
    requires
        power >= 19,
    ensures
        coefficient > 0 ==> coefficient * pow10(power as nat) >= 10_000_000_000_000_000_000,
        coefficient == 0 ==> coefficient * pow10(power as nat) == 0,
{
    lemma_pow10_grows(19, power as nat);
    lemma_pow10_values();
    let c = coefficient as int;
    let p = pow10(power as nat) as int;
    assert(c >= 1 ==> c * p >= 10_000_000_000_000_000_000) by (nonlinear_arith)
        requires
            p >= 10_000_000_000_000_000_000,
    ;
    assert(c == 0 ==> c * p == 0) by (nonlinear_arith);
}

/// Appends the digits at `from..to` to the decimal notation of `start`.
fn accumulate(bytes: &[u8], from: usize, to: usize, start: u64, Ghost(text): Ghost<Seq<char>>) -> (total:
    Option<u64>)
    requires
        from <= to <= bytes.len(),
        spelled(bytes@, text),
        forall|i: int| from <= i < to ==> is_digit(#[trigger] text[i]),
    ensures
        match total {
            Some(value) => value == extend_value(
                start as nat,
                text.subrange(from as int, to as int),
            ),
            None => extend_value(start as nat, text.subrange(from as int, to as int)) > u64::MAX,
        },
{
    let mut total: u64 = start;
    let mut at: usize = from;
    while at < to
        invariant
            from <= at <= to <= bytes.len(),
            spelled(bytes@, text),
            forall|i: int| from <= i < to ==> is_digit(#[trigger] text[i]),
            extend_value(start as nat, text.subrange(from as int, to as int)) == extend_value(
                total as nat,
                text.subrange(at as int, to as int),
            ),
        decreases to - at,
    {
        let ghost rest = text.subrange(at as int, to as int);
        assert(is_digit(text[at as int]));
        assert(rest[0] == text[at as int]);
        assert(rest.drop_first() =~= text.subrange(at + 1, to as int));
        let digit: u64 = (bytes[at] - ZERO) as u64;
        proof {
            lemma_extend_grows(total as nat * 10 + digit_value(rest[0]), rest.drop_first());
        }
        let tenfold: u64 = match total.checked_mul(10) {
            Some(tenfold) => tenfold,
            None => {
                return None;
            },
        };
        total =
        match tenfold.checked_add(digit) {
            Some(next) => next,
            None => {
                return None;
            },
        };
        at += 1;
    }
    Some(total)
}

/// The units of a number of the given sign and magnitude, where an `i64`
/// holds them.
fn signed_units(negative: bool, magnitude: u128) -> (units: Option<i64>)
    ensures
        match units {
            Some(u) => u == if negative {
                -(magnitude as int)
            } else {
                magnitude as int
            },
            None => if negative {
                -(magnitude as int) < i64::MIN
            } else {
                magnitude > i64::MAX
            },
        },
{
    if negative {
        if magnitude > 0x8000_0000_0000_0000 {
            None
        } else {
            Some((-(magnitude as i128)) as i64)
        }
    } else {
        if magnitude > 0x7fff_ffff_ffff_ffff {
            None
        } else {
            Some(magnitude as i64)
        }
    }
}

/// A text that is a numeral.
pub struct Numeral {
    text: String,
}

impl View for Numeral {
    type V = Seq<char>;

    closed spec fn view(&self) -> Seq<char> {
        self.text@
    }
}

impl Numeral {
    #[verifier::type_invariant]
    spec fn well_formed(self) -> bool {
        is_numeral(self.text@)
    }

    /// Takes `text` as a numeral if it is one, and hands it back if not.
    pub fn parse(text: String) -> (parsed: Result<Numeral, String>)
        ensures
            match parsed {
                Ok(numeral) => is_numeral(text@) && numeral@ == text@,
                Err(rejected) => !is_numeral(text@) && rejected@ == text@,
            },
    {
        if check_numeral(text.as_str()) {
            Ok(Numeral { text })
        } else {
            Err(text)
        }
    }

    /// The numeral's text.
    pub fn as_str(&self) -> (text: &str)
        ensures
            text@ == self@,
            is_numeral(text@),
    {
        proof {
            use_type_invariant(self);
        }
        self.text.as_str()
    }

    /// The number that the numeral denotes, as far as a `Decimal` can hold
    /// it: with every digit of the numeral kept, so `42.0` has one decimal
    /// place and `1.5e1` none.
    pub fn to_decimal(&self) -> (decimal: Option<Decimal>)
        ensures
            is_numeral(self@),
            decimal == numeral_parts(self@)->0.decimal(),
    {
        proof {
            use_type_invariant(self);
            lemma_numeral_is_ascii(self.text@);
            is_ascii_chars_encode_utf8(self.text@);
        }
        let ghost text = self.text@;
        let bytes = self.text.as_str().as_bytes();
        let bounds = match scan(bytes, Ghost(text)) {
            Some(bounds) => bounds,
            None => {
                return None;
            },
        };
        let ghost parts = bounds.parts(text);
        proof {
            lemma_extend_concat(0, parts.whole, parts.fraction);
            lemma_extend_grows(digits_value(parts.whole), parts.fraction);
            lemma_units_hold_the_coefficient(parts);
        }
        let whole: u64 = match accumulate(bytes, bounds.whole_from, bounds.whole_to, 0, Ghost(text)) {
            Some(whole) => whole,
            None => {
                return None;
            },
        };
        let coefficient: u64 = match accumulate(
            bytes,
            bounds.fraction_from,
            bounds.fraction_to,
            whole,
            Ghost(text),
        ) {
            Some(coefficient) => coefficient,
            None => {
                return None;
            },
        };
        let fraction_len: usize = bounds.fraction_to - bounds.fraction_from;
        assert(coefficient == parts.coefficient());
        assert(fraction_len == parts.fraction.len());
        match accumulate(bytes, bounds.exponent_from, bounds.exponent_to, 0, Ghost(text)) {
            None => {
                proof {
                    lemma_exponent_is_long(parts.exponent);
                    assert(parts.fraction.len() + parts.exponent.len() <= usize::MAX);
                    if !parts.exponent_negative {
                        lemma_large_power(parts.coefficient(), parts.power());
                    }
                }
                if bounds.exponent_negative || coefficient != 0 {
                    None
                } else {
                    Some(Decimal { units: 0, scale: 0 })
                }
            },
            Some(exponent) => {
                let power: i128 = if bounds.exponent_negative {
                    -(exponent as i128) - fraction_len as i128
                } else {
                    exponent as i128 - fraction_len as i128
                };
                assert(power == parts.power());
                if power < -255 {
                    None
                } else if power < 0 {
                    match signed_units(bounds.negative, coefficient as u128) {
                        Some(units) => Some(Decimal { units, scale: (-power) as u8 }),
                        None => None,
                    }
                } else if coefficient == 0 {
                    assert(parts.units() == 0) by (nonlinear_arith)
                        requires
                            parts.units() == 0 * pow10(parts.power() as nat) || parts.units() == -(0
                                * pow10(parts.power() as nat)),
                    ;
                    Some(Decimal { units: 0, scale: 0 })
                } else if power >= 19 {
                    proof {
                        lemma_large_power(parts.coefficient(), parts.power());
                    }
                    None
                } else {
                    let scaling: u128 = ten_to_the(power as u8);
                    proof {
                        lemma_pow10_grows(power as nat, 19);
                        lemma_pow10_values();
                    }
                    assert(coefficient * scaling <= 0xffff_ffff_ffff_ffff
                        * 10_000_000_000_000_000_000) by (nonlinear_arith)
                        requires
                            0 <= coefficient <= 0xffff_ffff_ffff_ffff,
                            0 <= scaling <= 10_000_000_000_000_000_000,
                    ;
                    let magnitude: u128 = coefficient as u128 * scaling;
                    match signed_units(bounds.negative, magnitude) {
                        Some(units) => Some(Decimal { units, scale: 0 }),
                        None => None,
                    }
                }
            },
        }
    }
}

/// Nothing is lost at two decimal places: a numeral without exponent and
/// with two digits after the point at most denotes a number with as many
/// decimal places as it has such digits, and rounding that number to two
/// decimal places leaves it as it is.
pub proof fn lemma_two_decimals_are_kept(text: Seq<char>)
    requires
        numeral_parts(text) matches Some(parts) && parts.exponent.len() == 0
            && parts.fraction.len() <= 2 && parts.decimal() is Some,
    ensures
        ({
            let parts = numeral_parts(text)->0;
            let number = parts.decimal()->0;
            &&& number.scale == parts.fraction.len()
            &&& number.units == if parts.negative {
                -(parts.coefficient() as int)
            } else {
                parts.coefficient() as int
            }
            &&& number.rounded_to_two_decimals() == number
        }),
{
    let parts = numeral_parts(text)->0;
    assert(pow10(0) == 1);
    assert(parts.coefficient() * 1 == parts.coefficient());
}

} // verus!
