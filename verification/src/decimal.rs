//! Fixed-point decimal numbers: the lengths and weights of a manifest.
//!
//! A [`Decimal`] counts millionths. Its value is `units / 1_000_000`, held
//! exactly, so sums, differences and comparisons of decimals are plain integer
//! arithmetic on their units.

use vstd::prelude::*;
use vstd::string::StrSliceExecFns;
use crate::number::{
    all_digits, digits_magnitude, digits_value, is_digit, sign_length, with_sign_of, Magnitude,
    NumberError,
};
use crate::text::{
    chars_of, lemma_split_on_keeps, lemma_split_on_nonempty, split_fields, split_on,
};

verus! {

/// The number of fractional digits that a decimal holds: a unit is a millionth.
pub const FRACTION_DIGITS: usize = 6;

/// The largest magnitude, in units, that a decimal holds.
pub const MAX_UNITS: i64 = 1_000_000_000_000_000_000;

/// Whether a count of units lies within what a [`Decimal`] holds.
pub open spec fn units_in_range(units: int) -> bool {
    -MAX_UNITS <= units <= MAX_UNITS
}

/// The stretches of digits of a decimal text: what stands before its first
/// decimal point, what stands behind it, and so on for every further point.
pub open spec fn decimal_parts(s: Seq<char>) -> Seq<Seq<char>> {
    split_on(s.skip(sign_length(s)), '.')
}

/// The digits before the decimal point.
pub open spec fn whole_digits(s: Seq<char>) -> Seq<char> {
    decimal_parts(s)[0]
}

/// The digits behind the decimal point, none where there is no point.
pub open spec fn fraction_digits(s: Seq<char>) -> Seq<char> {
    if decimal_parts(s).len() >= 2 {
        decimal_parts(s)[1]
    } else {
        Seq::empty()
    }
}

/// Whether `s` is written as a decimal: an optional sign, digits, and at
/// most one decimal point among them. At least one digit is needed, on either
/// side of the point.
pub open spec fn is_decimal_text(s: Seq<char>) -> bool {
    &&& decimal_parts(s).len() <= 2
    &&& all_digits(whole_digits(s))
    &&& all_digits(fraction_digits(s))
    &&& whole_digits(s).len() + fraction_digits(s).len() > 0
}

/// Whether a fraction can be held exactly: behind its sixth digit it has
/// zeros only.
pub open spec fn fraction_is_exact(fraction: Seq<char>) -> bool {
    forall|i: int| FRACTION_DIGITS <= i < fraction.len() ==> #[trigger] fraction[i] == '0'
}

/// The first six digits of a fraction, with zeros where it is shorter.
pub open spec fn padded_fraction(fraction: Seq<char>) -> Seq<char> {
    Seq::new(
        FRACTION_DIGITS as nat,
        |k: int|
            if k < fraction.len() {
                fraction[k]
            } else {
                '0'
            },
    )
}

/// The count of units that a decimal text stands for: the digits before
/// the point and the six digits behind it, read as one number, with the sign
/// of the text.
pub open spec fn decimal_units(s: Seq<char>) -> int {
    with_sign_of(s, digits_value(whole_digits(s) + padded_fraction(fraction_digits(s))))
}

/// What reading `s` as a decimal gives: its count of units, or why it has none.
pub open spec fn parsed_decimal(s: Seq<char>) -> Result<int, NumberError> {
    if s.len() == 0 {
        Err(NumberError::Empty)
    } else if !is_decimal_text(s) {
        Err(NumberError::InvalidDigit)
    } else if !fraction_is_exact(fraction_digits(s)) {
        Err(NumberError::TooPrecise)
    } else if !units_in_range(decimal_units(s)) {
        Err(NumberError::OutOfRange)
    } else {
        Ok(decimal_units(s))
    }
}

/// A decimal number with six fractional digits and a magnitude of at most
/// `MAX_UNITS` units. Its view is its count of units.
#[derive(Clone, Copy, Debug, PartialEq, Eq)]
pub struct Decimal {
    units: i64,
}

impl View for Decimal {
    type V = int;

    closed spec fn view(&self) -> int {
        self.units as int
    }
}

impl Decimal {
    #[verifier::type_invariant]
    spec fn within_range(self) -> bool {
        units_in_range(self.units as int)
    }

    /// The decimal 0.
    pub fn zero() -> (d: Decimal)
        ensures
            d@ == 0,
    {
        Decimal { units: 0 }
    }

    /// The decimal of `units` millionths, where it can be held.
    pub fn from_units(units: i64) -> (d: Option<Decimal>)
        ensures
            d is Some <==> units_in_range(units as int),
            d matches Some(v) ==> v@ == units,
    {
        if -MAX_UNITS <= units && units <= MAX_UNITS {
            Some(Decimal { units })
        } else {
            None
        }
    }

    /// The decimal of `units` millionths, for a count within range.
    pub fn from_units_in_range(units: i64) -> (d: Decimal)
        requires
            units_in_range(units as int),
        ensures
            d@ == units,
    {
        Decimal { units }
    }

    /// The count of millionths that this decimal stands for.
    pub fn units(&self) -> (u: i64)
        ensures
            u == self@,
            units_in_range(u as int),
    {
        proof {
            use_type_invariant(self);
        }
        self.units
    }

    /// Reads `text` as a decimal: an optional sign, digits, and at most one
    /// decimal point among them. The text must stand for a value that can be
    /// held exactly.
    pub fn from_str(text: &str) -> (number: Result<Decimal, NumberError>)
        ensures
            match parsed_decimal(text@) {
                Ok(units) => number matches Ok(decimal) && decimal@ == units,
                Err(error) => number == Err::<Decimal, NumberError>(error),
            },
    {
        let chars = chars_of(text);
        if chars.len() == 0 {
            return Err(NumberError::Empty);
        }
        let negative: bool = chars[0] == '-';
        let sign: usize = if negative || chars[0] == '+' {
            1
        } else {
            0
        };
        let body = text.substring_char(sign, chars.len());
        let parts = split_fields(body, '.');
        proof {
            lemma_split_on_nonempty(body@, '.');
        }
        if parts.len() > 2 {
            return Err(NumberError::InvalidDigit);
        }
        let whole = chars_of(parts[0]);
        let fraction = if parts.len() == 2 {
            chars_of(parts[1])
        } else {
            Vec::new()
        };
        if whole.len() == 0 && fraction.len() == 0 {
            return Err(NumberError::InvalidDigit);
        }
        if let Magnitude::NotDigits = digits_magnitude(&fraction, 0) {
            return Err(NumberError::InvalidDigit);
        }
        let mut digits: Vec<char> = whole;
        let ghost whole_part = digits@;
        let mut place: usize = 0;
        let mut exact: bool = true;
        while place < FRACTION_DIGITS || place < fraction.len()
            invariant
                digits@ == whole_part + padded_fraction(fraction@).take(
                    if place < FRACTION_DIGITS {
                        place as int
                    } else {
                        FRACTION_DIGITS as int
                    },
                ),
                exact <==> forall|i: int|
                    FRACTION_DIGITS <= i < place && i < fraction.len() ==> fraction@[i] == '0',
                place <= FRACTION_DIGITS || place <= fraction.len(),
            decreases
                    (if fraction.len() > FRACTION_DIGITS {
                        fraction.len()
                    } else {
                        FRACTION_DIGITS
                    }) - place,
        {
            if place < FRACTION_DIGITS {
                let digit: char = if place < fraction.len() {
                    fraction[place]
                } else {
                    '0'
                };
                digits.push(digit);
            } else if fraction[place] != '0' {
                exact = false;
            }
            place = place + 1;
        }
        assert(padded_fraction(fraction@).take(FRACTION_DIGITS as int) =~= padded_fraction(
            fraction@,
        ));
        let magnitude = digits_magnitude(&digits, MAX_UNITS as u64);
        proof {
            lemma_digits_of_decimal(whole_part, fraction@);
        }
        match magnitude {
            Magnitude::NotDigits => Err(NumberError::InvalidDigit),
            Magnitude::TooLarge => {
                if exact {
                    Err(NumberError::OutOfRange)
                } else {
                    Err(NumberError::TooPrecise)
                }
            },
            Magnitude::Value(value) => {
                if !exact {
                    Err(NumberError::TooPrecise)
                } else if negative {
                    Ok(Decimal { units: -(value as i64) })
                } else {
                    Ok(Decimal { units: value as i64 })
                }
            },
        }
    }

    /// Two decimals of the same count of units are the same decimal.
    pub proof fn lemma_equal_views(a: Decimal, b: Decimal)
        requires
            a@ == b@,
        ensures
            a == b,
    {
    }
}

/// A decimal is written without a comma.
pub proof fn lemma_decimal_text_has_no_comma(s: Seq<char>)
    requires
        is_decimal_text(s),
    ensures
        !s.contains(','),
{
    if s.contains(',') {
        let at = choose|at: int| 0 <= at < s.len() && s[at] == ',';
        let body = s.skip(sign_length(s));
        let parts = decimal_parts(s);
        assert(at >= sign_length(s));
        assert(body[at - sign_length(s)] == ',');
        lemma_split_on_keeps(body, '.', ',');
        let k = choose|k: int| 0 <= k < parts.len() && (#[trigger] parts[k]).contains(',');
        let inner = choose|inner: int| 0 <= inner < parts[k].len() && parts[k][inner] == ',';
        if k == 0 {
            assert(is_digit(whole_digits(s)[inner]));
        } else {
            assert(is_digit(fraction_digits(s)[inner]));
        }
    }
}

/// The digits before the point and the padded digits behind it are digits
/// together exactly when both sides are.
proof fn lemma_digits_of_decimal(whole: Seq<char>, fraction: Seq<char>)
    requires
        all_digits(fraction),
    ensures
        all_digits(whole + padded_fraction(fraction)) <==> all_digits(whole),
{
    let padded = padded_fraction(fraction);
    let joined = whole + padded;
    if all_digits(whole) {
        assert forall|i: int| 0 <= i < joined.len() implies is_digit(#[trigger] joined[i]) by {
            if i >= whole.len() {
                let k = i - whole.len();
                if k < fraction.len() {
                    assert(is_digit(fraction[k]));
                }
            } else {
                assert(joined[i] == whole[i]);
            }
        }
    }
    if all_digits(joined) {
        assert forall|i: int| 0 <= i < whole.len() implies is_digit(#[trigger] whole[i]) by {
            assert(joined[i] == whole[i]);
        }
    }
}

} // verus!
