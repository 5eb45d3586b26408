//! Numbers written in decimal digits: what a text of digits is worth, and the
//! whole numbers of a manifest.

use vstd::prelude::*;
use vstd::string::StringExecFns;
use crate::text::chars_of;

verus! {

/// Why a text is not the number that was asked for.
#[derive(Clone, Copy, Debug, PartialEq, Eq, Structural)]
pub enum NumberError {
    /// The text is empty.
    Empty,
    /// The text is not written as the number should be: a character that is
    /// no digit, a sign without digits, a second decimal point.
    InvalidDigit,
    /// The text is a decimal with more fractional digits than can be held
    /// exactly.
    TooPrecise,
    /// The text is well written, but its value is too large or too small.
    OutOfRange,
}

/// Whether `c` is one of the digits `0` to `9`.
pub open spec fn is_digit(c: char) -> bool {
    '0' <= c <= '9'
}

/// The value of the digit `c`.
pub open spec fn digit_value(c: char) -> int {
    c as int - '0' as int
}

/// Whether `s` holds digits only.
pub open spec fn all_digits(s: Seq<char>) -> bool {
    forall|i: int| 0 <= i < s.len() ==> is_digit(#[trigger] s[i])
}

/// The value of the digits `s`, read as a number in base ten.
pub open spec fn digits_value(s: Seq<char>) -> int
    decreases s.len(),
{
    if s.len() == 0 {
        0
    } else {
        digits_value(s.drop_last()) * 10 + digit_value(s.last())
    }
}

/// The length of the sign that `s` begins with: 1 for `+` or `-`, else 0.
pub open spec fn sign_length(s: Seq<char>) -> int {
    if s.len() > 0 && (s[0] == '+' || s[0] == '-') {
        1
    } else {
        0
    }
}

/// `magnitude` with the sign that `s` begins with.
pub open spec fn with_sign_of(s: Seq<char>, magnitude: int) -> int {
    if s.len() > 0 && s[0] == '-' {
        -magnitude
    } else {
        magnitude
    }
}

/// Whether `s` is written as a whole number: an optional sign, and one digit
/// or more.
pub open spec fn is_integer_text(s: Seq<char>) -> bool {
    let digits = s.skip(sign_length(s));
    digits.len() > 0 && all_digits(digits)
}

/// The value of a text that is written as a whole number.
pub open spec fn integer_value(s: Seq<char>) -> int {
    with_sign_of(s, digits_value(s.skip(sign_length(s))))
}

/// What reading `s` as a 32-bit whole number gives.
pub open spec fn parsed_i32(s: Seq<char>) -> Result<i32, NumberError> {
    if s.len() == 0 {
        Err(NumberError::Empty)
    } else if !is_integer_text(s) {
        Err(NumberError::InvalidDigit)
    } else if !(i32::MIN <= integer_value(s) <= i32::MAX) {
        Err(NumberError::OutOfRange)
    } else {
        Ok(integer_value(s) as i32)
    }
}

/// The value of digits is not negative, and a further digit never lowers it.
pub proof fn lemma_digits_value_grows(s: Seq<char>)
    requires
        s.len() > 0,
        all_digits(s),
    ensures
        0 <= digits_value(s.drop_last()) <= digits_value(s),
    decreases s.len(),
{
    let shorter = s.drop_last();
    assert forall|i: int| 0 <= i < shorter.len() implies is_digit(#[trigger] shorter[i]) by {
        assert(shorter[i] == s[i]);
    }
    if shorter.len() > 0 {
        lemma_digits_value_grows(shorter);
    }
}

/// A whole number is written without a comma.
pub proof fn lemma_integer_text_has_no_comma(s: Seq<char>)
    requires
        is_integer_text(s),
    ensures
        !s.contains(','),
{
    if s.contains(',') {
        let at = choose|at: int| 0 <= at < s.len() && s[at] == ',';
        let digits = s.skip(sign_length(s));
        if at >= sign_length(s) {
            assert(is_digit(digits[at - sign_length(s)]));
        }
    }
}

/// The largest limit that [`digits_magnitude`] takes.
pub(crate) const MAX_LIMIT: u64 = 1_000_000_000_000_000_000;

/// What a run of characters is worth as digits.
pub(crate) enum Magnitude {
    /// One of the characters is no digit.
    NotDigits,
    /// They are digits, and their value passes the limit.
    TooLarge,
    /// They are digits of this value.
    Value(u64),
}

/// The digit that `c` is, if it is one.
pub(crate) fn digit_of(c: char) -> (digit: Option<u64>)
    ensures
        digit is Some <==> is_digit(c),
        digit matches Some(value) ==> value == digit_value(c),
{
    if '0' <= c && c <= '9' {
        Some((c as u32 - '0' as u32) as u64)
    } else {
        None
    }
}

/// The value of the digits `chars`, as far as it does not pass `limit`.
pub(crate) fn digits_magnitude(chars: &Vec<char>, limit: u64) -> (magnitude: Magnitude)
    requires
        limit <= MAX_LIMIT,
    ensures
        magnitude is NotDigits <==> !all_digits(chars@),
        magnitude is TooLarge <==> all_digits(chars@) && digits_value(chars@) > limit,
        magnitude matches Magnitude::Value(value) ==> value == digits_value(chars@),
{
    let mut value: u64 = 0;
    let mut too_large: bool = false;
    let mut index: usize = 0;
    while index < chars.len()
        invariant
            index <= chars.len(),
            limit <= MAX_LIMIT,
            all_digits(chars@.take(index as int)),
            !too_large ==> value == digits_value(chars@.take(index as int)) && value <= limit,
            too_large ==> digits_value(chars@.take(index as int)) > limit,
        decreases chars.len() - index,
    {
        let ghost upto = chars@.take(index as int + 1);
        assert(upto.drop_last() =~= chars@.take(index as int));
        match digit_of(chars[index]) {
            None => {
                return Magnitude::NotDigits;
            },
            Some(digit) => {
                assert forall|i: int| 0 <= i < upto.len() implies is_digit(#[trigger] upto[i]) by {
                    if i < index {
                        assert(upto[i] == chars@.take(index as int)[i]);
                    }
                }
                proof {
                    lemma_digits_value_grows(upto);
                }
                if !too_large {
                    let next: u64 = value * 10 + digit;
                    if next > limit {
                        too_large = true;
                    } else {
                        value = next;
                    }
                }
            },
        }
        index = index + 1;
    }
    assert(chars@.take(index as int) =~= chars@);
    if too_large {
        Magnitude::TooLarge
    } else {
        Magnitude::Value(value)
    }
}

/// Reads `text` as a 32-bit whole number: an optional sign, and digits.
pub fn parse_i32(text: &str) -> (number: Result<i32, NumberError>)
    ensures
        number == parsed_i32(text@),
{
    let chars = chars_of(text);
    if chars.len() == 0 {
        return Err(NumberError::Empty);
    }
    let negative: bool = chars[0] == '-';
    let signed: bool = negative || chars[0] == '+';
    let mut digits: Vec<char> = Vec::new();
    let mut index: usize = if signed {
        1
    } else {
        0
    };
    let ghost first: int = index as int;
    while index < chars.len()
        invariant
            0 <= first <= index <= chars.len(),
            digits@ == chars@.subrange(first, index as int),
        decreases chars.len() - index,
    {
        digits.push(chars[index]);
        index = index + 1;
    }
    if digits.len() == 0 {
        return Err(NumberError::InvalidDigit);
    }
    match digits_magnitude(&digits, 2_147_483_648) {
        Magnitude::NotDigits => Err(NumberError::InvalidDigit),
        Magnitude::TooLarge => Err(NumberError::OutOfRange),
        Magnitude::Value(value) => {
            if negative {
                Ok((-(value as i64)) as i32)
            } else if value <= 2_147_483_647 {
                Ok(value as i32)
            } else {
                Err(NumberError::OutOfRange)
            }
        },
    }
}

/// The digit `digit`, from 0 to 9, as a text.
pub open spec fn digit_text(digit: int) -> Seq<char> {
    if digit == 0 {
        "0"@
    } else if digit == 1 {
        "1"@
    } else if digit == 2 {
        "2"@
    } else if digit == 3 {
        "3"@
    } else if digit == 4 {
        "4"@
    } else if digit == 5 {
        "5"@
    } else if digit == 6 {
        "6"@
    } else if digit == 7 {
        "7"@
    } else if digit == 8 {
        "8"@
    } else {
        "9"@
    }
}

/// A number that is not negative, in decimal digits without leading zeros.
pub open spec fn natural_text(n: int) -> Seq<char>
    decreases n,
{
    if n < 10 {
        digit_text(n)
    } else {
        natural_text(n / 10) + digit_text(n % 10)
    }
}

/// What is written reads back: the text of a number that is not negative
/// holds digits only, and their value is the number.
pub proof fn lemma_natural_text_reads_back(n: int)
    requires
        n >= 0,
    ensures
        natural_text(n).len() > 0,
        all_digits(natural_text(n)),
        digits_value(natural_text(n)) == n,
    decreases n,
{
    reveal_strlit("0");
    reveal_strlit("1");
    reveal_strlit("2");
    reveal_strlit("3");
    reveal_strlit("4");
    reveal_strlit("5");
    reveal_strlit("6");
    reveal_strlit("7");
    reveal_strlit("8");
    reveal_strlit("9");
    let last = digit_text(n % 10);
    if n < 10 {
        assert(digits_value(last.drop_last()) == 0);
    } else {
        let front = natural_text(n / 10);
        lemma_natural_text_reads_back(n / 10);
        let text = front + last;
        assert(text.drop_last() =~= front);
        assert forall|i: int| 0 <= i < text.len() implies is_digit(#[trigger] text[i]) by {
            if i < front.len() {
                assert(text[i] == front[i]);
            }
        }
    }
}

/// The digit `digit` as a text.
pub(crate) fn digit_str(digit: u64) -> (text: &'static str)
    requires
        digit < 10,
    ensures
        text@ == digit_text(digit as int),
{
    if digit == 0 {
        "0"
    } else if digit == 1 {
        "1"
    } else if digit == 2 {
        "2"
    } else if digit == 3 {
        "3"
    } else if digit == 4 {
        "4"
    } else if digit == 5 {
        "5"
    } else if digit == 6 {
        "6"
    } else if digit == 7 {
        "7"
    } else if digit == 8 {
        "8"
    } else {
        "9"
    }
}

/// Writes `n` in decimal digits behind `text`.
pub(crate) fn append_natural(text: &mut String, n: u64)
    ensures
        final(text)@ == old(text)@ + natural_text(n as int),
    decreases n,
{
    if n < 10 {
        text.append(digit_str(n));
    } else {
        append_natural(text, n / 10);
        text.append(digit_str(n % 10));
    }
}

} // verus!
