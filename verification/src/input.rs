//! Reading the sizing parameter: a positive decimal number, given as a
//! command-line argument or typed on a line of its own.

use vstd::prelude::*;
use vstd::utf8::encode_utf8;

verus! {

/// Why a text is not a sizing parameter.
#[derive(Clone, Copy, Debug, PartialEq, Eq)]
pub enum InputError {
    /// There is no text at all.
    Empty,
    /// The text is not an optional `+` followed by decimal digits.
    Malformed,
    /// The number does not fit the machine's word.
    TooLarge,
    /// The number is zero, and a size must be positive.
    NotPositive,
}

/// Whether `byte` is an ASCII decimal digit.
pub open spec fn is_digit(byte: u8) -> bool {
    0x30 <= byte <= 0x39
}

/// Whether every byte is an ASCII decimal digit.
pub open spec fn all_digits(bytes: Seq<u8>) -> bool {
    forall|i: int| 0 <= i < bytes.len() ==> is_digit(#[trigger] bytes[i])
}

/// The number that a sequence of decimal digits denotes.
pub open spec fn digits_value(digits: Seq<u8>) -> nat
    decreases digits.len(),
{
    if digits.len() == 0 {
        0
    } else {
        10 * digits_value(digits.drop_last()) + (digits.last() - 0x30) as nat
    }
}

/// The text without its leading `+`, if it has one.
pub open spec fn unsigned_part(text: Seq<u8>) -> Seq<u8> {
    if text.len() > 0 && text[0] == 0x2B {
        text.drop_first()
    } else {
        text
    }
}

/// What a text, given by its bytes, stands for as a sizing parameter.
pub open spec fn parse_outcome(text: Seq<u8>) -> Result<usize, InputError> {
    let digits = unsigned_part(text);
    if text.len() == 0 {
        Err(InputError::Empty)
    } else if digits.len() == 0 || !all_digits(digits) {
        Err(InputError::Malformed)
    } else if digits_value(digits) > usize::MAX {
        Err(InputError::TooLarge)
    } else if digits_value(digits) == 0 {
        Err(InputError::NotPositive)
    } else {
        Ok(digits_value(digits) as usize)
    }
}

/// Whether `c` is white space in the sense of Unicode's `White_Space`
/// property.
pub open spec fn is_white_space(c: char) -> bool {
    let code = c as u32;
    ||| 0x09 <= code <= 0x0D
    ||| code == 0x20
    ||| code == 0x85
    ||| code == 0xA0
    ||| code == 0x1680
    ||| 0x2000 <= code <= 0x200A
    ||| code == 0x2028
    ||| code == 0x2029
    ||| code == 0x202F
    ||| code == 0x205F
    ||| code == 0x3000
}

/// The text without its leading white space.
pub open spec fn trim_start_spec(text: Seq<char>) -> Seq<char>
    decreases text.len(),
{
    if text.len() > 0 && is_white_space(text[0]) {
        trim_start_spec(text.drop_first())
    } else {
        text
    }
}

/// The text without its trailing white space.
pub open spec fn trim_end_spec(text: Seq<char>) -> Seq<char>
    decreases text.len(),
{
    if text.len() > 0 && is_white_space(text.last()) {
        trim_end_spec(text.drop_last())
    } else {
        text
    }
}

/// The text without leading and trailing white space.
pub open spec fn trim_spec(text: Seq<char>) -> Seq<char> {
    trim_end_spec(trim_start_spec(text))
}

/// What a typed line stands for: white space around it does not count, and
/// a line with nothing else on it stands for the default, if there is one.
pub open spec fn line_outcome(line: Seq<char>, default: Option<usize>) -> Result<
    usize,
    InputError,
> {
    let text = trim_spec(line);
    if text.len() == 0 {
        match default {
            Some(size) => Ok(size),
            None => Err(InputError::Empty),
        }
    } else {
        parse_outcome(encode_utf8(text))
    }
}

/// Calls `str::trim`, which returns the slice without leading and trailing
/// white space, white space being what Unicode's `White_Space` property says.
#[verifier::external_body]
fn trimmed(text: &str) -> (inner: &str)
    ensures
        inner@ == trim_spec(text@),
{
    text.trim()
}

/// A longer digit sequence denotes no smaller number than its beginning.
proof fn lemma_value_grows(digits: Seq<u8>, shorter: int)
    requires
        0 <= shorter <= digits.len(),
    ensures
        digits_value(digits.take(shorter)) <= digits_value(digits),
    decreases digits.len() - shorter,
{
    if shorter == digits.len() {
        assert(digits.take(shorter) =~= digits);
    } else {
        lemma_value_grows(digits.drop_last(), shorter);
        assert(digits.drop_last().take(shorter) =~= digits.take(shorter));
    }
}

/// Reads a sizing parameter from the bytes of a text: an optional `+`, then
/// decimal digits that denote a positive number which fits the machine's
/// word.
pub fn parse_decimal(text: &[u8]) -> (result: Result<usize, InputError>)
    ensures
        result == parse_outcome(text@),
{
    let len: usize = text.len();
    if len == 0 {
        return Err(InputError::Empty);
    }
    let first: usize = if text[0] == 0x2Bu8 {
        1
    } else {
        0
    };
    let ghost digits = unsigned_part(text@);
    assert(digits =~= text@.skip(first as int));
    if first == len {
        return Err(InputError::Malformed);
    }
    let mut i: usize = first;
    while i < len
        invariant
            first <= i <= len,
            first < len == text@.len(),
            digits == unsigned_part(text@),
            digits == text@.skip(first as int),
            forall|k: int| 0 <= k < i - first ==> is_digit(#[trigger] digits[k]),
        decreases len - i,
    {
        let byte: u8 = text[i];
        if byte < 0x30u8 || byte > 0x39u8 {
            assert(!is_digit(digits[i - first]));
            return Err(InputError::Malformed);
        }
        i += 1;
    }
    assert(all_digits(digits));
    let mut value: usize = 0;
    i = first;
    assert(digits.take(0) =~= Seq::<u8>::empty());
    while i < len
        invariant
            first <= i <= len,
            first < len == text@.len(),
            digits == unsigned_part(text@),
            digits == text@.skip(first as int),
            all_digits(digits),
            value == digits_value(digits.take(i - first)),
        decreases len - i,
    {
        let byte: u8 = text[i];
        assert(is_digit(digits[i - first]));
        let digit: usize = (byte - 0x30u8) as usize;
        proof {
            let upto = digits.take(i - first + 1);
            assert(upto.drop_last() =~= digits.take(i - first));
            assert(upto.last() == byte);
            lemma_value_grows(digits, i - first + 1);
        }
        match value.checked_mul(10) {
            None => {
                return Err(InputError::TooLarge);
            },
            Some(shifted) => match shifted.checked_add(digit) {
                None => {
                    return Err(InputError::TooLarge);
                },
                Some(next) => {
                    value = next;
                },
            },
        }
        i += 1;
    }
    assert(digits.take(i - first) =~= digits);
    if value == 0 {
        Err(InputError::NotPositive)
    } else {
        Ok(value)
    }
}

/// Reads a sizing parameter from a command-line argument, taken as it is.
pub fn parse_size(argument: &str) -> (result: Result<usize, InputError>)
    ensures
        result == parse_outcome(encode_utf8(argument@)),
{
    parse_decimal(argument.as_bytes())
}

/// Reads a sizing parameter from a typed line. White space around the number
/// is dropped first; a line that holds nothing else gives the default, or is
/// an error where there is none.
pub fn size_from_line(line: &str, default: Option<usize>) -> (result: Result<usize, InputError>)
    ensures
        result == line_outcome(line@, default),
{
    let text = trimmed(line);
    if text.is_empty() {
        match default {
            Some(size) => Ok(size),
            None => Err(InputError::Empty),
        }
    } else {
        parse_decimal(text.as_bytes())
    }
}

} // verus!
