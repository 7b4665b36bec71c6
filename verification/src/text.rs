use vstd::prelude::*;
use vstd::utf8::*;

verus! {

/// Reads `bytes` as UTF-8 text with `std::str::from_utf8`.
///
/// Trusted: the call succeeds exactly on valid UTF-8, and the text it hands
/// back is the decoding of the bytes.
#[verifier::external_body]
pub(crate) fn utf8_text<'a>(bytes: &'a [u8]) -> (r: Option<&'a str>)
    ensures
        r.is_some() == valid_utf8(bytes@),
        r matches Some(s) ==> s@ == decode_utf8(bytes@),
{
    std::str::from_utf8(bytes).ok()
}

/// `needle` stands in `text` at index `i`.
pub open spec fn occurs_at(text: Seq<char>, needle: Seq<char>, i: int) -> bool {
    0 <= i && i + needle.len() <= text.len() && text.subrange(i, i + needle.len()) == needle
}

/// `needle` stands somewhere in `text`.
pub open spec fn has_substring(text: Seq<char>, needle: Seq<char>) -> bool {
    exists|i: int| occurs_at(text, needle, i)
}

/// Looks for `needle` in `text` with `str::contains`.
///
/// Trusted: the answer is `true` exactly when the characters of `needle`
/// stand in `text` as one unbroken run.
#[verifier::external_body]
pub(crate) fn contains_text(text: &str, needle: &str) -> (r: bool)
    ensures
        r == has_substring(text@, needle@),
{
    text.contains(needle)
}

/// The character is one of the ten decimal digits.
pub open spec fn is_digit(c: char) -> bool {
    '0' <= c && c <= '9'
}

/// The number that a run of decimal digits writes; zero for the empty run.
pub open spec fn digits_value(digits: Seq<char>) -> int
    decreases digits.len(),
{
    if digits.len() == 0 {
        0
    } else {
        10 * digits_value(digits.drop_last()) + (digits.last() as int - '0' as int)
    }
}

/// Every character of the run is a decimal digit.
pub open spec fn all_digits(digits: Seq<char>) -> bool {
    forall|i: int| 0 <= i < digits.len() ==> is_digit(#[trigger] digits[i])
}

/// The text begins with a sign.
pub open spec fn has_sign(text: Seq<char>) -> bool {
    text.len() > 0 && (text[0] == '+' || text[0] == '-')
}

/// The text without its sign, if it has one.
pub open spec fn unsigned_part(text: Seq<char>) -> Seq<char> {
    if has_sign(text) {
        text.subrange(1, text.len() as int)
    } else {
        text
    }
}

/// The 32-bit integer that `text` writes in base 10: an optional `+` or `-`,
/// then one or more decimal digits and nothing else, the number being in
/// range. `None` for any other text.
pub open spec fn decimal_i32(text: Seq<char>) -> Option<i32> {
    let digits = unsigned_part(text);
    let magnitude = digits_value(digits);
    let value = if has_sign(text) && text[0] == '-' {
        -magnitude
    } else {
        magnitude
    };
    if digits.len() > 0 && all_digits(digits) && i32::MIN <= value <= i32::MAX {
        Some(value as i32)
    } else {
        None
    }
}

/// Reads `text` as a 32-bit integer with `str::parse`.
///
/// Trusted: the call succeeds exactly on an optional sign followed by
/// decimal digits that write a number in range, and returns that number.
#[verifier::external_body]
pub(crate) fn parse_i32(text: &str) -> (r: Option<i32>)
    ensures
        r == decimal_i32(text@),
{
    text.parse::<i32>().ok()
}

} // verus!
