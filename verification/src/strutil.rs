//! Trusted boundary to std's string operations that vstd leaves unspecified.

use vstd::prelude::*;

verus! {

/// The Unicode lowercase form of a character sequence (a function of the
/// characters alone).
pub uninterp spec fn lower_of(s: Seq<char>) -> Seq<char>;

/// Is this character lowercase in the Unicode sense?
pub uninterp spec fn char_is_lowercase(c: char) -> bool;

/// Is this character uppercase in the Unicode sense?
pub uninterp spec fn char_is_uppercase(c: char) -> bool;

/// Is this character numeric in the Unicode sense?
pub uninterp spec fn char_is_numeric(c: char) -> bool;

/// Relies on `String::from_utf8_lossy`: ASCII bytes decode to exactly those
/// characters, and the bytes are the UTF-8 encoding of the result.
#[verifier::external_body]
pub fn ascii_to_string(b: &Vec<u8>) -> (r: String)
    requires
        forall|i: int| 0 <= i < b@.len() ==> b@[i] < 128,
    ensures
        r@ == b@.map_values(|x: u8| x as char),
        vstd::utf8::encode_utf8(r@) == b@,
{
    String::from_utf8_lossy(b).into_owned()
}

/// Relies on `str`'s `PartialEq`: equality of the character sequences.
#[verifier::external_body]
pub fn str_eq(a: &str, b: &str) -> (r: bool)
    ensures
        r == (a@ == b@),
{
    a == b
}

/// Relies on `str::chars`: the characters of the string, in order.
#[verifier::external_body]
pub fn str_chars(s: &str) -> (r: Vec<char>)
    ensures
        r@ == s@,
{
    s.chars().collect()
}

/// Relies on `String::from_iter` over `char`: a string of exactly those
/// characters.
#[verifier::external_body]
pub fn chars_to_string(v: &Vec<char>) -> (r: String)
    ensures
        r@ == v@,
{
    v.iter().collect()
}

/// Relies on `str::to_lowercase`: the result is a function of the
/// characters alone; an empty string stays empty.
#[verifier::external_body]
pub fn str_lowercase(s: &str) -> (r: String)
    ensures
        r@ == lower_of(s@),
        s@.len() == 0 ==> r@.len() == 0,
{
    s.to_lowercase()
}

/// Relies on `char::is_lowercase`: a property of the character alone.
#[verifier::external_body]
pub fn is_lowercase_char(c: char) -> (r: bool)
    ensures
        r == char_is_lowercase(c),
{
    c.is_lowercase()
}

/// Relies on `char::is_uppercase`: a property of the character alone.
#[verifier::external_body]
pub fn is_uppercase_char(c: char) -> (r: bool)
    ensures
        r == char_is_uppercase(c),
{
    c.is_uppercase()
}

/// Relies on `char::is_numeric`: a property of the character alone.
#[verifier::external_body]
pub fn is_numeric_char(c: char) -> (r: bool)
    ensures
        r == char_is_numeric(c),
{
    c.is_numeric()
}

} // verus!
