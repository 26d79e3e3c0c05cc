//! Reading UUIDs from text.
use vstd::prelude::*;

verus! {

/// The value of a hexadecimal digit, either case.
pub open spec fn hex_char(c: char) -> Option<int> {
    if '0' <= c && c <= '9' {
        Some(c as int - '0' as int)
    } else if 'a' <= c && c <= 'f' {
        Some(c as int - 'a' as int + 10)
    } else if 'A' <= c && c <= 'F' {
        Some(c as int - 'A' as int + 10)
    } else {
        None
    }
}

/// Whether every character is a hexadecimal digit.
pub open spec fn all_hex(s: Seq<char>) -> bool {
    forall|i: int| 0 <= i < s.len() ==> (#[trigger] hex_char(s[i])) is Some
}

/// The number that hexadecimal digits spell, high digit first.
pub open spec fn hex_value(s: Seq<char>) -> int
    decreases s.len(),
{
    if s.len() == 0 {
        0
    } else {
        hex_value(s.drop_last()) * 16 + hex_char(s.last())->0
    }
}

/// The 128-bit value of 32 hexadecimal digits.
pub open spec fn simple_uuid(s: Seq<char>) -> Option<u128> {
    if s.len() == 32 && all_hex(s) {
        Some(hex_value(s) as u128)
    } else {
        None
    }
}

/// The value of a hyphenated UUID: 8, 4, 4, 4 and 12 hexadecimal digits with
/// a hyphen between groups.
pub open spec fn hyphenated_uuid(s: Seq<char>) -> Option<u128> {
    if s.len() == 36 && s[8] == '-' && s[13] == '-' && s[18] == '-' && s[23] == '-' {
        simple_uuid(
            s.subrange(0, 8) + s.subrange(9, 13) + s.subrange(14, 18) + s.subrange(19, 23) + s.subrange(
                24,
                36,
            ),
        )
    } else {
        None
    }
}

/// Whether a character is `c`, in either case where it is an ASCII letter.
pub open spec fn same_ignoring_case(a: char, c: char) -> bool {
    a == c || ('a' <= c && c <= 'z' && a as int == c as int - 32)
}

/// Whether the text starts with `urn:uuid:`, in any case.
pub open spec fn urn_prefix(s: Seq<char>) -> bool {
    s.len() >= 9 && forall|i: int| 0 <= i < 9 ==> #[trigger] same_ignoring_case(s[i], "urn:uuid:"@[i])
}

/// What `uuid::Uuid::parse_str` gives for a text, as the UUID's 128-bit value
/// (`Uuid::as_u128`, the 32 digits read high first): the simple form (32
/// digits), the hyphenated one, the hyphenated one in braces, or it after a
/// `urn:uuid:` prefix in any case; `None` for any other text.
pub open spec fn uuid_parse(text: Seq<char>) -> Option<u128> {
    if text.len() == 32 {
        simple_uuid(text)
    } else if text.len() == 36 {
        hyphenated_uuid(text)
    } else if text.len() == 38 && text[0] == '{' && text[37] == '}' {
        hyphenated_uuid(text.subrange(1, 37))
    } else if text.len() == 45 && urn_prefix(text) {
        hyphenated_uuid(text.skip(9))
    } else {
        None
    }
}

/// `uuid::Uuid::parse_str(text)`, the result taken as its 128-bit value. As
/// the crate's parser shows, the forms it reads are those of [`uuid_parse`];
/// every such form is ASCII, so the lengths it tests on bytes are those of
/// the characters.
#[verifier::external_body]
pub(crate) fn parse_uuid(text: &str) -> (r: Option<u128>)
    ensures
        r == uuid_parse(text@),
{
    match uuid::Uuid::parse_str(text) {
        Ok(u) => Some(u.as_u128()),
        Err(_) => None,
    }
}

} // verus!
