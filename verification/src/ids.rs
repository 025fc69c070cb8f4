//! UUID text conversions, through the `uuid` crate.
use vstd::prelude::*;
use crate::text::lower;

verus! {

/// Lower-case hexadecimal digit of a value below 16.
pub open spec fn hex_digit(d: nat) -> char {
    if d < 10 {
        (('0' as u32) + d) as char
    } else {
        (('a' as u32) + d - 10) as char
    }
}

/// The `n` lower-case hexadecimal digits of `v`, most significant first,
/// zero-padded.
pub open spec fn hex_digits(v: nat, n: nat) -> Seq<char>
    decreases n,
{
    if n == 0 {
        Seq::<char>::empty()
    } else {
        hex_digits(v / 16, (n - 1) as nat).push(hex_digit(v % 16))
    }
}

/// Lower-case hexadecimal text without hyphens of the UUID with this 128-bit
/// value: its 32 digits, most significant first.
pub open spec fn uuid_simple_text(id: u128) -> Seq<char> {
    hex_digits(id as nat, 32)
}

/// Canonical text of the UUID with this 128-bit value: the 32 digits in
/// groups of 8, 4, 4, 4 and 12, joined by hyphens.
pub open spec fn uuid_text(id: u128) -> Seq<char> {
    let h = uuid_simple_text(id);
    h.subrange(0, 8) + seq!['-'] + h.subrange(8, 12) + seq!['-'] + h.subrange(12, 16) + seq!['-']
        + h.subrange(16, 20) + seq!['-'] + h.subrange(20, 32)
}

/// The value of a hexadecimal digit of either case.
pub open spec fn hex_value(c: char) -> Option<nat> {
    if '0' <= c && c <= '9' {
        Some((c as nat - '0' as nat) as nat)
    } else if 'a' <= c && c <= 'f' {
        Some((c as nat - 'a' as nat + 10) as nat)
    } else if 'A' <= c && c <= 'F' {
        Some((c as nat - 'A' as nat + 10) as nat)
    } else {
        None
    }
}

/// The number a run of hexadecimal digits spells, most significant first.
pub open spec fn hex_number(s: Seq<char>) -> Option<nat>
    decreases s.len(),
{
    if s.len() == 0 {
        Some(0)
    } else {
        match (hex_number(s.drop_last()), hex_value(s.last())) {
            (Some(v), Some(d)) => Some(v * 16 + d),
            _ => None,
        }
    }
}

/// The number a hyphenated UUID text spells: 36 characters, hyphens at
/// positions 8, 13, 18 and 23, hexadecimal digits elsewhere.
pub open spec fn hyphenated_value(s: Seq<char>) -> Option<nat> {
    if s.len() == 36 && s[8] == '-' && s[13] == '-' && s[18] == '-' && s[23] == '-' {
        hex_number(
            s.subrange(0, 8) + s.subrange(9, 13) + s.subrange(14, 18) + s.subrange(19, 23) + s.subrange(24, 36),
        )
    } else {
        None
    }
}

/// What `Uuid::parse_str` yields for this text, as a 128-bit value: 32
/// hexadecimal digits; the hyphenated form; the hyphenated form in braces;
/// or the hyphenated form behind `urn:uuid:` (in any ASCII case); digits of
/// either case. Anything else, any non-ASCII text among it, is refused.
pub open spec fn uuid_parse(text: Seq<char>) -> Option<u128> {
    let v = if text.len() == 32 {
        hex_number(text)
    } else if text.len() == 36 {
        hyphenated_value(text)
    } else if text.len() == 38 && text[0] == '{' && text[37] == '}' {
        hyphenated_value(text.subrange(1, 37))
    } else if text.len() == 45 && lower(text.subrange(0, 9)) == "urn:uuid:"@ {
        hyphenated_value(text.subrange(9, 45))
    } else {
        None
    };
    match v {
        Some(n) => Some(n as u128),
        None => None,
    }
}

/// `Uuid::from_u128(id).to_string()`: the hyphenated lower-case text, which
/// `Uuid::parse_str` reads back as the same UUID.
#[verifier::external_body]
pub(crate) fn format_uuid(id: u128) -> (s: String)
    ensures
        s@ == uuid_text(id),
        uuid_parse(s@) == Some(id),
{
    uuid::Uuid::from_u128(id).to_string()
}

/// `Uuid::from_u128(id).simple().to_string()`.
#[verifier::external_body]
pub(crate) fn format_uuid_simple(id: u128) -> (s: String)
    ensures
        s@ == uuid_simple_text(id),
{
    uuid::Uuid::from_u128(id).simple().to_string()
}

/// `Uuid::parse_str`, keeping only the value on success; which spellings it
/// accepts is left to the name `uuid_parse`.
#[verifier::external_body]
pub(crate) fn parse_uuid(text: &str) -> (r: Option<u128>)
    ensures
        r == uuid_parse(text@),
{
    match uuid::Uuid::parse_str(text) {
        Ok(u) => Some(u.as_u128()),
        Err(_) => None,
    }
}

/// `Uuid::new_v4()`, as its 128-bit value: a fresh random identifier, of
/// which nothing is promised.
#[verifier::external_body]
pub(crate) fn random_uuid() -> (r: u128) {
    uuid::Uuid::new_v4().as_u128()
}

} // verus!
