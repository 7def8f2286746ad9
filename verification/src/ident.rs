//! 128-bit identifiers and their text forms.

use vstd::prelude::*;

verus! {

/// The 128-bit identifier that a text denotes: hexadecimal digits with
/// optional hyphens, in any of the usual UUID spellings; `None` for any
/// other text.
pub uninterp spec fn uuid_value(text: Seq<char>) -> Option<u128>;

/// The canonical text of an identifier: lower-case hexadecimal digits in
/// five hyphenated groups.
pub uninterp spec fn uuid_canonical(value: u128) -> Seq<char>;

/// Trusted: `uuid::Uuid::parse_str`, which reads an identifier in the simple,
/// hyphenated, URN or braced spelling and fails on any other text. The
/// identifier is handed on as the number `as_u128()` gives.
#[verifier::external_body]
pub(crate) fn read_uuid(text: &str) -> (r: Option<u128>)
    ensures
        r == uuid_value(text@),
{
    match uuid::Uuid::parse_str(text) {
        Ok(u) => Some(u.as_u128()),
        Err(_) => None,
    }
}

/// Trusted: `uuid::Uuid::from_u128` and the `Display` of `uuid::Uuid`, which
/// writes the identifier hyphenated in lower case.
#[verifier::external_body]
pub(crate) fn write_uuid(value: u128) -> (r: String)
    ensures
        r@ == uuid_canonical(value),
{
    uuid::Uuid::from_u128(value).to_string()
}

} // verus!
