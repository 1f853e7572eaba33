//! Mail identifiers: the 128 bits of a UUID.

use vstd::prelude::*;

verus! {

use vstd::arithmetic::power::pow;

/// Identifier of a queued mail.
pub type MailId = u128;

/// The lower-case hexadecimal digit of `n`.
pub open spec fn hex_digit(n: int) -> char {
    if n < 10 {
        (0x30 + n) as char
    } else {
        (0x57 + n) as char
    }
}

/// The positions of the hyphens in the text of an identifier.
pub open spec fn is_hyphen(i: int) -> bool {
    i == 8 || i == 13 || i == 18 || i == 23
}

/// The number of hyphens before position `i` in the text of an identifier.
pub open spec fn hyphens_before(i: int) -> int {
    (if i > 8 { 1int } else { 0 }) + (if i > 13 { 1int } else { 0 }) + (if i > 18 { 1int } else { 0 })
        + (if i > 23 { 1int } else { 0 })
}

/// The text of an identifier: its hexadecimal digits, the most significant first, in groups of
/// 8, 4, 4, 4 and 12 that hyphens separate.
pub open spec fn id_text(id: MailId) -> Seq<char> {
    Seq::new(
        36,
        |i: int|
            if is_hyphen(i) {
                '-'
            } else {
                hex_digit((id as int / pow(16, (31 - (i - hyphens_before(i))) as nat)) % 16)
            },
    )
}

/// The identifier that a text stands for, or what is wrong with it.
pub uninterp spec fn id_parsed(raw: Seq<char>) -> Result<u128, Seq<char>>;

/// `raw` stands for the identifier `id`.
pub open spec fn reads_as_id(raw: Seq<char>, id: MailId) -> bool {
    id_parsed(raw) matches Ok(parsed) && parsed == id
}

/// Trusted: the `Display` impl of `uuid::Uuid` writes the digits in hyphenated groups, and
/// `uuid::Uuid::parse_str` reads the same identifier back.
#[verifier::external_body]
pub(crate) fn write_id(id: MailId) -> (text: String)
    ensures
        text@ == id_text(id),
        reads_as_id(text@, id),
{
    uuid::Uuid::from_u128(id).to_string()
}

/// Trusted: `uuid::Uuid::parse_str` reads an identifier from text; its error is handed on as
/// text.
#[verifier::external_body]
pub(crate) fn parse_id(raw: &str) -> (id: Result<MailId, String>)
    ensures
        match id {
            Ok(id) => reads_as_id(raw@, id),
            Err(e) => id_parsed(raw@) matches Err(detail) && detail == e@,
        },
{
    match uuid::Uuid::parse_str(raw) {
        Ok(id) => Ok(id.as_u128()),
        Err(e) => Err(e.to_string()),
    }
}

/// Trusted: `uuid::Uuid::new_v4` draws an identifier at random, with the version and the
/// variant of a random UUID.
#[verifier::external_body]
pub(crate) fn fresh_id() -> (id: MailId)
    ensures
        (id >> 76) & 0xf == 4,
        (id >> 62) & 0x3 == 2,
{
    uuid::Uuid::new_v4().as_u128()
}

} // verus!
