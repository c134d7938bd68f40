//! Player and session identifiers: UUIDs, held as 128-bit values, read from
//! and written as text by the `uuid` crate.
use vstd::prelude::*;
use crate::context_flags::hex_digit_char;
use crate::queries::ApiErrRejection;

verus! {

/// What `uuid::Uuid::parse_str` makes of a text, as a 128-bit value; `None`
/// where it refuses the text.
pub uninterp spec fn uuid_of_text(s: Seq<char>) -> Option<u128>;

/// `16` to the power `e`.
pub open spec fn pow16(e: nat) -> nat
    decreases e,
{
    if e == 0 {
        1
    } else {
        16 * pow16((e - 1) as nat)
    }
}

/// Hexadecimal digit `j` (0 to 31, most significant first) of `u`.
pub open spec fn uuid_nibble(u: u128, j: int) -> nat {
    ((u as nat) / pow16((31 - j) as nat)) % 16
}

/// How many hyphens come before position `i` of a UUID's text.
pub open spec fn hyphens_before(i: int) -> int {
    (if i > 8 { 1int } else { 0 }) + (if i > 13 { 1int } else { 0 }) + (if i > 18 { 1int } else { 0 }) + (if i > 23 {
        1int
    } else {
        0
    })
}

/// The text `uuid::Uuid` displays for a value: its 32 hexadecimal digits,
/// lower case and most significant first, in groups of 8, 4, 4, 4 and 12
/// joined by hyphens.
pub open spec fn uuid_hyphenated(u: u128) -> Seq<char> {
    Seq::new(
        36,
        |i: int|
            if i == 8 || i == 13 || i == 18 || i == 23 {
                '-'
            } else {
                hex_digit_char(uuid_nibble(u, i - hyphens_before(i)))
            },
    )
}

/// `uuid::Uuid::parse_str`, the result taken as a 128-bit value.
#[verifier::external_body]
fn parse_uuid(s: &str) -> (r: Option<u128>)
    ensures
        r == uuid_of_text(s@),
{
    uuid::Uuid::parse_str(s).ok().map(|u| u.as_u128())
}

/// The display text of `uuid::Uuid::from_u128(u)`: `from_u128` takes the
/// value's bytes most significant first, and `Display` writes them as lower
/// case hexadecimal in the hyphenated layout (see `uuid_hyphenated`). The
/// crate documents that `parse_str` reads every format it writes, so the text
/// parses back to `u`.
#[verifier::external_body]
pub(crate) fn uuid_text(u: u128) -> (r: String)
    ensures
        r@ == uuid_hyphenated(u),
        uuid_of_text(r@) == Some(u),
{
    uuid::Uuid::from_u128(u).to_string()
}

/// The reply to a parsed user id: the id, or the "Invalid user id" error.
pub fn user_id_or_reject(parsed: Option<u128>) -> (r: Result<u128, ApiErrRejection>)
    ensures
        match parsed {
            Some(u) => r == Ok::<u128, ApiErrRejection>(u),
            None => r matches Err(e) && e.err@ == "Invalid user id"@,
        },
{
    match parsed {
        Some(u) => Ok(u),
        None => Err(ApiErrRejection::new("Invalid user id")),
    }
}

/// Reads the user id of an API path segment; a segment that is not a UUID
/// is refused with "Invalid user id".
pub fn parse_user_id(user: &str) -> (r: Result<u128, ApiErrRejection>)
    ensures
        match uuid_of_text(user@) {
            Some(u) => r == Ok::<u128, ApiErrRejection>(u),
            None => r matches Err(e) && e.err@ == "Invalid user id"@,
        },
{
    user_id_or_reject(parse_uuid(user))
}

/// The player a request is about: the parsed id, or the requesting player's
/// own when none was given or it did not parse.
pub fn or_own_id(parsed: Option<u128>, own: u128) -> (r: u128)
    ensures
        r == match parsed {
            Some(u) => u,
            None => own,
        },
{
    match parsed {
        Some(u) => u,
        None => own,
    }
}

/// The player a Twitch-name request is about: `wsid` when it is given and
/// is a UUID, else the requesting player.
pub fn twitch_target(wsid: Option<&str>, own: u128) -> (r: u128)
    ensures
        r == match wsid {
            Some(s) => match uuid_of_text(s@) {
                Some(u) => u,
                None => own,
            },
            None => own,
        },
{
    match wsid {
        Some(s) => or_own_id(parse_uuid(s), own),
        None => own,
    }
}

} // verus!
