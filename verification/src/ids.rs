//! Identifiers: a UUID is held as its 128-bit number.

use vstd::arithmetic::power::pow;
use vstd::prelude::*;

verus! {

/// A small hexadecimal digit.
pub open spec fn hex_digit(n: int) -> char {
    if n < 10 {
        (48 + n) as char
    } else {
        (87 + n) as char
    }
}

/// The `k`-th hexadecimal digit of a 128-bit number, from the left.
pub open spec fn hex_at(id: u128, k: int) -> char {
    hex_digit((id as int / pow(16, (31 - k) as nat)) % 16)
}

/// The 32 hexadecimal digits of an identifier.
pub open spec fn simple_text(id: u128) -> Seq<char> {
    Seq::new(32, |k: int| hex_at(id, k))
}

/// The digits of an identifier in groups of 8, 4, 4, 4 and 12.
pub open spec fn hyphenated_text(id: u128) -> Seq<char> {
    let digits = simple_text(id);
    digits.subrange(0, 8).push('-') + digits.subrange(8, 12).push('-') + digits.subrange(
        12,
        16,
    ).push('-') + digits.subrange(16, 20).push('-') + digits.subrange(20, 32)
}

/// The grouped form has 36 characters, and none of them is a full stop.
pub proof fn lemma_hyphenated_chars(id: u128)
    ensures
        hyphenated_text(id).len() == 36,
        forall|i: int| 0 <= i < 36 ==> #[trigger] hyphenated_text(id)[i] != '.',
{
    let digits = simple_text(id);
    assert forall|k: int| 0 <= k < 32 implies #[trigger] digits[k] != '.' by {
        let n = (id as int / pow(16, (31 - k) as nat)) % 16;
        assert(0 <= n < 16);
        assert(digits[k] == hex_digit(n));
    }
    assert forall|i: int| 0 <= i < 36 implies #[trigger] hyphenated_text(id)[i] != '.' by {
        let k = if i < 8 {
            i
        } else if i < 13 {
            i - 1
        } else if i < 18 {
            i - 2
        } else if i < 23 {
            i - 3
        } else {
            i - 4
        };
        if i == 8 || i == 13 || i == 18 || i == 23 {
            assert(hyphenated_text(id)[i] == '-');
        } else {
            assert(hyphenated_text(id)[i] == digits[k]);
        }
    }
}

/// What `uuid::Uuid::parse_str` reads from a text; `None` where it rejects the text.
pub uninterp spec fn uuid_value(text: Seq<char>) -> Option<u128>;

/// Reads an identifier with `uuid::Uuid::parse_str` (and `as_u128`). Claimed too: it
/// reads the grouped form of an identifier.
#[verifier::external_body]
fn uuid_parse(text: &str) -> (id: Option<u128>)
    ensures
        id == uuid_value(text@),
        forall|known: u128| text@ == #[trigger] hyphenated_text(known) ==> id == Some(known),
{
    match uuid::Uuid::parse_str(text) {
        Ok(id) => Some(id.as_u128()),
        Err(_) => None,
    }
}

/// Writes an identifier with the `Display` form of `uuid::Uuid` (`from_u128`):
/// small hexadecimal digits in five groups. Claimed too: `parse_str` reads the
/// same identifier back.
#[verifier::external_body]
fn uuid_hyphenated(id: u128) -> (text: String)
    ensures
        text@ == hyphenated_text(id),
        uuid_value(text@) == Some(id),
{
    uuid::Uuid::from_u128(id).to_string()
}

/// Writes an identifier with `uuid::Uuid::simple` (`from_u128`): small
/// hexadecimal digits only. Claimed too: `parse_str` reads the same identifier back.
#[verifier::external_body]
fn uuid_simple(id: u128) -> (text: String)
    ensures
        text@ == simple_text(id),
        uuid_value(text@) == Some(id),
{
    uuid::Uuid::from_u128(id).simple().to_string()
}

/// A random identifier from `uuid::Uuid::new_v4` (and `as_u128`). Claimed: its
/// version is 4 and its variant that of RFC 9562; the other bits are random.
#[verifier::external_body]
fn uuid_random() -> (id: u128)
    ensures
        (id / 0x1000_0000_0000_0000_0000) % 16 == 4,
        (id / 0x4000_0000_0000_0000) % 4 == 2,
{
    uuid::Uuid::new_v4().as_u128()
}

/// Whether a number is a random identifier.
pub open spec fn is_random_id(id: u128) -> bool {
    (id / 0x1000_0000_0000_0000_0000) % 16 == 4 && (id / 0x4000_0000_0000_0000) % 4 == 2
}

/// Reads an identifier from a text.
pub fn parse_uuid(text: &str) -> (id: Option<u128>)
    ensures
        id == uuid_value(text@),
        forall|known: u128| text@ == #[trigger] hyphenated_text(known) ==> id == Some(known),
{
    uuid_parse(text)
}

/// An identifier in groups.
pub fn uuid_text(id: u128) -> (text: String)
    ensures
        text@ == hyphenated_text(id),
        uuid_value(text@) == Some(id),
{
    uuid_hyphenated(id)
}

/// A fresh identifier.
pub fn new_id() -> (id: u128)
    ensures
        is_random_id(id),
{
    uuid_random()
}

/// The identity under which a participant is known to the media server: `p_`
/// and the digits of the identifier.
pub open spec fn identity_text(id: u128) -> Seq<char> {
    "p_"@ + simple_text(id)
}

/// The identity of a participant on the media server.
pub fn livekit_identity(id: u128) -> (identity: String)
    ensures
        identity@ == identity_text(id),
        identity_participant(identity@) == Some(id),
{
    let mut identity = "p_".to_owned();
    let digits = uuid_simple(id);
    identity.append(digits.as_str());
    proof {
        reveal_strlit("p_");
        assert(identity@.take(2) =~= "p_"@);
        assert(identity@.skip(2) =~= digits@);
    }
    identity
}

/// The participant behind an identity: what follows `p_`, read as an identifier.
pub open spec fn identity_participant(identity: Seq<char>) -> Option<u128> {
    match crate::text::after_prefix(identity, "p_"@) {
        Some(rest) => uuid_value(rest),
        None => None,
    }
}

/// The participant behind an identity.
pub fn participant_of_identity(identity: &str) -> (id: Option<u128>)
    ensures
        id == identity_participant(identity@),
{
    match crate::text::strip_prefix(identity, "p_") {
        Some(rest) => parse_uuid(rest),
        None => None,
    }
}

/// An identity is that of whoever the text behind `p_` is the identifier of; one that does not
/// start so is nobody's.
pub proof fn law_identities(identity: Seq<char>, rest: Seq<char>, id: u128)
    ensures
        identity == "p_"@ + rest ==> identity_participant(identity) == uuid_value(rest),
        (forall|tail: Seq<char>| identity != #[trigger] ("p_"@ + tail)) ==> identity_participant(
            identity,
        ) is None,
        identity_text(id) == "p_"@ + simple_text(id),
{
    crate::text::law_prefix_and_rest_are_the_text(identity, "p_"@, rest);
    if let Some(tail) = crate::text::after_prefix(identity, "p_"@) {
        crate::text::law_prefix_and_rest_are_the_text(identity, "p_"@, tail);
        assert(identity == "p_"@ + tail);
    }
}

} // verus!
