//! JSON web tokens over claims that are given as JSON text.

use vstd::prelude::*;

use crate::claims::{field_in, fields_in};
use crate::json::{json_object, json_string, nested, plain_value, Found, Member};
use crate::text::decimal_text;

verus! {

/// Whether members have different names.
pub open spec fn distinct_names(members: Seq<Member>) -> bool {
    forall|i: int, j: int|
        0 <= i < j < members.len() ==> (#[trigger] members[i]).0 != (#[trigger] members[j]).0
}

/// Whether members are claims of an issuer with an expiry and without an audience. What
/// else `jsonwebtoken` looks at is plain.
pub open spec fn claims_of(members: Seq<Member>, issuer: Seq<char>) -> bool {
    &&& nested(members)
    &&& distinct_names(members)
    &&& members.contains(("iss"@, json_string(issuer)))
    &&& exists|n: u64| members.contains(("exp"@, #[trigger] decimal_text(n as nat)))
    &&& forall|i: int| 0 <= i < members.len() ==> (#[trigger] members[i]).0 != "aud"@
    &&& forall|i: int|
        0 <= i < members.len() && ((#[trigger] members[i]).0 == "sub"@ || members[i].0 == "nbf"@)
            ==> plain_value(members[i].1)
}

/// What `jsonwebtoken::encode` writes for claims under a secret, with HS256; `None` where
/// the claims are not JSON.
pub uninterp spec fn jwt_text(claims: Seq<char>, secret: Seq<char>) -> Option<Seq<char>>;

/// The claims that `jsonwebtoken::decode` reads from a token under a secret, with HS256,
/// for an issuer, while the token has not expired; `None` where it is refused at any time.
pub uninterp spec fn jwt_claims(token: Seq<char>, secret: Seq<char>, issuer: Seq<char>) -> Option<
    Seq<char>,
>;

/// Whether claims never expire: their expiry is the greatest 64-bit number, which no clock
/// passes. Claims that are written as an object say so by a member.
pub open spec fn never_expires(claims: Seq<char>) -> bool {
    ||| fields_in(claims) matches Some(fields) && field_in(fields, "exp"@) == Found::Whole(u64::MAX)
    ||| exists|members: Seq<Member>|
        {
            &&& claims == #[trigger] json_object(members)
            &&& nested(members)
            &&& distinct_names(members)
            &&& members.contains(("exp"@, decimal_text(u64::MAX as nat)))
        }
}

/// Signs claims with `jsonwebtoken::encode`, which takes the JSON text as it stands
/// (`serde_json::value::RawValue`). Claimed too: claims of an issuer with an expiry and
/// without an audience, whose `sub` and `nbf` are plain, are signed, and
/// `jsonwebtoken::decode` reads them back for that issuer.
#[verifier::external_body]
fn jsonwebtoken_encode(claims: &str, secret: &str) -> (token: Option<String>)
    ensures
        token is Some <==> jwt_text(claims@, secret@) is Some,
        token is Some ==> jwt_text(claims@, secret@) == Some(token->0@),
        forall|members: Seq<Member>, issuer: Seq<char>|
            claims@ == #[trigger] json_object(members) && #[trigger] claims_of(members, issuer)
                ==> token is Some && jwt_claims(token->0@, secret@, issuer) == Some(claims@),
{
    let claims = serde_json::value::RawValue::from_string(claims.to_owned()).ok()?;
    let key = jsonwebtoken::EncodingKey::from_secret(secret.as_bytes());
    jsonwebtoken::encode(&jsonwebtoken::Header::default(), &claims, &key).ok()
}

/// Reads the claims of a token with `jsonwebtoken::decode`, as JSON text. Claimed: what it
/// reads are the token's claims, and it reads them where they never expire. Whether any
/// other token has expired is for the clock to say, so of those it is not claimed that
/// their claims are read.
#[verifier::external_body]
fn jsonwebtoken_decode(token: &str, secret: &str, issuer: &str) -> (claims: Option<String>)
    ensures
        claims is Some ==> jwt_claims(token@, secret@, issuer@) == Some(claims->0@),
        jwt_claims(token@, secret@, issuer@) is Some && never_expires(
            jwt_claims(token@, secret@, issuer@)->0,
        ) ==> claims is Some,
{
    let mut validation = jsonwebtoken::Validation::new(jsonwebtoken::Algorithm::HS256);
    validation.set_issuer(&[issuer]);
    let key = jsonwebtoken::DecodingKey::from_secret(secret.as_bytes());
    match jsonwebtoken::decode::<Box<serde_json::value::RawValue>>(token, &key, &validation) {
        Ok(data) => Some(data.claims.get().to_owned()),
        Err(_) => None,
    }
}

/// Signs claims.
pub fn encode(claims: &str, secret: &str) -> (token: Option<String>)
    ensures
        match token {
            Some(t) => jwt_text(claims@, secret@) == Some(t@),
            None => jwt_text(claims@, secret@) is None,
        },
        forall|members: Seq<Member>, issuer: Seq<char>|
            claims@ == #[trigger] json_object(members) && #[trigger] claims_of(members, issuer)
                ==> token is Some && jwt_claims(token->0@, secret@, issuer) == Some(claims@),
{
    jsonwebtoken_encode(claims, secret)
}

/// Reads the claims of a token that has not expired. Claims that never expire are always
/// read.
pub fn decode(token: &str, secret: &str, issuer: &str) -> (claims: Option<String>)
    ensures
        claims is Some ==> jwt_claims(token@, secret@, issuer@) == Some(claims->0@),
        jwt_claims(token@, secret@, issuer@) is Some && never_expires(
            jwt_claims(token@, secret@, issuer@)->0,
        ) ==> claims is Some,
{
    jsonwebtoken_decode(token, secret, issuer)
}

} // verus!
