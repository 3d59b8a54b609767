//! Digests, signatures, secrets and random text.

use vstd::prelude::*;
use vstd::utf8::encode_utf8;

verus! {

/// What `sha2::Sha256::digest` gives for some bytes.
pub uninterp spec fn sha256(bytes: Seq<u8>) -> Seq<u8>;

/// The SHA-256 digest of some bytes, from `sha2::Sha256::digest`; it has 32 bytes.
#[verifier::external_body]
fn sha2_digest(bytes: &[u8]) -> (digest: Vec<u8>)
    ensures
        digest@ == sha256(bytes@),
        digest@.len() == 32,
{
    <sha2::Sha256 as sha2::Digest>::digest(bytes).to_vec()
}

/// What `hmac::Hmac` over `sha2::Sha256` gives for a key and a message.
pub uninterp spec fn hmac_sha256(key: Seq<u8>, message: Seq<u8>) -> Seq<u8>;

/// The HMAC-SHA-256 of a message, from `hmac::Hmac`, which takes keys of every length;
/// it has 32 bytes.
#[verifier::external_body]
fn hmac_tag(key: &[u8], message: &[u8]) -> (tag: Vec<u8>)
    ensures
        tag@ == hmac_sha256(key@, message@),
        tag@.len() == 32,
{
    match <hmac::Hmac<sha2::Sha256> as hmac::Mac>::new_from_slice(key) {
        Ok(mac) => {
            let mac = hmac::Mac::chain_update(mac, message);
            hmac::Mac::finalize(mac).into_bytes().to_vec()
        },
        Err(_) => Vec::new(),
    }
}

/// What the `URL_SAFE_NO_PAD` engine of `base64` writes for some bytes.
pub uninterp spec fn base64url_text(bytes: Seq<u8>) -> Seq<char>;

/// Writes bytes with the `URL_SAFE_NO_PAD` engine of `base64`. Claimed too: the same
/// engine reads them back.
#[verifier::external_body]
fn base64url_encode(bytes: &[u8]) -> (text: String)
    ensures
        text@ == base64url_text(bytes@),
        base64url_bytes(text@) == Some(bytes@),
{
    base64::Engine::encode(&base64::engine::general_purpose::URL_SAFE_NO_PAD, bytes)
}

/// What the `URL_SAFE_NO_PAD` engine of `base64` reads from a text.
pub uninterp spec fn base64url_bytes(text: Seq<char>) -> Option<Seq<u8>>;

/// Reads bytes with the `URL_SAFE_NO_PAD` engine of `base64`.
#[verifier::external_body]
fn base64url_decode(text: &str) -> (bytes: Option<Vec<u8>>)
    ensures
        bytes is Some <==> base64url_bytes(text@) is Some,
        bytes is Some ==> base64url_bytes(text@) == Some(bytes->0@),
{
    base64::Engine::decode(&base64::engine::general_purpose::URL_SAFE_NO_PAD, text).ok()
}

/// What the `STANDARD` engine of `base64` reads from a text.
pub uninterp spec fn base64_bytes(text: Seq<char>) -> Option<Seq<u8>>;

/// Reads bytes with the `STANDARD` engine of `base64`.
#[verifier::external_body]
fn base64_decode(text: &str) -> (bytes: Option<Vec<u8>>)
    ensures
        bytes is Some <==> base64_bytes(text@) is Some,
        bytes is Some ==> base64_bytes(text@) == Some(bytes->0@),
{
    base64::Engine::decode(&base64::engine::general_purpose::STANDARD, text).ok()
}

/// What `argon2::Argon2` (with its default parameters) writes for a secret and a salt;
/// `None` where it refuses one of them.
pub uninterp spec fn argon2_text(secret: Seq<char>, salt: Seq<char>) -> Option<Seq<char>>;

/// Hashes a secret with `argon2::Argon2::hash_password` under its default parameters; the
/// salt is given in its text form. Claimed too: the hash accepts the secret.
#[verifier::external_body]
fn argon2_hash(secret: &str, salt: &str) -> (hash: Option<String>)
    ensures
        hash is Some <==> argon2_text(secret@, salt@) is Some,
        hash is Some ==> argon2_text(secret@, salt@) == Some(hash->0@) && argon2_accepts(
            hash->0@,
            secret@,
        ),
{
    let salt = argon2::password_hash::SaltString::from_b64(salt).ok()?;
    let hasher = argon2::Argon2::default();
    let hash = argon2::password_hash::PasswordHasher::hash_password(
        &hasher,
        secret.as_bytes(),
        &salt,
    ).ok()?;
    Some(hash.to_string())
}

/// Whether `argon2::Argon2::verify_password` accepts a secret for a hash.
pub uninterp spec fn argon2_accepts(hash: Seq<char>, secret: Seq<char>) -> bool;

/// Holds a secret against a hash with `argon2::password_hash::PasswordHash::new` and
/// `argon2::Argon2::verify_password`.
#[verifier::external_body]
fn argon2_verify(secret: &str, hash: &str) -> (accepted: bool)
    ensures
        accepted == argon2_accepts(hash@, secret@),
{
    match argon2::password_hash::PasswordHash::new(hash) {
        Ok(parsed) => argon2::password_hash::PasswordVerifier::verify_password(
            &argon2::Argon2::default(),
            secret.as_bytes(),
            &parsed,
        ).is_ok(),
        Err(_) => false,
    }
}

/// Whether every secret can be hashed under a salt: those of up to `u32::MAX` bytes, which
/// is what Argon2 takes.
pub open spec fn good_salt(salt: Seq<char>) -> bool {
    forall|secret: Seq<char>|
        encode_utf8(secret).len() <= u32::MAX ==> (#[trigger] argon2_text(secret, salt)) is Some
}

/// A random salt in its text form, from `argon2::password_hash::SaltString::generate`
/// and `rand::thread_rng`. Claimed: it has 22 characters, and
/// `argon2::Argon2::hash_password` takes it with every secret that is not too long.
#[verifier::external_body]
fn argon2_salt() -> (salt: String)
    ensures
        salt@.len() == 22,
        good_salt(salt@),
{
    argon2::password_hash::SaltString::generate(&mut rand::thread_rng()).as_str().to_owned()
}

/// Random ASCII letters and digits, from `rand::distributions::Alphanumeric` and
/// `rand::thread_rng`, as many as asked for.
#[verifier::external_body]
fn rand_alphanumeric(length: usize) -> (text: String)
    ensures
        text@.len() == length,
        forall|i: int|
            0 <= i < length ==> crate::text::ascii_alphanumeric(#[trigger] text@[i]),
{
    rand::Rng::sample_iter(rand::thread_rng(), &rand::distributions::Alphanumeric).take(
        length,
    ).map(char::from).collect()
}

/// Whether two byte strings are equal.
pub fn same_bytes(a: &Vec<u8>, b: &Vec<u8>) -> (same: bool)
    ensures
        same == (a@ == b@),
{
    if a.len() != b.len() {
        return false;
    }
    let count: usize = a.len();
    let mut i: usize = 0;
    while i < count
        invariant
            count == a@.len(),
            count == b@.len(),
            i <= count,
            forall|j: int| 0 <= j < i ==> a@[j] == b@[j],
        decreases count - i,
    {
        if a[i] != b[i] {
            return false;
        }
        i += 1;
    }
    assert(a@ =~= b@);
    true
}

/// The SHA-256 digest of a text.
pub fn text_digest(text: &str) -> (digest: Vec<u8>)
    ensures
        digest@ == sha256(encode_utf8(text@)),
{
    sha2_digest(text.as_bytes())
}

/// Whether a password is the expected one: their digests are equal.
pub open spec fn password_matches(password: Seq<char>, expected: Seq<char>) -> bool {
    sha256(encode_utf8(password)) == sha256(encode_utf8(expected))
}

/// Holds a password against the expected one.
pub fn check_password(password: &str, expected: &str) -> (matches: bool)
    ensures
        matches == password_matches(password@, expected@),
        password@ == expected@ ==> matches,
{
    let given = text_digest(password);
    let wanted = text_digest(expected);
    same_bytes(&given, &wanted)
}

/// The signature of a message: its HMAC in URL-safe base64.
pub open spec fn signature(secret: Seq<char>, message: Seq<char>) -> Seq<char> {
    base64url_text(hmac_sha256(encode_utf8(secret), encode_utf8(message)))
}

/// Signs a message.
pub fn sign(secret: &str, message: &str) -> (signed: String)
    ensures
        signed@ == signature(secret@, message@),
{
    let tag = hmac_tag(secret.as_bytes(), message.as_bytes());
    base64url_encode(tag.as_slice())
}

/// What base64 in either alphabet stands for: the standard one first.
pub open spec fn either_base64(text: Seq<char>) -> Option<Seq<u8>> {
    match base64_bytes(text) {
        Some(bytes) => Some(bytes),
        None => base64url_bytes(text),
    }
}

/// Reads base64 in either alphabet.
pub fn decode_either_base64(text: &str) -> (bytes: Option<Vec<u8>>)
    ensures
        match bytes {
            Some(b) => either_base64(text@) == Some(b@),
            None => either_base64(text@) is None,
        },
{
    match base64_decode(text) {
        Some(bytes) => Some(bytes),
        None => base64url_decode(text),
    }
}

/// Random letters and digits.
pub fn random_token(length: usize) -> (token: String)
    ensures
        token@.len() == length,
        forall|i: int|
            0 <= i < length ==> crate::text::ascii_alphanumeric(#[trigger] token@[i]),
{
    rand_alphanumeric(length)
}

/// A random salt.
pub fn random_salt() -> (salt: String)
    ensures
        salt@.len() == 22,
        good_salt(salt@),
{
    argon2_salt()
}

/// Hashes a secret under a salt.
pub fn hash_with_salt(secret: &str, salt: &str) -> (hash: Option<String>)
    ensures
        match hash {
            Some(h) => argon2_text(secret@, salt@) == Some(h@) && argon2_accepts(h@, secret@),
            None => argon2_text(secret@, salt@) is None,
        },
{
    argon2_hash(secret, salt)
}

/// Hashes a secret under a random salt. The hash accepts the secret.
pub fn hash_secret(secret: &str) -> (hash: Option<String>)
    ensures
        match hash {
            Some(h) => argon2_accepts(h@, secret@) && exists|salt: Seq<char>|
                salt.len() == 22 && #[trigger] argon2_text(secret@, salt) == Some(h@),
            None => encode_utf8(secret@).len() > u32::MAX,
        },
{
    let salt = random_salt();
    hash_with_salt(secret, salt.as_str())
}

/// Holds a secret against a hash.
pub fn verify_secret(secret: &str, hash: &str) -> (accepted: bool)
    ensures
        accepted == argon2_accepts(hash@, secret@),
{
    argon2_verify(secret, hash)
}

/// The right password is always accepted, and one is accepted for another exactly where their
/// digests are the same.
pub proof fn law_right_password_is_accepted(password: Seq<char>, other: Seq<char>)
    ensures
        password_matches(password, password),
        password_matches(password, other) == password_matches(other, password),
        password_matches(password, other) <==> sha256(encode_utf8(password)) == sha256(
            encode_utf8(other),
        ),
{
}

/// Base64 is read in the standard alphabet, and where that fails in the one for addresses.
pub proof fn law_both_alphabets_are_read(text: Seq<char>)
    ensures
        base64_bytes(text) is Some ==> either_base64(text) == base64_bytes(text),
        base64_bytes(text) is None ==> either_base64(text) == base64url_bytes(text),
{
}

/// A signature is the HMAC of the message under the secret, both as UTF-8, in the base64 for
/// addresses.
pub proof fn law_what_a_signature_is(secret: Seq<char>, message: Seq<char>)
    ensures
        signature(secret, message) == base64url_text(
            hmac_sha256(encode_utf8(secret), encode_utf8(message)),
        ),
{
}

} // verus!
