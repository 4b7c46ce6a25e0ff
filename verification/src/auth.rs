//! Password hashing and stateless session tokens.
//!
//! Passwords are stored only as salted bcrypt hashes; sessions are signed
//! tokens embedding the minimal identity claims `{ id, username, email }`,
//! signed with a server-held symmetric secret.

use vstd::prelude::*;

use rand::distr::{Alphanumeric, SampleString};

verus! {

/// What bcrypt's `verify` returns for a password and a hash string:
/// `None` where verification fails with an error (a malformed hash),
/// otherwise `Some(b)` where `b` says whether the password matches the
/// hash. `verify` is deterministic in its two arguments.
pub uninterp spec fn bcrypt_check(password: Seq<char>, hash: Seq<char>) -> Option<bool>;

/// The signed token whose claims are exactly `{ id, username, email }`,
/// as produced by jsonwebtoken's `encode` under its default header
/// (HMAC-SHA256) with the given symmetric secret. Deterministic in the
/// claims and the secret.
pub uninterp spec fn jwt_token_of(
    id: int,
    username: Seq<char>,
    email: Seq<char>,
    secret: Seq<char>,
) -> Seq<char>;

/// The claims that jsonwebtoken's `decode` (with a signature-only check,
/// followed by extraction of the `{ id, username, email }` fields and of
/// the optional numeric `exp` claim) yields for a token and a secret:
/// `None` where the token does not carry such claims signed with that
/// secret. Deterministic in the token and the secret; judging the
/// extracted expiry against the clock is verified code's.
pub uninterp spec fn jwt_claims_of(token: Seq<char>, secret: Seq<char>) -> Option<
    (int, Seq<char>, Seq<char>, Option<int>),
>;

/// Leeway allowed when judging a token's expiry claim, in seconds.
pub const TOKEN_LEEWAY_SECS: i64 = 60;

/// An expiry claim that lies in the past, beyond the leeway, at the given
/// time. A token without the claim never expires.
pub open spec fn token_expired(exp: Option<int>, now: int) -> bool {
    exp matches Some(e) && e < now - TOKEN_LEEWAY_SECS as int
}

/// True of ASCII alphanumeric characters.
pub open spec fn is_alphanumeric_char(c: char) -> bool {
    ('0' <= c && c <= '9') || ('A' <= c && c <= 'Z') || ('a' <= c && c <= 'z')
}

/// Relies on bcrypt::hash: salts (via OS randomness) and hashes the
/// password. Every hash it returns is a 60-character bcrypt string that
/// bcrypt::verify parses whatever the password handed to it, and that
/// matches the password hashed here.
#[verifier::external_body]
pub(crate) fn hash_password(password: &str, cost: u32) -> (r: Option<String>)
    ensures
        r matches Some(h) ==> {
            &&& h@.len() == 60
            &&& bcrypt_check(password@, h@) == Some(true)
            &&& forall|p: Seq<char>| bcrypt_check(p, h@) is Some
        },
{
    bcrypt::hash(password, cost).ok()
}

/// Relies on bcrypt::verify: deterministic in the password and the hash,
/// and it errs only on a hash string it cannot parse.
#[verifier::external_body]
pub(crate) fn verify_password(password: &str, hash: &str) -> (r: Option<bool>)
    ensures
        r == bcrypt_check(password@, hash@),
{
    bcrypt::verify(password, hash).ok()
}

/// Relies on jsonwebtoken::encode under the default header (HMAC-SHA256)
/// with a symmetric secret: deterministic in the claims and the secret,
/// and signing cannot fail for this algorithm and key kind.
#[verifier::external_body]
pub(crate) fn token_encode(id: i32, username: &str, email: &str, secret: &str) -> (r: Option<String>)
    ensures
        r is Some,
        r matches Some(t) ==> t@ == jwt_token_of(id as int, username@, email@, secret@),
        r matches Some(t) ==> jwt_claims_of(t@, secret@) == Some(
            (id as int, username@, email@, None::<int>),
        ),
{
    let mut claims = serde_json::Map::new();
    claims.insert("id".to_string(), serde_json::Value::from(id));
    claims.insert("username".to_string(), serde_json::Value::from(username));
    claims.insert("email".to_string(), serde_json::Value::from(email));
    let key = jsonwebtoken::EncodingKey::from_secret(secret.as_bytes());
    jsonwebtoken::encode(&jsonwebtoken::Header::default(), &serde_json::Value::Object(claims), &key)
        .ok()
}

/// Relies on jsonwebtoken::decode with an HMAC secret, checking the
/// signature only: deterministic in the token and the secret, returning
/// the identity claims carried by any token signed with that secret,
/// together with its expiry claim where one is present (a malformed
/// expiry rejects the token). The clock plays no part here, so that the
/// result is a function of the arguments; the caller judges the expiry.
#[verifier::external_body]
pub(crate) fn token_decode(token: &str, secret: &str) -> (r: Option<
    (i32, String, String, Option<u64>),
>)
    ensures
        r matches Some(c) ==> jwt_claims_of(token@, secret@) == Some(
            (
                c.0 as int,
                c.1@,
                c.2@,
                match c.3 {
                    Some(e) => Some(e as int),
                    None => None,
                },
            ),
        ),
        r is None ==> jwt_claims_of(token@, secret@) is None,
{
    let key = jsonwebtoken::DecodingKey::from_secret(secret.as_bytes());
    let mut validation = jsonwebtoken::Validation::new(jsonwebtoken::Algorithm::HS256);
    validation.required_spec_claims = std::collections::HashSet::new();
    validation.validate_exp = false;
    let data = jsonwebtoken::decode::<serde_json::Value>(token, &key, &validation).ok()?;
    let id = data.claims.get("id")?.as_i64()?;
    let username = data.claims.get("username")?.as_str()?.to_string();
    let email = data.claims.get("email")?.as_str()?.to_string();
    let exp = match data.claims.get("exp") {
        Some(v) => Some(v.as_u64()?),
        None => None,
    };
    Some((i32::try_from(id).ok()?, username, email, exp))
}

/// Relies on rand's Alphanumeric distribution: a fresh random string of
/// exactly `len` ASCII alphanumeric characters.
#[verifier::external_body]
pub(crate) fn random_alphanumeric(len: usize) -> (r: String)
    ensures
        r@.len() == len as nat,
        forall|i: int| 0 <= i < r@.len() ==> is_alphanumeric_char(#[trigger] r@[i]),
{
    Alphanumeric.sample_string(&mut rand::rng(), len)
}

} // verus!
