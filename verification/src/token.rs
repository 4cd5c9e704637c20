//! The token service: issues and verifies signed bearer tokens whose subject
//! is a user id as decimal text. Signing and signature checking are done by
//! jwt_simple's ES256 implementation behind trusted wrappers; loading the
//! key pair, rendering and parsing the subject, and mapping outcomes are
//! verified here.
use crate::subject::dec_digits;
use crate::subject::parse_subject;
use crate::subject::subject_to_user_id;
use crate::subject::user_id_to_subject;
use base64::Engine;
use jwt_simple::algorithms::ES256KeyPair;
use jwt_simple::prelude::Claims;
use jwt_simple::prelude::Duration;
use jwt_simple::prelude::ECDSAP256KeyPairLike;
use jwt_simple::prelude::ECDSAP256PublicKeyLike;
use jwt_simple::prelude::NoCustomClaims;
use jwt_simple::prelude::VerificationOptions;
use jwt_simple::JWTError;
use vstd::prelude::*;

verus! {

#[verifier::external_type_specification]
#[verifier::external_body]
pub struct ExES256KeyPair(ES256KeyPair);

/// How long an issued token stays valid, in seconds: two hours.
pub const TOKEN_VALIDITY_SECS: u64 = 7200;

/// The longest validity window a caller may ask for, in seconds: one year.
/// The expiry instant is computed as now plus the window in coarsetime's
/// unchecked 32.32 fixed-point arithmetic, which overflows once the sum of
/// epoch seconds and window reaches 2^32; this bound keeps that sum clear of
/// overflow for any realistic clock.
pub const MAX_TOKEN_VALIDITY_SECS: u64 = 31536000;

/// What decoding a text as standard-alphabet base64 yields: the bytes, or
/// nothing when the text is not valid base64.
pub uninterp spec fn base64_decode_of(s: Seq<char>) -> Option<Seq<u8>>;

/// Relies on base64's Engine::decode with the STANDARD engine: decoding is a
/// function of the input text alone.
#[verifier::external_body]
fn decode_base64(s: &str) -> (r: Option<Vec<u8>>)
    ensures
        match r {
            Some(v) => base64_decode_of(s@) == Some(v@),
            None => base64_decode_of(s@) is None,
        },
{
    match base64::engine::general_purpose::STANDARD.decode(s) {
        Ok(v) => Some(v),
        Err(_) => None,
    }
}

/// Whether these raw bytes encode an ES256 (P-256) key pair.
pub uninterp spec fn valid_key_pair_bytes(bytes: Seq<u8>) -> bool;

/// Relies on jwt_simple's ES256KeyPair::from_bytes: it accepts or rejects as
/// a function of the raw bytes alone, and accepts only 32-byte encodings (of
/// a valid nonzero P-256 scalar).
#[verifier::external_body]
fn key_pair_from_bytes(bytes: &Vec<u8>) -> (r: Option<ES256KeyPair>)
    ensures
        r is Some <==> valid_key_pair_bytes(bytes@),
        r is Some ==> bytes@.len() == 32,
{
    ES256KeyPair::from_bytes(bytes.as_slice()).ok()
}

/// Loads the process-wide signing key pair from its base64 encoding, as
/// provisioned by the operator. Succeeds exactly when the text is valid
/// base64 and the decoded bytes are a valid key pair.
pub fn key_pair_from_base64(s: &str) -> (r: Option<ES256KeyPair>)
    ensures
        r is Some <==> (base64_decode_of(s@) matches Some(b) && valid_key_pair_bytes(b)),
{
    match decode_base64(s) {
        Some(bytes) => key_pair_from_bytes(&bytes),
        None => None,
    }
}

/// The subject claim that jwt_simple's verify_token reads out of a token's
/// payload: a function of the token text alone.
pub uninterp spec fn token_subject_of(token: Seq<char>) -> Option<Seq<char>>;

/// Relies on jwt_simple's Claims::create and ECDSAP256KeyPairLike::sign: the
/// result is a non-empty compact JWT whose payload carries the given subject
/// and an expiry of now plus `valid_secs`; verify_token reads that same
/// subject back out of it. Signing always succeeds: the claims are strings
/// and integer timestamps, whose JSON serialization cannot fail, and the
/// ES256 signing step itself is infallible; the bound on `valid_secs` keeps
/// the expiry arithmetic in Claims::create free of overflow.
#[verifier::external_body]
fn sign_with_subject(key: &ES256KeyPair, subject: &str, valid_secs: u64) -> (r: Option<String>)
    requires
        valid_secs <= MAX_TOKEN_VALIDITY_SECS,
    ensures
        r is Some,
        (r matches Some(t) ==> t@.len() > 0 && token_subject_of(t@) == Some(subject@)),
{
    let mut claims = Claims::create(Duration::from_secs(valid_secs));
    claims.subject = Some(subject.to_string());
    key.sign(claims).ok()
}

/// What checking a token against the public key yielded.
pub enum RawVerification {
    /// Signature and expiry check out; this is the token's subject claim.
    Valid(String),
    /// The token is well-formed and genuine but out of date.
    Expired,
    /// Anything else: bad signature, malformed structure, missing subject.
    Invalid,
}

/// Relies on jwt_simple's ECDSAP256PublicKeyLike::verify_token, run with a
/// zero time tolerance so that expiry is checked against the clock exactly,
/// and on JWTError::TokenHasExpired to tell an out-of-date token from an
/// invalid one. On success the subject comes straight from the token's
/// payload.
#[verifier::external_body]
fn verify_signed_token(key: &ES256KeyPair, token: &str) -> (r: RawVerification)
    ensures
        (r matches RawVerification::Valid(s) ==> token_subject_of(token@) == Some(s@)),
{
    let mut options = VerificationOptions::default();
    options.time_tolerance = Some(Duration::from_secs(0));
    match key.public_key().verify_token::<NoCustomClaims>(token, Some(options)) {
        Ok(claims) => match claims.subject {
            Some(s) => RawVerification::Valid(s),
            None => RawVerification::Invalid,
        },
        Err(e) => match e.downcast_ref::<JWTError>() {
            Some(JWTError::TokenHasExpired) => RawVerification::Expired,
            _ => RawVerification::Invalid,
        },
    }
}

/// Why a token is rejected.
#[derive(Clone, Copy, Debug, PartialEq, Eq)]
pub enum TokenError {
    /// Bad signature, malformed structure, or a non-integer subject.
    Invalid,
    /// An otherwise valid token whose expiry has elapsed.
    Expired,
}

/// Maps a raw verification outcome to the service's answer: a valid token
/// yields its subject parsed as a user id, a non-integer subject is
/// invalid, and expiry and invalidity pass through unchanged.
pub fn resolve_verification(raw: RawVerification) -> (r: Result<i32, TokenError>)
    ensures
        match raw {
            RawVerification::Valid(s) => match parse_subject(s@) {
                Some(id) => 0 <= id <= i32::MAX as int && r == Ok::<i32, TokenError>(id as i32),
                None => r == Err::<i32, TokenError>(TokenError::Invalid),
            },
            RawVerification::Expired => r == Err::<i32, TokenError>(TokenError::Expired),
            RawVerification::Invalid => r == Err::<i32, TokenError>(TokenError::Invalid),
        },
{
    match raw {
        RawVerification::Valid(s) => {
            proof {
                crate::subject::lemma_parse_subject_bounds(s@);
            }
            match subject_to_user_id(s.as_str()) {
                Some(id) => Ok(id),
                None => Err(TokenError::Invalid),
            }
        },
        RawVerification::Expired => Err(TokenError::Expired),
        RawVerification::Invalid => Err(TokenError::Invalid),
    }
}

/// Issues a bearer token for the user with a caller-chosen validity window
/// in seconds. The token's subject is the id as decimal text. Issuance
/// always succeeds.
pub fn issue_valid_for(key: &ES256KeyPair, user_id: i32, valid_secs: u64) -> (r: Option<String>)
    requires
        0 <= user_id,
        valid_secs <= MAX_TOKEN_VALIDITY_SECS,
    ensures
        r is Some,
        (r matches Some(t) ==> t@.len() > 0 && token_subject_of(t@) == Some(
            dec_digits(user_id as nat),
        )),
{
    let subject = user_id_to_subject(user_id);
    sign_with_subject(key, subject.as_str(), valid_secs)
}

/// Issues a bearer token for the user, valid for two hours from now.
/// Issuance always succeeds.
pub fn issue(key: &ES256KeyPair, user_id: i32) -> (r: Option<String>)
    requires
        0 <= user_id,
    ensures
        r is Some,
        (r matches Some(t) ==> t@.len() > 0 && token_subject_of(t@) == Some(
            dec_digits(user_id as nat),
        )),
{
    issue_valid_for(key, user_id, TOKEN_VALIDITY_SECS)
}

/// Verifies a bearer token: the signature is checked against the public key
/// and the expiry against the clock; the subject is then parsed as a user
/// id. A bad signature, malformed structure or non-integer subject is
/// Invalid; an out-of-date token is Expired.
pub fn verify(key: &ES256KeyPair, token: &str) -> (r: Result<i32, TokenError>)
    ensures
        (r matches Ok(id) ==> (token_subject_of(token@) matches Some(s) && parse_subject(s)
            == Some(id as int))),
{
    let raw = verify_signed_token(key, token);
    resolve_verification(raw)
}

/// The round trip: the decimal subject placed in a token issued for a user
/// id parses back to exactly that id, so a token that verifies yields the
/// id it was issued for.
pub proof fn lemma_issue_verify_round_trip(id: i32)
    requires
        0 <= id,
    ensures
        parse_subject(dec_digits(id as nat)) == Some(id as int),
{
    crate::subject::lemma_subject_round_trip(id as nat);
}

} // verus!
