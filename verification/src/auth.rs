//! Credential storage and session tokens.
//!
//! A stored credential hash is the salt, a separator, and the base64 encoding
//! of a SHA-256 digest of salt followed by password.  Session tokens are
//! signed JWTs carrying email, role and an absolute expiry timestamp; the
//! signing secret and the current time are injected by the caller, never held
//! here.

use vstd::prelude::*;
use vstd::string::*;

use base64::Engine;
use jsonwebtoken::errors::ErrorKind;
use jsonwebtoken::{Algorithm, DecodingKey, Validation};
use serde_json::Value;

verus! {

/// Separator between the salt and the encoded digest in a stored hash.
pub const SALT_SEP: char = '$';

/// Seconds a freshly issued session token stays valid.
pub const TOKEN_LIFETIME_SECS: usize = 86400;

/// The role carried by a credential and by a session token.
#[derive(Debug, Clone, Copy, PartialEq, Eq, Structural)]
pub enum Role {
    Admin,
    User,
}

/// The signed payload of a session token: identity, role and expiry.
#[derive(Debug)]
pub struct Claims {
    pub email: String,
    pub role: Role,
    /// Absolute expiry as a UTC timestamp in seconds.
    pub exp: usize,
}

/// Why a session token was rejected.
#[derive(Debug, Clone, Copy, PartialEq, Eq, Structural)]
pub enum AuthError {
    InvalidSignature,
    Malformed,
    Expired,
    NotAdmin,
}

/// Why a password check against a stored hash failed.
#[derive(Debug, Clone, Copy, PartialEq, Eq, Structural)]
pub enum CredentialError {
    /// The stored hash cannot be decomposed into salt and digest.
    MalformedHash,
    /// The password does not match the stored digest.
    Mismatch,
}

// ---------------------------------------------------------------------------
// Trusted wrappers around the outside crates.
// ---------------------------------------------------------------------------

/// SHA-256 digest of the UTF-8 bytes of `salt` followed by `password`.
pub uninterp spec fn sha256_salted_of(salt: Seq<char>, password: Seq<char>) -> Seq<u8>;

/// The base64 (standard alphabet, padded) encoding of `bytes`.
pub uninterp spec fn b64_of(bytes: Seq<u8>) -> Seq<char>;

/// What base64 decoding yields on `text`, or `None` when `text` is not
/// valid base64.
pub uninterp spec fn b64_dec(text: Seq<char>) -> Option<Seq<u8>>;

/// The HS512-signed JWT for the claims (`email`, `role`, `exp`) under `secret`.
pub uninterp spec fn jwt_of(secret: Seq<u8>, email: Seq<char>, role: Seq<char>, exp: u64) -> Seq<char>;

/// What HS512 JWT verification under `secret` makes of `token`: the claims
/// triple when the signature matches and the payload carries a string
/// `email`, a string `role` and an integer `exp`; `Err(true)` when the
/// token's framing reads as an HS512 JWT and the signature part is valid
/// base64 but the MAC does not match; `Err(false)` when the token cannot be
/// read as such a JWT at all, or the signature matches but the payload lacks
/// those three claims.
pub uninterp spec fn jwt_claims_of(secret: Seq<u8>, token: Seq<char>) -> Result<(Seq<char>, Seq<char>, u64), bool>;

/// The accepting decode outcome that carries exactly these claims.
pub open spec fn jwt_accepted(email: Seq<char>, role: Seq<char>, exp: u64) -> Result<
    (Seq<char>, Seq<char>, u64),
    bool,
> {
    Ok((email, role, exp))
}

/// A rejecting decode outcome; the flag is true exactly on a well-framed
/// token whose MAC does not match.
pub open spec fn jwt_rejected(sig_rejected: bool) -> Result<(Seq<char>, Seq<char>, u64), bool> {
    Err(sig_rejected)
}

/// Relies on `ring::rand::generate` over `ring::rand::SystemRandom`: 8 bytes
/// from the operating system's cryptographically secure generator, `None` if
/// the generator fails.  Nothing can be promised about the values drawn.
#[verifier::external_body]
fn os_random_8() -> (r: Option<Vec<u8>>)
    ensures
        r matches Some(v) ==> v@.len() == 8,
{
    match ring::rand::generate::<[u8; 8]>(&ring::rand::SystemRandom::new()) {
        Ok(v) => Some(v.expose().to_vec()),
        Err(_) => None,
    }
}

/// Relies on `ring::digest::digest` with `ring::digest::SHA256`: a 32-byte
/// digest that is a function of the input bytes alone; the input here is the
/// UTF-8 encoding of `salt` followed by `password`.
#[verifier::external_body]
fn sha256_salted(salt: &str, password: &str) -> (r: Vec<u8>)
    ensures
        r@ == sha256_salted_of(salt@, password@),
        r@.len() == 32,
{
    let salted = format!("{}{}", salt, password);
    ring::digest::digest(&ring::digest::SHA256, salted.as_bytes()).as_ref().to_vec()
}

/// Relies on `base64::engine::general_purpose::STANDARD.encode`, and on its
/// `decode` inverting `encode` on the same engine.
#[verifier::external_body]
fn b64_encode(bytes: &[u8]) -> (r: String)
    requires
        bytes@.len() <= 0x10000000,
    ensures
        r@ == b64_of(bytes@),
        b64_dec(r@) == Some(bytes@),
{
    base64::engine::general_purpose::STANDARD.encode(bytes)
}

/// Relies on `base64::engine::general_purpose::STANDARD.decode`.
#[verifier::external_body]
fn b64_decode(text: &str) -> (r: Option<Vec<u8>>)
    ensures
        match r {
            Some(v) => b64_dec(text@) == Some(v@),
            None => b64_dec(text@) is None,
        },
{
    base64::engine::general_purpose::STANDARD.decode(text).ok()
}

/// Relies on `jsonwebtoken::encode` with algorithm HS512: under a plain
/// byte-string secret the signer is HMAC, which accepts keys of any length
/// and signs infallibly, and serializing the three-field claims object
/// cannot fail, so a token always comes back.  The token is a function of
/// the claims and the secret, and `jsonwebtoken::decode` under the same
/// secret yields the same claims back.
#[verifier::external_body]
fn jwt_encode(secret: &[u8], email: &str, role: &str, exp: u64) -> (r: String)
    ensures
        r@ == jwt_of(secret@, email@, role@, exp),
        jwt_claims_of(secret@, r@) == jwt_accepted(email@, role@, exp),
{
    let mut payload = serde_json::Map::new();
    payload.insert("email".to_string(), serde_json::Value::from(email));
    payload.insert("role".to_string(), serde_json::Value::from(role));
    payload.insert("exp".to_string(), serde_json::Value::from(exp));
    let header = jsonwebtoken::Header::new(jsonwebtoken::Algorithm::HS512);
    let key = jsonwebtoken::EncodingKey::from_secret(secret);
    jsonwebtoken::encode(&header, &serde_json::Value::Object(payload), &key)
        .expect("HMAC signing cannot fail")
}

/// Relies on `jsonwebtoken::decode` with algorithm HS512 and expiry
/// validation switched off, so that the outcome depends on the secret and the
/// token alone; expiry is checked by the callers against an injected clock.
/// The library raises its signature error at exactly one point, a MAC
/// mismatch on a well-framed token, so that error and every other rejection
/// are told apart below.
#[verifier::external_body]
fn jwt_decode_raw(secret: &[u8], token: &str) -> (r: Result<(String, String, u64), AuthError>)
    ensures
        match r {
            Ok(c) => jwt_claims_of(secret@, token@) == jwt_accepted(c.0@, c.1@, c.2),
            Err(e) => {
                &&& jwt_claims_of(secret@, token@) is Err
                &&& (e == AuthError::InvalidSignature <==> jwt_claims_of(secret@, token@)
                    == jwt_rejected(true))
                &&& (e == AuthError::InvalidSignature || e == AuthError::Malformed)
            },
        },
{
    let v = Validation { validate_exp: false, ..Validation::new(Algorithm::HS512) };
    let data = match jsonwebtoken::decode::<Value>(token, &DecodingKey::from_secret(secret), &v) {
        Ok(d) => d.claims,
        Err(e) => return match e.kind() {
            ErrorKind::InvalidSignature => Err(AuthError::InvalidSignature),
            _ => Err(AuthError::Malformed),
        },
    };
    let exp = data.get("exp").and_then(Value::as_u64);
    match (data.get("email").and_then(Value::as_str), data.get("role").and_then(Value::as_str)) {
        (Some(e), Some(r)) if exp.is_some() => Ok((e.to_string(), r.to_string(), exp.unwrap())),
        _ => Err(AuthError::Malformed),
    }
}

// ---------------------------------------------------------------------------
// Salted password hashes.
// ---------------------------------------------------------------------------

pub open spec fn is_hex_char(c: char) -> bool {
    ('0' <= c && c <= '9') || ('a' <= c && c <= 'f')
}

/// A salt may not contain the separator, or the stored hash could not be
/// decomposed again.
pub open spec fn salt_ok(salt: Seq<char>) -> bool {
    forall|i: int| 0 <= i < salt.len() ==> salt[i] != SALT_SEP
}

/// The stored encoding of a salted password hash.
pub open spec fn spec_salt_hash(salt: Seq<char>, password: Seq<char>) -> Seq<char> {
    salt + seq![SALT_SEP] + b64_of(sha256_salted_of(salt, password))
}

/// Decomposition of a stored hash at the first separator: the salt and the
/// text after the separator.
pub open spec fn spec_split_hash(stored: Seq<char>) -> Option<(Seq<char>, Seq<char>)> {
    match stored.index_of_first(SALT_SEP) {
        Some(i) => Some((stored.subrange(0, i), stored.subrange(i + 1, stored.len() as int))),
        None => None,
    }
}

/// What password verification yields on a stored hash: a decoding failure
/// when the stored hash has no separator or the digest part is not base64,
/// otherwise the comparison of the recomputed digest with the stored one.
pub open spec fn spec_verify(password: Seq<char>, stored: Seq<char>) -> Result<(), CredentialError> {
    match spec_split_hash(stored) {
        None => Err(CredentialError::MalformedHash),
        Some((salt, tail)) => match b64_dec(tail) {
            None => Err(CredentialError::MalformedHash),
            Some(digest) => if digest == sha256_salted_of(salt, password) {
                Ok(())
            } else {
                Err(CredentialError::Mismatch)
            },
        },
    }
}

spec fn hex_digit(n: int) -> char {
    if n == 0 { '0' } else if n == 1 { '1' } else if n == 2 { '2' } else if n == 3 { '3' }
    else if n == 4 { '4' } else if n == 5 { '5' } else if n == 6 { '6' } else if n == 7 { '7' }
    else if n == 8 { '8' } else if n == 9 { '9' } else if n == 10 { 'a' } else if n == 11 { 'b' }
    else if n == 12 { 'c' } else if n == 13 { 'd' } else if n == 14 { 'e' } else { 'f' }
}

fn hex_char_str(n: u8) -> (r: &'static str)
    requires
        n < 16,
    ensures
        r@ =~= seq![hex_digit(n as int)],
        is_hex_char(hex_digit(n as int)),
{
    proof {
        reveal_strlit("0"); reveal_strlit("1"); reveal_strlit("2"); reveal_strlit("3");
        reveal_strlit("4"); reveal_strlit("5"); reveal_strlit("6"); reveal_strlit("7");
        reveal_strlit("8"); reveal_strlit("9"); reveal_strlit("a"); reveal_strlit("b");
        reveal_strlit("c"); reveal_strlit("d"); reveal_strlit("e"); reveal_strlit("f");
    }
    if n == 0 { "0" } else if n == 1 { "1" } else if n == 2 { "2" } else if n == 3 { "3" }
    else if n == 4 { "4" } else if n == 5 { "5" } else if n == 6 { "6" } else if n == 7 { "7" }
    else if n == 8 { "8" } else if n == 9 { "9" } else if n == 10 { "a" } else if n == 11 { "b" }
    else if n == 12 { "c" } else if n == 13 { "d" } else if n == 14 { "e" } else { "f" }
}

fn to_hex(bytes: &[u8]) -> (r: String)
    requires
        bytes@.len() <= 1000,
    ensures
        r@.len() == 2 * bytes@.len(),
        forall|i: int| 0 <= i < r@.len() ==> is_hex_char(#[trigger] r@[i]),
{
    let mut out = String::new();
    let n = bytes.len();
    let mut i: usize = 0;
    while i < n
        invariant
            n == bytes@.len() <= 1000,
            i <= n,
            out@.len() == 2 * i,
            forall|j: int| 0 <= j < out@.len() ==> is_hex_char(#[trigger] out@[j]),
        decreases n - i,
    {
        let b = bytes[i];
        let hi = b >> 4;
        let lo = b & 0xf;
        proof {
            assert(b >> 4 < 16 && b & 0xf < 16) by (bit_vector);
        }
        out.append(hex_char_str(hi));
        out.append(hex_char_str(lo));
        i = i + 1;
    }
    out
}

/// A fresh random salt: sixteen lower-case hex characters encoding 8 random
/// bytes.  `None` when the system's random generator fails.  The hex alphabet
/// keeps the separator out of the salt by construction.
pub fn gen_salt() -> (r: Option<String>)
    ensures
        r matches Some(s) ==> s@.len() == 16 && salt_ok(s@),
{
    match os_random_8() {
        None => None,
        Some(bytes) => {
            let salt = to_hex(bytes.as_slice());
            proof {
                assert forall|i: int| 0 <= i < salt@.len() implies salt@[i] != SALT_SEP by {
                    assert(is_hex_char(salt@[i]));
                }
            }
            Some(salt)
        },
    }
}

/// The stored encoding of the salted password digest: salt, separator,
/// base64 digest.  Verifying the same password against the result succeeds,
/// and verifying any password reduces to comparing the two digests.
pub fn gen_salt_hash(salt: &str, password: &str) -> (r: String)
    requires
        salt_ok(salt@),
    ensures
        r@ == spec_salt_hash(salt@, password@),
        spec_verify(password@, r@) == Ok::<(), CredentialError>(()),
        forall|p2: Seq<char>|
            #[trigger] spec_verify(p2, r@) == if sha256_salted_of(salt@, p2) == sha256_salted_of(salt@, password@) {
                Ok::<(), CredentialError>(())
            } else {
                Err::<(), CredentialError>(CredentialError::Mismatch)
            },
{
    let digest = sha256_salted(salt, password);
    let encoded = b64_encode(digest.as_slice());
    let mut out = salt.to_owned();
    out.append(sep_str());
    out.append(encoded.as_str());
    proof {
        let stored = out@;
        let d = sha256_salted_of(salt@, password@);
        assert(stored =~= spec_salt_hash(salt@, password@));
        lemma_split_salt_hash(salt@, b64_of(d));
        assert(spec_split_hash(stored) == Some((salt@, b64_of(d))));
        assert(b64_dec(b64_of(d)) == Some(d));
    }
    out
}

fn sep_str() -> (r: &'static str)
    ensures
        r@ =~= seq![SALT_SEP],
{
    proof {
        reveal_strlit("$");
    }
    "$"
}

/// Splitting `salt + sep + tail` at the first separator recovers `salt` and
/// `tail` whenever `salt` itself is free of the separator.
proof fn lemma_split_salt_hash(salt: Seq<char>, tail: Seq<char>)
    requires
        salt_ok(salt),
    ensures
        spec_split_hash(salt + seq![SALT_SEP] + tail) == Some((salt, tail)),
{
    let stored = salt + seq![SALT_SEP] + tail;
    stored.index_of_first_ensures(SALT_SEP);
    assert(stored[salt.len() as int] == SALT_SEP);
    assert(stored.contains(SALT_SEP));
    let i = stored.index_of_first(SALT_SEP).unwrap();
    assert(0 <= i < stored.len());
    assert(forall|j: int| 0 <= j < i ==> stored[j] != SALT_SEP);
    if i < salt.len() {
        assert(stored[i] == salt[i]);
        assert(false);
    }
    if i > salt.len() {
        assert(stored[salt.len() as int] == SALT_SEP);
        assert(false);
    }
    assert(i == salt.len());
    assert(stored.subrange(0, i) =~= salt);
    assert(stored.subrange(i + 1, stored.len() as int) =~= tail);
}

/// Verifies a password against a stored hash: decomposes the stored value
/// into salt and digest, recomputes the digest for the salt and the given
/// password, and compares.  A stored value that cannot be decomposed is a
/// recoverable error, never a panic.
pub fn verify_password(password: &str, stored: &str) -> (r: Result<(), CredentialError>)
    ensures
        r == spec_verify(password@, stored@),
{
    let n = stored.unicode_len();
    proof {
        stored@.index_of_first_ensures(SALT_SEP);
    }
    match find_sep(stored) {
        None => {
            proof {
                let f_opt = stored@.index_of_first(SALT_SEP);
                if f_opt is Some {
                    assert(stored@[f_opt.unwrap()] != SALT_SEP);
                }
            }
            Err(CredentialError::MalformedHash)
        },
        Some(k) => {
            proof {
                assert(stored@.contains(SALT_SEP)) by {
                    assert(stored@[k as int] == SALT_SEP);
                }
                let f = stored@.index_of_first(SALT_SEP).unwrap();
                assert(!(f < k) && !(k < f));
            }
            let salt = stored.substring_char(0, k);
            let tail = stored.substring_char(k + 1, n);
            match b64_decode(tail) {
                None => Err(CredentialError::MalformedHash),
                Some(stored_digest) => {
                    let digest = sha256_salted(salt, password);
                    if bytes_eq(digest.as_slice(), stored_digest.as_slice()) {
                        Ok(())
                    } else {
                        Err(CredentialError::Mismatch)
                    }
                },
            }
        },
    }
}

/// Verifying any password other than the registered one against its stored
/// hash fails, provided the two salted digests differ.  That proviso stands
/// in for collision-freeness of the digest, which no proof here can supply;
/// under it, a mismatching password is always rejected.
pub proof fn lemma_wrong_password_rejected(password: Seq<char>, other: Seq<char>, stored: Seq<char>)
    requires
        spec_verify(password, stored) == Ok::<(), CredentialError>(()),
        spec_split_hash(stored) matches Some(parts) ==> sha256_salted_of(parts.0, other)
            != sha256_salted_of(parts.0, password),
    ensures
        spec_verify(other, stored) == Err::<(), CredentialError>(CredentialError::Mismatch),
{
    let parts = spec_split_hash(stored).unwrap();
    assert(b64_dec(parts.1) == Some(sha256_salted_of(parts.0, password)));
}

fn find_sep(stored: &str) -> (r: Option<usize>)
    ensures
        match r {
            Some(k) => k < stored@.len() && stored@[k as int] == SALT_SEP
                && (forall|j: int| 0 <= j < k ==> stored@[j] != SALT_SEP),
            None => forall|j: int| 0 <= j < stored@.len() ==> stored@[j] != SALT_SEP,
        },
{
    let n = stored.unicode_len();
    let mut i: usize = 0;
    while i < n
        invariant
            n == stored@.len(),
            i <= n,
            forall|j: int| 0 <= j < i ==> stored@[j] != SALT_SEP,
        decreases n - i,
    {
        if stored.get_char(i) == SALT_SEP {
            return Some(i);
        }
        i = i + 1;
    }
    None
}

/// Whether a password matches a stored hash; a stored hash that cannot be
/// decoded counts as a mismatch.
pub fn cmp_salt_hash(password: &str, salt_hash: &str) -> (r: bool)
    ensures
        r == (spec_verify(password@, salt_hash@) == Ok::<(), CredentialError>(())),
{
    match verify_password(password, salt_hash) {
        Ok(()) => true,
        Err(_) => false,
    }
}

fn bytes_eq(a: &[u8], b: &[u8]) -> (r: bool)
    ensures
        r == (a@ == b@),
{
    if a.len() != b.len() {
        return false;
    }
    let n = a.len();
    let mut i: usize = 0;
    while i < n
        invariant
            n == a@.len() == b@.len(),
            i <= n,
            forall|j: int| 0 <= j < i ==> a@[j] == b@[j],
        decreases n - i,
    {
        if a[i] != b[i] {
            return false;
        }
        i = i + 1;
    }
    proof {
        assert(a@ =~= b@);
    }
    true
}

// ---------------------------------------------------------------------------
// Session tokens.
// ---------------------------------------------------------------------------

/// The string under which a role travels inside a token.
pub open spec fn role_chars(role: Role) -> Seq<char> {
    match role {
        Role::Admin => "Admin"@,
        Role::User => "User"@,
    }
}

/// The role a token's role string stands for, if any.
pub open spec fn spec_parse_role(s: Seq<char>) -> Option<Role> {
    if s == "Admin"@ {
        Some(Role::Admin)
    } else if s == "User"@ {
        Some(Role::User)
    } else {
        None
    }
}

/// The claims a token carries under `secret`, when its signature verifies,
/// its role string names a role, and its expiry fits the machine word.
pub open spec fn spec_token_claims(secret: Seq<u8>, token: Seq<char>) -> Option<(Seq<char>, Role, usize)> {
    match jwt_claims_of(secret, token) {
        Err(_) => None,
        Ok((email, role_s, exp)) => match spec_parse_role(role_s) {
            None => None,
            Some(role) => if exp <= usize::MAX as u64 {
                Some((email, role, exp as usize))
            } else {
                None
            },
        },
    }
}

/// The error a token reports when its claims do not verify at all:
/// `InvalidSignature` exactly when the token reads as an HS512 JWT whose
/// MAC does not match, `Malformed` for everything else that yields no
/// claims.
pub open spec fn spec_decode_error(secret: Seq<u8>, token: Seq<char>) -> AuthError {
    match jwt_claims_of(secret, token) {
        Err(sig_rejected) => if sig_rejected {
            AuthError::InvalidSignature
        } else {
            AuthError::Malformed
        },
        Ok(_) => AuthError::Malformed,
    }
}

/// The round trip between a role and its token string.
pub proof fn lemma_role_chars_parse(role: Role)
    ensures
        spec_parse_role(role_chars(role)) == Some(role),
{
    reveal_strlit("Admin");
    reveal_strlit("User");
    assert("Admin"@.len() != "User"@.len());
}

fn role_str(role: &Role) -> (r: &'static str)
    ensures
        r@ == role_chars(*role),
{
    match role {
        Role::Admin => "Admin",
        Role::User => "User",
    }
}

/// Issues a session token for `email` and `role` that expires exactly
/// `TOKEN_LIFETIME_SECS` after `now`.  A token always comes back — HMAC
/// signing cannot fail — and decoding it under the same secret yields the
/// same email, the same role, and that expiry.
pub fn gen_jwt(secret: &[u8], now: usize, email: &str, role: &Role) -> (r: Option<String>)
    requires
        now + TOKEN_LIFETIME_SECS <= usize::MAX,
    ensures
        r is Some,
        r matches Some(t) ==> {
            &&& t@ == jwt_of(secret@, email@, role_chars(*role), (now + TOKEN_LIFETIME_SECS) as u64)
            &&& spec_token_claims(secret@, t@) == Some((email@, *role, (now + TOKEN_LIFETIME_SECS) as usize))
        },
{
    let exp = now + TOKEN_LIFETIME_SECS;
    let token = jwt_encode(secret, email, role_str(role), exp as u64);
    proof {
        lemma_role_chars_parse(*role);
    }
    Some(token)
}

/// Decodes and validates a session token against `secret` and the injected
/// clock `now`: the claims when the signature verifies and `now` is before
/// the expiry; `Expired` when the claims verify but `now` has reached the
/// expiry; otherwise `InvalidSignature` on a well-framed token whose MAC
/// does not match, and `Malformed` on everything else.
pub fn decode_jwt(secret: &[u8], now: usize, token: &str) -> (r: Result<Claims, AuthError>)
    ensures
        match r {
            Ok(c) => spec_token_claims(secret@, token@) == Some((c.email@, c.role, c.exp))
                && now < c.exp,
            Err(e) => {
                &&& (e == AuthError::Expired <==> (spec_token_claims(secret@, token@) matches Some(t) && now >= t.2))
                &&& (e != AuthError::Expired ==> spec_token_claims(secret@, token@) is None
                    && e == spec_decode_error(secret@, token@))
            },
        },
        r is Ok <==> (spec_token_claims(secret@, token@) matches Some(t) && now < t.2),
{
    match jwt_decode_raw(secret, token) {
        Err(e) => Err(e),
        Ok((email, role_s, exp)) => {
            let role = if string_eq_lit(&role_s, admin_lit()) {
                Role::Admin
            } else if string_eq_lit(&role_s, user_lit()) {
                Role::User
            } else {
                return Err(AuthError::Malformed);
            };
            if exp > usize::MAX as u64 {
                return Err(AuthError::Malformed);
            }
            let exp = exp as usize;
            if now >= exp {
                return Err(AuthError::Expired);
            }
            Ok(Claims { email, role, exp })
        },
    }
}

fn admin_lit() -> (r: &'static str)
    ensures
        r@ == "Admin"@,
{
    "Admin"
}

fn user_lit() -> (r: &'static str)
    ensures
        r@ == "User"@,
{
    "User"
}

fn string_eq_lit(s: &String, lit: &str) -> (r: bool)
    ensures
        r == (s@ == lit@),
{
    let owned = lit.to_owned();
    s.eq(&owned)
}

/// Whether a token is valid, unexpired, and carries the admin role.
pub open spec fn spec_is_admin(secret: Seq<u8>, now: usize, token: Seq<char>) -> bool {
    match spec_token_claims(secret, token) {
        Some((email, role, exp)) => role == Role::Admin && now < exp,
        None => false,
    }
}

/// An admin check can only pass on a token whose claims verify, whose role is
/// `Admin`, and whose expiry lies strictly after `now`; in particular it
/// fails on every token of another role and on every expired token.
pub proof fn lemma_is_admin_only_unexpired_admin(secret: Seq<u8>, now: usize, token: Seq<char>)
    ensures
        spec_is_admin(secret, now, token) <==> (spec_token_claims(secret, token) matches Some(t)
            && t.1 == Role::Admin && now < t.2),
{
}

/// Whether `token` verifies under `secret`, is unexpired at `now`, and
/// carries the admin role.  Never diverges from `decode_jwt`'s own checks.
pub fn check_admin(secret: &[u8], now: usize, token: &str) -> (r: bool)
    ensures
        r == spec_is_admin(secret@, now, token@),
{
    match decode_jwt(secret, now, token) {
        Ok(claims) => claims.role == Role::Admin,
        Err(_) => false,
    }
}

/// The authorization gate before any mutation: the claims when the token is
/// a valid, unexpired admin token; `NotAdmin` when the claims verify and are
/// unexpired but the role is not admin; otherwise the decoding error.
pub fn authorize_admin(secret: &[u8], now: usize, token: &str) -> (r: Result<Claims, AuthError>)
    ensures
        r is Ok <==> spec_is_admin(secret@, now, token@),
        r matches Ok(c) ==> spec_token_claims(secret@, token@) == Some((c.email@, c.role, c.exp))
            && c.role == Role::Admin && now < c.exp,
        r matches Err(e) ==> (e == AuthError::NotAdmin <==> (spec_token_claims(secret@, token@) matches Some(t)
            && t.1 != Role::Admin && now < t.2)),
{
    match decode_jwt(secret, now, token) {
        Err(e) => Err(e),
        Ok(claims) => {
            if claims.role == Role::Admin {
                Ok(claims)
            } else {
                Err(AuthError::NotAdmin)
            }
        },
    }
}

} // verus!
