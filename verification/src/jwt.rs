use vstd::prelude::*;
use vstd::string::*;
use vstd::utf8::*;

use aes_gcm::aead::{Aead, AeadCore, OsRng};
use base64::Engine;
use ::jwt::{SignWithKey, VerifyWithKey};

use crate::clock::{unix_now, ClockReading};
use crate::config::Config;
use crate::models::RefreshToken;
use crate::text::{i64_to_decimal, int_decimal, lemma_decimal_roundtrip, owned, parse_i64, parse_i64_spec, seq_le};

verus! {

broadcast use {encode_utf8_valid_utf8, encode_utf8_decode_utf8};

// ---------------------------------------------------------------------------
// Claims
// ---------------------------------------------------------------------------
/// The claims of an authenticated token.
#[derive(Debug)]
pub struct TokenClaims {
    pub iat: String,
    pub user_id: String,
    pub token_type: String,
}

/// Claims by the views of their names and values.
pub open spec fn claims_view(claims: Seq<(String, String)>) -> Seq<(Seq<char>, Seq<char>)> {
    claims.map_values(|c: (String, String)| (c.0@, c.1@))
}

/// The value of the first claim named `name`.
pub open spec fn claim_of(claims: Seq<(Seq<char>, Seq<char>)>, name: Seq<char>) -> Option<Seq<char>>
    decreases claims.len(),
{
    if claims.len() == 0 {
        None
    } else if claims[0].0 == name {
        Some(claims[0].1)
    } else {
        claim_of(claims.drop_first(), name)
    }
}

/// The claims `(iat, user_id, type)` read from `claims`, or the first one
/// missing.
pub open spec fn claims_fields(claims: Seq<(Seq<char>, Seq<char>)>) -> Result<
    (Seq<char>, Seq<char>, Seq<char>),
    Seq<char>,
> {
    match (claim_of(claims, "iat"@), claim_of(claims, "user_id"@), claim_of(claims, "type"@)) {
        (None, _, _) => Err("Missing 'iat' claim"@),
        (Some(_), None, _) => Err("Missing 'user_id' claim"@),
        (Some(_), Some(_), None) => Err("Missing 'type' claim"@),
        (Some(i), Some(u), Some(t)) => Ok((i, u, t)),
    }
}

/// A result of reading claims, by views.
pub open spec fn claims_result_view(r: Result<TokenClaims, String>) -> Result<
    (Seq<char>, Seq<char>, Seq<char>),
    Seq<char>,
> {
    match r {
        Ok(c) => Ok((c.iat@, c.user_id@, c.token_type@)),
        Err(e) => Err(e@),
    }
}

/// The value of the claim named `name`.
fn find_claim(claims: &Vec<(String, String)>, name: &str) -> (r: Option<String>)
    ensures
        match r {
            Some(v) => claim_of(claims_view(claims@), name@) == Some(v@),
            None => claim_of(claims_view(claims@), name@) is None,
        },
{
    let ghost all = claims_view(claims@);
    let target = owned(name);
    let mut i: usize = 0;
    proof {
        assert(all.skip(0) =~= all);
    }
    while i < claims.len()
        invariant
            i <= claims@.len(),
            all == claims_view(claims@),
            target@ == name@,
            claim_of(all, name@) == claim_of(all.skip(i as int), name@),
        decreases claims@.len() - i,
    {
        let ghost rest = all.skip(i as int);
        proof {
            assert(rest[0] == (claims@[i as int].0@, claims@[i as int].1@));
            assert(rest.drop_first() =~= all.skip(i + 1));
        }
        if claims[i].0 == target {
            return Some(claims[i].1.clone());
        }
        i = i + 1;
    }
    proof {
        assert(all.skip(i as int).len() == 0);
    }
    None
}

impl TokenClaims {
    /// Reads the claims `iat`, `user_id` and `type`; the first missing one
    /// is the error.
    pub fn from_claims(claims: &Vec<(String, String)>) -> (r: Result<TokenClaims, String>)
        ensures
            claims_result_view(r) == claims_fields(claims_view(claims@)),
    {
        let iat = match find_claim(claims, "iat") {
            Some(v) => v,
            None => {
                return Err(owned("Missing 'iat' claim"));
            },
        };
        let user_id = match find_claim(claims, "user_id") {
            Some(v) => v,
            None => {
                return Err(owned("Missing 'user_id' claim"));
            },
        };
        let token_type = match find_claim(claims, "type") {
            Some(v) => v,
            None => {
                return Err(owned("Missing 'type' claim"));
            },
        };
        Ok(TokenClaims { iat, user_id, token_type })
    }
}

/// The verdict on a token's claims at the time `now` (seconds since the
/// epoch): its `iat` must be there and be an integer; an `access` token
/// older than `access_ttl` seconds and a `refresh` token older than
/// `refresh_ttl` seconds have expired; any other type is refused; then the
/// claims are read.
pub open spec fn token_verdict(
    claims: Seq<(Seq<char>, Seq<char>)>,
    now: int,
    access_ttl: int,
    refresh_ttl: int,
) -> Result<(Seq<char>, Seq<char>, Seq<char>), Seq<char>> {
    match claim_of(claims, "iat"@) {
        None => Err("Token missing 'iat' claim"@),
        Some(text) => match parse_i64_spec(text) {
            None => Err("Invalid 'iat' claim"@),
            Some(iat) => match claim_of(claims, "type"@) {
                Some(t) => if t == "access"@ {
                    if now - iat > access_ttl {
                        Err("Token expired"@)
                    } else {
                        claims_fields(claims)
                    }
                } else if t == "refresh"@ {
                    if now - iat > refresh_ttl {
                        Err("Refresh token expired"@)
                    } else {
                        claims_fields(claims)
                    }
                } else {
                    Err("Invalid 'type' claim"@)
                },
                None => Err("Invalid 'type' claim"@),
            },
        },
    }
}

/// Checks verified claims at the time `now` (see `token_verdict`).
pub fn check_token_claims(
    claims: &Vec<(String, String)>,
    now: i64,
    access_ttl: i64,
    refresh_ttl: i64,
) -> (r: Result<TokenClaims, String>)
    ensures
        claims_result_view(r) == token_verdict(
            claims_view(claims@),
            now as int,
            access_ttl as int,
            refresh_ttl as int,
        ),
{
    let text = match find_claim(claims, "iat") {
        Some(t) => t,
        None => {
            return Err(owned("Token missing 'iat' claim"));
        },
    };
    let iat = match parse_i64(text.as_str()) {
        Some(v) => v,
        None => {
            return Err(owned("Invalid 'iat' claim"));
        },
    };
    let age: i128 = now as i128 - iat as i128;
    match find_claim(claims, "type") {
        Some(t) => {
            if t == owned("access") {
                if age > access_ttl as i128 {
                    return Err(owned("Token expired"));
                }
            } else if t == owned("refresh") {
                if age > refresh_ttl as i128 {
                    return Err(owned("Refresh token expired"));
                }
            } else {
                return Err(owned("Invalid 'type' claim"));
            }
        },
        None => {
            return Err(owned("Invalid 'type' claim"));
        },
    }
    TokenClaims::from_claims(claims)
}

// ---------------------------------------------------------------------------
// Signed tokens (HS384)
// ---------------------------------------------------------------------------
/// Claim names in strictly increasing order, as a `BTreeMap` keeps them.
pub open spec fn names_ascending(claims: Seq<(Seq<char>, Seq<char>)>) -> bool {
    forall|i: int, j: int|
        0 <= i < j < claims.len() ==> seq_le(claims[i].0, claims[j].0) && claims[i].0
            != claims[j].0
}

/// The token that `jwt` signs for `claims` with an HS384 header and the key
/// `secret`.
pub uninterp spec fn hs384_token(secret: Seq<char>, claims: Seq<(Seq<char>, Seq<char>)>) -> Seq<char>;

/// The claims, in name order, that `jwt` reads from `token` after checking
/// its HS384 signature with the key `secret`; `None` when it refuses it.
pub uninterp spec fn hs384_claims(secret: Seq<char>, token: Seq<char>) -> Option<
    Seq<(Seq<char>, Seq<char>)>,
>;

/// `jwt::SignWithKey::sign_with_key` on a token with an HS384 header and the
/// claims as a `BTreeMap`, keyed by `Hmac<Sha384>` from the bytes of
/// `secret`. Claimed: the token is the name `hs384_token`, and verifying it
/// with the same key gives the claims back (the signature is recomputed
/// over the same header and claims text, and the JSON of a string map
/// reads back to the same map). Signing never fails: `Hmac::new_from_slice`
/// accepts a key of any length, the header's algorithm is the key's
/// (`Hs384`), the JSON of the header and of a map of strings is always
/// written, and the HMAC signature is always computed.
#[verifier::external_body]
fn sign_hs384(secret: &str, claims: &Vec<(String, String)>) -> (r: Result<String, String>)
    requires
        names_ascending(claims_view(claims@)),
    ensures
        r is Ok,
        r matches Ok(t) ==> t@ == hs384_token(secret@, claims_view(claims@)) && hs384_claims(
            secret@,
            t@,
        ) == Some(claims_view(claims@)),
{
    let key = <hmac::Hmac<sha2::Sha384> as hmac::Mac>::new_from_slice(secret.as_bytes()).map_err(|e| e.to_string())?;
    let map: std::collections::BTreeMap<String, String> = claims.iter().cloned().collect();
    let header = ::jwt::Header { algorithm: ::jwt::AlgorithmType::Hs384, ..Default::default() };
    let token = ::jwt::Token::new(header, map).sign_with_key(&key).map_err(|e| e.to_string())?;
    Ok(token.as_str().to_string())
}

/// `jwt::VerifyWithKey::verify_with_key` on `token` with `Hmac<Sha384>` from
/// the bytes of `secret`, into a `BTreeMap` of claims handed out in name
/// order. Claimed: the result is the name `hs384_claims`.
#[verifier::external_body]
fn verify_hs384(secret: &str, token: &str) -> (r: Result<Vec<(String, String)>, String>)
    ensures
        match r {
            Ok(c) => hs384_claims(secret@, token@) == Some(claims_view(c@)),
            Err(_) => hs384_claims(secret@, token@) is None,
        },
{
    let key = <hmac::Hmac<sha2::Sha384> as hmac::Mac>::new_from_slice(secret.as_bytes()).map_err(|e| e.to_string())?;
    let map: std::collections::BTreeMap<String, String> = token.verify_with_key(&key).map_err(|e| e.to_string())?;
    Ok(map.into_iter().collect())
}

/// The claims of a token issued at `iat` for `user_id`, of type
/// `token_type`, in name order.
pub open spec fn issued_claims(iat: Seq<char>, token_type: Seq<char>, user_id: Seq<char>) -> Seq<
    (Seq<char>, Seq<char>),
> {
    seq![("iat"@, iat), ("type"@, token_type), ("user_id"@, user_id)]
}

proof fn lemma_issued_names_ascending(iat: Seq<char>, token_type: Seq<char>, user_id: Seq<char>)
    ensures
        names_ascending(issued_claims(iat, token_type, user_id)),
{
    reveal_strlit("iat");
    reveal_strlit("type");
    reveal_strlit("user_id");
    let c = issued_claims(iat, token_type, user_id);
    assert(seq_le(c[0].0, c[1].0));
    assert(seq_le(c[0].0, c[2].0));
    assert(seq_le(c[1].0, c[2].0));
    assert(c[0].0[0] != c[1].0[0]);
    assert(c[0].0[0] != c[2].0[0]);
    assert(c[1].0[0] != c[2].0[0]);
}

/// Signs the token of `user_id` of type `token_type` issued at `now`
/// (seconds since the epoch, written in decimal as `iat`).
pub fn generate_jwt_at(secret: &str, user_id: &String, token_type: &str, now: i64) -> (r: Result<
    String,
    String,
>)
    ensures
        r is Ok,
        r matches Ok(t) ==> t@ == hs384_token(
            secret@,
            issued_claims(int_decimal(now as int), token_type@, user_id@),
        ) && hs384_claims(secret@, t@) == Some(
            issued_claims(int_decimal(now as int), token_type@, user_id@),
        ),
{
    let mut claims: Vec<(String, String)> = Vec::new();
    claims.push((owned("iat"), i64_to_decimal(now)));
    claims.push((owned("type"), owned(token_type)));
    claims.push((owned("user_id"), user_id.clone()));
    proof {
        assert(claims_view(claims@) =~= issued_claims(
            int_decimal(now as int),
            token_type@,
            user_id@,
        ));
        lemma_issued_names_ascending(int_decimal(now as int), token_type@, user_id@);
    }
    sign_hs384(secret, &claims)
}

/// Signs the token of `user_id` of type `token_type`, issued now.
pub fn generate_jwt(secret: &str, user_id: &String, token_type: &str) -> (r: Result<String, String>)
    ensures
        r is Ok,
        r matches Ok(t) ==> exists|now: i64|
            t@ == hs384_token(
                secret@,
                issued_claims(#[trigger] int_decimal(now as int), token_type@, user_id@),
            ) && hs384_claims(secret@, t@) == Some(
                issued_claims(int_decimal(now as int), token_type@, user_id@),
            ),
        r matches Ok(t) ==> exists|at: ClockReading|
            t@ == hs384_token(
                secret@,
                issued_claims(#[trigger] int_decimal(at.secs()), token_type@, user_id@),
            ) && hs384_claims(secret@, t@) == Some(
                issued_claims(int_decimal(at.secs()), token_type@, user_id@),
            ),
{
    let at = unix_now();
    let now = at.seconds();
    let r = generate_jwt_at(secret, user_id, token_type, now);
    proof {
        let t = r->Ok_0;
        assert(t@ == hs384_token(
            secret@,
            issued_claims(int_decimal(at.secs()), token_type@, user_id@),
        ));
    }
    r
}

/// Verifies `token` with the configured secret and checks its claims at the
/// current time (see `token_verdict`); a token whose signature is refused
/// is an error.
pub fn decode_token(token: &str, config: &Config) -> (r: Result<TokenClaims, String>)
    ensures
        hs384_claims(config.jwt_secret@, token@) is None ==> r is Err,
        hs384_claims(config.jwt_secret@, token@) matches Some(c) ==> exists|now: int|
            i64::MIN <= now <= i64::MAX && claims_result_view(r) == #[trigger] token_verdict(
                c,
                now,
                config.token_expiration_seconds as int,
                config.refresh_token_expiration_seconds as int,
            ),
        hs384_claims(config.jwt_secret@, token@) matches Some(c) ==> exists|at: ClockReading|
            claims_result_view(r) == #[trigger] token_verdict(
                c,
                at.secs(),
                config.token_expiration_seconds as int,
                config.refresh_token_expiration_seconds as int,
            ),
{
    let claims = match verify_hs384(config.jwt_secret.as_str(), token) {
        Ok(c) => c,
        Err(e) => {
            return Err(e);
        },
    };
    let at = unix_now();
    let now = at.seconds();
    let r = check_token_claims(
        &claims,
        now,
        config.token_expiration_seconds,
        config.refresh_token_expiration_seconds,
    );
    proof {
        assert(hs384_claims(config.jwt_secret@, token@) == Some(claims_view(claims@)));
        assert(i64::MIN <= now as int <= i64::MAX);
        assert(claims_result_view(r) == token_verdict(
            claims_view(claims@),
            now as int,
            config.token_expiration_seconds as int,
            config.refresh_token_expiration_seconds as int,
        ));
        let c = hs384_claims(config.jwt_secret@, token@)->Some_0;
        assert(c == claims_view(claims@));
        assert(exists|n: int|
            i64::MIN <= n <= i64::MAX && claims_result_view(r) == #[trigger] token_verdict(
                c,
                n,
                config.token_expiration_seconds as int,
                config.refresh_token_expiration_seconds as int,
            ));
    }
    r
}

/// A token issued at `iat` and read at `now`, within its lifetime, is
/// accepted with its claims, when it is an `access` or a `refresh` token.
pub proof fn lemma_live_token_accepted(
    iat: i64,
    now: int,
    token_type: Seq<char>,
    user_id: Seq<char>,
    access_ttl: int,
    refresh_ttl: int,
)
    requires
        token_type == "access"@ ==> now - iat <= access_ttl,
        token_type == "refresh"@ ==> now - iat <= refresh_ttl,
        token_type == "access"@ || token_type == "refresh"@,
    ensures
        token_verdict(
            issued_claims(int_decimal(iat as int), token_type, user_id),
            now,
            access_ttl,
            refresh_ttl,
        ) == Ok::<(Seq<char>, Seq<char>, Seq<char>), Seq<char>>(
            (int_decimal(iat as int), user_id, token_type),
        ),
{
    reveal_strlit("iat");
    reveal_strlit("type");
    reveal_strlit("user_id");
    let c = issued_claims(int_decimal(iat as int), token_type, user_id);
    lemma_decimal_roundtrip(iat);
    assert(c.drop_first().drop_first().drop_first().len() == 0);
    assert(claim_of(c, "iat"@) == Some(int_decimal(iat as int)));
    assert("iat"@.len() == 3 && "type"@.len() == 4 && "user_id"@.len() == 7);
    assert(c[1].0 != "iat"@);
    assert(claim_of(c.drop_first(), "type"@) == Some(token_type));
    assert(claim_of(c, "type"@) == Some(token_type));
    assert(c[0].0 != "user_id"@);
    assert(c.drop_first()[0].0 != "user_id"@);
    assert(claim_of(c.drop_first().drop_first(), "user_id"@) == Some(user_id));
    assert(claim_of(c.drop_first(), "user_id"@) == Some(user_id));
    assert(claim_of(c, "user_id"@) == Some(user_id));
}

/// A token read at the instant it was issued is accepted, with its claims,
/// when it is an `access` or a `refresh` token and its lifetime is not
/// negative.
pub proof fn lemma_fresh_token_accepted(
    now: i64,
    token_type: Seq<char>,
    user_id: Seq<char>,
    access_ttl: int,
    refresh_ttl: int,
)
    requires
        token_type == "access"@ || token_type == "refresh"@,
        access_ttl >= 0,
        refresh_ttl >= 0,
    ensures
        token_verdict(
            issued_claims(int_decimal(now as int), token_type, user_id),
            now as int,
            access_ttl,
            refresh_ttl,
        ) == Ok::<(Seq<char>, Seq<char>, Seq<char>), Seq<char>>(
            (int_decimal(now as int), user_id, token_type),
        ),
{
    lemma_live_token_accepted(now, now as int, token_type, user_id, access_ttl, refresh_ttl);
}

/// A token issued at `iat` (seconds) and read at `now` after its lifetime
/// has passed is refused as expired: an access token older than
/// `access_ttl` seconds with "Token expired", a refresh token older than
/// `refresh_ttl` seconds with "Refresh token expired". With `generate_jwt`
/// issuing at a clock reading and `decode_token` judging at one, a token
/// decoded too long after it was issued is refused.
pub proof fn lemma_issued_token_expires(
    iat: i64,
    now: int,
    token_type: Seq<char>,
    user_id: Seq<char>,
    access_ttl: int,
    refresh_ttl: int,
)
    ensures
        token_type == "access"@ && now - iat > access_ttl ==> token_verdict(
            issued_claims(int_decimal(iat as int), token_type, user_id),
            now,
            access_ttl,
            refresh_ttl,
        ) == Err::<(Seq<char>, Seq<char>, Seq<char>), Seq<char>>("Token expired"@),
        token_type == "refresh"@ && now - iat > refresh_ttl ==> token_verdict(
            issued_claims(int_decimal(iat as int), token_type, user_id),
            now,
            access_ttl,
            refresh_ttl,
        ) == Err::<(Seq<char>, Seq<char>, Seq<char>), Seq<char>>("Refresh token expired"@),
{
    reveal_strlit("iat");
    reveal_strlit("type");
    reveal_strlit("user_id");
    reveal_strlit("access");
    reveal_strlit("refresh");
    let c = issued_claims(int_decimal(iat as int), token_type, user_id);
    lemma_decimal_roundtrip(iat);
    assert(claim_of(c, "iat"@) == Some(int_decimal(iat as int)));
    assert("iat"@.len() == 3 && "type"@.len() == 4 && "user_id"@.len() == 7);
    assert(c[1].0 != "iat"@);
    assert(claim_of(c.drop_first(), "type"@) == Some(token_type));
    assert(claim_of(c, "type"@) == Some(token_type));
    assert("access"@.len() != "refresh"@.len());
}

/// A token older than its lifetime is refused as expired.
pub proof fn lemma_old_token_expired(
    claims: Seq<(Seq<char>, Seq<char>)>,
    iat: i64,
    now: int,
    access_ttl: int,
    refresh_ttl: int,
)
    requires
        claim_of(claims, "iat"@) == Some(int_decimal(iat as int)),
        claim_of(claims, "type"@) == Some("access"@) ==> now - iat > access_ttl,
        claim_of(claims, "type"@) == Some("refresh"@) ==> now - iat > refresh_ttl,
    ensures
        token_verdict(claims, now, access_ttl, refresh_ttl) is Err,
{
    lemma_decimal_roundtrip(iat);
}

// ---------------------------------------------------------------------------
// Stored refresh tokens (AES-256-GCM, base64)
// ---------------------------------------------------------------------------
/// What AES-256-GCM gives for `plaintext` under `key` and `nonce`: the
/// ciphertext followed by its tag.
pub uninterp spec fn gcm_sealed(key: Seq<u8>, nonce: Seq<u8>, plaintext: Seq<u8>) -> Seq<u8>;

/// What AES-256-GCM gives back of `ciphertext` (tag included) under `key`
/// and `nonce`; `None` when the tag does not match.
pub uninterp spec fn gcm_opened(key: Seq<u8>, nonce: Seq<u8>, ciphertext: Seq<u8>) -> Option<
    Seq<u8>,
>;

/// The character of the standard base64 alphabet for the six bits `n`:
/// `A`-`Z`, `a`-`z`, `0`-`9`, `+`, `/`.
pub open spec fn base64_char(n: int) -> char {
    if n < 26 {
        ('A' as int + n) as char
    } else if n < 52 {
        ('a' as int + n - 26) as char
    } else if n < 62 {
        ('0' as int + n - 52) as char
    } else if n == 62 {
        '+'
    } else {
        '/'
    }
}

/// The four characters of a group of one to three bytes: their bits, six
/// at a time, with the last group filled with zero bits and padded with
/// `=` to four characters.
pub open spec fn base64_group(g: Seq<u8>) -> Seq<char> {
    let b0 = g[0] as int;
    let b1 = if g.len() > 1 { g[1] as int } else { 0 };
    let b2 = if g.len() > 2 { g[2] as int } else { 0 };
    seq![
        base64_char(b0 / 4),
        base64_char((b0 % 4) * 16 + b1 / 16),
        if g.len() > 1 { base64_char((b1 % 16) * 4 + b2 / 64) } else { '=' },
        if g.len() > 2 { base64_char(b2 % 64) } else { '=' },
    ]
}

/// The standard base64 text (with padding) of `bytes`: each group of three
/// bytes, in order, as four characters.
pub open spec fn base64_text(bytes: Seq<u8>) -> Seq<char>
    decreases bytes.len(),
{
    if bytes.len() == 0 {
        Seq::empty()
    } else if bytes.len() <= 3 {
        base64_group(bytes)
    } else {
        base64_group(bytes.take(3)) + base64_text(bytes.skip(3))
    }
}

/// The bytes of the standard base64 text `text`; `None` when it is not one.
pub uninterp spec fn base64_bytes(text: Seq<char>) -> Option<Seq<u8>>;

/// The largest plaintext that AES-GCM encrypts, in bytes.
pub open spec fn gcm_max_plaintext() -> int {
    0x1000000000
}

/// `aead::Aead::encrypt` of `aes_gcm::Aes256Gcm`, built from `key` with
/// `KeyInit::new_from_slice`. Claimed: no cipher (so `None`) unless the key
/// has 32 bytes; a ciphertext for plaintexts up to `P_MAX` bytes; the
/// ciphertext is the name `gcm_sealed`, and decrypting it with the same key
/// and nonce gives the plaintext back.
#[verifier::external_body]
fn aes_gcm_encrypt(key: &[u8], nonce: &[u8], plaintext: &[u8]) -> (r: Option<Vec<u8>>)
    requires
        nonce@.len() == 12,
    ensures
        key@.len() != 32 ==> r is None,
        key@.len() == 32 && plaintext@.len() <= gcm_max_plaintext() ==> r is Some,
        r matches Some(c) ==> c@ == gcm_sealed(key@, nonce@, plaintext@) && gcm_opened(
            key@,
            nonce@,
            c@,
        ) == Some(plaintext@),
{
    let cipher = <aes_gcm::Aes256Gcm as aes_gcm::KeyInit>::new_from_slice(key).ok()?;
    cipher.encrypt(aes_gcm::Nonce::from_slice(nonce), plaintext).ok()
}

/// `aead::Aead::decrypt` of `aes_gcm::Aes256Gcm`, built from `key` with
/// `KeyInit::new_from_slice`. Claimed: `None` unless the key has 32 bytes;
/// otherwise the result is the name `gcm_opened`.
#[verifier::external_body]
fn aes_gcm_decrypt(key: &[u8], nonce: &[u8], ciphertext: &[u8]) -> (r: Option<Vec<u8>>)
    requires
        nonce@.len() == 12,
    ensures
        key@.len() != 32 ==> r is None,
        key@.len() == 32 ==> match r {
            Some(p) => gcm_opened(key@, nonce@, ciphertext@) == Some(p@),
            None => gcm_opened(key@, nonce@, ciphertext@) is None,
        },
{
    let cipher = <aes_gcm::Aes256Gcm as aes_gcm::KeyInit>::new_from_slice(key).ok()?;
    cipher.decrypt(aes_gcm::Nonce::from_slice(nonce), ciphertext).ok()
}

/// `aead::AeadCore::generate_nonce` of `aes_gcm::Aes256Gcm` with `OsRng`: a
/// random nonce. Claimed: it has 12 bytes (the cipher's nonce size).
#[verifier::external_body]
fn random_nonce() -> (r: Vec<u8>)
    ensures
        r@.len() == 12,
{
    aes_gcm::Aes256Gcm::generate_nonce(&mut OsRng).to_vec()
}

/// `base64::Engine::encode` of the `STANDARD` engine (standard alphabet,
/// padding). Claimed: the text is `base64_text` of the bytes, and decoding
/// it gives the bytes back.
#[verifier::external_body]
fn base64_encode(bytes: &[u8]) -> (r: String)
    ensures
        r@ == base64_text(bytes@),
        base64_bytes(r@) == Some(bytes@),
{
    base64::engine::general_purpose::STANDARD.encode(bytes)
}

/// `base64::Engine::decode` of the `STANDARD` engine. Claimed: the result
/// is the name `base64_bytes`; the error is the decoder's message. As the
/// engine requires canonical padding and no trailing bits, it accepts
/// exactly the texts that encode some bytes, and gives those bytes.
#[verifier::external_body]
fn base64_decode(text: &str) -> (r: Result<Vec<u8>, String>)
    ensures
        match r {
            Ok(b) => base64_bytes(text@) == Some(b@) && base64_text(b@) == text@,
            Err(_) => base64_bytes(text@) is None && forall|b: Seq<u8>|
                #[trigger] base64_text(b) != text@,
        },
{
    base64::engine::general_purpose::STANDARD.decode(text).map_err(|e| e.to_string())
}

/// `std::string::String::from_utf8`: the text that `bytes` encode, or the
/// error when they are not UTF-8.
#[verifier::external_body]
fn string_from_utf8(bytes: Vec<u8>) -> (r: Result<String, String>)
    ensures
        match r {
            Ok(s) => valid_utf8(bytes@) && s@ == decode_utf8(bytes@),
            Err(_) => !valid_utf8(bytes@),
        },
{
    String::from_utf8(bytes).map_err(|e| e.to_string())
}

/// The refresh token stored as `encrypted` under the AES key `key`: the
/// standard base64 of a 12-byte nonce followed by the AES-256-GCM
/// ciphertext of the token's UTF-8 bytes; `None` when it does not decrypt.
pub open spec fn refresh_token_plaintext(key: Seq<char>, encrypted: Seq<char>) -> Option<Seq<char>> {
    if encode_utf8(key).len() != 32 {
        None
    } else {
        match base64_bytes(encrypted) {
            None => None,
            Some(b) => if b.len() < 12 {
                None
            } else {
                match gcm_opened(encode_utf8(key), b.take(12), b.skip(12)) {
                    None => None,
                    Some(p) => if valid_utf8(p) {
                        Some(decode_utf8(p))
                    } else {
                        None
                    },
                }
            },
        }
    }
}

/// Encrypts the refresh token `jwt` for storage under the AES key
/// `aes_key`, with a fresh random nonce. Whatever the nonce, the stored text
/// decrypts back to `jwt`.
pub fn encrypt_aes_refresh_token(aes_key: &str, jwt: &str) -> (r: Result<String, String>)
    ensures
        encode_utf8(aes_key@).len() != 32 ==> (r matches Err(e) && e@ == "Invalid Length"@),
        encode_utf8(aes_key@).len() == 32 && encode_utf8(jwt@).len() <= gcm_max_plaintext()
            ==> r is Ok,
        r matches Ok(e) ==> refresh_token_plaintext(aes_key@, e@) == Some(jwt@),
        r matches Err(e) ==> (encode_utf8(aes_key@).len() != 32 && e@ == "Invalid Length"@) || (
        encode_utf8(aes_key@).len() == 32 && e@ == "Encryption failed : aead::Error"@),
{
    let key = aes_key.as_bytes();
    let nonce = random_nonce();
    let plaintext = jwt.as_bytes();
    let sealed = match aes_gcm_encrypt(key, nonce.as_slice(), plaintext) {
        Some(c) => c,
        None => {
            if key.len() != 32 {
                return Err(owned("Invalid Length"));
            }
            return Err(owned("Encryption failed : aead::Error"));
        },
    };
    let mut combined: Vec<u8> = Vec::new();
    let mut i: usize = 0;
    while i < nonce.len()
        invariant
            i <= nonce@.len(),
            combined@ == nonce@.take(i as int),
        decreases nonce@.len() - i,
    {
        combined.push(nonce[i]);
        proof {
            assert(combined@ =~= nonce@.take(i + 1));
        }
        i = i + 1;
    }
    let mut j: usize = 0;
    while j < sealed.len()
        invariant
            j <= sealed@.len(),
            nonce@.len() == 12,
            combined@ == nonce@ + sealed@.take(j as int),
        decreases sealed@.len() - j,
    {
        combined.push(sealed[j]);
        proof {
            assert(combined@ =~= nonce@ + sealed@.take(j + 1));
        }
        j = j + 1;
    }
    proof {
        assert(nonce@.take(12) =~= nonce@);
        assert(sealed@.take(sealed@.len() as int) =~= sealed@);
        assert(combined@.take(12) =~= nonce@);
        assert(combined@.skip(12) =~= sealed@);
    }
    Ok(base64_encode(combined.as_slice()))
}

/// Decrypts a stored refresh token (see `refresh_token_plaintext`).
pub fn decrypt_aes_refresh_token(aes_key: &str, encrypted_jwt: &str) -> (r: Result<String, String>)
    ensures
        match refresh_token_plaintext(aes_key@, encrypted_jwt@) {
            Some(p) => r matches Ok(s) && s@ == p,
            None => r is Err,
        },
{
    let key = aes_key.as_bytes();
    if key.len() != 32 {
        return Err(owned("Invalid Length"));
    }
    let combined = match base64_decode(encrypted_jwt) {
        Ok(b) => b,
        Err(e) => {
            return Err(e);
        },
    };
    if combined.len() < 12 {
        return Err(owned("Invalid encrypted token"));
    }
    let mut nonce: Vec<u8> = Vec::new();
    let mut i: usize = 0;
    while i < 12
        invariant
            i <= 12,
            combined@.len() >= 12,
            nonce@ == combined@.take(i as int),
        decreases 12 - i,
    {
        nonce.push(combined[i]);
        proof {
            assert(nonce@ =~= combined@.take(i + 1));
        }
        i = i + 1;
    }
    let mut sealed: Vec<u8> = Vec::new();
    let mut j: usize = 12;
    while j < combined.len()
        invariant
            12 <= j <= combined@.len(),
            sealed@ == combined@.subrange(12, j as int),
        decreases combined@.len() - j,
    {
        sealed.push(combined[j]);
        proof {
            assert(sealed@ =~= combined@.subrange(12, j + 1));
        }
        j = j + 1;
    }
    proof {
        assert(sealed@ =~= combined@.skip(12));
    }
    let plain = match aes_gcm_decrypt(key, nonce.as_slice(), sealed.as_slice()) {
        Some(p) => p,
        None => {
            return Err(owned("Decryption failed aead::Error"));
        },
    };
    string_from_utf8(plain)
}

/// Whether one of the stored refresh tokens of a user decrypts to `jwt`.
pub fn check_if_refresh_token_in_db(jwt: &String, stored: &Vec<RefreshToken>, aes_key: &str) -> (r:
    bool)
    ensures
        r == exists|i: int|
            0 <= i < stored@.len() && refresh_token_plaintext(aes_key@, #[trigger] stored@[i].token@)
                == Some(jwt@),
{
    let mut i: usize = 0;
    while i < stored.len()
        invariant
            i <= stored@.len(),
            forall|k: int|
                0 <= k < i ==> refresh_token_plaintext(aes_key@, #[trigger] stored@[k].token@)
                    != Some(jwt@),
        decreases stored@.len() - i,
    {
        match decrypt_aes_refresh_token(aes_key, stored[i].token.as_str()) {
            Ok(t) => {
                if t == *jwt {
                    return true;
                }
            },
            Err(_) => {},
        }
        i = i + 1;
    }
    false
}

/// The id of a stored refresh token, by view.
pub open spec fn record_id_view(id: Option<String>) -> Option<Seq<char>> {
    match id {
        Some(s) => Some(s@),
        None => None,
    }
}

/// The record to delete when the refresh token `jwt` is used: the first
/// stored token that decrypts to it; `Refresh token not found` when none
/// does.
pub fn refresh_token_record(jwt: &String, stored: &Vec<RefreshToken>, aes_key: &str) -> (r: Result<
    Option<String>,
    String,
>)
    ensures
        match r {
            Ok(id) => exists|i: int|
                0 <= i < stored@.len() && refresh_token_plaintext(
                    aes_key@,
                    #[trigger] stored@[i].token@,
                ) == Some(jwt@) && record_id_view(id) == record_id_view(stored@[i].id) && forall|
                    k: int,
                |
                    0 <= k < i ==> refresh_token_plaintext(aes_key@, #[trigger] stored@[k].token@)
                        != Some(jwt@),
            Err(e) => e@ == "Refresh token not found"@ && forall|k: int|
                0 <= k < stored@.len() ==> refresh_token_plaintext(
                    aes_key@,
                    #[trigger] stored@[k].token@,
                ) != Some(jwt@),
        },
{
    let mut i: usize = 0;
    while i < stored.len()
        invariant
            i <= stored@.len(),
            forall|k: int|
                0 <= k < i ==> refresh_token_plaintext(aes_key@, #[trigger] stored@[k].token@)
                    != Some(jwt@),
        decreases stored@.len() - i,
    {
        match decrypt_aes_refresh_token(aes_key, stored[i].token.as_str()) {
            Ok(t) => {
                if t == *jwt {
                    let id = match &stored[i].id {
                        Some(s) => Some(s.clone()),
                        None => None,
                    };
                    return Ok(id);
                }
            },
            Err(_) => {},
        }
        i = i + 1;
    }
    Err(owned("Refresh token not found"))
}

} // verus!
