use vstd::prelude::*;
use vstd::string::*;
use vstd::utf8::*;

use crate::config::Config;
use crate::jwt::{
    check_if_refresh_token_in_db, claims_result_view, decode_token, encrypt_aes_refresh_token,
    generate_jwt, gcm_max_plaintext, hs384_claims, hs384_token, issued_claims, record_id_view, refresh_token_plaintext,
    lemma_fresh_token_accepted, lemma_live_token_accepted, refresh_token_record, token_verdict,
};
use crate::models::{ActivityStatus, RefreshToken, User};
use crate::roles::result_view;
use crate::text::{int_decimal, owned};

verus! {

// ---------------------------------------------------------------------------
// Requests and answers
// ---------------------------------------------------------------------------
/// The body of a sign-up.
#[derive(Debug)]
pub struct CreateUser {
    pub name: String,
    pub password: String,
    pub email: String,
}

/// The body of a login.
#[derive(Debug)]
pub struct LoginUser {
    pub email: String,
    pub password: String,
}

/// The token pair handed out on sign-up, login and refresh.
#[derive(Debug)]
pub struct LoginSuccess {
    pub token: String,
    pub refresh_token: String,
}

/// The body of a token refresh.
#[derive(Debug)]
pub struct RefreshTokenRequest {
    pub refresh_token: String,
}

/// The body of a DM channel creation.
#[derive(Debug)]
pub struct CreateDmChannelRequest {
    pub recipient_ids: Vec<String>,
}

/// The user that a request's bearer token authenticates.
#[derive(Debug)]
pub struct AuthenticatedUser {
    pub user_id: String,
    pub token: String,
}

// ---------------------------------------------------------------------------
// Accepted tokens
// ---------------------------------------------------------------------------
/// `token` carries a valid signature under `secret`, and at some instant
/// its claims were accepted as those of `user_id`.
pub open spec fn accepted_for(
    secret: Seq<char>,
    token: Seq<char>,
    access_ttl: int,
    refresh_ttl: int,
    user_id: Seq<char>,
) -> bool {
    match hs384_claims(secret, token) {
        None => false,
        Some(c) => exists|now: int|
            i64::MIN <= now <= i64::MAX && match #[trigger] token_verdict(
                c,
                now,
                access_ttl,
                refresh_ttl,
            ) {
                Ok(t) => t.1 == user_id,
                Err(_) => false,
            },
    }
}

/// `token` has no valid signature under `secret`, or at some instant its
/// claims were refused.
pub open spec fn refused(secret: Seq<char>, token: Seq<char>, access_ttl: int, refresh_ttl: int) -> bool {
    match hs384_claims(secret, token) {
        None => true,
        Some(c) => exists|now: int|
            i64::MIN <= now <= i64::MAX && (#[trigger] token_verdict(
                c,
                now,
                access_ttl,
                refresh_ttl,
            )) is Err,
    }
}

// ---------------------------------------------------------------------------
// Issued tokens
// ---------------------------------------------------------------------------
/// `token` was signed with `secret` for `user_id`, of type `token_type`, at
/// some instant, and verifies back to those claims.
pub open spec fn issued_token(
    secret: Seq<char>,
    token: Seq<char>,
    token_type: Seq<char>,
    user_id: Seq<char>,
) -> bool {
    exists|now: i64|
        token == hs384_token(secret, issued_claims(#[trigger] int_decimal(now as int), token_type, user_id))
            && hs384_claims(secret, token) == Some(
            issued_claims(int_decimal(now as int), token_type, user_id),
        )
}

/// Every refresh token that could be signed for `user_id` with `secret`,
/// whatever instant it is issued at, is short enough for AES-GCM to
/// encrypt (at most `gcm_max_plaintext()` bytes of UTF-8).
pub open spec fn refresh_tokens_fit(secret: Seq<char>, user_id: Seq<char>) -> bool {
    forall|now: i64|
        #[trigger] encode_utf8(
            hs384_token(secret, issued_claims(int_decimal(now as int), "refresh"@, user_id)),
        ).len() <= gcm_max_plaintext()
}

/// A refresh token issued for `user_id` is short enough to encrypt when
/// every such token is.
proof fn lemma_issued_refresh_token_fits(secret: Seq<char>, token: Seq<char>, user_id: Seq<char>)
    requires
        issued_token(secret, token, "refresh"@, user_id),
        refresh_tokens_fit(secret, user_id),
    ensures
        encode_utf8(token).len() <= gcm_max_plaintext(),
{
    let now = choose|now: i64|
        token == hs384_token(secret, issued_claims(#[trigger] int_decimal(now as int), "refresh"@, user_id))
            && hs384_claims(secret, token) == Some(
            issued_claims(int_decimal(now as int), "refresh"@, user_id),
        );
    assert(encode_utf8(
        hs384_token(secret, issued_claims(int_decimal(now as int), "refresh"@, user_id)),
    ).len() <= gcm_max_plaintext());
}

/// The `access` and `refresh` tokens of `user_id`, signed now.
fn issue_tokens(secret: &str, user_id: &String) -> (l: LoginSuccess)
    ensures
        issued_token(secret@, l.token@, "access"@, user_id@),
        issued_token(secret@, l.refresh_token@, "refresh"@, user_id@),
{
    let token = generate_jwt(secret, user_id, "access").unwrap();
    let refresh_token = generate_jwt(secret, user_id, "refresh").unwrap();
    LoginSuccess { token, refresh_token }
}

// ---------------------------------------------------------------------------
// Sign-up
// ---------------------------------------------------------------------------
/// The user record of a sign-up, given how many users already have its
/// email or name and the outcome of hashing its password: `409` when any
/// does; `500` when hashing failed; otherwise a record with the hashed
/// password, the name as display name, no picture, online, created at
/// `created_at`.
pub fn signup(
    request: &CreateUser,
    existing_users: usize,
    hashed_password: Result<String, String>,
    created_at: String,
) -> (r: Result<User, (u16, String)>)
    ensures
        existing_users > 0 ==> result_view(r) == Err::<User, (u16, Seq<char>)>(
            (409, "Email ou Nom d'utilisateur déjà utilisé"@),
        ),
        existing_users == 0 ==> match hashed_password {
            Err(_) => result_view(r) == Err::<User, (u16, Seq<char>)>(
                (500, "Erreur de hashage du mot de passe"@),
            ),
            Ok(h) => r matches Ok(u) && u.id is None && u.name@ == request.name@ && u.password@
                == h@ && u.email@ == request.email@ && u.display_name@ == request.name@
                && u.profile_picture@ == ""@ && u.status == ActivityStatus::Online
                && u.created_at@ == created_at@,
        },
{
    if existing_users > 0 {
        return Err((409, owned("Email ou Nom d'utilisateur déjà utilisé")));
    }
    match hashed_password {
        Err(_) => Err((500, owned("Erreur de hashage du mot de passe"))),
        Ok(h) => Ok(
            User {
                id: None,
                name: request.name.clone(),
                display_name: request.name.clone(),
                profile_picture: owned(""),
                email: request.email.clone(),
                password: h,
                status: ActivityStatus::Online,
                created_at,
            },
        ),
    }
}

/// What a successful sign-up or login hands out and stores.
#[derive(Debug)]
pub struct TokenGrant {
    pub user_id: String,
    pub login: LoginSuccess,
    /// The refresh token encrypted for storage.
    pub stored_refresh_token: String,
}

/// `g` grants `user_id` an access and a refresh token signed with `secret`,
/// and stores the refresh token encrypted under `aes_key`.
pub open spec fn granted(secret: Seq<char>, aes_key: Seq<char>, g: TokenGrant, user_id: Seq<char>) -> bool {
    &&& g.user_id@ == user_id
    &&& issued_token(secret, g.login.token@, "access"@, user_id)
    &&& issued_token(secret, g.login.refresh_token@, "refresh"@, user_id)
    &&& refresh_token_plaintext(aes_key, g.stored_refresh_token@) == Some(g.login.refresh_token@)
}

/// The key is an AES-256 key and every refresh token of `user_id` can be
/// encrypted with it: then handing out a token pair cannot fail.
pub open spec fn can_store_refresh_token(secret: Seq<char>, aes_key: Seq<char>, user_id: Seq<char>) -> bool {
    encode_utf8(aes_key).len() == 32 && refresh_tokens_fit(secret, user_id)
}

/// Signs a token pair for `user_id` and encrypts its refresh token for
/// storage; the error is that of the encryption.
fn grant_tokens(secret: &str, aes_key: &str, user_id: String) -> (r: Result<TokenGrant, String>)
    ensures
        can_store_refresh_token(secret@, aes_key@, user_id@) ==> r is Ok,
        match r {
            Ok(g) => granted(secret@, aes_key@, g, user_id@),
            Err(e) => (encode_utf8(aes_key@).len() != 32 && e@ == "Invalid Length"@) || (
            can_store_refresh_token(secret@, aes_key@, user_id@) == false && encode_utf8(
                aes_key@,
            ).len() == 32 && e@ == "Encryption failed : aead::Error"@),
        },
{
    let login = issue_tokens(secret, &user_id);
    match encrypt_aes_refresh_token(aes_key, login.refresh_token.as_str()) {
        Ok(stored) => Ok(TokenGrant { user_id, login, stored_refresh_token: stored }),
        Err(e) => {
            proof {
                if can_store_refresh_token(secret@, aes_key@, user_id@) {
                    lemma_issued_refresh_token_fits(secret@, login.refresh_token@, user_id@);
                }
            }
            Err(e)
        },
    }
}

/// The answer to a sign-up once the user record was created (`None` when
/// the store gave nothing back): `201` with an access and a refresh token
/// for the new user's id, the refresh token also encrypted for storage so
/// that it can be exchanged later; `500` when it cannot be encrypted (the
/// AES key is not 32 bytes, or the token is longer than AES-GCM takes).
pub fn signup_tokens(secret: &str, aes_key: &str, created: Option<User>) -> (r: Result<
    (u16, TokenGrant),
    (u16, String),
>)
    ensures
        match created {
            None => r matches Err(e) && e.0 == 500 && e.1@ == "Erreur lors de la création"@,
            Some(u) => match u.id {
                None => r matches Err(e) && e.0 == 500 && e.1@
                    == "Erreur aucun ID trouvé pour cet utilisateur"@,
                Some(id) => {
                    &&& can_store_refresh_token(secret@, aes_key@, id@) ==> r is Ok
                    &&& match r {
                        Ok((status, g)) => status == 201 && granted(secret@, aes_key@, g, id@),
                        Err(e) => e.0 == 500 && e.1@ == "Erreur lors du stockage du refresh token"@
                            && !can_store_refresh_token(secret@, aes_key@, id@),
                    }
                },
            },
        },
{
    let user = match created {
        None => {
            return Err((500, owned("Erreur lors de la création")));
        },
        Some(u) => u,
    };
    let id = match user.id {
        None => {
            return Err((500, owned("Erreur aucun ID trouvé pour cet utilisateur")));
        },
        Some(id) => id,
    };
    match grant_tokens(secret, aes_key, id) {
        Ok(g) => Ok((201, g)),
        Err(_) => Err((500, owned("Erreur lors du stockage du refresh token"))),
    }
}

// ---------------------------------------------------------------------------
// Login
// ---------------------------------------------------------------------------
/// The invalid-credentials answer.
pub open spec fn invalid_credentials() -> (u16, Seq<char>) {
    (401, "Identifiants invalides"@)
}

/// The error of a refresh token that could not be stored.
pub fn refresh_store_error(error: &str) -> (r: (u16, String))
    ensures
        r.0 == 500,
        r.1@ == "Cannot store refresh token in db: "@ + error@,
{
    let mut text = owned("Cannot store refresh token in db: ");
    text.append(error);
    (500, text)
}

/// The outcome of a login, given the user found by email and the outcome of
/// checking the password against its hash: `401` without the user or with
/// a wrong password; `500` when hashing could not verify it, the user has
/// no id, or the refresh token cannot be encrypted for storage (the AES
/// key is not 32 bytes, or the token is longer than AES-GCM takes);
/// otherwise an access and a refresh token for the user, the refresh token
/// encrypted for storage.
pub fn signin(
    secret: &str,
    aes_key: &str,
    found: Option<User>,
    password_check: Result<bool, String>,
) -> (r: Result<TokenGrant, (u16, String)>)
    ensures
        found is None ==> result_view(r) == Err::<TokenGrant, (u16, Seq<char>)>(
            invalid_credentials(),
        ),
        found is Some ==> match password_check {
            Ok(false) => result_view(r) == Err::<TokenGrant, (u16, Seq<char>)>(
                invalid_credentials(),
            ),
            Err(e) => result_view(r) == Err::<TokenGrant, (u16, Seq<char>)>((500, e@)),
            Ok(true) => match found->0.id {
                None => result_view(r) == Err::<TokenGrant, (u16, Seq<char>)>(
                    (500, "No id found for this user"@),
                ),
                Some(id) => {
                    &&& can_store_refresh_token(secret@, aes_key@, id@) ==> r is Ok
                    &&& match r {
                        Ok(g) => granted(secret@, aes_key@, g, id@),
                        Err(e) => e.0 == 500 && ((encode_utf8(aes_key@).len() != 32 && e.1@
                            == "Cannot store refresh token in db: Invalid Length"@) || (encode_utf8(
                            aes_key@,
                        ).len() == 32 && !can_store_refresh_token(secret@, aes_key@, id@) && e.1@
                            == "Cannot store refresh token in db: Encryption failed : aead::Error"@)),
                    }
                },
            },
        },
{
    let user = match found {
        None => {
            return Err((401, owned("Identifiants invalides")));
        },
        Some(u) => u,
    };
    match password_check {
        Ok(false) => {
            return Err((401, owned("Identifiants invalides")));
        },
        Err(e) => {
            return Err((500, e));
        },
        Ok(true) => {},
    }
    let id = match user.id {
        None => {
            return Err((500, owned("No id found for this user")));
        },
        Some(id) => id,
    };
    match grant_tokens(secret, aes_key, id) {
        Ok(g) => Ok(g),
        Err(e) => {
            let r = refresh_store_error(e.as_str());
            proof {
                reveal_strlit("Cannot store refresh token in db: ");
                reveal_strlit("Invalid Length");
                reveal_strlit("Encryption failed : aead::Error");
                reveal_strlit("Cannot store refresh token in db: Invalid Length");
                reveal_strlit("Cannot store refresh token in db: Encryption failed : aead::Error");
                assert("Cannot store refresh token in db: "@ + "Invalid Length"@
                    =~= "Cannot store refresh token in db: Invalid Length"@);
                assert("Cannot store refresh token in db: "@ + "Encryption failed : aead::Error"@
                    =~= "Cannot store refresh token in db: Encryption failed : aead::Error"@);
            }
            Err(r)
        },
    }
}

// ---------------------------------------------------------------------------
// Token refresh
// ---------------------------------------------------------------------------
/// The user id of a refresh token that `decode_token` accepts; `401`
/// otherwise.
pub fn refresh_token_user(refresh_token: &String, config: &Config) -> (r: Result<String, (u16, String)>)
    ensures
        match r {
            Ok(u) => accepted_for(
                config.jwt_secret@,
                refresh_token@,
                config.token_expiration_seconds as int,
                config.refresh_token_expiration_seconds as int,
                u@,
            ),
            Err(e) => e.0 == 401 && e.1@ == "Token de rafraîchissement invalide"@ && refused(
                config.jwt_secret@,
                refresh_token@,
                config.token_expiration_seconds as int,
                config.refresh_token_expiration_seconds as int,
            ),
        },
{
    match decode_token(refresh_token.as_str(), config) {
        Ok(c) => Ok(c.user_id),
        Err(_) => Err((401, owned("Token de rafraîchissement invalide"))),
    }
}

/// What a refresh hands out, deletes and stores.
#[derive(Debug)]
pub struct RefreshGrant {
    pub login: LoginSuccess,
    /// The stored record of the refresh token that was used.
    pub used_record: Option<String>,
    /// The new refresh token encrypted for storage.
    pub stored_refresh_token: String,
}

/// One of the stored refresh tokens decrypts, under `aes_key`, to
/// `presented`.
pub open spec fn token_stored(aes_key: Seq<char>, stored: Seq<RefreshToken>, presented: Seq<char>) -> bool {
    exists|i: int|
        0 <= i < stored.len() && refresh_token_plaintext(aes_key, #[trigger] stored[i].token@)
            == Some(presented)
}

/// The stored refresh token at `i` is the first that decrypts to
/// `presented`.
pub open spec fn first_stored(
    aes_key: Seq<char>,
    stored: Seq<RefreshToken>,
    presented: Seq<char>,
    i: int,
) -> bool {
    &&& 0 <= i < stored.len()
    &&& refresh_token_plaintext(aes_key, stored[i].token@) == Some(presented)
    &&& forall|k: int|
        0 <= k < i ==> refresh_token_plaintext(aes_key, #[trigger] stored[k].token@) != Some(
            presented,
        )
}

/// The outcome of exchanging the refresh token `presented` of `user_id`,
/// given that user's stored refresh tokens: `401` exactly when none of
/// them is this token; `500` when the new refresh token cannot be encrypted
/// for storage; otherwise a new access and refresh token for the user, the
/// record of the first stored token that is this one (to delete) and the
/// new refresh token encrypted for storage.
pub fn refresh_token(
    presented: &String,
    user_id: &String,
    stored: &Vec<RefreshToken>,
    config: &Config,
) -> (r: Result<RefreshGrant, (u16, String)>)
    ensures
        !token_stored(config.aes_key@, stored@, presented@) ==> result_view(r) == Err::<
            RefreshGrant,
            (u16, Seq<char>),
        >((401, "Token de rafraîchissement non trouvé ou invalide"@)),
        token_stored(config.aes_key@, stored@, presented@) && refresh_tokens_fit(
            config.jwt_secret@,
            user_id@,
        ) ==> r is Ok,
        r matches Ok(g) ==> issued_token(config.jwt_secret@, g.login.token@, "access"@, user_id@)
            && issued_token(config.jwt_secret@, g.login.refresh_token@, "refresh"@, user_id@)
            && refresh_token_plaintext(config.aes_key@, g.stored_refresh_token@) == Some(
            g.login.refresh_token@,
        ) && exists|i: int|
            #[trigger] first_stored(config.aes_key@, stored@, presented@, i) && record_id_view(
                g.used_record,
            ) == record_id_view(stored@[i].id),
        r matches Err(e) ==> (!token_stored(config.aes_key@, stored@, presented@) && e.0 == 401
            && e.1@ == "Token de rafraîchissement non trouvé ou invalide"@) || (token_stored(
            config.aes_key@,
            stored@,
            presented@,
        ) && !refresh_tokens_fit(config.jwt_secret@, user_id@) && e.0 == 500 && e.1@
            == "Erreur lors du stockage du refresh token"@),
{
    if !check_if_refresh_token_in_db(presented, stored, config.aes_key.as_str()) {
        return Err((401, owned("Token de rafraîchissement non trouvé ou invalide")));
    }
    let used_record = match refresh_token_record(presented, stored, config.aes_key.as_str()) {
        Ok(id) => id,
        Err(_) => {
            return Err((401, owned("Token de rafraîchissement non trouvé ou invalide")));
        },
    };
    let ghost first = choose|i: int|
        0 <= i < stored@.len() && refresh_token_plaintext(
            config.aes_key@,
            #[trigger] stored@[i].token@,
        ) == Some(presented@) && record_id_view(used_record) == record_id_view(stored@[i].id)
            && forall|k: int|
            0 <= k < i ==> refresh_token_plaintext(config.aes_key@, #[trigger] stored@[k].token@)
                != Some(presented@);
    proof {
        assert(first_stored(config.aes_key@, stored@, presented@, first));
        assert(encode_utf8(config.aes_key@).len() == 32);
    }
    match grant_tokens(config.jwt_secret.as_str(), config.aes_key.as_str(), user_id.clone()) {
        Ok(g) => Ok(
            RefreshGrant {
                login: g.login,
                used_record,
                stored_refresh_token: g.stored_refresh_token,
            },
        ),
        Err(_) => Err((500, owned("Erreur lors du stockage du refresh token"))),
    }
}

// ---------------------------------------------------------------------------
// Bearer authentication
// ---------------------------------------------------------------------------
/// The token of an `Authorization` header: the text after `Bearer `, or the
/// whole header without that prefix.
pub open spec fn bearer_token_spec(header: Seq<char>) -> Seq<char> {
    if header.len() >= 7 && header.take(7) == "Bearer "@ {
        header.skip(7)
    } else {
        header
    }
}

/// The token of an `Authorization` header (see `bearer_token_spec`).
pub fn bearer_token(header: &str) -> (r: String)
    ensures
        r@ == bearer_token_spec(header@),
{
    let n = header.unicode_len();
    if n >= 7 {
        let head = owned(header.substring_char(0, 7));
        if head == owned("Bearer ") {
            return owned(header.substring_char(7, n));
        }
    }
    owned(header)
}

impl AuthenticatedUser {
    /// The user authenticated by an `Authorization` header: its bearer token
    /// must be accepted by `decode_token`; `None` without a header or with a
    /// refused token.
    pub fn from_header(header: Option<&str>, config: &Config) -> (r: Option<AuthenticatedUser>)
        ensures
            header is None ==> r is None,
            header matches Some(h) ==> match r {
                Some(u) => u.token@ == bearer_token_spec(h@) && accepted_for(
                    config.jwt_secret@,
                    u.token@,
                    config.token_expiration_seconds as int,
                    config.refresh_token_expiration_seconds as int,
                    u.user_id@,
                ),
                None => refused(
                    config.jwt_secret@,
                    bearer_token_spec(h@),
                    config.token_expiration_seconds as int,
                    config.refresh_token_expiration_seconds as int,
                ),
            },
    {
        match header {
            None => None,
            Some(h) => {
                let token = bearer_token(h);
                match decode_token(token.as_str(), config) {
                    Ok(c) => Some(AuthenticatedUser { user_id: c.user_id, token }),
                    Err(_) => None,
                }
            },
        }
    }
}

// ---------------------------------------------------------------------------
// Laws
// ---------------------------------------------------------------------------
/// A token issued for `user_id` (an access or a refresh token, with
/// lifetimes that are not negative) authenticates that user: read at the
/// instant it was issued, it is accepted with `user_id` as its user.
pub proof fn lemma_issued_token_accepted(
    secret: Seq<char>,
    token: Seq<char>,
    token_type: Seq<char>,
    user_id: Seq<char>,
    access_ttl: int,
    refresh_ttl: int,
)
    requires
        issued_token(secret, token, token_type, user_id),
        token_type == "access"@ || token_type == "refresh"@,
        access_ttl >= 0,
        refresh_ttl >= 0,
    ensures
        accepted_for(secret, token, access_ttl, refresh_ttl, user_id),
{
    let now = choose|now: i64|
        token == hs384_token(secret, issued_claims(#[trigger] int_decimal(now as int), token_type, user_id))
            && hs384_claims(secret, token) == Some(
            issued_claims(int_decimal(now as int), token_type, user_id),
        );
    lemma_fresh_token_accepted(now, token_type, user_id, access_ttl, refresh_ttl);
    let c = issued_claims(int_decimal(now as int), token_type, user_id);
    assert(i64::MIN <= now as int <= i64::MAX && match token_verdict(
        c,
        now as int,
        access_ttl,
        refresh_ttl,
    ) {
        Ok(t) => t.1 == user_id,
        Err(_) => false,
    });
}

/// After an exchange the store deletes the record of the used refresh
/// token and stores the new one: the used token is refused from then on,
/// when that record was its only copy and the new token is not the same
/// text, and the new token is found.
pub proof fn lemma_used_refresh_token_refused(
    aes_key: Seq<char>,
    stored: Seq<RefreshToken>,
    presented: Seq<char>,
    i: int,
    new_record: RefreshToken,
    new_token: Seq<char>,
)
    requires
        first_stored(aes_key, stored, presented, i),
        forall|k: int|
            0 <= k < stored.len() && k != i ==> refresh_token_plaintext(
                aes_key,
                #[trigger] stored[k].token@,
            ) != Some(presented),
        refresh_token_plaintext(aes_key, new_record.token@) == Some(new_token),
        new_token != presented,
    ensures
        !token_stored(aes_key, stored.remove(i).push(new_record), presented),
        token_stored(aes_key, stored.remove(i).push(new_record), new_token),
{
    let after = stored.remove(i).push(new_record);
    assert forall|j: int| 0 <= j < after.len() implies refresh_token_plaintext(
        aes_key,
        #[trigger] after[j].token@,
    ) != Some(presented) by {
        if j < i {
            assert(after[j] == stored[j]);
        } else if j < stored.len() - 1 {
            assert(after[j] == stored[j + 1]);
        } else {
            assert(after[j] == new_record);
        }
    }
    assert(after[after.len() - 1] == new_record);
}

/// A refresh token handed out at sign-up or login can be exchanged: once
/// its encrypted copy is stored, it is found among the stored tokens, so
/// `refresh_token` exchanges it whenever the new token can be stored; and
/// read at any instant within its lifetime, its claims are accepted as a
/// refresh token of the user it was handed to, so `refresh_token_user`
/// gives that user.
pub proof fn lemma_granted_refresh_token_exchangeable(
    secret: Seq<char>,
    aes_key: Seq<char>,
    access_ttl: int,
    refresh_ttl: int,
    g: TokenGrant,
    user_id: Seq<char>,
    stored: Seq<RefreshToken>,
    k: int,
)
    requires
        granted(secret, aes_key, g, user_id),
        0 <= k < stored.len(),
        stored[k].token@ == g.stored_refresh_token@,
    ensures
        token_stored(aes_key, stored, g.login.refresh_token@),
        exists|iat: i64|
            hs384_claims(secret, g.login.refresh_token@) == Some(
                #[trigger] issued_claims(int_decimal(iat as int), "refresh"@, user_id),
            ) && forall|now: int|
                now - iat <= refresh_ttl ==> (#[trigger] token_verdict(
                    issued_claims(int_decimal(iat as int), "refresh"@, user_id),
                    now,
                    access_ttl,
                    refresh_ttl,
                )) == Ok::<(Seq<char>, Seq<char>, Seq<char>), Seq<char>>(
                    (int_decimal(iat as int), user_id, "refresh"@),
                ),
{
    let token = g.login.refresh_token@;
    assert(refresh_token_plaintext(aes_key, stored[k].token@) == Some(token));
    let iat = choose|now: i64|
        token == hs384_token(secret, issued_claims(#[trigger] int_decimal(now as int), "refresh"@, user_id))
            && hs384_claims(secret, token) == Some(
            issued_claims(int_decimal(now as int), "refresh"@, user_id),
        );
    assert forall|now: int| now - iat <= refresh_ttl implies (#[trigger] token_verdict(
        issued_claims(int_decimal(iat as int), "refresh"@, user_id),
        now,
        access_ttl,
        refresh_ttl,
    )) == Ok::<(Seq<char>, Seq<char>, Seq<char>), Seq<char>>(
        (int_decimal(iat as int), user_id, "refresh"@),
    ) by {
        reveal_strlit("access");
        reveal_strlit("refresh");
        assert("refresh"@.len() != "access"@.len());
        lemma_live_token_accepted(iat, now, "refresh"@, user_id, access_ttl, refresh_ttl);
    }
}

} // verus!
