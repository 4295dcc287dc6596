use litecord_backend::cdn::{presign_upload, trim_end_slashes, validate_presign, PresignRequest};
use litecord_backend::config::Config;
use litecord_backend::jwt::{
    check_if_refresh_token_in_db, check_token_claims, decode_token, decrypt_aes_refresh_token,
    encrypt_aes_refresh_token, generate_jwt, generate_jwt_at, refresh_token_record, TokenClaims,
};
use litecord_backend::models::{ActivityStatus, RefreshToken, User};
use litecord_backend::text::{i64_to_decimal, parse_i64};
use litecord_backend::users::{
    bearer_token, refresh_store_error, refresh_token, refresh_token_user, signin, signup, signup_tokens,
    AuthenticatedUser, CreateUser,
};
use litecord_backend::chat::session::handle_incoming_message;
use litecord_backend::chat::session::{authenticate, AuthAction, AuthEvent};
use litecord_backend::chat::session::{handle_token_refresh, RefreshAction, RefreshEvent, Session};
use litecord_backend::chat::types::AuthMessage;
use litecord_backend::chat::types::ChatMessage;
use litecord_backend::chat::types::RefreshMessage;
use litecord_backend::users::LoginSuccess;
use base64::Engine;

const AES_KEY: &str = "0123456789abcdef0123456789abcdef";

fn s(x: &str) -> String {
    x.to_string()
}

fn config() -> Config {
    Config {
        db_url: s("localhost:8000"),
        db_user: s("root"),
        db_password: s("root"),
        db_config_file: s("schema.surql"),
        jwt_secret: s("test-secret"),
        aes_key: s(AES_KEY),
        token_expiration_seconds: 3600,
        refresh_token_expiration_seconds: 86400,
        s3_endpoint: None,
        s3_public_endpoint: None,
        s3_bucket: Some(s("uploads")),
        s3_access_key: None,
        s3_secret_key: None,
        cdn_base_url: Some(s("https://cdn.example.com//")),
    }
}

fn claims(pairs: &[(&str, &str)]) -> Vec<(String, String)> {
    pairs.iter().map(|(k, v)| (s(k), s(v))).collect()
}

fn user(id: Option<&str>) -> User {
    User {
        id: id.map(s),
        name: s("alice"),
        display_name: s("alice"),
        profile_picture: s(""),
        email: s("alice@test.com"),
        password: s("hash"),
        status: ActivityStatus::Online,
        created_at: s("2024-01-01T00:00:00Z"),
    }
}

#[test]
fn decimal_text_round_trips() {
    for n in [0i64, 7, -42, 1_700_000_000, i64::MAX, i64::MIN] {
        let text = i64_to_decimal(n);
        assert_eq!(text, n.to_string());
        assert_eq!(parse_i64(&text), Some(n));
    }
    assert_eq!(parse_i64("+12"), Some(12));
    assert_eq!(parse_i64("12a"), None);
    assert_eq!(parse_i64(""), None);
    assert_eq!(parse_i64("9223372036854775808"), None);
}

#[test]
fn token_claims_are_read_by_name() {
    let c = TokenClaims::from_claims(&claims(&[("iat", "1"), ("type", "access"), ("user_id", "user:a")])).unwrap();
    assert_eq!((c.iat, c.user_id, c.token_type), (s("1"), s("user:a"), s("access")));
    let err = TokenClaims::from_claims(&claims(&[("iat", "1"), ("type", "access")])).err().unwrap();
    assert_eq!(err, "Missing 'user_id' claim");
    let err = TokenClaims::from_claims(&claims(&[])).err().unwrap();
    assert_eq!(err, "Missing 'iat' claim");
}

#[test]
fn token_freshness_rules() {
    let access = claims(&[("iat", "1000"), ("type", "access"), ("user_id", "user:a")]);
    assert!(check_token_claims(&access, 1000 + 3600, 3600, 86400).is_ok());
    assert_eq!(check_token_claims(&access, 1000 + 3601, 3600, 86400).err().unwrap(), "Token expired");
    let refresh = claims(&[("iat", "1000"), ("type", "refresh"), ("user_id", "user:a")]);
    assert!(check_token_claims(&refresh, 1000 + 3601, 3600, 86400).is_ok());
    assert_eq!(check_token_claims(&refresh, 1000 + 86401, 3600, 86400).err().unwrap(), "Refresh token expired");
    let odd = claims(&[("iat", "1000"), ("type", "other"), ("user_id", "user:a")]);
    assert_eq!(check_token_claims(&odd, 1000, 3600, 86400).err().unwrap(), "Invalid 'type' claim");
    let bad_iat = claims(&[("iat", "soon"), ("type", "access"), ("user_id", "user:a")]);
    assert_eq!(check_token_claims(&bad_iat, 1000, 3600, 86400).err().unwrap(), "Invalid 'iat' claim");
    let no_iat = claims(&[("type", "access"), ("user_id", "user:a")]);
    assert_eq!(check_token_claims(&no_iat, 1000, 3600, 86400).err().unwrap(), "Token missing 'iat' claim");
    let extreme = claims(&[("iat", "-9223372036854775808"), ("type", "access"), ("user_id", "user:a")]);
    assert_eq!(check_token_claims(&extreme, i64::MAX, 3600, 86400).err().unwrap(), "Token expired");
}

#[test]
fn issued_token_decodes_to_its_user() {
    let cfg = config();
    let token = generate_jwt(&cfg.jwt_secret, &s("user:alice"), "access").unwrap();
    assert_eq!(token.split('.').count(), 3);
    let c = decode_token(&token, &cfg).unwrap();
    assert_eq!(c.user_id, "user:alice");
    assert_eq!(c.token_type, "access");
    let mut other = config();
    other.jwt_secret = s("another-secret");
    assert!(decode_token(&token, &other).is_err());
    assert!(decode_token("not.a.token", &cfg).is_err());
}

#[test]
fn old_token_is_refused() {
    let cfg = config();
    let token = generate_jwt_at(&cfg.jwt_secret, &s("user:alice"), "access", 0).unwrap();
    assert_eq!(decode_token(&token, &cfg).err().unwrap(), "Token expired");
}

#[test]
fn refresh_tokens_are_encrypted_and_decrypted() {
    let stored = encrypt_aes_refresh_token(AES_KEY, "refresh.jwt.text").unwrap();
    assert_ne!(stored, "refresh.jwt.text");
    assert_eq!(decrypt_aes_refresh_token(AES_KEY, &stored).unwrap(), "refresh.jwt.text");
    let again = encrypt_aes_refresh_token(AES_KEY, "refresh.jwt.text").unwrap();
    assert_ne!(stored, again, "each encryption uses a fresh nonce");
    assert_eq!(encrypt_aes_refresh_token("short", "x").err().unwrap(), "Invalid Length");
    assert!(decrypt_aes_refresh_token(AES_KEY, "AAAA").is_err());
    assert!(decrypt_aes_refresh_token(AES_KEY, "***").is_err());
    assert!(decrypt_aes_refresh_token("fedcba9876543210fedcba9876543210", &stored).is_err());
}

#[test]
fn stored_refresh_token_is_standard_base64_of_nonce_and_ciphertext() {
    let stored = encrypt_aes_refresh_token(AES_KEY, "abc").unwrap();
    let bytes = base64::engine::general_purpose::STANDARD.decode(&stored).unwrap();
    assert_eq!(bytes.len(), 12 + 3 + 16);
    assert_eq!(stored.len(), 44);
    assert!(stored.ends_with('='));
    assert_eq!(base64::engine::general_purpose::STANDARD.encode(&bytes), stored);
}

#[test]
fn stored_refresh_token_is_found_and_deleted_by_record() {
    let t1 = encrypt_aes_refresh_token(AES_KEY, "first").unwrap();
    let t2 = encrypt_aes_refresh_token(AES_KEY, "second").unwrap();
    let stored = vec![
        RefreshToken { id: Some(s("RefreshToken:1")), user: s("user:a"), token: t1 },
        RefreshToken { id: Some(s("RefreshToken:2")), user: s("user:a"), token: t2 },
    ];
    assert!(check_if_refresh_token_in_db(&s("second"), &stored, AES_KEY));
    assert!(!check_if_refresh_token_in_db(&s("third"), &stored, AES_KEY));
    assert_eq!(refresh_token_record(&s("second"), &stored, AES_KEY).unwrap(), Some(s("RefreshToken:2")));
    assert_eq!(refresh_token_record(&s("third"), &stored, AES_KEY).err().unwrap(), "Refresh token not found");
}

#[test]
fn signup_decisions() {
    let req = CreateUser { name: s("alice"), password: s("pw"), email: s("alice@test.com") };
    assert_eq!(
        signup(&req, 1, Ok(s("h")), s("now")).err().unwrap(),
        (409, s("Email ou Nom d'utilisateur déjà utilisé"))
    );
    assert_eq!(
        signup(&req, 0, Err(s("boom")), s("now")).err().unwrap(),
        (500, s("Erreur de hashage du mot de passe"))
    );
    let record = signup(&req, 0, Ok(s("h")), s("now")).unwrap();
    assert_eq!(record.id, None);
    assert_eq!(record.display_name, "alice");
    assert_eq!(record.password, "h");
    assert_eq!(record.profile_picture, "");
    assert_eq!(record.created_at, "now");
    let cfg = config();
    assert_eq!(signup_tokens(&cfg.jwt_secret, AES_KEY, None).err().unwrap(), (500, s("Erreur lors de la création")));
    assert_eq!(
        signup_tokens(&cfg.jwt_secret, AES_KEY, Some(user(None))).err().unwrap(),
        (500, s("Erreur aucun ID trouvé pour cet utilisateur"))
    );
    let (status, grant) = signup_tokens(&cfg.jwt_secret, AES_KEY, Some(user(Some("user:alice")))).unwrap();
    assert_eq!(status, 201);
    assert_eq!(grant.user_id, "user:alice");
    assert_eq!(decode_token(&grant.login.token, &cfg).unwrap().token_type, "access");
    assert_eq!(decode_token(&grant.login.refresh_token, &cfg).unwrap().token_type, "refresh");
    assert_eq!(decrypt_aes_refresh_token(AES_KEY, &grant.stored_refresh_token).unwrap(), grant.login.refresh_token);
    assert_eq!(
        signup_tokens(&cfg.jwt_secret, "short", Some(user(Some("user:alice")))).err().unwrap(),
        (500, s("Erreur lors du stockage du refresh token"))
    );
}

#[test]
fn signup_refresh_token_can_be_exchanged() {
    let cfg = config();
    let (_, grant) = signup_tokens(&cfg.jwt_secret, AES_KEY, Some(user(Some("user:bob")))).unwrap();
    let stored = vec![RefreshToken { id: Some(s("RefreshToken:7")), user: s("user:bob"), token: grant.stored_refresh_token }];
    let presented = grant.login.refresh_token.clone();
    assert_eq!(refresh_token_user(&presented, &cfg).unwrap(), "user:bob");
    let exchanged = refresh_token(&presented, &s("user:bob"), &stored, &cfg).unwrap();
    assert_eq!(exchanged.used_record, Some(s("RefreshToken:7")));
    let remaining: Vec<RefreshToken> = stored.into_iter().filter(|t| t.id != exchanged.used_record).collect();
    assert_eq!(
        refresh_token(&presented, &s("user:bob"), &remaining, &cfg).err().unwrap(),
        (401, s("Token de rafraîchissement non trouvé ou invalide"))
    );
}

#[test]
fn signin_decisions() {
    let cfg = config();
    assert_eq!(signin(&cfg.jwt_secret, AES_KEY, None, Ok(true)).err().unwrap(), (401, s("Identifiants invalides")));
    assert_eq!(
        signin(&cfg.jwt_secret, AES_KEY, Some(user(Some("user:alice"))), Ok(false)).err().unwrap(),
        (401, s("Identifiants invalides"))
    );
    assert_eq!(
        signin(&cfg.jwt_secret, AES_KEY, Some(user(Some("user:alice"))), Err(s("bad hash"))).err().unwrap(),
        (500, s("bad hash"))
    );
    assert_eq!(
        signin(&cfg.jwt_secret, AES_KEY, Some(user(None)), Ok(true)).err().unwrap(),
        (500, s("No id found for this user"))
    );
    let grant = signin(&cfg.jwt_secret, AES_KEY, Some(user(Some("user:alice"))), Ok(true)).unwrap();
    assert_eq!(grant.user_id, "user:alice");
    assert_eq!(decode_token(&grant.login.token, &cfg).unwrap().user_id, "user:alice");
    assert_eq!(decrypt_aes_refresh_token(AES_KEY, &grant.stored_refresh_token).unwrap(), grant.login.refresh_token);
    assert_eq!(
        signin(&cfg.jwt_secret, "short", Some(user(Some("user:alice"))), Ok(true)).err().unwrap(),
        (500, s("Cannot store refresh token in db: Invalid Length"))
    );
    assert_eq!(refresh_store_error("down"), (500, s("Cannot store refresh token in db: down")));
}

#[test]
fn refresh_exchanges_a_stored_token() {
    let cfg = config();
    let grant = signin(&cfg.jwt_secret, AES_KEY, Some(user(Some("user:alice"))), Ok(true)).unwrap();
    let presented = grant.login.refresh_token.clone();
    assert_eq!(refresh_token_user(&presented, &cfg).unwrap(), "user:alice");
    assert_eq!(refresh_token_user(&s("garbage"), &cfg).err().unwrap(), (401, s("Token de rafraîchissement invalide")));
    let stored = vec![RefreshToken { id: Some(s("RefreshToken:1")), user: s("user:alice"), token: grant.stored_refresh_token }];
    let exchanged = refresh_token(&presented, &s("user:alice"), &stored, &cfg).unwrap();
    assert_eq!(exchanged.used_record, Some(s("RefreshToken:1")));
    assert_eq!(decode_token(&exchanged.login.token, &cfg).unwrap().user_id, "user:alice");
    assert_eq!(decrypt_aes_refresh_token(AES_KEY, &exchanged.stored_refresh_token).unwrap(), exchanged.login.refresh_token);
    assert_eq!(
        refresh_token(&presented, &s("user:alice"), &vec![], &cfg).err().unwrap(),
        (401, s("Token de rafraîchissement non trouvé ou invalide"))
    );
}

#[test]
fn bearer_header_authenticates_its_user() {
    assert_eq!(bearer_token("Bearer abc"), "abc");
    assert_eq!(bearer_token("abc"), "abc");
    assert_eq!(bearer_token("Bearer"), "Bearer");
    let cfg = config();
    let token = generate_jwt(&cfg.jwt_secret, &s("user:bob"), "access").unwrap();
    let header = format!("Bearer {token}");
    let who = AuthenticatedUser::from_header(Some(&header), &cfg).unwrap();
    assert_eq!(who.user_id, "user:bob");
    assert_eq!(who.token, token);
    assert!(AuthenticatedUser::from_header(None, &cfg).is_none());
    assert!(AuthenticatedUser::from_header(Some("Bearer nope"), &cfg).is_none());
}

#[test]
fn presign_validation_order() {
    let req = |filename: &str, content_type: &str, size: u64| PresignRequest {
        filename: s(filename),
        content_type: s(content_type),
        size,
    };
    assert!(validate_presign(&req("a.png", "image/png", 26_214_400)).is_ok());
    assert_eq!(validate_presign(&req("", "", 26_214_401)).err().unwrap(), (413, s("File exceeds 25 MB limit")));
    assert_eq!(
        validate_presign(&req("", "image/png", 10)).err().unwrap(),
        (400, s("filename and content_type are required"))
    );
    assert_eq!(
        validate_presign(&req("a.png", "", 10)).err().unwrap(),
        (400, s("filename and content_type are required"))
    );
}

#[test]
fn presign_plan_names_a_fresh_object() {
    assert_eq!(trim_end_slashes("https://cdn.example.com//"), "https://cdn.example.com");
    assert_eq!(trim_end_slashes("///"), "");
    let plan = presign_upload(&config(), "photo.jpg").unwrap();
    assert_eq!(plan.bucket, "uploads");
    assert_eq!(plan.key.len(), 36 + 1 + "photo.jpg".len());
    assert!(plan.key.ends_with("/photo.jpg"));
    assert_eq!(plan.cdn_url, format!("https://cdn.example.com/{}", plan.key));
    let other = presign_upload(&config(), "photo.jpg").unwrap();
    assert_ne!(plan.key, other.key);
    let mut cfg = config();
    cfg.cdn_base_url = None;
    assert_eq!(presign_upload(&cfg, "x").err().unwrap(), "ROCKET_CDN_BASE_URL is not configured");
    cfg.s3_bucket = None;
    assert_eq!(presign_upload(&cfg, "x").err().unwrap(), "ROCKET_S3_BUCKET is not configured");
}

#[test]
fn socket_authentication_steps() {
    let cfg = config();
    let token = generate_jwt(&cfg.jwt_secret, &s("user:carol"), "access").unwrap();
    match authenticate(AuthEvent::QueryToken(token.clone()), &cfg) {
        AuthAction::Accept(session) => {
            assert_eq!(session.user_id, "user:carol");
            assert_eq!(session.token, token);
        }
        other => panic!("unexpected {other:?}"),
    }
    match authenticate(AuthEvent::QueryToken(s("bogus")), &cfg) {
        AuthAction::Refuse(frame) => assert_eq!(frame, "{\"error\":\"invalid token\"}"),
        other => panic!("unexpected {other:?}"),
    }
    match authenticate(AuthEvent::Text(Some(AuthMessage { token: token.clone() })), &cfg) {
        AuthAction::Accept(session) => assert_eq!(session.user_id, "user:carol"),
        other => panic!("unexpected {other:?}"),
    }
    match authenticate(AuthEvent::Text(None), &cfg) {
        AuthAction::Answer(frame) => assert_eq!(frame, "{\"error\":\"expected auth message\"}"),
        other => panic!("unexpected {other:?}"),
    }
    assert!(matches!(authenticate(AuthEvent::Closed, &cfg), AuthAction::End));
    assert!(matches!(authenticate(AuthEvent::Other, &cfg), AuthAction::Wait));
}

#[test]
fn socket_token_refresh_steps() {
    let cfg = config();
    let good = Session { user_id: s("user:a"), token: generate_jwt(&cfg.jwt_secret, &s("user:a"), "access").unwrap() };
    assert!(matches!(handle_token_refresh(&good, RefreshEvent::Check, &cfg), RefreshAction::Keep));
    let stale = Session {
        user_id: s("user:a"),
        token: generate_jwt_at(&cfg.jwt_secret, &s("user:a"), "access", 0).unwrap(),
    };
    match handle_token_refresh(&stale, RefreshEvent::Check, &cfg) {
        RefreshAction::RequireRefresh(frame) => assert_eq!(frame, "{\"action\":\"token_refresh_required\"}"),
        other => panic!("unexpected {other:?}"),
    }
    match handle_token_refresh(&stale, RefreshEvent::Text(Some(RefreshMessage { refresh_token: s("r") })), &cfg) {
        RefreshAction::Exchange(t) => assert_eq!(t, "r"),
        other => panic!("unexpected {other:?}"),
    }
    let renewed = LoginSuccess { token: s("t2"), refresh_token: s("r2") };
    match handle_token_refresh(&stale, RefreshEvent::Exchanged(Ok(renewed)), &cfg) {
        RefreshAction::Renewed(l) => assert_eq!((l.token, l.refresh_token), (s("t2"), s("r2"))),
        other => panic!("unexpected {other:?}"),
    }
    match handle_token_refresh(&stale, RefreshEvent::TimedOut, &cfg) {
        RefreshAction::Close(frame) => assert_eq!(frame, "{\"error\":\"token_refresh_timeout\"}"),
        other => panic!("unexpected {other:?}"),
    }
}

#[test]
fn incoming_frames_are_stamped_with_their_sender() {
    let m = ChatMessage { to: s("user:b"), message_type: s("text"), from: Some(s("user:spoofed")), content: s("hi"), attachments: vec![] };
    let out = handle_incoming_message(&s("user:a"), Some(m)).unwrap();
    assert_eq!(out.from, Some(s("user:a")));
    assert_eq!(out.to, "user:b");
    let err = handle_incoming_message(&s("user:a"), None).unwrap_err();
    assert_eq!(err, "{\"error\":\"invalid message format, expected: {\\\"to\\\": \\\"string\\\", \\\"message_type\\\": \\\"string\\\", \\\"content\\\": \\\"string\\\"}\"}");
}
