use base64::Engine;
use todo_core::gate::authenticate;
use todo_core::service::login;
use todo_core::service::signup;
use todo_core::store::Store;
use todo_core::subject::subject_to_user_id;
use todo_core::subject::user_id_to_subject;
use todo_core::token::issue;
use todo_core::token::issue_valid_for;
use todo_core::token::key_pair_from_base64;
use todo_core::token::resolve_verification;
use todo_core::token::verify;
use todo_core::token::RawVerification;
use todo_core::token::TokenError;

fn make_key() -> jwt_simple::algorithms::ES256KeyPair {
    let generated = jwt_simple::algorithms::ES256KeyPair::generate();
    let b64 = base64::engine::general_purpose::STANDARD.encode(generated.to_bytes());
    key_pair_from_base64(&b64).expect("a freshly generated key pair must load")
}

#[test]
fn key_loading_rejects_bad_input() {
    assert!(key_pair_from_base64("!!!not-base64!!!").is_none());
    let b64 = base64::engine::general_purpose::STANDARD.encode([1u8, 2, 3]);
    assert!(key_pair_from_base64(&b64).is_none());
}

#[test]
fn subject_rendering_and_parsing() {
    assert_eq!(user_id_to_subject(0), "0");
    assert_eq!(user_id_to_subject(1), "1");
    assert_eq!(user_id_to_subject(507), "507");
    assert_eq!(user_id_to_subject(i32::MAX), "2147483647");
    assert_eq!(subject_to_user_id("0"), Some(0));
    assert_eq!(subject_to_user_id("007"), Some(7));
    assert_eq!(subject_to_user_id("2147483647"), Some(i32::MAX));
    assert_eq!(subject_to_user_id("2147483648"), None);
    assert_eq!(subject_to_user_id("99999999999999999999"), None);
    assert_eq!(subject_to_user_id(""), None);
    assert_eq!(subject_to_user_id("12a"), None);
    assert_eq!(subject_to_user_id("-5"), None);
}

#[test]
fn token_round_trip() {
    let key = make_key();
    let token = issue(&key, 42).unwrap();
    assert!(!token.is_empty());
    assert_eq!(verify(&key, &token), Ok(42));
}

#[test]
fn tampered_token_is_invalid() {
    let key = make_key();
    let token = issue(&key, 7).unwrap();
    let mid = token.len() / 2;
    let mut chars: Vec<char> = token.chars().collect();
    chars[mid] = if chars[mid] == 'A' { 'B' } else { 'A' };
    let tampered: String = chars.into_iter().collect();
    assert_ne!(tampered, token);
    assert_eq!(verify(&key, &tampered), Err(TokenError::Invalid));
}

#[test]
fn foreign_key_token_is_invalid() {
    let key = make_key();
    let other = make_key();
    let token = issue(&other, 7).unwrap();
    assert_eq!(verify(&key, &token), Err(TokenError::Invalid));
}

#[test]
fn expired_token_is_detected() {
    let key = make_key();
    let token = issue_valid_for(&key, 5, 0).unwrap();
    let start = std::time::Instant::now();
    while start.elapsed().as_secs() < 3 {}
    assert_eq!(verify(&key, &token), Err(TokenError::Expired));
}

#[test]
fn resolution_of_raw_outcomes() {
    assert_eq!(
        resolve_verification(RawVerification::Expired),
        Err(TokenError::Expired)
    );
    assert_eq!(
        resolve_verification(RawVerification::Invalid),
        Err(TokenError::Invalid)
    );
    assert_eq!(resolve_verification(RawVerification::Valid("31".to_string())), Ok(31));
    assert_eq!(
        resolve_verification(RawVerification::Valid("x1".to_string())),
        Err(TokenError::Invalid)
    );
    assert_eq!(
        resolve_verification(RawVerification::Valid(String::new())),
        Err(TokenError::Invalid)
    );
    assert_eq!(
        resolve_verification(RawVerification::Valid("2147483648".to_string())),
        Err(TokenError::Invalid)
    );
}

#[test]
fn gate_accepts_bearer_and_rejects_everything_else() {
    let key = make_key();
    let token = issue(&key, 9).unwrap();
    let header = format!("Bearer {token}");
    let ok = authenticate(&key, Some(&header)).unwrap();
    assert_eq!(ok.0.id, 9);
    assert!(authenticate(&key, None).is_err());
    assert!(authenticate(&key, Some("Token abc")).is_err());
    assert!(authenticate(&key, Some("bearer lowercase-scheme")).is_err());
    assert!(authenticate(&key, Some("Bearer not-a-token")).is_err());
    assert!(authenticate(&key, Some("Bear")).is_err());
}

#[test]
fn signup_and_login_token_flow() {
    let key = make_key();
    let mut store = Store::new();
    let token = signup(&mut store, &key, "Alice ".to_string(), "pw1".to_string());
    assert!(!token.is_empty());
    assert_eq!(verify(&key, &token), Ok(1));
    let token2 = login(&store, &key, "alice".to_string(), "pw1".to_string());
    assert!(!token2.is_empty());
    assert_eq!(verify(&key, &token2), Ok(1));
    // A taken username and a failed login yield the empty string, never a
    // valid-looking token.
    let dup = signup(&mut store, &key, "ALICE".to_string(), "pw9".to_string());
    assert!(dup.is_empty());
    let bad = login(&store, &key, "alice".to_string(), "wrong".to_string());
    assert!(bad.is_empty());
}

#[test]
fn scenario_signup_login_create_update_delete() {
    let key = make_key();
    let mut store = Store::new();
    let token = signup(&mut store, &key, "Alice ".to_string(), "pw1".to_string());
    assert!(!token.is_empty());
    let login_token = login(&store, &key, "alice".to_string(), "pw1".to_string());
    assert!(!login_token.is_empty());
    let alice = verify(&key, &login_token).unwrap();
    assert_eq!(alice, 1);
    let list = store.add_todo_and_return_all(alice, "buy milk".to_string());
    assert_eq!(list.len(), 1);
    assert_eq!(list[0].id, 1);
    assert_eq!(list[0].title, "buy milk");
    assert!(!list[0].completed);
    let list = store.update_todo_and_return_all(alice, 1, "buy milk".to_string(), true);
    assert_eq!(list.len(), 1);
    assert!(list[0].completed);
    let list = store.delete_todo_and_return_all(alice, 1);
    assert!(list.is_empty());
}
