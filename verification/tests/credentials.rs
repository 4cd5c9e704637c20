use todo_core::store::Store;
use todo_core::store::StoreError;
use todo_core::username::ValidUsername;

#[test]
fn username_normalization() {
    assert_eq!(ValidUsername::from("Alice ".to_string()).0, "alice");
    assert_eq!(ValidUsername::from("  J\tDoe\n".to_string()).0, "jdoe");
    assert_eq!(ValidUsername::from("ALL-CAPS_9".to_string()).0, "all-caps_9");
    // U+00A0 (no-break space) counts as whitespace; non-ASCII letters stay.
    assert_eq!(ValidUsername::from("\u{00A0}Ren\u{00E9}".to_string()).0, "ren\u{00E9}");
    assert_eq!(ValidUsername::from("   ".to_string()).0, "");
}

#[test]
fn signup_then_login_succeeds() {
    let mut store = Store::new();
    let id = store
        .create_user(ValidUsername::from("erin".to_string()), "s3cret".to_string())
        .unwrap();
    assert_eq!(id, 1);
    let auth = store.get_authenticated_user_id(
        ValidUsername::from("Erin ".to_string()),
        "s3cret".to_string(),
    );
    assert_eq!(auth, Some(id));
}

#[test]
fn signup_case_and_whitespace_insensitive() {
    let mut store = Store::new();
    store
        .create_user(ValidUsername::from("Alice ".to_string()), "pw1".to_string())
        .unwrap();
    let dup = store.create_user(ValidUsername::from(" aLiCe".to_string()), "pw2".to_string());
    assert_eq!(dup, Err(StoreError::DuplicateUser));
    let dup2 = store.create_user(
        ValidUsername::from("a L i C e".to_string()),
        "pw3".to_string(),
    );
    assert_eq!(dup2, Err(StoreError::DuplicateUser));
}

#[test]
fn login_failures_indistinguishable() {
    let mut store = Store::new();
    store
        .create_user(ValidUsername::from("carol".to_string()), "right".to_string())
        .unwrap();
    let wrong_pw = store.get_authenticated_user_id(
        ValidUsername::from("carol".to_string()),
        "wrong".to_string(),
    );
    let unknown = store.get_authenticated_user_id(
        ValidUsername::from("dave".to_string()),
        "anything".to_string(),
    );
    assert_eq!(wrong_pw, None);
    assert_eq!(unknown, None);
    assert_eq!(wrong_pw, unknown);
}

#[test]
fn distinct_users_get_distinct_ids() {
    let mut store = Store::new();
    let a = store
        .create_user(ValidUsername::from("ann".to_string()), "pw-a".to_string())
        .unwrap();
    let b = store
        .create_user(ValidUsername::from("bob".to_string()), "pw-b".to_string())
        .unwrap();
    assert_eq!(a, 1);
    assert_eq!(b, 2);
    assert_eq!(
        store.get_authenticated_user_id(
            ValidUsername::from("bob".to_string()),
            "pw-b".to_string()
        ),
        Some(2)
    );
}
