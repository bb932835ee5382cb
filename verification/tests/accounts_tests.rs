use pi_kiosk::accounts::{
    check_login, hash_password, may_create_initial_user, new_admin_user, verify_password,
    AccountError,
};

#[test]
fn hashed_password_verifies() {
    let h = hash_password("hunter42").unwrap();
    assert!(h.starts_with("$argon2id$v=19$"));
    assert!(verify_password("hunter42", &h));
    assert!(!verify_password("hunter43", &h));
    // Two hashes of one password differ (random salt) and both verify.
    let h2 = hash_password("hunter42").unwrap();
    assert_ne!(h, h2);
    assert!(verify_password("hunter42", &h2));
}

#[test]
fn hashing_succeeds() {
    assert!(hash_password("").is_ok());
    let long = "x".repeat(10_000);
    let h = hash_password(&long).unwrap();
    assert!(verify_password(&long, &h));
}

#[test]
fn malformed_hash_is_rejected() {
    assert!(!verify_password("x", "not a hash"));
    assert!(!verify_password("x", ""));
}

#[test]
fn logins() {
    let h = hash_password("secret").unwrap();
    assert!(check_login(&Some(h.clone()), "secret"));
    assert!(!check_login(&Some(h), "Secret"));
    assert!(!check_login(&None, "secret"));
}

#[test]
fn first_user() {
    assert!(may_create_initial_user(0).is_ok());
    assert!(matches!(may_create_initial_user(1), Err(AccountError::UsersExist)));
    let u = new_admin_user(7, "admin");
    assert_eq!((u.id, u.username.as_str(), u.role.as_str()), (7, "admin", "admin"));
}
