use sentinel_kit::typestate::{authenticate_user, User, TOKEN_OK, VALID_PASSWORD};

#[test]
fn authenticate_with_correct_password_returns_authenticated_user() {
    let user = User::new("Claudio");
    let authed = user
        .authenticate(VALID_PASSWORD)
        .expect("must authenticate");
    assert_eq!(authed.name(), "Claudio");
    assert_eq!(authed.token(), TOKEN_OK);
}

#[test]
fn full_flow_create_authenticate_and_access_vault_data() {
    let user = User::new("Claudio");

    let authed = user
        .authenticate(VALID_PASSWORD)
        .expect("should authenticate");

    assert_eq!(authed.token(), TOKEN_OK);

    let data = authed.view_vault_data();
    assert!(data.contains("VAULT_DATA"));
    assert!(data.contains("Claudio"));
    assert!(data.contains(TOKEN_OK));
}

#[test]
fn wrong_password_is_refused() {
    let user = User::new("Claudio");
    assert_eq!(user.name(), "Claudio");
    let err = user.authenticate("fortis124").unwrap_err();
    assert_eq!(err, "invalid password");
    let err = authenticate_user(User::new("x"), "").unwrap_err();
    assert_eq!(err, "invalid password");
}

#[test]
fn vault_text_is_exact() {
    let authed = User::new("Ana").authenticate("fortis123").unwrap();
    assert_eq!(
        authed.view_vault_data(),
        "VAULT_DATA: access granted for Ana with token=TOKEN_OK"
    );
}
