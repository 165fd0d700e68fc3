use security_framework::store::CredentialStore;

fn temp_keychain_setup(store: &mut CredentialStore, _name: &str) -> usize {
    store.create_keychain()
}

#[test]
fn missing_password_temp() {
    let mut store = CredentialStore::new();
    let keychain = temp_keychain_setup(&mut store, "missing_password");
    let keychains = vec![keychain];

    let service = "temp_this_service_does_not_exist";
    let account = "this_account_is_bogus";
    let password = store.find_generic_password(Some(&keychains), service, account);

    assert!(password.is_err());
}

#[test]
fn missing_password_default() {
    let store = CredentialStore::new();

    let service = "default_this_service_does_not_exist";
    let account = "this_account_is_bogus";
    let password = store.find_generic_password(None, service, account);

    assert!(password.is_err());
}

#[test]
fn round_trip_password_temp() {
    let mut store = CredentialStore::new();
    let keychain = temp_keychain_setup(&mut store, "round_trip_password");
    let keychains = vec![keychain];

    let service = "test_round_trip_password_temp";
    let account = "temp_this_is_the_test_account";
    let password = String::from("deadbeef").into_bytes();

    store
        .set_generic_password(Some(keychains[0]), service, account, &password)
        .unwrap();
    let found = store
        .find_generic_password(Some(&keychains), service, account)
        .unwrap();
    assert_eq!(found, password);

    store
        .delete_generic_password(Some(&keychains), service, account)
        .unwrap();
}

#[test]
fn round_trip_password_default() {
    let mut store = CredentialStore::new();

    let service = "test_round_trip_password_default";
    let account = "this_is_the_test_account";
    let password = String::from("deadbeef").into_bytes();

    store
        .set_generic_password(None, service, account, &password)
        .unwrap();
    let found = store.find_generic_password(None, service, account).unwrap();
    assert_eq!(found, password);

    store
        .delete_generic_password(None, service, account)
        .unwrap();
}

#[test]
fn change_password_temp() {
    let mut store = CredentialStore::new();
    let keychain = temp_keychain_setup(&mut store, "change_password");
    let keychains = vec![keychain];

    let service = "test_change_password_temp";
    let account = "this_is_the_test_account";
    let pw1 = String::from("password1").into_bytes();
    let pw2 = String::from("password2").into_bytes();

    store
        .set_generic_password(Some(keychains[0]), service, account, &pw1)
        .expect("set_generic_password");
    let found = store
        .find_generic_password(Some(&keychains), service, account)
        .expect("find_generic_password");
    assert_eq!(found, pw1);

    store
        .set_generic_password(Some(keychains[0]), service, account, &pw2)
        .expect("set_generic_password2");
    let found = store
        .find_generic_password(Some(&keychains), service, account)
        .expect("find_generic_password2");
    assert_eq!(found, pw2);

    store
        .delete_generic_password(Some(&keychains), service, account)
        .expect("delete_generic_password");
}

#[test]
fn change_password_default() {
    let mut store = CredentialStore::new();

    let service = "test_change_password_default";
    let account = "this_is_the_test_account";
    let pw1 = String::from("password1").into_bytes();
    let pw2 = String::from("password2").into_bytes();

    store
        .set_generic_password(None, service, account, &pw1)
        .unwrap();
    let found = store.find_generic_password(None, service, account).unwrap();
    assert_eq!(found, pw1);

    store
        .set_generic_password(None, service, account, &pw2)
        .unwrap();
    let found = store.find_generic_password(None, service, account).unwrap();
    assert_eq!(found, pw2);

    store
        .delete_generic_password(None, service, account)
        .unwrap();
}
