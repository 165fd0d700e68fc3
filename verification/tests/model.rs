use security_framework::error::{map_status, CredentialError, ERR_SEC_ITEM_NOT_FOUND, ERR_SEC_SUCCESS};
use security_framework::store::{upsert_action, CredentialStore, UpsertAction, DEFAULT_KEYCHAIN};

#[test]
fn concrete_scenario() {
    let mut store = CredentialStore::new();
    let keychain = store.create_keychain();
    let keychains = vec![keychain];

    let secret: [u8; 4] = [0xDE, 0xAD, 0xBE, 0xEF];
    store
        .set_generic_password(Some(keychain), "svc", "acct", &secret)
        .unwrap();

    let found = store
        .find_generic_password(Some(&keychains), "svc", "acct")
        .unwrap();
    assert_eq!(found, vec![0xDE, 0xAD, 0xBE, 0xEF]);

    store
        .delete_generic_password(Some(&keychains), "svc", "acct")
        .unwrap();
    let after = store.find_generic_password(Some(&keychains), "svc", "acct");
    assert_eq!(after, Err(CredentialError::NotFound));
}

#[test]
fn zero_length_secret() {
    let mut store = CredentialStore::new();

    store
        .set_generic_password(None, "svc", "acct", &[])
        .unwrap();
    let found = store.find_generic_password(None, "svc", "acct");
    assert_eq!(found, Ok(Vec::new()));
}

#[test]
fn delete_then_find_is_not_found() {
    let mut store = CredentialStore::new();

    store
        .set_generic_password(None, "svc", "acct", b"secret")
        .unwrap();
    store.delete_generic_password(None, "svc", "acct").unwrap();
    let found = store.find_generic_password(None, "svc", "acct");
    assert_eq!(found, Err(CredentialError::NotFound));
}

#[test]
fn delete_missing_is_not_found() {
    let mut store = CredentialStore::new();
    let r = store.delete_generic_password(None, "svc", "acct");
    assert_eq!(r, Err(CredentialError::NotFound));
}

#[test]
fn missing_lookup_is_not_found_not_backend() {
    let mut store = CredentialStore::new();
    let keychain = store.create_keychain();
    let keychains = vec![keychain];

    let found = store.find_generic_password(Some(&keychains), "never", "stored");
    assert_eq!(found, Err(CredentialError::NotFound));
}

#[test]
fn scope_isolation() {
    let mut store = CredentialStore::new();
    let a = store.create_keychain();
    let b = store.create_keychain();

    store
        .set_generic_password(Some(a), "svc", "acct", b"in_a_only")
        .unwrap();

    let in_b = store.find_generic_password(Some(&vec![b]), "svc", "acct");
    assert_eq!(in_b, Err(CredentialError::NotFound));

    let in_a = store.find_generic_password(Some(&vec![a]), "svc", "acct");
    assert_eq!(in_a, Ok(b"in_a_only".to_vec()));
}

#[test]
fn scope_order_takes_first_match() {
    let mut store = CredentialStore::new();
    let a = store.create_keychain();
    let b = store.create_keychain();

    store
        .set_generic_password(Some(a), "svc", "acct", b"from_a")
        .unwrap();
    store
        .set_generic_password(Some(b), "svc", "acct", b"from_b")
        .unwrap();

    let ab = store
        .find_generic_password(Some(&vec![a, b]), "svc", "acct")
        .unwrap();
    assert_eq!(ab, b"from_a".to_vec());

    let ba = store
        .find_generic_password(Some(&vec![b, a]), "svc", "acct")
        .unwrap();
    assert_eq!(ba, b"from_b".to_vec());
}

#[test]
fn empty_scope_finds_nothing() {
    let mut store = CredentialStore::new();
    store
        .set_generic_password(None, "svc", "acct", b"hidden")
        .unwrap();

    let found = store.find_generic_password(Some(&Vec::new()), "svc", "acct");
    assert_eq!(found, Err(CredentialError::NotFound));
}

#[test]
fn default_scope_is_the_default_keychain() {
    let mut store = CredentialStore::new();
    store
        .set_generic_password(None, "svc", "acct", b"dflt")
        .unwrap();

    let explicit = store
        .find_generic_password(Some(&vec![DEFAULT_KEYCHAIN]), "svc", "acct")
        .unwrap();
    assert_eq!(explicit, b"dflt".to_vec());
}

#[test]
fn embedded_nul_is_invalid_input() {
    let mut store = CredentialStore::new();

    let find = store.find_generic_password(None, "sv\0c", "acct");
    assert_eq!(find, Err(CredentialError::InvalidInput));

    let set = store.set_generic_password(None, "svc", "ac\0ct", b"x");
    assert_eq!(set, Err(CredentialError::InvalidInput));

    let del = store.delete_generic_password(None, "sv\0c", "acct");
    assert_eq!(del, Err(CredentialError::InvalidInput));

    // the rejected set left nothing behind
    let found = store.find_generic_password(None, "svc", "acct");
    assert_eq!(found, Err(CredentialError::NotFound));
}

#[test]
fn second_set_is_no_duplicate_error() {
    let mut store = CredentialStore::new();

    store
        .set_generic_password(None, "svc", "acct", b"one")
        .unwrap();
    let second = store.set_generic_password(None, "svc", "acct", b"two");
    assert_eq!(second, Ok(()));

    let found = store.find_generic_password(None, "svc", "acct").unwrap();
    assert_eq!(found, b"two".to_vec());
}

#[test]
fn create_keychain_hands_out_fresh_handles() {
    let mut store = CredentialStore::new();
    let first = store.create_keychain();
    let second = store.create_keychain();
    assert_eq!(first, 1);
    assert_eq!(second, 2);
    assert_ne!(first, DEFAULT_KEYCHAIN);
}

#[test]
fn map_status_success() {
    assert_eq!(map_status(ERR_SEC_SUCCESS), Ok(()));
}

#[test]
fn map_status_item_not_found() {
    assert_eq!(map_status(ERR_SEC_ITEM_NOT_FOUND), Err(CredentialError::NotFound));
    assert_eq!(map_status(-25300), Err(CredentialError::NotFound));
}

#[test]
fn map_status_other_codes_are_backend() {
    assert_eq!(map_status(-128), Err(CredentialError::Backend(-128)));
    assert_eq!(map_status(1), Err(CredentialError::Backend(1)));
}

#[test]
fn upsert_action_modifies_only_on_success() {
    assert_eq!(upsert_action(ERR_SEC_SUCCESS), UpsertAction::ModifyExisting);
    assert_eq!(upsert_action(ERR_SEC_ITEM_NOT_FOUND), UpsertAction::AddNew);
    assert_eq!(upsert_action(-128), UpsertAction::AddNew);
}
