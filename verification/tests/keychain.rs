use herd::keychain::{
    delete_secret, entry_error, get_secret, settle_delete, settle_read, settle_store, store_secret,
    KeychainError, TokenCache,
};

fn err(no_entry: bool, m: &str) -> KeychainError {
    KeychainError { no_entry, message: m.to_string() }
}

#[test]
fn cache_remembers_and_forgets() {
    let mut c = TokenCache::new();
    assert_eq!(c.cached("k"), None);
    c.remember("k", "v1");
    c.remember("k", "v2");
    assert_eq!(c.cached("k"), Some("v2".to_string()));
    c.forget("k");
    assert_eq!(c.cached("k"), None);
}

#[test]
fn settling_keychain_answers() {
    let mut c = TokenCache::new();
    assert_eq!(settle_store(&mut c, "k", "v", Ok(())), Ok(()));
    assert_eq!(c.cached("k"), Some("v".to_string()));
    assert_eq!(settle_store(&mut c, "j", "w", Err(err(false, "locked"))), Err("Failed to store secret: locked".to_string()));
    assert_eq!(c.cached("j"), None);
    assert_eq!(settle_read(&mut c, "j", Ok("w".to_string())), Ok(Some("w".to_string())));
    assert_eq!(c.cached("j"), Some("w".to_string()));
    assert_eq!(settle_read(&mut c, "x", Err(err(true, "none"))), Ok(None));
    assert_eq!(settle_read(&mut c, "x", Err(err(false, "denied"))), Err("Failed to read secret: denied".to_string()));
    assert_eq!(settle_delete(Ok(())), Ok(()));
    assert_eq!(settle_delete(Err(err(true, "gone"))), Ok(()));
    assert_eq!(settle_delete(Err(err(false, "denied"))), Err("Failed to delete secret: denied".to_string()));
    assert_eq!(entry_error(&err(false, "bad user")), "Keychain error: bad user");
}

#[test]
fn stored_secret_is_served_from_cache() {
    let mut c = TokenCache::new();
    match store_secret(&mut c, "test_token_key", "s3cret") {
        Ok(()) => assert_eq!(get_secret(&mut c, "test_token_key"), Ok(Some("s3cret".to_string()))),
        Err(m) => assert!(m.starts_with("Keychain error: ") || m.starts_with("Failed to store secret: ")),
    }
    let r = delete_secret(&mut c, "test_token_key");
    assert!(r.is_ok() || r.unwrap_err().starts_with("Failed to delete secret: "));
    assert_eq!(c.cached("test_token_key"), None);
}

#[test]
fn cached_secret_skips_keychain() {
    let mut c = TokenCache::new();
    c.remember("linear_api_token", "abc");
    assert_eq!(get_secret(&mut c, "linear_api_token"), Ok(Some("abc".to_string())));
}
