//! API tokens kept in the system keychain, with an in-memory cache so that a
//! token is read from the keychain at most once per run.
//!
//! The cache is a value of its own (`TokenCache`) that the caller keeps for
//! the life of the process; every operation takes it explicitly.

use vstd::prelude::*;
use crate::keyed::{
    keys_distinct, entries_map, find_key, lemma_entries_map, lemma_entries_update,
    lemma_entries_push, lemma_entries_remove, lemma_map_values_insert, lemma_map_values_remove,
    lemma_remove_insert,
};
use crate::text::{has_prefix, owned, push_str};

verus! {

/// The keychain service under which all tokens are stored.
pub const SERVICE_NAME: &'static str = "Loop";

#[verifier::external_type_specification]
#[verifier::external_body]
pub struct ExKeyringEntry(keyring::Entry);

#[verifier::external_type_specification]
#[verifier::external_body]
pub struct ExKeyringError(keyring::Error);

/// A keychain entry with the service and account it was opened for.
pub struct KeychainEntry {
    pub service: String,
    pub account: String,
    pub inner: keyring::Entry,
}

/// `keyring::Entry::new`: a handle on the credential of `user` under
/// `service` in the platform store, kept with the two names it was opened
/// for. Whether the store accepts the pair depends on the platform, so
/// success is not stated.
#[verifier::external_body]
fn keyring_entry(service: &str, user: &str) -> (r: Result<KeychainEntry, keyring::Error>)
    ensures
        r matches Ok(e) ==> e.service@ == service@ && e.account@ == user@,
{
    match keyring::Entry::new(service, user) {
        Ok(inner) => Ok(KeychainEntry { service: service.to_string(), account: user.to_string(), inner }),
        Err(e) => Err(e),
    }
}

/// `keyring::Entry::set_password`: stores `password` for the entry. The
/// outcome depends on the platform store; nothing is stated of it.
#[verifier::external_body]
fn keyring_set_password(entry: &KeychainEntry, password: &str) -> Result<(), keyring::Error> {
    entry.inner.set_password(password)
}

/// `keyring::Entry::get_password`: the stored password, or `NoEntry` when
/// there is none. What the store holds is outside this program; nothing is
/// stated of the result.
#[verifier::external_body]
fn keyring_get_password(entry: &KeychainEntry) -> Result<String, keyring::Error> {
    entry.inner.get_password()
}

/// `keyring::Entry::delete_credential`: removes the stored password, or
/// reports `NoEntry` when there is none. Nothing is stated of the outcome.
#[verifier::external_body]
fn keyring_delete_credential(entry: &KeychainEntry) -> Result<(), keyring::Error> {
    entry.inner.delete_credential()
}

/// Whether a `keyring::Error` is the `NoEntry` variant. The error is opaque
/// here, so nothing is stated of the answer.
#[verifier::external_body]
fn keyring_error_is_no_entry(e: &keyring::Error) -> bool {
    match e {
        keyring::Error::NoEntry => true,
        _ => false,
    }
}

/// The `Display` text of a `keyring::Error`. Nothing is stated of it.
#[verifier::external_body]
fn keyring_error_text(e: &keyring::Error) -> String {
    e.to_string()
}

/// A keychain failure: whether it means "no such credential", and its text.
pub struct KeychainError {
    pub no_entry: bool,
    pub message: String,
}

/// The plain form of a keychain error. The error is opaque to the proofs,
/// so which variant it is and what its text says are not stated.
fn keychain_error(e: &keyring::Error) -> KeychainError {
    KeychainError { no_entry: keyring_error_is_no_entry(e), message: keyring_error_text(e) }
}

/// Tokens read from or written to the keychain during this run.
pub struct TokenCache {
    entries: Vec<(String, String)>,
}

impl View for TokenCache {
    type V = Map<Seq<char>, Seq<char>>;

    closed spec fn view(&self) -> Map<Seq<char>, Seq<char>> {
        entries_map(self.entries@).map_values(|v: String| v@)
    }
}

impl TokenCache {
    /// The cache's internal consistency: no key occurs twice.
    pub closed spec fn wf(&self) -> bool {
        keys_distinct(self.entries@)
    }

    /// An empty cache.
    pub fn new() -> (r: Self)
        ensures
            r.wf(),
            r@ == Map::<Seq<char>, Seq<char>>::empty(),
    {
        let r = TokenCache { entries: Vec::new() };
        assert(r@ =~= Map::<Seq<char>, Seq<char>>::empty());
        r
    }

    /// The cached token for `key`, if there is one.
    pub fn cached(&self, key: &str) -> (r: Option<String>)
        requires
            self.wf(),
        ensures
            match r {
                Some(v) => self@.contains_key(key@) && v@ == self@[key@],
                None => !self@.contains_key(key@),
            },
    {
        match find_key(&self.entries, key) {
            Some(i) => {
                proof { lemma_entries_map(self.entries@); }
                Some(self.entries[i].1.clone())
            },
            None => None,
        }
    }

    /// Caches `value` as the token for `key`.
    pub fn remember(&mut self, key: &str, value: &str)
        requires
            old(self).wf(),
        ensures
            final(self).wf(),
            final(self)@ == old(self)@.insert(key@, value@),
    {
        let k = owned(key);
        let v = owned(value);
        match find_key(&self.entries, key) {
            Some(i) => {
                proof {
                    lemma_entries_update(self.entries@, i as int, (k, v));
                    lemma_map_values_insert(entries_map(self.entries@), k@, v, |v: String| v@);
                    lemma_remove_insert(self.entries@, i as int, (k, v));
                }
                self.entries.remove(i);
                self.entries.insert(i, (k, v));
            },
            None => {
                proof {
                    lemma_entries_push(self.entries@, (k, v));
                    lemma_map_values_insert(entries_map(self.entries@), k@, v, |v: String| v@);
                }
                self.entries.push((k, v));
            },
        }
    }

    /// Drops the cached token for `key`.
    pub fn forget(&mut self, key: &str)
        requires
            old(self).wf(),
        ensures
            final(self).wf(),
            final(self)@ == old(self)@.remove(key@),
    {
        match find_key(&self.entries, key) {
            Some(i) => {
                proof {
                    lemma_entries_remove(self.entries@, i as int);
                    lemma_map_values_remove(entries_map(self.entries@), key@, |v: String| v@);
                    lemma_entries_map(self.entries@);
                }
                self.entries.remove(i);
            },
            None => {
                assert(old(self)@.remove(key@) =~= old(self)@);
            },
        }
    }
}

fn prefixed(prefix: &str, text: &str) -> (r: String)
    ensures
        r@ == prefix@ + text@,
{
    let mut s = String::new();
    push_str(&mut s, prefix);
    push_str(&mut s, text);
    s
}

/// The error for a key that the keychain does not accept.
pub fn entry_error(e: &KeychainError) -> (r: String)
    ensures
        r@ == "Keychain error: "@ + e.message@,
{
    prefixed("Keychain error: ", e.message.as_str())
}

/// What storing a token answers, given what the keychain answered: on
/// success the token is cached too.
pub fn settle_store(cache: &mut TokenCache, key: &str, value: &str, outcome: Result<(), KeychainError>) -> (r: Result<(), String>)
    requires
        old(cache).wf(),
    ensures
        final(cache).wf(),
        match outcome {
            Ok(()) => r is Ok && final(cache)@ == old(cache)@.insert(key@, value@),
            Err(e) => (r matches Err(msg) && msg@ == "Failed to store secret: "@ + e.message@)
                && final(cache)@ == old(cache)@,
        },
{
    match outcome {
        Ok(()) => {
            cache.remember(key, value);
            Ok(())
        },
        Err(e) => Err(prefixed("Failed to store secret: ", e.message.as_str())),
    }
}

/// What reading a token answers, given what the keychain answered: a found
/// token is cached; a missing one is `None`; other failures are errors.
pub fn settle_read(cache: &mut TokenCache, key: &str, outcome: Result<String, KeychainError>) -> (r: Result<Option<String>, String>)
    requires
        old(cache).wf(),
    ensures
        final(cache).wf(),
        match outcome {
            Ok(v) => r matches Ok(Some(t)) && t@ == v@ && final(cache)@ == old(cache)@.insert(key@, v@),
            Err(e) => final(cache)@ == old(cache)@ && if e.no_entry {
                r matches Ok(None)
            } else {
                r matches Err(msg) && msg@ == "Failed to read secret: "@ + e.message@
            },
        },
{
    match outcome {
        Ok(v) => {
            cache.remember(key, v.as_str());
            Ok(Some(v))
        },
        Err(e) => {
            if e.no_entry {
                Ok(None)
            } else {
                Err(prefixed("Failed to read secret: ", e.message.as_str()))
            }
        },
    }
}

/// What deleting a token answers, given what the keychain answered: a
/// credential that was already gone counts as deleted.
pub fn settle_delete(outcome: Result<(), KeychainError>) -> (r: Result<(), String>)
    ensures
        match outcome {
            Ok(()) => r is Ok,
            Err(e) => if e.no_entry {
                r is Ok
            } else {
                r matches Err(msg) && msg@ == "Failed to delete secret: "@ + e.message@
            },
        },
{
    match outcome {
        Ok(()) => Ok(()),
        Err(e) => {
            if e.no_entry {
                Ok(())
            } else {
                Err(prefixed("Failed to delete secret: ", e.message.as_str()))
            }
        },
    }
}

/// The keychain entry for `key` under `SERVICE_NAME`. Whether the platform
/// store accepts it is the store's decision, so success is not stated; a
/// refusal is reported as a keychain error.
fn open_entry(key: &str) -> (r: Result<KeychainEntry, String>)
    ensures
        r matches Ok(e) ==> e.service@ == SERVICE_NAME@ && e.account@ == key@,
        r matches Err(msg) ==> has_prefix(msg@, "Keychain error: "@),
{
    match keyring_entry(SERVICE_NAME, key) {
        Ok(entry) => Ok(entry),
        Err(e) => {
            let ke = keychain_error(&e);
            let msg = entry_error(&ke);
            assert(msg@.take("Keychain error: "@.len() as int) =~= "Keychain error: "@);
            Err(msg)
        },
    }
}

/// Stores a token in the keychain under `key`, and caches it.
pub fn store_secret(cache: &mut TokenCache, key: &str, value: &str) -> (r: Result<(), String>)
    requires
        old(cache).wf(),
    ensures
        final(cache).wf(),
        match r {
            Ok(()) => final(cache)@ == old(cache)@.insert(key@, value@),
            Err(msg) => final(cache)@ == old(cache)@ && (has_prefix(msg@, "Keychain error: "@)
                || has_prefix(msg@, "Failed to store secret: "@)),
        },
{
    let entry = open_entry(key)?;
    let outcome = match keyring_set_password(&entry, value) {
        Ok(()) => Ok(()),
        Err(e) => Err(keychain_error(&e)),
    };
    let r = settle_store(cache, key, value, outcome);
    proof {
        if r is Err {
            assert(r->Err_0@.take("Failed to store secret: "@.len() as int) =~= "Failed to store secret: "@);
        }
    }
    r
}

/// The token stored under `key`: from the cache when it holds one (the
/// keychain is then not asked), otherwise from the keychain, and then cached.
/// `None` when the keychain has no such token.
pub fn get_secret(cache: &mut TokenCache, key: &str) -> (r: Result<Option<String>, String>)
    requires
        old(cache).wf(),
    ensures
        final(cache).wf(),
        old(cache)@.contains_key(key@) ==> (r matches Ok(Some(v)) && v@ == old(cache)@[key@])
            && final(cache)@ == old(cache)@,
        !old(cache)@.contains_key(key@) ==> match r {
            Ok(Some(v)) => final(cache)@ == old(cache)@.insert(key@, v@),
            Ok(None) => final(cache)@ == old(cache)@,
            Err(msg) => final(cache)@ == old(cache)@ && (has_prefix(msg@, "Keychain error: "@)
                || has_prefix(msg@, "Failed to read secret: "@)),
        },
{
    if let Some(v) = cache.cached(key) {
        return Ok(Some(v));
    }
    let entry = open_entry(key)?;
    let outcome = match keyring_get_password(&entry) {
        Ok(v) => Ok(v),
        Err(e) => Err(keychain_error(&e)),
    };
    let r = settle_read(cache, key, outcome);
    proof {
        if r is Err {
            assert(r->Err_0@.take("Failed to read secret: "@.len() as int) =~= "Failed to read secret: "@);
        }
    }
    r
}

/// Removes the token stored under `key` from the cache and the keychain.
/// A token that was not there counts as removed.
pub fn delete_secret(cache: &mut TokenCache, key: &str) -> (r: Result<(), String>)
    requires
        old(cache).wf(),
    ensures
        final(cache).wf(),
        final(cache)@ == old(cache)@.remove(key@),
        r matches Err(msg) ==> (has_prefix(msg@, "Keychain error: "@)
            || has_prefix(msg@, "Failed to delete secret: "@)),
{
    cache.forget(key);
    let entry = open_entry(key)?;
    let outcome = match keyring_delete_credential(&entry) {
        Ok(()) => Ok(()),
        Err(e) => Err(keychain_error(&e)),
    };
    let r = settle_delete(outcome);
    proof {
        if r is Err {
            assert(r->Err_0@.take("Failed to delete secret: "@.len() as int) =~= "Failed to delete secret: "@);
        }
    }
    r
}

/// Law: a token that was stored is answered from the cache by the next read,
/// without asking the keychain; a deleted token is no longer cached.
pub proof fn law_store_then_read(cache: Map<Seq<char>, Seq<char>>, key: Seq<char>, value: Seq<char>)
    ensures
        cache.insert(key, value).contains_key(key),
        cache.insert(key, value)[key] == value,
        !cache.remove(key).contains_key(key),
        !cache.insert(key, value).remove(key).contains_key(key),
{
}

} // verus!
