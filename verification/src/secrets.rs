//! Secret storage. API keys never touch the plain-text settings table:
//! the desktop app keeps them in the OS keyring; the in-memory store here
//! serves tests and headless fallbacks.
use vstd::prelude::*;
use vstd::string::*;

use keyring::Entry;

use crate::error::{AppError, AppResult};
use crate::text::{chars_eq, chars_of, starts_with};

verus! {

/// Where secrets are kept. Implementations decide how (keyring, memory).
pub trait SecretStorage {
    /// The stored secret, or `None` if absent.
    fn get_secret(&self, key: &str) -> AppResult<Option<String>>;

    /// Store or overwrite a secret.
    fn set_secret(&mut self, key: &str, value: &str) -> AppResult<()>;

    /// Remove a secret; removing an absent key is no error.
    fn delete_secret(&mut self, key: &str) -> AppResult<()>;
}

/// In-memory secret store; never persisted. Keys are unique.
#[derive(Debug, Default)]
pub struct InMemorySecretStorage {
    entries: Vec<(String, String)>,
}

/// Keys of the entries are pairwise distinct.
pub open spec fn unique_keys(es: Seq<(String, String)>) -> bool {
    forall|i: int, j: int| 0 <= i < es.len() && 0 <= j < es.len() && i != j ==> es[i].0@ != es[j].0@
}

/// The map an entry list denotes.
pub open spec fn secrets_map(es: Seq<(String, String)>) -> Map<Seq<char>, Seq<char>>
    decreases es.len(),
{
    if es.len() == 0 {
        Map::empty()
    } else {
        secrets_map(es.drop_last()).insert(es.last().0@, es.last().1@)
    }
}

proof fn lemma_secrets_map(es: Seq<(String, String)>)
    requires
        unique_keys(es),
    ensures
        forall|k: Seq<char>|
            #![trigger secrets_map(es).contains_key(k)]
            secrets_map(es).contains_key(k) <==> exists|j: int| 0 <= j < es.len() && es[j].0@ == k,
        forall|j: int|
            #![trigger es[j]]
            0 <= j < es.len() ==> secrets_map(es).contains_key(es[j].0@) && secrets_map(es)[es[j].0@]
                == es[j].1@,
    decreases es.len(),
{
    if es.len() > 0 {
        let p = es.drop_last();
        assert(unique_keys(p));
        lemma_secrets_map(p);
        assert forall|k: Seq<char>| #![trigger secrets_map(es).contains_key(k)]
            secrets_map(es).contains_key(k) <==> exists|j: int| 0 <= j < es.len() && es[j].0@ == k by {
            if secrets_map(es).contains_key(k) && k != es.last().0@ {
                assert(secrets_map(p).contains_key(k));
                let j = choose|j: int| 0 <= j < p.len() && p[j].0@ == k;
                assert(es[j] == p[j]);
                assert(0 <= j < es.len() && es[j].0@ == k);
            }
            if secrets_map(es).contains_key(k) && k == es.last().0@ {
                assert(es[es.len() - 1].0@ == k);
            }
            if exists|j: int| 0 <= j < es.len() && es[j].0@ == k {
                let j = choose|j: int| 0 <= j < es.len() && es[j].0@ == k;
                if j < es.len() - 1 {
                    assert(p[j] == es[j]);
                }
            }
        }
        assert forall|j: int| #![trigger es[j]] 0 <= j < es.len() implies secrets_map(es).contains_key(
            es[j].0@,
        ) && secrets_map(es)[es[j].0@] == es[j].1@ by {
            if j < es.len() - 1 {
                assert(p[j] == es[j]);
                assert(es[j].0@ != es[es.len() - 1].0@);
            }
        }
    }
}

proof fn lemma_secrets_map_update(es: Seq<(String, String)>, j: int, e: (String, String))
    requires
        unique_keys(es),
        0 <= j < es.len(),
        es[j].0@ == e.0@,
    ensures
        secrets_map(es.update(j, e)) == secrets_map(es).insert(e.0@, e.1@),
    decreases es.len(),
{
    let u = es.update(j, e);
    if j == es.len() - 1 {
        assert(u.drop_last() =~= es.drop_last());
        assert(secrets_map(u) =~= secrets_map(es).insert(e.0@, e.1@));
    } else {
        let p = es.drop_last();
        assert(unique_keys(p));
        lemma_secrets_map_update(p, j, e);
        assert(u.drop_last() =~= p.update(j, e));
        assert(es.last().0@ != e.0@) by {
            assert(es[j].0@ != es[es.len() - 1].0@);
        }
        assert(secrets_map(u) =~= secrets_map(es).insert(e.0@, e.1@));
    }
}

proof fn lemma_secrets_map_remove(es: Seq<(String, String)>, j: int)
    requires
        unique_keys(es),
        0 <= j < es.len(),
    ensures
        secrets_map(es.remove(j)) == secrets_map(es).remove(es[j].0@),
        unique_keys(es.remove(j)),
    decreases es.len(),
{
    let r = es.remove(j);
    let k = es[j].0@;
    if j == es.len() - 1 {
        assert(r =~= es.drop_last());
        lemma_secrets_map(es.drop_last());
        assert(unique_keys(es.drop_last()));
        assert(!secrets_map(es.drop_last()).contains_key(k)) by {
            if secrets_map(es.drop_last()).contains_key(k) {
                let t = choose|t: int| 0 <= t < es.drop_last().len() && es.drop_last()[t].0@ == k;
                assert(es[t].0@ == k);
            }
        }
        assert(secrets_map(r) =~= secrets_map(es).remove(k));
    } else {
        let p = es.drop_last();
        assert(unique_keys(p));
        lemma_secrets_map_remove(p, j);
        assert(r.drop_last() =~= p.remove(j));
        assert(r.last() == es.last());
        assert(es.last().0@ != k) by {
            assert(es[j].0@ != es[es.len() - 1].0@);
        }
        assert(secrets_map(r) =~= secrets_map(es).remove(k));
    }
    assert forall|a: int, b: int|
        0 <= a < r.len() && 0 <= b < r.len() && a != b implies r[a].0@ != r[b].0@ by {
        let a2 = if a < j {
            a
        } else {
            a + 1
        };
        let b2 = if b < j {
            b
        } else {
            b + 1
        };
        assert(r[a] == es[a2]);
        assert(r[b] == es[b2]);
    }
}

impl InMemorySecretStorage {
    #[verifier::type_invariant]
    spec fn inv(self) -> bool {
        unique_keys(self.entries@)
    }

    /// The stored secrets.
    pub closed spec fn view(&self) -> Map<Seq<char>, Seq<char>> {
        secrets_map(self.entries@)
    }

    /// An empty store.
    pub fn new() -> (s: Self)
        ensures
            s.view() == Map::<Seq<char>, Seq<char>>::empty(),
    {
        InMemorySecretStorage { entries: Vec::new() }
    }

    /// Position of the entry for `key`.
    fn find(&self, key: &str) -> (r: Option<usize>)
        ensures
            r matches Some(j) ==> j < self.entries@.len() && self.entries@[j as int].0@ == key@,
            r is None ==> forall|j: int| 0 <= j < self.entries@.len() ==> self.entries@[j].0@ != key@,
    {
        let want = chars_of(key);
        let mut j: usize = 0;
        while j < self.entries.len()
            invariant
                j <= self.entries@.len(),
                want@ == key@,
                forall|t: int| 0 <= t < j ==> self.entries@[t].0@ != key@,
            decreases self.entries@.len() - j,
        {
            let cand = chars_of(self.entries[j].0.as_str());
            if chars_eq(&cand, &want) {
                return Some(j);
            }
            j += 1;
        }
        None
    }
}

impl SecretStorage for InMemorySecretStorage {
    /// The secret stored under `key`, if any; never an error.
    fn get_secret(&self, key: &str) -> (r: AppResult<Option<String>>)
        ensures
            r matches Ok(o) && (match o {
                Some(v) => self.view().contains_key(key@) && self.view()[key@] == v@,
                None => !self.view().contains_key(key@),
            }),
    {
        proof {
            use_type_invariant(self);
            lemma_secrets_map(self.entries@);
        }
        match self.find(key) {
            Some(j) => Ok(Some(self.entries[j].1.clone())),
            None => Ok(None),
        }
    }

    /// Store `value` under `key`, replacing a previous one; never an error.
    fn set_secret(&mut self, key: &str, value: &str) -> (r: AppResult<()>)
        ensures
            r is Ok,
            final(self).view() == old(self).view().insert(key@, value@),
    {
        proof {
            use_type_invariant(&*self);
        }
        let e = (String::from_str(key), String::from_str(value));
        let mut entries: Vec<(String, String)> = Vec::new();
        std::mem::swap(&mut entries, &mut self.entries);
        let want = chars_of(key);
        let mut j: usize = 0;
        let mut at: Option<usize> = None;
        while j < entries.len()
            invariant_except_break
                at is None,
            invariant
                j <= entries@.len(),
                want@ == key@,
                forall|t: int| 0 <= t < j ==> entries@[t].0@ != key@,
            ensures
                at matches Some(p) ==> p < entries@.len() && entries@[p as int].0@ == key@,
                at is None ==> forall|t: int| 0 <= t < entries@.len() ==> entries@[t].0@ != key@,
            decreases entries@.len() - j,
        {
            let cand = chars_of(entries[j].0.as_str());
            if chars_eq(&cand, &want) {
                at = Some(j);
                break;
            }
            j += 1;
        }
        match at {
            Some(p) => {
                proof {
                    lemma_secrets_map_update(entries@, p as int, e);
                    assert(unique_keys(entries@.update(p as int, e)));
                }
                entries.set(p, e);
            },
            None => {
                let ghost es = entries@;
                entries.push(e);
                proof {
                    assert(entries@.drop_last() =~= es);
                    assert(unique_keys(entries@));
                }
            },
        }
        self.entries = entries;
        Ok(())
    }

    /// Remove the secret under `key`, if any; never an error.
    fn delete_secret(&mut self, key: &str) -> (r: AppResult<()>)
        ensures
            r is Ok,
            final(self).view() == old(self).view().remove(key@),
    {
        proof {
            use_type_invariant(&*self);
            lemma_secrets_map(self.entries@);
        }
        match self.find(key) {
            Some(j) => {
                let mut entries: Vec<(String, String)> = Vec::new();
                std::mem::swap(&mut entries, &mut self.entries);
                proof {
                    lemma_secrets_map_remove(entries@, j as int);
                }
                entries.remove(j);
                self.entries = entries;
            },
            None => {
                proof {
                    assert(!self.view().contains_key(key@)) by {
                        if self.view().contains_key(key@) {
                            let t = choose|t: int|
                                0 <= t < self.entries@.len() && self.entries@[t].0@ == key@;
                            assert(self.entries@[t].0@ != key@);
                        }
                    }
                    assert(self.view().remove(key@) =~= self.view());
                }
            },
        }
        Ok(())
    }
}

/// What the in-memory store answers after a write: `set_secret` makes its
/// view `view().insert(key, value)` and `get_secret` reads the view, so
/// reading the key just written gives the value just written, every other
/// key reads as it did, and after `delete_secret` (`view().remove(key)`)
/// the key reads as absent.
pub proof fn law_read_after_write(
    store: InMemorySecretStorage,
    key: Seq<char>,
    value: Seq<char>,
    other: Seq<char>,
)
    ensures
        store.view().insert(key, value).contains_key(key),
        store.view().insert(key, value)[key] == value,
        other != key ==> (store.view().insert(key, value).contains_key(other)
            == store.view().contains_key(other)),
        other != key && store.view().contains_key(other) ==> store.view().insert(key, value)[other]
            == store.view()[other],
        !store.view().remove(key).contains_key(key),
        other != key ==> (store.view().remove(key).contains_key(other) == store.view().contains_key(
            other,
        )),
{
}

/// `keyring::Entry`.
#[verifier::external_type_specification]
#[verifier::external_body]
pub struct ExKeyringEntry(keyring::Entry);

/// `keyring::Error`.
#[verifier::external_type_specification]
#[verifier::external_body]
pub struct ExKeyringError(keyring::Error);

/// The keyring service under which the app's secrets are filed.
pub const KEYRING_SERVICE: &'static str = "draffity";

/// `keyring::Entry::new`. The outcome depends on the platform store;
/// nothing is promised of it.
#[verifier::external_body]
fn keyring_entry(service: &str, user: &str) -> (r: Result<Entry, keyring::Error>) {
    Entry::new(service, user)
}

/// `Entry::get_password`: the stored password, read from the platform
/// store; nothing is promised of the outcome.
#[verifier::external_body]
fn keyring_get(e: &Entry) -> (r: Result<String, keyring::Error>) {
    e.get_password()
}

/// `Entry::set_password`; nothing is promised of the outcome.
#[verifier::external_body]
fn keyring_set(e: &Entry, value: &str) -> (r: Result<(), keyring::Error>) {
    e.set_password(value)
}

/// `Entry::delete_credential`; nothing is promised of the outcome.
#[verifier::external_body]
fn keyring_delete(e: &Entry) -> (r: Result<(), keyring::Error>) {
    e.delete_credential()
}

/// Whether a keyring error is `Error::NoEntry` (no credential stored).
#[verifier::external_body]
fn keyring_no_entry(e: &keyring::Error) -> (r: bool) {
    match e {
        keyring::Error::NoEntry => true,
        _ => false,
    }
}

/// The `Display` text of a keyring error; nothing is promised of it.
#[verifier::external_body]
fn keyring_error_text(e: &keyring::Error) -> (r: String) {
    e.to_string()
}

/// A failed keyring call as plain values: whether it was `NoEntry` (no
/// credential stored), and the error's text.
#[derive(Debug, Clone, PartialEq, Eq)]
pub struct KeyringFailure {
    pub no_entry: bool,
    pub text: String,
}

/// A keyring error as a `KeyringFailure`.
fn failure_of(e: &keyring::Error) -> KeyringFailure {
    KeyringFailure { no_entry: keyring_no_entry(e), text: keyring_error_text(e) }
}

/// The library error for a keyring step that failed: an `Unexpected` error
/// `keyring <step>: <text>`.
pub open spec fn is_keyring_error(e: AppError, step: Seq<char>, f: KeyringFailure) -> bool {
    e matches AppError::Unexpected(m) && m@ == "keyring "@ + step + ": "@ + f.text@
}

/// The library error for a keyring step that failed with `f`.
pub fn keyring_error(step: &str, f: KeyringFailure) -> (r: AppError)
    ensures
        is_keyring_error(r, step@, f),
{
    let mut m = String::from_str("keyring ");
    m.append(step);
    m.append(": ");
    m.append(f.text.as_str());
    AppError::Unexpected(m)
}

/// What reading a secret gives for the keyring's answer: the password;
/// `None` when no credential is stored; otherwise a `get` error.
pub open spec fn read_result(answer: Result<String, KeyringFailure>, r: AppResult<Option<String>>) -> bool {
    match answer {
        Ok(v) => r == Ok::<Option<String>, AppError>(Some(v)),
        Err(f) => if f.no_entry {
            r == Ok::<Option<String>, AppError>(None)
        } else {
            (r matches Err(e) && is_keyring_error(e, "get"@, f))
        },
    }
}

/// The secret for the keyring's answer to reading it (see `read_result`).
pub fn secret_from_answer(answer: Result<String, KeyringFailure>) -> (r: AppResult<Option<String>>)
    ensures
        read_result(answer, r),
{
    match answer {
        Ok(v) => Ok(Some(v)),
        Err(f) => {
            if f.no_entry {
                Ok(None)
            } else {
                Err(keyring_error("get", f))
            }
        },
    }
}

/// What deleting a secret gives for the keyring's answer: success when it
/// deleted or no credential was stored; otherwise a `delete` error.
pub open spec fn delete_result(answer: Result<(), KeyringFailure>, r: AppResult<()>) -> bool {
    match answer {
        Ok(()) => r == Ok::<(), AppError>(()),
        Err(f) => if f.no_entry {
            r == Ok::<(), AppError>(())
        } else {
            (r matches Err(e) && is_keyring_error(e, "delete"@, f))
        },
    }
}

/// The outcome of a deletion for the keyring's answer (see
/// `delete_result`).
pub fn deletion_from_answer(answer: Result<(), KeyringFailure>) -> (r: AppResult<()>)
    ensures
        delete_result(answer, r),
{
    match answer {
        Ok(()) => Ok(()),
        Err(f) => {
            if f.no_entry {
                Ok(())
            } else {
                Err(keyring_error("delete", f))
            }
        },
    }
}

/// Opening the entry of `key` (under the app's service) failed with `f`.
pub closed spec fn keyring_open_refused(key: &str, f: KeyringFailure) -> bool {
    exists|x: keyring::Error|
        #![trigger call_ensures(failure_of, (&x,), f)]
        call_ensures(keyring_entry, (KEYRING_SERVICE, key), Err::<Entry, keyring::Error>(x))
            && call_ensures(failure_of, (&x,), f)
}

/// The entry of `key` opened, and a call on it answered `raw`, a failure
/// taken as its `KeyringFailure`.
pub closed spec fn answer_of<T>(raw: Result<T, keyring::Error>, answer: Result<T, KeyringFailure>) -> bool {
    match raw {
        Ok(v) => answer == Ok::<T, KeyringFailure>(v),
        Err(x) => exists|f: KeyringFailure|
            #![trigger call_ensures(failure_of, (&x,), f)]
            answer == Err::<T, KeyringFailure>(f) && call_ensures(failure_of, (&x,), f),
    }
}

/// The entry of `key` opened, and reading its password answered `answer`.
pub closed spec fn keyring_read_answer(key: &str, answer: Result<String, KeyringFailure>) -> bool {
    exists|entry: Entry, raw: Result<String, keyring::Error>|
        #![trigger call_ensures(keyring_get, (&entry,), raw)]
        call_ensures(keyring_entry, (KEYRING_SERVICE, key), Ok::<Entry, keyring::Error>(entry))
            && call_ensures(keyring_get, (&entry,), raw) && answer_of(raw, answer)
}

/// The entry of `key` opened, and deleting its credential answered
/// `answer`.
pub closed spec fn keyring_delete_answer(key: &str, answer: Result<(), KeyringFailure>) -> bool {
    exists|entry: Entry, raw: Result<(), keyring::Error>|
        #![trigger call_ensures(keyring_delete, (&entry,), raw)]
        call_ensures(keyring_entry, (KEYRING_SERVICE, key), Ok::<Entry, keyring::Error>(entry))
            && call_ensures(keyring_delete, (&entry,), raw) && answer_of(raw, answer)
}

/// The answer of a keyring call, a failure as a `KeyringFailure`.
fn to_answer<T>(raw: Result<T, keyring::Error>) -> (a: Result<T, KeyringFailure>)
    ensures
        answer_of(raw, a),
{
    match raw {
        Ok(v) => Ok(v),
        Err(x) => {
            let f = failure_of(&x);
            Err(f)
        },
    }
}

/// Secrets kept in the OS keyring, one credential per key under the
/// `draffity` service.
#[derive(Debug, Default, Clone, Copy)]
pub struct KeyringSecretStorage;

impl KeyringSecretStorage {
    /// The keyring store.
    pub fn new() -> (r: Self) {
        KeyringSecretStorage
    }
}

impl SecretStorage for KeyringSecretStorage {
    /// The stored secret: the entry of `key` is opened (an `open` error
    /// when the keyring refuses), then its password read, and the answer
    /// taken as `secret_from_answer` says.
    fn get_secret(&self, key: &str) -> (r: AppResult<Option<String>>)
        ensures
            (exists|f: KeyringFailure|
                #![trigger keyring_open_refused(key, f)]
                keyring_open_refused(key, f) && (r matches Err(e) && is_keyring_error(e, "open"@, f)))
                || exists|a: Result<String, KeyringFailure>|
                #![trigger keyring_read_answer(key, a)]
                keyring_read_answer(key, a) && read_result(a, r),
    {
        let entry = match keyring_entry(KEYRING_SERVICE, key) {
            Ok(e) => e,
            Err(x) => {
                let f = failure_of(&x);
                let err = keyring_error("open", f);
                assert(keyring_open_refused(key, f));
                return Err(err);
            },
        };
        let raw = keyring_get(&entry);
        let a = to_answer(raw);
        assert(keyring_read_answer(key, a));
        secret_from_answer(a)
    }

    /// Store the secret: the entry of `key` is opened, then the password
    /// set; a failure of either is an `open` or `set` error.
    fn set_secret(&mut self, key: &str, value: &str) -> (r: AppResult<()>)
        ensures
            r matches Err(e) ==> exists|f: KeyringFailure|
                is_keyring_error(e, "open"@, f) || is_keyring_error(e, "set"@, f),
    {
        let entry = match keyring_entry(KEYRING_SERVICE, key) {
            Ok(e) => e,
            Err(x) => {
                let f = failure_of(&x);
                return Err(keyring_error("open", f));
            },
        };
        match keyring_set(&entry, value) {
            Ok(()) => Ok(()),
            Err(x) => {
                let f = failure_of(&x);
                Err(keyring_error("set", f))
            },
        }
    }

    /// Delete the secret: the entry of `key` is opened (an `open` error
    /// when the keyring refuses), then its credential deleted, and the
    /// answer taken as `deletion_from_answer` says.
    fn delete_secret(&mut self, key: &str) -> (r: AppResult<()>)
        ensures
            (exists|f: KeyringFailure|
                #![trigger keyring_open_refused(key, f)]
                keyring_open_refused(key, f) && (r matches Err(e) && is_keyring_error(e, "open"@, f)))
                || exists|a: Result<(), KeyringFailure>|
                #![trigger keyring_delete_answer(key, a)]
                keyring_delete_answer(key, a) && delete_result(a, r),
    {
        let entry = match keyring_entry(KEYRING_SERVICE, key) {
            Ok(e) => e,
            Err(x) => {
                let f = failure_of(&x);
                let err = keyring_error("open", f);
                assert(keyring_open_refused(key, f));
                return Err(err);
            },
        };
        let raw = keyring_delete(&entry);
        let a = to_answer(raw);
        assert(keyring_delete_answer(key, a));
        deletion_from_answer(a)
    }
}

} // verus!
