//! A password-protected credential store over a sled database.
use crate::err::{
    DbError, IncorrectPassword, Locked, OldDNECurrent, PasswordNotSet, PasswordSet,
    PasswordTooSimple, StoreError,
};
use crate::passgen::{score, strength};
use vstd::prelude::*;

verus! {

/// Passwords that score below this are refused.
pub const MIN_SCORE: u8 = 10;

#[verifier::external_type_specification]
#[verifier::external_body]
pub struct ExDb(sled::Db);

/// Relies on sled's `Tree::get`: the value stored under `key`, if any. What is stored lives
/// on disk, so nothing is promised of it.
#[verifier::external_body]
fn db_get(db: &sled::Db, key: &[u8]) -> (r: Result<Option<Vec<u8>>, sled::Error>) {
    db.get(key).map(|v| v.map(|iv| iv.to_vec()))
}

/// Relies on sled's `Tree::insert`: stores `value` under `key`.
#[verifier::external_body]
fn db_insert(db: &sled::Db, key: &[u8], value: &[u8]) -> (r: Result<(), sled::Error>) {
    db.insert(key, value).map(|_| ())
}

/// Relies on sled's `Tree::compare_and_swap`: atomically replaces the value under `key` with
/// `new` when it is `old`; `Ok(true)` when it swapped, `Ok(false)` when the stored value
/// differed.
#[verifier::external_body]
fn db_cas(db: &sled::Db, key: &[u8], old: &[u8], new: &[u8]) -> (r: Result<bool, sled::Error>) {
    db.compare_and_swap(key, Some(old), Some(new)).map(|c| c.is_ok())
}

/// The byte strings that `v` holds.
pub open spec fn views_of(v: Seq<Vec<u8>>) -> Seq<Seq<u8>> {
    v.map_values(|k: Vec<u8>| k@)
}

fn bytes_eq(a: &[u8], b: &[u8]) -> (r: bool)
    ensures
        r == (a@ == b@),
{
    if a.len() != b.len() {
        return false;
    }
    let mut i: usize = 0;
    while i < a.len()
        invariant
            a@.len() == b@.len(),
            i <= a@.len(),
            forall|k: int| 0 <= k < i ==> a@[k] == b@[k],
        decreases a@.len() - i,
    {
        if a[i] != b[i] {
            return false;
        }
        i += 1;
    }
    assert(a@ =~= b@);
    true
}

/// The outcome of setting the first password `pw`: refused with `PasswordSet` where one is
/// set, with `PasswordTooSimple` where `pw` scores below `MIN_SCORE`; otherwise `pw` becomes
/// the password. Only a success changes the store, and only its password.
pub open spec fn password_set(s0: Store, s1: Store, pw: Seq<char>, r: Result<(), StoreError>) -> bool {
    if s0.password_view() is Some {
        (r matches Err(StoreError::PasswordSet(_))) && s1.same_as(&s0)
    } else if strength(pw) < MIN_SCORE {
        (r matches Err(StoreError::PasswordTooSimple(_))) && s1.same_as(&s0)
    } else {
        r is Ok && s1.password_view() == Some(pw) && s1.same_but_password(&s0)
    }
}

/// The outcome of replacing the password `old_pw` with `new_pw`: refused with
/// `PasswordNotSet` where none is set, with `IncorrectPassword` where `old_pw` is not it,
/// with `PasswordTooSimple` where `new_pw` scores below `MIN_SCORE`; otherwise `new_pw`
/// becomes the password. Only a success changes the store, and only its password.
pub open spec fn password_changed(
    s0: Store,
    s1: Store,
    old_pw: Seq<char>,
    new_pw: Seq<char>,
    r: Result<(), StoreError>,
) -> bool {
    match s0.password_view() {
        None => (r matches Err(StoreError::PasswordNotSet(_))) && s1.same_as(&s0),
        Some(p) => if p != old_pw {
            (r matches Err(StoreError::IncorrectPassword(_))) && s1.same_as(&s0)
        } else if strength(new_pw) < MIN_SCORE {
            (r matches Err(StoreError::PasswordTooSimple(_))) && s1.same_as(&s0)
        } else {
            r is Ok && s1.password_view() == Some(new_pw) && s1.same_but_password(&s0)
        },
    }
}

/// The outcome of locking: refused with `PasswordNotSet` where no password is set;
/// otherwise the store is locked, whatever it was, and nothing else changes.
pub open spec fn locked_by(s0: Store, s1: Store, r: Result<(), StoreError>) -> bool {
    if s0.password_view() is None {
        (r matches Err(StoreError::PasswordNotSet(_))) && s1.same_as(&s0)
    } else {
        r is Ok && s1.locked_view() && s1.password_view() == s0.password_view() && s1.keys_view()
            == s0.keys_view()
    }
}

/// The outcome of unlocking with `code`: refused with `PasswordNotSet` where no password is
/// set, with `IncorrectPassword` where `code` is not it; otherwise the store is unlocked,
/// whatever it was, and nothing else changes.
pub open spec fn unlocked_by(s0: Store, s1: Store, code: Seq<char>, r: Result<(), StoreError>) -> bool {
    match s0.password_view() {
        None => (r matches Err(StoreError::PasswordNotSet(_))) && s1.same_as(&s0),
        Some(p) => if p != code {
            (r matches Err(StoreError::IncorrectPassword(_))) && s1.same_as(&s0)
        } else {
            r is Ok && !s1.locked_view() && s1.password_view() == s0.password_view()
                && s1.keys_view() == s0.keys_view()
        },
    }
}

/// The outcome of listing the keys: refused with `Locked` while locked; otherwise the
/// tracked keys in order.
pub open spec fn listed(s: Store, r: Result<Vec<Vec<u8>>, StoreError>) -> bool {
    if s.locked_view() {
        r matches Err(StoreError::Locked(_))
    } else {
        r is Ok && views_of(r->Ok_0@) == s.keys_view()
    }
}

/// The outcome of reading `key`: refused with `Locked` while locked, with `KeyDNE` where the
/// key is not tracked; otherwise the database's value, `ValueDNE` where it holds none, or
/// its fault.
pub open spec fn fetched(s: Store, key: Seq<u8>, r: Result<Vec<u8>, StoreError>) -> bool {
    if s.locked_view() {
        r matches Err(StoreError::Locked(_))
    } else if !s.keys_view().contains(key) {
        r matches Err(StoreError::Db(DbError::KeyDNE))
    } else {
        r is Ok || (r matches Err(StoreError::Db(DbError::ValueDNE))) || (r matches Err(
            StoreError::Db(DbError::SledError(_)),
        ))
    }
}

/// The outcome of inserting under `key`: refused with `Locked` while locked, with
/// `CannotInsertIfValExists` where the key is tracked; otherwise the database stores the
/// value and the key is tracked, or the database faults and nothing changes. Password and
/// lock never change.
pub open spec fn inserted(s0: Store, s1: Store, key: Seq<u8>, r: Result<(), StoreError>) -> bool {
    &&& s1.password_view() == s0.password_view()
    &&& s1.locked_view() == s0.locked_view()
    &&& if s0.locked_view() {
        (r matches Err(StoreError::Locked(_))) && s1.same_as(&s0)
    } else if s0.keys_view().contains(key) {
        (r matches Err(StoreError::Db(DbError::CannotInsertIfValExists))) && s1.same_as(&s0)
    } else {
        r is Ok && s1.keys_view() == s0.keys_view().push(key) || (r matches Err(
            StoreError::Db(DbError::SledError(_)),
        )) && s1.same_as(&s0)
    }
}

/// The outcome of a compare-and-swap under `key`: refused with `Locked` while locked, with
/// `KeyDNE` where the key is not tracked; otherwise the database swapped, or refused with
/// `OldDNECurrent` because it held another value, or faulted. The store itself never
/// changes.
pub open spec fn swapped(s0: Store, s1: Store, key: Seq<u8>, r: Result<(), StoreError>) -> bool {
    &&& s1.same_as(&s0)
    &&& if s0.locked_view() {
        r matches Err(StoreError::Locked(_))
    } else if !s0.keys_view().contains(key) {
        r matches Err(StoreError::Db(DbError::KeyDNE))
    } else {
        r is Ok || (r matches Err(StoreError::OldDNECurrent(_))) || (r matches Err(
            StoreError::Db(DbError::SledError(_)),
        ))
    }
}

/// The password is set once: after a first `set_password` succeeds, a second one is
/// refused with `PasswordSet` and the first password stays.
pub proof fn lemma_password_set_once(
    s0: Store,
    s1: Store,
    first: Seq<char>,
    r1: Result<(), StoreError>,
    s2: Store,
    second: Seq<char>,
    r2: Result<(), StoreError>,
)
    requires
        password_set(s0, s1, first, r1),
        r1 is Ok,
        password_set(s1, s2, second, r2),
    ensures
        r2 matches Err(StoreError::PasswordSet(_)),
        s2.password_view() == Some(first),
{
}

/// Lock semantics: while the store is locked, listing, reading, inserting and swapping are
/// all refused with `Locked`, and the store is left as it was.
pub proof fn lemma_locked_refuses(
    s: Store,
    key: Seq<u8>,
    keys: Result<Vec<Vec<u8>>, StoreError>,
    value: Result<Vec<u8>, StoreError>,
    s_ins: Store,
    ins: Result<(), StoreError>,
    s_cas: Store,
    cas: Result<(), StoreError>,
)
    requires
        s.locked_view(),
        listed(s, keys),
        fetched(s, key, value),
        inserted(s, s_ins, key, ins),
        swapped(s, s_cas, key, cas),
    ensures
        keys matches Err(StoreError::Locked(_)),
        value matches Err(StoreError::Locked(_)),
        ins matches Err(StoreError::Locked(_)),
        cas matches Err(StoreError::Locked(_)),
        s_ins.same_as(&s),
        s_cas.same_as(&s),
{
}

/// Lock semantics: locking a store with a password succeeds and locks it; unlocking
/// it with the password then succeeds, and none of listing, reading, inserting or swapping
/// is refused with `Locked` any more.
pub proof fn lemma_unlock_restores(
    s0: Store,
    s1: Store,
    locking: Result<(), StoreError>,
    code: Seq<char>,
    s2: Store,
    unlocking: Result<(), StoreError>,
    key: Seq<u8>,
    keys: Result<Vec<Vec<u8>>, StoreError>,
    value: Result<Vec<u8>, StoreError>,
    s_ins: Store,
    ins: Result<(), StoreError>,
    s_cas: Store,
    cas: Result<(), StoreError>,
)
    requires
        s0.password_view() == Some(code),
        locked_by(s0, s1, locking),
        unlocked_by(s1, s2, code, unlocking),
        listed(s2, keys),
        fetched(s2, key, value),
        inserted(s2, s_ins, key, ins),
        swapped(s2, s_cas, key, cas),
    ensures
        locking is Ok,
        s1.locked_view(),
        unlocking is Ok,
        !s2.locked_view(),
        s2.password_view() == s0.password_view(),
        s2.keys_view() == s0.keys_view(),
        !(keys matches Err(StoreError::Locked(_))),
        !(value matches Err(StoreError::Locked(_))),
        !(ins matches Err(StoreError::Locked(_))),
        !(cas matches Err(StoreError::Locked(_))),
{
}

/// Password authenticated store
pub struct Store {
    db: sled::Db,
    password: Option<String>,
    locked: bool,
    keys: Vec<Vec<u8>>,
}

impl Store {
    /// The lock can only be closed once a password is set, and no key is tracked twice.
    pub closed spec fn wf(&self) -> bool {
        &&& self.locked ==> self.password is Some
        &&& self.keys_view().no_duplicates()
    }

    /// The password, where one is set.
    pub closed spec fn password_view(&self) -> Option<Seq<char>> {
        match self.password {
            Some(p) => Some(p@),
            None => None,
        }
    }

    pub closed spec fn locked_view(&self) -> bool {
        self.locked
    }

    /// The credential keys tracked, in the order they were inserted.
    pub closed spec fn keys_view(&self) -> Seq<Seq<u8>> {
        views_of(self.keys@)
    }

    /// Everything but the password is as in `other`.
    pub open spec fn same_but_password(&self, other: &Store) -> bool {
        self.locked_view() == other.locked_view() && self.keys_view() == other.keys_view()
    }

    /// Everything is as in `other`.
    pub open spec fn same_as(&self, other: &Store) -> bool {
        self.password_view() == other.password_view() && self.same_but_password(other)
    }

    /// An empty store, unlocked and without a password, over `db`.
    pub fn new(db: sled::Db) -> (r: Self)
        ensures
            r.wf(),
            r.password_view() is None,
            !r.locked_view(),
            r.keys_view() == Seq::<Seq<u8>>::empty(),
    {
        let r = Store { db, password: None, locked: false, keys: Vec::new() };
        assert(r.keys_view() =~= Seq::<Seq<u8>>::empty());
        r
    }

    pub fn has_password(&self) -> (r: bool)
        ensures
            r == self.password_view() is Some,
    {
        self.password.is_some()
    }

    pub fn is_locked(&self) -> (r: bool)
        ensures
            r == self.locked_view(),
    {
        self.locked
    }

    /// Sets the first password. It must score at least `MIN_SCORE`.
    pub fn set_password(&mut self, password: String) -> (r: Result<(), StoreError>)
        requires
            old(self).wf(),
        ensures
            final(self).wf(),
            password_set(*old(self), *final(self), password@, r),
    {
        if self.has_password() {
            Err(StoreError::PasswordSet(PasswordSet))
        } else {
            if score(password.clone()) < MIN_SCORE {
                return Err(StoreError::PasswordTooSimple(PasswordTooSimple));
            }
            self.password = Some(password);
            Ok(())
        }
    }

    /// Replaces the password, given the current one. The new one must score at least
    /// `MIN_SCORE`. The lock is left as it is.
    pub fn change_password(&mut self, old_password: String, new_password: String) -> (r: Result<(), StoreError>)
        requires
            old(self).wf(),
        ensures
            final(self).wf(),
            password_changed(*old(self), *final(self), old_password@, new_password@, r),
    {
        let matches = match &self.password {
            Some(p) => Some(*p == old_password),
            None => None,
        };
        match matches {
            Some(true) => {
                if score(new_password.clone()) < MIN_SCORE {
                    return Err(StoreError::PasswordTooSimple(PasswordTooSimple));
                }
                self.password = Some(new_password);
                Ok(())
            },
            Some(false) => Err(StoreError::IncorrectPassword(IncorrectPassword)),
            None => Err(StoreError::PasswordNotSet(PasswordNotSet)),
        }
    }

    /// Locks the store. Locking a locked store leaves it locked.
    pub fn lock(&mut self) -> (r: Result<(), StoreError>)
        requires
            old(self).wf(),
        ensures
            final(self).wf(),
            locked_by(*old(self), *final(self), r),
    {
        if !self.has_password() {
            return Err(StoreError::PasswordNotSet(PasswordNotSet));
        }
        self.locked = true;
        Ok(())
    }

    /// Unlocks the store with the password. Unlocking an unlocked store leaves it unlocked.
    pub fn unlock(&mut self, code: String) -> (r: Result<(), StoreError>)
        requires
            old(self).wf(),
        ensures
            final(self).wf(),
            unlocked_by(*old(self), *final(self), code@, r),
    {
        let matches = match &self.password {
            Some(p) => Some(*p == code),
            None => None,
        };
        match matches {
            Some(true) => {
                self.locked = false;
                Ok(())
            },
            Some(false) => Err(StoreError::IncorrectPassword(IncorrectPassword)),
            None => Err(StoreError::PasswordNotSet(PasswordNotSet)),
        }
    }

    /// Where `key` stands among the tracked keys.
    fn position(&self, key: &[u8]) -> (r: Option<usize>)
        ensures
            r is None <==> !self.keys_view().contains(key@),
            r matches Some(i) ==> i < self.keys_view().len() && self.keys_view()[i as int] == key@,
    {
        let mut i: usize = 0;
        while i < self.keys.len()
            invariant
                i <= self.keys@.len(),
                forall|k: int| 0 <= k < i ==> self.keys_view()[k] != key@,
            decreases self.keys@.len() - i,
        {
            if bytes_eq(self.keys[i].as_slice(), key) {
                assert(self.keys_view()[i as int] == key@);
                return Some(i);
            }
            i += 1;
        }
        proof {
            if self.keys_view().contains(key@) {
                let j = choose|j: int| 0 <= j < self.keys_view().len() && self.keys_view()[j] == key@;
                assert(self.keys_view()[j] != key@);
            }
        }
        None
    }

    /// The tracked credential keys, in the order they were inserted.
    pub fn keys(&self) -> (r: Result<Vec<Vec<u8>>, StoreError>)
        ensures
            listed(*self, r),
    {
        if self.locked {
            return Err(StoreError::Locked(Locked));
        }
        let mut out: Vec<Vec<u8>> = Vec::new();
        let mut i: usize = 0;
        while i < self.keys.len()
            invariant
                i <= self.keys@.len(),
                out@.len() == i,
                views_of(out@) == self.keys_view().subrange(0, i as int),
            decreases self.keys@.len() - i,
        {
            let k = vstd::slice::slice_to_vec(self.keys[i].as_slice());
            let ghost before = out@;
            assert(k@ == self.keys_view()[i as int]);
            out.push(k);
            assert(out@ == before.push(k));
            assert(views_of(before) =~= self.keys_view().subrange(0, i as int));
            assert forall|j: int| 0 <= j <= i implies #[trigger] views_of(out@)[j]
                == self.keys_view()[j] by {
                if j < i {
                    assert(views_of(before)[j] == self.keys_view().subrange(0, i as int)[j]);
                }
            }
            i += 1;
            assert(views_of(out@) =~= self.keys_view().subrange(0, i as int));
        }
        assert(self.keys_view().subrange(0, i as int) =~= self.keys_view());
        Ok(out)
    }

    /// The credential stored under `key`. It must be tracked, and the database must hold a
    /// value for it.
    pub fn get(&self, key: &[u8]) -> (r: Result<Vec<u8>, StoreError>)
        ensures
            fetched(*self, key@, r),
    {
        if self.locked {
            return Err(StoreError::Locked(Locked));
        }
        if self.position(key).is_none() {
            return Err(StoreError::Db(DbError::KeyDNE));
        }
        stored_value(db_get(&self.db, key))
    }

    /// Stores `value` under the fresh key `key`, and tracks the key.
    pub fn insert(&mut self, key: Vec<u8>, value: Vec<u8>) -> (r: Result<(), StoreError>)
        requires
            old(self).wf(),
        ensures
            final(self).wf(),
            inserted(*old(self), *final(self), key@, r),
    {
        if self.locked {
            return Err(StoreError::Locked(Locked));
        }
        if self.position(key.as_slice()).is_some() {
            return Err(StoreError::Db(DbError::CannotInsertIfValExists));
        }
        match db_insert(&self.db, key.as_slice(), value.as_slice()) {
            Ok(()) => {
                let ghost before = self.keys_view();
                proof {
                    assert(before.push(key@).no_duplicates());
                }
                self.keys.push(key);
                assert(self.keys_view() =~= before.push(key@));
                Ok(())
            },
            Err(e) => Err(StoreError::Db(DbError::SledError(e))),
        }
    }

    /// Replaces the credential under `key` with `new_value`, where it currently is `old_value`.
    pub fn cas(&mut self, key: &[u8], old_value: &[u8], new_value: &[u8]) -> (r: Result<(), StoreError>)
        requires
            old(self).wf(),
        ensures
            final(self).wf(),
            swapped(*old(self), *final(self), key@, r),
    {
        if self.locked {
            return Err(StoreError::Locked(Locked));
        }
        if self.position(key).is_none() {
            return Err(StoreError::Db(DbError::KeyDNE));
        }
        swap_outcome(db_cas(&self.db, key, old_value, new_value))
    }
}

/// What the store makes of the database's answer to a read: a value, no value, or a fault.
pub fn stored_value(found: Result<Option<Vec<u8>>, sled::Error>) -> (r: Result<Vec<u8>, StoreError>)
    ensures
        found matches Ok(Some(v)) ==> r matches Ok(w) && w@ == v@,
        found matches Ok(None) ==> r matches Err(StoreError::Db(DbError::ValueDNE)),
        found is Err ==> r matches Err(StoreError::Db(DbError::SledError(_))),
{
    match found {
        Ok(Some(v)) => Ok(v),
        Ok(None) => Err(StoreError::Db(DbError::ValueDNE)),
        Err(e) => Err(StoreError::Db(DbError::SledError(e))),
    }
}

/// What the store makes of the database's answer to a compare-and-swap.
pub fn swap_outcome(swapped: Result<bool, sled::Error>) -> (r: Result<(), StoreError>)
    ensures
        swapped is Ok && swapped->Ok_0 ==> r is Ok,
        swapped is Ok && !swapped->Ok_0 ==> r matches Err(StoreError::OldDNECurrent(_)),
        swapped is Err ==> r matches Err(StoreError::Db(DbError::SledError(_))),
{
    match swapped {
        Ok(true) => Ok(()),
        Ok(false) => Err(StoreError::OldDNECurrent(OldDNECurrent)),
        Err(e) => Err(StoreError::Db(DbError::SledError(e))),
    }
}

} // verus!
