//! A model of one credential container and of the native primitives a
//! password layer drives it through.
//!
//! A container holds generic-password records, each an opaque byte secret
//! keyed by a `(service, account)` pair, with at most one record per key.
//! The methods mirror the native store's primitive surface — look an item
//! up by key, read an item's payload, replace an item's payload, add a
//! fresh item, delete an item — and each is specified against the
//! container's contents seen as a map from key to secret.

use vstd::prelude::*;
use vstd::slice::slice_to_vec;

verus! {

/// The composite lookup key of a credential: the service name and the
/// account name, as character sequences.
pub type LookupKey = (Seq<char>, Seq<char>);

/// One generic-password record: an opaque byte secret under a
/// `(service, account)` key.
pub struct PasswordEntry {
    pub service: String,
    pub account: String,
    pub secret: Vec<u8>,
}

impl PasswordEntry {
    /// The key this record is found under.
    pub open spec fn key(self) -> LookupKey {
        (self.service@, self.account@)
    }
}

/// No two records share a lookup key.
pub open spec fn keys_unique(es: Seq<PasswordEntry>) -> bool {
    forall|i: int, j: int| 0 <= i < j < es.len() ==> es[i].key() != es[j].key()
}

/// One credential container: an ordered list of records, at most one per
/// `(service, account)` key. Its view is the map from key to secret.
pub struct Keychain {
    entries: Vec<PasswordEntry>,
}

impl Keychain {
    /// The contents of a record list read as a map: each record binds its
    /// key to its secret.
    pub open spec fn map_of(es: Seq<PasswordEntry>) -> Map<LookupKey, Seq<u8>>
        decreases es.len(),
    {
        if es.len() == 0 {
            Map::empty()
        } else {
            Self::map_of(es.drop_last()).insert(es.last().key(), es.last().secret@)
        }
    }

    /// The container's records, in storage order. Item handles returned by
    /// `find_item` are positions in this sequence.
    pub closed spec fn entries_seq(self) -> Seq<PasswordEntry> {
        self.entries@
    }

    /// Well-formedness: no two records share a key, so the map view loses
    /// nothing.
    pub closed spec fn wf(self) -> bool {
        keys_unique(self.entries@)
    }

    /// A fresh, empty container.
    pub fn new() -> (kc: Keychain)
        ensures
            kc.wf(),
            kc@ == Map::<LookupKey, Seq<u8>>::empty(),
            kc.entries_seq().len() == 0,
    {
        Keychain { entries: Vec::new() }
    }

    /// Model of the native lookup primitive, asked for the item handle
    /// only: returns a handle to the record under `(service, account)`,
    /// or nothing when no such record exists.
    pub fn find_item(&self, service: &String, account: &String) -> (r: Option<usize>)
        requires
            self.wf(),
        ensures
            match r {
                Some(item) => {
                    &&& item < self.entries_seq().len()
                    &&& self.entries_seq()[item as int].key() == (service@, account@)
                    &&& self@.contains_key((service@, account@))
                    &&& self@[(service@, account@)] == self.entries_seq()[item as int].secret@
                },
                None => !self@.contains_key((service@, account@)),
            },
    {
        let n = self.entries.len();
        let mut i: usize = 0;
        while i < n
            invariant
                n == self.entries@.len(),
                i <= n,
                self.wf(),
                forall|j: int| 0 <= j < i ==> self.entries@[j].key() != (service@, account@),
            decreases n - i,
        {
            let e = &self.entries[i];
            if e.service == *service && e.account == *account {
                proof {
                    Self::lemma_map_of_unique_at(self.entries@, i as int);
                }
                return Some(i);
            }
            i += 1;
        }
        proof {
            Self::lemma_map_of_contains(self.entries@, (service@, account@));
        }
        None
    }

    /// Model of reading a found item's payload: hands back a caller-owned
    /// copy of the secret, as the native flow copies the returned buffer
    /// before releasing it.
    pub fn item_secret(&self, item: usize) -> (r: Vec<u8>)
        requires
            item < self.entries_seq().len(),
        ensures
            r@ == self.entries_seq()[item as int].secret@,
    {
        slice_to_vec(self.entries[item].secret.as_slice())
    }

    /// Model of the native modify primitive: replaces the payload of the
    /// record behind `item`, leaving its key and every other record as
    /// they were.
    pub fn modify_item(&mut self, item: usize, secret: &[u8])
        requires
            old(self).wf(),
            item < old(self).entries_seq().len(),
        ensures
            final(self).wf(),
            final(self)@ == old(self)@.insert(
                old(self).entries_seq()[item as int].key(),
                secret@,
            ),
    {
        let ghost es0 = self.entries@;
        let mut e = self.entries.remove(item);
        e.secret = slice_to_vec(secret);
        self.entries.insert(item, e);
        proof {
            assert(self.entries@ =~= es0.update(item as int, self.entries@[item as int]));
            assert forall|p: int, q: int|
                0 <= p < q < self.entries@.len() implies self.entries@[p].key()
                != self.entries@[q].key() by {
                assert(es0[p].key() != es0[q].key());
            }
            Self::lemma_map_of_update(es0, item as int, self.entries@[item as int]);
        }
    }

    /// Model of the native add primitive on a key the container does not
    /// hold yet: appends a fresh record binding `(service, account)` to
    /// `secret`.
    pub fn add_entry(&mut self, service: String, account: String, secret: &[u8])
        requires
            old(self).wf(),
            !old(self)@.contains_key((service@, account@)),
        ensures
            final(self).wf(),
            final(self)@ == old(self)@.insert((service@, account@), secret@),
    {
        let ghost es0 = self.entries@;
        proof {
            Self::lemma_map_of_contains(es0, (service@, account@));
        }
        let e = PasswordEntry { service, account, secret: slice_to_vec(secret) };
        self.entries.push(e);
        proof {
            assert(self.entries@.drop_last() =~= es0);
            assert forall|p: int, q: int|
                0 <= p < q < self.entries@.len() implies self.entries@[p].key()
                != self.entries@[q].key() by {
                if q < es0.len() {
                    assert(es0[p].key() != es0[q].key());
                } else {
                    assert(!(exists|k: int| 0 <= k < es0.len() && es0[k].key() == (service@, account@)));
                }
            }
        }
    }

    /// Model of the native delete primitive: removes the record behind
    /// `item`; the handle is dead afterwards.
    pub fn remove_item(&mut self, item: usize)
        requires
            old(self).wf(),
            item < old(self).entries_seq().len(),
        ensures
            final(self).wf(),
            final(self)@ == old(self)@.remove(old(self).entries_seq()[item as int].key()),
    {
        let ghost es0 = self.entries@;
        let _ = self.entries.remove(item);
        proof {
            assert forall|p: int, q: int|
                0 <= p < q < self.entries@.len() implies self.entries@[p].key()
                != self.entries@[q].key() by {
                let p0: int = if p < item { p } else { p + 1 };
                let q0: int = if q < item { q } else { q + 1 };
                assert(self.entries@[p] == es0[p0]);
                assert(self.entries@[q] == es0[q0]);
                assert(es0[p0].key() != es0[q0].key());
            }
            Self::lemma_map_of_remove(es0, item as int);
        }
    }

    /// A record list's map contains a key exactly when some record has
    /// that key.
    proof fn lemma_map_of_contains(es: Seq<PasswordEntry>, key: LookupKey)
        ensures
            Self::map_of(es).contains_key(key) <==> exists|i: int|
                0 <= i < es.len() && es[i].key() == key,
        decreases es.len(),
    {
        if es.len() > 0 {
            Self::lemma_map_of_contains(es.drop_last(), key);
            if Self::map_of(es).contains_key(key) {
                if es.last().key() == key {
                    assert(es[es.len() - 1].key() == key);
                } else {
                    let i = choose|i: int|
                        0 <= i < es.drop_last().len() && es.drop_last()[i].key() == key;
                    assert(es[i].key() == key);
                }
            }
            if exists|i: int| 0 <= i < es.len() && es[i].key() == key {
                let i = choose|i: int| 0 <= i < es.len() && es[i].key() == key;
                if i < es.len() - 1 {
                    assert(es.drop_last()[i].key() == key);
                }
            }
        }
    }

    /// Under unique keys, the map binds each record's key to that
    /// record's secret.
    proof fn lemma_map_of_unique_at(es: Seq<PasswordEntry>, i: int)
        requires
            0 <= i < es.len(),
            keys_unique(es),
        ensures
            Self::map_of(es).contains_key(es[i].key()),
            Self::map_of(es)[es[i].key()] == es[i].secret@,
        decreases es.len(),
    {
        if i < es.len() - 1 {
            assert(keys_unique(es.drop_last())) by {
                assert forall|p: int, q: int|
                    0 <= p < q < es.drop_last().len() implies es.drop_last()[p].key()
                    != es.drop_last()[q].key() by {
                    assert(es[p].key() != es[q].key());
                }
            }
            Self::lemma_map_of_unique_at(es.drop_last(), i);
            assert(es[i].key() != es.last().key());
        }
    }

    /// Replacing the secret of the record at `i` (keeping its key) turns
    /// the map into an insert at that key.
    proof fn lemma_map_of_update(es: Seq<PasswordEntry>, i: int, e: PasswordEntry)
        requires
            0 <= i < es.len(),
            keys_unique(es),
            e.key() == es[i].key(),
        ensures
            Self::map_of(es.update(i, e)) == Self::map_of(es).insert(e.key(), e.secret@),
        decreases es.len(),
    {
        let es1 = es.update(i, e);
        if i == es.len() - 1 {
            assert(es1.drop_last() =~= es.drop_last());
            assert(es1.last() == e);
            assert(Self::map_of(es1) =~= Self::map_of(es).insert(e.key(), e.secret@));
        } else {
            assert(keys_unique(es.drop_last())) by {
                assert forall|p: int, q: int|
                    0 <= p < q < es.drop_last().len() implies es.drop_last()[p].key()
                    != es.drop_last()[q].key() by {
                    assert(es[p].key() != es[q].key());
                }
            }
            Self::lemma_map_of_update(es.drop_last(), i, e);
            assert(es1.drop_last() =~= es.drop_last().update(i, e));
            assert(es1.last() == es.last());
            assert(es[i].key() != es.last().key());
            assert(Self::map_of(es1) =~= Self::map_of(es).insert(e.key(), e.secret@));
        }
    }

    /// Under unique keys, deleting the record at `i` turns the map into a
    /// remove at that record's key.
    proof fn lemma_map_of_remove(es: Seq<PasswordEntry>, i: int)
        requires
            0 <= i < es.len(),
            keys_unique(es),
        ensures
            Self::map_of(es.remove(i)) == Self::map_of(es).remove(es[i].key()),
        decreases es.len(),
    {
        let key = es[i].key();
        if i == es.len() - 1 {
            assert(es.remove(i) =~= es.drop_last());
            Self::lemma_map_of_contains(es.drop_last(), key);
            assert forall|p: int|
                0 <= p < es.drop_last().len() implies es.drop_last()[p].key() != key by {
                assert(es[p].key() != es[i].key());
            }
            assert(!Self::map_of(es.drop_last()).contains_key(key));
            assert(Self::map_of(es.remove(i)) =~= Self::map_of(es).remove(key));
        } else {
            assert(keys_unique(es.drop_last())) by {
                assert forall|p: int, q: int|
                    0 <= p < q < es.drop_last().len() implies es.drop_last()[p].key()
                    != es.drop_last()[q].key() by {
                    assert(es[p].key() != es[q].key());
                }
            }
            Self::lemma_map_of_remove(es.drop_last(), i);
            assert(es.remove(i).drop_last() =~= es.drop_last().remove(i));
            assert(es.remove(i).last() == es.last());
            assert(es[i].key() != es.last().key());
            assert(Self::map_of(es.remove(i)) =~= Self::map_of(es).remove(key));
        }
    }
}

impl View for Keychain {
    type V = Map<LookupKey, Seq<u8>>;

    closed spec fn view(&self) -> Map<LookupKey, Seq<u8>> {
        Self::map_of(self.entries@)
    }
}

} // verus!
