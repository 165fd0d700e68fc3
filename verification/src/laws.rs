//! Laws of the credential store, stated over the same views and spec
//! functions that the store's contracts use: a store's view is the
//! sequence of its containers' key-to-secret maps, a `set` turns the
//! target container's map `m` into `m.insert(key, secret)`, a `delete`
//! turns it into `m.remove(key)`, and a search over a scope answers
//! `scope_lookup`.

use vstd::prelude::*;
use crate::keychain::LookupKey;
use crate::store::scope_hit;
use crate::store::scope_lookup;
use crate::store::lemma_scope_hit_props;

verus! {

/// A search over the single-container scope `[h]` answers from that
/// container's map alone.
proof fn lemma_singleton_scope(maps: Seq<Map<LookupKey, Seq<u8>>>, h: usize, key: LookupKey)
    ensures
        scope_lookup(maps, seq![h], key) == (if maps[h as int].contains_key(key) {
            Some(maps[h as int][key])
        } else {
            None::<Seq<u8>>
        }),
{
    let scope = seq![h];
    let rest = scope.drop_first();
    assert(rest.len() == 0);
    assert(scope_hit(maps, rest, key) == None::<int>);
    assert(scope[0] == h);
}

/// Round trip: after a secret is stored under a key, a search of the
/// same container returns exactly that secret, byte for byte, a
/// zero-length secret included.
pub proof fn lemma_round_trip(
    maps: Seq<Map<LookupKey, Seq<u8>>>,
    k: usize,
    key: LookupKey,
    secret: Seq<u8>,
)
    requires
        k < maps.len(),
    ensures
        scope_lookup(maps.update(k as int, maps[k as int].insert(key, secret)), seq![k], key)
            == Some(secret),
{
    let maps1 = maps.update(k as int, maps[k as int].insert(key, secret));
    lemma_singleton_scope(maps1, k, key);
}

/// Updating overwrites: after a second store under the same key, a
/// search returns the second secret; and the second store replaces the
/// existing item instead of adding one — the container's key set does
/// not change.
pub proof fn lemma_update_overwrites(
    maps: Seq<Map<LookupKey, Seq<u8>>>,
    k: usize,
    key: LookupKey,
    v1: Seq<u8>,
    v2: Seq<u8>,
)
    requires
        k < maps.len(),
    ensures
        ({
            let maps1 = maps.update(k as int, maps[k as int].insert(key, v1));
            let maps2 = maps1.update(k as int, maps1[k as int].insert(key, v2));
            &&& scope_lookup(maps2, seq![k], key) == Some(v2)
            &&& maps2[k as int].dom() == maps1[k as int].dom()
        }),
{
    let maps1 = maps.update(k as int, maps[k as int].insert(key, v1));
    let maps2 = maps1.update(k as int, maps1[k as int].insert(key, v2));
    lemma_singleton_scope(maps2, k, key);
    assert(maps2[k as int].dom() =~= maps1[k as int].dom());
}

/// Delete then find: once a key is removed from a container, a search of
/// that container no longer finds it.
pub proof fn lemma_delete_then_find(maps: Seq<Map<LookupKey, Seq<u8>>>, k: usize, key: LookupKey)
    requires
        k < maps.len(),
    ensures
        scope_lookup(maps.update(k as int, maps[k as int].remove(key)), seq![k], key)
            == None::<Seq<u8>>,
{
    let maps1 = maps.update(k as int, maps[k as int].remove(key));
    lemma_singleton_scope(maps1, k, key);
}

/// Missing lookup: a key that no container in scope holds is not found —
/// in particular a search of an empty or isolated container misses.
pub proof fn lemma_missing_lookup(
    maps: Seq<Map<LookupKey, Seq<u8>>>,
    scope: Seq<usize>,
    key: LookupKey,
)
    requires
        forall|l: int| 0 <= l < scope.len() ==> !maps[scope[l] as int].contains_key(key),
    ensures
        scope_lookup(maps, scope, key) == None::<Seq<u8>>,
{
    lemma_scope_hit_props(maps, scope, key);
    match scope_hit(maps, scope, key) {
        Some(j) => {
            assert(maps[scope[j] as int].contains_key(key));
            assert(false);
        },
        None => {},
    }
}

/// Scope isolation: a credential stored in container `a` changes nothing
/// about what a search scoped to a different container `b` answers.
pub proof fn lemma_scope_isolation(
    maps: Seq<Map<LookupKey, Seq<u8>>>,
    a: usize,
    b: usize,
    key: LookupKey,
    secret: Seq<u8>,
)
    requires
        a < maps.len(),
        b < maps.len(),
        a != b,
    ensures
        scope_lookup(maps.update(a as int, maps[a as int].insert(key, secret)), seq![b], key)
            == scope_lookup(maps, seq![b], key),
{
    let maps1 = maps.update(a as int, maps[a as int].insert(key, secret));
    assert(maps1[b as int] == maps[b as int]);
    lemma_singleton_scope(maps1, b, key);
    lemma_singleton_scope(maps, b, key);
}

/// Zero-length secret: storing an empty secret succeeds and a search
/// returns the empty byte sequence — an answer, not a miss.
pub proof fn lemma_zero_length_secret(maps: Seq<Map<LookupKey, Seq<u8>>>, k: usize, key: LookupKey)
    requires
        k < maps.len(),
    ensures
        ({
            let maps1 = maps.update(k as int, maps[k as int].insert(key, Seq::<u8>::empty()));
            &&& scope_lookup(maps1, seq![k], key) == Some(Seq::<u8>::empty())
            &&& scope_lookup(maps1, seq![k], key) != None::<Seq<u8>>
        }),
{
    lemma_round_trip(maps, k, key, Seq::<u8>::empty());
}

} // verus!
