//! The credential-store façade: find, set (an upsert) and delete over a
//! collection of containers.
//!
//! The store owns its containers; callers refer to them by handle. One
//! container always exists — the default — and is the one searched or
//! written when a caller passes no explicit scope. A lookup scope is an
//! ordered list of handles, and a search takes the first container in
//! scope order that holds the key, mirroring the native store's
//! first-match policy.

use vstd::prelude::*;
use crate::error::CredentialError;
use crate::error::ERR_SEC_SUCCESS;
use crate::error::ERR_SEC_ITEM_NOT_FOUND;
use crate::keychain::Keychain;
use crate::keychain::LookupKey;

verus! {

/// Handle of the container used when a caller asks for the default.
pub const DEFAULT_KEYCHAIN: usize = 0;

/// The character sequence holds an embedded NUL, so it cannot cross the
/// native boundary as a C string.
pub open spec fn has_nul(s: Seq<char>) -> bool {
    exists|i: int| 0 <= i < s.len() && s[i] == '\0'
}

/// The containers a lookup searches, in order: the explicit list, or the
/// default container alone when the caller passes none.
pub open spec fn scope_of(keychains: Option<&Vec<usize>>) -> Seq<usize> {
    match keychains {
        None => seq![DEFAULT_KEYCHAIN],
        Some(v) => v@,
    }
}

/// The container a `set` writes: the explicit one, or the default.
pub open spec fn target_of(keychain_opt: Option<usize>) -> usize {
    match keychain_opt {
        None => DEFAULT_KEYCHAIN,
        Some(h) => h,
    }
}

/// Every handle in the scope names a container of a store with `n`
/// containers.
pub open spec fn scope_valid(scope: Seq<usize>, n: nat) -> bool {
    forall|j: int| 0 <= j < scope.len() ==> scope[j] < n
}

/// Position in `scope` of the first container that holds `key`, if any
/// does.
pub open spec fn scope_hit(
    maps: Seq<Map<LookupKey, Seq<u8>>>,
    scope: Seq<usize>,
    key: LookupKey,
) -> Option<int>
    decreases scope.len(),
{
    if scope.len() == 0 {
        None
    } else if maps[scope[0] as int].contains_key(key) {
        Some(0)
    } else {
        match scope_hit(maps, scope.drop_first(), key) {
            None => None,
            Some(j) => Some(j + 1),
        }
    }
}

/// What a lookup over `scope` returns: the secret in the first container
/// that holds `key`.
pub open spec fn scope_lookup(
    maps: Seq<Map<LookupKey, Seq<u8>>>,
    scope: Seq<usize>,
    key: LookupKey,
) -> Option<Seq<u8>> {
    match scope_hit(maps, scope, key) {
        None => None,
        Some(j) => Some(maps[scope[j] as int][key]),
    }
}

/// What `scope_hit` answers means: a hit is in bounds, its container
/// holds the key, and no earlier container in scope does; a miss means no
/// container in scope holds the key.
pub proof fn lemma_scope_hit_props(
    maps: Seq<Map<LookupKey, Seq<u8>>>,
    scope: Seq<usize>,
    key: LookupKey,
)
    ensures
        match scope_hit(maps, scope, key) {
            Some(j) => {
                &&& 0 <= j < scope.len()
                &&& maps[scope[j] as int].contains_key(key)
                &&& forall|l: int| 0 <= l < j ==> !maps[scope[l] as int].contains_key(key)
            },
            None => forall|l: int|
                0 <= l < scope.len() ==> !maps[scope[l] as int].contains_key(key),
        },
    decreases scope.len(),
{
    if scope.len() > 0 {
        let rest = scope.drop_first();
        lemma_scope_hit_props(maps, rest, key);
        if !maps[scope[0] as int].contains_key(key) {
            match scope_hit(maps, rest, key) {
                Some(j) => {
                    assert forall|l: int| 0 <= l < j + 1 implies !maps[scope[l] as int].contains_key(
                        key,
                    ) by {
                        if l > 0 {
                            assert(rest[l - 1] == scope[l]);
                        }
                    }
                },
                None => {
                    assert forall|l: int| 0 <= l < scope.len() implies !maps[scope[l] as int].contains_key(
                        key,
                    ) by {
                        if l > 0 {
                            assert(rest[l - 1] == scope[l]);
                        }
                    }
                },
            }
        }
    }
}

/// The first position in scope whose container holds the key is the hit.
pub proof fn lemma_scope_hit_at(
    maps: Seq<Map<LookupKey, Seq<u8>>>,
    scope: Seq<usize>,
    key: LookupKey,
    j: int,
)
    requires
        0 <= j < scope.len(),
        maps[scope[j] as int].contains_key(key),
        forall|l: int| 0 <= l < j ==> !maps[scope[l] as int].contains_key(key),
    ensures
        scope_hit(maps, scope, key) == Some(j),
    decreases scope.len(),
{
    if j > 0 {
        assert forall|l: int| 0 <= l < j - 1 implies !maps[scope.drop_first()[l] as int].contains_key(
            key,
        ) by {
            assert(scope.drop_first()[l] == scope[l + 1]);
        }
        assert(scope.drop_first()[j - 1] == scope[j]);
        lemma_scope_hit_at(maps, scope.drop_first(), key, j - 1);
    }
}

/// Which branch a two-phase upsert takes, from the status the lookup
/// phase reported: success means an item exists and its payload is
/// replaced in place; every other status is treated as absent, and a
/// fresh item is added. Collapsing all non-success codes into the add
/// branch is the native layer's own practice, kept as it stands.
#[derive(Clone, Copy, Debug, PartialEq, Eq, Structural)]
pub enum UpsertAction {
    /// Replace the payload of the already-present item.
    ModifyExisting,
    /// Add a fresh item with the given key and payload.
    AddNew,
}

/// Decides the upsert branch from the lookup phase's status code.
pub fn upsert_action(status: i32) -> (a: UpsertAction)
    ensures
        a == (if status == ERR_SEC_SUCCESS {
            UpsertAction::ModifyExisting
        } else {
            UpsertAction::AddNew
        }),
{
    if status == ERR_SEC_SUCCESS {
        UpsertAction::ModifyExisting
    } else {
        UpsertAction::AddNew
    }
}

/// True when the string holds an embedded NUL character.
fn contains_nul(s: &str) -> (r: bool)
    ensures
        r == has_nul(s@),
{
    let n = s.unicode_len();
    let mut i: usize = 0;
    while i < n
        invariant
            n == s@.len(),
            i <= n,
            forall|j: int| 0 <= j < i ==> s@[j] != '\0',
        decreases n - i,
    {
        if s.get_char(i) == '\0' {
            proof {
                assert(s@[i as int] == '\0');
            }
            return true;
        }
        i += 1;
    }
    false
}

/// The single-handle scope used when a caller passes no explicit one.
fn default_scope_vec() -> (v: Vec<usize>)
    ensures
        v@ == seq![DEFAULT_KEYCHAIN],
{
    let mut v = Vec::new();
    v.push(DEFAULT_KEYCHAIN);
    proof {
        assert(v@ =~= seq![DEFAULT_KEYCHAIN]);
    }
    v
}

/// A collection of credential containers addressed by handle. Container
/// `DEFAULT_KEYCHAIN` always exists and plays the role of the system
/// default. The view is the sequence of the containers' maps.
pub struct CredentialStore {
    keychains: Vec<Keychain>,
}

impl View for CredentialStore {
    type V = Seq<Map<LookupKey, Seq<u8>>>;

    closed spec fn view(&self) -> Seq<Map<LookupKey, Seq<u8>>> {
        Seq::new(self.keychains@.len(), |i: int| self.keychains@[i]@)
    }
}

impl CredentialStore {
    /// Well-formedness: the default container exists and every container
    /// is well formed.
    pub closed spec fn wf(self) -> bool {
        &&& self.keychains@.len() >= 1
        &&& forall|i: int| 0 <= i < self.keychains@.len() ==> self.keychains@[i].wf()
    }

    /// A store holding only the default container, empty.
    pub fn new() -> (s: CredentialStore)
        ensures
            s.wf(),
            s@.len() == 1,
            s@[DEFAULT_KEYCHAIN as int] == Map::<LookupKey, Seq<u8>>::empty(),
    {
        let mut keychains = Vec::new();
        keychains.push(Keychain::new());
        CredentialStore { keychains }
    }

    /// Opens a fresh, empty container and hands back its handle.
    pub fn create_keychain(&mut self) -> (h: usize)
        requires
            old(self).wf(),
        ensures
            final(self).wf(),
            h == old(self)@.len(),
            final(self)@ == old(self)@.push(Map::<LookupKey, Seq<u8>>::empty()),
    {
        let h = self.keychains.len();
        self.keychains.push(Keychain::new());
        proof {
            assert(self@ =~= old(self)@.push(Map::<LookupKey, Seq<u8>>::empty()));
        }
        h
    }

    /// Finds a generic password: searches the containers of the scope in
    /// order for the one record under `(service, account)` and returns a
    /// caller-owned copy of its secret. A zero-length secret is a valid
    /// result, distinct from `NotFound`. A name with an embedded NUL is
    /// rejected before the store is consulted; a key no container in
    /// scope holds is `NotFound`.
    pub fn find_generic_password(
        &self,
        keychains: Option<&Vec<usize>>,
        service: &str,
        account: &str,
    ) -> (r: Result<Vec<u8>, CredentialError>)
        requires
            self.wf(),
            scope_valid(scope_of(keychains), self@.len()),
        ensures
            has_nul(service@) || has_nul(account@) ==> r == Err::<Vec<u8>, CredentialError>(
                CredentialError::InvalidInput,
            ),
            !has_nul(service@) && !has_nul(account@) ==> match scope_lookup(
                self@,
                scope_of(keychains),
                (service@, account@),
            ) {
                Some(v) => r matches Ok(p) && p@ == v,
                None => r == Err::<Vec<u8>, CredentialError>(CredentialError::NotFound),
            },
    {
        if contains_nul(service) || contains_nul(account) {
            return Err(CredentialError::InvalidInput);
        }
        let service_name: String = service.to_owned();
        let account_name: String = account.to_owned();
        let default_scope = default_scope_vec();
        let scope: &Vec<usize> = match keychains {
            None => &default_scope,
            Some(v) => v,
        };
        assert(scope@ == scope_of(keychains));
        let ghost key: LookupKey = (service@, account@);
        let n = scope.len();
        let mut i: usize = 0;
        while i < n
            invariant
                n == scope@.len(),
                i <= n,
                self.wf(),
                scope@ == scope_of(keychains),
                scope_valid(scope@, self@.len()),
                key == (service@, account@),
                service_name@ == service@,
                account_name@ == account@,
                !has_nul(service@),
                !has_nul(account@),
                forall|l: int| 0 <= l < i ==> !self@[scope@[l] as int].contains_key(key),
            decreases n - i,
        {
            let h = scope[i];
            let kc = &self.keychains[h];
            match kc.find_item(&service_name, &account_name) {
                Some(item) => {
                    let secret = kc.item_secret(item);
                    proof {
                        lemma_scope_hit_at(self@, scope@, key, i as int);
                    }
                    return Ok(secret);
                },
                None => {},
            }
            i += 1;
        }
        proof {
            lemma_scope_hit_props(self@, scope@, key);
        }
        Err(CredentialError::NotFound)
    }

    /// Sets a generic password: an upsert into the target container. The
    /// lookup phase probes for an existing item; on success the item's
    /// payload is replaced in place, on any other status a fresh item is
    /// added. Afterwards the container binds `(service, account)` to
    /// exactly `password`, other containers untouched. A name with an
    /// embedded NUL is rejected before the store is touched.
    pub fn set_generic_password(
        &mut self,
        keychain_opt: Option<usize>,
        service: &str,
        account: &str,
        password: &[u8],
    ) -> (r: Result<(), CredentialError>)
        requires
            old(self).wf(),
            target_of(keychain_opt) < old(self)@.len(),
        ensures
            final(self).wf(),
            has_nul(service@) || has_nul(account@) ==> r == Err::<(), CredentialError>(
                CredentialError::InvalidInput,
            ) && final(self)@ == old(self)@,
            !has_nul(service@) && !has_nul(account@) ==> r == Ok::<(), CredentialError>(())
                && final(self)@ == old(self)@.update(
                target_of(keychain_opt) as int,
                old(self)@[target_of(keychain_opt) as int].insert((service@, account@), password@),
            ),
    {
        if contains_nul(service) || contains_nul(account) {
            return Err(CredentialError::InvalidInput);
        }
        let k = match keychain_opt {
            None => DEFAULT_KEYCHAIN,
            Some(h) => h,
        };
        let service_name: String = service.to_owned();
        let account_name: String = account.to_owned();
        // Phase 1: probe for an existing item, asking for its handle only.
        let found = self.keychains[k].find_item(&service_name, &account_name);
        let status: i32 = if found.is_some() {
            ERR_SEC_SUCCESS
        } else {
            ERR_SEC_ITEM_NOT_FOUND
        };
        // Phase 2: replace in place, or add a fresh item.
        let kc = &mut self.keychains[k];
        match upsert_action(status) {
            UpsertAction::ModifyExisting => {
                let item = found.unwrap();
                kc.modify_item(item, password);
            },
            UpsertAction::AddNew => {
                kc.add_entry(service_name, account_name, password);
            },
        }
        proof {
            assert(self@ =~= old(self)@.update(
                k as int,
                old(self)@[k as int].insert((service@, account@), password@),
            ));
        }
        Ok(())
    }

    /// Deletes a generic password: searches the scope in order, removes
    /// the record from the first container that holds the key, and
    /// releases the item's handle. A name with an embedded NUL is
    /// rejected before the store is consulted; a key no container in
    /// scope holds is `NotFound`, and the store is then unchanged.
    pub fn delete_generic_password(
        &mut self,
        keychains: Option<&Vec<usize>>,
        service: &str,
        account: &str,
    ) -> (r: Result<(), CredentialError>)
        requires
            old(self).wf(),
            scope_valid(scope_of(keychains), old(self)@.len()),
        ensures
            final(self).wf(),
            has_nul(service@) || has_nul(account@) ==> r == Err::<(), CredentialError>(
                CredentialError::InvalidInput,
            ) && final(self)@ == old(self)@,
            !has_nul(service@) && !has_nul(account@) ==> match scope_hit(
                old(self)@,
                scope_of(keychains),
                (service@, account@),
            ) {
                None => r == Err::<(), CredentialError>(CredentialError::NotFound) && final(self)@
                    == old(self)@,
                Some(j) => r == Ok::<(), CredentialError>(()) && final(self)@ == old(self)@.update(
                    scope_of(keychains)[j] as int,
                    old(self)@[scope_of(keychains)[j] as int].remove((service@, account@)),
                ),
            },
    {
        if contains_nul(service) || contains_nul(account) {
            return Err(CredentialError::InvalidInput);
        }
        let service_name: String = service.to_owned();
        let account_name: String = account.to_owned();
        let default_scope = default_scope_vec();
        let scope: &Vec<usize> = match keychains {
            None => &default_scope,
            Some(v) => v,
        };
        assert(scope@ == scope_of(keychains));
        let ghost key: LookupKey = (service@, account@);
        let n = scope.len();
        let mut i: usize = 0;
        while i < n
            invariant
                n == scope@.len(),
                i <= n,
                *self == *old(self),
                self.wf(),
                scope@ == scope_of(keychains),
                scope_valid(scope@, self@.len()),
                key == (service@, account@),
                service_name@ == service@,
                account_name@ == account@,
                !has_nul(service@),
                !has_nul(account@),
                forall|l: int| 0 <= l < i ==> !self@[scope@[l] as int].contains_key(key),
            decreases n - i,
        {
            let h = scope[i];
            let found = self.keychains[h].find_item(&service_name, &account_name);
            match found {
                Some(item) => {
                    proof {
                        lemma_scope_hit_at(self@, scope@, key, i as int);
                    }
                    let kc = &mut self.keychains[h];
                    // Delete by handle first, then the handle is released.
                    kc.remove_item(item);
                    proof {
                        assert(self@ =~= old(self)@.update(
                            h as int,
                            old(self)@[h as int].remove(key),
                        ));
                    }
                    return Ok(());
                },
                None => {},
            }
            i += 1;
        }
        proof {
            lemma_scope_hit_props(self@, scope@, key);
        }
        Err(CredentialError::NotFound)
    }
}

} // verus!
