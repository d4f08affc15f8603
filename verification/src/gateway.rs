//! The authorization gateway: the operation surface (`add_access_key`,
//! `delete_access_key`) that authenticates the caller against the stored
//! owner identity, validates grant constraints, mutates the access registry,
//! and describes the capability-grant/revoke effects that the host is to
//! apply to the contract's own account.
//!
//! The host environment is kept outside: the caller's identity and the
//! contract's own identity are passed in as plain byte strings, and each
//! operation returns the effect to emit instead of emitting it. Every failure
//! leaves the contract state exactly as it was, so a host that applies the
//! returned effect only on success gets all-or-nothing requests for free.

use vstd::prelude::*;

use crate::registry::AccessRegistry;
use crate::registry::bytes_eq;

verus! {

/// The spend ceiling a granted key carries when the request names none.
pub const DEFAULT_ALLOWANCE: u128 = 0;

/// The byte value of the ASCII dot that delimits subaccount names.
pub const DOT: u8 = 46;

/// Why a request was rejected. Every failure is terminal for its request:
/// no state mutation of the failed request survives.
#[derive(Clone, Copy, Debug, PartialEq, Eq, Structural)]
pub enum Error {
    /// Initialization was attempted when state already exists.
    AlreadyInitialized,
    /// The caller's identity is not the stored owner identity.
    NotOwner,
    /// The grant's target scope is not a dotted subaccount of the owner.
    ScopeNotSubaccount,
    /// The revoke targeted a key absent from the registry.
    UnknownKey,
}

/// A requested grant: an optional allowance ceiling (absent means the
/// default ceiling of zero), the account the key is authorized to act
/// against, and the method names the key may invoke, as one delimited byte
/// string (empty conventionally means "any method"). Not persisted; it lives
/// only for the duration of one grant operation.
pub struct AccessKeyPermission {
    pub allowance: Option<u128>,
    pub receiver_id: Vec<u8>,
    pub method_names: Vec<u8>,
}

/// A capability-grant effect for the host to apply: add `public_key` to the
/// account `account_id`, restricted to `receiver_id` and `method_names`,
/// with the resolved spend ceiling.
pub struct GrantEffect {
    pub account_id: Vec<u8>,
    pub public_key: Vec<u8>,
    pub allowance: u128,
    pub receiver_id: Vec<u8>,
    pub method_names: Vec<u8>,
}

/// A capability-revoke effect for the host to apply: delete `public_key`
/// from the account `account_id`.
pub struct RevokeEffect {
    pub account_id: Vec<u8>,
    pub public_key: Vec<u8>,
}

/// The allowance a grant resolves to: the requested ceiling if one was
/// named, the default ceiling of zero otherwise.
pub open spec fn resolved_allowance(p: AccessKeyPermission) -> u128 {
    match p.allowance {
        Some(a) => a,
        None => DEFAULT_ALLOWANCE,
    }
}

/// `needle` occurs in `hay` starting at position `i`.
pub open spec fn is_match_at(hay: Seq<u8>, needle: Seq<u8>, i: int) -> bool {
    0 <= i && i + needle.len() <= hay.len() && hay.subrange(i, i + needle.len()) == needle
}

/// `needle` occurs somewhere in `hay`.
pub open spec fn contains_bytes(hay: Seq<u8>, needle: Seq<u8>) -> bool {
    exists|i: int| is_match_at(hay, needle, i)
}

/// The owner identity prefixed with the subaccount delimiter.
pub open spec fn dotted(owner: Seq<u8>) -> Seq<u8> {
    seq![DOT] + owner
}

/// `scope` is namespaced under `owner`: the dot-prefixed owner identity
/// occurs in the scope identifier.
pub open spec fn scope_is_subaccount(scope: Seq<u8>, owner: Seq<u8>) -> bool {
    contains_bytes(scope, dotted(owner))
}

/// Whether `needle` occurs in `hay` starting at position `i`.
fn match_at(hay: &Vec<u8>, needle: &Vec<u8>, i: usize) -> (r: bool)
    requires
        i + needle@.len() <= hay@.len(),
    ensures
        r == is_match_at(hay@, needle@, i as int),
{
    let n = hay.len();
    let m = needle.len();
    let mut j: usize = 0;
    while j < m
        invariant
            n == hay@.len(),
            m == needle@.len(),
            i + m <= n,
            0 <= j <= m,
            forall|k: int| 0 <= k < j ==> hay@[i + k] == needle@[k],
        decreases m - j,
    {
        assert(i + j < n);
        if hay[i + j] != needle[j] {
            proof {
                assert(hay@.subrange(i as int, i + m as int)[j as int] == hay@[i + j]);
            }
            return false;
        }
        j += 1;
    }
    proof {
        assert(hay@.subrange(i as int, i + m as int) =~= needle@);
    }
    true
}

/// Whether `needle` occurs anywhere in `hay`.
fn contains_subslice(hay: &Vec<u8>, needle: &Vec<u8>) -> (r: bool)
    ensures
        r == contains_bytes(hay@, needle@),
{
    let n = hay.len();
    let m = needle.len();
    if m > n {
        proof {
            assert forall|i: int| !is_match_at(hay@, needle@, i) by {
                if 0 <= i && i + needle@.len() <= hay@.len() {
                    assert(needle@.len() <= hay@.len());
                }
            }
        }
        return false;
    }
    if m == 0 {
        proof {
            assert(hay@.subrange(0, 0) =~= needle@);
            assert(is_match_at(hay@, needle@, 0));
        }
        return true;
    }
    let mut i: usize = 0;
    while i <= n - m
        invariant
            n == hay@.len(),
            m == needle@.len(),
            0 < m <= n,
            0 <= i <= n - m + 1,
            forall|p: int| 0 <= p < i ==> !is_match_at(hay@, needle@, p),
        decreases n - m + 1 - i,
    {
        if match_at(hay, needle, i) {
            return true;
        }
        i += 1;
    }
    proof {
        assert forall|p: int| !is_match_at(hay@, needle@, p) by {
            if 0 <= p && p + needle@.len() <= hay@.len() {
                assert(p <= n - m < i);
            }
        }
    }
    false
}

/// Whether `scope` is a dotted subaccount of `owner`: the owner identity,
/// preceded by a dot, occurs in the scope identifier.
pub fn is_subaccount_of(scope: &Vec<u8>, owner: &Vec<u8>) -> (r: bool)
    ensures
        r == scope_is_subaccount(scope@, owner@),
{
    let mut needle: Vec<u8> = Vec::new();
    needle.push(DOT);
    needle.extend_from_slice(owner.as_slice());
    proof {
        assert(needle@ =~= dotted(owner@));
    }
    contains_subslice(scope, &needle)
}

/// The contract state: the owner identity, set once at initialization and
/// immutable thereafter, and the access registry of keys granted through
/// this gateway and not yet revoked.
pub struct Contract {
    pub owner_id: Vec<u8>,
    pub added_by_helper: AccessRegistry,
}

impl Contract {
    /// The registry holds no duplicate entries.
    pub open spec fn wf(self) -> bool {
        self.added_by_helper.wf()
    }

    /// The set of keys currently granted through this gateway.
    pub open spec fn registry(self) -> Set<Seq<u8>> {
        self.added_by_helper.key_set()
    }

    /// A fresh contract state: the given owner identity and an empty registry.
    pub fn new(owner_id: Vec<u8>) -> (c: Contract)
        ensures
            c.wf(),
            c.owner_id == owner_id,
            c.registry() == Set::<Seq<u8>>::empty(),
    {
        Contract { owner_id, added_by_helper: AccessRegistry::new() }
    }

    /// Build the contract state exactly once. `state_exists` is the host's
    /// answer to "does persisted state already exist": when it does, the
    /// call is rejected with `AlreadyInitialized` and no state is built, so
    /// the existing owner identity and registry stand untouched.
    pub fn initialize(state_exists: bool, owner_id: Vec<u8>) -> (r: Result<Contract, Error>)
        ensures
            state_exists <==> r is Err,
            r is Err ==> r == Result::<Contract, Error>::Err(Error::AlreadyInitialized),
            r matches Ok(c) ==> c.wf() && c.owner_id == owner_id && c.registry() == Set::<
                Seq<u8>,
            >::empty(),
    {
        if state_exists {
            Err(Error::AlreadyInitialized)
        } else {
            Ok(Contract::new(owner_id))
        }
    }

    /// The owner check: every mutating operation runs it first, and fails
    /// with `NotOwner` unless the caller's identity is exactly the stored
    /// owner identity.
    pub fn check_owner(&self, caller: &Vec<u8>) -> (r: Result<(), Error>)
        ensures
            r is Ok <==> caller@ == self.owner_id@,
            r is Err ==> r == Result::<(), Error>::Err(Error::NotOwner),
    {
        if bytes_eq(caller, &self.owner_id) {
            Ok(())
        } else {
            Err(Error::NotOwner)
        }
    }

    /// Grant restricted capability under `public_key`.
    ///
    /// Only the owner may call; the target scope must be a dotted subaccount
    /// of the owner. On success the key is recorded in the registry — a key
    /// already present stays present once, never twice — and the
    /// capability-grant effect to apply to the contract's own account
    /// (`current_account_id`) is returned. On failure nothing changes and no
    /// effect is produced, so a failed grant is not observable in the
    /// registry.
    pub fn add_access_key(
        &mut self,
        caller: &Vec<u8>,
        current_account_id: &Vec<u8>,
        public_key: Vec<u8>,
        permission: AccessKeyPermission,
    ) -> (r: Result<GrantEffect, Error>)
        requires
            old(self).wf(),
        ensures
            final(self).wf(),
            final(self).owner_id == old(self).owner_id,
            caller@ != old(self).owner_id@ ==> r == Result::<GrantEffect, Error>::Err(
                Error::NotOwner,
            ) && *final(self) == *old(self),
            caller@ == old(self).owner_id@ && !scope_is_subaccount(
                permission.receiver_id@,
                old(self).owner_id@,
            ) ==> r == Result::<GrantEffect, Error>::Err(Error::ScopeNotSubaccount) && *final(self)
                == *old(self),
            caller@ == old(self).owner_id@ && scope_is_subaccount(
                permission.receiver_id@,
                old(self).owner_id@,
            ) ==> {
                &&& final(self).registry() == old(self).registry().insert(public_key@)
                &&& r matches Ok(e) && e.account_id@ == current_account_id@ && e.public_key@
                    == public_key@ && e.allowance == resolved_allowance(permission)
                    && e.receiver_id == permission.receiver_id && e.method_names
                    == permission.method_names
            },
    {
        if let Err(e) = self.check_owner(caller) {
            return Err(e);
        }
        // Scope validation precedes the registry insert so that a rejected
        // grant leaves the registry untouched: requests are all-or-nothing.
        if !is_subaccount_of(&permission.receiver_id, &self.owner_id) {
            return Err(Error::ScopeNotSubaccount);
        }
        let recorded_key = public_key.clone();
        proof {
            assert(recorded_key@ =~= public_key@);
        }
        self.added_by_helper.insert(recorded_key);
        let account_id = current_account_id.clone();
        proof {
            assert(account_id@ =~= current_account_id@);
        }
        let allowance = match permission.allowance {
            Some(a) => a,
            None => DEFAULT_ALLOWANCE,
        };
        Ok(
            GrantEffect {
                account_id,
                public_key,
                allowance,
                receiver_id: permission.receiver_id,
                method_names: permission.method_names,
            },
        )
    }

    /// Revoke the capability granted under `public_key`.
    ///
    /// Only the owner may call; the key must be present in the registry,
    /// that is, it must have been granted through this gateway and not yet
    /// revoked. On success the key is removed — removal is exactly-once —
    /// and the capability-revoke effect to apply to the contract's own
    /// account is returned. On failure nothing changes and no effect is
    /// produced.
    pub fn delete_access_key(
        &mut self,
        caller: &Vec<u8>,
        current_account_id: &Vec<u8>,
        public_key: Vec<u8>,
    ) -> (r: Result<RevokeEffect, Error>)
        requires
            old(self).wf(),
        ensures
            final(self).wf(),
            final(self).owner_id == old(self).owner_id,
            caller@ != old(self).owner_id@ ==> r == Result::<RevokeEffect, Error>::Err(
                Error::NotOwner,
            ) && *final(self) == *old(self),
            caller@ == old(self).owner_id@ && !old(self).registry().contains(public_key@) ==> r
                == Result::<RevokeEffect, Error>::Err(Error::UnknownKey) && *final(self) == *old(
                self,
            ),
            caller@ == old(self).owner_id@ && old(self).registry().contains(public_key@) ==> {
                &&& final(self).registry() == old(self).registry().remove(public_key@)
                &&& r matches Ok(e) && e.account_id@ == current_account_id@ && e.public_key
                    == public_key
            },
    {
        if let Err(e) = self.check_owner(caller) {
            return Err(e);
        }
        let was_present = self.added_by_helper.remove(&public_key);
        if !was_present {
            return Err(Error::UnknownKey);
        }
        let account_id = current_account_id.clone();
        proof {
            assert(account_id@ =~= current_account_id@);
        }
        Ok(RevokeEffect { account_id, public_key })
    }
}

/// A granted key is present, and a grant followed by a revoke of the same
/// key leaves it absent: `add_access_key` makes `key` a member of the
/// registry's key set, and a subsequent `delete_access_key` removes exactly
/// that membership.
pub proof fn lemma_grant_then_revoke_absent(registry: Set<Seq<u8>>, key: Seq<u8>)
    ensures
        registry.insert(key).contains(key),
        !registry.insert(key).remove(key).contains(key),
{
}

/// Granting a key that is already granted does not duplicate it: a second
/// insert of the same key leaves the registry's key set unchanged, so after
/// two grants the key is present exactly once.
pub proof fn lemma_repeated_grant_once(registry: Set<Seq<u8>>, key: Seq<u8>)
    ensures
        registry.insert(key).insert(key) == registry.insert(key),
{
    assert(registry.insert(key).insert(key) =~= registry.insert(key));
}

} // verus!
