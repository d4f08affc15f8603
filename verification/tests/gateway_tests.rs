use contracts::gateway::DEFAULT_ALLOWANCE;
use contracts::gateway::is_subaccount_of;
use contracts::AccessKeyPermission;
use contracts::AccessRegistry;
use contracts::Contract;
use contracts::Error;

fn account(name: &str) -> Vec<u8> {
    name.as_bytes().to_vec()
}

fn permission(allowance: Option<u128>, receiver: &str, methods: &str) -> AccessKeyPermission {
    AccessKeyPermission {
        allowance,
        receiver_id: account(receiver),
        method_names: methods.as_bytes().to_vec(),
    }
}

fn initialized(owner: &str) -> Contract {
    Contract::initialize(false, account(owner)).unwrap()
}

#[test]
fn initialize_builds_owner_and_empty_registry() {
    let c = Contract::initialize(false, account("alice")).unwrap();
    assert_eq!(c.owner_id, account("alice"));
    assert_eq!(c.added_by_helper.len(), 0);
}

#[test]
fn initialize_is_exactly_once() {
    let existing = initialized("alice");
    let second = Contract::initialize(true, account("mallory"));
    assert!(matches!(second, Err(Error::AlreadyInitialized)));
    // The existing state stands untouched.
    assert_eq!(existing.owner_id, account("alice"));
    assert_eq!(existing.added_by_helper.len(), 0);
}

#[test]
fn grant_records_key_and_returns_effect() {
    let mut c = initialized("alice");
    let caller = account("alice");
    let current = account("helper.alice");
    let pk = vec![0u8, 1, 2, 3];
    let r = c.add_access_key(&caller, &current, pk.clone(), permission(None, "sub.alice", "claim"));
    let effect = r.unwrap();
    assert!(c.added_by_helper.contains(&pk));
    assert_eq!(c.added_by_helper.len(), 1);
    assert_eq!(effect.account_id, current);
    assert_eq!(effect.public_key, pk);
    assert_eq!(effect.allowance, DEFAULT_ALLOWANCE);
    assert_eq!(effect.receiver_id, account("sub.alice"));
    assert_eq!(effect.method_names, "claim".as_bytes().to_vec());
}

#[test]
fn grant_then_revoke_leaves_key_absent() {
    let mut c = initialized("alice");
    let caller = account("alice");
    let current = account("helper.alice");
    let pk = vec![7u8, 7, 7];
    c.add_access_key(&caller, &current, pk.clone(), permission(None, "sub.alice", "")).unwrap();
    assert!(c.added_by_helper.contains(&pk));
    let effect = c.delete_access_key(&caller, &current, pk.clone()).unwrap();
    assert!(!c.added_by_helper.contains(&pk));
    assert_eq!(c.added_by_helper.len(), 0);
    assert_eq!(effect.account_id, current);
    assert_eq!(effect.public_key, pk);
}

#[test]
fn revoke_unknown_key_fails_and_changes_nothing() {
    let mut c = initialized("alice");
    let caller = account("alice");
    let current = account("helper.alice");
    let known = vec![1u8];
    let unknown = vec![2u8];
    c.add_access_key(&caller, &current, known.clone(), permission(None, "sub.alice", "")).unwrap();
    let r = c.delete_access_key(&caller, &current, unknown.clone());
    assert!(matches!(r, Err(Error::UnknownKey)));
    assert!(c.added_by_helper.contains(&known));
    assert!(!c.added_by_helper.contains(&unknown));
    assert_eq!(c.added_by_helper.len(), 1);
}

#[test]
fn double_grant_keeps_key_exactly_once() {
    let mut c = initialized("alice");
    let caller = account("alice");
    let current = account("helper.alice");
    let pk = vec![9u8, 9];
    let first = c.add_access_key(&caller, &current, pk.clone(), permission(None, "sub.alice", ""));
    assert!(first.is_ok());
    let second = c.add_access_key(&caller, &current, pk.clone(), permission(None, "sub.alice", ""));
    assert!(second.is_ok());
    assert!(c.added_by_helper.contains(&pk));
    assert_eq!(c.added_by_helper.len(), 1);
    // One revoke removes the key entirely: nothing was duplicated.
    c.delete_access_key(&caller, &current, pk.clone()).unwrap();
    assert!(!c.added_by_helper.contains(&pk));
    assert_eq!(c.added_by_helper.len(), 0);
}

#[test]
fn grant_by_non_owner_fails_and_changes_nothing() {
    let mut c = initialized("alice");
    let caller = account("bob");
    let current = account("helper.alice");
    let pk = vec![4u8];
    let r = c.add_access_key(&caller, &current, pk.clone(), permission(None, "sub.alice", ""));
    assert!(matches!(r, Err(Error::NotOwner)));
    assert!(!c.added_by_helper.contains(&pk));
    assert_eq!(c.added_by_helper.len(), 0);
}

#[test]
fn revoke_by_non_owner_fails_and_changes_nothing() {
    let mut c = initialized("alice");
    let owner = account("alice");
    let current = account("helper.alice");
    let pk = vec![5u8];
    c.add_access_key(&owner, &current, pk.clone(), permission(None, "sub.alice", "")).unwrap();
    let r = c.delete_access_key(&account("bob"), &current, pk.clone());
    assert!(matches!(r, Err(Error::NotOwner)));
    assert!(c.added_by_helper.contains(&pk));
    assert_eq!(c.added_by_helper.len(), 1);
}

#[test]
fn scope_must_be_dotted_subaccount_of_owner() {
    let mut c = initialized("alice");
    let caller = account("alice");
    let current = account("helper.alice");
    let ok = c.add_access_key(&caller, &current, vec![1u8], permission(None, "sub.alice", ""));
    assert!(ok.is_ok());
    let near_miss = c.add_access_key(&caller, &current, vec![2u8], permission(None, "alice2", ""));
    assert!(matches!(near_miss, Err(Error::ScopeNotSubaccount)));
    let unrelated = c.add_access_key(&caller, &current, vec![3u8], permission(None, "bob", ""));
    assert!(matches!(unrelated, Err(Error::ScopeNotSubaccount)));
}

#[test]
fn failed_scope_check_leaves_registry_without_the_key() {
    let mut c = initialized("alice");
    let caller = account("alice");
    let current = account("helper.alice");
    let pk = vec![8u8, 8];
    let r = c.add_access_key(&caller, &current, pk.clone(), permission(None, "bob", ""));
    assert!(matches!(r, Err(Error::ScopeNotSubaccount)));
    assert!(!c.added_by_helper.contains(&pk));
    assert_eq!(c.added_by_helper.len(), 0);
}

#[test]
fn allowance_defaults_to_zero_and_passes_through() {
    let mut c = initialized("alice");
    let caller = account("alice");
    let current = account("helper.alice");
    let with_default =
        c.add_access_key(&caller, &current, vec![1u8], permission(None, "sub.alice", "")).unwrap();
    assert_eq!(with_default.allowance, 0);
    let with_ceiling = c
        .add_access_key(&caller, &current, vec![2u8], permission(Some(250), "sub.alice", ""))
        .unwrap();
    assert_eq!(with_ceiling.allowance, 250);
}

#[test]
fn subaccount_check_follows_the_dotted_suffix_rule() {
    assert!(is_subaccount_of(&account("sub.alice"), &account("alice")));
    assert!(is_subaccount_of(&account("a.b.alice"), &account("alice")));
    assert!(is_subaccount_of(&account("x.alice.near"), &account("alice")));
    assert!(!is_subaccount_of(&account("alice"), &account("alice")));
    assert!(!is_subaccount_of(&account("alice2"), &account("alice")));
    assert!(!is_subaccount_of(&account("bob"), &account("alice")));
    assert!(!is_subaccount_of(&account("subalice"), &account("alice")));
    assert!(!is_subaccount_of(&account(""), &account("alice")));
}

#[test]
fn check_owner_accepts_only_the_stored_owner() {
    let c = initialized("alice");
    assert!(c.check_owner(&account("alice")).is_ok());
    assert_eq!(c.check_owner(&account("bob")), Err(Error::NotOwner));
    assert_eq!(c.check_owner(&account("")), Err(Error::NotOwner));
}

#[test]
fn registry_insert_remove_and_len() {
    let mut r = AccessRegistry::new();
    let k1 = vec![1u8, 2];
    let k2 = vec![3u8];
    assert!(!r.contains(&k1));
    assert_eq!(r.len(), 0);
    r.insert(k1.clone());
    r.insert(k2.clone());
    assert!(r.contains(&k1));
    assert!(r.contains(&k2));
    assert_eq!(r.len(), 2);
    r.insert(k1.clone());
    assert_eq!(r.len(), 2);
    assert!(r.remove(&k1));
    assert!(!r.contains(&k1));
    assert!(!r.remove(&k1));
    assert!(r.contains(&k2));
    assert_eq!(r.len(), 1);
}
