use trustline_onboarder::address::{Address, Bytes32};
use trustline_onboarder::authorizer::{Error, TrustlineAuthorizer};
use trustline_onboarder::env::{DataKey, Durability, Env, HostCall, Val};
use trustline_onboarder::events::{self, Event};
use trustline_onboarder::policy::Policy;
use trustline_onboarder::storage;

fn account(n: u128) -> Address {
    Address::account(Bytes32::new(0, n))
}

fn contract(n: u128) -> Address {
    Address::contract(Bytes32::new(n, 0))
}

/// An authorizer over an `AUTH_REQUIRED` asset contract, with the issuer as
/// admin. Returns (env, issuer/admin, asset contract).
fn setup(policy: Policy) -> (Env, Address, Address) {
    let issuer = account(1);
    let sac = contract(2);
    let mut env = Env::new();
    TrustlineAuthorizer::__constructor(&mut env, issuer, sac, policy);
    (env, issuer, sac)
}

/// Whether the holder's trustline is authorized on the asset contract: a new
/// trustline of an `AUTH_REQUIRED` asset starts unauthorized, and then holds
/// whatever the authorizer last set.
fn sac_authorized(env: &Env, sac: &Address, holder: &Address) -> bool {
    env.authorization_of(sac, holder).unwrap_or(false)
}

fn one(a: &Address) -> Vec<Address> {
    vec![*a]
}

#[test]
fn denylist_authorizes_unbanned_holder() {
    let (mut env, _issuer, sac) = setup(Policy::Denylist);
    let holder = account(10);

    assert!(!sac_authorized(&env, &sac, &holder));

    TrustlineAuthorizer::authorize_trustline(&mut env, holder).unwrap();
    assert!(sac_authorized(&env, &sac, &holder));
}

#[test]
fn denylist_blocks_banned_holder() {
    let (mut env, _issuer, sac) = setup(Policy::Denylist);
    let holder = account(10);

    TrustlineAuthorizer::ban(&mut env, one(&holder));
    assert!(TrustlineAuthorizer::is_banned(&env, holder));

    let res = TrustlineAuthorizer::authorize_trustline(&mut env, holder);
    assert!(res.is_err());
    assert!(!sac_authorized(&env, &sac, &holder));
}

#[test]
fn freeze_then_unfreeze_roundtrip() {
    let (mut env, _issuer, sac) = setup(Policy::Denylist);
    let holder = account(10);

    TrustlineAuthorizer::authorize_trustline(&mut env, holder).unwrap();
    assert!(sac_authorized(&env, &sac, &holder));

    // Freeze == ban + deauthorize.
    TrustlineAuthorizer::freeze(&mut env, one(&holder));
    assert!(TrustlineAuthorizer::is_banned(&env, holder));
    assert!(!sac_authorized(&env, &sac, &holder));

    // A retried self-service authorization stays blocked while banned.
    assert!(TrustlineAuthorizer::authorize_trustline(&mut env, holder).is_err());
    assert!(!sac_authorized(&env, &sac, &holder));

    // Unfreeze == unban + re-authorize.
    TrustlineAuthorizer::unfreeze(&mut env, one(&holder));
    assert!(!TrustlineAuthorizer::is_banned(&env, holder));
    assert!(sac_authorized(&env, &sac, &holder));
}

#[test]
fn allowlist_gates_on_explicit_allow() {
    let (mut env, _issuer, sac) = setup(Policy::Allowlist);
    let holder = account(10);

    // Not yet allowed -> rejected.
    assert!(TrustlineAuthorizer::authorize_trustline(&mut env, holder).is_err());
    assert!(!sac_authorized(&env, &sac, &holder));

    // After allow -> authorized.
    TrustlineAuthorizer::allow(&mut env, one(&holder));
    TrustlineAuthorizer::authorize_trustline(&mut env, holder).unwrap();
    assert!(sac_authorized(&env, &sac, &holder));
}

#[test]
fn pause_blocks_authorization() {
    let (mut env, _issuer, sac) = setup(Policy::Denylist);
    let holder = account(10);

    TrustlineAuthorizer::pause(&mut env);
    assert!(TrustlineAuthorizer::authorize_trustline(&mut env, holder).is_err());

    TrustlineAuthorizer::unpause(&mut env);
    TrustlineAuthorizer::authorize_trustline(&mut env, holder).unwrap();
    assert!(sac_authorized(&env, &sac, &holder));
}

// --- further cases -------------------------------------------------------------

#[test]
fn constructor_stores_configuration() {
    let (env, issuer, sac) = setup(Policy::Allowlist);
    assert_eq!(TrustlineAuthorizer::admin(&env), issuer);
    assert_eq!(TrustlineAuthorizer::sac_address(&env), sac);
    assert_eq!(TrustlineAuthorizer::policy(&env), Policy::Allowlist);
    assert!(!TrustlineAuthorizer::is_paused(&env));
    assert_eq!(
        env.calls,
        vec![
            HostCall::StorageSet { durability: Durability::Instance, key: DataKey::Admin, value: Val::Address(issuer) },
            HostCall::StorageSet { durability: Durability::Instance, key: DataKey::Sac, value: Val::Address(sac) },
            HostCall::StorageSet { durability: Durability::Instance, key: DataKey::Policy, value: Val::Policy(Policy::Allowlist) },
            HostCall::StorageSet { durability: Durability::Instance, key: DataKey::Paused, value: Val::Bool(false) },
        ]
    );
}

#[test]
fn each_refusal_has_its_error() {
    let (mut env, _issuer, _sac) = setup(Policy::Denylist);
    let holder = account(10);
    TrustlineAuthorizer::ban(&mut env, one(&holder));
    assert_eq!(TrustlineAuthorizer::authorize_trustline(&mut env, holder), Err(Error::AccountBanned));
    TrustlineAuthorizer::pause(&mut env);
    // The pause flag is checked first.
    assert_eq!(TrustlineAuthorizer::authorize_trustline(&mut env, holder), Err(Error::Paused));

    let (mut env, _issuer, _sac) = setup(Policy::Allowlist);
    assert_eq!(TrustlineAuthorizer::authorize_trustline(&mut env, holder), Err(Error::AccountNotAllowed));
}

#[test]
fn refused_authorization_changes_nothing() {
    let (mut env, _issuer, _sac) = setup(Policy::Allowlist);
    let before = env.calls.clone();
    assert!(TrustlineAuthorizer::authorize_trustline(&mut env, account(10)).is_err());
    assert_eq!(env.calls, before);
}

#[test]
fn authorization_sets_trustline_and_publishes() {
    let (mut env, _issuer, sac) = setup(Policy::Denylist);
    let holder = account(10);
    let n = env.calls.len();
    TrustlineAuthorizer::authorize_trustline(&mut env, holder).unwrap();
    assert_eq!(
        env.calls[n..].to_vec(),
        vec![
            HostCall::SetAuthorized { sac, id: holder, authorize: true },
            HostCall::Publish(Event::Authorized(events::Authorized { account: holder })),
        ]
    );
}

#[test]
fn ban_records_each_account_in_order() {
    let (mut env, issuer, sac) = setup(Policy::Denylist);
    let a = account(10);
    let b = account(11);
    let n = env.calls.len();
    TrustlineAuthorizer::ban(&mut env, vec![a, b]);
    assert_eq!(
        env.calls[n..].to_vec(),
        vec![
            HostCall::RequireAuth(issuer),
            HostCall::StorageSet { durability: Durability::Persistent, key: DataKey::Banned(a), value: Val::Bool(true) },
            HostCall::SetAuthorized { sac, id: a, authorize: false },
            HostCall::Publish(Event::Banned(events::Banned { account: a })),
            HostCall::StorageSet { durability: Durability::Persistent, key: DataKey::Banned(b), value: Val::Bool(true) },
            HostCall::SetAuthorized { sac, id: b, authorize: false },
            HostCall::Publish(Event::Banned(events::Banned { account: b })),
        ]
    );
    assert!(TrustlineAuthorizer::is_banned(&env, a));
    assert!(TrustlineAuthorizer::is_banned(&env, b));
    assert!(!TrustlineAuthorizer::is_banned(&env, account(12)));
}

#[test]
fn unban_removes_entry_and_does_not_reauthorize() {
    let (mut env, issuer, sac) = setup(Policy::Denylist);
    let holder = account(10);
    TrustlineAuthorizer::authorize_trustline(&mut env, holder).unwrap();
    TrustlineAuthorizer::ban(&mut env, one(&holder));
    let n = env.calls.len();
    TrustlineAuthorizer::unban(&mut env, one(&holder));
    assert_eq!(
        env.calls[n..].to_vec(),
        vec![
            HostCall::RequireAuth(issuer),
            HostCall::StorageRemove { durability: Durability::Persistent, key: DataKey::Banned(holder) },
            HostCall::Publish(Event::Unbanned(events::Unbanned { account: holder })),
        ]
    );
    assert!(!TrustlineAuthorizer::is_banned(&env, holder));
    // Still deauthorized until the holder asks again.
    assert!(!sac_authorized(&env, &sac, &holder));
    TrustlineAuthorizer::authorize_trustline(&mut env, holder).unwrap();
    assert!(sac_authorized(&env, &sac, &holder));
}

#[test]
fn freeze_is_ban() {
    let (mut e1, _issuer, _sac) = setup(Policy::Denylist);
    let (mut e2, _issuer2, _sac2) = setup(Policy::Denylist);
    let accounts = vec![account(10), account(11), account(10)];
    TrustlineAuthorizer::ban(&mut e1, accounts.clone());
    TrustlineAuthorizer::freeze(&mut e2, accounts);
    assert_eq!(e1.calls, e2.calls);
}

#[test]
fn ban_unban_roundtrip_leaves_others() {
    let (mut env, _issuer, _sac) = setup(Policy::Denylist);
    let a = account(10);
    let b = account(11);
    let c = account(12);
    TrustlineAuthorizer::ban(&mut env, vec![c]);
    TrustlineAuthorizer::ban(&mut env, vec![a, b]);
    TrustlineAuthorizer::unban(&mut env, vec![a, b]);
    assert!(!TrustlineAuthorizer::is_banned(&env, a));
    assert!(!TrustlineAuthorizer::is_banned(&env, b));
    assert!(TrustlineAuthorizer::is_banned(&env, c));
}

#[test]
fn disallow_removes_and_deauthorizes() {
    let (mut env, issuer, sac) = setup(Policy::Allowlist);
    let holder = account(10);
    TrustlineAuthorizer::allow(&mut env, one(&holder));
    assert!(TrustlineAuthorizer::is_allowed(&env, holder));
    TrustlineAuthorizer::authorize_trustline(&mut env, holder).unwrap();
    let n = env.calls.len();
    TrustlineAuthorizer::disallow(&mut env, one(&holder));
    assert_eq!(
        env.calls[n..].to_vec(),
        vec![
            HostCall::RequireAuth(issuer),
            HostCall::StorageRemove { durability: Durability::Persistent, key: DataKey::Allowed(holder) },
            HostCall::SetAuthorized { sac, id: holder, authorize: false },
            HostCall::Publish(Event::Disallowed(events::Disallowed { account: holder })),
        ]
    );
    assert!(!TrustlineAuthorizer::is_allowed(&env, holder));
    assert!(!sac_authorized(&env, &sac, &holder));
    assert_eq!(TrustlineAuthorizer::authorize_trustline(&mut env, holder), Err(Error::AccountNotAllowed));
}

#[test]
fn lists_are_independent() {
    let (mut env, _issuer, _sac) = setup(Policy::Denylist);
    let holder = account(10);
    TrustlineAuthorizer::allow(&mut env, one(&holder));
    TrustlineAuthorizer::ban(&mut env, one(&holder));
    TrustlineAuthorizer::unban(&mut env, one(&holder));
    assert!(TrustlineAuthorizer::is_allowed(&env, holder));
    TrustlineAuthorizer::ban(&mut env, one(&holder));
    TrustlineAuthorizer::disallow(&mut env, one(&holder));
    assert!(TrustlineAuthorizer::is_banned(&env, holder));
    assert_eq!(TrustlineAuthorizer::policy(&env), Policy::Denylist);
}

#[test]
fn deauthorize_keeps_holder_unbanned() {
    let (mut env, issuer, sac) = setup(Policy::Denylist);
    let holder = account(10);
    TrustlineAuthorizer::authorize_trustline(&mut env, holder).unwrap();
    let n = env.calls.len();
    TrustlineAuthorizer::deauthorize_trustline(&mut env, holder);
    assert_eq!(
        env.calls[n..].to_vec(),
        vec![
            HostCall::RequireAuth(issuer),
            HostCall::SetAuthorized { sac, id: holder, authorize: false },
            HostCall::Publish(Event::Deauthorized(events::Deauthorized { account: holder })),
        ]
    );
    assert!(!sac_authorized(&env, &sac, &holder));
    assert!(!TrustlineAuthorizer::is_banned(&env, holder));
    // The holder may ask again.
    TrustlineAuthorizer::authorize_trustline(&mut env, holder).unwrap();
    assert!(sac_authorized(&env, &sac, &holder));
}

#[test]
fn supply_controls_call_the_asset_contract() {
    let (mut env, issuer, sac) = setup(Policy::Denylist);
    let holder = account(10);
    let n = env.calls.len();
    TrustlineAuthorizer::mint(&mut env, holder, 1_000);
    TrustlineAuthorizer::clawback(&mut env, holder, 250);
    assert_eq!(
        env.calls[n..].to_vec(),
        vec![
            HostCall::RequireAuth(issuer),
            HostCall::Mint { sac, to: holder, amount: 1_000 },
            HostCall::RequireAuth(issuer),
            HostCall::Clawback { sac, from: holder, amount: 250 },
        ]
    );
}

#[test]
fn pause_and_unpause_publish_events() {
    let (mut env, issuer, _sac) = setup(Policy::Denylist);
    let n = env.calls.len();
    TrustlineAuthorizer::pause(&mut env);
    assert!(TrustlineAuthorizer::is_paused(&env));
    TrustlineAuthorizer::unpause(&mut env);
    assert!(!TrustlineAuthorizer::is_paused(&env));
    assert_eq!(
        env.calls[n..].to_vec(),
        vec![
            HostCall::RequireAuth(issuer),
            HostCall::StorageSet { durability: Durability::Instance, key: DataKey::Paused, value: Val::Bool(true) },
            HostCall::Publish(Event::Paused(events::Paused {})),
            HostCall::RequireAuth(issuer),
            HostCall::StorageSet { durability: Durability::Instance, key: DataKey::Paused, value: Val::Bool(false) },
            HostCall::Publish(Event::Unpaused(events::Unpaused {})),
        ]
    );
}

#[test]
fn set_admin_hands_over_the_role() {
    let (mut env, issuer, _sac) = setup(Policy::Denylist);
    let next = account(20);
    TrustlineAuthorizer::set_admin(&mut env, next);
    assert_eq!(TrustlineAuthorizer::admin(&env), next);
    let n = env.calls.len();
    // The old admin authorized the handover; the new one authorizes what follows.
    assert_eq!(env.calls[n - 2], HostCall::RequireAuth(issuer));
    TrustlineAuthorizer::pause(&mut env);
    assert_eq!(env.calls[n], HostCall::RequireAuth(next));
}

#[test]
fn upgrade_requires_admin_and_updates_code() {
    let (mut env, issuer, _sac) = setup(Policy::Denylist);
    let hash = Bytes32::new(7, 9);
    let n = env.calls.len();
    TrustlineAuthorizer::upgrade(&mut env, hash);
    assert_eq!(
        env.calls[n..].to_vec(),
        vec![HostCall::RequireAuth(issuer), HostCall::UpdateCurrentContractWasm(hash)]
    );
}

#[test]
fn storage_flags_read_back() {
    let mut env = Env::new();
    let a = account(10);
    let b = account(11);
    assert!(!storage::is_banned(&env, &a));
    assert!(!storage::is_paused(&env));
    storage::set_banned(&mut env, &a, true);
    storage::set_banned(&mut env, &a, true);
    assert!(storage::is_banned(&env, &a));
    assert!(!storage::is_banned(&env, &b));
    storage::set_banned(&mut env, &a, false);
    assert!(!storage::is_banned(&env, &a));
    storage::set_allowed(&mut env, &b, true);
    assert!(storage::is_allowed(&env, &b));
    assert!(!storage::is_allowed(&env, &a));
    storage::set_paused(&mut env, true);
    assert!(storage::is_paused(&env));
    storage::set_admin(&mut env, &a);
    assert_eq!(storage::get_admin(&env), a);
    storage::set_sac(&mut env, &b);
    assert_eq!(storage::get_sac(&env), b);
    storage::set_policy(&mut env, &Policy::Allowlist);
    assert_eq!(storage::get_policy(&env), Policy::Allowlist);
}

#[test]
fn authorization_of_follows_the_last_call() {
    let (mut env, _issuer, sac) = setup(Policy::Denylist);
    let holder = account(10);
    let other_sac = contract(3);
    assert_eq!(env.authorization_of(&sac, &holder), None);
    TrustlineAuthorizer::authorize_trustline(&mut env, holder).unwrap();
    TrustlineAuthorizer::authorize_trustline(&mut env, account(11)).unwrap();
    assert_eq!(env.authorization_of(&sac, &holder), Some(true));
    assert_eq!(env.authorization_of(&other_sac, &holder), None);
    TrustlineAuthorizer::deauthorize_trustline(&mut env, holder);
    assert_eq!(env.authorization_of(&sac, &holder), Some(false));
    assert_eq!(env.authorization_of(&sac, &account(11)), Some(true));
}

#[test]
fn address_kinds_are_distinct() {
    let key = Bytes32::new(1, 2);
    assert_ne!(Address::account(key), Address::contract(key));
    assert_eq!(Address::account(key), Address::account(Bytes32::new(1, 2)));
}

#[test]
fn allowlist_frozen_holder_stays_blocked() {
    let (mut env, _issuer, sac) = setup(Policy::Allowlist);
    let holder = account(10);
    TrustlineAuthorizer::allow(&mut env, one(&holder));
    TrustlineAuthorizer::authorize_trustline(&mut env, holder).unwrap();
    assert!(sac_authorized(&env, &sac, &holder));

    TrustlineAuthorizer::freeze(&mut env, one(&holder));
    assert!(!sac_authorized(&env, &sac, &holder));
    assert_eq!(TrustlineAuthorizer::authorize_trustline(&mut env, holder), Err(Error::AccountBanned));
    assert!(!sac_authorized(&env, &sac, &holder));

    TrustlineAuthorizer::unfreeze(&mut env, one(&holder));
    assert!(sac_authorized(&env, &sac, &holder));
    TrustlineAuthorizer::authorize_trustline(&mut env, holder).unwrap();
}

#[test]
fn flags_follow_the_last_operation() {
    let (mut env, issuer, sac) = setup(Policy::Denylist);
    let a = account(10);
    let next = account(20);
    TrustlineAuthorizer::pause(&mut env);
    TrustlineAuthorizer::unpause(&mut env);
    TrustlineAuthorizer::pause(&mut env);
    assert!(TrustlineAuthorizer::is_paused(&env));
    TrustlineAuthorizer::ban(&mut env, one(&a));
    TrustlineAuthorizer::unfreeze(&mut env, one(&a));
    TrustlineAuthorizer::freeze(&mut env, one(&a));
    assert!(TrustlineAuthorizer::is_banned(&env, a));
    TrustlineAuthorizer::allow(&mut env, one(&a));
    TrustlineAuthorizer::disallow(&mut env, one(&a));
    assert!(!TrustlineAuthorizer::is_allowed(&env, a));
    assert_eq!(TrustlineAuthorizer::admin(&env), issuer);
    TrustlineAuthorizer::set_admin(&mut env, next);
    TrustlineAuthorizer::set_admin(&mut env, issuer);
    assert_eq!(TrustlineAuthorizer::admin(&env), issuer);
    assert_eq!(TrustlineAuthorizer::policy(&env), Policy::Denylist);
    assert_eq!(TrustlineAuthorizer::sac_address(&env), sac);
    for call in env.calls.iter() {
        match call {
            HostCall::SetAuthorized { sac: target, .. }
            | HostCall::Mint { sac: target, .. }
            | HostCall::Clawback { sac: target, .. } => assert_eq!(*target, sac),
            _ => {}
        }
    }
}

#[test]
fn allowlist_checks_allowance_before_ban() {
    let (mut env, _issuer, _sac) = setup(Policy::Allowlist);
    let holder = account(10);
    TrustlineAuthorizer::ban(&mut env, one(&holder));
    // Never allowed: refused as not allowed, even though banned.
    assert_eq!(TrustlineAuthorizer::authorize_trustline(&mut env, holder), Err(Error::AccountNotAllowed));
    // Allowed but banned: refused as banned.
    TrustlineAuthorizer::allow(&mut env, one(&holder));
    assert_eq!(TrustlineAuthorizer::authorize_trustline(&mut env, holder), Err(Error::AccountBanned));
}

#[test]
fn frozen_holder_stays_revoked_across_operations() {
    let (mut env, _issuer, sac) = setup(Policy::Allowlist);
    let holder = account(10);
    let other = account(11);
    TrustlineAuthorizer::allow(&mut env, vec![holder, other]);
    TrustlineAuthorizer::authorize_trustline(&mut env, holder).unwrap();
    TrustlineAuthorizer::freeze(&mut env, one(&holder));
    TrustlineAuthorizer::authorize_trustline(&mut env, other).unwrap();
    TrustlineAuthorizer::unban(&mut env, one(&other));
    TrustlineAuthorizer::allow(&mut env, one(&holder));
    TrustlineAuthorizer::pause(&mut env);
    TrustlineAuthorizer::unpause(&mut env);
    TrustlineAuthorizer::mint(&mut env, other, 5);
    assert!(TrustlineAuthorizer::authorize_trustline(&mut env, holder).is_err());
    assert!(TrustlineAuthorizer::is_banned(&env, holder));
    assert!(!sac_authorized(&env, &sac, &holder));
    assert!(sac_authorized(&env, &sac, &other));
}
