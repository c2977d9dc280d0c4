//! The authorizer's storage: its configuration lives with the contract
//! instance, the denylist and allowlist flags in persistent entries.
use vstd::prelude::*;

use crate::address::Address;
use crate::env::{DataKey, Durability, Env, EnvView, HostCall, Val};
use crate::policy::Policy;

verus! {

// --- the effect of each write ----------------------------------------------

/// `s` once `admin` is stored as the admin.
pub open spec fn after_set_admin(s: EnvView, admin: Address) -> EnvView {
    EnvView { admin: Some(admin), ..s.record(HostCall::StorageSet { durability: Durability::Instance, key: DataKey::Admin, value: Val::Address(admin) }) }
}

/// `s` once `sac` is stored as the asset contract.
pub open spec fn after_set_sac(s: EnvView, sac: Address) -> EnvView {
    EnvView { sac: Some(sac), ..s.record(HostCall::StorageSet { durability: Durability::Instance, key: DataKey::Sac, value: Val::Address(sac) }) }
}

/// `s` once `policy` is stored as the policy.
pub open spec fn after_set_policy(s: EnvView, policy: Policy) -> EnvView {
    EnvView { policy: Some(policy), ..s.record(HostCall::StorageSet { durability: Durability::Instance, key: DataKey::Policy, value: Val::Policy(policy) }) }
}

/// `s` once `paused` is stored as the pause flag.
pub open spec fn after_set_paused(s: EnvView, paused: bool) -> EnvView {
    EnvView { paused: Some(paused), ..s.record(HostCall::StorageSet { durability: Durability::Instance, key: DataKey::Paused, value: Val::Bool(paused) }) }
}

/// `s` once the denylist flag of `account` is set to `banned`: a `true` flag is
/// stored, a `false` one is removed.
pub open spec fn after_set_banned(s: EnvView, account: Address, banned: bool) -> EnvView {
    if banned {
        EnvView { banned: s.banned.insert(account), ..s.record(HostCall::StorageSet { durability: Durability::Persistent, key: DataKey::Banned(account), value: Val::Bool(true) }) }
    } else {
        EnvView { banned: s.banned.remove(account), ..s.record(HostCall::StorageRemove { durability: Durability::Persistent, key: DataKey::Banned(account) }) }
    }
}

/// `s` once the allowlist flag of `account` is set to `allowed`: a `true` flag
/// is stored, a `false` one is removed.
pub open spec fn after_set_allowed(s: EnvView, account: Address, allowed: bool) -> EnvView {
    if allowed {
        EnvView { allowed: s.allowed.insert(account), ..s.record(HostCall::StorageSet { durability: Durability::Persistent, key: DataKey::Allowed(account), value: Val::Bool(true) }) }
    } else {
        EnvView { allowed: s.allowed.remove(account), ..s.record(HostCall::StorageRemove { durability: Durability::Persistent, key: DataKey::Allowed(account) }) }
    }
}

// --- instance config --------------------------------------------------------

/// Stores the admin.
pub fn set_admin(env: &mut Env, admin: &Address)
    ensures
        final(env)@ == after_set_admin(old(env)@, *admin),
{
    env.admin = Some(*admin);
    env.record(HostCall::StorageSet { durability: Durability::Instance, key: DataKey::Admin, value: Val::Address(*admin) });
}

/// The stored admin.
pub fn get_admin(env: &Env) -> (admin: Address)
    requires
        env@.admin is Some,
    ensures
        admin == env@.admin.unwrap(),
{
    env.admin.unwrap()
}

/// Stores the asset contract.
pub fn set_sac(env: &mut Env, sac: &Address)
    ensures
        final(env)@ == after_set_sac(old(env)@, *sac),
{
    env.sac = Some(*sac);
    env.record(HostCall::StorageSet { durability: Durability::Instance, key: DataKey::Sac, value: Val::Address(*sac) });
}

/// The stored asset contract.
pub fn get_sac(env: &Env) -> (sac: Address)
    requires
        env@.sac is Some,
    ensures
        sac == env@.sac.unwrap(),
{
    env.sac.unwrap()
}

/// Stores the policy.
pub fn set_policy(env: &mut Env, policy: &Policy)
    ensures
        final(env)@ == after_set_policy(old(env)@, *policy),
{
    env.policy = Some(*policy);
    env.record(HostCall::StorageSet { durability: Durability::Instance, key: DataKey::Policy, value: Val::Policy(*policy) });
}

/// The stored policy.
pub fn get_policy(env: &Env) -> (policy: Policy)
    requires
        env@.policy is Some,
    ensures
        policy == env@.policy.unwrap(),
{
    env.policy.unwrap()
}

/// Stores the pause flag.
pub fn set_paused(env: &mut Env, paused: bool)
    ensures
        final(env)@ == after_set_paused(old(env)@, paused),
{
    env.paused = Some(paused);
    env.record(HostCall::StorageSet { durability: Durability::Instance, key: DataKey::Paused, value: Val::Bool(paused) });
}

/// The stored pause flag, `false` when none is stored.
pub fn is_paused(env: &Env) -> (paused: bool)
    ensures
        paused == env@.paused_flag(),
{
    match env.paused {
        Some(p) => p,
        None => false,
    }
}

// --- denylist / allowlist (persistent) --------------------------------------

/// Sets the denylist flag of `account`.
pub fn set_banned(env: &mut Env, account: &Address, banned: bool)
    ensures
        final(env)@ == after_set_banned(old(env)@, *account, banned),
{
    let key = DataKey::Banned(*account);
    if banned {
        env.banned.insert(account);
        env.record(HostCall::StorageSet { durability: Durability::Persistent, key, value: Val::Bool(true) });
    } else {
        env.banned.remove(account);
        env.record(HostCall::StorageRemove { durability: Durability::Persistent, key });
    }
}

/// The denylist flag of `account`, `false` when none is stored.
pub fn is_banned(env: &Env, account: &Address) -> (banned: bool)
    ensures
        banned == env@.banned_flag(*account),
{
    env.banned.contains(account)
}

/// Sets the allowlist flag of `account`.
pub fn set_allowed(env: &mut Env, account: &Address, allowed: bool)
    ensures
        final(env)@ == after_set_allowed(old(env)@, *account, allowed),
{
    let key = DataKey::Allowed(*account);
    if allowed {
        env.allowed.insert(account);
        env.record(HostCall::StorageSet { durability: Durability::Persistent, key, value: Val::Bool(true) });
    } else {
        env.allowed.remove(account);
        env.record(HostCall::StorageRemove { durability: Durability::Persistent, key });
    }
}

/// The allowlist flag of `account`, `false` when none is stored.
pub fn is_allowed(env: &Env, account: &Address) -> (allowed: bool)
    ensures
        allowed == env@.allowed_flag(*account),
{
    env.allowed.contains(account)
}

} // verus!
