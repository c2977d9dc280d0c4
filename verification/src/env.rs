//! The environment a contract call runs against: the contract's storage, and
//! the ordered record of what the call asked of the host.
use vstd::prelude::*;

use crate::address::{Address, Bytes32};
use crate::address_set::AddressSet;
use crate::events::Event;
use crate::policy::Policy;

verus! {

/// Where a storage entry lives: with the contract instance, or in its own
/// persistent ledger entry.
#[derive(Clone, Copy, Debug, PartialEq, Eq, Structural)]
pub enum Durability {
    Instance,
    Persistent,
}

/// The keys of the authorizer's storage.
#[derive(Clone, Copy, Debug, PartialEq, Eq, Structural)]
pub enum DataKey {
    /// The admin (issuer or its delegate) authorized to manage policy.
    Admin,
    /// The Stellar Asset Contract this authorizer administers.
    Sac,
    /// The active authorization policy (denylist / allowlist).
    Policy,
    /// Pause flag: while true, `authorize_trustline` is rejected.
    Paused,
    /// Denylist membership for an account.
    Banned(Address),
    /// Allowlist membership for an account.
    Allowed(Address),
}

/// A value held in storage.
#[derive(Clone, Copy, Debug, PartialEq, Eq, Structural)]
pub enum Val {
    Address(Address),
    Policy(Policy),
    Bool(bool),
}

/// One request of a contract call to its host, in the order the call made it.
#[derive(Clone, Copy, Debug, PartialEq, Eq, Structural)]
pub enum HostCall {
    /// `address.require_auth()`: the invocation aborts unless `address` authorized it.
    RequireAuth(Address),
    /// Stores `value` under `key`.
    StorageSet { durability: Durability, key: DataKey, value: Val },
    /// Removes the entry under `key`.
    StorageRemove { durability: Durability, key: DataKey },
    /// `set_authorized(id, authorize)` on the asset contract `sac`.
    SetAuthorized { sac: Address, id: Address, authorize: bool },
    /// `mint(to, amount)` on the asset contract `sac`.
    Mint { sac: Address, to: Address, amount: i128 },
    /// `clawback(from, amount)` on the asset contract `sac`.
    Clawback { sac: Address, from: Address, amount: i128 },
    /// Replaces the running contract's Wasm with the one of the given hash.
    UpdateCurrentContractWasm(Bytes32),
    /// Publishes an event.
    Publish(Event),
}

/// The environment of the authorizer: its storage and the host calls made so
/// far. A denylist or allowlist entry is present with the value `true` exactly
/// when its account is in `banned` or `allowed`: the contract stores no other
/// value under those keys and removes the entry to clear the flag.
pub struct Env {
    pub admin: Option<Address>,
    pub sac: Option<Address>,
    pub policy: Option<Policy>,
    pub paused: Option<bool>,
    pub banned: AddressSet,
    pub allowed: AddressSet,
    pub calls: Vec<HostCall>,
}

/// The mathematical value of an [`Env`].
#[verifier::ext_equal]
pub struct EnvView {
    pub admin: Option<Address>,
    pub sac: Option<Address>,
    pub policy: Option<Policy>,
    pub paused: Option<bool>,
    pub banned: Set<Address>,
    pub allowed: Set<Address>,
    pub calls: Seq<HostCall>,
}

impl View for Env {
    type V = EnvView;

    open spec fn view(&self) -> EnvView {
        EnvView {
            admin: self.admin,
            sac: self.sac,
            policy: self.policy,
            paused: self.paused,
            banned: self.banned@,
            allowed: self.allowed@,
            calls: self.calls@,
        }
    }
}

impl EnvView {
    /// `self` with `call` made.
    pub open spec fn record(self, call: HostCall) -> EnvView {
        EnvView { calls: self.calls.push(call), ..self }
    }

    /// The contract was set up: admin, asset contract and policy are stored.
    pub open spec fn configured(self) -> bool {
        &&& self.admin is Some
        &&& self.sac is Some
        &&& self.policy is Some
    }

    /// The stored pause flag, `false` when none is stored.
    pub open spec fn paused_flag(self) -> bool {
        match self.paused {
            Some(p) => p,
            None => false,
        }
    }

    /// The stored denylist flag of `account`, `false` when none is stored.
    pub open spec fn banned_flag(self, account: Address) -> bool {
        self.banned.contains(account)
    }

    /// The stored allowlist flag of `account`, `false` when none is stored.
    pub open spec fn allowed_flag(self, account: Address) -> bool {
        self.allowed.contains(account)
    }

    /// The storage of `self` and of `other` hold the same entries.
    pub open spec fn same_storage(self, other: EnvView) -> bool {
        &&& self.admin == other.admin
        &&& self.sac == other.sac
        &&& self.policy == other.policy
        &&& self.paused == other.paused
        &&& self.banned == other.banned
        &&& self.allowed == other.allowed
    }
}

/// The authorization that `calls` last asked the asset contract `sac` to set
/// for `account`, if they asked for any.
pub open spec fn last_authorization(calls: Seq<HostCall>, sac: Address, account: Address) -> Option<bool>
    decreases calls.len(),
{
    if calls.len() == 0 {
        None
    } else {
        match calls.last() {
            HostCall::SetAuthorized { sac: target, id, authorize } => if target == sac && id == account {
                Some(authorize)
            } else {
                last_authorization(calls.drop_last(), sac, account)
            },
            _ => last_authorization(calls.drop_last(), sac, account),
        }
    }
}

impl Env {
    /// The authorization that the calls made so far last asked the asset
    /// contract `sac` to set for `account`, if they asked for any.
    pub fn authorization_of(&self, sac: &Address, account: &Address) -> (r: Option<bool>)
        ensures
            r == last_authorization(self@.calls, *sac, *account),
    {
        proof {
            assert(self.calls@.take(self.calls@.len() as int) =~= self.calls@);
        }
        let mut i = self.calls.len();
        while i > 0
            invariant
                i <= self.calls@.len(),
                last_authorization(self.calls@, *sac, *account) == last_authorization(self.calls@.take(i as int), *sac, *account),
            decreases i,
        {
            proof {
                assert(self.calls@.take(i as int).drop_last() =~= self.calls@.take(i - 1));
            }
            i = i - 1;
            match self.calls[i] {
                HostCall::SetAuthorized { sac: target, id, authorize } => {
                    if target == *sac && id == *account {
                        return Some(authorize);
                    }
                },
                _ => {},
            }
        }
        proof {
            assert(self.calls@.take(0) =~= Seq::<HostCall>::empty());
        }
        None
    }

    /// An environment with empty storage and no host call made.
    pub fn new() -> (env: Env)
        ensures
            env@ == (EnvView {
                admin: None,
                sac: None,
                policy: None,
                paused: None,
                banned: Set::empty(),
                allowed: Set::empty(),
                calls: Seq::empty(),
            }),
    {
        Env {
            admin: None,
            sac: None,
            policy: None,
            paused: None,
            banned: AddressSet::new(),
            allowed: AddressSet::new(),
            calls: Vec::new(),
        }
    }

    /// Records `call` as made.
    pub(crate) fn record(&mut self, call: HostCall)
        ensures
            final(self)@ == old(self)@.record(call),
    {
        self.calls.push(call);
    }
}

} // verus!
