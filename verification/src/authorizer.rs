//! The trustline authorizer.
//!
//! The issuer of an `AUTH_REQUIRED` classic asset sets this contract as the
//! admin of the asset's Stellar Asset Contract (SAC). The contract then decides,
//! by an auditable on-chain policy, which trustlines get authorized:
//! - under [`Policy::Denylist`] `authorize_trustline` is permissionless and
//!   authorizes any holder that is not banned;
//! - under [`Policy::Allowlist`] it authorizes only holders allowed first and
//!   not banned.
//!
//! Freezing is banning plus deauthorizing, so that a retried onboarding can
//! never re-authorize a frozen holder. Every admin operation first requires the
//! stored admin's authorization.
use vstd::prelude::*;

use crate::address::{Address, Bytes32};
use crate::env::{Env, EnvView, HostCall};
use crate::events::{self, after_publish, Event};
use crate::policy::Policy;
use crate::storage::{self, after_set_admin, after_set_allowed, after_set_banned, after_set_paused, after_set_policy, after_set_sac};

verus! {

/// Why `authorize_trustline` refused.
#[derive(Clone, Copy, Debug, PartialEq, Eq, PartialOrd, Ord, Structural)]
pub enum Error {
    /// The contract is paused; authorization is temporarily disabled.
    Paused,
    /// The account is on the denylist.
    AccountBanned,
    /// The account is not on the allowlist (allowlist policy only).
    AccountNotAllowed,
}

/// The trustline authorizer contract.
pub struct TrustlineAuthorizer {}

// --- the effect of each operation -------------------------------------------

/// `s` once the stored admin's authorization is required.
pub open spec fn after_require_admin(s: EnvView) -> EnvView {
    s.record(HostCall::RequireAuth(s.admin.unwrap()))
}

/// `s` once the stored asset contract is asked to set the authorization of
/// `account` to `authorize`.
pub open spec fn after_sac_set_authorized(s: EnvView, account: Address, authorize: bool) -> EnvView {
    s.record(HostCall::SetAuthorized { sac: s.sac.unwrap(), id: account, authorize })
}

/// `s` once `step` is applied for each of `accounts` in turn.
pub open spec fn for_each(s: EnvView, accounts: Seq<Address>, step: spec_fn(EnvView, Address) -> EnvView) -> EnvView
    decreases accounts.len(),
{
    if accounts.len() == 0 {
        s
    } else {
        step(for_each(s, accounts.drop_last(), step), accounts.last())
    }
}

/// What the stored lists say of `account`: the denylist admits it unless it
/// is banned; the allowlist refuses it unless it was allowed, and then still
/// refuses it while it is banned, so that a frozen holder can never
/// re-authorize itself, whatever the policy.
pub open spec fn policy_decision(s: EnvView, account: Address) -> Result<(), Error> {
    match s.policy.unwrap() {
        Policy::Denylist => if s.banned_flag(account) {
            Err(Error::AccountBanned)
        } else {
            Ok(())
        },
        Policy::Allowlist => if !s.allowed_flag(account) {
            Err(Error::AccountNotAllowed)
        } else if s.banned_flag(account) {
            Err(Error::AccountBanned)
        } else {
            Ok(())
        },
    }
}

/// What `authorize_trustline` answers for `account`: refused while paused,
/// else as the lists say under the stored policy.
pub open spec fn authorize_decision(s: EnvView, account: Address) -> Result<(), Error> {
    if s.paused_flag() {
        Err(Error::Paused)
    } else {
        policy_decision(s, account)
    }
}

/// `s` once `authorize_trustline(account)` has run: the trustline is authorized
/// and the event published when the decision allows it; nothing changes when
/// it refuses.
pub open spec fn after_authorize(s: EnvView, account: Address) -> EnvView {
    if authorize_decision(s, account) is Ok {
        after_publish(after_sac_set_authorized(s, account, true), Event::Authorized(events::Authorized { account }))
    } else {
        s
    }
}

/// `s` once `deauthorize_trustline(account)` has run.
pub open spec fn after_deauthorize(s: EnvView, account: Address) -> EnvView {
    after_publish(
        after_sac_set_authorized(after_require_admin(s), account, false),
        Event::Deauthorized(events::Deauthorized { account }),
    )
}

/// Banning one account: it goes on the denylist and is deauthorized.
pub open spec fn ban_one(s: EnvView, account: Address) -> EnvView {
    after_publish(
        after_sac_set_authorized(after_set_banned(s, account, true), account, false),
        Event::Banned(events::Banned { account }),
    )
}

/// Unbanning one account: it leaves the denylist.
pub open spec fn unban_one(s: EnvView, account: Address) -> EnvView {
    after_publish(after_set_banned(s, account, false), Event::Unbanned(events::Unbanned { account }))
}

/// Unfreezing one account: it leaves the denylist and is authorized again.
pub open spec fn unfreeze_one(s: EnvView, account: Address) -> EnvView {
    after_publish(
        after_publish(
            after_sac_set_authorized(after_set_banned(s, account, false), account, true),
            Event::Unbanned(events::Unbanned { account }),
        ),
        Event::Authorized(events::Authorized { account }),
    )
}

/// Allowing one account: it goes on the allowlist.
pub open spec fn allow_one(s: EnvView, account: Address) -> EnvView {
    after_publish(after_set_allowed(s, account, true), Event::Allowed(events::Allowed { account }))
}

/// Disallowing one account: it leaves the allowlist and is deauthorized.
pub open spec fn disallow_one(s: EnvView, account: Address) -> EnvView {
    after_publish(
        after_sac_set_authorized(after_set_allowed(s, account, false), account, false),
        Event::Disallowed(events::Disallowed { account }),
    )
}

/// Banning as a step over accounts.
pub open spec fn ban_step() -> spec_fn(EnvView, Address) -> EnvView {
    |s: EnvView, a: Address| ban_one(s, a)
}

/// Unbanning as a step over accounts.
pub open spec fn unban_step() -> spec_fn(EnvView, Address) -> EnvView {
    |s: EnvView, a: Address| unban_one(s, a)
}

/// Unfreezing as a step over accounts.
pub open spec fn unfreeze_step() -> spec_fn(EnvView, Address) -> EnvView {
    |s: EnvView, a: Address| unfreeze_one(s, a)
}

/// Allowing as a step over accounts.
pub open spec fn allow_step() -> spec_fn(EnvView, Address) -> EnvView {
    |s: EnvView, a: Address| allow_one(s, a)
}

/// Disallowing as a step over accounts.
pub open spec fn disallow_step() -> spec_fn(EnvView, Address) -> EnvView {
    |s: EnvView, a: Address| disallow_one(s, a)
}

/// `s` once `ban(accounts)` (or `freeze(accounts)`) has run.
pub open spec fn after_ban(s: EnvView, accounts: Seq<Address>) -> EnvView {
    for_each(after_require_admin(s), accounts, ban_step())
}

/// `s` once `unban(accounts)` has run.
pub open spec fn after_unban(s: EnvView, accounts: Seq<Address>) -> EnvView {
    for_each(after_require_admin(s), accounts, unban_step())
}

/// `s` once `unfreeze(accounts)` has run.
pub open spec fn after_unfreeze(s: EnvView, accounts: Seq<Address>) -> EnvView {
    for_each(after_require_admin(s), accounts, unfreeze_step())
}

/// `s` once `allow(accounts)` has run.
pub open spec fn after_allow(s: EnvView, accounts: Seq<Address>) -> EnvView {
    for_each(after_require_admin(s), accounts, allow_step())
}

/// `s` once `disallow(accounts)` has run.
pub open spec fn after_disallow(s: EnvView, accounts: Seq<Address>) -> EnvView {
    for_each(after_require_admin(s), accounts, disallow_step())
}

/// `s` once `mint(to, amount)` has run.
pub open spec fn after_mint(s: EnvView, to: Address, amount: i128) -> EnvView {
    after_require_admin(s).record(HostCall::Mint { sac: s.sac.unwrap(), to, amount })
}

/// `s` once `clawback(from, amount)` has run.
pub open spec fn after_clawback(s: EnvView, from: Address, amount: i128) -> EnvView {
    after_require_admin(s).record(HostCall::Clawback { sac: s.sac.unwrap(), from, amount })
}

/// `s` once `pause()` has run.
pub open spec fn after_pause(s: EnvView) -> EnvView {
    after_publish(after_set_paused(after_require_admin(s), true), Event::Paused(events::Paused {}))
}

/// `s` once `unpause()` has run.
pub open spec fn after_unpause(s: EnvView) -> EnvView {
    after_publish(after_set_paused(after_require_admin(s), false), Event::Unpaused(events::Unpaused {}))
}

/// `s` once `set_admin(new_admin)` has run.
pub open spec fn after_change_admin(s: EnvView, new_admin: Address) -> EnvView {
    after_set_admin(after_require_admin(s), new_admin)
}

/// `s` once `upgrade(wasm_hash)` has run.
pub open spec fn after_upgrade(s: EnvView, wasm_hash: Bytes32) -> EnvView {
    after_require_admin(s).record(HostCall::UpdateCurrentContractWasm(wasm_hash))
}

/// `s` once the contract is constructed.
pub open spec fn after_construct(s: EnvView, admin: Address, sac: Address, policy: Policy) -> EnvView {
    after_set_paused(after_set_policy(after_set_sac(after_set_admin(s, admin), sac), policy), false)
}

// --- helpers -----------------------------------------------------------------

/// Requires the stored admin's authorization.
fn require_admin(env: &mut Env)
    requires
        old(env)@.admin is Some,
    ensures
        final(env)@ == after_require_admin(old(env)@),
{
    let admin = storage::get_admin(env);
    env.record(HostCall::RequireAuth(admin));
}

/// The asset contract this authorizer administers.
fn sac(env: &Env) -> (sac: Address)
    requires
        env@.sac is Some,
    ensures
        sac == env@.sac.unwrap(),
{
    storage::get_sac(env)
}

/// Asks the asset contract `sac` to set the authorization of `id`.
fn sac_set_authorized(env: &mut Env, sac: &Address, id: &Address, authorize: bool)
    ensures
        final(env)@ == old(env)@.record(HostCall::SetAuthorized { sac: *sac, id: *id, authorize }),
{
    env.record(HostCall::SetAuthorized { sac: *sac, id: *id, authorize });
}

impl TrustlineAuthorizer {
    /// Initializes the authorizer. The issuer must, in a separate issuer-signed
    /// step, set this contract as the SAC admin.
    pub fn __constructor(env: &mut Env, admin: Address, sac: Address, policy: Policy)
        ensures
            final(env)@ == after_construct(old(env)@, admin, sac, policy),
    {
        storage::set_admin(env, &admin);
        storage::set_sac(env, &sac);
        storage::set_policy(env, &policy);
        storage::set_paused(env, false);
    }

    // --- authorization (permissionless self-service) -----------------------

    /// Requests authorization of `account`'s trustline.
    ///
    /// Anyone may call it, but the lists are checked on every call: a banned
    /// account is never authorized, whatever the policy, nor under the
    /// allowlist one that was not allowed, and nothing is authorized while
    /// paused. On refusal nothing changes.
    pub fn authorize_trustline(env: &mut Env, account: Address) -> (r: Result<(), Error>)
        requires
            !old(env)@.paused_flag() ==> old(env)@.policy is Some,
            authorize_decision(old(env)@, account) is Ok ==> old(env)@.sac is Some,
        ensures
            r == authorize_decision(old(env)@, account),
            final(env)@ == after_authorize(old(env)@, account),
    {
        if storage::is_paused(env) {
            return Err(Error::Paused);
        }
        match storage::get_policy(env) {
            Policy::Denylist => {
                if storage::is_banned(env, &account) {
                    return Err(Error::AccountBanned);
                }
            },
            Policy::Allowlist => {
                if !storage::is_allowed(env, &account) {
                    return Err(Error::AccountNotAllowed);
                }
                if storage::is_banned(env, &account) {
                    return Err(Error::AccountBanned);
                }
            },
        }
        let sac = sac(env);
        sac_set_authorized(env, &sac, &account, true);
        events::authorized(env, &account);
        Ok(())
    }

    /// Admin: revokes a trustline's authorization without banning the holder.
    pub fn deauthorize_trustline(env: &mut Env, account: Address)
        requires
            old(env)@.admin is Some,
            old(env)@.sac is Some,
        ensures
            final(env)@ == after_deauthorize(old(env)@, account),
    {
        require_admin(env);
        let sac = sac(env);
        sac_set_authorized(env, &sac, &account, false);
        events::deauthorized(env, &account);
    }

    // --- denylist (and freeze) ---------------------------------------------

    /// Admin: bans accounts. Banning also deauthorizes the trustline, so this
    /// is the freeze primitive: a banned account cannot re-authorize itself.
    pub fn ban(env: &mut Env, accounts: Vec<Address>)
        requires
            old(env)@.admin is Some,
            old(env)@.sac is Some,
        ensures
            final(env)@ == after_ban(old(env)@, accounts@),
    {
        require_admin(env);
        let sac = sac(env);
        let ghost start = env@;
        let n = accounts.len();
        for i in 0..n
            invariant
                n == accounts@.len(),
                env@ == for_each(start, accounts@.take(i as int), ban_step()),
                env@.sac == Some(sac),
        {
            let account = accounts[i];
            storage::set_banned(env, &account, true);
            sac_set_authorized(env, &sac, &account, false);
            events::banned(env, &account);
            proof {
                assert(accounts@.take(i + 1).drop_last() =~= accounts@.take(i as int));
            }
        }
        proof {
            assert(accounts@.take(n as int) =~= accounts@);
        }
    }

    /// Admin: takes accounts off the denylist. Does not re-authorize them; call
    /// `unfreeze` (or have the holder call `authorize_trustline` again) for that.
    pub fn unban(env: &mut Env, accounts: Vec<Address>)
        requires
            old(env)@.admin is Some,
        ensures
            final(env)@ == after_unban(old(env)@, accounts@),
    {
        require_admin(env);
        let ghost start = env@;
        let n = accounts.len();
        for i in 0..n
            invariant
                n == accounts@.len(),
                env@ == for_each(start, accounts@.take(i as int), unban_step()),
        {
            let account = accounts[i];
            storage::set_banned(env, &account, false);
            events::unbanned(env, &account);
            proof {
                assert(accounts@.take(i + 1).drop_last() =~= accounts@.take(i as int));
            }
        }
        proof {
            assert(accounts@.take(n as int) =~= accounts@);
        }
    }

    /// Admin: freeze = ban + deauthorize. The same operation as `ban`.
    pub fn freeze(env: &mut Env, accounts: Vec<Address>)
        requires
            old(env)@.admin is Some,
            old(env)@.sac is Some,
        ensures
            final(env)@ == after_ban(old(env)@, accounts@),
    {
        Self::ban(env, accounts);
    }

    /// Admin: unfreeze = unban + re-authorize.
    pub fn unfreeze(env: &mut Env, accounts: Vec<Address>)
        requires
            old(env)@.admin is Some,
            old(env)@.sac is Some,
        ensures
            final(env)@ == after_unfreeze(old(env)@, accounts@),
    {
        require_admin(env);
        let sac = sac(env);
        let ghost start = env@;
        let n = accounts.len();
        for i in 0..n
            invariant
                n == accounts@.len(),
                env@ == for_each(start, accounts@.take(i as int), unfreeze_step()),
                env@.sac == Some(sac),
        {
            let account = accounts[i];
            storage::set_banned(env, &account, false);
            sac_set_authorized(env, &sac, &account, true);
            events::unbanned(env, &account);
            events::authorized(env, &account);
            proof {
                assert(accounts@.take(i + 1).drop_last() =~= accounts@.take(i as int));
            }
        }
        proof {
            assert(accounts@.take(n as int) =~= accounts@);
        }
    }

    // --- allowlist ---------------------------------------------------------

    /// Admin: puts accounts on the allowlist (allowlist policy).
    pub fn allow(env: &mut Env, accounts: Vec<Address>)
        requires
            old(env)@.admin is Some,
        ensures
            final(env)@ == after_allow(old(env)@, accounts@),
    {
        require_admin(env);
        let ghost start = env@;
        let n = accounts.len();
        for i in 0..n
            invariant
                n == accounts@.len(),
                env@ == for_each(start, accounts@.take(i as int), allow_step()),
        {
            let account = accounts[i];
            storage::set_allowed(env, &account, true);
            events::allowed(env, &account);
            proof {
                assert(accounts@.take(i + 1).drop_last() =~= accounts@.take(i as int));
            }
        }
        proof {
            assert(accounts@.take(n as int) =~= accounts@);
        }
    }

    /// Admin: takes accounts off the allowlist and deauthorizes them.
    pub fn disallow(env: &mut Env, accounts: Vec<Address>)
        requires
            old(env)@.admin is Some,
            old(env)@.sac is Some,
        ensures
            final(env)@ == after_disallow(old(env)@, accounts@),
    {
        require_admin(env);
        let sac = sac(env);
        let ghost start = env@;
        let n = accounts.len();
        for i in 0..n
            invariant
                n == accounts@.len(),
                env@ == for_each(start, accounts@.take(i as int), disallow_step()),
                env@.sac == Some(sac),
        {
            let account = accounts[i];
            storage::set_allowed(env, &account, false);
            sac_set_authorized(env, &sac, &account, false);
            events::disallowed(env, &account);
            proof {
                assert(accounts@.take(i + 1).drop_last() =~= accounts@.take(i as int));
            }
        }
        proof {
            assert(accounts@.take(n as int) =~= accounts@);
        }
    }

    // --- supply controls (the issuer must be able to mint / claw back) ------

    /// Admin: mints `amount` of the asset to `to`.
    pub fn mint(env: &mut Env, to: Address, amount: i128)
        requires
            old(env)@.admin is Some,
            old(env)@.sac is Some,
        ensures
            final(env)@ == after_mint(old(env)@, to, amount),
    {
        require_admin(env);
        let sac = sac(env);
        env.record(HostCall::Mint { sac, to, amount });
    }

    /// Admin: claws back `amount` of the asset from `from`.
    pub fn clawback(env: &mut Env, from: Address, amount: i128)
        requires
            old(env)@.admin is Some,
            old(env)@.sac is Some,
        ensures
            final(env)@ == after_clawback(old(env)@, from, amount),
    {
        require_admin(env);
        let sac = sac(env);
        env.record(HostCall::Clawback { sac, from, amount });
    }

    // --- pause -------------------------------------------------------------

    /// Admin: pauses authorization.
    pub fn pause(env: &mut Env)
        requires
            old(env)@.admin is Some,
        ensures
            final(env)@ == after_pause(old(env)@),
    {
        require_admin(env);
        storage::set_paused(env, true);
        events::paused(env);
    }

    /// Admin: resumes authorization.
    pub fn unpause(env: &mut Env)
        requires
            old(env)@.admin is Some,
        ensures
            final(env)@ == after_unpause(old(env)@),
    {
        require_admin(env);
        storage::set_paused(env, false);
        events::unpaused(env);
    }

    // --- admin interface ---------------------------------------------------

    /// The admin.
    pub fn admin(env: &Env) -> (admin: Address)
        requires
            env@.admin is Some,
        ensures
            admin == env@.admin.unwrap(),
    {
        storage::get_admin(env)
    }

    /// Admin: hands the admin role to `new_admin`.
    pub fn set_admin(env: &mut Env, new_admin: Address)
        requires
            old(env)@.admin is Some,
        ensures
            final(env)@ == after_change_admin(old(env)@, new_admin),
    {
        require_admin(env);
        storage::set_admin(env, &new_admin);
    }

    /// Admin: replaces the contract's code with the Wasm of hash `wasm_hash`.
    pub fn upgrade(env: &mut Env, wasm_hash: Bytes32)
        requires
            old(env)@.admin is Some,
        ensures
            final(env)@ == after_upgrade(old(env)@, wasm_hash),
    {
        require_admin(env);
        env.record(HostCall::UpdateCurrentContractWasm(wasm_hash));
    }

    // --- views -------------------------------------------------------------

    /// The policy.
    pub fn policy(env: &Env) -> (policy: Policy)
        requires
            env@.policy is Some,
        ensures
            policy == env@.policy.unwrap(),
    {
        storage::get_policy(env)
    }

    /// The asset contract this authorizer administers.
    pub fn sac_address(env: &Env) -> (sac: Address)
        requires
            env@.sac is Some,
        ensures
            sac == env@.sac.unwrap(),
    {
        storage::get_sac(env)
    }

    /// Whether `account` is on the denylist.
    pub fn is_banned(env: &Env, account: Address) -> (banned: bool)
        ensures
            banned == env@.banned_flag(account),
    {
        storage::is_banned(env, &account)
    }

    /// Whether `account` is on the allowlist.
    pub fn is_allowed(env: &Env, account: Address) -> (allowed: bool)
        ensures
            allowed == env@.allowed_flag(account),
    {
        storage::is_allowed(env, &account)
    }

    /// Whether authorization is paused.
    pub fn is_paused(env: &Env) -> (paused: bool)
        ensures
            paused == env@.paused_flag(),
    {
        storage::is_paused(env)
    }
}

} // verus!
