//! The ledger that the recorded storage writes produce, and its agreement with
//! the storage the operations are stated over: replaying the storage calls an
//! operation records, on a ledger that read as the storage before, gives a
//! ledger that reads as the storage after.
use vstd::prelude::*;

use crate::address::Address;
use crate::authorizer::{
    after_allow, after_ban, after_change_admin, after_unfreeze, authorize_decision, after_authorize, after_construct, after_require_admin, after_sac_set_authorized, allow_one, allow_step, ban_one,
    ban_step, disallow_one, disallow_step, for_each, unban_one, unban_step, unfreeze_one, unfreeze_step,
};
use crate::events::{after_publish, Event};
use crate::laws::{
    apply, law_frozen_account_stays_blocked, law_list_operations_as_sets, law_set_admin_hands_over,
    law_unfreeze_reauthorizes, run, Operation,
};
use crate::env::{DataKey, Durability, EnvView, HostCall, Val};
use crate::policy::Policy;
use crate::storage::{
    after_set_admin, after_set_allowed, after_set_banned, after_set_paused, after_set_policy, after_set_sac,
};

verus! {

/// A contract's ledger entries, by durability and key.
pub type Ledger = Map<(Durability, DataKey), Val>;

/// The entry under `key`, if any.
pub open spec fn lookup(ledger: Ledger, durability: Durability, key: DataKey) -> Option<Val> {
    if ledger.dom().contains((durability, key)) {
        Some(ledger[(durability, key)])
    } else {
        None
    }
}

/// `ledger` once `call` is made: a storage write stores, a removal removes,
/// any other call leaves the entries alone.
pub open spec fn apply_call(ledger: Ledger, call: HostCall) -> Ledger {
    match call {
        HostCall::StorageSet { durability, key, value } => ledger.insert((durability, key), value),
        HostCall::StorageRemove { durability, key } => ledger.remove((durability, key)),
        _ => ledger,
    }
}

/// `ledger` once `calls` are made in order.
pub open spec fn replay(ledger: Ledger, calls: Seq<HostCall>) -> Ledger
    decreases calls.len(),
{
    if calls.len() == 0 {
        ledger
    } else {
        apply_call(replay(ledger, calls.drop_last()), calls.last())
    }
}

/// The address stored under `key`, as an address-typed read gives it.
pub open spec fn read_address(ledger: Ledger, durability: Durability, key: DataKey) -> Option<Address> {
    match lookup(ledger, durability, key) {
        Some(Val::Address(a)) => Some(a),
        _ => None,
    }
}

/// The policy stored under `key`, as a policy-typed read gives it.
pub open spec fn read_policy(ledger: Ledger, durability: Durability, key: DataKey) -> Option<Policy> {
    match lookup(ledger, durability, key) {
        Some(Val::Policy(p)) => Some(p),
        _ => None,
    }
}

/// The flag stored under `key`, as a bool-typed read gives it.
pub open spec fn read_bool(ledger: Ledger, durability: Durability, key: DataKey) -> Option<bool> {
    match lookup(ledger, durability, key) {
        Some(Val::Bool(b)) => Some(b),
        _ => None,
    }
}

/// `ledger` reads as the storage of `s`: the configuration entries hold its
/// values, and an account is on a list exactly when its entry reads `true`.
pub open spec fn reads_as(ledger: Ledger, s: EnvView) -> bool {
    &&& s.admin == read_address(ledger, Durability::Instance, DataKey::Admin)
    &&& s.sac == read_address(ledger, Durability::Instance, DataKey::Sac)
    &&& s.policy == read_policy(ledger, Durability::Instance, DataKey::Policy)
    &&& s.paused == read_bool(ledger, Durability::Instance, DataKey::Paused)
    &&& forall|a: Address|
        #![trigger s.banned.contains(a)]
        #![trigger read_bool(ledger, Durability::Persistent, DataKey::Banned(a))]
        s.banned.contains(a) == (read_bool(ledger, Durability::Persistent, DataKey::Banned(a)) == Some(true))
    &&& forall|a: Address|
        #![trigger s.allowed.contains(a)]
        #![trigger read_bool(ledger, Durability::Persistent, DataKey::Allowed(a))]
        s.allowed.contains(a) == (read_bool(ledger, Durability::Persistent, DataKey::Allowed(a)) == Some(true))
}

/// The calls of `t` from index `n` on, made on `ledger`, leave a ledger that
/// reads as the storage of `t`.
pub open spec fn consistent(ledger: Ledger, n: int, t: EnvView) -> bool {
    0 <= n <= t.calls.len() && reads_as(replay(ledger, t.calls.subrange(n, t.calls.len() as int)), t)
}

proof fn lemma_replay_record(ledger: Ledger, n: int, t: EnvView, c: HostCall)
    requires
        0 <= n <= t.calls.len(),
    ensures
        replay(ledger, t.record(c).calls.subrange(n, t.calls.len() as int + 1)) == apply_call(
            replay(ledger, t.calls.subrange(n, t.calls.len() as int)),
            c,
        ),
{
    let before = t.calls.subrange(n, t.calls.len() as int);
    assert(t.record(c).calls.subrange(n, t.calls.len() as int + 1) =~= before.push(c));
    assert(before.push(c).drop_last() =~= before);
}

/// A call that is no storage write keeps agreement.
proof fn lemma_record_other(ledger: Ledger, n: int, t: EnvView, c: HostCall)
    requires
        consistent(ledger, n, t),
        !(c is StorageSet),
        !(c is StorageRemove),
    ensures
        consistent(ledger, n, t.record(c)),
{
    lemma_replay_record(ledger, n, t, c);
}

proof fn lemma_set_banned(ledger: Ledger, n: int, t: EnvView, account: Address, banned: bool)
    requires
        consistent(ledger, n, t),
    ensures
        consistent(ledger, n, after_set_banned(t, account, banned)),
{
    let c = after_set_banned(t, account, banned).calls.last();
    assert(after_set_banned(t, account, banned).calls =~= t.record(c).calls);
    lemma_replay_record(ledger, n, t, c);
    let l = replay(ledger, t.calls.subrange(n, t.calls.len() as int));
    let u = after_set_banned(t, account, banned);
    let m = apply_call(l, c);
    assert forall|a: Address| u.banned.contains(a) == (read_bool(m, Durability::Persistent, DataKey::Banned(a)) == Some(true)) by {
        if a != account {
            assert(DataKey::Banned(a) != DataKey::Banned(account));
            assert(read_bool(m, Durability::Persistent, DataKey::Banned(a)) == read_bool(l, Durability::Persistent, DataKey::Banned(a)));
        }
    }
    assert forall|a: Address| u.allowed.contains(a) == (read_bool(m, Durability::Persistent, DataKey::Allowed(a)) == Some(true)) by {
        assert(read_bool(m, Durability::Persistent, DataKey::Allowed(a)) == read_bool(l, Durability::Persistent, DataKey::Allowed(a)));
    }
}

proof fn lemma_set_allowed(ledger: Ledger, n: int, t: EnvView, account: Address, allowed: bool)
    requires
        consistent(ledger, n, t),
    ensures
        consistent(ledger, n, after_set_allowed(t, account, allowed)),
{
    let c = after_set_allowed(t, account, allowed).calls.last();
    assert(after_set_allowed(t, account, allowed).calls =~= t.record(c).calls);
    lemma_replay_record(ledger, n, t, c);
    let l = replay(ledger, t.calls.subrange(n, t.calls.len() as int));
    let u = after_set_allowed(t, account, allowed);
    let m = apply_call(l, c);
    assert forall|a: Address| u.allowed.contains(a) == (read_bool(m, Durability::Persistent, DataKey::Allowed(a)) == Some(true)) by {
        if a != account {
            assert(DataKey::Allowed(a) != DataKey::Allowed(account));
            assert(read_bool(m, Durability::Persistent, DataKey::Allowed(a)) == read_bool(l, Durability::Persistent, DataKey::Allowed(a)));
        }
    }
    assert forall|a: Address| u.banned.contains(a) == (read_bool(m, Durability::Persistent, DataKey::Banned(a)) == Some(true)) by {
        assert(read_bool(m, Durability::Persistent, DataKey::Banned(a)) == read_bool(l, Durability::Persistent, DataKey::Banned(a)));
    }
}

proof fn lemma_set_config(ledger: Ledger, n: int, t: EnvView, admin: Address, sac: Address, policy: Policy, paused: bool)
    requires
        consistent(ledger, n, t),
    ensures
        consistent(ledger, n, after_set_admin(t, admin)),
        consistent(ledger, n, after_set_sac(t, sac)),
        consistent(ledger, n, after_set_policy(t, policy)),
        consistent(ledger, n, after_set_paused(t, paused)),
{
    let l = replay(ledger, t.calls.subrange(n, t.calls.len() as int));
    let u1 = after_set_admin(t, admin);
    assert(u1.calls =~= t.record(u1.calls.last()).calls);
    lemma_replay_record(ledger, n, t, u1.calls.last());
    let u2 = after_set_sac(t, sac);
    assert(u2.calls =~= t.record(u2.calls.last()).calls);
    lemma_replay_record(ledger, n, t, u2.calls.last());
    let u3 = after_set_policy(t, policy);
    assert(u3.calls =~= t.record(u3.calls.last()).calls);
    lemma_replay_record(ledger, n, t, u3.calls.last());
    let u4 = after_set_paused(t, paused);
    assert(u4.calls =~= t.record(u4.calls.last()).calls);
    lemma_replay_record(ledger, n, t, u4.calls.last());
    assert forall|a: Address|
        read_bool(apply_call(l, u1.calls.last()), Durability::Persistent, DataKey::Banned(a)) == read_bool(l, Durability::Persistent, DataKey::Banned(a))
        && read_bool(apply_call(l, u1.calls.last()), Durability::Persistent, DataKey::Allowed(a)) == read_bool(l, Durability::Persistent, DataKey::Allowed(a))
        && read_bool(apply_call(l, u2.calls.last()), Durability::Persistent, DataKey::Banned(a)) == read_bool(l, Durability::Persistent, DataKey::Banned(a))
        && read_bool(apply_call(l, u2.calls.last()), Durability::Persistent, DataKey::Allowed(a)) == read_bool(l, Durability::Persistent, DataKey::Allowed(a))
        && read_bool(apply_call(l, u3.calls.last()), Durability::Persistent, DataKey::Banned(a)) == read_bool(l, Durability::Persistent, DataKey::Banned(a))
        && read_bool(apply_call(l, u3.calls.last()), Durability::Persistent, DataKey::Allowed(a)) == read_bool(l, Durability::Persistent, DataKey::Allowed(a))
        && read_bool(apply_call(l, u4.calls.last()), Durability::Persistent, DataKey::Banned(a)) == read_bool(l, Durability::Persistent, DataKey::Banned(a))
        && read_bool(apply_call(l, u4.calls.last()), Durability::Persistent, DataKey::Allowed(a)) == read_bool(l, Durability::Persistent, DataKey::Allowed(a)) by {
    }
}

proof fn lemma_publish(ledger: Ledger, n: int, t: EnvView, e: Event)
    requires
        consistent(ledger, n, t),
    ensures
        consistent(ledger, n, after_publish(t, e)),
{
    lemma_record_other(ledger, n, t, HostCall::Publish(e));
}

proof fn lemma_sac_set_authorized(ledger: Ledger, n: int, t: EnvView, account: Address, authorize: bool)
    requires
        consistent(ledger, n, t),
    ensures
        consistent(ledger, n, after_sac_set_authorized(t, account, authorize)),
{
    lemma_record_other(ledger, n, t, HostCall::SetAuthorized { sac: t.sac.unwrap(), id: account, authorize });
}

proof fn lemma_require_admin(ledger: Ledger, n: int, t: EnvView)
    requires
        consistent(ledger, n, t),
    ensures
        consistent(ledger, n, after_require_admin(t)),
{
    lemma_record_other(ledger, n, t, HostCall::RequireAuth(t.admin.unwrap()));
}

/// `step` keeps the ledger agreeing with the storage.
spec fn keeps_consistent(step: spec_fn(EnvView, Address) -> EnvView) -> bool {
    forall|ledger: Ledger, n: int, t: EnvView, a: Address|
        consistent(ledger, n, t) ==> #[trigger] consistent(ledger, n, step(t, a))
}

proof fn lemma_steps_keep_consistent()
    ensures
        keeps_consistent(ban_step()),
        keeps_consistent(unban_step()),
        keeps_consistent(unfreeze_step()),
        keeps_consistent(allow_step()),
        keeps_consistent(disallow_step()),
{
    assert forall|ledger: Ledger, n: int, t: EnvView, a: Address| consistent(ledger, n, t) implies
        #[trigger] consistent(ledger, n, ban_step()(t, a)) by {
        lemma_set_banned(ledger, n, t, a, true);
        let t1 = after_set_banned(t, a, true);
        lemma_sac_set_authorized(ledger, n, t1, a, false);
        lemma_publish(ledger, n, after_sac_set_authorized(t1, a, false), Event::Banned(crate::events::Banned { account: a }));
    }
    assert forall|ledger: Ledger, n: int, t: EnvView, a: Address| consistent(ledger, n, t) implies
        #[trigger] consistent(ledger, n, unban_step()(t, a)) by {
        lemma_set_banned(ledger, n, t, a, false);
        lemma_publish(ledger, n, after_set_banned(t, a, false), Event::Unbanned(crate::events::Unbanned { account: a }));
    }
    assert forall|ledger: Ledger, n: int, t: EnvView, a: Address| consistent(ledger, n, t) implies
        #[trigger] consistent(ledger, n, unfreeze_step()(t, a)) by {
        lemma_set_banned(ledger, n, t, a, false);
        let t1 = after_set_banned(t, a, false);
        lemma_sac_set_authorized(ledger, n, t1, a, true);
        let t2 = after_sac_set_authorized(t1, a, true);
        lemma_publish(ledger, n, t2, Event::Unbanned(crate::events::Unbanned { account: a }));
        lemma_publish(ledger, n, after_publish(t2, Event::Unbanned(crate::events::Unbanned { account: a })), Event::Authorized(crate::events::Authorized { account: a }));
    }
    assert forall|ledger: Ledger, n: int, t: EnvView, a: Address| consistent(ledger, n, t) implies
        #[trigger] consistent(ledger, n, allow_step()(t, a)) by {
        lemma_set_allowed(ledger, n, t, a, true);
        lemma_publish(ledger, n, after_set_allowed(t, a, true), Event::Allowed(crate::events::Allowed { account: a }));
    }
    assert forall|ledger: Ledger, n: int, t: EnvView, a: Address| consistent(ledger, n, t) implies
        #[trigger] consistent(ledger, n, disallow_step()(t, a)) by {
        lemma_set_allowed(ledger, n, t, a, false);
        let t1 = after_set_allowed(t, a, false);
        lemma_sac_set_authorized(ledger, n, t1, a, false);
        lemma_publish(ledger, n, after_sac_set_authorized(t1, a, false), Event::Disallowed(crate::events::Disallowed { account: a }));
    }
}

proof fn lemma_for_each_consistent(ledger: Ledger, n: int, t: EnvView, accounts: Seq<Address>, step: spec_fn(EnvView, Address) -> EnvView)
    requires
        keeps_consistent(step),
        consistent(ledger, n, t),
    ensures
        consistent(ledger, n, for_each(t, accounts, step)),
    decreases accounts.len(),
{
    if accounts.len() > 0 {
        lemma_for_each_consistent(ledger, n, t, accounts.drop_last(), step);
        let mid = for_each(t, accounts.drop_last(), step);
        assert(consistent(ledger, n, step(mid, accounts.last())));
    }
}

proof fn lemma_apply_consistent(ledger: Ledger, n: int, t: EnvView, op: Operation)
    requires
        consistent(ledger, n, t),
    ensures
        consistent(ledger, n, apply(t, op)),
{
    lemma_steps_keep_consistent();
    lemma_require_admin(ledger, n, t);
    let start = after_require_admin(t);
    match op {
        Operation::AuthorizeTrustline(a) => {
            if after_authorize(t, a) != t {
                lemma_sac_set_authorized(ledger, n, t, a, true);
                lemma_publish(ledger, n, after_sac_set_authorized(t, a, true), Event::Authorized(crate::events::Authorized { account: a }));
            }
        },
        Operation::DeauthorizeTrustline(a) => {
            lemma_sac_set_authorized(ledger, n, start, a, false);
            lemma_publish(ledger, n, after_sac_set_authorized(start, a, false), Event::Deauthorized(crate::events::Deauthorized { account: a }));
        },
        Operation::Ban(accounts) | Operation::Freeze(accounts) => {
            lemma_for_each_consistent(ledger, n, start, accounts, ban_step());
        },
        Operation::Unban(accounts) => {
            lemma_for_each_consistent(ledger, n, start, accounts, unban_step());
        },
        Operation::Unfreeze(accounts) => {
            lemma_for_each_consistent(ledger, n, start, accounts, unfreeze_step());
        },
        Operation::Allow(accounts) => {
            lemma_for_each_consistent(ledger, n, start, accounts, allow_step());
        },
        Operation::Disallow(accounts) => {
            lemma_for_each_consistent(ledger, n, start, accounts, disallow_step());
        },
        Operation::Mint(to, amount) => {
            lemma_record_other(ledger, n, start, HostCall::Mint { sac: t.sac.unwrap(), to, amount });
        },
        Operation::Clawback(from, amount) => {
            lemma_record_other(ledger, n, start, HostCall::Clawback { sac: t.sac.unwrap(), from, amount });
        },
        Operation::Pause => {
            lemma_set_config(ledger, n, start, t.admin.unwrap(), t.admin.unwrap(), Policy::Denylist, true);
            lemma_publish(ledger, n, after_set_paused(start, true), Event::Paused(crate::events::Paused {}));
        },
        Operation::Unpause => {
            lemma_set_config(ledger, n, start, t.admin.unwrap(), t.admin.unwrap(), Policy::Denylist, false);
            lemma_publish(ledger, n, after_set_paused(start, false), Event::Unpaused(crate::events::Unpaused {}));
        },
        Operation::SetAdmin(new_admin) => {
            lemma_set_config(ledger, n, start, new_admin, new_admin, Policy::Denylist, false);
        },
        Operation::Upgrade(h) => {
            lemma_record_other(ledger, n, start, HostCall::UpdateCurrentContractWasm(h));
        },
    }
}

proof fn lemma_run_consistent(ledger: Ledger, n: int, t: EnvView, ops: Seq<Operation>)
    requires
        consistent(ledger, n, t),
    ensures
        consistent(ledger, n, run(t, ops)),
    decreases ops.len(),
{
    if ops.len() > 0 {
        lemma_run_consistent(ledger, n, t, ops.drop_last());
        lemma_apply_consistent(ledger, n, run(t, ops.drop_last()), ops.last());
    }
}

/// The calls made from `s` on, on a ledger that read as `s`.
pub open spec fn replay_since(ledger: Ledger, s: EnvView, u: EnvView) -> Ledger {
    replay(ledger, u.calls.subrange(s.calls.len() as int, u.calls.len() as int))
}

/// Storage writes agree with the storage: over any sequence of operations,
/// the storage calls they record, made on a ledger that read as the storage
/// before, leave a ledger that reads as the storage after. So what the
/// operations say of the admin, asset contract, policy, pause flag and lists is
/// what the ledger holds once the recorded calls are made.
pub proof fn law_recorded_writes_match_storage(ledger: Ledger, s: EnvView, ops: Seq<Operation>)
    requires
        reads_as(ledger, s),
    ensures
        s.calls.len() <= run(s, ops).calls.len(),
        reads_as(replay_since(ledger, s, run(s, ops)), run(s, ops)),
{
    assert(s.calls.subrange(s.calls.len() as int, s.calls.len() as int) =~= Seq::<HostCall>::empty());
    lemma_run_consistent(ledger, s.calls.len() as int, s, ops);
}

/// Construction writes the configuration to the ledger: made on a ledger that
/// read as `s`, its calls leave one that reads as the constructed storage, with
/// the given admin, asset contract and policy, and the pause flag `false`.
pub proof fn law_construction_writes_configuration(ledger: Ledger, s: EnvView, admin: Address, sac: Address, policy: Policy)
    requires
        reads_as(ledger, s),
    ensures
        reads_as(replay_since(ledger, s, after_construct(s, admin, sac, policy)), after_construct(s, admin, sac, policy)),
        read_address(replay_since(ledger, s, after_construct(s, admin, sac, policy)), Durability::Instance, DataKey::Admin)
            == Some(admin),
        read_address(replay_since(ledger, s, after_construct(s, admin, sac, policy)), Durability::Instance, DataKey::Sac)
            == Some(sac),
        read_policy(replay_since(ledger, s, after_construct(s, admin, sac, policy)), Durability::Instance, DataKey::Policy)
            == Some(policy),
        read_bool(replay_since(ledger, s, after_construct(s, admin, sac, policy)), Durability::Instance, DataKey::Paused)
            == Some(false),
{
    let n = s.calls.len() as int;
    assert(s.calls.subrange(n, n) =~= Seq::<HostCall>::empty());
    lemma_set_config(ledger, n, s, admin, sac, policy, false);
    let t1 = after_set_admin(s, admin);
    lemma_set_config(ledger, n, t1, admin, sac, policy, false);
    let t2 = after_set_sac(t1, sac);
    lemma_set_config(ledger, n, t2, admin, sac, policy, false);
    let t3 = after_set_policy(t2, policy);
    lemma_set_config(ledger, n, t3, admin, sac, policy, false);
}

/// The ledger after one operation reads as the storage after it.
proof fn lemma_operation_reads(ledger: Ledger, s: EnvView, op: Operation)
    requires
        reads_as(ledger, s),
    ensures
        s.calls.len() <= apply(s, op).calls.len(),
        reads_as(replay_since(ledger, s, apply(s, op)), apply(s, op)),
{
    assert(s.calls.subrange(s.calls.len() as int, s.calls.len() as int) =~= Seq::<HostCall>::empty());
    lemma_apply_consistent(ledger, s.calls.len() as int, s, op);
}

/// An admitted authorization request appends exactly the asset contract's
/// `set_authorized(account, true)` and the `Authorized` event, and writes
/// nothing to the ledger; a refused one appends nothing.
pub proof fn law_authorize_calls(ledger: Ledger, s: EnvView, account: Address)
    ensures
        authorize_decision(s, account) is Ok ==> after_authorize(s, account).calls == s.calls + seq![
            HostCall::SetAuthorized { sac: s.sac.unwrap(), id: account, authorize: true },
            HostCall::Publish(Event::Authorized(crate::events::Authorized { account })),
        ],
        authorize_decision(s, account) is Err ==> after_authorize(s, account).calls == s.calls,
        s.calls.len() <= after_authorize(s, account).calls.len(),
        replay_since(ledger, s, after_authorize(s, account)) == ledger,
{
    let u = after_authorize(s, account);
    let n = s.calls.len() as int;
    if authorize_decision(s, account) is Ok {
        let tail = u.calls.subrange(n, u.calls.len() as int);
        assert(u.calls =~= s.calls + seq![
            HostCall::SetAuthorized { sac: s.sac.unwrap(), id: account, authorize: true },
            HostCall::Publish(Event::Authorized(crate::events::Authorized { account })),
        ]);
        assert(tail.drop_last().drop_last() =~= Seq::<HostCall>::empty());
        assert(replay(ledger, tail.drop_last()) == apply_call(replay(ledger, tail.drop_last().drop_last()), tail.drop_last().last()));
    } else {
        assert(u.calls.subrange(n, n) =~= Seq::<HostCall>::empty());
    }
}

/// Banning writes `true` under the denylist entry of every listed account:
/// made on a ledger that read as the storage before, its calls leave a ledger
/// that reads each of them as banned.
pub proof fn law_ban_writes_ledger(ledger: Ledger, s: EnvView, accounts: Seq<Address>, account: Address)
    requires
        reads_as(ledger, s),
        s.admin is Some,
        s.sac is Some,
        accounts.contains(account),
    ensures
        read_bool(replay_since(ledger, s, after_ban(s, accounts)), Durability::Persistent, DataKey::Banned(account))
            == Some(true),
{
    lemma_operation_reads(ledger, s, Operation::Ban(accounts));
    law_frozen_account_stays_blocked(s, accounts, account);
}

/// Unfreezing removes the denylist entry of every listed account: the
/// resulting ledger reads none of them as banned.
pub proof fn law_unfreeze_clears_ledger(ledger: Ledger, s: EnvView, accounts: Seq<Address>, account: Address)
    requires
        reads_as(ledger, s),
        s.admin is Some,
        s.sac is Some,
        accounts.contains(account),
    ensures
        read_bool(replay_since(ledger, s, after_unfreeze(s, accounts)), Durability::Persistent, DataKey::Banned(account))
            != Some(true),
{
    lemma_operation_reads(ledger, s, Operation::Unfreeze(accounts));
    law_unfreeze_reauthorizes(s, accounts, account);
}

/// Allowing writes `true` under the allowlist entry of every listed account:
/// the resulting ledger reads each of them as allowed.
pub proof fn law_allow_writes_ledger(ledger: Ledger, s: EnvView, accounts: Seq<Address>, account: Address)
    requires
        reads_as(ledger, s),
        accounts.contains(account),
    ensures
        read_bool(replay_since(ledger, s, after_allow(s, accounts)), Durability::Persistent, DataKey::Allowed(account))
            == Some(true),
{
    lemma_operation_reads(ledger, s, Operation::Allow(accounts));
    law_list_operations_as_sets(s, accounts);
    assert(accounts.to_set().contains(account));
}

/// Handing over the admin role writes the new admin to the ledger.
pub proof fn law_set_admin_writes_ledger(ledger: Ledger, s: EnvView, new_admin: Address)
    requires
        reads_as(ledger, s),
        s.admin is Some,
    ensures
        read_address(replay_since(ledger, s, after_change_admin(s, new_admin)), Durability::Instance, DataKey::Admin)
            == Some(new_admin),
{
    lemma_operation_reads(ledger, s, Operation::SetAdmin(new_admin));
    law_set_admin_hands_over(s, new_admin);
}

} // verus!
