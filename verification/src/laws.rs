//! What holds of the authorizer and of onboarding across operations.
use vstd::prelude::*;

use crate::address::Address;
use crate::authorizer::{
    after_allow, after_authorize, after_ban, after_change_admin, after_clawback, after_construct, after_deauthorize,
    after_disallow, after_mint, after_pause, after_require_admin, after_unban, after_unfreeze, after_unpause,
    after_upgrade, allow_one, allow_step, authorize_decision, ban_one, ban_step, disallow_one, disallow_step, for_each,
    policy_decision, unban_one, unban_step, unfreeze_one, unfreeze_step, Error,
};
use crate::address::Bytes32;
use crate::onboard::{self, onboarding_next, onboarding_start, OnboardCall, Onboarding, Stage, Step};
use crate::storage::{after_set_allowed, after_set_banned};
use crate::env::{last_authorization, DataKey, Durability, EnvView, HostCall, Val};
use crate::events::{self, Event};
use crate::policy::Policy;

verus! {

// --- how a sequence of per-account steps acts -------------------------------

/// The effect of a step on a membership set: add the account (`Some(true)`),
/// take it out (`Some(false)`), or leave the set alone (`None`).
spec fn flag_effect(set: Set<Address>, account: Address, mark: Option<bool>) -> Set<Address> {
    match mark {
        Some(true) => set.insert(account),
        Some(false) => set.remove(account),
        None => set,
    }
}

/// Membership in a set after a sequence of steps of effect `mark` over `accounts`.
spec fn flag_after(member: bool, in_accounts: bool, mark: Option<bool>) -> bool {
    match mark {
        Some(true) => member || in_accounts,
        Some(false) => member && !in_accounts,
        None => member,
    }
}

/// `step` leaves the contract configuration alone.
spec fn keeps_config(step: spec_fn(EnvView, Address) -> EnvView) -> bool {
    forall|t: EnvView, a: Address|
        {
            let u = #[trigger] step(t, a);
            &&& u.admin == t.admin
            &&& u.sac == t.sac
            &&& u.policy == t.policy
            &&& u.paused == t.paused
        }
}

/// `call` is no call into an asset contract other than `sac`.
pub open spec fn targets(call: HostCall, sac: Address) -> bool {
    match call {
        HostCall::SetAuthorized { sac: target, .. } => target == sac,
        HostCall::Mint { sac: target, .. } => target == sac,
        HostCall::Clawback { sac: target, .. } => target == sac,
        _ => true,
    }
}

/// `after` is `before` with calls appended, none of them into an asset
/// contract other than `sac`.
pub open spec fn extends_toward(before: Seq<HostCall>, after: Seq<HostCall>, sac: Address) -> bool {
    &&& before.len() <= after.len()
    &&& after.subrange(0, before.len() as int) == before
    &&& forall|i: int| before.len() <= i < after.len() ==> targets(#[trigger] after[i], sac)
}

/// `step` only appends host calls, and calls no asset contract but the stored one.
spec fn appends_to_sac(step: spec_fn(EnvView, Address) -> EnvView) -> bool {
    forall|t: EnvView, a: Address| extends_toward(t.calls, (#[trigger] step(t, a)).calls, t.sac.unwrap())
}

proof fn lemma_extends_trans(a: Seq<HostCall>, b: Seq<HostCall>, c: Seq<HostCall>, sac: Address)
    requires
        extends_toward(a, b, sac),
        extends_toward(b, c, sac),
    ensures
        extends_toward(a, c, sac),
{
    assert forall|i: int| 0 <= i < a.len() implies c[i] == a[i] by {
        assert(c.subrange(0, b.len() as int)[i] == b[i]);
        assert(b.subrange(0, a.len() as int)[i] == a[i]);
    }
    assert(c.subrange(0, a.len() as int) =~= a);
    assert forall|i: int| a.len() <= i < c.len() implies targets(#[trigger] c[i], sac) by {
        if i < b.len() {
            assert(c.subrange(0, b.len() as int)[i] == b[i]);
            assert(targets(b[i], sac));
        }
    }
}

proof fn lemma_last_authorization_push(calls: Seq<HostCall>, c: HostCall, sac: Address, b: Address)
    ensures
        last_authorization(calls.push(c), sac, b) == (match c {
            HostCall::SetAuthorized { sac: target, id, authorize } => if target == sac && id == b {
                Some(authorize)
            } else {
                last_authorization(calls, sac, b)
            },
            _ => last_authorization(calls, sac, b),
        }),
{
    assert(calls.push(c).drop_last() =~= calls);
}

proof fn lemma_for_each_config(s: EnvView, accounts: Seq<Address>, step: spec_fn(EnvView, Address) -> EnvView)
    requires
        keeps_config(step),
    ensures
        for_each(s, accounts, step).admin == s.admin,
        for_each(s, accounts, step).sac == s.sac,
        for_each(s, accounts, step).policy == s.policy,
        for_each(s, accounts, step).paused == s.paused,
    decreases accounts.len(),
{
    if accounts.len() > 0 {
        lemma_for_each_config(s, accounts.drop_last(), step);
        let _ = step(for_each(s, accounts.drop_last(), step), accounts.last());
    }
}

proof fn lemma_for_each_extends(s: EnvView, accounts: Seq<Address>, step: spec_fn(EnvView, Address) -> EnvView)
    requires
        keeps_config(step),
        appends_to_sac(step),
    ensures
        extends_toward(s.calls, for_each(s, accounts, step).calls, s.sac.unwrap()),
    decreases accounts.len(),
{
    if accounts.len() > 0 {
        lemma_for_each_extends(s, accounts.drop_last(), step);
        lemma_for_each_config(s, accounts.drop_last(), step);
        let mid = for_each(s, accounts.drop_last(), step);
        let end = step(mid, accounts.last());
        lemma_extends_trans(s.calls, mid.calls, end.calls, s.sac.unwrap());
    } else {
        assert(s.calls.subrange(0, s.calls.len() as int) =~= s.calls);
    }
}

/// The denylist of a view.
spec fn banned_of() -> spec_fn(EnvView) -> Set<Address> {
    |v: EnvView| v.banned
}

/// The allowlist of a view.
spec fn allowed_of() -> spec_fn(EnvView) -> Set<Address> {
    |v: EnvView| v.allowed
}

proof fn lemma_for_each_flags(
    s: EnvView,
    accounts: Seq<Address>,
    step: spec_fn(EnvView, Address) -> EnvView,
    list: spec_fn(EnvView) -> Set<Address>,
    mark: Option<bool>,
    b: Address,
)
    requires
        forall|t: EnvView, a: Address| list(#[trigger] step(t, a)) == flag_effect(list(t), a, mark),
    ensures
        list(for_each(s, accounts, step)).contains(b) == flag_after(list(s).contains(b), accounts.contains(b), mark),
    decreases accounts.len(),
{
    if accounts.len() > 0 {
        lemma_for_each_flags(s, accounts.drop_last(), step, list, mark, b);
        let _ = step(for_each(s, accounts.drop_last(), step), accounts.last());
        lemma_contains_drop_last(accounts, b);
    }
}

/// The authorization that `step` sets for its account (`None`: it sets none),
/// on the stored asset contract.
spec fn sets_authorization(step: spec_fn(EnvView, Address) -> EnvView, auth: Option<bool>) -> bool {
    forall|t: EnvView, a: Address, c: Address, sac: Address|
        t.sac == Some(sac) ==> #[trigger] last_authorization(step(t, a).calls, sac, c) == (if c == a && auth is Some {
            auth
        } else {
            last_authorization(t.calls, sac, c)
        })
}

proof fn lemma_contains_drop_last(accounts: Seq<Address>, b: Address)
    requires
        accounts.len() > 0,
    ensures
        accounts.contains(b) == (accounts.drop_last().contains(b) || accounts.last() == b),
{
    if accounts.contains(b) {
        let i = choose|i: int| 0 <= i < accounts.len() && accounts[i] == b;
        if i < accounts.len() - 1 {
            assert(accounts.drop_last()[i] == b);
        }
    }
    if accounts.drop_last().contains(b) {
        let i = choose|i: int| 0 <= i < accounts.drop_last().len() && accounts.drop_last()[i] == b;
        assert(accounts[i] == b);
    }
}

proof fn lemma_for_each_authorization(
    s: EnvView,
    accounts: Seq<Address>,
    step: spec_fn(EnvView, Address) -> EnvView,
    auth: Option<bool>,
    sac: Address,
    b: Address,
)
    requires
        keeps_config(step),
        sets_authorization(step, auth),
        s.sac == Some(sac),
    ensures
        last_authorization(for_each(s, accounts, step).calls, sac, b) == (if accounts.contains(b) && auth is Some {
            auth
        } else {
            last_authorization(s.calls, sac, b)
        }),
    decreases accounts.len(),
{
    if accounts.len() > 0 {
        lemma_for_each_authorization(s, accounts.drop_last(), step, auth, sac, b);
        lemma_for_each_config(s, accounts.drop_last(), step);
        lemma_contains_drop_last(accounts, b);
        let mid = for_each(s, accounts.drop_last(), step);
        assert(last_authorization(step(mid, accounts.last()).calls, sac, b) == (if b == accounts.last() && auth is Some {
            auth
        } else {
            last_authorization(mid.calls, sac, b)
        }));
    }
}

proof fn lemma_banned_flags(s: EnvView, accounts: Seq<Address>, step: spec_fn(EnvView, Address) -> EnvView, mark: Option<bool>, b: Address)
    requires
        forall|t: EnvView, a: Address| (#[trigger] step(t, a)).banned == flag_effect(t.banned, a, mark),
    ensures
        for_each(s, accounts, step).banned.contains(b) == flag_after(s.banned.contains(b), accounts.contains(b), mark),
{
    lemma_for_each_flags(s, accounts, step, banned_of(), mark, b);
}

proof fn lemma_allowed_flags(s: EnvView, accounts: Seq<Address>, step: spec_fn(EnvView, Address) -> EnvView, mark: Option<bool>, b: Address)
    requires
        forall|t: EnvView, a: Address| (#[trigger] step(t, a)).allowed == flag_effect(t.allowed, a, mark),
    ensures
        for_each(s, accounts, step).allowed.contains(b) == flag_after(s.allowed.contains(b), accounts.contains(b), mark),
{
    lemma_for_each_flags(s, accounts, step, allowed_of(), mark, b);
}

// --- what each per-account step does ----------------------------------------

proof fn lemma_ban_step()
    ensures
        keeps_config(ban_step()),
        appends_to_sac(ban_step()),
        sets_authorization(ban_step(), Some(false)),
        forall|t: EnvView, a: Address| (#[trigger] ban_step()(t, a)).banned == flag_effect(t.banned, a, Some(true)),
        forall|t: EnvView, a: Address| (#[trigger] ban_step()(t, a)).allowed == flag_effect(t.allowed, a, None),
{
    assert forall|t: EnvView, a: Address| extends_toward(t.calls, (#[trigger] ban_step()(t, a)).calls, t.sac.unwrap()) by {
        assert(ban_one(t, a).calls.subrange(0, t.calls.len() as int) =~= t.calls);
        assert(ban_one(t, a).calls.len() == t.calls.len() + 3);
    }
    assert forall|t: EnvView, a: Address, c: Address, sac: Address|
        t.sac == Some(sac) implies #[trigger] last_authorization(ban_step()(t, a).calls, sac, c) == (if c == a {
            Some(false)
        } else {
            last_authorization(t.calls, sac, c)
        }) by {
        let u = ban_one(t, a);
        let c0 = t.calls;
        let c1 = c0.push(u.calls[c0.len() as int]);
        let c2 = c1.push(u.calls[c0.len() as int + 1]);
        assert(u.calls =~= c2.push(u.calls[c0.len() as int + 2]));
        lemma_last_authorization_push(c2, u.calls[c0.len() as int + 2], sac, c);
        lemma_last_authorization_push(c1, u.calls[c0.len() as int + 1], sac, c);
        lemma_last_authorization_push(c0, u.calls[c0.len() as int], sac, c);
    }
}

proof fn lemma_unban_step()
    ensures
        keeps_config(unban_step()),
        appends_to_sac(unban_step()),
        sets_authorization(unban_step(), None),
        forall|t: EnvView, a: Address| (#[trigger] unban_step()(t, a)).banned == flag_effect(t.banned, a, Some(false)),
        forall|t: EnvView, a: Address| (#[trigger] unban_step()(t, a)).allowed == flag_effect(t.allowed, a, None),
{
    assert forall|t: EnvView, a: Address| extends_toward(t.calls, (#[trigger] unban_step()(t, a)).calls, t.sac.unwrap()) by {
        assert(unban_one(t, a).calls.subrange(0, t.calls.len() as int) =~= t.calls);
        assert(unban_one(t, a).calls.len() == t.calls.len() + 2);
    }
    assert forall|t: EnvView, a: Address, c: Address, sac: Address|
        t.sac == Some(sac) implies #[trigger] last_authorization(unban_step()(t, a).calls, sac, c)
            == last_authorization(t.calls, sac, c) by {
        let u = unban_one(t, a);
        let c0 = t.calls;
        let c1 = c0.push(u.calls[c0.len() as int]);
        assert(u.calls =~= c1.push(u.calls[c0.len() as int + 1]));
        lemma_last_authorization_push(c1, u.calls[c0.len() as int + 1], sac, c);
        lemma_last_authorization_push(c0, u.calls[c0.len() as int], sac, c);
    }
}

proof fn lemma_unfreeze_step()
    ensures
        keeps_config(unfreeze_step()),
        appends_to_sac(unfreeze_step()),
        sets_authorization(unfreeze_step(), Some(true)),
        forall|t: EnvView, a: Address| (#[trigger] unfreeze_step()(t, a)).banned == flag_effect(t.banned, a, Some(false)),
        forall|t: EnvView, a: Address| (#[trigger] unfreeze_step()(t, a)).allowed == flag_effect(t.allowed, a, None),
{
    assert forall|t: EnvView, a: Address| extends_toward(t.calls, (#[trigger] unfreeze_step()(t, a)).calls, t.sac.unwrap()) by {
        assert(unfreeze_one(t, a).calls.subrange(0, t.calls.len() as int) =~= t.calls);
        assert(unfreeze_one(t, a).calls.len() == t.calls.len() + 4);
    }
    assert forall|t: EnvView, a: Address, c: Address, sac: Address|
        t.sac == Some(sac) implies #[trigger] last_authorization(unfreeze_step()(t, a).calls, sac, c) == (if c == a {
            Some(true)
        } else {
            last_authorization(t.calls, sac, c)
        }) by {
        let u = unfreeze_one(t, a);
        let c0 = t.calls;
        let c1 = c0.push(u.calls[c0.len() as int]);
        let c2 = c1.push(u.calls[c0.len() as int + 1]);
        let c3 = c2.push(u.calls[c0.len() as int + 2]);
        assert(u.calls =~= c3.push(u.calls[c0.len() as int + 3]));
        lemma_last_authorization_push(c3, u.calls[c0.len() as int + 3], sac, c);
        lemma_last_authorization_push(c2, u.calls[c0.len() as int + 2], sac, c);
        lemma_last_authorization_push(c1, u.calls[c0.len() as int + 1], sac, c);
        lemma_last_authorization_push(c0, u.calls[c0.len() as int], sac, c);
    }
}

proof fn lemma_allow_step()
    ensures
        keeps_config(allow_step()),
        appends_to_sac(allow_step()),
        sets_authorization(allow_step(), None),
        forall|t: EnvView, a: Address| (#[trigger] allow_step()(t, a)).banned == flag_effect(t.banned, a, None),
        forall|t: EnvView, a: Address| (#[trigger] allow_step()(t, a)).allowed == flag_effect(t.allowed, a, Some(true)),
{
    assert forall|t: EnvView, a: Address| extends_toward(t.calls, (#[trigger] allow_step()(t, a)).calls, t.sac.unwrap()) by {
        assert(allow_one(t, a).calls.subrange(0, t.calls.len() as int) =~= t.calls);
        assert(allow_one(t, a).calls.len() == t.calls.len() + 2);
    }
    assert forall|t: EnvView, a: Address, c: Address, sac: Address|
        t.sac == Some(sac) implies #[trigger] last_authorization(allow_step()(t, a).calls, sac, c)
            == last_authorization(t.calls, sac, c) by {
        let u = allow_one(t, a);
        let c0 = t.calls;
        let c1 = c0.push(u.calls[c0.len() as int]);
        assert(u.calls =~= c1.push(u.calls[c0.len() as int + 1]));
        lemma_last_authorization_push(c1, u.calls[c0.len() as int + 1], sac, c);
        lemma_last_authorization_push(c0, u.calls[c0.len() as int], sac, c);
    }
}

proof fn lemma_disallow_step()
    ensures
        keeps_config(disallow_step()),
        appends_to_sac(disallow_step()),
        sets_authorization(disallow_step(), Some(false)),
        forall|t: EnvView, a: Address| (#[trigger] disallow_step()(t, a)).banned == flag_effect(t.banned, a, None),
        forall|t: EnvView, a: Address| (#[trigger] disallow_step()(t, a)).allowed == flag_effect(t.allowed, a, Some(false)),
{
    assert forall|t: EnvView, a: Address| extends_toward(t.calls, (#[trigger] disallow_step()(t, a)).calls, t.sac.unwrap()) by {
        assert(disallow_one(t, a).calls.subrange(0, t.calls.len() as int) =~= t.calls);
        assert(disallow_one(t, a).calls.len() == t.calls.len() + 3);
    }
    assert forall|t: EnvView, a: Address, c: Address, sac: Address|
        t.sac == Some(sac) implies #[trigger] last_authorization(disallow_step()(t, a).calls, sac, c) == (if c == a {
            Some(false)
        } else {
            last_authorization(t.calls, sac, c)
        }) by {
        let u = disallow_one(t, a);
        let c0 = t.calls;
        let c1 = c0.push(u.calls[c0.len() as int]);
        let c2 = c1.push(u.calls[c0.len() as int + 1]);
        assert(u.calls =~= c2.push(u.calls[c0.len() as int + 2]));
        lemma_last_authorization_push(c2, u.calls[c0.len() as int + 2], sac, c);
        lemma_last_authorization_push(c1, u.calls[c0.len() as int + 1], sac, c);
        lemma_last_authorization_push(c0, u.calls[c0.len() as int], sac, c);
    }
}

// --- the laws ---------------------------------------------------------------

/// Under the denylist, `authorize_trustline` admits an account exactly when it
/// is not banned and authorization is not paused; a banned account is never
/// authorized, and its refused request changes nothing.
pub proof fn law_denylist_admits_exactly_unbanned(s: EnvView, account: Address)
    requires
        s.policy == Some(Policy::Denylist),
    ensures
        authorize_decision(s, account) is Ok <==> (!s.paused_flag() && !s.banned_flag(account)),
        s.banned_flag(account) ==> after_authorize(s, account) == s,
{
}

/// Under the allowlist, `authorize_trustline` admits an account exactly when it
/// was allowed, is not banned and authorization is not paused.
pub proof fn law_allowlist_admits_exactly_allowed(s: EnvView, account: Address)
    requires
        s.policy == Some(Policy::Allowlist),
    ensures
        authorize_decision(s, account) is Ok <==> (!s.paused_flag() && !s.banned_flag(account) && s.allowed_flag(account)),
        !s.allowed_flag(account) || s.banned_flag(account) ==> after_authorize(s, account) == s,
{
}

/// Whatever the policy, a banned account is never authorized, and its
/// refused request changes nothing.
pub proof fn law_banned_account_is_never_authorized(s: EnvView, account: Address)
    requires
        s.banned_flag(account),
    ensures
        authorize_decision(s, account) is Err,
        after_authorize(s, account) == s,
{
}

/// An admitted request asks the asset contract to authorize the account's
/// trustline and leaves the storage as it was; a refused one changes nothing.
pub proof fn law_authorize_outcome(s: EnvView, account: Address, sac: Address)
    requires
        s.sac == Some(sac),
    ensures
        authorize_decision(s, account) is Ok ==> last_authorization(after_authorize(s, account).calls, sac, account)
            == Some(true),
        after_authorize(s, account).same_storage(s),
        authorize_decision(s, account) is Err ==> after_authorize(s, account) == s,
{
    if authorize_decision(s, account) is Ok {
        let u = after_authorize(s, account);
        let c0 = s.calls;
        let c1 = c0.push(u.calls[c0.len() as int]);
        assert(u.calls =~= c1.push(u.calls[c0.len() as int + 1]));
        lemma_last_authorization_push(c1, u.calls[c0.len() as int + 1], sac, account);
        lemma_last_authorization_push(c0, u.calls[c0.len() as int], sac, account);
    }
}

/// Requesting authorization is permissionless: `authorize_trustline` requires
/// nobody's authorization, and all it asks of the host, when it admits the
/// account, is the asset contract's `set_authorized` and the event.
pub proof fn law_authorization_is_permissionless(s: EnvView, account: Address)
    ensures
        after_authorize(s, account).calls.subrange(0, s.calls.len() as int) == s.calls,
        forall|i: int|
            s.calls.len() <= i < after_authorize(s, account).calls.len() ==> !(
            #[trigger] after_authorize(s, account).calls[i] is RequireAuth),
        authorize_decision(s, account) is Ok ==> after_authorize(s, account).calls.len() == s.calls.len() + 2,
{
    assert(after_authorize(s, account).calls.subrange(0, s.calls.len() as int) =~= s.calls);
}

/// Deauthorizing revokes a trustline's authorization without banning the
/// holder: no list and no configuration entry changes, so the holder may ask
/// again.
pub proof fn law_deauthorize_does_not_ban(s: EnvView, account: Address)
    requires
        s.admin is Some,
        s.sac is Some,
    ensures
        last_authorization(after_deauthorize(s, account).calls, s.sac.unwrap(), account) == Some(false),
        after_deauthorize(s, account).same_storage(s),
        authorize_decision(after_deauthorize(s, account), account) == authorize_decision(s, account),
{
    let u = after_deauthorize(s, account);
    let sac = s.sac.unwrap();
    let c0 = s.calls;
    let c1 = c0.push(u.calls[c0.len() as int]);
    let c2 = c1.push(u.calls[c0.len() as int + 1]);
    assert(u.calls =~= c2.push(u.calls[c0.len() as int + 2]));
    lemma_last_authorization_push(c2, u.calls[c0.len() as int + 2], sac, account);
    lemma_last_authorization_push(c1, u.calls[c0.len() as int + 1], sac, account);
}

/// Freezing (banning) an account puts it on the denylist and deauthorizes its
/// trustline; whatever the policy, every retried authorization of it is then
/// refused and changes nothing, so a frozen holder cannot re-authorize itself.
pub proof fn law_frozen_account_stays_blocked(s: EnvView, accounts: Seq<Address>, account: Address)
    requires
        s.admin is Some,
        s.sac is Some,
        accounts.contains(account),
    ensures
        after_ban(s, accounts).banned_flag(account),
        last_authorization(after_ban(s, accounts).calls, s.sac.unwrap(), account) == Some(false),
        authorize_decision(after_ban(s, accounts), account) is Err,
        after_authorize(after_ban(s, accounts), account) == after_ban(s, accounts),
{
    lemma_ban_step();
    let start = after_require_admin(s);
    lemma_banned_flags(start, accounts, ban_step(), Some(true), account);
    lemma_for_each_config(start, accounts, ban_step());
    lemma_for_each_authorization(start, accounts, ban_step(), Some(false), s.sac.unwrap(), account);
}

/// Unfreezing takes accounts off the denylist and authorizes their trustlines
/// again; under the denylist, unpaused, they are then admitted on request.
pub proof fn law_unfreeze_reauthorizes(s: EnvView, accounts: Seq<Address>, account: Address)
    requires
        s.admin is Some,
        s.sac is Some,
        accounts.contains(account),
    ensures
        !after_unfreeze(s, accounts).banned_flag(account),
        last_authorization(after_unfreeze(s, accounts).calls, s.sac.unwrap(), account) == Some(true),
        s.policy == Some(Policy::Denylist) && !s.paused_flag() ==> authorize_decision(after_unfreeze(s, accounts), account)
            is Ok,
{
    lemma_unfreeze_step();
    let start = after_require_admin(s);
    lemma_banned_flags(start, accounts, unfreeze_step(), Some(false), account);
    lemma_for_each_config(start, accounts, unfreeze_step());
    lemma_for_each_authorization(start, accounts, unfreeze_step(), Some(true), s.sac.unwrap(), account);
}

/// Unbanning takes accounts off the denylist but authorizes no trustline: what
/// the asset contract was last asked for any account stays as it was.
pub proof fn law_unban_does_not_reauthorize(s: EnvView, accounts: Seq<Address>, sac: Address, account: Address)
    requires
        s.admin is Some,
        s.sac == Some(sac),
    ensures
        accounts.contains(account) ==> !after_unban(s, accounts).banned_flag(account),
        last_authorization(after_unban(s, accounts).calls, sac, account) == last_authorization(s.calls, sac, account),
{
    lemma_unban_step();
    let start = after_require_admin(s);
    lemma_banned_flags(start, accounts, unban_step(), Some(false), account);
    lemma_for_each_authorization(start, accounts, unban_step(), None, sac, account);
    lemma_last_authorization_push(s.calls, HostCall::RequireAuth(s.admin.unwrap()), sac, account);
}

/// Banning then unbanning the same accounts leaves each of them off the
/// denylist and every other account as it was.
pub proof fn law_ban_unban_roundtrip(s: EnvView, accounts: Seq<Address>, account: Address)
    requires
        s.admin is Some,
        s.sac is Some,
    ensures
        after_unban(after_ban(s, accounts), accounts).banned_flag(account) == (s.banned_flag(account)
            && !accounts.contains(account)),
{
    lemma_ban_step();
    lemma_unban_step();
    let start = after_require_admin(s);
    lemma_banned_flags(start, accounts, ban_step(), Some(true), account);
    lemma_for_each_config(start, accounts, ban_step());
    let mid = after_ban(s, accounts);
    lemma_banned_flags(after_require_admin(mid), accounts, unban_step(), Some(false), account);
}

/// Allowing accounts under the allowlist, unpaused, admits on request those
/// of them that are not banned.
pub proof fn law_allowed_account_is_admitted(s: EnvView, accounts: Seq<Address>, account: Address)
    requires
        s.admin is Some,
        s.policy == Some(Policy::Allowlist),
        !s.paused_flag(),
        !s.banned_flag(account),
        accounts.contains(account),
    ensures
        after_allow(s, accounts).allowed_flag(account),
        authorize_decision(after_allow(s, accounts), account) == Ok::<(), Error>(()),
{
    lemma_allow_step();
    let start = after_require_admin(s);
    lemma_allowed_flags(start, accounts, allow_step(), Some(true), account);
    lemma_banned_flags(start, accounts, allow_step(), None, account);
    lemma_for_each_config(start, accounts, allow_step());
}

/// Disallowing accounts takes them off the allowlist and deauthorizes their
/// trustlines; under the allowlist they are then refused.
pub proof fn law_disallowed_account_is_deauthorized(s: EnvView, accounts: Seq<Address>, account: Address)
    requires
        s.admin is Some,
        s.sac is Some,
        accounts.contains(account),
    ensures
        !after_disallow(s, accounts).allowed_flag(account),
        last_authorization(after_disallow(s, accounts).calls, s.sac.unwrap(), account) == Some(false),
        s.policy == Some(Policy::Allowlist) ==> authorize_decision(after_disallow(s, accounts), account) is Err,
{
    lemma_disallow_step();
    let start = after_require_admin(s);
    lemma_allowed_flags(start, accounts, disallow_step(), Some(false), account);
    lemma_for_each_config(start, accounts, disallow_step());
    lemma_for_each_authorization(start, accounts, disallow_step(), Some(false), s.sac.unwrap(), account);
}

/// The denylist operations leave the allowlist alone, the allowlist operations
/// the denylist, and none of them touches the configuration.
pub proof fn law_lists_are_independent(s: EnvView, accounts: Seq<Address>, account: Address)
    requires
        s.admin is Some,
    ensures
        after_ban(s, accounts).allowed == s.allowed,
        after_unban(s, accounts).allowed == s.allowed,
        after_unfreeze(s, accounts).allowed == s.allowed,
        after_allow(s, accounts).banned == s.banned,
        after_disallow(s, accounts).banned == s.banned,
        after_ban(s, accounts).policy == s.policy && after_ban(s, accounts).paused == s.paused,
        after_unban(s, accounts).policy == s.policy && after_unban(s, accounts).paused == s.paused,
        after_unfreeze(s, accounts).policy == s.policy && after_unfreeze(s, accounts).paused == s.paused,
        after_allow(s, accounts).policy == s.policy && after_allow(s, accounts).paused == s.paused,
        after_disallow(s, accounts).policy == s.policy && after_disallow(s, accounts).paused == s.paused,
        after_ban(s, accounts).admin == s.admin && after_ban(s, accounts).sac == s.sac,
        after_allow(s, accounts).admin == s.admin && after_allow(s, accounts).sac == s.sac,
{
    let start = after_require_admin(s);
    lemma_ban_step();
    lemma_unban_step();
    lemma_unfreeze_step();
    lemma_allow_step();
    lemma_disallow_step();
    lemma_for_each_config(start, accounts, ban_step());
    lemma_for_each_config(start, accounts, unban_step());
    lemma_for_each_config(start, accounts, unfreeze_step());
    lemma_for_each_config(start, accounts, allow_step());
    lemma_for_each_config(start, accounts, disallow_step());
    assert forall|b: Address| after_ban(s, accounts).allowed.contains(b) == s.allowed.contains(b) by {
        lemma_allowed_flags(start, accounts, ban_step(), None, b);
    }
    assert forall|b: Address| after_unban(s, accounts).allowed.contains(b) == s.allowed.contains(b) by {
        lemma_allowed_flags(start, accounts, unban_step(), None, b);
    }
    assert forall|b: Address| after_unfreeze(s, accounts).allowed.contains(b) == s.allowed.contains(b) by {
        lemma_allowed_flags(start, accounts, unfreeze_step(), None, b);
    }
    assert forall|b: Address| after_allow(s, accounts).banned.contains(b) == s.banned.contains(b) by {
        lemma_banned_flags(start, accounts, allow_step(), None, b);
    }
    assert forall|b: Address| after_disallow(s, accounts).banned.contains(b) == s.banned.contains(b) by {
        lemma_banned_flags(start, accounts, disallow_step(), None, b);
    }
    assert(after_ban(s, accounts).allowed =~= s.allowed);
    assert(after_unban(s, accounts).allowed =~= s.allowed);
    assert(after_unfreeze(s, accounts).allowed =~= s.allowed);
    assert(after_allow(s, accounts).banned =~= s.banned);
    assert(after_disallow(s, accounts).banned =~= s.banned);
}

/// Pausing refuses every authorization request, without any change; unpausing
/// hands the decision back to the policy.
pub proof fn law_pause_blocks_unpause_restores(s: EnvView, account: Address)
    requires
        s.admin is Some,
    ensures
        authorize_decision(after_pause(s), account) == Err::<(), Error>(Error::Paused),
        after_authorize(after_pause(s), account) == after_pause(s),
        authorize_decision(after_unpause(s), account) == policy_decision(s, account),
        authorize_decision(after_unpause(after_pause(s)), account) == policy_decision(s, account),
{
}

/// Every admin operation first requires the authorization of the stored admin,
/// before any other host call; the calls made before stay as they were.
pub proof fn law_admin_operations_require_admin(
    s: EnvView,
    accounts: Seq<Address>,
    account: Address,
    new_admin: Address,
    amount: i128,
    wasm_hash: Bytes32,
)
    requires
        s.admin is Some,
    ensures
        ({
            let n = s.calls.len() as int;
            let auth = HostCall::RequireAuth(s.admin.unwrap());
            &&& after_deauthorize(s, account).calls.subrange(0, n + 1) == s.calls.push(auth)
            &&& after_ban(s, accounts).calls.subrange(0, n + 1) == s.calls.push(auth)
            &&& after_unban(s, accounts).calls.subrange(0, n + 1) == s.calls.push(auth)
            &&& after_unfreeze(s, accounts).calls.subrange(0, n + 1) == s.calls.push(auth)
            &&& after_allow(s, accounts).calls.subrange(0, n + 1) == s.calls.push(auth)
            &&& after_disallow(s, accounts).calls.subrange(0, n + 1) == s.calls.push(auth)
            &&& after_mint(s, account, amount).calls.subrange(0, n + 1) == s.calls.push(auth)
            &&& after_clawback(s, account, amount).calls.subrange(0, n + 1) == s.calls.push(auth)
            &&& after_pause(s).calls.subrange(0, n + 1) == s.calls.push(auth)
            &&& after_unpause(s).calls.subrange(0, n + 1) == s.calls.push(auth)
            &&& after_change_admin(s, new_admin).calls.subrange(0, n + 1) == s.calls.push(auth)
            &&& after_upgrade(s, wasm_hash).calls.subrange(0, n + 1) == s.calls.push(auth)
        }),
{
    let n = s.calls.len() as int;
    let auth = HostCall::RequireAuth(s.admin.unwrap());
    let start = after_require_admin(s);
    assert(start.calls =~= s.calls.push(auth));
    lemma_ban_step();
    lemma_unban_step();
    lemma_unfreeze_step();
    lemma_allow_step();
    lemma_disallow_step();
    lemma_for_each_extends(start, accounts, ban_step());
    lemma_for_each_extends(start, accounts, unban_step());
    lemma_for_each_extends(start, accounts, unfreeze_step());
    lemma_for_each_extends(start, accounts, allow_step());
    lemma_for_each_extends(start, accounts, disallow_step());
    assert(after_deauthorize(s, account).calls.subrange(0, n + 1) =~= s.calls.push(auth));
    assert(after_mint(s, account, amount).calls.subrange(0, n + 1) =~= s.calls.push(auth));
    assert(after_clawback(s, account, amount).calls.subrange(0, n + 1) =~= s.calls.push(auth));
    assert(after_pause(s).calls.subrange(0, n + 1) =~= s.calls.push(auth));
    assert(after_unpause(s).calls.subrange(0, n + 1) =~= s.calls.push(auth));
    assert(after_change_admin(s, new_admin).calls.subrange(0, n + 1) =~= s.calls.push(auth));
    assert(after_upgrade(s, wasm_hash).calls.subrange(0, n + 1) =~= s.calls.push(auth));
}

/// Handing over the admin role requires the current admin's authorization and
/// makes `new_admin` the admin; nothing else in storage changes.
pub proof fn law_set_admin_hands_over(s: EnvView, new_admin: Address)
    requires
        s.admin is Some,
    ensures
        after_change_admin(s, new_admin).admin == Some(new_admin),
        after_change_admin(s, new_admin).calls[s.calls.len() as int] == HostCall::RequireAuth(s.admin.unwrap()),
        after_change_admin(s, new_admin).sac == s.sac,
        after_change_admin(s, new_admin).policy == s.policy,
        after_change_admin(s, new_admin).paused == s.paused,
        after_change_admin(s, new_admin).banned == s.banned,
        after_change_admin(s, new_admin).allowed == s.allowed,
{
}

/// Reading a list flag gives back what was last written for that account, and
/// writing one account's flag leaves every other account's as it was.
pub proof fn law_flags_read_back(s: EnvView, account: Address, other: Address, flag: bool)
    ensures
        after_set_banned(s, account, flag).banned_flag(other) == (if other == account {
            flag
        } else {
            s.banned_flag(other)
        }),
        after_set_allowed(s, account, flag).allowed_flag(other) == (if other == account {
            flag
        } else {
            s.allowed_flag(other)
        }),
        after_set_banned(s, account, flag).allowed == s.allowed,
        after_set_allowed(s, account, flag).banned == s.banned,
{
}

/// A constructed authorizer is configured with the given admin, asset contract
/// and policy, and is not paused.
pub proof fn law_constructed_authorizer(s: EnvView, admin: Address, sac: Address, policy: Policy)
    ensures
        after_construct(s, admin, sac, policy).configured(),
        after_construct(s, admin, sac, policy).admin == Some(admin),
        after_construct(s, admin, sac, policy).sac == Some(sac),
        after_construct(s, admin, sac, policy).policy == Some(policy),
        !after_construct(s, admin, sac, policy).paused_flag(),
        after_construct(s, admin, sac, policy).banned == s.banned,
        after_construct(s, admin, sac, policy).allowed == s.allowed,
{
}

/// The list operations as set operations: banning (freezing) joins the
/// accounts to the denylist, unbanning and unfreezing take them out of it,
/// allowing joins them to the allowlist and disallowing takes them out of it.
pub proof fn law_list_operations_as_sets(s: EnvView, accounts: Seq<Address>)
    ensures
        after_ban(s, accounts).banned == s.banned.union(accounts.to_set()),
        after_unban(s, accounts).banned == s.banned.difference(accounts.to_set()),
        after_unfreeze(s, accounts).banned == s.banned.difference(accounts.to_set()),
        after_allow(s, accounts).allowed == s.allowed.union(accounts.to_set()),
        after_disallow(s, accounts).allowed == s.allowed.difference(accounts.to_set()),
{
    let start = after_require_admin(s);
    lemma_ban_step();
    lemma_unban_step();
    lemma_unfreeze_step();
    lemma_allow_step();
    lemma_disallow_step();
    assert forall|b: Address| after_ban(s, accounts).banned.contains(b) == s.banned.union(accounts.to_set()).contains(b) by {
        lemma_banned_flags(start, accounts, ban_step(), Some(true), b);
    }
    assert forall|b: Address| after_unban(s, accounts).banned.contains(b) == s.banned.difference(accounts.to_set()).contains(b) by {
        lemma_banned_flags(start, accounts, unban_step(), Some(false), b);
    }
    assert forall|b: Address| after_unfreeze(s, accounts).banned.contains(b) == s.banned.difference(accounts.to_set()).contains(b) by {
        lemma_banned_flags(start, accounts, unfreeze_step(), Some(false), b);
    }
    assert forall|b: Address| after_allow(s, accounts).allowed.contains(b) == s.allowed.union(accounts.to_set()).contains(b) by {
        lemma_allowed_flags(start, accounts, allow_step(), Some(true), b);
    }
    assert forall|b: Address| after_disallow(s, accounts).allowed.contains(b) == s.allowed.difference(accounts.to_set()).contains(b) by {
        lemma_allowed_flags(start, accounts, disallow_step(), Some(false), b);
    }
    assert(after_ban(s, accounts).banned =~= s.banned.union(accounts.to_set()));
    assert(after_unban(s, accounts).banned =~= s.banned.difference(accounts.to_set()));
    assert(after_unfreeze(s, accounts).banned =~= s.banned.difference(accounts.to_set()));
    assert(after_allow(s, accounts).allowed =~= s.allowed.union(accounts.to_set()));
    assert(after_disallow(s, accounts).allowed =~= s.allowed.difference(accounts.to_set()));
}

// --- the calls each operation makes ---------------------------------------------

/// The calls made for each of `accounts` in turn, `calls_of` giving those made
/// for one account.
pub open spec fn calls_for_each(accounts: Seq<Address>, calls_of: spec_fn(Address) -> Seq<HostCall>) -> Seq<HostCall>
    decreases accounts.len(),
{
    if accounts.len() == 0 {
        Seq::empty()
    } else {
        calls_for_each(accounts.drop_last(), calls_of) + calls_of(accounts.last())
    }
}

/// Banning one account: its denylist entry is stored `true`, the asset
/// contract `sac` deauthorizes it, `Banned` is published.
pub open spec fn ban_calls(sac: Address) -> spec_fn(Address) -> Seq<HostCall> {
    |a: Address|
        seq![
            HostCall::StorageSet { durability: Durability::Persistent, key: DataKey::Banned(a), value: Val::Bool(true) },
            HostCall::SetAuthorized { sac, id: a, authorize: false },
            HostCall::Publish(Event::Banned(events::Banned { account: a })),
        ]
}

/// Unbanning one account: its denylist entry is removed, `Unbanned` is published.
pub open spec fn unban_calls() -> spec_fn(Address) -> Seq<HostCall> {
    |a: Address|
        seq![
            HostCall::StorageRemove { durability: Durability::Persistent, key: DataKey::Banned(a) },
            HostCall::Publish(Event::Unbanned(events::Unbanned { account: a })),
        ]
}

/// Unfreezing one account: its denylist entry is removed, `sac` authorizes it,
/// `Unbanned` then `Authorized` are published.
pub open spec fn unfreeze_calls(sac: Address) -> spec_fn(Address) -> Seq<HostCall> {
    |a: Address|
        seq![
            HostCall::StorageRemove { durability: Durability::Persistent, key: DataKey::Banned(a) },
            HostCall::SetAuthorized { sac, id: a, authorize: true },
            HostCall::Publish(Event::Unbanned(events::Unbanned { account: a })),
            HostCall::Publish(Event::Authorized(events::Authorized { account: a })),
        ]
}

/// Allowing one account: its allowlist entry is stored `true`, `Allowed` is published.
pub open spec fn allow_calls() -> spec_fn(Address) -> Seq<HostCall> {
    |a: Address|
        seq![
            HostCall::StorageSet { durability: Durability::Persistent, key: DataKey::Allowed(a), value: Val::Bool(true) },
            HostCall::Publish(Event::Allowed(events::Allowed { account: a })),
        ]
}

/// Disallowing one account: its allowlist entry is removed, `sac` deauthorizes
/// it, `Disallowed` is published.
pub open spec fn disallow_calls(sac: Address) -> spec_fn(Address) -> Seq<HostCall> {
    |a: Address|
        seq![
            HostCall::StorageRemove { durability: Durability::Persistent, key: DataKey::Allowed(a) },
            HostCall::SetAuthorized { sac, id: a, authorize: false },
            HostCall::Publish(Event::Disallowed(events::Disallowed { account: a })),
        ]
}

proof fn lemma_for_each_calls(
    s: EnvView,
    accounts: Seq<Address>,
    step: spec_fn(EnvView, Address) -> EnvView,
    calls_of: spec_fn(Address) -> Seq<HostCall>,
)
    requires
        keeps_config(step),
        forall|t: EnvView, a: Address| t.sac == s.sac ==> (#[trigger] step(t, a)).calls == t.calls + calls_of(a),
    ensures
        for_each(s, accounts, step).calls == s.calls + calls_for_each(accounts, calls_of),
    decreases accounts.len(),
{
    if accounts.len() == 0 {
        assert(s.calls + calls_for_each(accounts, calls_of) =~= s.calls);
    } else {
        lemma_for_each_calls(s, accounts.drop_last(), step, calls_of);
        lemma_for_each_config(s, accounts.drop_last(), step);
        let mid = for_each(s, accounts.drop_last(), step);
        assert(step(mid, accounts.last()).calls == mid.calls + calls_of(accounts.last()));
        assert(s.calls + calls_for_each(accounts, calls_of) =~= s.calls + calls_for_each(accounts.drop_last(), calls_of)
            + calls_of(accounts.last()));
    }
}

/// The list operations make, after the admin's authorization check, exactly
/// the calls listed for each account in turn: storage writes of the listed
/// entries, calls into the stored asset contract, and the audit events.
pub proof fn law_list_operation_calls(s: EnvView, accounts: Seq<Address>)
    ensures
        after_ban(s, accounts).calls == s.calls.push(HostCall::RequireAuth(s.admin.unwrap())) + calls_for_each(
            accounts,
            ban_calls(s.sac.unwrap()),
        ),
        after_unban(s, accounts).calls == s.calls.push(HostCall::RequireAuth(s.admin.unwrap())) + calls_for_each(
            accounts,
            unban_calls(),
        ),
        after_unfreeze(s, accounts).calls == s.calls.push(HostCall::RequireAuth(s.admin.unwrap())) + calls_for_each(
            accounts,
            unfreeze_calls(s.sac.unwrap()),
        ),
        after_allow(s, accounts).calls == s.calls.push(HostCall::RequireAuth(s.admin.unwrap())) + calls_for_each(
            accounts,
            allow_calls(),
        ),
        after_disallow(s, accounts).calls == s.calls.push(HostCall::RequireAuth(s.admin.unwrap())) + calls_for_each(
            accounts,
            disallow_calls(s.sac.unwrap()),
        ),
{
    let start = after_require_admin(s);
    let sac = s.sac.unwrap();
    assert forall|t: EnvView, a: Address| t.sac == start.sac implies (#[trigger] ban_step()(t, a)).calls == t.calls
        + ban_calls(sac)(a) by {
        assert(ban_step()(t, a).calls =~= t.calls + ban_calls(sac)(a));
    }
    assert forall|t: EnvView, a: Address| t.sac == start.sac implies (#[trigger] unban_step()(t, a)).calls == t.calls
        + unban_calls()(a) by {
        assert(unban_step()(t, a).calls =~= t.calls + unban_calls()(a));
    }
    assert forall|t: EnvView, a: Address| t.sac == start.sac implies (#[trigger] unfreeze_step()(t, a)).calls == t.calls
        + unfreeze_calls(sac)(a) by {
        assert(unfreeze_step()(t, a).calls =~= t.calls + unfreeze_calls(sac)(a));
    }
    assert forall|t: EnvView, a: Address| t.sac == start.sac implies (#[trigger] allow_step()(t, a)).calls == t.calls
        + allow_calls()(a) by {
        assert(allow_step()(t, a).calls =~= t.calls + allow_calls()(a));
    }
    assert forall|t: EnvView, a: Address| t.sac == start.sac implies (#[trigger] disallow_step()(t, a)).calls == t.calls
        + disallow_calls(sac)(a) by {
        assert(disallow_step()(t, a).calls =~= t.calls + disallow_calls(sac)(a));
    }
    lemma_ban_step();
    lemma_unban_step();
    lemma_unfreeze_step();
    lemma_allow_step();
    lemma_disallow_step();
    lemma_for_each_calls(start, accounts, ban_step(), ban_calls(sac));
    lemma_for_each_calls(start, accounts, unban_step(), unban_calls());
    lemma_for_each_calls(start, accounts, unfreeze_step(), unfreeze_calls(sac));
    lemma_for_each_calls(start, accounts, allow_step(), allow_calls());
    lemma_for_each_calls(start, accounts, disallow_step(), disallow_calls(sac));
}

/// The calls that the other operations make, in order: every admin operation
/// first requires the stored admin's authorization; construction only stores
/// its configuration.
pub proof fn law_operation_calls(
    s: EnvView,
    account: Address,
    amount: i128,
    new_admin: Address,
    wasm_hash: Bytes32,
    admin: Address,
    sac: Address,
    policy: Policy,
)
    ensures
        ({
            let auth = HostCall::RequireAuth(s.admin.unwrap());
            let stored_sac = s.sac.unwrap();
            &&& after_deauthorize(s, account).calls == s.calls + seq![
                auth,
                HostCall::SetAuthorized { sac: stored_sac, id: account, authorize: false },
                HostCall::Publish(Event::Deauthorized(events::Deauthorized { account })),
            ]
            &&& after_mint(s, account, amount).calls == s.calls + seq![
                auth,
                HostCall::Mint { sac: stored_sac, to: account, amount },
            ]
            &&& after_clawback(s, account, amount).calls == s.calls + seq![
                auth,
                HostCall::Clawback { sac: stored_sac, from: account, amount },
            ]
            &&& after_pause(s).calls == s.calls + seq![
                auth,
                HostCall::StorageSet { durability: Durability::Instance, key: DataKey::Paused, value: Val::Bool(true) },
                HostCall::Publish(Event::Paused(events::Paused {})),
            ]
            &&& after_unpause(s).calls == s.calls + seq![
                auth,
                HostCall::StorageSet { durability: Durability::Instance, key: DataKey::Paused, value: Val::Bool(false) },
                HostCall::Publish(Event::Unpaused(events::Unpaused {})),
            ]
            &&& after_change_admin(s, new_admin).calls == s.calls + seq![
                auth,
                HostCall::StorageSet { durability: Durability::Instance, key: DataKey::Admin, value: Val::Address(new_admin) },
            ]
            &&& after_upgrade(s, wasm_hash).calls == s.calls + seq![auth, HostCall::UpdateCurrentContractWasm(wasm_hash)]
            &&& after_construct(s, admin, sac, policy).calls == s.calls + seq![
                HostCall::StorageSet { durability: Durability::Instance, key: DataKey::Admin, value: Val::Address(admin) },
                HostCall::StorageSet { durability: Durability::Instance, key: DataKey::Sac, value: Val::Address(sac) },
                HostCall::StorageSet { durability: Durability::Instance, key: DataKey::Policy, value: Val::Policy(policy) },
                HostCall::StorageSet { durability: Durability::Instance, key: DataKey::Paused, value: Val::Bool(false) },
            ]
        }),
{
    let auth = HostCall::RequireAuth(s.admin.unwrap());
    let stored_sac = s.sac.unwrap();
    assert(after_deauthorize(s, account).calls =~= s.calls + seq![
        auth,
        HostCall::SetAuthorized { sac: stored_sac, id: account, authorize: false },
        HostCall::Publish(Event::Deauthorized(events::Deauthorized { account })),
    ]);
    assert(after_mint(s, account, amount).calls =~= s.calls + seq![auth, HostCall::Mint { sac: stored_sac, to: account, amount }]);
    assert(after_clawback(s, account, amount).calls =~= s.calls + seq![
        auth,
        HostCall::Clawback { sac: stored_sac, from: account, amount },
    ]);
    assert(after_pause(s).calls =~= s.calls + seq![
        auth,
        HostCall::StorageSet { durability: Durability::Instance, key: DataKey::Paused, value: Val::Bool(true) },
        HostCall::Publish(Event::Paused(events::Paused {})),
    ]);
    assert(after_unpause(s).calls =~= s.calls + seq![
        auth,
        HostCall::StorageSet { durability: Durability::Instance, key: DataKey::Paused, value: Val::Bool(false) },
        HostCall::Publish(Event::Unpaused(events::Unpaused {})),
    ]);
    assert(after_change_admin(s, new_admin).calls =~= s.calls + seq![
        auth,
        HostCall::StorageSet { durability: Durability::Instance, key: DataKey::Admin, value: Val::Address(new_admin) },
    ]);
    assert(after_upgrade(s, wasm_hash).calls =~= s.calls + seq![auth, HostCall::UpdateCurrentContractWasm(wasm_hash)]);
    assert(after_construct(s, admin, sac, policy).calls =~= s.calls + seq![
        HostCall::StorageSet { durability: Durability::Instance, key: DataKey::Admin, value: Val::Address(admin) },
        HostCall::StorageSet { durability: Durability::Instance, key: DataKey::Sac, value: Val::Address(sac) },
        HostCall::StorageSet { durability: Durability::Instance, key: DataKey::Policy, value: Val::Policy(policy) },
        HostCall::StorageSet { durability: Durability::Instance, key: DataKey::Paused, value: Val::Bool(false) },
    ]);
}

// --- sequences of operations --------------------------------------------------

/// A call of one of the authorizer's operations that change its environment
/// (the views change nothing).
pub enum Operation {
    AuthorizeTrustline(Address),
    DeauthorizeTrustline(Address),
    Ban(Seq<Address>),
    Unban(Seq<Address>),
    Freeze(Seq<Address>),
    Unfreeze(Seq<Address>),
    Allow(Seq<Address>),
    Disallow(Seq<Address>),
    Mint(Address, i128),
    Clawback(Address, i128),
    Pause,
    Unpause,
    SetAdmin(Address),
    Upgrade(Bytes32),
}

/// `s` once `op` has run (a refused authorization leaves it unchanged).
pub open spec fn apply(s: EnvView, op: Operation) -> EnvView {
    match op {
        Operation::AuthorizeTrustline(a) => after_authorize(s, a),
        Operation::DeauthorizeTrustline(a) => after_deauthorize(s, a),
        Operation::Ban(accounts) => after_ban(s, accounts),
        Operation::Unban(accounts) => after_unban(s, accounts),
        Operation::Freeze(accounts) => after_ban(s, accounts),
        Operation::Unfreeze(accounts) => after_unfreeze(s, accounts),
        Operation::Allow(accounts) => after_allow(s, accounts),
        Operation::Disallow(accounts) => after_disallow(s, accounts),
        Operation::Mint(to, amount) => after_mint(s, to, amount),
        Operation::Clawback(from, amount) => after_clawback(s, from, amount),
        Operation::Pause => after_pause(s),
        Operation::Unpause => after_unpause(s),
        Operation::SetAdmin(n) => after_change_admin(s, n),
        Operation::Upgrade(h) => after_upgrade(s, h),
    }
}

/// `s` once `ops` have run in order.
pub open spec fn run(s: EnvView, ops: Seq<Operation>) -> EnvView
    decreases ops.len(),
{
    if ops.len() == 0 {
        s
    } else {
        apply(run(s, ops.drop_last()), ops.last())
    }
}

/// The admin after `ops`, starting from `admin`: the last one a `SetAdmin` set.
pub open spec fn admin_after(admin: Option<Address>, ops: Seq<Operation>) -> Option<Address>
    decreases ops.len(),
{
    if ops.len() == 0 {
        admin
    } else {
        match ops.last() {
            Operation::SetAdmin(n) => Some(n),
            _ => admin_after(admin, ops.drop_last()),
        }
    }
}

/// The pause flag after `ops`, starting from `paused`: set by the last `Pause`
/// or `Unpause`.
pub open spec fn paused_after(paused: bool, ops: Seq<Operation>) -> bool
    decreases ops.len(),
{
    if ops.len() == 0 {
        paused
    } else {
        match ops.last() {
            Operation::Pause => true,
            Operation::Unpause => false,
            _ => paused_after(paused, ops.drop_last()),
        }
    }
}

/// The denylist flag of `account` after `ops`, starting from `banned`: set by
/// the last `Ban` or `Freeze`, cleared by the last `Unban` or `Unfreeze`, that
/// listed the account.
pub open spec fn banned_after(banned: bool, ops: Seq<Operation>, account: Address) -> bool
    decreases ops.len(),
{
    if ops.len() == 0 {
        banned
    } else {
        match ops.last() {
            Operation::Ban(accounts) => accounts.contains(account) || banned_after(banned, ops.drop_last(), account),
            Operation::Freeze(accounts) => accounts.contains(account) || banned_after(banned, ops.drop_last(), account),
            Operation::Unban(accounts) => !accounts.contains(account) && banned_after(banned, ops.drop_last(), account),
            Operation::Unfreeze(accounts) => !accounts.contains(account) && banned_after(banned, ops.drop_last(), account),
            _ => banned_after(banned, ops.drop_last(), account),
        }
    }
}

/// The allowlist flag of `account` after `ops`, starting from `allowed`: set
/// by the last `Allow`, cleared by the last `Disallow`, that listed the account.
pub open spec fn allowed_after(allowed: bool, ops: Seq<Operation>, account: Address) -> bool
    decreases ops.len(),
{
    if ops.len() == 0 {
        allowed
    } else {
        match ops.last() {
            Operation::Allow(accounts) => accounts.contains(account) || allowed_after(allowed, ops.drop_last(), account),
            Operation::Disallow(accounts) => !accounts.contains(account) && allowed_after(allowed, ops.drop_last(), account),
            _ => allowed_after(allowed, ops.drop_last(), account),
        }
    }
}

/// What one operation does to the configuration, the flags of `account` and the calls.
proof fn lemma_apply(s: EnvView, op: Operation, account: Address)
    ensures
        apply(s, op).policy == s.policy,
        apply(s, op).sac == s.sac,
        extends_toward(s.calls, apply(s, op).calls, s.sac.unwrap()),
        apply(s, op).admin == (match op {
            Operation::SetAdmin(n) => Some(n),
            _ => s.admin,
        }),
        apply(s, op).paused_flag() == (match op {
            Operation::Pause => true,
            Operation::Unpause => false,
            _ => s.paused_flag(),
        }),
        apply(s, op).banned_flag(account) == (match op {
            Operation::Ban(accounts) => accounts.contains(account) || s.banned_flag(account),
            Operation::Freeze(accounts) => accounts.contains(account) || s.banned_flag(account),
            Operation::Unban(accounts) => !accounts.contains(account) && s.banned_flag(account),
            Operation::Unfreeze(accounts) => !accounts.contains(account) && s.banned_flag(account),
            _ => s.banned_flag(account),
        }),
        apply(s, op).allowed_flag(account) == (match op {
            Operation::Allow(accounts) => accounts.contains(account) || s.allowed_flag(account),
            Operation::Disallow(accounts) => !accounts.contains(account) && s.allowed_flag(account),
            _ => s.allowed_flag(account),
        }),
{
    let n = s.calls.len() as int;
    let sac = s.sac.unwrap();
    let start = after_require_admin(s);
    assert(start.calls.subrange(0, n) =~= s.calls);
    assert(extends_toward(s.calls, start.calls, sac));
    lemma_ban_step();
    lemma_unban_step();
    lemma_unfreeze_step();
    lemma_allow_step();
    lemma_disallow_step();
    match op {
        Operation::Ban(accounts) | Operation::Freeze(accounts) => {
            lemma_for_each_config(start, accounts, ban_step());
            lemma_for_each_extends(start, accounts, ban_step());
            lemma_extends_trans(s.calls, start.calls, after_ban(s, accounts).calls, sac);
            lemma_banned_flags(start, accounts, ban_step(), Some(true), account);
            lemma_allowed_flags(start, accounts, ban_step(), None, account);
        },
        Operation::Unban(accounts) => {
            lemma_for_each_config(start, accounts, unban_step());
            lemma_for_each_extends(start, accounts, unban_step());
            lemma_extends_trans(s.calls, start.calls, after_unban(s, accounts).calls, sac);
            lemma_banned_flags(start, accounts, unban_step(), Some(false), account);
            lemma_allowed_flags(start, accounts, unban_step(), None, account);
        },
        Operation::Unfreeze(accounts) => {
            lemma_for_each_config(start, accounts, unfreeze_step());
            lemma_for_each_extends(start, accounts, unfreeze_step());
            lemma_extends_trans(s.calls, start.calls, after_unfreeze(s, accounts).calls, sac);
            lemma_banned_flags(start, accounts, unfreeze_step(), Some(false), account);
            lemma_allowed_flags(start, accounts, unfreeze_step(), None, account);
        },
        Operation::Allow(accounts) => {
            lemma_for_each_config(start, accounts, allow_step());
            lemma_for_each_extends(start, accounts, allow_step());
            lemma_extends_trans(s.calls, start.calls, after_allow(s, accounts).calls, sac);
            lemma_banned_flags(start, accounts, allow_step(), None, account);
            lemma_allowed_flags(start, accounts, allow_step(), Some(true), account);
        },
        Operation::Disallow(accounts) => {
            lemma_for_each_config(start, accounts, disallow_step());
            lemma_for_each_extends(start, accounts, disallow_step());
            lemma_extends_trans(s.calls, start.calls, after_disallow(s, accounts).calls, sac);
            lemma_banned_flags(start, accounts, disallow_step(), None, account);
            lemma_allowed_flags(start, accounts, disallow_step(), Some(false), account);
        },
        Operation::AuthorizeTrustline(a) => {
            let u = after_authorize(s, a);
            assert(u.calls.subrange(0, n) =~= s.calls);
        },
        _ => {
            let u = apply(s, op);
            assert(u.calls.subrange(0, n) =~= s.calls);
        },
    }
}

/// Over any sequence of operations: the policy and the asset contract stay as
/// they were, the calls made before stay, and every call into an asset
/// contract goes to the stored one; the admin is the last one set, the pause
/// flag the last one set by `pause` or `unpause`, and each account's denylist
/// and allowlist flags those set by the last list operations that named it.
pub proof fn law_operation_sequences(s: EnvView, ops: Seq<Operation>, account: Address)
    ensures
        run(s, ops).policy == s.policy,
        run(s, ops).sac == s.sac,
        extends_toward(s.calls, run(s, ops).calls, s.sac.unwrap()),
        run(s, ops).admin == admin_after(s.admin, ops),
        run(s, ops).paused_flag() == paused_after(s.paused_flag(), ops),
        run(s, ops).banned_flag(account) == banned_after(s.banned_flag(account), ops, account),
        run(s, ops).allowed_flag(account) == allowed_after(s.allowed_flag(account), ops, account),
    decreases ops.len(),
{
    if ops.len() == 0 {
        assert(s.calls.subrange(0, s.calls.len() as int) =~= s.calls);
    } else {
        law_operation_sequences(s, ops.drop_last(), account);
        let mid = run(s, ops.drop_last());
        lemma_apply(mid, ops.last(), account);
        lemma_extends_trans(s.calls, mid.calls, run(s, ops).calls, s.sac.unwrap());
    }
}

/// From construction on: the policy and the asset contract stay as
/// constructed and every call into an asset contract goes to that one; the
/// admin is the constructed one until a `set_admin`, then the last one set;
/// authorization is paused exactly after a `pause` not followed by an
/// `unpause`; and an account is banned (allowed) exactly when the last list
/// operation that named it banned or froze it (allowed it), starting from the
/// flags held before construction (none on a fresh ledger).
pub proof fn law_constructed_authorizer_over_time(
    s: EnvView,
    admin: Address,
    sac: Address,
    policy: Policy,
    ops: Seq<Operation>,
    account: Address,
)
    ensures
        ({
            let c = after_construct(s, admin, sac, policy);
            let r = run(c, ops);
            &&& r.policy == Some(policy)
            &&& r.sac == Some(sac)
            &&& forall|i: int| s.calls.len() <= i < r.calls.len() ==> targets(#[trigger] r.calls[i], sac)
            &&& r.admin == admin_after(Some(admin), ops)
            &&& r.paused_flag() == paused_after(false, ops)
            &&& r.banned_flag(account) == banned_after(s.banned_flag(account), ops, account)
            &&& r.allowed_flag(account) == allowed_after(s.allowed_flag(account), ops, account)
        }),
{
    let c = after_construct(s, admin, sac, policy);
    law_operation_sequences(c, ops, account);
    let r = run(c, ops);
    assert forall|i: int| s.calls.len() <= i < r.calls.len() implies targets(#[trigger] r.calls[i], sac) by {
        if i < c.calls.len() {
            assert(r.calls.subrange(0, c.calls.len() as int)[i] == c.calls[i]);
        }
    }
}

/// `op` takes `account` off the denylist.
pub open spec fn lifts_ban(op: Operation, account: Address) -> bool {
    match op {
        Operation::Unban(accounts) => accounts.contains(account),
        Operation::Unfreeze(accounts) => accounts.contains(account),
        _ => false,
    }
}

/// Appending calls none of which asks `sac` to authorize `account` keeps a
/// revoked authorization revoked.
proof fn lemma_revoked_stays(before: Seq<HostCall>, after: Seq<HostCall>, sac: Address, account: Address)
    requires
        before.len() <= after.len(),
        after.subrange(0, before.len() as int) == before,
        last_authorization(before, sac, account) == Some(false),
        forall|i: int|
            before.len() <= i < after.len() ==> #[trigger] after[i] != (HostCall::SetAuthorized {
                sac,
                id: account,
                authorize: true,
            }),
    ensures
        last_authorization(after, sac, account) == Some(false),
    decreases after.len(),
{
    if after.len() == before.len() {
        assert(after =~= before);
    } else {
        let prev = after.drop_last();
        assert(prev.subrange(0, before.len() as int) =~= after.subrange(0, before.len() as int));
        assert forall|i: int| before.len() <= i < prev.len() implies #[trigger] prev[i] != (HostCall::SetAuthorized {
            sac,
            id: account,
            authorize: true,
        }) by {
            assert(prev[i] == after[i]);
        }
        lemma_revoked_stays(before, prev, sac, account);
        assert(after =~= prev.push(after.last()));
        lemma_last_authorization_push(prev, after.last(), sac, account);
    }
}

/// One operation that does not lift the ban of a banned `account` keeps its
/// revoked authorization revoked.
proof fn lemma_apply_keeps_revoked(t: EnvView, op: Operation, sac: Address, account: Address)
    requires
        t.sac == Some(sac),
        t.banned_flag(account),
        last_authorization(t.calls, sac, account) == Some(false),
        !lifts_ban(op, account),
    ensures
        last_authorization(apply(t, op).calls, sac, account) == Some(false),
{
    let n = t.calls.len() as int;
    let start = after_require_admin(t);
    lemma_last_authorization_push(t.calls, HostCall::RequireAuth(t.admin.unwrap()), sac, account);
    lemma_ban_step();
    lemma_unban_step();
    lemma_unfreeze_step();
    lemma_allow_step();
    lemma_disallow_step();
    match op {
        Operation::Ban(accounts) | Operation::Freeze(accounts) => {
            lemma_for_each_authorization(start, accounts, ban_step(), Some(false), sac, account);
        },
        Operation::Unban(accounts) => {
            lemma_for_each_authorization(start, accounts, unban_step(), None, sac, account);
        },
        Operation::Unfreeze(accounts) => {
            lemma_for_each_authorization(start, accounts, unfreeze_step(), Some(true), sac, account);
        },
        Operation::Allow(accounts) => {
            lemma_for_each_authorization(start, accounts, allow_step(), None, sac, account);
        },
        Operation::Disallow(accounts) => {
            lemma_for_each_authorization(start, accounts, disallow_step(), Some(false), sac, account);
        },
        _ => {
            let u = apply(t, op);
            assert(u.calls.subrange(0, n) =~= t.calls);
            lemma_revoked_stays(t.calls, u.calls, sac, account);
        },
    }
}

proof fn lemma_run_keeps_revoked(s: EnvView, ops: Seq<Operation>, sac: Address, account: Address)
    requires
        s.sac == Some(sac),
        s.banned_flag(account),
        last_authorization(s.calls, sac, account) == Some(false),
        forall|i: int| 0 <= i < ops.len() ==> !lifts_ban(#[trigger] ops[i], account),
    ensures
        run(s, ops).sac == Some(sac),
        run(s, ops).banned_flag(account),
        last_authorization(run(s, ops).calls, sac, account) == Some(false),
    decreases ops.len(),
{
    if ops.len() > 0 {
        let prev = ops.drop_last();
        assert forall|i: int| 0 <= i < prev.len() implies !lifts_ban(#[trigger] prev[i], account) by {
            assert(prev[i] == ops[i]);
        }
        lemma_run_keeps_revoked(s, prev, sac, account);
        let mid = run(s, prev);
        assert(!lifts_ban(ops[ops.len() - 1], account));
        lemma_apply(mid, ops.last(), account);
        lemma_apply_keeps_revoked(mid, ops.last(), sac, account);
    }
}

/// A frozen holder stays frozen: once frozen, and over any later operations
/// none of which unbans or unfreezes it, the holder stays banned, the asset
/// contract was last asked to deauthorize its trustline, and every request to
/// authorize it is refused and changes nothing, whatever the policy.
pub proof fn law_frozen_holder_stays_revoked(s: EnvView, accounts: Seq<Address>, ops: Seq<Operation>, account: Address)
    requires
        s.admin is Some,
        s.sac is Some,
        accounts.contains(account),
        forall|i: int| 0 <= i < ops.len() ==> !lifts_ban(#[trigger] ops[i], account),
    ensures
        run(after_ban(s, accounts), ops).banned_flag(account),
        last_authorization(run(after_ban(s, accounts), ops).calls, s.sac.unwrap(), account) == Some(false),
        authorize_decision(run(after_ban(s, accounts), ops), account) is Err,
        after_authorize(run(after_ban(s, accounts), ops), account) == run(after_ban(s, accounts), ops),
{
    law_frozen_account_stays_blocked(s, accounts, account);
    lemma_for_each_config(after_require_admin(s), accounts, ban_step());
    lemma_run_keeps_revoked(after_ban(s, accounts), ops, s.sac.unwrap(), account);
}

/// What `onboard` returns once the trustline could (`trusted`) or could not be
/// created, the authorizer accepted it or not (`accepted`), and the holder is
/// found authorized or not (`authorized`).
pub open spec fn onboard_result(trusted: bool, accepted: bool, authorized: bool) -> Result<(), onboard::Error> {
    if !trusted {
        Err(onboard::Error::TrustFailed)
    } else if !accepted {
        Err(onboard::Error::AuthorizationFailed)
    } else if !authorized {
        Err(onboard::Error::NotAuthorized)
    } else {
        Ok(())
    }
}

/// Onboarding makes its calls in order — the holder's authorization, the
/// trustline's creation on `sac`, its authorization by `authorizer`, the check
/// on `sac` — stops at the first that fails, and returns `Ok` only when all
/// succeeded and the holder is authorized on that very asset contract.
pub proof fn law_onboard_protocol(
    sac: Address,
    authorizer: Address,
    holder: Address,
    trusted: bool,
    accepted: bool,
    authorized: bool,
)
    ensures
        ({
            let o0 = onboarding_start(sac, authorizer, holder);
            let (o1, s1) = onboarding_next(o0, true);
            let (o2, s2) = onboarding_next(o1, trusted);
            let (o3, s3) = onboarding_next(o2, accepted);
            let (o4, s4) = onboarding_next(o3, authorized);
            &&& s1 == Step::Call(OnboardCall::Trust { sac, holder })
            &&& !trusted ==> s2 == Step::Return(onboard_result(trusted, accepted, authorized)) && o2.stage == Stage::Done
            &&& trusted ==> s2 == Step::Call(OnboardCall::AuthorizeTrustline { authorizer, holder })
            &&& trusted && !accepted ==> s3 == Step::Return(onboard_result(trusted, accepted, authorized))
                && o3.stage == Stage::Done
            &&& trusted && accepted ==> s3 == Step::Call(OnboardCall::Authorized { sac, holder })
            &&& trusted && accepted ==> s4 == Step::Return(onboard_result(trusted, accepted, authorized))
                && o4.stage == Stage::Done
        }),
{
}

/// Onboarding returns `Ok` only on the answer that the holder is authorized.
pub proof fn law_onboard_ok_only_when_authorized(o: Onboarding, succeeded: bool)
    requires
        o.stage != Stage::Done,
        onboarding_next(o, succeeded).1 == Step::Return(Ok(())),
    ensures
        o.stage == Stage::Checking,
        succeeded,
{
}

/// Onboarding through the authorizer of storage `s` fails with
/// `AuthorizationFailed` when the authorizer refuses the holder (banned under
/// the denylist, not allowed under the allowlist, or paused), and the refused
/// request authorizes nothing.
pub proof fn law_onboard_fails_for_refused_holder(s: EnvView, o: Onboarding)
    requires
        o.stage == Stage::Authorizing,
        authorize_decision(s, o.holder) is Err,
    ensures
        onboarding_next(o, authorize_decision(s, o.holder) is Ok).1 == Step::Return(
            Err(onboard::Error::AuthorizationFailed),
        ),
        after_authorize(s, o.holder) == s,
{
}

} // verus!
