//! The audit-event trail of the authorizer. Indexers consume these events to
//! rebuild the full authorization history of an asset; each event names the
//! account it is about (pausing and unpausing name none).
use vstd::prelude::*;

use crate::address::Address;
use crate::env::{Env, EnvView, HostCall};

verus! {

/// A trustline was authorized.
#[derive(Clone, Copy, Debug, PartialEq, Eq, Structural)]
pub struct Authorized {
    pub account: Address,
}

/// A trustline's authorization was revoked.
#[derive(Clone, Copy, Debug, PartialEq, Eq, Structural)]
pub struct Deauthorized {
    pub account: Address,
}

/// An account was put on the denylist.
#[derive(Clone, Copy, Debug, PartialEq, Eq, Structural)]
pub struct Banned {
    pub account: Address,
}

/// An account was taken off the denylist.
#[derive(Clone, Copy, Debug, PartialEq, Eq, Structural)]
pub struct Unbanned {
    pub account: Address,
}

/// An account was put on the allowlist.
#[derive(Clone, Copy, Debug, PartialEq, Eq, Structural)]
pub struct Allowed {
    pub account: Address,
}

/// An account was taken off the allowlist.
#[derive(Clone, Copy, Debug, PartialEq, Eq, Structural)]
pub struct Disallowed {
    pub account: Address,
}

/// Authorization was paused.
#[derive(Clone, Copy, Debug, PartialEq, Eq, Structural)]
pub struct Paused {}

/// Authorization was resumed.
#[derive(Clone, Copy, Debug, PartialEq, Eq, Structural)]
pub struct Unpaused {}

/// Any event of the trail.
#[derive(Clone, Copy, Debug, PartialEq, Eq, Structural)]
pub enum Event {
    Authorized(Authorized),
    Deauthorized(Deauthorized),
    Banned(Banned),
    Unbanned(Unbanned),
    Allowed(Allowed),
    Disallowed(Disallowed),
    Paused(Paused),
    Unpaused(Unpaused),
}

/// `s` once `event` is published.
pub open spec fn after_publish(s: EnvView, event: Event) -> EnvView {
    s.record(HostCall::Publish(event))
}

/// Publishes `Authorized { account }`.
pub fn authorized(env: &mut Env, account: &Address)
    ensures
        final(env)@ == after_publish(old(env)@, Event::Authorized(Authorized { account: *account })),
{
    env.record(HostCall::Publish(Event::Authorized(Authorized { account: *account })));
}

/// Publishes `Deauthorized { account }`.
pub fn deauthorized(env: &mut Env, account: &Address)
    ensures
        final(env)@ == after_publish(old(env)@, Event::Deauthorized(Deauthorized { account: *account })),
{
    env.record(HostCall::Publish(Event::Deauthorized(Deauthorized { account: *account })));
}

/// Publishes `Banned { account }`.
pub fn banned(env: &mut Env, account: &Address)
    ensures
        final(env)@ == after_publish(old(env)@, Event::Banned(Banned { account: *account })),
{
    env.record(HostCall::Publish(Event::Banned(Banned { account: *account })));
}

/// Publishes `Unbanned { account }`.
pub fn unbanned(env: &mut Env, account: &Address)
    ensures
        final(env)@ == after_publish(old(env)@, Event::Unbanned(Unbanned { account: *account })),
{
    env.record(HostCall::Publish(Event::Unbanned(Unbanned { account: *account })));
}

/// Publishes `Allowed { account }`.
pub fn allowed(env: &mut Env, account: &Address)
    ensures
        final(env)@ == after_publish(old(env)@, Event::Allowed(Allowed { account: *account })),
{
    env.record(HostCall::Publish(Event::Allowed(Allowed { account: *account })));
}

/// Publishes `Disallowed { account }`.
pub fn disallowed(env: &mut Env, account: &Address)
    ensures
        final(env)@ == after_publish(old(env)@, Event::Disallowed(Disallowed { account: *account })),
{
    env.record(HostCall::Publish(Event::Disallowed(Disallowed { account: *account })));
}

/// Publishes `Paused {}`.
pub fn paused(env: &mut Env)
    ensures
        final(env)@ == after_publish(old(env)@, Event::Paused(Paused {})),
{
    env.record(HostCall::Publish(Event::Paused(Paused {})));
}

/// Publishes `Unpaused {}`.
pub fn unpaused(env: &mut Env)
    ensures
        final(env)@ == after_publish(old(env)@, Event::Unpaused(Unpaused {})),
{
    env.record(HostCall::Publish(Event::Unpaused(Unpaused {})));
}

} // verus!
