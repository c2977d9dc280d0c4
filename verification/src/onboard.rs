//! One-signature trustline onboarding.
//!
//! Under a single authorization of the holder, `onboard` chains:
//!   1. `SAC.trust(holder)`: creating the holder's trustline through the Stellar
//!      Asset Contract (a no-op when it exists already); and
//!   2. `authorizer.authorize_trustline(holder)`: the trustline authorizer (the
//!      SAC admin) authorizes it through `SAC.set_authorized`;
//! then checks that the holder is authorized on that very asset contract.
//!
//! The calls are made by the host one after the other; [`Onboarding`] decides,
//! from the outcome of each, which call comes next or what `onboard` returns.
//! The whole invocation reverts when it returns an error.
use vstd::prelude::*;

use crate::address::Address;

verus! {

/// Why onboarding failed.
#[derive(Clone, Copy, Debug, PartialEq, Eq, PartialOrd, Ord, Structural)]
pub enum Error {
    /// `SAC.trust` failed (e.g. issuer missing).
    TrustFailed,
    /// The authorizer rejected the trustline (banned / not allowed / paused).
    AuthorizationFailed,
    /// The holder is still not authorized on the asset contract after the
    /// authorize call (a wrong or divergent asset contract, or an authorizer
    /// that does nothing).
    NotAuthorized,
}

/// A call that onboarding asks the host to make.
#[derive(Clone, Copy, Debug, PartialEq, Eq, Structural)]
pub enum OnboardCall {
    /// `holder.require_auth()`; the invocation aborts unless the holder signed.
    RequireAuth(Address),
    /// `try_trust(holder)` on the asset contract `sac`.
    Trust { sac: Address, holder: Address },
    /// `try_authorize_trustline(holder)` on the authorizer contract.
    AuthorizeTrustline { authorizer: Address, holder: Address },
    /// `authorized(holder)` on the asset contract `sac`.
    Authorized { sac: Address, holder: Address },
}

/// Which answer an onboarding waits for.
#[derive(Clone, Copy, Debug, PartialEq, Eq, Structural)]
pub enum Stage {
    /// The holder's authorization check.
    Authenticating,
    /// Whether the trustline could be created.
    Trusting,
    /// Whether the authorizer accepted the trustline.
    Authorizing,
    /// Whether the holder is authorized on the asset contract.
    Checking,
    /// None: `onboard` has returned.
    Done,
}

/// What comes after an answer: another call, or the result of `onboard`.
#[derive(Clone, Copy, Debug)]
pub enum Step {
    Call(OnboardCall),
    Return(Result<(), Error>),
}

/// An onboarding of `holder` for the asset behind `sac`, whose admin is
/// `authorizer`.
#[derive(Clone, Copy, Debug, PartialEq, Eq, Structural)]
pub struct Onboarding {
    pub sac: Address,
    pub authorizer: Address,
    pub holder: Address,
    pub stage: Stage,
}

/// The one-signature onboarding contract.
pub struct TrustlineOnboard {}

/// The onboarding of `holder` as it starts.
pub open spec fn onboarding_start(sac: Address, authorizer: Address, holder: Address) -> Onboarding {
    Onboarding { sac, authorizer, holder, stage: Stage::Authenticating }
}

/// The onboarding after the answer `succeeded` to its pending call, and what
/// it does next: a trustline that could not be created, or that the authorizer
/// refused, ends it with the matching error; so does a holder that is not
/// authorized after the authorize call.
pub open spec fn onboarding_next(o: Onboarding, succeeded: bool) -> (Onboarding, Step) {
    match o.stage {
        Stage::Authenticating => (
            Onboarding { stage: Stage::Trusting, ..o },
            Step::Call(OnboardCall::Trust { sac: o.sac, holder: o.holder }),
        ),
        Stage::Trusting => if succeeded {
            (
                Onboarding { stage: Stage::Authorizing, ..o },
                Step::Call(OnboardCall::AuthorizeTrustline { authorizer: o.authorizer, holder: o.holder }),
            )
        } else {
            (Onboarding { stage: Stage::Done, ..o }, Step::Return(Err(Error::TrustFailed)))
        },
        Stage::Authorizing => if succeeded {
            (
                Onboarding { stage: Stage::Checking, ..o },
                Step::Call(OnboardCall::Authorized { sac: o.sac, holder: o.holder }),
            )
        } else {
            (Onboarding { stage: Stage::Done, ..o }, Step::Return(Err(Error::AuthorizationFailed)))
        },
        Stage::Checking => (
            Onboarding { stage: Stage::Done, ..o },
            Step::Return(if succeeded { Ok(()) } else { Err(Error::NotAuthorized) }),
        ),
        Stage::Done => (o, Step::Return(Ok(()))),
    }
}

impl TrustlineOnboard {
    /// Starts creating and authorizing `holder`'s trustline for the asset
    /// behind `sac`, where `authorizer` is the SAC admin. The first call is the
    /// holder's authorization check: the holder's is the one signature needed.
    pub fn onboard(sac: Address, authorizer: Address, holder: Address) -> (r: (Onboarding, OnboardCall))
        ensures
            r.0 == onboarding_start(sac, authorizer, holder),
            r.1 == OnboardCall::RequireAuth(holder),
    {
        (Onboarding { sac, authorizer, holder, stage: Stage::Authenticating }, OnboardCall::RequireAuth(holder))
    }
}

impl Onboarding {
    /// Takes the answer to the pending call: `succeeded` is whether the trustline
    /// could be created, whether the authorizer accepted it, or whether the
    /// holder is authorized, as the stage says. An authorization check that
    /// fails aborts the invocation, so it is answered only by success.
    pub fn resume(&mut self, succeeded: bool) -> (step: Step)
        requires
            old(self).stage != Stage::Done,
            old(self).stage == Stage::Authenticating ==> succeeded,
        ensures
            (*final(self), step) == onboarding_next(*old(self), succeeded),
    {
        match self.stage {
            Stage::Authenticating => {
                self.stage = Stage::Trusting;
                Step::Call(OnboardCall::Trust { sac: self.sac, holder: self.holder })
            },
            Stage::Trusting => {
                if succeeded {
                    self.stage = Stage::Authorizing;
                    Step::Call(OnboardCall::AuthorizeTrustline { authorizer: self.authorizer, holder: self.holder })
                } else {
                    self.stage = Stage::Done;
                    Step::Return(Err(Error::TrustFailed))
                }
            },
            Stage::Authorizing => {
                if succeeded {
                    self.stage = Stage::Checking;
                    Step::Call(OnboardCall::Authorized { sac: self.sac, holder: self.holder })
                } else {
                    self.stage = Stage::Done;
                    Step::Return(Err(Error::AuthorizationFailed))
                }
            },
            Stage::Checking => {
                self.stage = Stage::Done;
                if succeeded {
                    Step::Return(Ok(()))
                } else {
                    Step::Return(Err(Error::NotAuthorized))
                }
            },
            Stage::Done => Step::Return(Ok(())),
        }
    }

    /// Whether `onboard` has returned.
    pub fn is_done(&self) -> (done: bool)
        ensures
            done == (self.stage == Stage::Done),
    {
        self.stage == Stage::Done
    }
}

} // verus!
