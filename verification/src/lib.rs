//! Trustline onboarding for `AUTH_REQUIRED` Stellar classic assets.
//!
//! The library holds the decision logic of two Soroban contracts:
//! - the trustline authorizer ([`authorizer::TrustlineAuthorizer`]), which acts
//!   as admin of a Stellar Asset Contract (SAC) and authorizes trustlines under a
//!   denylist or allowlist [`policy::Policy`];
//! - the one-signature onboarding wrapper ([`onboard::TrustlineOnboard`]).
//!
//! Every host effect of a contract call (storage writes, calls into the SAC,
//! authorization checks, events) is recorded, in order, in the [`env::Env`]
//! that the call runs against; a host binding performs them.
use vstd::prelude::*;

pub mod address;
pub mod address_set;
pub mod authorizer;
pub mod env;
pub mod events;
pub mod laws;
pub mod ledger;
pub mod onboard;
pub mod policy;
pub mod storage;

verus! {

} // verus!
