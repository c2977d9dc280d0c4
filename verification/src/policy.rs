//! The authorization policy of an asset's trustlines.
use vstd::prelude::*;

verus! {

/// Authorization policy for an asset's trustlines.
///
/// - `Denylist` (default, frictionless): every trustline is authorized on
///   request unless its holder is banned. Onboarding is open and compliance acts
///   by exception (freeze / ban).
/// - `Allowlist` (gated): a trustline is authorized only if its holder was
///   explicitly allowed first (e.g. per-user KYC before holding).
#[derive(Clone, Copy, Debug, PartialEq, Eq, Structural)]
pub enum Policy {
    Denylist,
    Allowlist,
}

} // verus!
