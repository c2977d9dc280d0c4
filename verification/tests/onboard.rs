use trustline_onboarder::address::{Address, Bytes32};
use trustline_onboarder::authorizer::TrustlineAuthorizer;
use trustline_onboarder::env::Env;
use trustline_onboarder::onboard::{Error, OnboardCall, Onboarding, Stage, Step, TrustlineOnboard};
use trustline_onboarder::policy::Policy;

fn account(n: u128) -> Address {
    Address::account(Bytes32::new(0, n))
}

fn contract(n: u128) -> Address {
    Address::contract(Bytes32::new(n, 0))
}

/// A ledger with one asset contract whose admin is a trustline authorizer.
struct Ledger {
    sac: Address,
    authorizer: Address,
    authorizer_env: Env,
    trustlines: Vec<Address>,
    trust_works: bool,
}

impl Ledger {
    fn new(policy: Policy) -> Ledger {
        let issuer = account(1);
        let sac = contract(2);
        let authorizer = contract(3);
        let mut authorizer_env = Env::new();
        TrustlineAuthorizer::__constructor(&mut authorizer_env, issuer, sac, policy);
        Ledger { sac, authorizer, authorizer_env, trustlines: Vec::new(), trust_works: true }
    }

    fn authorized(&self, holder: &Address) -> bool {
        self.trustlines.contains(holder)
            && self.authorizer_env.authorization_of(&self.sac, holder).unwrap_or(false)
    }

    /// Makes `call` on this ledger and answers whether it succeeded.
    fn perform(&mut self, call: OnboardCall) -> bool {
        match call {
            OnboardCall::RequireAuth(_) => true,
            OnboardCall::Trust { sac, holder } => {
                if sac != self.sac || !self.trust_works {
                    return false;
                }
                if !self.trustlines.contains(&holder) {
                    self.trustlines.push(holder);
                }
                true
            }
            OnboardCall::AuthorizeTrustline { authorizer, holder } => {
                authorizer == self.authorizer
                    && TrustlineAuthorizer::authorize_trustline(&mut self.authorizer_env, holder).is_ok()
            }
            OnboardCall::Authorized { sac, holder } => sac == self.sac && self.authorized(&holder),
        }
    }

    /// Runs `onboard(sac, authorizer, holder)`; returns its result and the calls made.
    fn onboard(&mut self, sac: Address, authorizer: Address, holder: Address) -> (Result<(), Error>, Vec<OnboardCall>) {
        let (mut onboarding, mut call) = TrustlineOnboard::onboard(sac, authorizer, holder);
        let mut calls = Vec::new();
        loop {
            calls.push(call);
            let ok = self.perform(call);
            match onboarding.resume(ok) {
                Step::Call(next) => call = next,
                Step::Return(r) => {
                    assert!(onboarding.is_done());
                    return (r, calls);
                }
            }
        }
    }
}

#[test]
fn onboard_creates_trustline_and_authorizes() {
    let mut ledger = Ledger::new(Policy::Denylist);
    let holder = account(10);
    let (sac, authorizer) = (ledger.sac, ledger.authorizer);
    let (result, _) = ledger.onboard(sac, authorizer, holder);
    result.unwrap();
    assert!(ledger.authorized(&holder));
}

#[test]
fn onboard_reverts_for_banned_holder() {
    let mut ledger = Ledger::new(Policy::Denylist);
    let holder = account(10);
    let (sac, authorizer) = (ledger.sac, ledger.authorizer);

    // Holder has a trustline, then gets banned (ban = deauthorize + denylist).
    ledger.trustlines.push(holder);
    TrustlineAuthorizer::ban(&mut ledger.authorizer_env, vec![holder]);

    let (result, _) = ledger.onboard(sac, authorizer, holder);
    assert!(result.is_err());
    assert!(!ledger.authorized(&holder));
}

// --- further cases -------------------------------------------------------------

#[test]
fn onboard_calls_in_order() {
    let mut ledger = Ledger::new(Policy::Denylist);
    let holder = account(10);
    let (sac, authorizer) = (ledger.sac, ledger.authorizer);
    let (result, calls) = ledger.onboard(sac, authorizer, holder);
    assert_eq!(result, Ok(()));
    assert_eq!(
        calls,
        vec![
            OnboardCall::RequireAuth(holder),
            OnboardCall::Trust { sac, holder },
            OnboardCall::AuthorizeTrustline { authorizer, holder },
            OnboardCall::Authorized { sac, holder },
        ]
    );
}

#[test]
fn onboard_reports_trust_failure() {
    let mut ledger = Ledger::new(Policy::Denylist);
    ledger.trust_works = false;
    let holder = account(10);
    let (sac, authorizer) = (ledger.sac, ledger.authorizer);
    let (result, calls) = ledger.onboard(sac, authorizer, holder);
    assert_eq!(result, Err(Error::TrustFailed));
    assert_eq!(calls.len(), 2);
}

#[test]
fn onboard_reports_refusal_by_authorizer() {
    let mut ledger = Ledger::new(Policy::Allowlist);
    let holder = account(10);
    let (sac, authorizer) = (ledger.sac, ledger.authorizer);
    let (result, calls) = ledger.onboard(sac, authorizer, holder);
    assert_eq!(result, Err(Error::AuthorizationFailed));
    assert_eq!(calls.len(), 3);
    assert!(!ledger.authorized(&holder));
}

#[test]
fn onboard_detects_divergent_asset_contract() {
    // The authorizer administers another asset contract than the one named:
    // the trustline is created, the authorizer accepts, but the holder is not
    // authorized on the named asset contract.
    let mut ledger = Ledger::new(Policy::Denylist);
    let holder = account(10);
    let authorizer = ledger.authorizer;
    let real_sac = ledger.sac;
    let mut other = Env::new();
    TrustlineAuthorizer::__constructor(&mut other, account(1), contract(9), Policy::Denylist);
    ledger.authorizer_env = other;
    let (result, _) = ledger.onboard(real_sac, authorizer, holder);
    assert_eq!(result, Err(Error::NotAuthorized));
}

#[test]
fn onboarding_steps_one_by_one() {
    let sac = contract(2);
    let authorizer = contract(3);
    let holder = account(10);
    let (mut o, first) = TrustlineOnboard::onboard(sac, authorizer, holder);
    assert_eq!(first, OnboardCall::RequireAuth(holder));
    assert_eq!(o.stage, Stage::Authenticating);
    assert!(matches!(o.resume(true), Step::Call(OnboardCall::Trust { .. })));
    assert!(matches!(o.resume(true), Step::Call(OnboardCall::AuthorizeTrustline { .. })));
    assert!(matches!(o.resume(true), Step::Call(OnboardCall::Authorized { .. })));
    assert!(matches!(o.resume(false), Step::Return(Err(Error::NotAuthorized))));
    assert_eq!(o, Onboarding { sac, authorizer, holder, stage: Stage::Done });
}
