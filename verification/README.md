# trustline_onboarder

One-signature activation of `AUTH_REQUIRED` Stellar classic assets, with the
decision logic of its two Soroban contracts verified in Verus.

- `src/` — the verified library.
  - `authorizer.rs`: the trustline authorizer (admin of a Stellar Asset
    Contract): `authorize_trustline` under a denylist or allowlist policy,
    ban/unban, freeze/unfreeze, allow/disallow, deauthorize, mint, clawback,
    pause/unpause, admin handover, upgrade, and the views. Each operation is
    stated as an exact transition of the contract environment.
  - `storage.rs`, `events.rs`, `env.rs`, `address_set.rs`, `address.rs`,
    `policy.rs`: the contract's storage, its audit events, the environment a
    call runs against (storage plus the ordered host calls it made), and the
    plain values they are built from.
  - `onboard.rs`: the onboarding wrapper as a step function: from the answer
    to each host call to the next call or the result.
  - `laws.rs`: properties across operations (a frozen holder stays blocked,
    unban re-authorizes nobody, pause blocks and unpause restores, every admin
    operation first requires the admin, onboarding succeeds only when the holder
    ends up authorized, ...).
- `app/` — the Soroban contracts: each entry point loads what it reads from the
  ledger, calls the library, and performs the recorded host calls.
- `tests/` — scenarios for both contracts.
