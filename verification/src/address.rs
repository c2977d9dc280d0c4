//! Stellar addresses, as the contracts see them: an account (`G...`) holding
//! an Ed25519 public key, or a contract (`C...`) identified by its hash.
use vstd::prelude::*;

verus! {

/// A 32-byte value (a public key, a contract hash or a Wasm hash), held as its
/// big-endian high and low 16-byte halves.
#[derive(Clone, Copy, Debug, PartialEq, Eq, Structural)]
pub struct Bytes32 {
    pub hi: u128,
    pub lo: u128,
}

/// The two kinds of address a contract deals with.
#[derive(Clone, Copy, Debug, PartialEq, Eq, Structural)]
pub enum AddressKind {
    /// An account address (`G...`): the key is its Ed25519 public key.
    Account,
    /// A contract address (`C...`): the key is the contract hash.
    Contract,
}

/// A Stellar address.
#[derive(Clone, Copy, Debug, PartialEq, Eq, Structural)]
pub struct Address {
    pub kind: AddressKind,
    pub key: Bytes32,
}

impl Bytes32 {
    /// Builds the value from its two halves.
    pub fn new(hi: u128, lo: u128) -> (b: Bytes32)
        ensures
            b.hi == hi,
            b.lo == lo,
    {
        Bytes32 { hi, lo }
    }
}

impl Address {
    /// The account address with the given Ed25519 public key.
    pub fn account(key: Bytes32) -> (a: Address)
        ensures
            a.kind == AddressKind::Account,
            a.key == key,
    {
        Address { kind: AddressKind::Account, key }
    }

    /// The contract address with the given contract hash.
    pub fn contract(key: Bytes32) -> (a: Address)
        ensures
            a.kind == AddressKind::Contract,
            a.key == key,
    {
        Address { kind: AddressKind::Contract, key }
    }
}

} // verus!
