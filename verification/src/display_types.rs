//! Protocol data in the form the client displays: bytes already rendered as
//! Base64URL text, ready to print.  Converting the network library's types
//! into these belongs to the surrounding program.

use vstd::prelude::*;
use crate::command::{Base64Hash, Base64String};

verus! {

/// An account's state, as displayed.
#[derive(Debug, Clone)]
pub struct Account {
    pub nonce: u64,
    pub balance: u64,
    pub cbi_version: Option<u32>,
    pub storage_hash: Option<Base64Hash>,
}

/// A block header, as displayed.
#[derive(Debug, Clone)]
pub struct BlockHeader {
    pub chain_id: u64,
    pub block_hash: String,
    pub height: u64,
    pub justify: QuorumCertificate,
    pub data_hash: String,
    pub timestamp: u32,
    pub base_fee: u64,
    pub txs_hash: String,
    pub state_hash: String,
    pub receipts_hash: String,
    pub proposer: String,
}

/// A quorum certificate, as displayed.
#[derive(Debug, Clone)]
pub struct QuorumCertificate {
    pub chain_id: u64,
    pub view: u64,
    pub block: Base64String,
    pub phase: Phase,
    pub signatures: SignatureSet,
}

/// A consensus phase, as displayed.
#[derive(Debug, Clone)]
pub enum Phase {
    Generic,
    Prepare,
    Precommit(u64),
    Commit(u64),
}

/// The signatures of a quorum certificate, as displayed.
#[derive(Debug, Clone)]
pub struct SignatureSet {
    pub signatures: Vec<Option<Base64String>>,
}

/// One event logged by a contract call, as displayed.
#[derive(Debug, Clone)]
pub struct Event {
    pub topic: String,
    pub value: String,
}

/// A command receipt of either protocol version, as displayed.
#[derive(Debug, Clone)]
pub enum CommandReceipt {
    V1(V1Receipt),
    V2(V2Receipt),
}

/// A first-version command receipt, as displayed.
#[derive(Debug, Clone)]
pub struct V1Receipt {
    pub exit_code: String,
    pub gas_used: u64,
    pub return_values: String,
    pub logs: Vec<Event>,
}

/// A second-version command receipt, as displayed; the optional parts are
/// filled only for the command kinds that carry them.
#[derive(Debug, Clone)]
pub struct V2Receipt {
    pub exit_code: String,
    pub gas_used: u64,
    pub return_values: Option<String>,
    pub logs: Option<Vec<Event>>,
    pub amount: Option<u64>,
}

impl V2Receipt {
    /// A receipt with only the exit code and gas: the shape every command
    /// kind shares.
    pub fn new(exit_code: String, gas_used: u64) -> (r: Self)
        ensures
            r.exit_code == exit_code,
            r.gas_used == gas_used,
            r.return_values is None,
            r.logs is None,
            r.amount is None,
    {
        V2Receipt { exit_code, gas_used, return_values: None, logs: None, amount: None }
    }

    /// The receipt with its return-value text filled.
    pub fn return_values(self, return_values: String) -> (r: Self)
        ensures
            r.return_values == Some(return_values),
            r.exit_code == self.exit_code,
            r.gas_used == self.gas_used,
            r.logs == self.logs,
            r.amount == self.amount,
    {
        V2Receipt { return_values: Some(return_values), ..self }
    }

    /// The receipt with its logs filled.
    pub fn logs(self, logs: Vec<Event>) -> (r: Self)
        ensures
            r.logs == Some(logs),
            r.exit_code == self.exit_code,
            r.gas_used == self.gas_used,
            r.return_values == self.return_values,
            r.amount == self.amount,
    {
        V2Receipt { logs: Some(logs), ..self }
    }

    /// The receipt with its withdrawn, staked or unstaked amount filled.
    pub fn amount(self, amount: u64) -> (r: Self)
        ensures
            r.amount == Some(amount),
            r.exit_code == self.exit_code,
            r.gas_used == self.gas_used,
            r.return_values == self.return_values,
            r.logs == self.logs,
    {
        V2Receipt { amount: Some(amount), ..self }
    }
}

/// One stake, as displayed.
#[derive(Debug, Clone)]
pub struct Stake {
    pub owner: Base64String,
    pub power: u64,
}

/// One deposit, as displayed.
#[derive(Debug, Clone)]
pub struct Deposit {
    pub balance: u64,
    pub auto_stake_rewards: bool,
}

/// A pool with or without its delegated stakes, as displayed.
#[derive(Debug, Clone)]
pub enum Pool {
    WithStakes(PoolWithDelegators),
    WithoutStakes(PoolWithoutDelegators),
}

/// A pool without its delegated stakes, as displayed.
#[derive(Debug, Clone)]
pub struct PoolWithoutDelegators {
    pub operator: Base64String,
    pub commission_rate: u8,
    pub power: u64,
    pub operator_stake: Option<Stake>,
}

/// A pool with its delegated stakes, as displayed.
#[derive(Debug, Clone)]
pub struct PoolWithDelegators {
    pub operator: Base64String,
    pub commission_rate: u8,
    pub power: u64,
    pub operator_stake: Option<Stake>,
    pub delegated_stakes: Vec<Stake>,
}

/// A validator chosen for the next epoch, as displayed.
#[derive(Debug, Clone)]
pub struct NextValidator {
    pub address: Base64String,
    pub power: u64,
}

/// A validator set with or without delegators, as displayed.
#[derive(Debug, Clone)]
pub enum ValidatorSet {
    WithDelegators(Vec<PoolWithDelegators>),
    WithoutDelegators(Vec<PoolWithoutDelegators>),
}

} // verus!
