//! The commands the client serves, as plain data.  Deriving the actual
//! command-line surface from these belongs to the surrounding program.

use vstd::prelude::*;

verus! {

/// A Base64URL-encoded account address.
pub type Base64Address = String;

/// A Base64URL-encoded hash.
pub type Base64Hash = String;

/// A Base64URL-encoded byte string.
pub type Base64String = String;

/// Construct and submit transactions.
#[derive(Debug, Clone)]
pub enum Transaction {
    /// Create a new transaction file with one command.
    Create {
        destination: Option<String>,
        v1: bool,
        v2: bool,
        nonce: u64,
        gas_limit: u64,
        max_base_fee_per_gas: u64,
        priority_fee_per_gas: u64,
        create_tx_subcommand: CreateTx,
    },
    /// Append a command to an existing transaction file.
    Append { file: String, create_tx_subcommand: CreateTx },
    /// Submit a transaction file, signing with a named keypair.
    Submit { file: String, keypair_name: String },
}

/// Query blockchain and world-state information.
#[derive(Debug, Clone)]
pub enum Query {
    Balance { address: Base64Address },
    Nonce { address: Base64Address },
    Contract { address: Base64Address, destination: Option<String> },
    Storage { address: Base64Address, key: Base64String },
    View { target: Base64Address, method: String, arguments: Option<String> },
    Block {
        block_height: Option<u64>,
        block_hash: Option<Base64Hash>,
        tx_hash: Option<Base64Hash>,
        latest: bool,
    },
    BlockHeader {
        block_height: Option<u64>,
        block_hash: Option<Base64Hash>,
        tx_hash: Option<Base64Hash>,
        latest: bool,
    },
    Tx { tx_hash: Base64Hash },
    Receipt { tx_hash: Base64Hash },
    Deposit { operator: Base64Address, owner: Base64Address },
    Pool { operator: Base64Address, with_stakes: bool },
    Stake { operator: Base64Address, owner: Base64Address },
    Validators { validator_subcommand: Validators },
}

/// Get and set the fullnode RPC URL.
#[derive(Debug, Clone)]
pub enum ConfigCommand {
    Setup { url: String },
    List,
}

/// Store and manage account keypairs.
#[derive(Debug, Clone)]
pub enum Keys {
    List,
    Create { keypair_name: Option<String> },
    Import { private_key: Base64Address, public_key: Base64Address, keypair_name: String },
    Export { keypair_name: String, destination: Option<String> },
    Sign { message: String, keypair_name: String },
}

/// Utility parsing commands.
#[derive(Debug, Clone)]
pub enum Parse {
    Base64Encoding { encode: bool, decode: bool, value: String },
    CallResult { value: String, data_type: Option<String>, schema_file: Option<String> },
    ContractAddress { version: ContractAddressVersion },
}

/// Which way a Base64URL conversion goes.
#[derive(Debug, Clone)]
pub enum Base64Encode {
    Encode,
    Decode,
}

/// Which epoch's validator set to query.
#[derive(Debug, Clone)]
pub enum Validators {
    Previous { with_delegator: bool },
    Current { with_delegator: bool },
    Next { with_delegator: bool },
}

/// Which contract address derivation to use.
#[derive(Debug, Clone)]
pub enum ContractAddressVersion {
    V1 { address: Base64Address, nonce: u64 },
    V2 { address: Base64Address, nonce: u64, index: u32 },
}

/// The command a new transaction carries.
#[derive(Debug, Clone)]
pub enum CreateTx {
    Transfer { recipient: Base64Address, amount: u64 },
    Deploy { contract_code: String, cbi_version: u32 },
    Call {
        target: Base64Address,
        method: String,
        arguments: Option<String>,
        amount: Option<u64>,
    },
    Deposit { deposit_tx_subcommand: DepositTx },
    Stake { stake_tx_subcommand: StakeTx },
    Pool { pool_tx_subcommand: PoolTx },
}

/// Pool management commands.
#[derive(Debug, Clone)]
pub enum PoolTx {
    Create { commission_rate: u8 },
    UpdateSettings { commission_rate: u8 },
    Delete,
}

/// Deposit management commands.
#[derive(Debug, Clone)]
pub enum DepositTx {
    Create { operator: Base64Address, balance: u64, auto_stake_rewards: bool },
    TopUp { operator: Base64Address, amount: u64 },
    Withdraw { operator: Base64Address, max_amount: u64 },
    UpdateSettings { operator: Base64Address, auto_stake_rewards: bool },
}

/// Stake management commands.
#[derive(Debug, Clone)]
pub enum StakeTx {
    Stake { operator: Base64Address, max_amount: u64 },
    Unstake { operator: Base64Address, max_amount: u64 },
}

} // verus!
