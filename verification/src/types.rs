//! Blocks, transactions and tags as an Arweave node serves them in JSON: binary fields
//! are Base64-URL text.

use vstd::prelude::*;

verus! {

/// A tag of a block or a transaction.
#[derive(Debug, Clone)]
pub struct Tag {
    pub name: String,
    pub value: String,
}

/// A transaction.
#[derive(Debug, Clone)]
pub struct Transaction {
    pub format: u32,
    pub id: String,
    pub last_tx: String,
    pub owner: String,
    pub tags: Vec<Tag>,
    pub target: String,
    pub quantity: String,
    pub data: String,
    pub data_size: String,
    pub data_root: String,
    pub signature: String,
    pub reward: String,
}

/// A proof of access.
#[derive(Debug, Clone)]
pub struct Poa {
    pub option: String,
    pub tx_path: String,
    pub data_path: String,
    pub chunk: String,
}

/// A block.
#[derive(Debug, Clone)]
pub struct FirehoseBlock {
    pub nonce: String,
    pub previous_block: String,
    pub timestamp: u64,
    pub last_retarget: u64,
    pub diff: String,
    pub height: u64,
    pub hash: String,
    pub indep_hash: String,
    pub txs: Vec<Transaction>,
    pub tags: Vec<Tag>,
    pub wallet_list: String,
    pub reward_addr: String,
    pub reward_pool: String,
    pub weave_size: String,
    pub block_size: String,
    pub cumulative_diff: Option<String>,
    pub hash_list_merkle: Option<String>,
    pub tx_root: Option<String>,
    pub poa: Option<Poa>,
}

} // verus!
