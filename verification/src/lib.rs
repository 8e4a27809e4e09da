//! A minimal proof-of-stake blockchain core: accounts and state with a
//! deterministic state root, signed value-transfer transactions, a mempool
//! with replace-by-fee, gas accounting with an atomic state transition,
//! block execution, stake-weighted proposer selection, consensus-level block
//! validation, and a persistent block index.

pub mod account;
pub mod address;
pub mod block;
pub mod bytes;
pub mod chain;
pub mod consensus;
pub mod crypto;
pub mod execution;
pub mod gas;
pub mod mempool;
pub mod proposer;
pub mod state;
pub mod storage;
pub mod state_transition;
pub mod transaction;
pub mod validator;
pub mod u256;
