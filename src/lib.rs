//! A proof-of-work validator core: the cuckoo-cycle proof of work, the block
//! tree that tracks competing branches and decides rollbacks, and the
//! interpreter's stack and call-frame discipline.
pub mod cuckoo;
pub mod digest;
pub mod account_address;
pub mod block_tree;
pub mod miner;
pub mod interpreter;
pub mod mint;
pub mod consensus_db;
