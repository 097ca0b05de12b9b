//! The chain itself: accounts, transactions, blocks, Merkle proofs and the
//! chain that ties them together.

pub mod account;
pub mod block;
pub mod blockchain;
pub mod merkel;
pub mod transaction;

pub use account::AccountManager;
pub use block::Block;
pub use blockchain::BlockChain;
pub use transaction::Transaction;
