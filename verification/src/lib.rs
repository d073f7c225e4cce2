//! A minimal append-only ledger: blocks linked by SHA3-256 digests of their
//! canonical encoding, a proof-of-work search over the nonce, and a chain that
//! holds confirmed blocks beside candidate branches awaiting reconciliation.

pub mod block;
pub mod chain;
pub mod digest;
pub mod encoding;
pub mod laws;
pub mod mining;

pub use block::{Block, BlockView, DecodeError};
pub use chain::{BlockChain, ChainView};
pub use mining::{check_mine, MineError};
