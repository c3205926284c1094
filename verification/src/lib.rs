//! # moonblokz-vote
//!
//! Vote engine of a MoonBlokz node: a per-node accumulated-vote registry with
//! checked forward accumulation, capped anti-capture interest, exact rollback,
//! seeding from balance blocks and selection of the next eligible creator.
//!
//! The engine is fully deterministic: what it holds is a function of the blocks
//! it was handed, and creators are ordered by descending vote with ties broken by
//! ascending node id. Which node a transaction votes for is settled upstream.
//!
//! - [`engine`]: [`VoteEngine`], the registry and its operations.
//! - [`block`]: what the engine reads from a block.
//! - [`growth`]: the interest rule.
//! - [`transition`]: what a block does to the votes, as functions on sequences.
//! - [`order`]: the creator order.
//! - [`laws`]: what holds of the votes across blocks.

pub mod block;
pub mod count;
pub mod engine;
pub mod error;
pub mod growth;
pub mod laws;
pub mod nonzero;
pub mod order;
pub mod transition;

pub use block::{Block, NodeInfo, Payload, Transaction};
pub use engine::VoteEngine;
pub use error::VoteEngineError;
pub use nonzero::NonZeroU16;
