//! Light-client core for a GRANDPA-finalized chain.
//!
//! - [`scale`]: SCALE primitives (little-endian integers, compact integers).
//! - [`commit`]: decoding of GRANDPA commit messages into views borrowing from the input.
//! - [`justification`]: verification of a justification against an authority set.
//! - [`validate`]: transaction validation through the runtime, as a state machine that tells
//!   its caller which runtime call to start or resume and surfaces storage queries.

mod outside;

pub mod commit;
pub mod justification;
pub mod scale;
pub mod validate;
