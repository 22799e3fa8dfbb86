//! Order-preserving chunk compression coordinated by round-robin turn gates.

use vstd::prelude::*;

pub mod codec;
pub mod driver;
pub mod error;
pub mod gate;
pub mod model;
pub mod pipeline;
pub mod sink;
pub mod source;
pub mod worker;

verus! {

/// Number of bytes a worker asks for in one read when no other size is chosen.
pub const DEFAULT_CHUNK_SIZE: usize = 1024 * 256;

} // verus!
