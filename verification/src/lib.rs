//! Chunked delivery of large binary artifacts over a size-constrained,
//! message-oriented endpoint, together with the self-describing reassembly
//! script chain that lets an operator reconstruct the artifact from message
//! identifiers alone.

use vstd::prelude::*;

pub mod chunks;
pub mod config;
pub mod hook;
pub mod log;
pub mod multipart;
pub mod script;
pub mod temp;
pub mod text;
pub mod upload;

verus! {

/// Remote attachment ceiling: all chunks but the last are exactly this long.
pub const CHUNK_SIZE: usize = 1000 * 1000 * 25;

} // verus!
