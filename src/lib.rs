//! Handles to objects that live in a host-managed heap, and the local side of
//! the calls that move strings, byte arrays and fields across that boundary.
//!
//! - `handle`: owning handles and weak references, and the nil sentinel.
//! - `buffer`: sizing caller-owned buffers for read-back, and boundary lengths.
//! - `version`: the packed version stamp the host checks.
//! - `host`: the host heap as the boundary calls' contracts describe it, with
//!   the laws every such host obeys.

pub mod buffer;
pub mod handle;
pub mod host;
pub mod version;
