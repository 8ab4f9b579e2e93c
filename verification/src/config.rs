//! The settings record shared by the supervisor and every worker. Loading it
//! from the environment is an external collaborator's job; the core only
//! consumes the ready value, immutable after load.
use vstd::prelude::*;

verus! {

/// The resolved server configuration.
#[derive(Clone, Debug)]
pub struct Settings {
    /// The address the listening socket is bound to.
    pub addr: String,
    /// How many worker processes the supervisor forks.
    pub workers: usize,
    /// The bounded multiplexing wait, in milliseconds.
    pub poll_timeout_ms: u16,
    /// How many bytes each non-blocking read asks for.
    pub read_chunk: usize,
    /// The confinement root directory static requests resolve against.
    pub doc_root: String,
}

} // verus!
