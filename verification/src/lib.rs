//! Core logic of a validator-election manager: a timeline calculator that
//! locates the current moment on the validation round, decision planners for
//! the direct and the pooled election modes, the state machine of the
//! blockchain subscription engine (pending-message correlation, transaction
//! dispatch, garbage collection, shards edge), the exponential retry policy,
//! and the shutdown-guard protocol. All chain I/O, signing and encoding stay
//! outside; the functions here work on plain values extracted from the chain.

pub mod backoff;
pub mod depool;
pub mod elector;
pub mod engine;
pub mod guard;
pub mod scheduler;
pub mod shards;
pub mod timeline;
pub mod types;
