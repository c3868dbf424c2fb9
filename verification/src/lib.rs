//! Verified core of a single-host process supervisor.
//!
//! The library models the supervision engine: the per-process lifecycle
//! state machine, the auto-restart backoff policy, the registry of
//! supervised processes, the persisted configuration store, the log sink
//! and log pagination, and the single-instance lock protocol. The
//! surrounding binary performs the actual process spawning, file and
//! network I/O, and hands plain values to these verified functions.

pub mod api;
pub mod auth;
pub mod backoff;
pub mod config;
pub mod instance;
pub mod logs;
pub mod paths;
pub mod registry;
pub mod status;
pub mod timefmt;
