//! Esoteric Webb: a narrative direction engine for a composed CRPG.
//!
//! The library holds the authored narrative graph and its validation, the
//! world state with its predicates and effects, the game director and
//! session, the autoplay heuristic, and the pure parts of the IPC layer
//! (error classification, circuit breaking, discovery bookkeeping,
//! deploy-graph ordering).

pub mod text;
pub mod error;
pub mod collections;
pub mod narrative;
pub mod state;
pub mod ipc;
pub mod niche;
pub mod content;
pub mod director;
pub mod session;
pub mod autoplay;
pub mod science;
pub mod experiment;
pub mod preview;
