//! Domain identifiers for capability-based discovery.

use vstd::prelude::*;

verus! {

/// AI domain (Squirrel).
pub const AI: &'static str = "ai";

/// Visualization domain (petalTongue).
pub const VISUALIZATION: &'static str = "visualization";

/// Compute domain (toadStool).
pub const COMPUTE: &'static str = "compute";

/// Storage domain (nestGate).
pub const STORAGE: &'static str = "storage";

/// Game science domain (ludoSpring).
pub const GAME: &'static str = "game";

/// DAG domain (rhizoCrypt).
pub const DAG: &'static str = "dag";

/// Lineage domain (loamSpine).
pub const LINEAGE: &'static str = "lineage";

/// Provenance domain (sweetGrass).
pub const PROVENANCE: &'static str = "provenance";

} // verus!
