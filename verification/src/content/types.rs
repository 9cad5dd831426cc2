//! Content data model: worlds, scenes, NPCs, abilities and the outline of
//! per-plane rulesets.

use vstd::prelude::*;

use crate::collections::{StrMap, ThresholdMap};
use crate::narrative::effect::StateEffect;
use crate::narrative::predicate::StatePredicate;

verus! {

/// World metadata.
#[derive(Debug)]
pub struct WorldMeta {
    /// World name.
    pub name: String,
    /// Author or team name.
    pub author: String,
    /// Content version.
    pub version: String,
    /// Short description.
    pub description: String,
}

impl Default for WorldMeta {
    fn default() -> (r: WorldMeta)
        ensures
            r.name@.len() == 0,
            r.author@.len() == 0,
            r.version@.len() == 0,
            r.description@.len() == 0,
    {
        WorldMeta {
            name: String::new(),
            author: String::new(),
            version: String::new(),
            description: String::new(),
        }
    }
}

/// A scene's content.
#[derive(Debug)]
pub struct SceneContent {
    /// Scene identifier (matches narrative node `content_ref`).
    pub id: String,
    /// Scene description text.
    pub description: String,
    /// NPCs present in this scene (by ID).
    pub npcs: Vec<String>,
    /// Items available in this scene (by ID).
    pub items: Vec<String>,
}

/// An ability/spell definition.
#[derive(Debug)]
pub struct AbilityDef {
    /// Ability identifier.
    pub id: String,
    /// Display name.
    pub name: String,
    /// Description.
    pub description: String,
    /// Preconditions to use this ability.
    pub preconditions: Vec<StatePredicate>,
    /// Effects when the ability is used.
    pub effects: Vec<StateEffect>,
    /// Hint for narration.
    pub narration_hint: Option<String>,
}

/// An NPC personality certificate: trust thresholds, knowledge, and
/// dialogue hooks.
#[derive(Debug)]
pub struct NpcDef {
    /// NPC identifier (short form, e.g. "maren").
    pub id: String,
    /// Display name.
    pub name: String,
    /// Narrative role.
    pub role: String,
    /// Knowledge this NPC possesses (for reference / narration prompting).
    pub knows: Vec<String>,
    /// Starting trust value.
    pub trust_initial: i32,
    /// Trust threshold rewards, in ascending order of threshold.
    pub trust_rewards: ThresholdMap<NpcTrustReward>,
    /// Topics this NPC lies about.
    pub lies_about: StrMap<LieInfo>,
    /// Arc description (for narration context).
    pub arc: String,
}

/// What an NPC reveals at a given trust threshold.
#[derive(Debug)]
pub struct NpcTrustReward {
    /// Human-readable description of what happens.
    pub description: String,
    /// Knowledge granted to the player.
    pub grants_knowledge: Vec<String>,
    /// Items given to the player.
    pub grants_items: Vec<String>,
    /// Flags set on the game state.
    pub sets_flags: Vec<String>,
}

impl Default for NpcTrustReward {
    fn default() -> (r: NpcTrustReward)
        ensures
            r.description@.len() == 0,
            r.grants_knowledge@.len() == 0,
            r.grants_items@.len() == 0,
            r.sets_flags@.len() == 0,
    {
        NpcTrustReward {
            description: String::new(),
            grants_knowledge: Vec::new(),
            grants_items: Vec::new(),
            sets_flags: Vec::new(),
        }
    }
}

/// Information about a topic an NPC lies about.
#[derive(Debug, Clone, Copy)]
pub struct LieInfo {
    /// Difficulty class to detect the lie.
    pub detection_dc: i32,
}

impl Default for LieInfo {
    fn default() -> (r: LieInfo)
        ensures
            r.detection_dc == 0,
    {
        LieInfo { detection_dc: 0 }
    }
}

/// What validation reads of a ruleset definition: whether it names its
/// plane, and, when it has a `rules` array, whether each rule has an id.
#[derive(Debug)]
pub struct RulesetOutline {
    /// Whether the definition has a `plane` field.
    pub has_plane: bool,
    /// For each entry of the `rules` array, whether it has an `id`;
    /// `None` when there is no `rules` array.
    pub rules_with_id: Option<Vec<bool>>,
}

} // verus!
