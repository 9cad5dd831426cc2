//! Session records: action kinds, the actions on offer, history entries,
//! snapshots and narration contexts.

use vstd::prelude::*;
use vstd::string::*;

use crate::text::str_eq;

verus! {

/// The kind of an action a player can take.
#[derive(Debug, Clone, Copy, PartialEq, Eq, Structural)]
pub enum ActionKind {
    /// Move along an exit.
    Exit,
    /// Talk to an NPC.
    Talk,
    /// Use an ability.
    Ability,
    /// Examine the surroundings.
    Examine,
}

/// The wire name of an action kind.
pub open spec fn kind_text(k: ActionKind) -> Seq<char> {
    match k {
        ActionKind::Exit => "exit"@,
        ActionKind::Talk => "talk"@,
        ActionKind::Ability => "ability"@,
        ActionKind::Examine => "examine"@,
    }
}

/// The action kind a wire name stands for.
pub open spec fn kind_of_text(s: Seq<char>) -> Option<ActionKind> {
    if s == "exit"@ {
        Some(ActionKind::Exit)
    } else if s == "talk"@ {
        Some(ActionKind::Talk)
    } else if s == "ability"@ {
        Some(ActionKind::Ability)
    } else if s == "examine"@ {
        Some(ActionKind::Examine)
    } else {
        None
    }
}

impl ActionKind {
    /// Read an action kind from its wire name (`exit`, `talk`, `ability`,
    /// `examine`); any other name is an error naming it.
    pub fn parse(s: &str) -> (r: Result<ActionKind, String>)
        ensures
            match kind_of_text(s@) {
                Some(k) => r == Ok::<ActionKind, String>(k),
                None => r is Err && r->Err_0@ == "unknown action kind: "@ + s@,
            },
    {
        if str_eq(s, "exit") {
            Ok(ActionKind::Exit)
        } else if str_eq(s, "talk") {
            Ok(ActionKind::Talk)
        } else if str_eq(s, "ability") {
            Ok(ActionKind::Ability)
        } else if str_eq(s, "examine") {
            Ok(ActionKind::Examine)
        } else {
            let mut e = String::from_str("unknown action kind: ");
            e.append(s);
            Err(e)
        }
    }

    /// The wire name of this kind.
    pub fn as_str(&self) -> (r: &'static str)
        ensures
            r@ == kind_text(*self),
    {
        match self {
            ActionKind::Exit => "exit",
            ActionKind::Talk => "talk",
            ActionKind::Ability => "ability",
            ActionKind::Examine => "examine",
        }
    }
}

/// Reading the wire name of a kind gives the kind back.
pub proof fn law_kind_text_round_trip(k: ActionKind)
    ensures
        kind_of_text(kind_text(k)) == Some(k),
{
    reveal_strlit("exit");
    reveal_strlit("talk");
    reveal_strlit("ability");
    reveal_strlit("examine");
    assert("exit"@[0] != "talk"@[0]);
    assert("exit"@[0] != "ability"@[0]);
    assert("exit"@.len() != "examine"@.len());
    assert("talk"@[0] != "ability"@[0]);
}

/// One recorded action in the session history.
#[derive(Debug, Clone)]
pub struct ActionRecord {
    /// Turn number when this action was taken (1-based after first act).
    pub turn: u32,
    /// Description of the action (`kind:id`).
    pub action: String,
    /// Outcome or narration text returned by the director.
    pub outcome: String,
    /// Narrative node id after the action resolved.
    pub node_after: String,
}

/// A possible action the player can take.
#[derive(Debug, Clone)]
pub struct AvailableAction {
    /// Action category.
    pub kind: ActionKind,
    /// Target identifier (node id, NPC id, ability id, etc.).
    pub id: String,
    /// Short label shown in the UI or action list.
    pub label: String,
    /// Optional extra text (ability description or blocked reason).
    pub detail: Option<String>,
}

/// Full game state snapshot: everything a player needs to decide.
#[derive(Debug)]
pub struct GameStateSnapshot {
    /// Whether the session is still active.
    pub session_active: bool,
    /// Current turn count.
    pub turn: u32,
    /// Current narrative node id.
    pub current_node: String,
    /// Text description of the current scene.
    pub scene_description: String,
    /// NPC ids present in the current scene.
    pub scene_npcs: Vec<String>,
    /// Whether the current node is an ending.
    pub is_ending: bool,
    /// Knowledge keys the player has gained, sorted.
    pub knowledge: Vec<String>,
    /// Inventory item ids, sorted.
    pub inventory: Vec<String>,
    /// Active flag names, sorted.
    pub flags: Vec<String>,
    /// Trust values per NPC, in the order they were first recorded.
    pub trust: Vec<(String, i32)>,
    /// Actions the player may take next.
    pub available_actions: Vec<AvailableAction>,
}

/// Context for narration generation.
#[derive(Debug)]
pub struct NarrationContext {
    /// Scene description before the action (for continuity).
    pub scene_description: String,
    /// NPCs that were in the scene before the action.
    pub scene_npcs: Vec<String>,
    /// Encoded player action (`kind:id`).
    pub player_action: String,
    /// Director outcome or narration text for this step.
    pub outcome_text: String,
    /// Knowledge keys after the action, sorted.
    pub knowledge: Vec<String>,
    /// Active flags after the action, sorted.
    pub active_flags: Vec<String>,
    /// Turn number after this action.
    pub turn: u32,
    /// Hints from abilities in the bundle (for narration guidance).
    pub narration_hints: Vec<String>,
}

} // verus!
