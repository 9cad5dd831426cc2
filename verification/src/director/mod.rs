//! The game director: resolves player input against the current scene and
//! its valid exits, evaluates predicates, applies effects, and narrates.
//!
//! Counters (turns, trust) follow the integer semantics of release builds:
//! they wrap at the bounds of their type.

use vstd::prelude::*;
use vstd::string::*;

use crate::collections::string_views;
use crate::content::ContentBundle;
use crate::error::WebbError;
use crate::narrative::predicate::{StatePredicate, predicate_text, predicates_text};
use crate::narrative::{
    NarrativeEdge, NarrativeNode, deref_edges, edge_accepted, edge_rejected, exits_selected,
    select_edges, sort_by_priority,
};
use crate::state::{StateModel, WorldState, all_hold, apply_all, holds, lemma_all_hold, tick_model};
use crate::text::{int_decimal, nat_decimal, str_eq, u64_to_string};

pub mod talk;

pub use talk::{trust_demeanor, demeanor_text};

verus! {

/// Player input that the director resolves.
#[derive(Debug, Clone)]
pub enum PlayerInput {
    /// Choose a specific exit by target node ID.
    ChooseExit(String),
    /// Use an ability by ID.
    UseAbility(String),
    /// Examine the current scene.
    Examine,
    /// Talk to an NPC in the current scene.
    Talk(String),
}

/// The result of processing a single input.
#[derive(Debug)]
pub enum DirectorOutcome {
    /// Pure narration (no state change).
    Narration(String),
    /// Moved to a new scene.
    SceneChange {
        /// Target node we moved to.
        node_id: String,
        /// Narration for the transition.
        narration: String,
    },
    /// Input had no effect.
    NoEffect(String),
}

/// The game director runtime: holds only the position; everything else is
/// borrowed.
#[derive(Debug)]
pub struct GameDirector {
    current_node: String,
}

/// The node stored under `id`.
pub open spec fn node_of(b: ContentBundle, id: Seq<char>) -> Option<NarrativeNode> {
    b.narrative.nodes.spec_get(id)
}

/// For each exit, whether all of its conditions hold in `m`.
pub open spec fn passing(m: StateModel, exits: Seq<NarrativeEdge>) -> Seq<bool> {
    Seq::new(exits.len(), |i: int| all_hold(m, exits[i].conditions@))
}

/// The exits of node `id` whose conditions hold in `m`, stably sorted by
/// priority, highest first.
pub open spec fn exits_of(b: ContentBundle, id: Seq<char>, m: StateModel) -> Seq<NarrativeEdge> {
    match node_of(b, id) {
        Some(n) => sort_by_priority(select_edges(n.exits@, passing(m, n.exits@))),
        None => Seq::empty(),
    }
}

/// Whether node `id` is an ending.
pub open spec fn ending_at(b: ContentBundle, id: Seq<char>) -> bool {
    match node_of(b, id) {
        Some(n) => n.is_ending,
        None => false,
    }
}

/// The content reference of node `id` (empty for an unknown node).
pub open spec fn content_ref_of(b: ContentBundle, id: Seq<char>) -> Seq<char> {
    match node_of(b, id) {
        Some(n) => n.content_ref@,
        None => Seq::empty(),
    }
}

/// The description of the scene at node `id`.
pub open spec fn scene_text(b: ContentBundle, id: Seq<char>) -> Seq<char> {
    match b.scenes.spec_get(content_ref_of(b, id)) {
        Some(s) => s.description@,
        None => "[no scene content for '"@ + id + "']"@,
    }
}

/// Whether some edge of `es` leads to `target`.
pub open spec fn leads_to(es: Seq<NarrativeEdge>, target: Seq<char>) -> bool {
    exists|i: int| 0 <= i < es.len() && es[i].target@ == target
}

/// The predicates of `ps` that fail in `m`, in order.
pub open spec fn failed_predicates(m: StateModel, ps: Seq<StatePredicate>) -> Seq<StatePredicate>
    decreases ps.len(),
{
    if ps.len() == 0 {
        Seq::empty()
    } else if holds(m, ps.last()) {
        failed_predicates(m, ps.drop_last())
    } else {
        failed_predicates(m, ps.drop_last()).push(ps.last())
    }
}

/// What happens, in state `m` at node `at`, when the player chooses the
/// exit to `target`: the new position, the new state and the outcome.
pub open spec fn exit_step(b: ContentBundle, at: Seq<char>, m: StateModel, target: Seq<char>) -> (
    Seq<char>,
    StateModel,
    Outcome,
) {
    if !leads_to(exits_of(b, at, m), target) {
        (at, m, Outcome::NoEffect("Cannot go to '"@ + target + "' from here."@))
    } else {
        let applied = match node_of(b, target) {
            Some(n) => apply_all(m, n.effects@),
            None => m,
        };
        let moved = StateModel { node: target, turn: applied_turn(applied.turn), ..applied };
        (target, tick_model(moved), Outcome::SceneChange(target, scene_text(b, target)))
    }
}

/// The turn after `t`, wrapping at the bound of `u32`.
pub open spec fn applied_turn(t: nat) -> nat {
    if t + 1 > u32::MAX {
        0
    } else {
        t + 1
    }
}

/// The mathematical content of an outcome.
pub enum Outcome {
    /// Narration.
    Narration(Seq<char>),
    /// A move to a node, with its narration.
    SceneChange(Seq<char>, Seq<char>),
    /// No effect, with the reason.
    NoEffect(Seq<char>),
}

/// The mathematical content of a director outcome.
pub open spec fn outcome_view(o: DirectorOutcome) -> Outcome {
    match o {
        DirectorOutcome::Narration(s) => Outcome::Narration(s@),
        DirectorOutcome::SceneChange { node_id, narration } => Outcome::SceneChange(
            node_id@,
            narration@,
        ),
        DirectorOutcome::NoEffect(s) => Outcome::NoEffect(s@),
    }
}

/// The note on newly available paths after using an ability.
pub open spec fn paths_note(n: nat) -> Seq<char> {
    if n > 0 {
        " ["@ + nat_decimal(n) + " path(s) now available]"@
    } else {
        Seq::empty()
    }
}

/// What happens, in state `m` at node `at`, when the player uses ability
/// `id`: the new state and the outcome.
pub open spec fn ability_step(b: ContentBundle, at: Seq<char>, m: StateModel, id: Seq<char>) -> (
    StateModel,
    Outcome,
) {
    match b.abilities.spec_get(id) {
        None => (m, Outcome::NoEffect("Unknown ability: "@ + id)),
        Some(a) => if !all_hold(m, a.preconditions@) {
            (
                m,
                Outcome::NoEffect(
                    "Cannot use '"@ + a.name@ + "' — unmet: "@ + predicates_text(
                        failed_predicates(m, a.preconditions@),
                    ),
                ),
            )
        } else {
            let m2 = apply_all(m, a.effects@);
            let hint = match a.narration_hint {
                Some(h) => h@,
                None => "The effect takes hold."@,
            };
            (
                m2,
                Outcome::Narration(
                    "You use "@ + a.name@ + ". "@ + hint + paths_note(exits_of(b, at, m2).len()),
                ),
            )
        },
    }
}

/// The edges of `es` stripped to references, for the proof of exit selection.
proof fn lemma_passing_selected<F: Fn(&StatePredicate) -> bool>(
    f: F,
    m: StateModel,
    exits: Seq<NarrativeEdge>,
    keep: Seq<bool>,
    r: Seq<NarrativeEdge>,
)
    requires
        exits_selected(f, exits, keep, r),
        forall|p: &StatePredicate, b: bool| call_ensures(f, (p,), b) ==> b == holds(m, *p),
    ensures
        keep == passing(m, exits),
{
    assert forall|i: int| 0 <= i < exits.len() implies keep[i] == passing(m, exits)[i] by {
        lemma_all_hold(m, exits[i].conditions@);
        if keep[i] {
            assert(edge_accepted(f, exits[i]));
            assert forall|j: int| 0 <= j < exits[i].conditions@.len() implies holds(
                m,
                #[trigger] exits[i].conditions@[j],
            ) by {
                assert(call_ensures(f, (&exits[i].conditions@[j],), true));
            }
        } else {
            assert(edge_rejected(f, exits[i]));
            let j = choose|j: int|
                0 <= j < exits[i].conditions@.len() && call_ensures(
                    f,
                    (&exits[i].conditions@[j],),
                    false,
                );
            assert(!holds(m, exits[i].conditions@[j]));
        }
    }
    assert(keep =~= passing(m, exits));
}

impl GameDirector {
    /// The current node id.
    pub closed spec fn node(&self) -> Seq<char> {
        self.current_node@
    }

    /// A director positioned at the content's start node;
    /// `WebbError::NoStartNode` when the narrative has none.
    pub fn new(bundle: &ContentBundle) -> (r: Result<GameDirector, WebbError>)
        ensures
            match crate::narrative::first_start(bundle.narrative.node_seq()) {
                Some(i) => r is Ok && r->Ok_0.node() == bundle.narrative.node_seq()[i].id@,
                None => r == Err::<GameDirector, WebbError>(WebbError::NoStartNode),
            },
    {
        match bundle.narrative.start_node() {
            Some(start) => Ok(GameDirector { current_node: start.id.clone() }),
            None => Err(WebbError::NoStartNode),
        }
    }

    /// A director positioned at node `id`.
    pub fn at(id: &str) -> (r: GameDirector)
        ensures
            r.node() == id@,
    {
        GameDirector { current_node: id.to_owned() }
    }

    /// The current narrative node id.
    pub fn current_node_id(&self) -> (r: &str)
        ensures
            r@ == self.node(),
    {
        self.current_node.as_str()
    }

    /// The exits of the current node whose conditions hold in `state`,
    /// sorted by priority, highest first (ties keep their authored order).
    pub fn available_exits<'a>(&self, bundle: &'a ContentBundle, state: &WorldState) -> (r: Vec<
        &'a NarrativeEdge,
    >)
        ensures
            deref_edges(r@) == exits_of(*bundle, self.node(), state.model()),
    {
        let f = |p: &StatePredicate| -> (b: bool)
            ensures
                b == holds(state.model(), *p),
            { state.evaluate(p) };
        let r = bundle.narrative.valid_exits(self.current_node.as_str(), f);
        proof {
            match bundle.narrative.nodes.spec_get(self.node()) {
                Some(n) => {
                    let keep = choose|keep: Seq<bool>| exits_selected(f, n.exits@, keep, deref_edges(r@));
                    lemma_passing_selected(f, state.model(), n.exits@, keep, deref_edges(r@));
                },
                None => {
                    assert(deref_edges(r@) =~= Seq::<NarrativeEdge>::empty());
                },
            }
        }
        r
    }

    /// Whether the current node is an ending.
    pub fn is_at_ending(&self, bundle: &ContentBundle) -> (r: bool)
        ensures
            r == ending_at(*bundle, self.node()),
    {
        match bundle.narrative.get(self.current_node.as_str()) {
            Some(n) => n.is_ending,
            None => false,
        }
    }

    /// The description of the current scene.
    pub fn current_scene_description(&self, bundle: &ContentBundle) -> (r: String)
        ensures
            r@ == scene_text(*bundle, self.node()),
    {
        let content_ref: &str = match bundle.narrative.get(self.current_node.as_str()) {
            Some(n) => n.content_ref.as_str(),
            None => {
                proof {
                    reveal_strlit("");
                    assert(""@ =~= Seq::<char>::empty());
                }
                ""
            },
        };
        match bundle.scenes.get(content_ref) {
            Some(scene) => scene.description.clone(),
            None => {
                let mut s = String::from_str("[no scene content for '");
                s.append(self.current_node.as_str());
                s.append("']");
                s
            },
        }
    }

    /// Process a player input and advance the game state.
    pub fn process(&mut self, input: &PlayerInput, state: &mut WorldState, bundle: &ContentBundle) -> (r:
        DirectorOutcome)
        ensures
            match *input {
                PlayerInput::ChooseExit(t) => {
                    let step = exit_step(*bundle, old(self).node(), old(state).model(), t@);
                    final(self).node() == step.0 && final(state).model() == step.1 && outcome_view(r)
                        == step.2
                },
                PlayerInput::UseAbility(a) => {
                    let step = ability_step(*bundle, old(self).node(), old(state).model(), a@);
                    final(self).node() == old(self).node() && final(state).model() == step.0
                        && outcome_view(r) == step.1
                },
                PlayerInput::Examine => final(self).node() == old(self).node() && final(state).model()
                    == old(state).model() && outcome_view(r) == Outcome::Narration(
                    scene_text(*bundle, old(self).node()),
                ),
                PlayerInput::Talk(n) => {
                    let step = talk::talk_step(*bundle, old(self).node(), old(state).model(), n@);
                    final(self).node() == old(self).node() && final(state).model() == step.0
                        && outcome_view(r) == step.1
                },
            },
    {
        match input {
            PlayerInput::ChooseExit(target) => self.process_exit(target.as_str(), state, bundle),
            PlayerInput::UseAbility(ability_id) => self.process_ability(ability_id.as_str(), state, bundle),
            PlayerInput::Examine => DirectorOutcome::Narration(self.current_scene_description(bundle)),
            PlayerInput::Talk(npc_id) => self.process_talk(npc_id.as_str(), state, bundle),
        }
    }

    fn process_exit(&mut self, target: &str, state: &mut WorldState, bundle: &ContentBundle) -> (r:
        DirectorOutcome)
        ensures
            ({
                let step = exit_step(*bundle, old(self).node(), old(state).model(), target@);
                final(self).node() == step.0 && final(state).model() == step.1 && outcome_view(r)
                    == step.2
            }),
    {
        let ghost m0 = state.model();
        let exits = self.available_exits(bundle, state);
        let mut valid = false;
        let mut i: usize = 0;
        while i < exits.len()
            invariant
                i <= exits@.len(),
                deref_edges(exits@) == exits_of(*bundle, self.node(), m0),
                valid == exists|j: int| 0 <= j < i && deref_edges(exits@)[j].target@ == target@,
            decreases exits@.len() - i,
        {
            if str_eq(exits[i].target.as_str(), target) {
                valid = true;
            }
            proof {
                assert(deref_edges(exits@)[i as int] == *exits@[i as int]);
            }
            i = i + 1;
        }
        if !valid {
            let mut s = String::from_str("Cannot go to '");
            s.append(target);
            s.append("' from here.");
            return DirectorOutcome::NoEffect(s);
        }
        match bundle.narrative.get(target) {
            Some(target_node) => {
                let mut k: usize = 0;
                while k < target_node.effects.len()
                    invariant
                        k <= target_node.effects@.len(),
                        state.model() == apply_all(m0, target_node.effects@.subrange(0, k as int)),
                    decreases target_node.effects@.len() - k,
                {
                    proof {
                        assert(target_node.effects@.subrange(0, k + 1).drop_last() =~= target_node.effects@.subrange(0, k as int));
                    }
                    state.apply(&target_node.effects[k]);
                    k = k + 1;
                }
                assert(target_node.effects@.subrange(0, target_node.effects@.len() as int) =~= target_node.effects@);
            },
            None => {},
        }
        self.current_node = target.to_owned();
        state.current_node = target.to_owned();
        state.turn = state.turn.wrapping_add(1);
        state.tick_conditions();
        let narration = self.current_scene_description(bundle);
        DirectorOutcome::SceneChange { node_id: target.to_owned(), narration }
    }

    fn process_ability(&self, ability_id: &str, state: &mut WorldState, bundle: &ContentBundle) -> (r:
        DirectorOutcome)
        ensures
            ({
                let step = ability_step(*bundle, self.node(), old(state).model(), ability_id@);
                final(state).model() == step.0 && outcome_view(r) == step.1
            }),
    {
        let ghost m0 = state.model();
        let ability = match bundle.abilities.get(ability_id) {
            Some(a) => a,
            None => {
                let mut s = String::from_str("Unknown ability: ");
                s.append(ability_id);
                return DirectorOutcome::NoEffect(s);
            },
        };
        proof {
            lemma_all_hold(m0, ability.preconditions@);
        }
        let mut can_use = true;
        let mut failed = String::new();
        let mut nfailed: usize = 0;
        let mut i: usize = 0;
        while i < ability.preconditions.len()
            invariant
                i <= ability.preconditions@.len(),
                state.model() == m0,
                can_use == forall|j: int| 0 <= j < i ==> holds(m0, #[trigger] ability.preconditions@[j]),
                failed@ == predicates_text(failed_predicates(m0, ability.preconditions@.subrange(0, i as int))),
                nfailed == failed_predicates(m0, ability.preconditions@.subrange(0, i as int)).len(),
                nfailed <= i,
            decreases ability.preconditions@.len() - i,
        {
            let p = &ability.preconditions[i];
            let ghost sub = ability.preconditions@.subrange(0, i + 1);
            proof {
                assert(sub.drop_last() =~= ability.preconditions@.subrange(0, i as int));
                assert(sub.last() == *p);
            }
            if !state.evaluate(p) {
                can_use = false;
                let d = p.describe();
                proof {
                    let fs = failed_predicates(m0, sub);
                    assert(fs.drop_last() == failed_predicates(m0, ability.preconditions@.subrange(0, i as int)));
                    assert(fs.last() == *p);
                }
                if nfailed > 0 {
                    failed.append(", ");
                }
                failed.append(d.as_str());
                nfailed = nfailed + 1;
                proof {
                    let fs = failed_predicates(m0, sub);
                    if fs.len() == 1 {
                        assert(fs.drop_last().len() == 0);
                        assert(failed@ =~= predicate_text(fs[0]));
                    } else {
                        assert(failed@ =~= predicates_text(fs.drop_last()) + ", "@ + predicate_text(fs.last()));
                    }
                }
            }
            i = i + 1;
        }
        proof {
            assert(ability.preconditions@.subrange(0, ability.preconditions@.len() as int) =~= ability.preconditions@);
        }
        if !can_use {
            let mut s = String::from_str("Cannot use '");
            s.append(ability.name.as_str());
            s.append("' — unmet: ");
            s.append(failed.as_str());
            return DirectorOutcome::NoEffect(s);
        }
        let mut k: usize = 0;
        while k < ability.effects.len()
            invariant
                k <= ability.effects@.len(),
                state.model() == apply_all(m0, ability.effects@.subrange(0, k as int)),
            decreases ability.effects@.len() - k,
        {
            proof {
                assert(ability.effects@.subrange(0, k + 1).drop_last() =~= ability.effects@.subrange(0, k as int));
            }
            state.apply(&ability.effects[k]);
            k = k + 1;
        }
        assert(ability.effects@.subrange(0, ability.effects@.len() as int) =~= ability.effects@);
        let exits_now = self.available_exits(bundle, state);
        let new_exits = exits_now.len();
        let ghost m2 = state.model();
        proof {
            assert(deref_edges(exits_now@).len() == exits_now@.len());
            assert(new_exits == exits_of(*bundle, self.node(), m2).len());
        }
        let mut s = String::from_str("You use ");
        s.append(ability.name.as_str());
        s.append(". ");
        match &ability.narration_hint {
            Some(h) => s.append(h.as_str()),
            None => s.append("The effect takes hold."),
        }
        if new_exits > 0 {
            s.append(" [");
            let digits = u64_to_string(new_exits as u64);
            s.append(digits.as_str());
            s.append(" path(s) now available]");
        }
        proof {
            let hint = match &ability.narration_hint {
                Some(h) => h@,
                None => "The effect takes hold."@,
            };
            assert(s@ =~= "You use "@ + ability.name@ + ". "@ + hint + paths_note(new_exits as nat));
        }
        DirectorOutcome::Narration(s)
    }
}

/// Choosing an exit that is on offer moves to its target and takes a turn.
/// After the target's effects are applied (`pre`), the turn counts up by
/// one, every timed condition counts down by one turn, a condition with a
/// single turn left expires, a permanent one (no turns counted) stays, no
/// condition appears from nowhere, and the rest of the state is kept.
pub proof fn law_moving_takes_a_turn(b: ContentBundle, at: Seq<char>, m: StateModel, target: Seq<char>)
    requires
        leads_to(exits_of(b, at, m), target),
    ensures
        ({
            let pre = match node_of(b, target) {
                Some(n) => apply_all(m, n.effects@),
                None => m,
            };
            let step = exit_step(b, at, m, target);
            let post = step.1;
            &&& step.0 == target
            &&& step.2 matches Outcome::SceneChange(to, _) && to == target
            &&& post.node == target
            &&& pre.turn < u32::MAX ==> post.turn == pre.turn + 1
            &&& forall|c: Seq<char>| #[trigger] pre.conditions.contains_key(c) && pre.conditions[c] > 1
                ==> post.conditions.contains_key(c) && post.conditions[c] == pre.conditions[c] - 1
            &&& forall|c: Seq<char>| #[trigger] pre.conditions.contains_key(c) && pre.conditions[c] == 1
                ==> !post.conditions.contains_key(c)
            &&& forall|c: Seq<char>| #[trigger] pre.conditions.contains_key(c) && pre.conditions[c] == 0
                ==> post.conditions.contains_key(c) && post.conditions[c] == 0
            &&& forall|c: Seq<char>| #[trigger] post.conditions.contains_key(c) ==> pre.conditions.contains_key(c)
            &&& post.knowledge == pre.knowledge && post.inventory == pre.inventory && post.flags == pre.flags
            &&& post.trust == pre.trust && post.arcs == pre.arcs && post.plane == pre.plane
        }),
{
}

/// Choosing an exit that is not on offer changes nothing: the position and
/// the state stay, and no turn passes.
pub proof fn law_unavailable_exit_changes_nothing(b: ContentBundle, at: Seq<char>, m: StateModel, target: Seq<char>)
    requires
        !leads_to(exits_of(b, at, m), target),
    ensures
        exit_step(b, at, m, target).0 == at,
        exit_step(b, at, m, target).1 == m,
        exit_step(b, at, m, target).2 is NoEffect,
{
}

} // verus!
