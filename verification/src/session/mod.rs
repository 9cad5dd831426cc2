//! A game session: the content, the director's position, the world state
//! and the history of actions, behind an action-oriented interface that a
//! human or an automated player can drive.

use vstd::prelude::*;
use vstd::string::*;

use crate::collections::{PairSet, StrMap, StrSet, pair_keys, string_views, strictly_sorted};
use crate::content::{AbilityDef, ContentBundle, entry_values, bundle_issues};
use crate::director::{
    DirectorOutcome, GameDirector, Outcome, PlayerInput, ability_step, exit_step,
    exits_of, ending_at, leads_to, node_of, outcome_view, scene_text,
};
use crate::director::talk::talk_step;
use crate::narrative::predicate::StatePredicate;
use crate::narrative::{DagOverlay, NarrativeEdge, NarrativeNode, deref_edges, entry_nodes, first_start};
use crate::narrative::visualization::{graph_start_id, history_path, overlay_text};
use crate::state::{StateModel, WorldState, all_hold, holds, lemma_all_hold};
use crate::text::{is_prefix, nat_decimal, starts_with, u64_to_string};

pub mod types;

pub use types::{
    ActionKind, ActionRecord, AvailableAction, GameStateSnapshot, NarrationContext, kind_text,
};

verus! {

/// A running game session.
#[derive(Debug)]
pub struct GameSession {
    bundle: ContentBundle,
    director: GameDirector,
    state: WorldState,
    history: Vec<ActionRecord>,
    turn: u32,
}

/// The mathematical content of an offered action.
pub type ActionView = (ActionKind, Seq<char>, Seq<char>, Option<Seq<char>>);

/// The mathematical content of an offered action.
pub open spec fn action_view(a: AvailableAction) -> ActionView {
    (
        a.kind,
        a.id@,
        a.label@,
        match a.detail {
            Some(d) => Some(d@),
            None => None,
        },
    )
}

/// The mathematical content of a list of offered actions.
pub open spec fn action_views(s: Seq<AvailableAction>) -> Seq<ActionView> {
    s.map_values(|a: AvailableAction| action_view(a))
}

/// The NPC ids listed in the scene at node `at`.
pub open spec fn scene_npcs_of(b: ContentBundle, at: Seq<char>) -> Seq<Seq<char>> {
    match node_of(b, at) {
        Some(n) => match b.scenes.spec_get(n.content_ref@) {
            Some(s) => string_views(s.npcs@),
            None => Seq::empty(),
        },
        None => Seq::empty(),
    }
}

/// The exit actions for a list of exits: to each target, labelled by the
/// edge's label or else its target.
pub open spec fn exit_actions(es: Seq<NarrativeEdge>) -> Seq<ActionView> {
    es.map_values(
        |e: NarrativeEdge|
            (
                ActionKind::Exit,
                e.target@,
                match e.label {
                    Some(l) => l@,
                    None => e.target@,
                },
                None::<Seq<char>>,
            ),
    )
}

/// The talk actions for the NPCs of a scene.
pub open spec fn talk_actions(ids: Seq<Seq<char>>) -> Seq<ActionView> {
    ids.map_values(|id: Seq<char>| (ActionKind::Talk, id, "Talk to "@ + id, None::<Seq<char>>))
}

/// The ability actions, each with its description, marked `[blocked]`
/// when its preconditions do not hold in `m`.
pub open spec fn ability_actions(m: StateModel, abs: Seq<AbilityDef>) -> Seq<ActionView> {
    abs.map_values(
        |a: AbilityDef|
            (
                ActionKind::Ability,
                a.id@,
                a.name@,
                Some(
                    if all_hold(m, a.preconditions@) {
                        a.description@
                    } else {
                        "[blocked] "@ + a.description@
                    },
                ),
            ),
    )
}

/// Every action on offer at node `at` in state `m`: the available exits,
/// talking to each NPC of the scene, every ability, and examining.
pub open spec fn actions_of(b: ContentBundle, at: Seq<char>, m: StateModel) -> Seq<ActionView> {
    exit_actions(exits_of(b, at, m)) + talk_actions(scene_npcs_of(b, at)) + ability_actions(
        m,
        entry_values(b.abilities.seq()),
    ) + seq![(ActionKind::Examine, "examine"@, "Examine surroundings"@, None::<Seq<char>>)]
}

/// The narration hints of the abilities, in order.
pub open spec fn hints_of(abs: Seq<AbilityDef>) -> Seq<Seq<char>>
    decreases abs.len(),
{
    if abs.len() == 0 {
        Seq::empty()
    } else {
        hints_of(abs.drop_last()) + match abs.last().narration_hint {
            Some(h) => seq![h@],
            None => Seq::empty(),
        }
    }
}

/// The text of an outcome: the narration of a move, or the message.
pub open spec fn outcome_text(o: Outcome) -> Seq<char> {
    match o {
        Outcome::Narration(s) => s,
        Outcome::SceneChange(_, n) => n,
        Outcome::NoEffect(s) => s,
    }
}

/// What an action of kind `k` on `id` does at node `at` in state `m`: the
/// new position, the new state and the outcome.
pub open spec fn act_step(b: ContentBundle, at: Seq<char>, m: StateModel, k: ActionKind, id: Seq<char>) -> (
    Seq<char>,
    StateModel,
    Outcome,
) {
    match k {
        ActionKind::Exit => exit_step(b, at, m, id),
        ActionKind::Ability => {
            let s = ability_step(b, at, m, id);
            (at, s.0, s.1)
        },
        ActionKind::Examine => (at, m, Outcome::Narration(scene_text(b, at))),
        ActionKind::Talk => {
            let s = talk_step(b, at, m, id);
            (at, s.0, s.1)
        },
    }
}

/// Whether `v` lists exactly the members of `s` in ascending order.
pub open spec fn sorted_members(v: Seq<String>, s: Set<Seq<char>>) -> bool {
    &&& string_views(v).to_set() == s
    &&& strictly_sorted(string_views(v))
}

/// The id of the start node (empty when there is none).
pub open spec fn start_id(b: ContentBundle) -> Seq<char> {
    match first_start(entry_nodes(b.narrative.nodes.seq())) {
        Some(i) => entry_nodes(b.narrative.nodes.seq())[i].id@,
        None => Seq::empty(),
    }
}

/// The played path of a history, from the start node `start`: the nodes
/// visited, the exits taken, and the node reached.
pub open spec fn played_path(start: Seq<char>, h: Seq<ActionRecord>) -> (
    Set<Seq<char>>,
    Set<(Seq<char>, Seq<char>)>,
    Seq<char>,
)
    decreases h.len(),
{
    if h.len() == 0 {
        (set![start], Set::empty(), start)
    } else {
        let p = played_path(start, h.drop_last());
        let r = h.last();
        (
            p.0.insert(r.node_after@),
            if is_prefix("exit:"@, r.action@) {
                p.1.insert((p.2, r.node_after@))
            } else {
                p.1
            },
            r.node_after@,
        )
    }
}

/// Every exit the session offers can be taken: acting on an offered exit
/// moves the session to the exit's target and reports the change of
/// scene with the target's description.
pub proof fn law_offered_exits_lead_there(b: ContentBundle, at: Seq<char>, m: StateModel, i: int)
    requires
        0 <= i < actions_of(b, at, m).len(),
        actions_of(b, at, m)[i].0 == ActionKind::Exit,
    ensures
        ({
            let id = actions_of(b, at, m)[i].1;
            let step = act_step(b, at, m, ActionKind::Exit, id);
            step.0 == id && step.2 == Outcome::SceneChange(id, scene_text(b, id))
        }),
{
    let es = exits_of(b, at, m);
    let acts = actions_of(b, at, m);
    let rest = talk_actions(scene_npcs_of(b, at)) + ability_actions(m, entry_values(b.abilities.seq()))
        + seq![(ActionKind::Examine, "examine"@, "Examine surroundings"@, None::<Seq<char>>)];
    assert(acts =~= exit_actions(es) + rest);
    if i >= es.len() {
        let j = i - es.len();
        assert(acts[i] == rest[j]);
        let t = talk_actions(scene_npcs_of(b, at));
        let a = ability_actions(m, entry_values(b.abilities.seq()));
        if j < t.len() {
            assert(rest[j] == t[j]);
        } else if j < t.len() + a.len() {
            assert(rest[j] == a[j - t.len()]);
        } else {
            assert(rest[j] == seq![(ActionKind::Examine, "examine"@, "Examine surroundings"@, None::<Seq<char>>)][j - t.len() - a.len()]);
        }
    } else {
        assert(acts[i] == exit_actions(es)[i]);
        assert(acts[i].1 == es[i].target@);
        assert(leads_to(es, es[i].target@));
    }
}

/// The (action, node reached) entries a history exports.
pub open spec fn exported(h: Seq<ActionRecord>) -> Seq<(Seq<char>, Seq<char>)> {
    h.map_values(|r: ActionRecord| (r.action@, r.node_after@))
}

/// Replaying a session's exported history draws the same played DAG as
/// the session itself: the same start, the same nodes visited, the same
/// exits taken, the same node reached; provided no record reached a node
/// whose id is empty (the replay skips such entries).
pub proof fn law_replay_matches_session(b: ContentBundle, h: Seq<ActionRecord>)
    requires
        forall|i: int| 0 <= i < h.len() ==> (#[trigger] h[i]).node_after@.len() > 0,
    ensures
        graph_start_id(b.narrative) == start_id(b),
        history_path(graph_start_id(b.narrative), exported(h)) == played_path(start_id(b), h),
    decreases h.len(),
{
    if h.len() > 0 {
        law_replay_matches_session(b, h.drop_last());
        assert(exported(h).drop_last() =~= exported(h.drop_last()));
        assert(exported(h).last() == (h.last().action@, h.last().node_after@));
        assert(h.last() == h[h.len() - 1]);
    }
}

/// The targets of a list of edges.
pub open spec fn targets(es: Seq<NarrativeEdge>) -> Set<Seq<char>> {
    es.map_values(|e: NarrativeEdge| e.target@).to_set()
}

/// The exits of node `at` (all of them, with `src` as their source) whose
/// target is not among `avail`.
pub open spec fn gated_of(b: ContentBundle, at: Seq<char>, avail: Set<Seq<char>>) -> Set<(Seq<char>, Seq<char>)> {
    match node_of(b, at) {
        Some(n) => Set::new(
            |p: (Seq<char>, Seq<char>)|
                p.0 == at && exists|i: int|
                    0 <= i < n.exits@.len() && n.exits@[i].target@ == p.1 && !avail.contains(p.1),
        ),
        None => Set::empty(),
    }
}

/// Copies a list of strings.
fn copy_strings(v: &Vec<String>) -> (r: Vec<String>)
    ensures
        string_views(r@) == string_views(v@),
{
    let mut out: Vec<String> = Vec::new();
    let mut i: usize = 0;
    while i < v.len()
        invariant
            i <= v@.len(),
            string_views(out@) == string_views(v@.subrange(0, i as int)),
        decreases v@.len() - i,
    {
        out.push(v[i].clone());
        proof {
            assert(string_views(v@.subrange(0, i + 1)) =~= string_views(v@.subrange(0, i as int)).push(v@[i as int]@));
            assert(string_views(out@) =~= string_views(v@.subrange(0, i + 1)));
        }
        i = i + 1;
    }
    assert(v@.subrange(0, v@.len() as int) =~= v@);
    out
}

/// The members of a set in ascending order.
fn sorted_list(s: &StrSet) -> (r: Vec<String>)
    ensures
        sorted_members(r@, s.members()),
{
    s.to_vec()
}

/// Narration hints of every ability, in order.
fn narration_hints(abilities: &StrMap<AbilityDef>) -> (r: Vec<String>)
    ensures
        string_views(r@) == hints_of(entry_values(abilities.seq())),
{
    let ghost abs = entry_values(abilities.seq());
    let mut out: Vec<String> = Vec::new();
    let mut i: usize = 0;
    while i < abilities.len()
        invariant
            abs == entry_values(abilities.seq()),
            i <= abs.len(),
            string_views(out@) == hints_of(abs.subrange(0, i as int)),
        decreases abs.len() - i,
    {
        let a = abilities.value_at(i);
        proof {
            assert(abs.subrange(0, i + 1).drop_last() =~= abs.subrange(0, i as int));
            assert(abs.subrange(0, i + 1).last() == *a);
        }
        match &a.narration_hint {
            Some(h) => {
                out.push(h.clone());
                proof {
                    assert(string_views(out@) =~= hints_of(abs.subrange(0, i + 1)));
                }
            },
            None => {
                proof {
                    assert(string_views(out@) =~= hints_of(abs.subrange(0, i + 1)));
                }
            },
        }
        i = i + 1;
    }
    assert(abs.subrange(0, abs.len() as int) =~= abs);
    out
}

impl GameSession {
    /// The content.
    pub closed spec fn spec_bundle(&self) -> ContentBundle {
        self.bundle
    }

    /// The current node id.
    pub closed spec fn spec_node(&self) -> Seq<char> {
        self.director.node()
    }

    /// The world state.
    pub closed spec fn spec_state(&self) -> WorldState {
        self.state
    }

    /// The history of actions.
    pub closed spec fn spec_history(&self) -> Seq<ActionRecord> {
        self.history@
    }

    /// The number of actions taken.
    pub closed spec fn spec_turn(&self) -> u32 {
        self.turn
    }

    /// A session over `bundle`, from `director`'s position and `state`,
    /// with no history.
    pub fn from_parts(bundle: ContentBundle, director: GameDirector, state: WorldState) -> (r: GameSession)
        ensures
            r.spec_bundle() == bundle,
            r.spec_node() == director.node(),
            r.spec_state() == state,
            r.spec_history().len() == 0,
            r.spec_turn() == 0,
    {
        GameSession { bundle, director, state, history: Vec::new(), turn: 0 }
    }

    /// A fresh session over a bundle: refused with the joined issues when
    /// the bundle does not validate, or when it has no start node.
    pub fn from_bundle(bundle: ContentBundle) -> (r: Result<GameSession, String>)
        ensures
            bundle_issues(bundle).len() > 0 ==> r is Err,
            bundle_issues(bundle).len() == 0 && first_start(entry_nodes(bundle.narrative.nodes.seq())) is None
                ==> r is Err && r->Err_0@ == "director: no start node in narrative graph"@,
            r is Ok ==> ({
                let s = r->Ok_0;
                &&& bundle_issues(bundle).len() == 0
                &&& s.spec_bundle() == bundle
                &&& s.spec_node() == start_id(bundle)
                &&& s.spec_state().model() == crate::state::empty_model()
                &&& s.spec_history().len() == 0
                &&& s.spec_turn() == 0
            }),
            bundle_issues(bundle).len() == 0 && first_start(entry_nodes(bundle.narrative.nodes.seq())) is Some
                ==> r is Ok,
    {
        let issues = bundle.validate();
        if issues.len() > 0 {
            let mut msg = u64_to_string(issues.len() as u64);
            msg.append(" validation issue(s): ");
            let mut i: usize = 0;
            while i < issues.len()
                invariant
                    i <= issues@.len(),
                decreases issues@.len() - i,
            {
                if i > 0 {
                    msg.append("; ");
                }
                msg.append(issues[i].as_str());
                i = i + 1;
            }
            return Err(msg);
        }
        match GameDirector::new(&bundle) {
            Ok(director) => {
                let state = WorldState::new();
                Ok(GameSession { bundle, director, state, history: Vec::new(), turn: 0 })
            },
            Err(e) => {
                let mut msg = String::from_str("director: ");
                let text = e.to_string();
                msg.append(text.as_str());
                proof {
                    assert(msg@ =~= "director: "@ + "no start node in narrative graph"@);
                    reveal_strlit("director: ");
                    reveal_strlit("no start node in narrative graph");
                    reveal_strlit("director: no start node in narrative graph");
                    assert(msg@ =~= "director: no start node in narrative graph"@);
                }
                Err(msg)
            },
        }
    }

    /// The content bundle.
    pub fn bundle(&self) -> (r: &ContentBundle)
        ensures
            *r == self.spec_bundle(),
    {
        &self.bundle
    }

    /// The world state.
    pub fn state(&self) -> (r: &WorldState)
        ensures
            *r == self.spec_state(),
    {
        &self.state
    }

    /// The number of actions taken.
    pub fn turn(&self) -> (r: u32)
        ensures
            r == self.spec_turn(),
    {
        self.turn
    }

    /// The current node id.
    pub fn current_node_id(&self) -> (r: &str)
        ensures
            r@ == self.spec_node(),
    {
        self.director.current_node_id()
    }

    /// The NPC ids listed in the current scene.
    pub fn current_scene_npcs(&self) -> (r: Vec<String>)
        ensures
            string_views(r@) == scene_npcs_of(self.spec_bundle(), self.spec_node()),
    {
        match self.bundle.narrative.get(self.director.current_node_id()) {
            Some(node) => match self.bundle.scenes.get(node.content_ref.as_str()) {
                Some(scene) => copy_strings(&scene.npcs),
                None => Vec::new(),
            },
            None => Vec::new(),
        }
    }

    /// Every action on offer: the available exits, talking to each NPC of
    /// the scene, every ability (marked `[blocked]` when its preconditions
    /// fail), and examining.
    pub fn available_actions(&self) -> (r: Vec<AvailableAction>)
        ensures
            action_views(r@) == actions_of(self.spec_bundle(), self.spec_node(), self.spec_state().model()),
    {
        let ghost m = self.state.model();
        let ghost b = self.bundle;
        let mut actions: Vec<AvailableAction> = Vec::new();
        let exits = self.director.available_exits(&self.bundle, &self.state);
        let ghost es = deref_edges(exits@);
        let mut i: usize = 0;
        while i < exits.len()
            invariant
                i <= exits@.len(),
                es == deref_edges(exits@),
                action_views(actions@) == exit_actions(es.subrange(0, i as int)),
            decreases exits@.len() - i,
        {
            let edge = exits[i];
            let label = match &edge.label {
                Some(l) => l.clone(),
                None => edge.target.clone(),
            };
            actions.push(AvailableAction { kind: ActionKind::Exit, id: edge.target.clone(), label, detail: None });
            proof {
                assert(es[i as int] == *edge);
                let prev = es.subrange(0, i as int);
                assert(es.subrange(0, i + 1) =~= prev.push(*edge));
                assert(exit_actions(prev.push(*edge)) =~= exit_actions(prev).push(exit_actions(prev.push(*edge))[i as int]));
                assert(action_views(actions@) =~= exit_actions(es.subrange(0, i + 1)));
            }
            i = i + 1;
        }
        proof {
            assert(es.subrange(0, es.len() as int) =~= es);
        }
        let ghost n1 = action_views(actions@);
        let npcs = self.current_scene_npcs();
        let mut j: usize = 0;
        while j < npcs.len()
            invariant
                j <= npcs@.len(),
                action_views(actions@) == n1 + talk_actions(string_views(npcs@).subrange(0, j as int)),
            decreases npcs@.len() - j,
        {
            let mut label = String::from_str("Talk to ");
            label.append(npcs[j].as_str());
            let ghost before = actions@;
            let act = AvailableAction { kind: ActionKind::Talk, id: npcs[j].clone(), label, detail: None };
            assert(action_view(act) == (ActionKind::Talk, npcs@[j as int]@, "Talk to "@ + npcs@[j as int]@, None::<Seq<char>>));
            actions.push(act);
            proof {
                assert(actions@ =~= before.push(act));
                assert(action_views(actions@) =~= action_views(before).push(action_view(act)));
                let prev = string_views(npcs@).subrange(0, j as int);
                assert(string_views(npcs@).subrange(0, j + 1) =~= prev.push(npcs@[j as int]@));
                assert(talk_actions(prev.push(npcs@[j as int]@)) =~= talk_actions(prev).push(talk_actions(prev.push(npcs@[j as int]@))[j as int]));
                assert(action_views(actions@) =~= n1 + talk_actions(string_views(npcs@).subrange(0, j + 1)));
            }
            j = j + 1;
        }
        proof {
            assert(string_views(npcs@).subrange(0, npcs@.len() as int) =~= string_views(npcs@));
        }
        let ghost n2 = action_views(actions@);
        let ghost abs = entry_values(self.bundle.abilities.seq());
        let mut k: usize = 0;
        while k < self.bundle.abilities.len()
            invariant
                abs == entry_values(self.bundle.abilities.seq()),
                k <= abs.len(),
                m == self.state.model(),
                action_views(actions@) == n2 + ability_actions(m, abs.subrange(0, k as int)),
            decreases abs.len() - k,
        {
            let ability = self.bundle.abilities.value_at(k);
            proof {
                lemma_all_hold(m, ability.preconditions@);
            }
            let mut can_use = true;
            let mut q: usize = 0;
            while q < ability.preconditions.len()
                invariant
                    q <= ability.preconditions@.len(),
                    m == self.state.model(),
                    can_use == forall|t: int| 0 <= t < q ==> crate::state::holds(m, #[trigger] ability.preconditions@[t]),
                decreases ability.preconditions@.len() - q,
            {
                if !self.state.evaluate(&ability.preconditions[q]) {
                    can_use = false;
                }
                q = q + 1;
            }
            let detail = if can_use {
                ability.description.clone()
            } else {
                let mut d = String::from_str("[blocked] ");
                d.append(ability.description.as_str());
                d
            };
            let ghost before = actions@;
            let act = AvailableAction {
                kind: ActionKind::Ability,
                id: ability.id.clone(),
                label: ability.name.clone(),
                detail: Some(detail),
            };
            actions.push(act);
            proof {
                assert(actions@ =~= before.push(act));
                assert(action_views(actions@) =~= action_views(before).push(action_view(act)));
                assert(abs[k as int] == *ability);
                let prev = abs.subrange(0, k as int);
                assert(abs.subrange(0, k + 1) =~= prev.push(*ability));
                assert(ability_actions(m, prev.push(*ability)) =~= ability_actions(m, prev).push(ability_actions(m, prev.push(*ability))[k as int]));
                assert(action_views(actions@) =~= n2 + ability_actions(m, abs.subrange(0, k + 1)));
            }
            k = k + 1;
        }
        proof {
            assert(abs.subrange(0, abs.len() as int) =~= abs);
        }
        actions.push(
            AvailableAction {
                kind: ActionKind::Examine,
                id: String::from_str("examine"),
                label: String::from_str("Examine surroundings"),
                detail: None,
            },
        );
        proof {
            assert(action_views(actions@) =~= actions_of(b, self.spec_node(), m));
        }
        actions
    }

    /// The full game state snapshot.
    pub fn snapshot(&self) -> (r: GameStateSnapshot)
        ensures
            r.session_active,
            r.turn == self.spec_turn(),
            r.current_node@ == self.spec_node(),
            r.scene_description@ == scene_text(self.spec_bundle(), self.spec_node()),
            string_views(r.scene_npcs@) == scene_npcs_of(self.spec_bundle(), self.spec_node()),
            r.is_ending == ending_at(self.spec_bundle(), self.spec_node()),
            sorted_members(r.knowledge@, self.spec_state().model().knowledge),
            sorted_members(r.inventory@, self.spec_state().model().inventory),
            sorted_members(r.flags@, self.spec_state().model().flags),
            pair_keys(r.trust@) == pair_keys(self.spec_state().trust.seq()),
            action_views(r.available_actions@) == actions_of(
                self.spec_bundle(),
                self.spec_node(),
                self.spec_state().model(),
            ),
    {
        GameStateSnapshot {
            session_active: true,
            turn: self.turn,
            current_node: self.director.current_node_id().to_owned(),
            scene_description: self.director.current_scene_description(&self.bundle),
            scene_npcs: self.current_scene_npcs(),
            is_ending: self.director.is_at_ending(&self.bundle),
            knowledge: sorted_list(&self.state.knowledge),
            inventory: sorted_list(&self.state.inventory),
            flags: sorted_list(&self.state.flags),
            trust: self.state.trust.entries_copy(),
            available_actions: self.available_actions(),
        }
    }

    /// The history of actions.
    pub fn history(&self) -> (r: &Vec<ActionRecord>)
        ensures
            r@ == self.spec_history(),
    {
        &self.history
    }

    /// Whether the game has reached an ending.
    pub fn is_ended(&self) -> (r: bool)
        ensures
            r == ending_at(self.spec_bundle(), self.spec_node()),
    {
        self.director.is_at_ending(&self.bundle)
    }

    /// Execute an action of kind `kind` on `id`: the director processes
    /// it, the turn count grows by one (wrapping), the action is recorded,
    /// and the outcome text is returned with a narration context.
    pub fn act(&mut self, kind: ActionKind, id: &str) -> (r: Result<(String, NarrationContext), String>)
        ensures
            r is Ok,
            ({
                let step = act_step(old(self).spec_bundle(), old(self).spec_node(), old(self).spec_state().model(), kind, id@);
                let out = r->Ok_0;
                let new_turn = old(self).spec_turn().wrapping_add(1);
                let h = final(self).spec_history();
                &&& final(self).spec_bundle() == old(self).spec_bundle()
                &&& final(self).spec_node() == step.0
                &&& final(self).spec_state().model() == step.1
                &&& final(self).spec_turn() == new_turn
                &&& h.len() == old(self).spec_history().len() + 1
                &&& h.drop_last() == old(self).spec_history()
                &&& h.last().turn == new_turn
                &&& h.last().action@ == kind_text(kind) + ":"@ + id@
                &&& h.last().outcome@ == outcome_text(step.2)
                &&& h.last().node_after@ == step.0
                &&& out.0@ == outcome_text(step.2)
                &&& out.1.scene_description@ == scene_text(old(self).spec_bundle(), old(self).spec_node())
                &&& string_views(out.1.scene_npcs@) == scene_npcs_of(old(self).spec_bundle(), old(self).spec_node())
                &&& out.1.player_action@ == kind_text(kind) + ":"@ + id@
                &&& out.1.outcome_text@ == outcome_text(step.2)
                &&& sorted_members(out.1.knowledge@, step.1.knowledge)
                &&& sorted_members(out.1.active_flags@, step.1.flags)
                &&& out.1.turn == new_turn
                &&& string_views(out.1.narration_hints@) == hints_of(entry_values(old(self).spec_bundle().abilities.seq()))
            }),
    {
        let input = match kind {
            ActionKind::Exit => PlayerInput::ChooseExit(id.to_owned()),
            ActionKind::Talk => PlayerInput::Talk(id.to_owned()),
            ActionKind::Ability => PlayerInput::UseAbility(id.to_owned()),
            ActionKind::Examine => PlayerInput::Examine,
        };
        let scene_before = self.director.current_scene_description(&self.bundle);
        let npcs_before = self.current_scene_npcs();
        let outcome = self.director.process(&input, &mut self.state, &self.bundle);
        self.turn = self.turn.wrapping_add(1);
        let text = match &outcome {
            DirectorOutcome::SceneChange { narration, .. } => narration.clone(),
            DirectorOutcome::Narration(s) => s.clone(),
            DirectorOutcome::NoEffect(s) => s.clone(),
        };
        let mut action = String::from_str(kind.as_str());
        action.append(":");
        action.append(id);
        let ghost old_history = self.history@;
        self.history.push(
            ActionRecord {
                turn: self.turn,
                action: action.clone(),
                outcome: text.clone(),
                node_after: self.director.current_node_id().to_owned(),
            },
        );
        proof {
            assert(self.history@.drop_last() =~= old_history);
        }
        let ctx = NarrationContext {
            scene_description: scene_before,
            scene_npcs: npcs_before,
            player_action: action,
            outcome_text: text.clone(),
            knowledge: sorted_list(&self.state.knowledge),
            active_flags: sorted_list(&self.state.flags),
            turn: self.turn,
            narration_hints: narration_hints(&self.bundle.abilities),
        };
        Ok((text, ctx))
    }

    /// A narration context for the current scene: the last action and its
    /// outcome (or the session start), what is known and set, the turn and
    /// the abilities' hints.
    pub fn narration_context(&self) -> (r: NarrationContext)
        ensures
            r.scene_description@ == scene_text(self.spec_bundle(), self.spec_node()),
            string_views(r.scene_npcs@) == scene_npcs_of(self.spec_bundle(), self.spec_node()),
            self.spec_history().len() == 0 ==> r.player_action@ == "(session start)"@ && r.outcome_text@.len() == 0,
            self.spec_history().len() > 0 ==> r.player_action@ == self.spec_history().last().action@
                && r.outcome_text@ == self.spec_history().last().outcome@,
            sorted_members(r.knowledge@, self.spec_state().model().knowledge),
            sorted_members(r.active_flags@, self.spec_state().model().flags),
            r.turn == self.spec_turn(),
            string_views(r.narration_hints@) == hints_of(entry_values(self.spec_bundle().abilities.seq())),
    {
        let n = self.history.len();
        let (last_action, last_outcome) = if n > 0 {
            (self.history[n - 1].action.clone(), self.history[n - 1].outcome.clone())
        } else {
            (String::from_str("(session start)"), String::new())
        };
        NarrationContext {
            scene_description: self.director.current_scene_description(&self.bundle),
            scene_npcs: self.current_scene_npcs(),
            player_action: last_action,
            outcome_text: last_outcome,
            knowledge: sorted_list(&self.state.knowledge),
            active_flags: sorted_list(&self.state.flags),
            turn: self.turn,
            narration_hints: narration_hints(&self.bundle.abilities),
        }
    }
    /// The session overlay for the narrative graph: the played path
    /// (the start node and every node reached, and the exits taken), the
    /// current position, the targets of the available exits, and the
    /// current node's exits whose targets are not available (gated).
    pub fn dag_overlay(&self) -> (r: DagOverlay)
        ensures
            r.visited.members() == played_path(start_id(self.spec_bundle()), self.spec_history()).0,
            r.edges_taken.members() == played_path(start_id(self.spec_bundle()), self.spec_history()).1,
            r.current_node is Some && r.current_node->0@ == self.spec_node(),
            r.available_targets.members() == targets(
                exits_of(self.spec_bundle(), self.spec_node(), self.spec_state().model()),
            ),
            r.gated_targets.members() == gated_of(
                self.spec_bundle(),
                self.spec_node(),
                targets(exits_of(self.spec_bundle(), self.spec_node(), self.spec_state().model())),
            ),
    {
        let ghost b = self.bundle;
        let mut visited = StrSet::new();
        let mut edges_taken = PairSet::new();
        let start = match self.bundle.narrative.start_node() {
            Some(n) => n.id.clone(),
            None => String::new(),
        };
        proof {
            assert(start@ == start_id(b));
        }
        visited.insert(start.clone());
        let mut prev = start.clone();
        proof {
            assert(visited.members() =~= set![start@]);
            assert(edges_taken.members() =~= Set::<(Seq<char>, Seq<char>)>::empty());
        }
        let ghost h = self.history@;
        let mut i: usize = 0;
        while i < self.history.len()
            invariant
                h == self.history@,
                i <= h.len(),
                played_path(start_id(b), h.subrange(0, i as int)) == (visited.members(), edges_taken.members(), prev@),
            decreases h.len() - i,
        {
            let record = &self.history[i];
            proof {
                assert(h.subrange(0, i + 1).drop_last() =~= h.subrange(0, i as int));
                assert(h.subrange(0, i + 1).last() == *record);
            }
            if starts_with(record.action.as_str(), "exit:") {
                edges_taken.insert(prev.clone(), record.node_after.clone());
            }
            visited.insert(record.node_after.clone());
            prev = record.node_after.clone();
            i = i + 1;
        }
        proof {
            assert(h.subrange(0, h.len() as int) =~= h);
        }
        let current_id = self.director.current_node_id();
        let exits = self.director.available_exits(&self.bundle, &self.state);
        let ghost es = deref_edges(exits@);
        let mut available_targets = StrSet::new();
        let mut k: usize = 0;
        while k < exits.len()
            invariant
                k <= exits@.len(),
                es == deref_edges(exits@),
                available_targets.members() == targets(es.subrange(0, k as int)),
            decreases exits@.len() - k,
        {
            available_targets.insert(exits[k].target.clone());
            proof {
                let prev_es = es.subrange(0, k as int);
                assert(es.subrange(0, k + 1) =~= prev_es.push(es[k as int]));
                assert(prev_es.push(es[k as int]).map_values(|e: NarrativeEdge| e.target@) =~= prev_es.map_values(|e: NarrativeEdge| e.target@).push(es[k as int].target@));
                prev_es.map_values(|e: NarrativeEdge| e.target@).lemma_push_to_set_commute(es[k as int].target@);
            }
            k = k + 1;
        }
        proof {
            assert(es.subrange(0, es.len() as int) =~= es);
        }
        let ghost avail = available_targets.members();
        let mut gated_targets = PairSet::new();
        match self.bundle.narrative.get(current_id) {
            Some(node) => {
                let mut q: usize = 0;
                while q < node.exits.len()
                    invariant
                        q <= node.exits@.len(),
                        avail == available_targets.members(),
                        current_id@ == self.spec_node(),
                        forall|p: (Seq<char>, Seq<char>)| #[trigger] gated_targets.members().contains(p) <==> (p.0 == current_id@ && exists|t: int|
                            0 <= t < q && node.exits@[t].target@ == p.1 && !avail.contains(p.1)),
                    decreases node.exits@.len() - q,
                {
                    let edge = &node.exits[q];
                    if !available_targets.contains(edge.target.as_str()) {
                        gated_targets.insert(current_id.to_owned(), edge.target.clone());
                    }
                    proof {
                        assert forall|p: (Seq<char>, Seq<char>)| #[trigger] gated_targets.members().contains(p) <==> (p.0 == current_id@ && exists|t: int|
                            0 <= t < q + 1 && node.exits@[t].target@ == p.1 && !avail.contains(p.1)) by {
                            if p.0 == current_id@ && p.1 == edge.target@ && !avail.contains(p.1) {
                                assert(node.exits@[q as int].target@ == p.1);
                            }
                        }
                    }
                    q = q + 1;
                }
                proof {
                    assert(gated_targets.members() =~= gated_of(b, self.spec_node(), avail));
                }
            },
            None => {
                proof {
                    assert(gated_targets.members() =~= gated_of(b, self.spec_node(), avail));
                }
            },
        }
        DagOverlay {
            visited,
            edges_taken,
            current_node: Some(current_id.to_owned()),
            available_targets,
            gated_targets,
        }
    }

    /// The narrative graph as DOT, with the session overlay.
    pub fn to_dot(&self) -> (r: String)
        ensures
            exists|ov: DagOverlay|
                ov.visited.members() == played_path(start_id(self.spec_bundle()), self.spec_history()).0
                    && ov.edges_taken.members() == played_path(start_id(self.spec_bundle()), self.spec_history()).1
                    && ov.current_node is Some && ov.current_node->0@ == self.spec_node()
                    && ov.available_targets.members() == targets(
                    exits_of(self.spec_bundle(), self.spec_node(), self.spec_state().model()),
                ) && ov.gated_targets.members() == gated_of(
                    self.spec_bundle(),
                    self.spec_node(),
                    targets(exits_of(self.spec_bundle(), self.spec_node(), self.spec_state().model())),
                ) && r@ == overlay_text(self.spec_bundle().narrative, ov),
    {
        let ov = self.dag_overlay();
        self.bundle.narrative.to_dot_overlay(&ov)
    }
}

/// Whether some precondition of `ps` fails in `m`.
pub open spec fn some_fails(m: StateModel, ps: Seq<StatePredicate>) -> bool {
    exists|q: int| 0 <= q < ps.len() && !holds(m, #[trigger] ps[q])
}

/// Every ability on offer is an ability of the bundle, offered under its id
/// and name, with its description as detail: marked `[blocked] ` in front
/// exactly when some precondition of the ability fails in the current
/// state, and unmarked when all of them hold.
pub proof fn law_blocked_abilities_are_marked(b: ContentBundle, at: Seq<char>, m: StateModel, k: int)
    requires
        0 <= k < actions_of(b, at, m).len(),
        actions_of(b, at, m)[k].0 == ActionKind::Ability,
    ensures
        exists|j: int|
            0 <= j < entry_values(b.abilities.seq()).len() && ({
                let a = #[trigger] entry_values(b.abilities.seq())[j];
                let x = actions_of(b, at, m)[k];
                &&& x.1 == a.id@
                &&& x.2 == a.name@
                &&& x.3 == Some(
                    if some_fails(m, a.preconditions@) {
                        "[blocked] "@ + a.description@
                    } else {
                        a.description@
                    },
                )
            }),
{
    let e = exit_actions(exits_of(b, at, m));
    let t = talk_actions(scene_npcs_of(b, at));
    let abs = entry_values(b.abilities.seq());
    let ab = ability_actions(m, abs);
    let all = actions_of(b, at, m);
    assert(all == e + t + ab + seq![(ActionKind::Examine, "examine"@, "Examine surroundings"@, None::<Seq<char>>)]);
    if k < e.len() {
        assert(all[k] == e[k]);
    } else if k < e.len() + t.len() {
        assert(all[k] == t[k - e.len()]);
    } else if k < e.len() + t.len() + ab.len() {
        let j = k - e.len() - t.len();
        assert(all[k] == ab[j]);
        let a = abs[j];
        lemma_all_hold(m, a.preconditions@);
        assert(all_hold(m, a.preconditions@) <==> !some_fails(m, a.preconditions@));
    } else {
        assert(all[k].0 == ActionKind::Examine);
    }
}

/// Every ability of the bundle is on offer, under its id and name, its
/// detail marked `[blocked] ` exactly when some precondition fails.
pub proof fn law_every_ability_is_offered(b: ContentBundle, at: Seq<char>, m: StateModel, j: int)
    requires
        0 <= j < entry_values(b.abilities.seq()).len(),
    ensures
        exists|k: int|
            0 <= k < actions_of(b, at, m).len() && ({
                let a = entry_values(b.abilities.seq())[j];
                let x = #[trigger] actions_of(b, at, m)[k];
                &&& x.0 == ActionKind::Ability
                &&& x.1 == a.id@
                &&& x.2 == a.name@
                &&& x.3 == Some(
                    if some_fails(m, a.preconditions@) {
                        "[blocked] "@ + a.description@
                    } else {
                        a.description@
                    },
                )
            }),
{
    let e = exit_actions(exits_of(b, at, m));
    let t = talk_actions(scene_npcs_of(b, at));
    let abs = entry_values(b.abilities.seq());
    let ab = ability_actions(m, abs);
    let all = actions_of(b, at, m);
    assert(all == e + t + ab + seq![(ActionKind::Examine, "examine"@, "Examine surroundings"@, None::<Seq<char>>)]);
    let k = e.len() + t.len() + j;
    assert(all[k] == ab[j]);
    lemma_all_hold(m, abs[j].preconditions@);
    assert(all_hold(m, abs[j].preconditions@) <==> !some_fails(m, abs[j].preconditions@));
}

} // verus!
