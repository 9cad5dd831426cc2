//! Autoplay: a deterministic heuristic traversal of the narrative graph
//! that prefers unexplored exits, then unused abilities, then talking
//! (building trust), then examining, and finally rotates through known
//! exits to discover state-gated paths.

use vstd::prelude::*;
use vstd::string::*;

use crate::collections::{StrMap, StrSet, lookup};
use crate::session::{ActionKind, ActionView, AvailableAction, GameSession, action_view, action_views};
use crate::session::{act_step, actions_of, outcome_text, start_id};
use crate::session::types::{kind_text, ActionRecord};
use crate::state::StateModel;
use crate::content::ContentBundle;
use crate::director::ending_at;
use crate::text::{is_prefix, starts_with, str_eq};

verus! {

/// Configuration for autoplay behavior.
#[derive(Debug, Clone, Copy)]
pub struct AutoplayConfig {
    /// Maximum turns before the autoplay halts.
    pub max_turns: u32,
    /// Maximum consecutive turns without novel discovery before halting.
    pub stale_limit: u32,
    /// Maximum talk actions per NPC before moving on.
    pub max_talks_per_npc: u32,
}

impl Default for AutoplayConfig {
    fn default() -> (r: AutoplayConfig)
        ensures
            r.max_turns == 100,
            r.stale_limit == 12,
            r.max_talks_per_npc == 8,
    {
        AutoplayConfig { max_turns: 100, stale_limit: 12, max_talks_per_npc: 8 }
    }
}

/// Result of a completed autoplay run.
#[derive(Debug, Clone, Copy)]
pub struct AutoplayResult {
    /// Whether the session reached an ending.
    pub ended: bool,
    /// Total turns taken.
    pub turns: u32,
    /// Unique nodes visited.
    pub nodes_visited: usize,
    /// Whether autoplay halted due to stale state.
    pub stale_halt: bool,
}

/// Tracks exploration state for the heuristic.
#[derive(Debug)]
pub struct HeuristicTracker {
    /// Nodes the autoplay has visited.
    pub visited: StrSet,
    /// Abilities already used.
    pub used_abilities: StrSet,
    /// Conversations held per NPC.
    pub talk_count: StrMap<u32>,
    /// Nodes already examined.
    pub examined_at: StrSet,
    /// Consecutive turns without anything new.
    pub stale_count: u32,
    /// The knowledge count after the previous turn.
    pub last_knowledge_count: usize,
    /// Position in the rotation through known exits.
    pub exit_rotation: usize,
}

impl Default for HeuristicTracker {
    fn default() -> (r: HeuristicTracker)
        ensures
            r.visited.members() == Set::<Seq<char>>::empty(),
            r.used_abilities.members() == Set::<Seq<char>>::empty(),
            r.talk_count.as_map() == Map::<Seq<char>, u32>::empty(),
            r.examined_at.members() == Set::<Seq<char>>::empty(),
            r.stale_count == 0,
            r.last_knowledge_count == 0,
            r.exit_rotation == 0,
    {
        HeuristicTracker {
            visited: StrSet::new(),
            used_abilities: StrSet::new(),
            talk_count: StrMap::new(),
            examined_at: StrSet::new(),
            stale_count: 0,
            last_knowledge_count: 0,
            exit_rotation: 0,
        }
    }
}

/// The first position of `s` whose element satisfies `p`.
pub open spec fn first_match(s: Seq<ActionView>, p: spec_fn(ActionView) -> bool) -> Option<int>
    decreases s.len(),
{
    if s.len() == 0 {
        None
    } else {
        match first_match(s.drop_last(), p) {
            Some(i) => Some(i),
            None => if p(s.last()) {
                Some(s.len() - 1)
            } else {
                None
            },
        }
    }
}

/// Characterization of `first_match`.
pub proof fn lemma_first_match(s: Seq<ActionView>, p: spec_fn(ActionView) -> bool)
    ensures
        match first_match(s, p) {
            Some(i) => 0 <= i < s.len() && p(s[i]) && forall|j: int| 0 <= j < i ==> !p(#[trigger] s[j]),
            None => forall|j: int| 0 <= j < s.len() ==> !p(#[trigger] s[j]),
        },
    decreases s.len(),
{
    if s.len() > 0 {
        lemma_first_match(s.drop_last(), p);
        assert forall|j: int| 0 <= j < s.len() - 1 implies s.drop_last()[j] == s[j] by {}
    }
}

/// A scan that found no match in `s[0..i]` and a match at `i` ends at `i`.
proof fn lemma_first_match_at(s: Seq<ActionView>, p: spec_fn(ActionView) -> bool, i: int)
    requires
        0 <= i < s.len(),
        p(s[i]),
        forall|j: int| 0 <= j < i ==> !p(#[trigger] s[j]),
    ensures
        first_match(s, p) == Some(i),
{
    lemma_first_match(s, p);
    match first_match(s, p) {
        Some(k) => {
            if k < i {
                assert(!p(s[k]));
            } else if k > i {
                assert(!p(s[i]));
            }
        },
        None => {
            assert(!p(s[i]));
        },
    }
}

/// Whether an offered action is an exit to a node not yet visited.
pub open spec fn is_unvisited_exit(visited: Set<Seq<char>>) -> spec_fn(ActionView) -> bool {
    |a: ActionView| a.0 == ActionKind::Exit && !visited.contains(a.1)
}

/// The detail of an offered action, or nothing.
pub open spec fn detail_or_empty(d: Option<Seq<char>>) -> Seq<char> {
    match d {
        Some(t) => t,
        None => Seq::empty(),
    }
}

/// Whether an offered action is an unused ability that is not blocked.
pub open spec fn is_fresh_ability(used: Set<Seq<char>>) -> spec_fn(ActionView) -> bool {
    |a: ActionView| a.0 == ActionKind::Ability && !used.contains(a.1) && !is_prefix(
        "[blocked]"@,
        detail_or_empty(a.3),
    )
}

/// Conversations held with `id` so far.
pub open spec fn talks_with(counts: Map<Seq<char>, u32>, id: Seq<char>) -> u32 {
    if counts.contains_key(id) {
        counts[id]
    } else {
        0
    }
}

/// Whether an offered action is a talk with an NPC below the cap.
pub open spec fn is_open_talk(counts: Map<Seq<char>, u32>, cap: u32) -> spec_fn(ActionView) -> bool {
    |a: ActionView| a.0 == ActionKind::Talk && talks_with(counts, a.1) < cap
}

/// The ids of the exit actions, in order.
pub open spec fn exit_ids(s: Seq<ActionView>) -> Seq<Seq<char>>
    decreases s.len(),
{
    if s.len() == 0 {
        Seq::empty()
    } else if s.last().0 == ActionKind::Exit {
        exit_ids(s.drop_last()).push(s.last().1)
    } else {
        exit_ids(s.drop_last())
    }
}

/// The mathematical content of a tracker.
pub struct TrackerModel {
    /// Visited nodes.
    pub visited: Set<Seq<char>>,
    /// Used abilities.
    pub used: Set<Seq<char>>,
    /// Conversations per NPC.
    pub talks: Map<Seq<char>, u32>,
    /// Examined nodes.
    pub examined: Set<Seq<char>>,
    /// Consecutive stale turns.
    pub stale: u32,
    /// Knowledge count after the previous turn.
    pub last_knowledge: usize,
    /// Exit rotation position.
    pub rotation: usize,
}

/// The heuristic's choice among the offered actions `acts` at node `here`,
/// and the tracker after choosing.
pub open spec fn pick_spec(t: TrackerModel, acts: Seq<ActionView>, here: Seq<char>, c: AutoplayConfig) -> (
    Option<(ActionKind, Seq<char>)>,
    TrackerModel,
) {
    if t.stale > c.stale_limit {
        (None, t)
    } else {
        match first_match(acts, is_unvisited_exit(t.visited)) {
            Some(i) => (Some((acts[i].0, acts[i].1)), t),
            None => match first_match(acts, is_fresh_ability(t.used)) {
                Some(i) => (Some((acts[i].0, acts[i].1)), t),
                None => match first_match(acts, is_open_talk(t.talks, c.max_talks_per_npc)) {
                    Some(i) => (
                        Some((acts[i].0, acts[i].1)),
                        TrackerModel {
                            talks: t.talks.insert(acts[i].1, (talks_with(t.talks, acts[i].1) + 1) as u32),
                            ..t
                        },
                    ),
                    None => if !t.examined.contains(here) {
                        (
                            Some((ActionKind::Examine, "examine"@)),
                            TrackerModel { examined: t.examined.insert(here), ..t },
                        )
                    } else if exit_ids(acts).len() > 0 {
                        (
                            Some(
                                (
                                    ActionKind::Exit,
                                    exit_ids(acts)[(t.rotation as int) % (exit_ids(acts).len() as int)],
                                ),
                            ),
                            TrackerModel { rotation: (t.rotation + 1) as usize, ..t },
                        )
                    } else {
                        (None, t)
                    },
                },
            },
        }
    }
}

/// Whether a turn of kind `k` on `id` discovered something, and the
/// tracker after recording it.
pub open spec fn novelty_spec(t: TrackerModel, k: ActionKind, id: Seq<char>, knowledge_now: usize) -> TrackerModel {
    let novel = match k {
        ActionKind::Ability => !t.used.contains(id),
        ActionKind::Talk => knowledge_now > t.last_knowledge,
        ActionKind::Examine => !t.examined.contains(id),
        ActionKind::Exit => !t.visited.contains(id),
    };
    TrackerModel {
        used: if k == ActionKind::Ability {
            t.used.insert(id)
        } else {
            t.used
        },
        examined: if k == ActionKind::Examine {
            t.examined.insert(id)
        } else {
            t.examined
        },
        last_knowledge: knowledge_now,
        stale: if novel {
            0
        } else {
            (t.stale + 1) as u32
        },
        ..t
    }
}

impl HeuristicTracker {
    /// The mathematical content of this tracker.
    pub open spec fn model(&self) -> TrackerModel {
        TrackerModel {
            visited: self.visited.members(),
            used: self.used_abilities.members(),
            talks: self.talk_count.as_map(),
            examined: self.examined_at.members(),
            stale: self.stale_count,
            last_knowledge: self.last_knowledge_count,
            rotation: self.exit_rotation,
        }
    }

    /// Record whether a turn produced novel state, for stale detection: a
    /// first use of an ability, knowledge growing after a talk, a first
    /// examination of a node, or an exit to a node not yet visited.
    pub fn record_novelty(&mut self, kind: ActionKind, id: &str, knowledge_now: usize)
        requires
            old(self).stale_count < u32::MAX,
        ensures
            final(self).model() == novelty_spec(old(self).model(), kind, id@, knowledge_now),
    {
        let novel = match kind {
            ActionKind::Ability => self.used_abilities.insert(id.to_owned()),
            ActionKind::Talk => knowledge_now > self.last_knowledge_count,
            ActionKind::Examine => self.examined_at.insert(id.to_owned()),
            ActionKind::Exit => !self.visited.contains(id),
        };
        self.last_knowledge_count = knowledge_now;
        if novel {
            self.stale_count = 0;
        } else {
            self.stale_count = self.stale_count + 1;
        }
    }

    /// Whether the autoplay has stalled.
    pub fn is_stale(&self, config: &AutoplayConfig) -> (r: bool)
        ensures
            r == (self.stale_count > config.stale_limit),
    {
        self.stale_count > config.stale_limit
    }

    /// Pick the next action by the heuristic priority: unexplored exits,
    /// unused abilities that are not blocked, talks below the cap (counted),
    /// examining a node once, then rotating through the offered exits.
    /// `None` once the tracker has gone stale, or when nothing applies.
    pub fn pick(&mut self, actions: &[AvailableAction], current_node: &str, config: &AutoplayConfig) -> (r:
        Option<(ActionKind, String)>)
        requires
            old(self).exit_rotation < usize::MAX,
        ensures
            ({
                let expected = pick_spec(old(self).model(), action_views(actions@), current_node@, *config);
                &&& final(self).model() == expected.1
                &&& match r {
                    Some((k, id)) => expected.0 == Some((k, id@)),
                    None => expected.0 is None,
                }
            }),
    {
        let ghost acts = action_views(actions@);
        let ghost t0 = self.model();
        if self.stale_count > config.stale_limit {
            return None;
        }
        let mut i: usize = 0;
        while i < actions.len()
            invariant
                i <= actions@.len(),
                acts == action_views(actions@),
                t0 == self.model(),
                t0 == old(self).model(),
                t0.stale <= config.stale_limit,
                forall|j: int| 0 <= j < i ==> !(is_unvisited_exit(t0.visited))(#[trigger] acts[j]),
            decreases actions@.len() - i,
        {
            let a = &actions[i];
            if a.kind == ActionKind::Exit && !self.visited.contains(a.id.as_str()) {
                proof {
                    assert(acts[i as int] == action_view(*a));
                    lemma_first_match_at(acts, is_unvisited_exit(t0.visited), i as int);
                }
                return Some((a.kind, a.id.clone()));
            }
            proof {
                assert(acts[i as int] == action_view(*a));
            }
            i = i + 1;
        }
        proof {
            lemma_first_match(acts, is_unvisited_exit(t0.visited));
            if first_match(acts, is_unvisited_exit(t0.visited)) is Some {
                let k = first_match(acts, is_unvisited_exit(t0.visited))->0;
                assert(!(is_unvisited_exit(t0.visited))(acts[k]));
            }
        }
        let mut i: usize = 0;
        while i < actions.len()
            invariant
                i <= actions@.len(),
                acts == action_views(actions@),
                t0 == self.model(),
                t0 == old(self).model(),
                t0.stale <= config.stale_limit,
                forall|j: int| 0 <= j < i ==> !(is_fresh_ability(t0.used))(#[trigger] acts[j]),
                first_match(acts, is_unvisited_exit(t0.visited)) is None,
            decreases actions@.len() - i,
        {
            let a = &actions[i];
            let blocked = match &a.detail {
                Some(d) => starts_with(d.as_str(), "[blocked]"),
                None => {
                    proof {
                        reveal_strlit("[blocked]");
                    }
                    false
                },
            };
            proof {
                assert(acts[i as int] == action_view(*a));
            }
            if a.kind == ActionKind::Ability && !self.used_abilities.contains(a.id.as_str()) && !blocked {
                proof {
                    lemma_first_match_at(acts, is_fresh_ability(t0.used), i as int);
                }
                return Some((a.kind, a.id.clone()));
            }
            i = i + 1;
        }
        proof {
            lemma_first_match(acts, is_fresh_ability(t0.used));
            if first_match(acts, is_fresh_ability(t0.used)) is Some {
                let k = first_match(acts, is_fresh_ability(t0.used))->0;
                assert(!(is_fresh_ability(t0.used))(acts[k]));
            }
        }
        let mut i: usize = 0;
        while i < actions.len()
            invariant
                i <= actions@.len(),
                acts == action_views(actions@),
                t0 == self.model(),
                t0 == old(self).model(),
                t0.stale <= config.stale_limit,
                forall|j: int| 0 <= j < i ==> !(is_open_talk(t0.talks, config.max_talks_per_npc))(#[trigger] acts[j]),
                first_match(acts, is_unvisited_exit(t0.visited)) is None,
                first_match(acts, is_fresh_ability(t0.used)) is None,
            decreases actions@.len() - i,
        {
            let a = &actions[i];
            proof {
                assert(acts[i as int] == action_view(*a));
            }
            if a.kind == ActionKind::Talk {
                let count: u32 = match self.talk_count.get(a.id.as_str()) {
                    Some(c) => *c,
                    None => 0,
                };
                proof {
                    assert(count == talks_with(t0.talks, a.id@));
                }
                if count < config.max_talks_per_npc {
                    self.talk_count.insert(a.id.clone(), count + 1);
                    proof {
                        assert(self.model().talks == t0.talks.insert(a.id@, (count + 1) as u32));
                        assert(self.model().visited == t0.visited);
                        assert(self.model() == TrackerModel { talks: t0.talks.insert(acts[i as int].1, (talks_with(t0.talks, acts[i as int].1) + 1) as u32), ..t0 });
                        lemma_first_match_at(acts, is_open_talk(t0.talks, config.max_talks_per_npc), i as int);
                    }
                    return Some((a.kind, a.id.clone()));
                }
            }
            i = i + 1;
        }
        proof {
            lemma_first_match(acts, is_open_talk(t0.talks, config.max_talks_per_npc));
            if first_match(acts, is_open_talk(t0.talks, config.max_talks_per_npc)) is Some {
                let k = first_match(acts, is_open_talk(t0.talks, config.max_talks_per_npc))->0;
                assert(!(is_open_talk(t0.talks, config.max_talks_per_npc))(acts[k]));
            }
        }
        if !self.examined_at.contains(current_node) {
            self.examined_at.insert(current_node.to_owned());
            return Some((ActionKind::Examine, String::from_str("examine")));
        }
        let mut exits: Vec<&AvailableAction> = Vec::new();
        let mut i: usize = 0;
        while i < actions.len()
            invariant
                i <= actions@.len(),
                acts == action_views(actions@),
                exits@.map_values(|a: &AvailableAction| a.id@) == exit_ids(acts.subrange(0, i as int)),
                forall|j: int| 0 <= j < exits@.len() ==> (#[trigger] exits@[j]).kind == ActionKind::Exit,
            decreases actions@.len() - i,
        {
            let a = &actions[i];
            proof {
                assert(acts[i as int] == action_view(*a));
                assert(acts.subrange(0, i + 1).drop_last() =~= acts.subrange(0, i as int));
            }
            if a.kind == ActionKind::Exit {
                exits.push(a);
            }
            proof {
                assert(exits@.map_values(|a: &AvailableAction| a.id@) =~= exit_ids(acts.subrange(0, i + 1)));
            }
            i = i + 1;
        }
        proof {
            assert(acts.subrange(0, acts.len() as int) =~= acts);
        }
        if exits.len() > 0 {
            let idx = self.exit_rotation % exits.len();
            self.exit_rotation = self.exit_rotation + 1;
            let a = exits[idx];
            proof {
                assert(exits@.map_values(|a: &AvailableAction| a.id@)[idx as int] == a.id@);
            }
            return Some((a.kind, a.id.clone()));
        }
        None
    }
}

/// The view of a history record: (turn, action, outcome, node reached).
pub open spec fn record_view(r: ActionRecord) -> (u32, Seq<char>, Seq<char>, Seq<char>) {
    (r.turn, r.action@, r.outcome@, r.node_after@)
}

/// The views of a history.
pub open spec fn record_views(h: Seq<ActionRecord>) -> Seq<(u32, Seq<char>, Seq<char>, Seq<char>)> {
    h.map_values(|r: ActionRecord| record_view(r))
}

/// `a + b`, saturated at the bound of `usize`.
pub open spec fn saturated_sum(a: nat, b: nat) -> usize {
    if a + b > usize::MAX {
        usize::MAX
    } else {
        (a + b) as usize
    }
}

/// The progress measure the heuristic reads after a turn: how many
/// knowledge fragments, flags and items the state holds (saturating).
pub open spec fn knowledge_count(m: StateModel) -> usize {
    saturated_sum(saturated_sum(m.knowledge.len(), m.flags.len()) as nat, m.inventory.len())
}

/// Where an autoplay run is: (node, state, turn, history views, tracker).
pub type RunState = (Seq<char>, StateModel, u32, Seq<(u32, Seq<char>, Seq<char>, Seq<char>)>, TrackerModel);

/// An autoplay run of at most `k` more turns from `s`: each turn stops at
/// an ending, or where the heuristic picks nothing; otherwise the picked
/// action is taken (`act_step`), recorded in the history with the next
/// turn number, judged for novelty (`novelty_spec`, against the state's
/// `knowledge_count`), and the node reached is marked visited.
pub open spec fn run_steps(b: ContentBundle, c: AutoplayConfig, s: RunState, k: nat) -> RunState
    decreases k,
{
    if k == 0 || ending_at(b, s.0) {
        s
    } else {
        let (choice, t1) = pick_spec(s.4, actions_of(b, s.0, s.1), s.0, c);
        match choice {
            None => (s.0, s.1, s.2, s.3, t1),
            Some((kind, id)) => {
                let step = act_step(b, s.0, s.1, kind, id);
                let turn = s.2.wrapping_add(1);
                let record = (turn, kind_text(kind) + ":"@ + id, outcome_text(step.2), step.0);
                let t2 = novelty_spec(t1, kind, id, knowledge_count(step.1));
                run_steps(b, c, (step.0, step.1, turn, s.3.push(record), TrackerModel { visited: t2.visited.insert(step.0), ..t2 }), (k - 1) as nat)
            },
        }
    }
}

/// The tracker an autoplay run starts with: nothing but the start node
/// visited.
pub open spec fn initial_tracker(node: Seq<char>) -> TrackerModel {
    TrackerModel {
        visited: set![node],
        used: Set::empty(),
        talks: Map::empty(),
        examined: Set::empty(),
        stale: 0,
        last_knowledge: 0,
        rotation: 0,
    }
}

/// Run a full autoplay session: up to `max_turns` turns, stopping early
/// at an ending or when the heuristic has nothing left to try (or has
/// gone stale). The session ends where `run_steps` says; the result
/// reports whether that is an ending, the turn reached, how many nodes the
/// run visited, and whether the heuristic went stale.
pub fn run(session: &mut GameSession, config: &AutoplayConfig) -> (r: Result<AutoplayResult, String>)
    ensures
        r is Ok,
        final(session).spec_bundle() == old(session).spec_bundle(),
        ({
            let fin = run_steps(
                old(session).spec_bundle(),
                *config,
                (
                    old(session).spec_node(),
                    old(session).spec_state().model(),
                    old(session).spec_turn(),
                    record_views(old(session).spec_history()),
                    initial_tracker(old(session).spec_node()),
                ),
                config.max_turns as nat,
            );
            &&& final(session).spec_node() == fin.0
            &&& final(session).spec_state().model() == fin.1
            &&& final(session).spec_turn() == fin.2
            &&& record_views(final(session).spec_history()) == fin.3
            &&& r->Ok_0.ended == ending_at(final(session).spec_bundle(), fin.0)
            &&& r->Ok_0.turns == fin.2
            &&& r->Ok_0.nodes_visited == fin.4.visited.len()
            &&& r->Ok_0.stale_halt == (fin.4.stale > config.stale_limit)
        }),
        r->Ok_0.nodes_visited >= 1,
        final(session).spec_history().len() <= old(session).spec_history().len() + config.max_turns,
        final(session).spec_history().subrange(0, old(session).spec_history().len() as int)
            == old(session).spec_history(),
{
    let mut tracker = HeuristicTracker::default();
    tracker.visited.insert(session.current_node_id().to_owned());
    let ghost h0 = session.spec_history();
    let ghost b0 = session.spec_bundle();
    let ghost fin = run_steps(
        b0,
        *config,
        (session.spec_node(), session.spec_state().model(), session.spec_turn(), record_views(h0), tracker.model()),
        config.max_turns as nat,
    );
    proof {
        assert(tracker.model() == initial_tracker(session.spec_node()));
    }
    let mut i: u32 = 0;
    while i < config.max_turns
        invariant
            i <= config.max_turns,
            session.spec_bundle() == b0,
            session.spec_history().len() == h0.len() + i,
            session.spec_history().subrange(0, h0.len() as int) == h0,
            tracker.stale_count <= i,
            tracker.exit_rotation <= i,
            tracker.visited.members().len() >= 1,
            tracker.visited.members().finite(),
            run_steps(
                b0,
                *config,
                (session.spec_node(), session.spec_state().model(), session.spec_turn(), record_views(session.spec_history()), tracker.model()),
                (config.max_turns - i) as nat,
            ) == fin,
        ensures
            session.spec_bundle() == b0,
            session.spec_history().len() == h0.len() + i,
            session.spec_history().subrange(0, h0.len() as int) == h0,
            tracker.visited.members().len() >= 1,
            (session.spec_node(), session.spec_state().model(), session.spec_turn(), record_views(session.spec_history()), tracker.model()) == fin,
        decreases config.max_turns - i,
    {
        if session.is_ended() {
            break;
        }
        let actions = session.available_actions();
        let node = session.current_node_id().to_owned();
        let ghost s_before = (session.spec_node(), session.spec_state().model(), session.spec_turn(), record_views(session.spec_history()), tracker.model());
        let choice = tracker.pick(actions.as_slice(), node.as_str(), config);
        let (kind, id) = match choice {
            Some(c) => c,
            None => {
                break;
            },
        };
        let ghost t1 = tracker.model();
        let ghost hist_before = session.spec_history();
        let _ = session.act(kind, id.as_str());
        proof {
            assert(session.spec_history().subrange(0, h0.len() as int) =~= hist_before.subrange(0, h0.len() as int));
            assert(record_views(session.spec_history()) =~= record_views(hist_before).push(record_view(session.spec_history().last())));
        }
        let knowledge_count = session.state().knowledge.len().saturating_add(session.state().flags.len()).saturating_add(
            session.state().inventory.len(),
        );
        tracker.record_novelty(kind, id.as_str(), knowledge_count);
        let ghost vis_before = tracker.visited.members();
        tracker.visited.insert(session.current_node_id().to_owned());
        proof {
            vstd::set_lib::lemma_len_subset(vis_before, tracker.visited.members());
        }
        i = i + 1;
    }
    Ok(
        AutoplayResult {
            ended: session.is_ended(),
            turns: session.turn(),
            nodes_visited: tracker.visited.len(),
            stale_halt: tracker.is_stale(config),
        },
    )
}

/// Exploration comes first: while the tracker is not stale, the pick is the
/// first offered exit to a node not yet visited, whatever abilities,
/// conversations or examining are also on offer, and picking it changes
/// nothing in the tracker.
pub proof fn law_unexplored_exits_come_first(t: TrackerModel, acts: Seq<ActionView>, here: Seq<char>, c: AutoplayConfig, i: int)
    requires
        t.stale <= c.stale_limit,
        0 <= i < acts.len(),
        acts[i].0 == ActionKind::Exit,
        !t.visited.contains(acts[i].1),
        forall|j: int| 0 <= j < i ==> !((#[trigger] acts[j]).0 == ActionKind::Exit && !t.visited.contains(acts[j].1)),
    ensures
        pick_spec(t, acts, here, c) == (Some((ActionKind::Exit, acts[i].1)), t),
{
    let p = is_unvisited_exit(t.visited);
    assert forall|j: int| 0 <= j < i implies !p(#[trigger] acts[j]) by {
        assert(!(acts[j].0 == ActionKind::Exit && !t.visited.contains(acts[j].1)));
    }
    lemma_first_match_at(acts, p, i);
}

/// Abilities come next: while the tracker is not stale and no offered exit
/// leads somewhere unvisited, the pick is the first offered ability not yet
/// used whose detail is not marked `[blocked]`.
pub proof fn law_fresh_abilities_come_second(t: TrackerModel, acts: Seq<ActionView>, here: Seq<char>, c: AutoplayConfig, i: int)
    requires
        t.stale <= c.stale_limit,
        forall|j: int| 0 <= j < acts.len() ==> !((#[trigger] acts[j]).0 == ActionKind::Exit && !t.visited.contains(acts[j].1)),
        0 <= i < acts.len(),
        acts[i].0 == ActionKind::Ability,
        !t.used.contains(acts[i].1),
        !is_prefix("[blocked]"@, detail_or_empty(acts[i].3)),
        forall|j: int| 0 <= j < i ==> !((#[trigger] acts[j]).0 == ActionKind::Ability && !t.used.contains(acts[j].1)
            && !is_prefix("[blocked]"@, detail_or_empty(acts[j].3))),
    ensures
        pick_spec(t, acts, here, c) == (Some((ActionKind::Ability, acts[i].1)), t),
{
    let e = is_unvisited_exit(t.visited);
    let p = is_fresh_ability(t.used);
    lemma_first_match(acts, e);
    if first_match(acts, e) is Some {
        let k = first_match(acts, e)->0;
        assert(!(acts[k].0 == ActionKind::Exit && !t.visited.contains(acts[k].1)));
    }
    assert forall|j: int| 0 <= j < i implies !p(#[trigger] acts[j]) by {
        assert(!(acts[j].0 == ActionKind::Ability && !t.used.contains(acts[j].1)
            && !is_prefix("[blocked]"@, detail_or_empty(acts[j].3))));
    }
    lemma_first_match_at(acts, p, i);
}

/// A tracker past its stale limit picks nothing, and stays as it is.
pub proof fn law_stale_tracker_stops(t: TrackerModel, acts: Seq<ActionView>, here: Seq<char>, c: AutoplayConfig)
    requires
        t.stale > c.stale_limit,
    ensures
        pick_spec(t, acts, here, c) == (None::<(ActionKind, Seq<char>)>, t),
{
}

/// Conversations come third: while the tracker is not stale, with no exit
/// to an unvisited node and no fresh usable ability on offer, the pick is
/// the first offered talk with an NPC spoken to fewer times than the cap,
/// and that NPC's conversation count goes up by one.
pub proof fn law_open_talks_come_third(t: TrackerModel, acts: Seq<ActionView>, here: Seq<char>, c: AutoplayConfig, i: int)
    requires
        t.stale <= c.stale_limit,
        forall|j: int| 0 <= j < acts.len() ==> !((#[trigger] acts[j]).0 == ActionKind::Exit && !t.visited.contains(acts[j].1)),
        forall|j: int| 0 <= j < acts.len() ==> !((#[trigger] acts[j]).0 == ActionKind::Ability && !t.used.contains(acts[j].1)
            && !is_prefix("[blocked]"@, detail_or_empty(acts[j].3))),
        0 <= i < acts.len(),
        acts[i].0 == ActionKind::Talk,
        talks_with(t.talks, acts[i].1) < c.max_talks_per_npc,
        forall|j: int| 0 <= j < i ==> !((#[trigger] acts[j]).0 == ActionKind::Talk && talks_with(t.talks, acts[j].1) < c.max_talks_per_npc),
    ensures
        pick_spec(t, acts, here, c).0 == Some((ActionKind::Talk, acts[i].1)),
        pick_spec(t, acts, here, c).1 == (TrackerModel {
            talks: t.talks.insert(acts[i].1, (talks_with(t.talks, acts[i].1) + 1) as u32),
            ..t
        }),
        talks_with(pick_spec(t, acts, here, c).1.talks, acts[i].1) == talks_with(t.talks, acts[i].1) + 1,
{
    let e = is_unvisited_exit(t.visited);
    let a = is_fresh_ability(t.used);
    let p = is_open_talk(t.talks, c.max_talks_per_npc);
    lemma_first_match(acts, e);
    if first_match(acts, e) is Some {
        let k = first_match(acts, e)->0;
        assert(!(acts[k].0 == ActionKind::Exit && !t.visited.contains(acts[k].1)));
    }
    lemma_first_match(acts, a);
    if first_match(acts, a) is Some {
        let k = first_match(acts, a)->0;
        assert(!(acts[k].0 == ActionKind::Ability && !t.used.contains(acts[k].1)
            && !is_prefix("[blocked]"@, detail_or_empty(acts[k].3))));
    }
    assert forall|j: int| 0 <= j < i implies !p(#[trigger] acts[j]) by {
        assert(!(acts[j].0 == ActionKind::Talk && talks_with(t.talks, acts[j].1) < c.max_talks_per_npc));
    }
    lemma_first_match_at(acts, p, i);
}

/// Examining comes fourth: while the tracker is not stale, with no
/// unvisited exit, no fresh usable ability and no open talk on offer, a
/// node not yet examined is examined, and is then marked examined.
pub proof fn law_unexamined_nodes_are_examined(t: TrackerModel, acts: Seq<ActionView>, here: Seq<char>, c: AutoplayConfig)
    requires
        t.stale <= c.stale_limit,
        forall|j: int| 0 <= j < acts.len() ==> !((#[trigger] acts[j]).0 == ActionKind::Exit && !t.visited.contains(acts[j].1)),
        forall|j: int| 0 <= j < acts.len() ==> !((#[trigger] acts[j]).0 == ActionKind::Ability && !t.used.contains(acts[j].1)
            && !is_prefix("[blocked]"@, detail_or_empty(acts[j].3))),
        forall|j: int| 0 <= j < acts.len() ==> !((#[trigger] acts[j]).0 == ActionKind::Talk && talks_with(t.talks, acts[j].1) < c.max_talks_per_npc),
        !t.examined.contains(here),
    ensures
        pick_spec(t, acts, here, c).0 == Some((ActionKind::Examine, "examine"@)),
        pick_spec(t, acts, here, c).1 == (TrackerModel { examined: t.examined.insert(here), ..t }),
{
    let e = is_unvisited_exit(t.visited);
    let a = is_fresh_ability(t.used);
    let p = is_open_talk(t.talks, c.max_talks_per_npc);
    lemma_first_match(acts, e);
    if first_match(acts, e) is Some {
        let k = first_match(acts, e)->0;
        assert(!(acts[k].0 == ActionKind::Exit && !t.visited.contains(acts[k].1)));
    }
    lemma_first_match(acts, a);
    if first_match(acts, a) is Some {
        let k = first_match(acts, a)->0;
        assert(!(acts[k].0 == ActionKind::Ability && !t.used.contains(acts[k].1)
            && !is_prefix("[blocked]"@, detail_or_empty(acts[k].3))));
    }
    lemma_first_match(acts, p);
    if first_match(acts, p) is Some {
        let k = first_match(acts, p)->0;
        assert(!(acts[k].0 == ActionKind::Talk && talks_with(t.talks, acts[k].1) < c.max_talks_per_npc));
    }
}

} // verus!
