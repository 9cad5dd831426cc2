//! The narrative engine: a finite authored topology (scenes, beats and
//! transitions) combined with a combinatorial world state.
//!
//! `NarrativeGraph` holds the authored nodes keyed by id, in the order they
//! were added; its queries are specified over that sequence of entries.

pub mod depth;
pub mod effect;
pub mod predicate;
pub mod validator;
pub mod visualization;

use vstd::prelude::*;

use crate::collections::{StrMap, key_index, lookup};
use self::effect::StateEffect;
use self::predicate::StatePredicate;

pub use self::visualization::DagOverlay;

verus! {

/// The type of scene a narrative node represents.
#[derive(Debug, Clone, Copy, PartialEq, Eq)]
pub enum SceneType {
    /// Open dialogue with NPC(s).
    Dialogue,
    /// Free movement and ambient discovery.
    Exploration,
    /// Clue gathering and deduction.
    Investigation,
    /// Grid/zone combat.
    Tactical,
    /// Plane transition (meta-node).
    Transition,
    /// Game ending.
    Ending,
}

/// How a narrative edge transitions between scenes.
#[derive(Debug, Clone, Copy, PartialEq, Eq)]
pub enum TransitionType {
    /// Same plane, different scene.
    SamePlane,
    /// Cross-plane transition (e.g. dialogue -> tactical).
    CrossPlane,
    /// Temporal (passage of time).
    Temporal,
}

/// The transition type an edge has when its content does not name one.
pub fn default_transition_type() -> (r: TransitionType)
    ensures
        r == TransitionType::SamePlane,
{
    TransitionType::SamePlane
}

/// An authored scene/beat in the narrative graph.
#[derive(Debug)]
pub struct NarrativeNode {
    /// Unique node identifier.
    pub id: String,
    /// Type of scene.
    pub scene_type: SceneType,
    /// Reference to the scene content.
    pub content_ref: String,
    /// Preconditions that must be met to enter this node.
    pub preconditions: Vec<StatePredicate>,
    /// State effects applied when this node is entered.
    pub effects: Vec<StateEffect>,
    /// Outgoing edges to other nodes.
    pub exits: Vec<NarrativeEdge>,
    /// Whether this is the start node.
    pub is_start: bool,
    /// Whether this is an ending node.
    pub is_ending: bool,
    /// Human-readable label for graph visualization.
    pub label: Option<String>,
}

/// A directed edge between narrative nodes.
#[derive(Debug)]
pub struct NarrativeEdge {
    /// Target node ID.
    pub target: String,
    /// Conditions that must be met to traverse this edge.
    pub conditions: Vec<StatePredicate>,
    /// Priority for disambiguation when multiple edges are valid.
    pub priority: i32,
    /// Transition type.
    pub transition_type: TransitionType,
    /// Human-readable label.
    pub label: Option<String>,
}

/// The full narrative graph: nodes keyed by id.
#[derive(Debug)]
pub struct NarrativeGraph {
    /// All nodes in the graph, keyed by ID.
    pub nodes: StrMap<NarrativeNode>,
}

// ---------------------------------------------------------------------
// Specification helpers
// ---------------------------------------------------------------------

/// The nodes of a sequence of entries, in order.
pub open spec fn entry_nodes(s: Seq<(String, NarrativeNode)>) -> Seq<NarrativeNode> {
    s.map_values(|e: (String, NarrativeNode)| e.1)
}

/// The nodes of `s` flagged as endings, in order.
pub open spec fn ending_nodes(s: Seq<NarrativeNode>) -> Seq<NarrativeNode>
    decreases s.len(),
{
    if s.len() == 0 {
        Seq::empty()
    } else if s.last().is_ending {
        ending_nodes(s.drop_last()).push(s.last())
    } else {
        ending_nodes(s.drop_last())
    }
}

/// Position of the first node of `s` flagged as start.
pub open spec fn first_start(s: Seq<NarrativeNode>) -> Option<int>
    decreases s.len(),
{
    if s.len() == 0 {
        None
    } else if s[0].is_start {
        Some(0)
    } else {
        match first_start(s.drop_first()) {
            Some(i) => Some(i + 1),
            None => None,
        }
    }
}

/// Characterization of `first_start`.
pub proof fn lemma_first_start(s: Seq<NarrativeNode>)
    ensures
        match first_start(s) {
            Some(i) => 0 <= i < s.len() && s[i].is_start && forall|j: int|
                0 <= j < i ==> !#[trigger] s[j].is_start,
            None => forall|j: int| 0 <= j < s.len() ==> !#[trigger] s[j].is_start,
        },
    decreases s.len(),
{
    if s.len() > 0 && !s[0].is_start {
        lemma_first_start(s.drop_first());
        assert forall|j: int| 0 < j < s.len() implies s[j] == s.drop_first()[j - 1] by {}
    }
}

/// The edges of `s` whose flag in `keep` is set, in order.
pub open spec fn select_edges(s: Seq<NarrativeEdge>, keep: Seq<bool>) -> Seq<NarrativeEdge>
    decreases s.len(),
{
    if s.len() == 0 || keep.len() == 0 {
        Seq::empty()
    } else if keep.last() {
        select_edges(s.drop_last(), keep.drop_last()).push(s.last())
    } else {
        select_edges(s.drop_last(), keep.drop_last())
    }
}

/// `e` inserted into `sorted` after every edge of priority at least its own.
pub open spec fn insert_by_priority(sorted: Seq<NarrativeEdge>, e: NarrativeEdge) -> Seq<NarrativeEdge>
    decreases sorted.len(),
{
    if sorted.len() == 0 {
        seq![e]
    } else if sorted.last().priority >= e.priority {
        sorted.push(e)
    } else {
        insert_by_priority(sorted.drop_last(), e).push(sorted.last())
    }
}

/// Stable sort by priority, highest first: edges of equal priority keep
/// their relative order.
pub open spec fn sort_by_priority(s: Seq<NarrativeEdge>) -> Seq<NarrativeEdge>
    decreases s.len(),
{
    if s.len() == 0 {
        Seq::empty()
    } else {
        insert_by_priority(sort_by_priority(s.drop_last()), s.last())
    }
}

/// Priorities never increase along `s`.
pub open spec fn priority_descending(s: Seq<NarrativeEdge>) -> bool {
    forall|i: int, j: int| 0 <= i < j < s.len() ==> (#[trigger] s[i]).priority >= (#[trigger] s[j]).priority
}

/// Whether an edge passes: every one of its conditions was accepted.
pub open spec fn edge_accepted<F: Fn(&StatePredicate) -> bool>(f: F, e: NarrativeEdge) -> bool {
    forall|j: int| 0 <= j < e.conditions@.len() ==> call_ensures(f, (&e.conditions@[j],), true)
}

/// Whether an edge fails: one of its conditions was rejected.
pub open spec fn edge_rejected<F: Fn(&StatePredicate) -> bool>(f: F, e: NarrativeEdge) -> bool {
    exists|j: int| 0 <= j < e.conditions@.len() && call_ensures(f, (&e.conditions@[j],), false)
}

/// The outgoing edges that pass `f`, stably sorted by priority, highest
/// first, as `keep` records for each edge whether it passed.
pub open spec fn exits_selected<F: Fn(&StatePredicate) -> bool>(
    f: F,
    exits: Seq<NarrativeEdge>,
    keep: Seq<bool>,
    r: Seq<NarrativeEdge>,
) -> bool {
    &&& keep.len() == exits.len()
    &&& forall|i: int| 0 <= i < exits.len() && #[trigger] keep[i] ==> edge_accepted(f, exits[i])
    &&& forall|i: int| 0 <= i < exits.len() && !#[trigger] keep[i] ==> edge_rejected(f, exits[i])
    &&& r == sort_by_priority(select_edges(exits, keep))
}

/// Inserting at the first position from the end whose predecessor has at
/// least the new edge's priority is `insert_by_priority`.
proof fn lemma_insert_position(s: Seq<NarrativeEdge>, j: int, e: NarrativeEdge)
    requires
        0 <= j <= s.len(),
        forall|k: int| j <= k < s.len() ==> (#[trigger] s[k]).priority < e.priority,
        j > 0 ==> s[j - 1].priority >= e.priority,
    ensures
        insert_by_priority(s, e) == s.insert(j, e),
    decreases s.len() - j,
{
    if s.len() == 0 {
        assert(s.insert(j, e) =~= seq![e]);
    } else if j == s.len() {
        assert(s.insert(j, e) =~= s.push(e));
    } else {
        let d = s.drop_last();
        assert forall|k: int| j <= k < d.len() implies (#[trigger] d[k]).priority < e.priority by {
            assert(d[k] == s[k]);
        }
        lemma_insert_position(d, j, e);
        assert(d.insert(j, e).push(s.last()) =~= s.insert(j, e));
    }
}

/// `insert_by_priority` keeps a descending sequence descending.
proof fn lemma_insert_sorted(s: Seq<NarrativeEdge>, e: NarrativeEdge)
    requires
        priority_descending(s),
    ensures
        priority_descending(insert_by_priority(s, e)),
        insert_by_priority(s, e).len() == s.len() + 1,
    decreases s.len(),
{
    if s.len() > 0 && s.last().priority < e.priority {
        let d = s.drop_last();
        assert(priority_descending(d)) by {
            assert forall|i: int, j: int| 0 <= i < j < d.len() implies (#[trigger] d[i]).priority
                >= (#[trigger] d[j]).priority by {
                assert(d[i] == s[i]);
                assert(d[j] == s[j]);
            }
        }
        lemma_insert_sorted(d, e);
        let t = insert_by_priority(d, e);
        lemma_insert_members(d, e);
        let u = t.push(s.last());
        assert forall|i: int, j: int| 0 <= i < j < u.len() implies (#[trigger] u[i]).priority
            >= (#[trigger] u[j]).priority by {
            if j == u.len() - 1 {
                if t[i] == e {
                } else {
                    let k = choose|k: int| 0 <= k < d.len() && d[k] == t[i];
                    assert(s[k] == d[k]);
                }
            } else {
                assert(u[i] == t[i]);
                assert(u[j] == t[j]);
            }
        }
    }
}

/// Every element of `insert_by_priority(s, e)` is `e` or an element of `s`.
proof fn lemma_insert_members(s: Seq<NarrativeEdge>, e: NarrativeEdge)
    ensures
        forall|i: int| 0 <= i < insert_by_priority(s, e).len() ==> #[trigger] insert_by_priority(s, e)[i] == e
            || exists|k: int| 0 <= k < s.len() && s[k] == insert_by_priority(s, e)[i],
    decreases s.len(),
{
    if s.len() > 0 && s.last().priority < e.priority {
        let d = s.drop_last();
        lemma_insert_members(d, e);
        let t = insert_by_priority(d, e);
        assert forall|i: int| 0 <= i < insert_by_priority(s, e).len() implies #[trigger] insert_by_priority(s, e)[i] == e
            || exists|k: int| 0 <= k < s.len() && s[k] == insert_by_priority(s, e)[i] by {
            if i < t.len() {
                if t[i] != e {
                    let k = choose|k: int| 0 <= k < d.len() && d[k] == t[i];
                    assert(s[k] == d[k]);
                }
            } else {
                assert(s[s.len() - 1] == insert_by_priority(s, e)[i]);
            }
        }
    } else if s.len() > 0 {
        assert forall|i: int| 0 <= i < insert_by_priority(s, e).len() implies #[trigger] insert_by_priority(s, e)[i] == e
            || exists|k: int| 0 <= k < s.len() && s[k] == insert_by_priority(s, e)[i] by {
            if i < s.len() {
                assert(s[i] == insert_by_priority(s, e)[i]);
            }
        }
    }
}

/// The stable priority sort yields a descending sequence of the same length.
pub proof fn lemma_sort_by_priority(s: Seq<NarrativeEdge>)
    ensures
        priority_descending(sort_by_priority(s)),
        sort_by_priority(s).len() == s.len(),
    decreases s.len(),
{
    if s.len() > 0 {
        lemma_sort_by_priority(s.drop_last());
        lemma_insert_sorted(sort_by_priority(s.drop_last()), s.last());
    }
}

/// The edge values behind a sequence of edge references.
pub open spec fn deref_edges(s: Seq<&NarrativeEdge>) -> Seq<NarrativeEdge> {
    s.map_values(|e: &NarrativeEdge| *e)
}

/// The node values behind a sequence of node references.
pub open spec fn deref_nodes(s: Seq<&NarrativeNode>) -> Seq<NarrativeNode> {
    s.map_values(|n: &NarrativeNode| *n)
}

/// Total number of outgoing edges of the nodes of `s`.
pub open spec fn total_exits(s: Seq<NarrativeNode>) -> nat
    decreases s.len(),
{
    if s.len() == 0 {
        0
    } else {
        total_exits(s.drop_last()) + s.last().exits@.len()
    }
}

proof fn lemma_total_exits_prefix(s: Seq<NarrativeNode>, i: int, j: int)
    requires
        0 <= i <= j <= s.len(),
    ensures
        total_exits(s.subrange(0, i)) <= total_exits(s.subrange(0, j)),
    decreases j - i,
{
    if i < j {
        lemma_total_exits_prefix(s, i, j - 1);
        assert(s.subrange(0, j).drop_last() =~= s.subrange(0, j - 1));
    }
}

impl NarrativeGraph {
    /// The nodes, in the order their entries were added.
    pub open spec fn node_seq(&self) -> Seq<NarrativeNode> {
        entry_nodes(self.nodes.seq())
    }

    /// An empty graph.
    pub fn new() -> (r: NarrativeGraph)
        ensures
            r.nodes.seq().len() == 0,
    {
        NarrativeGraph { nodes: StrMap::new() }
    }

    /// Total number of narrative nodes in the graph.
    pub fn node_count(&self) -> (r: usize)
        ensures
            r == self.nodes.seq().len(),
    {
        self.nodes.len()
    }

    /// The start node: the first node (in entry order) with `is_start` set.
    pub fn start_node(&self) -> (r: Option<&NarrativeNode>)
        ensures
            match first_start(self.node_seq()) {
                Some(i) => r == Some(&self.node_seq()[i]),
                None => r is None,
            },
    {
        proof {
            lemma_first_start(self.node_seq());
        }
        let mut i: usize = 0;
        while i < self.nodes.len()
            invariant
                i <= self.nodes.seq().len(),
                forall|j: int| 0 <= j < i ==> !(#[trigger] self.node_seq()[j]).is_start,
            decreases self.nodes.seq().len() - i,
        {
            let n = self.nodes.value_at(i);
            if n.is_start {
                proof {
                    lemma_first_start(self.node_seq());
                    match first_start(self.node_seq()) {
                        Some(q) => {
                            if q > i {
                                assert(self.node_seq()[i as int].is_start);
                            }
                            if q < i {
                                assert(!self.node_seq()[q].is_start);
                            }
                        },
                        None => {
                            assert(self.node_seq()[i as int].is_start);
                        },
                    }
                }
                return Some(n);
            }
            i = i + 1;
        }
        None
    }

    /// All ending nodes, in entry order.
    pub fn endings(&self) -> (r: Vec<&NarrativeNode>)
        ensures
            deref_nodes(r@) == ending_nodes(self.node_seq()),
    {
        let mut out: Vec<&NarrativeNode> = Vec::new();
        let mut i: usize = 0;
        while i < self.nodes.len()
            invariant
                i <= self.nodes.seq().len(),
                deref_nodes(out@) == ending_nodes(self.node_seq().subrange(0, i as int)),
            decreases self.nodes.seq().len() - i,
        {
            let n = self.nodes.value_at(i);
            proof {
                assert(self.node_seq().subrange(0, i + 1).drop_last() =~= self.node_seq().subrange(
                    0,
                    i as int,
                ));
            }
            if n.is_ending {
                out.push(n);
                proof {
                    assert(deref_nodes(out@) =~= ending_nodes(self.node_seq().subrange(0, i as int)).push(*n));
                }
            }
            i = i + 1;
        }
        assert(self.node_seq().subrange(0, self.nodes.seq().len() as int) =~= self.node_seq());
        out
    }

    /// Get a node by ID.
    pub fn get(&self, id: &str) -> (r: Option<&NarrativeNode>)
        ensures
            match r {
                Some(n) => self.nodes.spec_get(id@) == Some(*n),
                None => self.nodes.spec_get(id@) is None,
            },
    {
        self.nodes.get(id)
    }

    /// The exits of node `node_id` whose conditions all pass `evaluate`,
    /// sorted by priority, highest first (ties keep their authored order).
    /// An unknown node has no exits.
    pub fn valid_exits<'a, F: Fn(&StatePredicate) -> bool>(&'a self, node_id: &str, evaluate: F) -> (r: Vec<&'a NarrativeEdge>)
        requires
            forall|p: &StatePredicate| #[trigger] call_requires(evaluate, (p,)),
        ensures
            match self.nodes.spec_get(node_id@) {
                None => r@.len() == 0,
                Some(n) => exists|keep: Seq<bool>| exits_selected(evaluate, n.exits@, keep, deref_edges(r@)),
            },
            priority_descending(deref_edges(r@)),
    {
        let node = match self.nodes.get(node_id) {
            Some(n) => n,
            None => {
                return Vec::new();
            },
        };
        let mut out: Vec<&'a NarrativeEdge> = Vec::new();
        let ghost mut keep: Seq<bool> = Seq::empty();
        let mut i: usize = 0;
        while i < node.exits.len()
            invariant
                i <= node.exits@.len(),
                forall|p: &StatePredicate| #[trigger] call_requires(evaluate, (p,)),
                keep.len() == i,
                forall|k: int| 0 <= k < i && #[trigger] keep[k] ==> edge_accepted(evaluate, node.exits@[k]),
                forall|k: int| 0 <= k < i && !#[trigger] keep[k] ==> edge_rejected(evaluate, node.exits@[k]),
                deref_edges(out@) == sort_by_priority(select_edges(node.exits@.subrange(0, i as int), keep)),
            decreases node.exits@.len() - i,
        {
            let e: &'a NarrativeEdge = &node.exits[i];
            let mut pass = true;
            let mut j: usize = 0;
            while j < e.conditions.len()
                invariant
                    j <= e.conditions@.len(),
                    forall|p: &StatePredicate| #[trigger] call_requires(evaluate, (p,)),
                    pass ==> forall|c: int| 0 <= c < j ==> call_ensures(evaluate, (&e.conditions@[c],), true),
                    !pass ==> exists|c: int| 0 <= c < e.conditions@.len() && call_ensures(evaluate, (&e.conditions@[c],), false),
                ensures
                    pass ==> forall|c: int| 0 <= c < e.conditions@.len() ==> call_ensures(evaluate, (&e.conditions@[c],), true),
                    !pass ==> exists|c: int| 0 <= c < e.conditions@.len() && call_ensures(evaluate, (&e.conditions@[c],), false),
                decreases e.conditions@.len() - j,
            {
                let ok = evaluate(&e.conditions[j]);
                if !ok {
                    pass = false;
                    break;
                }
                j = j + 1;
            }
            let ghost sel_before = select_edges(node.exits@.subrange(0, i as int), keep);
            proof {
                lemma_sort_by_priority(sel_before);
            }
            if pass {
                let mut p: usize = out.len();
                while p > 0 && out[p - 1].priority < e.priority
                    invariant
                        p <= out@.len(),
                        forall|k: int| p <= k < out@.len() ==> (#[trigger] out@[k]).priority < e.priority,
                    decreases p,
                {
                    p = p - 1;
                }
                proof {
                    lemma_insert_position(deref_edges(out@), p as int, *e);
                }
                out.insert(p, e);
                proof {
                    assert(deref_edges(out@) =~= insert_by_priority(sort_by_priority(sel_before), *e));
                }
            }
            proof {
                let nk = keep.push(pass);
                let pre = node.exits@.subrange(0, i + 1);
                assert(pre.drop_last() =~= node.exits@.subrange(0, i as int));
                assert(nk.drop_last() =~= keep);
                if pass {
                    assert(select_edges(pre, nk) == sel_before.push(*e));
                    assert(sel_before.push(*e).drop_last() =~= sel_before);
                } else {
                    assert(select_edges(pre, nk) == sel_before);
                }
                keep = nk;
            }
            i = i + 1;
        }
        proof {
            assert(node.exits@.subrange(0, node.exits@.len() as int) =~= node.exits@);
            assert(exits_selected(evaluate, node.exits@, keep, deref_edges(out@)));
            lemma_sort_by_priority(select_edges(node.exits@, keep));
        }
        out
    }

    /// Total number of edges in the graph.
    pub fn edge_count(&self) -> (r: usize)
        requires
            total_exits(self.node_seq()) <= usize::MAX,
        ensures
            r == total_exits(self.node_seq()),
    {
        let mut total: usize = 0;
        let mut i: usize = 0;
        while i < self.nodes.len()
            invariant
                i <= self.nodes.seq().len(),
                total == total_exits(self.node_seq().subrange(0, i as int)),
                total_exits(self.node_seq()) <= usize::MAX,
            decreases self.nodes.seq().len() - i,
        {
            proof {
                assert(self.node_seq().subrange(0, i + 1).drop_last() =~= self.node_seq().subrange(
                    0,
                    i as int,
                ));
                assert(self.node_seq().subrange(0, self.nodes.seq().len() as int) =~= self.node_seq());
                lemma_total_exits_prefix(self.node_seq(), i + 1, self.nodes.seq().len() as int);
            }
            total = total + self.nodes.value_at(i).exits.len();
            i = i + 1;
        }
        assert(self.node_seq().subrange(0, self.nodes.seq().len() as int) =~= self.node_seq());
        total
    }
}

// ---------------------------------------------------------------------
// Reachability
// ---------------------------------------------------------------------

/// The target ids of a node's exits, in order.
pub open spec fn targets_of(n: NarrativeNode) -> Seq<Seq<char>> {
    n.exits@.map_values(|e: NarrativeEdge| e.target@)
}

/// Whether the graph has an edge from the node keyed `a` to id `b`.
pub open spec fn succ(g: NarrativeGraph, a: Seq<char>, b: Seq<char>) -> bool {
    match g.nodes.spec_get(a) {
        Some(n) => targets_of(n).contains(b),
        None => false,
    }
}

/// A non-empty sequence of ids, each joined to the next by an edge.
pub open spec fn is_walk(g: NarrativeGraph, w: Seq<Seq<char>>) -> bool {
    &&& w.len() >= 1
    &&& forall|i: int| 0 <= i < w.len() - 1 ==> succ(g, #[trigger] w[i], w[i + 1])
}

/// Whether `b` can be reached from `a` by following edges (every id
/// reaches itself).
pub open spec fn reaches(g: NarrativeGraph, a: Seq<char>, b: Seq<char>) -> bool {
    exists|w: Seq<Seq<char>>| #[trigger] is_walk(g, w) && w[0] == a && w.last() == b
}

/// Every edge target of every entry, in entry then exit order.
pub open spec fn all_targets(s: Seq<(String, NarrativeNode)>) -> Seq<Seq<char>>
    decreases s.len(),
{
    if s.len() == 0 {
        Seq::empty()
    } else {
        all_targets(s.drop_last()) + targets_of(s.last().1)
    }
}

/// The targets of every entry's node occur in `all_targets`.
pub proof fn lemma_all_targets(s: Seq<(String, NarrativeNode)>, i: int, t: Seq<char>)
    requires
        0 <= i < s.len(),
        targets_of(s[i].1).contains(t),
    ensures
        all_targets(s).contains(t),
    decreases s.len(),
{
    let d = s.drop_last();
    if i == s.len() - 1 {
        let k = choose|k: int| 0 <= k < targets_of(s[i].1).len() && targets_of(s[i].1)[k] == t;
        assert(all_targets(s)[all_targets(d).len() + k] == t);
    } else {
        assert(d[i] == s[i]);
        lemma_all_targets(d, i, t);
        let k = choose|k: int| 0 <= k < all_targets(d).len() && all_targets(d)[k] == t;
        assert(all_targets(s)[k] == t);
    }
}

/// A successor of any node is among all the targets.
pub proof fn lemma_succ_in_targets(g: NarrativeGraph, a: Seq<char>, b: Seq<char>)
    requires
        succ(g, a, b),
    ensures
        all_targets(g.nodes.seq()).contains(b),
{
    let s = g.nodes.seq();
    crate::collections::lemma_key_index(s, a);
    let i = key_index(s, a)->0;
    lemma_all_targets(s, i, b);
}

/// A set that contains `a` and is closed under edges contains everything
/// reachable from `a`.
pub proof fn lemma_closed_contains_reach(g: NarrativeGraph, a: Seq<char>, b: Seq<char>, s: Set<Seq<char>>)
    requires
        s.contains(a),
        forall|x: Seq<char>, y: Seq<char>| s.contains(x) && #[trigger] succ(g, x, y) ==> s.contains(y),
        reaches(g, a, b),
    ensures
        s.contains(b),
{
    let w = choose|w: Seq<Seq<char>>| #[trigger] is_walk(g, w) && w[0] == a && w.last() == b;
    assert forall|k: int| 0 <= k < w.len() implies s.contains(#[trigger] w[k]) by {
        lemma_walk_prefix_in(g, w, k, s);
    }
}

proof fn lemma_walk_prefix_in(g: NarrativeGraph, w: Seq<Seq<char>>, k: int, s: Set<Seq<char>>)
    requires
        is_walk(g, w),
        0 <= k < w.len(),
        s.contains(w[0]),
        forall|x: Seq<char>, y: Seq<char>| s.contains(x) && #[trigger] succ(g, x, y) ==> s.contains(y),
    ensures
        s.contains(w[k]),
    decreases k,
{
    if k > 0 {
        lemma_walk_prefix_in(g, w, k - 1, s);
        assert(succ(g, w[k - 1], w[k]));
    }
}

/// A walk extended by an edge is a walk.
pub proof fn lemma_walk_extend(g: NarrativeGraph, w: Seq<Seq<char>>, t: Seq<char>)
    requires
        is_walk(g, w),
        succ(g, w.last(), t),
    ensures
        is_walk(g, w.push(t)),
        w.push(t)[0] == w[0],
        w.push(t).last() == t,
{
    let v = w.push(t);
    assert forall|i: int| 0 <= i < v.len() - 1 implies succ(g, #[trigger] v[i], v[i + 1]) by {
        if i < w.len() - 1 {
            assert(v[i] == w[i]);
            assert(v[i + 1] == w[i + 1]);
        }
    }
}

/// Every id reaches itself.
pub proof fn lemma_reaches_self(g: NarrativeGraph, a: Seq<char>)
    ensures
        reaches(g, a, a),
{
    let w = seq![a];
    assert(is_walk(g, w));
}

/// Reachability extends along an edge.
pub proof fn lemma_reaches_step(g: NarrativeGraph, a: Seq<char>, b: Seq<char>, c: Seq<char>)
    requires
        reaches(g, a, b),
        succ(g, b, c),
    ensures
        reaches(g, a, c),
{
    let w = choose|w: Seq<Seq<char>>| #[trigger] is_walk(g, w) && w[0] == a && w.last() == b;
    lemma_walk_extend(g, w, c);
}

/// A duplicate-free sequence whose elements all occur in `u` is no longer
/// than `u`.
pub proof fn lemma_distinct_bounded(s: Seq<Seq<char>>, u: Seq<Seq<char>>)
    requires
        crate::collections::distinct(s),
        forall|i: int| 0 <= i < s.len() ==> u.contains(#[trigger] s[i]),
    ensures
        s.len() <= u.len(),
{
    assert(s.no_duplicates());
    s.unique_seq_to_set();
    u.lemma_cardinality_of_set();
    vstd::seq_lib::seq_to_set_is_finite(u);
    assert(s.to_set().subset_of(u.to_set()));
    vstd::set_lib::lemma_len_subset(s.to_set(), u.to_set());
}

} // verus!
