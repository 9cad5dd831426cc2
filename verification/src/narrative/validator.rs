//! Narrative graph validation: exactly one start node, at least one ending,
//! every edge target resolves, no orphans, every ending reachable.

use vstd::prelude::*;
use vstd::string::*;

use crate::collections::{StrSet, distinct, string_views};
use crate::text::{nat_decimal, u64_to_string};
use super::{
    NarrativeGraph, NarrativeNode, NarrativeEdge, all_targets, entry_nodes, first_start, reaches,
    succ, targets_of, lemma_distinct_bounded, lemma_succ_in_targets, lemma_reaches_self,
    lemma_reaches_step, lemma_closed_contains_reach, ending_nodes, lemma_first_start, lemma_all_targets,
};

verus! {

/// The ids reachable from `start` (including `start` itself).
pub open spec fn reach_set(g: NarrativeGraph, start: Seq<char>) -> Set<Seq<char>> {
    Set::new(|t: Seq<char>| reaches(g, start, t))
}

/// Breadth-first search: every id reachable from `start_id` by following
/// edges, including `start_id` itself.
pub fn reachable_from(graph: &NarrativeGraph, start_id: &str) -> (r: StrSet)
    ensures
        r.members() == reach_set(*graph, start_id@),
{
    let ghost g = *graph;
    let ghost st = start_id@;
    let ghost u = seq![st] + all_targets(g.nodes.seq());
    let mut visited = StrSet::new();
    let mut order: Vec<String> = Vec::new();
    visited.insert(crate::text::owned(start_id));
    order.push(crate::text::owned(start_id));
    proof {
        lemma_reaches_self(g, st);
        assert(string_views(order@) =~= seq![st]);
        assert forall|x: Seq<char>| #[trigger] visited.members().contains(x) <==> seq![st].to_set().contains(x) by {
            if x == st {
                assert(seq![st][0] == x);
            }
        }
        assert(visited.members() =~= string_views(order@).to_set());
        assert(u[0] == st);
    }
    let mut head: usize = 0;
    while head < order.len()
        invariant
            g == *graph,
            u == seq![st] + all_targets(g.nodes.seq()),
            head <= order@.len(),
            order@.len() <= u.len(),
            visited.members() == string_views(order@).to_set(),
            distinct(string_views(order@)),
            forall|i: int| 0 <= i < order@.len() ==> u.contains(#[trigger] string_views(order@)[i]),
            forall|i: int| 0 <= i < order@.len() ==> reaches(g, st, #[trigger] string_views(order@)[i]),
            forall|i: int, t: Seq<char>| 0 <= i < head && #[trigger] succ(g, string_views(order@)[i], t) ==> visited.members().contains(t),
            visited.members().contains(st),
        decreases u.len() - head,
    {
        let cur = order[head].clone();
        let ghost a = cur@;
        assert(a == string_views(order@)[head as int]);
        match graph.nodes.get(cur.as_str()) {
            Some(node) => {
                let mut j: usize = 0;
                while j < node.exits.len()
                    invariant
                        g == *graph,
                        u == seq![st] + all_targets(g.nodes.seq()),
                        head < order@.len(),
                        order@.len() <= u.len(),
                        a == string_views(order@)[head as int],
                        g.nodes.spec_get(a) == Some(*node),
                        j <= node.exits@.len(),
                        visited.members() == string_views(order@).to_set(),
                        distinct(string_views(order@)),
                        forall|i: int| 0 <= i < order@.len() ==> u.contains(#[trigger] string_views(order@)[i]),
                        forall|i: int| 0 <= i < order@.len() ==> reaches(g, st, #[trigger] string_views(order@)[i]),
                        forall|i: int, t: Seq<char>| 0 <= i < head && #[trigger] succ(g, string_views(order@)[i], t) ==> visited.members().contains(t),
                        forall|k: int| 0 <= k < j ==> visited.members().contains(#[trigger] targets_of(*node)[k]),
                        visited.members().contains(st),
                    decreases node.exits@.len() - j,
                {
                    let t = node.exits[j].target.clone();
                    let ghost tv = t@;
                    proof {
                        assert(targets_of(*node)[j as int] == tv);
                        assert(targets_of(*node).contains(tv));
                        assert(succ(g, a, tv));
                    }
                    if visited.insert(t) {
                        let ghost old_order = string_views(order@);
                        order.push(node.exits[j].target.clone());
                        proof {
                            let no = string_views(order@);
                            assert(no =~= old_order.push(tv));
                            lemma_succ_in_targets(g, a, tv);
                            assert(u.contains(tv)) by {
                                let k = choose|k: int| 0 <= k < all_targets(g.nodes.seq()).len() && all_targets(g.nodes.seq())[k] == tv;
                                assert(u[k + 1] == tv);
                            }
                            assert(!old_order.to_set().contains(tv));
                            assert forall|x: int, y: int| 0 <= x < y < no.len() implies #[trigger] no[x] != #[trigger] no[y] by {
                                if y == no.len() - 1 {
                                    assert(old_order.contains(no[x]));
                                }
                            }
                            assert forall|i: int| 0 <= i < no.len() implies u.contains(#[trigger] no[i]) by {
                                if i < old_order.len() {
                                    assert(no[i] == old_order[i]);
                                }
                            }
                            assert forall|i: int| 0 <= i < no.len() implies reaches(g, st, #[trigger] no[i]) by {
                                if i < old_order.len() {
                                    assert(no[i] == old_order[i]);
                                } else {
                                    lemma_reaches_step(g, st, a, tv);
                                }
                            }
                            crate::collections::lemma_insert_to_set(old_order, old_order.len() as int, tv);
                            assert(old_order.insert(old_order.len() as int, tv) =~= no);
                            lemma_distinct_bounded(no, u);
                            assert forall|i: int, t2: Seq<char>| 0 <= i < head && #[trigger] succ(g, no[i], t2) implies visited.members().contains(t2) by {
                                assert(no[i] == old_order[i]);
                            }
                        }
                    }
                    j = j + 1;
                }
                proof {
                    let so = string_views(order@);
                    assert forall|i: int, t: Seq<char>| 0 <= i < head + 1 && #[trigger] succ(g, so[i], t) implies visited.members().contains(t) by {
                        if i == head {
                            let k = choose|k: int| 0 <= k < targets_of(*node).len() && targets_of(*node)[k] == t;
                        }
                    }
                }
            },
            None => {
                proof {
                    let so = string_views(order@);
                    assert forall|i: int, t: Seq<char>| 0 <= i < head + 1 && #[trigger] succ(g, so[i], t) implies visited.members().contains(t) by {
                        if i == head {
                            assert(!succ(g, a, t));
                        }
                    }
                }
            },
        }
        head = head + 1;
    }
    proof {
        let so = string_views(order@);
        let s = visited.members();
        assert forall|x: Seq<char>, y: Seq<char>| s.contains(x) && #[trigger] succ(g, x, y) implies s.contains(y) by {
            let i = choose|i: int| 0 <= i < so.len() && so[i] == x;
        }
        assert forall|t: Seq<char>| #[trigger] s.contains(t) <==> reach_set(g, st).contains(t) by {
            if reaches(g, st, t) {
                lemma_closed_contains_reach(g, st, t, s);
            }
            if s.contains(t) {
                let i = choose|i: int| 0 <= i < so.len() && so[i] == t;
            }
        }
        assert(s =~= reach_set(g, st));
    }
    visited
}

/// The number of nodes of `s` flagged as start.
pub open spec fn count_starts(s: Seq<NarrativeNode>) -> nat
    decreases s.len(),
{
    if s.len() == 0 {
        0
    } else {
        count_starts(s.drop_last()) + if s.last().is_start {
            1nat
        } else {
            0nat
        }
    }
}

/// The start-node issue, for `c` start nodes.
pub open spec fn start_issues(c: nat) -> Seq<Seq<char>> {
    if c == 0 {
        seq!["no start node defined (set is_start: true on exactly one node)"@]
    } else if c > 1 {
        seq![nat_decimal(c) + " start nodes defined — exactly one required"@]
    } else {
        Seq::empty()
    }
}

/// The ending issue: reported when no node is an ending.
pub open spec fn ending_issues(ns: Seq<NarrativeNode>) -> Seq<Seq<char>> {
    if ending_nodes(ns).len() == 0 {
        seq!["no ending nodes defined (set is_ending: true on at least one node)"@]
    } else {
        Seq::empty()
    }
}

/// Issues for the exits of node `id` whose target is not a node.
pub open spec fn dangling_exits(g: NarrativeGraph, id: Seq<char>, exits: Seq<NarrativeEdge>) -> Seq<Seq<char>>
    decreases exits.len(),
{
    if exits.len() == 0 {
        Seq::empty()
    } else {
        dangling_exits(g, id, exits.drop_last()) + if g.nodes.spec_get(exits.last().target@) is None {
            seq!["node '"@ + id + "': edge target '"@ + exits.last().target@ + "' does not exist"@]
        } else {
            Seq::empty()
        }
    }
}

/// Issues for every dangling edge of the nodes of `s`, in order.
pub open spec fn dangling_issues(g: NarrativeGraph, s: Seq<NarrativeNode>) -> Seq<Seq<char>>
    decreases s.len(),
{
    if s.len() == 0 {
        Seq::empty()
    } else {
        dangling_issues(g, s.drop_last()) + dangling_exits(g, s.last().id@, s.last().exits@)
    }
}

/// Issues for the nodes of `s` that are neither the start nor the target
/// of any edge.
pub open spec fn orphan_issues(s: Seq<NarrativeNode>, referenced: Set<Seq<char>>) -> Seq<Seq<char>>
    decreases s.len(),
{
    if s.len() == 0 {
        Seq::empty()
    } else {
        orphan_issues(s.drop_last(), referenced) + if !s.last().is_start && !referenced.contains(
            s.last().id@,
        ) {
            seq![
                "node '"@ + s.last().id@
                    + "' is orphaned — no edges point to it and it is not the start"@
            ]
        } else {
            Seq::empty()
        }
    }
}

/// Issues for the endings of `es` that are not in `reach`.
pub open spec fn unreachable_issues(es: Seq<NarrativeNode>, reach: Set<Seq<char>>) -> Seq<Seq<char>>
    decreases es.len(),
{
    if es.len() == 0 {
        Seq::empty()
    } else {
        unreachable_issues(es.drop_last(), reach) + if !reach.contains(es.last().id@) {
            seq!["ending '"@ + es.last().id@ + "' is not reachable from start node"@]
        } else {
            Seq::empty()
        }
    }
}

/// Every issue `validate` reports for `g`, in the order it reports them.
pub open spec fn validation_issues(g: NarrativeGraph) -> Seq<Seq<char>> {
    let ns = entry_nodes(g.nodes.seq());
    start_issues(count_starts(ns)) + ending_issues(ns) + dangling_issues(g, ns) + orphan_issues(
        ns,
        all_targets(g.nodes.seq()).to_set(),
    ) + match first_start(ns) {
        Some(i) => unreachable_issues(ending_nodes(ns), reach_set(g, ns[i].id@)),
        None => Seq::empty(),
    }
}

/// Validate the narrative graph and return a list of issues (empty when
/// the graph is well formed).
pub fn validate(graph: &NarrativeGraph) -> (r: Vec<String>)
    ensures
        string_views(r@) == validation_issues(*graph),
{
    let ghost g = *graph;
    let ghost ns = entry_nodes(g.nodes.seq());
    let mut issues: Vec<String> = Vec::new();

    let mut start_count: usize = 0;
    let mut i: usize = 0;
    while i < graph.nodes.len()
        invariant
            g == *graph,
            ns == entry_nodes(g.nodes.seq()),
            i <= ns.len(),
            start_count == count_starts(ns.subrange(0, i as int)),
            start_count <= i,
        decreases ns.len() - i,
    {
        proof {
            assert(ns.subrange(0, i + 1).drop_last() =~= ns.subrange(0, i as int));
        }
        if graph.nodes.value_at(i).is_start {
            start_count = start_count + 1;
        }
        i = i + 1;
    }
    proof {
        assert(ns.subrange(0, ns.len() as int) =~= ns);
    }
    if start_count == 0 {
        issues.push(crate::text::owned("no start node defined (set is_start: true on exactly one node)"));
    } else if start_count > 1 {
        let c = u64_to_string(start_count as u64);
        issues.push(crate::text::concat2(c.as_str(), " start nodes defined — exactly one required"));
    }
    proof {
        assert(string_views(issues@) =~= start_issues(count_starts(ns)));
    }
    let ghost acc1 = string_views(issues@);

    let endings = graph.endings();
    if endings.len() == 0 {
        issues.push(crate::text::owned("no ending nodes defined (set is_ending: true on at least one node)"));
    }
    proof {
        assert(string_views(issues@) =~= acc1 + ending_issues(ns));
    }
    let ghost acc2 = string_views(issues@);

    let mut i: usize = 0;
    while i < graph.nodes.len()
        invariant
            g == *graph,
            ns == entry_nodes(g.nodes.seq()),
            i <= ns.len(),
            string_views(issues@) == acc2 + dangling_issues(g, ns.subrange(0, i as int)),
        decreases ns.len() - i,
    {
        let node = graph.nodes.value_at(i);
        let ghost before = string_views(issues@);
        let mut j: usize = 0;
        while j < node.exits.len()
            invariant
                g == *graph,
                *node == ns[i as int],
                i < ns.len(),
                j <= node.exits@.len(),
                string_views(issues@) == before + dangling_exits(g, node.id@, node.exits@.subrange(0, j as int)),
            decreases node.exits@.len() - j,
        {
            let e = &node.exits[j];
            let ghost sub = node.exits@.subrange(0, j + 1);
            let ghost prev = string_views(issues@);
            proof {
                assert(sub.drop_last() =~= node.exits@.subrange(0, j as int));
                assert(sub.last() == *e);
                assert(dangling_exits(g, node.id@, sub) == dangling_exits(g, node.id@, sub.drop_last()) + if g.nodes.spec_get(e.target@) is None {
                    seq!["node '"@ + node.id@ + "': edge target '"@ + e.target@ + "' does not exist"@]
                } else {
                    Seq::<Seq<char>>::empty()
                });
            }
            if !graph.nodes.contains_key(e.target.as_str()) {
                let mut msg = crate::text::concat3("node '", node.id.as_str(), "': edge target '");
                msg.append(e.target.as_str());
                msg.append("' does not exist");
                issues.push(msg);
                proof {
                    assert(string_views(issues@) =~= prev.push(msg@));
                }
            }
            proof {
                assert(string_views(issues@) =~= before + dangling_exits(g, node.id@, node.exits@.subrange(0, j + 1)));
            }
            j = j + 1;
        }
        proof {
            assert(node.exits@.subrange(0, node.exits@.len() as int) =~= node.exits@);
            assert(ns.subrange(0, i + 1).drop_last() =~= ns.subrange(0, i as int));
            assert(string_views(issues@) =~= acc2 + dangling_issues(g, ns.subrange(0, i + 1)));
        }
        i = i + 1;
    }
    proof {
        assert(ns.subrange(0, ns.len() as int) =~= ns);
    }
    let ghost acc3 = string_views(issues@);

    let referenced = referenced_targets(graph);
    let mut i: usize = 0;
    while i < graph.nodes.len()
        invariant
            g == *graph,
            ns == entry_nodes(g.nodes.seq()),
            i <= ns.len(),
            referenced.members() == all_targets(g.nodes.seq()).to_set(),
            string_views(issues@) == acc3 + orphan_issues(ns.subrange(0, i as int), all_targets(g.nodes.seq()).to_set()),
        decreases ns.len() - i,
    {
        let node = graph.nodes.value_at(i);
        let ghost prev = string_views(issues@);
        let ghost sub = ns.subrange(0, i + 1);
        proof {
            assert(sub.drop_last() =~= ns.subrange(0, i as int));
            assert(sub.last() == *node);
        }
        if !node.is_start && !referenced.contains(node.id.as_str()) {
            let msg = crate::text::concat3("node '", node.id.as_str(), "' is orphaned — no edges point to it and it is not the start");
            issues.push(msg);
            proof {
                assert(string_views(issues@) =~= prev.push(msg@));
            }
        }
        proof {
            assert(string_views(issues@) =~= acc3 + orphan_issues(ns.subrange(0, i + 1), all_targets(g.nodes.seq()).to_set()));
        }
        i = i + 1;
    }
    proof {
        assert(ns.subrange(0, ns.len() as int) =~= ns);
    }
    let ghost acc4 = string_views(issues@);

    match graph.start_node() {
        Some(start) => {
            let reach = reachable_from(graph, start.id.as_str());
            let ghost es = ending_nodes(ns);
            let mut k: usize = 0;
            while k < endings.len()
                invariant
                    g == *graph,
                    es == crate::narrative::deref_nodes(endings@),
                    k <= es.len(),
                    reach.members() == reach_set(g, start.id@),
                    string_views(issues@) == acc4 + unreachable_issues(es.subrange(0, k as int), reach_set(g, start.id@)),
                decreases es.len() - k,
            {
                let ending = endings[k];
                let ghost prev = string_views(issues@);
                let ghost sub = es.subrange(0, k + 1);
                proof {
                    assert(sub.drop_last() =~= es.subrange(0, k as int));
                    assert(es[k as int] == *ending);
                    assert(sub.last() == *ending);
                }
                if !reach.contains(ending.id.as_str()) {
                    let msg = crate::text::concat3("ending '", ending.id.as_str(), "' is not reachable from start node");
                    issues.push(msg);
                    proof {
                        assert(string_views(issues@) =~= prev.push(msg@));
                    }
                }
                proof {
                    assert(string_views(issues@) =~= acc4 + unreachable_issues(es.subrange(0, k + 1), reach_set(g, start.id@)));
                }
                k = k + 1;
            }
            proof {
                assert(es.subrange(0, es.len() as int) =~= es);
                lemma_first_start(ns);
            }
        },
        None => {
            proof {
                assert(string_views(issues@) =~= acc4 + Seq::<Seq<char>>::empty());
            }
        },
    }
    issues
}

/// The set of every edge target in the graph.
fn referenced_targets(graph: &NarrativeGraph) -> (r: StrSet)
    ensures
        r.members() == all_targets(graph.nodes.seq()).to_set(),
{
    let ghost es = graph.nodes.seq();
    let mut set = StrSet::new();
    let mut i: usize = 0;
    while i < graph.nodes.len()
        invariant
            es == graph.nodes.seq(),
            i <= es.len(),
            set.members() == all_targets(es.subrange(0, i as int)).to_set(),
        decreases es.len() - i,
    {
        let node = graph.nodes.value_at(i);
        let ghost before = all_targets(es.subrange(0, i as int));
        let mut j: usize = 0;
        while j < node.exits.len()
            invariant
                es == graph.nodes.seq(),
                i < es.len(),
                *node == es[i as int].1,
                j <= node.exits@.len(),
                set.members() == (before + targets_of(*node).subrange(0, j as int)).to_set(),
            decreases node.exits@.len() - j,
        {
            let ghost pre = before + targets_of(*node).subrange(0, j as int);
            set.insert(node.exits[j].target.clone());
            proof {
                crate::collections::lemma_insert_to_set(pre, pre.len() as int, node.exits@[j as int].target@);
                assert(pre.insert(pre.len() as int, node.exits@[j as int].target@) =~= before + targets_of(*node).subrange(0, j + 1));
            }
            j = j + 1;
        }
        proof {
            assert(targets_of(*node).subrange(0, node.exits@.len() as int) =~= targets_of(*node));
            assert(es.subrange(0, i + 1).drop_last() =~= es.subrange(0, i as int));
        }
        i = i + 1;
    }
    proof {
        assert(es.subrange(0, es.len() as int) =~= es);
    }
    set
}

/// With no node flagged start, `count_starts` is zero.
proof fn lemma_count_starts_none(s: Seq<NarrativeNode>)
    requires
        forall|j: int| 0 <= j < s.len() ==> !(#[trigger] s[j]).is_start,
    ensures
        count_starts(s) == 0,
    decreases s.len(),
{
    if s.len() > 0 {
        let d = s.drop_last();
        assert forall|j: int| 0 <= j < d.len() implies !(#[trigger] d[j]).is_start by {
            assert(d[j] == s[j]);
        }
        lemma_count_starts_none(d);
    }
}

/// With the node `i` flagged start, `count_starts` is at least one; with
/// `i` the only one, exactly one.
proof fn lemma_count_starts_one(s: Seq<NarrativeNode>, i: int)
    requires
        0 <= i < s.len(),
        s[i].is_start,
    ensures
        count_starts(s) >= 1,
        (forall|j: int| 0 <= j < s.len() && j != i ==> !(#[trigger] s[j]).is_start) ==> count_starts(s) == 1,
    decreases s.len(),
{
    let d = s.drop_last();
    let n = s.len() - 1;
    if i < n {
        assert(d[i] == s[i]);
        lemma_count_starts_one(d, i);
        if forall|j: int| 0 <= j < s.len() && j != i ==> !(#[trigger] s[j]).is_start {
            assert forall|j: int| 0 <= j < d.len() && j != i implies !(#[trigger] d[j]).is_start by {
                assert(d[j] == s[j]);
            }
            assert(!s[n].is_start);
        }
    } else {
        if forall|j: int| 0 <= j < s.len() && j != i ==> !(#[trigger] s[j]).is_start {
            assert forall|j: int| 0 <= j < d.len() implies !(#[trigger] d[j]).is_start by {
                assert(d[j] == s[j]);
            }
            lemma_count_starts_none(d);
        }
    }
}

/// With two nodes flagged start, `count_starts` is at least two.
proof fn lemma_count_starts_two(s: Seq<NarrativeNode>, i: int, j: int)
    requires
        0 <= i < j < s.len(),
        s[i].is_start,
        s[j].is_start,
    ensures
        count_starts(s) >= 2,
    decreases s.len(),
{
    let d = s.drop_last();
    let n = s.len() - 1;
    assert(d[i] == s[i]);
    if j < n {
        assert(d[j] == s[j]);
        lemma_count_starts_two(d, i, j);
    } else {
        lemma_count_starts_one(d, i);
    }
}

/// The ending nodes are exactly the nodes flagged as endings.
proof fn lemma_ending_nodes(s: Seq<NarrativeNode>)
    ensures
        forall|i: int| 0 <= i < s.len() && (#[trigger] s[i]).is_ending ==> ending_nodes(s).contains(s[i]),
        forall|x: NarrativeNode| #[trigger] ending_nodes(s).contains(x) ==> x.is_ending && s.contains(x),
        (forall|i: int| 0 <= i < s.len() ==> !(#[trigger] s[i]).is_ending) ==> ending_nodes(s).len() == 0,
    decreases s.len(),
{
    if s.len() > 0 {
        let d = s.drop_last();
        let n = s.len() - 1;
        lemma_ending_nodes(d);
        let e = ending_nodes(s);
        let ed = ending_nodes(d);
        assert forall|i: int| 0 <= i < s.len() && (#[trigger] s[i]).is_ending implies e.contains(s[i]) by {
            if i < n {
                assert(d[i] == s[i]);
                let w = choose|w: int| 0 <= w < ed.len() && ed[w] == s[i];
                assert(e[w] == s[i]);
            } else {
                assert(e[ed.len() as int] == s[i]);
            }
        }
        assert forall|x: NarrativeNode| #[trigger] e.contains(x) implies x.is_ending && s.contains(x) by {
            let w = choose|w: int| 0 <= w < e.len() && e[w] == x;
            if w < ed.len() {
                assert(ed[w] == x);
                assert(ed.contains(x));
                let v = choose|v: int| 0 <= v < d.len() && d[v] == x;
                assert(s[v] == x);
            } else {
                assert(s[n] == x);
            }
        }
        if forall|i: int| 0 <= i < s.len() ==> !(#[trigger] s[i]).is_ending {
            assert forall|i: int| 0 <= i < d.len() implies !(#[trigger] d[i]).is_ending by {
                assert(d[i] == s[i]);
            }
        }
    }
}

/// The issue reported for the edge of node `id` to the missing `target`.
pub open spec fn dangling_message(id: Seq<char>, target: Seq<char>) -> Seq<char> {
    "node '"@ + id + "': edge target '"@ + target + "' does not exist"@
}

/// The issue reported for the ending `id` that the start cannot reach.
pub open spec fn unreachable_message(id: Seq<char>) -> Seq<char> {
    "ending '"@ + id + "' is not reachable from start node"@
}

/// An exit whose target is not a node is reported among the dangling
/// issues of its node; with no such exit there are none.
proof fn lemma_dangling_exits(g: NarrativeGraph, id: Seq<char>, es: Seq<NarrativeEdge>)
    ensures
        forall|k: int| 0 <= k < es.len() && g.nodes.spec_get((#[trigger] es[k]).target@) is None
            ==> dangling_exits(g, id, es).contains(dangling_message(id, es[k].target@)),
        (forall|k: int| 0 <= k < es.len() ==> g.nodes.spec_get((#[trigger] es[k]).target@) is Some) ==> dangling_exits(g, id, es).len() == 0,
    decreases es.len(),
{
    if es.len() > 0 {
        let d = es.drop_last();
        let n = es.len() - 1;
        lemma_dangling_exits(g, id, d);
        let r = dangling_exits(g, id, es);
        let rd = dangling_exits(g, id, d);
        assert forall|k: int| 0 <= k < es.len() && g.nodes.spec_get((#[trigger] es[k]).target@) is None
            implies r.contains(dangling_message(id, es[k].target@)) by {
            if k < n {
                assert(d[k] == es[k]);
                let w = choose|w: int| 0 <= w < rd.len() && rd[w] == dangling_message(id, es[k].target@);
                assert(r[w] == rd[w]);
            } else {
                assert(r[rd.len() as int] == dangling_message(id, es[k].target@));
            }
        }
        if forall|k: int| 0 <= k < es.len() ==> g.nodes.spec_get((#[trigger] es[k]).target@) is Some {
            assert forall|k: int| 0 <= k < d.len() implies g.nodes.spec_get((#[trigger] d[k]).target@) is Some by {
                assert(d[k] == es[k]);
            }
        }
    }
}

/// Every dangling exit of every node of `s` is reported; with none there
/// are no dangling issues.
proof fn lemma_dangling_issues(g: NarrativeGraph, s: Seq<NarrativeNode>)
    ensures
        forall|i: int, k: int| 0 <= i < s.len() && 0 <= k < s[i].exits@.len() && g.nodes.spec_get((#[trigger] s[i].exits@[k]).target@) is None
            ==> dangling_issues(g, s).contains(dangling_message(s[i].id@, s[i].exits@[k].target@)),
        (forall|i: int, k: int| 0 <= i < s.len() && 0 <= k < s[i].exits@.len() ==> g.nodes.spec_get((#[trigger] s[i].exits@[k]).target@) is Some)
            ==> dangling_issues(g, s).len() == 0,
    decreases s.len(),
{
    if s.len() > 0 {
        let d = s.drop_last();
        let n = s.len() - 1;
        lemma_dangling_issues(g, d);
        lemma_dangling_exits(g, s[n].id@, s[n].exits@);
        let r = dangling_issues(g, s);
        let rd = dangling_issues(g, d);
        let last = dangling_exits(g, s[n].id@, s[n].exits@);
        assert(r == rd + last);
        assert forall|i: int, k: int| 0 <= i < s.len() && 0 <= k < s[i].exits@.len() && g.nodes.spec_get((#[trigger] s[i].exits@[k]).target@) is None
            implies r.contains(dangling_message(s[i].id@, s[i].exits@[k].target@)) by {
            let msg = dangling_message(s[i].id@, s[i].exits@[k].target@);
            if i < n {
                assert(d[i] == s[i]);
                assert(d[i].exits@[k] == s[i].exits@[k]);
                let w = choose|w: int| 0 <= w < rd.len() && rd[w] == msg;
                assert(r[w] == msg);
            } else {
                assert(last.contains(msg));
                let w = choose|w: int| 0 <= w < last.len() && last[w] == msg;
                assert(r[rd.len() + w] == msg);
            }
        }
        if forall|i: int, k: int| 0 <= i < s.len() && 0 <= k < s[i].exits@.len() ==> g.nodes.spec_get((#[trigger] s[i].exits@[k]).target@) is Some {
            assert forall|i: int, k: int| 0 <= i < d.len() && 0 <= k < d[i].exits@.len() implies g.nodes.spec_get((#[trigger] d[i].exits@[k]).target@) is Some by {
                assert(d[i] == s[i]);
                assert(s[i].exits@[k] == d[i].exits@[k]);
            }
            assert forall|k: int| 0 <= k < s[n].exits@.len() implies g.nodes.spec_get((#[trigger] s[n].exits@[k]).target@) is Some by {
                assert(g.nodes.spec_get(s[n].exits@[k].target@) is Some);
            }
        }
    }
}

/// With every node but the start referenced, there are no orphan issues.
proof fn lemma_no_orphans(s: Seq<NarrativeNode>, referenced: Set<Seq<char>>)
    requires
        forall|i: int| 0 <= i < s.len() && !(#[trigger] s[i]).is_start ==> referenced.contains(s[i].id@),
    ensures
        orphan_issues(s, referenced).len() == 0,
    decreases s.len(),
{
    if s.len() > 0 {
        let d = s.drop_last();
        assert forall|i: int| 0 <= i < d.len() && !(#[trigger] d[i]).is_start implies referenced.contains(d[i].id@) by {
            assert(d[i] == s[i]);
        }
        lemma_no_orphans(d, referenced);
        assert(s[s.len() - 1] == s.last());
    }
}

/// An ending of `es` outside `reach` is reported; with every ending inside
/// there are no unreachable issues.
proof fn lemma_unreachable_issues(es: Seq<NarrativeNode>, reach: Set<Seq<char>>)
    ensures
        forall|i: int| 0 <= i < es.len() && !reach.contains((#[trigger] es[i]).id@)
            ==> unreachable_issues(es, reach).contains(unreachable_message(es[i].id@)),
        (forall|i: int| 0 <= i < es.len() ==> reach.contains((#[trigger] es[i]).id@)) ==> unreachable_issues(es, reach).len() == 0,
    decreases es.len(),
{
    if es.len() > 0 {
        let d = es.drop_last();
        let n = es.len() - 1;
        lemma_unreachable_issues(d, reach);
        let r = unreachable_issues(es, reach);
        let rd = unreachable_issues(d, reach);
        assert forall|i: int| 0 <= i < es.len() && !reach.contains((#[trigger] es[i]).id@)
            implies r.contains(unreachable_message(es[i].id@)) by {
            if i < n {
                assert(d[i] == es[i]);
                let w = choose|w: int| 0 <= w < rd.len() && rd[w] == unreachable_message(es[i].id@);
                assert(r[w] == rd[w]);
            } else {
                assert(r[rd.len() as int] == unreachable_message(es[i].id@));
            }
        }
        if forall|i: int| 0 <= i < es.len() ==> reach.contains((#[trigger] es[i]).id@) {
            assert forall|i: int| 0 <= i < d.len() implies reach.contains((#[trigger] d[i]).id@) by {
                assert(d[i] == es[i]);
            }
            assert(reach.contains(es[n].id@));
        }
    }
}

/// The issues of a graph, taken apart in the order they are reported.
proof fn lemma_issue_parts(g: NarrativeGraph)
    ensures
        ({
            let ns = entry_nodes(g.nodes.seq());
            let a = start_issues(count_starts(ns));
            let b = ending_issues(ns);
            let c = dangling_issues(g, ns);
            let o = orphan_issues(ns, all_targets(g.nodes.seq()).to_set());
            let u = match first_start(ns) {
                Some(f) => unreachable_issues(ending_nodes(ns), reach_set(g, ns[f].id@)),
                None => Seq::empty(),
            };
            &&& validation_issues(g) == a + b + c + o + u
            &&& forall|x: Seq<char>| #[trigger] validation_issues(g).contains(x)
                <== a.contains(x) || b.contains(x) || c.contains(x) || o.contains(x) || u.contains(x)
        }),
{
    let ns = entry_nodes(g.nodes.seq());
    let a = start_issues(count_starts(ns));
    let b = ending_issues(ns);
    let c = dangling_issues(g, ns);
    let o = orphan_issues(ns, all_targets(g.nodes.seq()).to_set());
    let u = match first_start(ns) {
        Some(f) => unreachable_issues(ending_nodes(ns), reach_set(g, ns[f].id@)),
        None => Seq::empty(),
    };
    let v = a + b + c + o + u;
    assert(validation_issues(g) == v);
    assert forall|x: Seq<char>| a.contains(x) || b.contains(x) || c.contains(x) || o.contains(x) || u.contains(x)
        implies #[trigger] v.contains(x) by {
        if a.contains(x) {
            let w = choose|w: int| 0 <= w < a.len() && a[w] == x;
            assert(v[w] == x);
        } else if b.contains(x) {
            let w = choose|w: int| 0 <= w < b.len() && b[w] == x;
            assert(v[a.len() + w] == x);
        } else if c.contains(x) {
            let w = choose|w: int| 0 <= w < c.len() && c[w] == x;
            assert(v[a.len() + b.len() + w] == x);
        } else if o.contains(x) {
            let w = choose|w: int| 0 <= w < o.len() && o[w] == x;
            assert(v[a.len() + b.len() + c.len() + w] == x);
        } else {
            let w = choose|w: int| 0 <= w < u.len() && u[w] == x;
            assert(v[a.len() + b.len() + c.len() + o.len() + w] == x);
        }
    }
}

/// Every target in `all_targets(s)` is the target of some exit of some
/// entry of `s`.
proof fn lemma_target_has_edge(s: Seq<(String, NarrativeNode)>, t: Seq<char>)
    requires
        all_targets(s).contains(t),
    ensures
        exists|j: int, k: int| 0 <= j < s.len() && 0 <= k < s[j].1.exits@.len() && (#[trigger] s[j].1.exits@[k]).target@ == t,
    decreases s.len(),
{
    let d = s.drop_last();
    let w = choose|w: int| 0 <= w < all_targets(s).len() && all_targets(s)[w] == t;
    if w < all_targets(d).len() {
        assert(all_targets(d)[w] == t);
        lemma_target_has_edge(d, t);
        let (j, k) = choose|j: int, k: int| 0 <= j < d.len() && 0 <= k < d[j].1.exits@.len() && (#[trigger] d[j].1.exits@[k]).target@ == t;
        assert(s[j] == d[j]);
    } else {
        let k = w - all_targets(d).len();
        let j = s.len() - 1;
        assert(targets_of(s[j].1)[k] == t);
        assert(s[j].1.exits@[k].target@ == t);
    }
}

/// The issue reported for the orphan node `id`.
pub open spec fn orphan_message(id: Seq<char>) -> Seq<char> {
    "node '"@ + id + "' is orphaned — no edges point to it and it is not the start"@
}

/// A node of `s` that is neither the start nor referenced has its issue
/// among `orphan_issues(s, referenced)`.
proof fn lemma_orphan_listed(s: Seq<NarrativeNode>, referenced: Set<Seq<char>>, i: int)
    requires
        0 <= i < s.len(),
        !s[i].is_start,
        !referenced.contains(s[i].id@),
    ensures
        orphan_issues(s, referenced).contains(orphan_message(s[i].id@)),
    decreases s.len(),
{
    let d = s.drop_last();
    let pre = orphan_issues(d, referenced);
    if i == s.len() - 1 {
        assert(orphan_issues(s, referenced)[pre.len() as int] == orphan_message(s[i].id@));
    } else {
        assert(d[i] == s[i]);
        lemma_orphan_listed(d, referenced, i);
        let w = choose|w: int| 0 <= w < pre.len() && pre[w] == orphan_message(s[i].id@);
        assert(orphan_issues(s, referenced)[w] == orphan_message(s[i].id@));
    }
}

/// No orphans: a node that is not the start and that no exit of any node
/// leads to is reported, by name, among the issues of the graph (so the
/// graph never validates clean while it has an orphan).
pub proof fn law_orphans_are_reported(g: NarrativeGraph, i: int)
    requires
        0 <= i < g.nodes.seq().len(),
        !g.nodes.seq()[i].1.is_start,
        forall|j: int, k: int|
            0 <= j < g.nodes.seq().len() && 0 <= k < g.nodes.seq()[j].1.exits@.len()
                ==> (#[trigger] g.nodes.seq()[j].1.exits@[k]).target@ != g.nodes.seq()[i].1.id@,
    ensures
        validation_issues(g).contains(orphan_message(g.nodes.seq()[i].1.id@)),
        validation_issues(g).len() > 0,
{
    let s = g.nodes.seq();
    let ns = entry_nodes(s);
    let id = s[i].1.id@;
    let refs = all_targets(s).to_set();
    if refs.contains(id) {
        assert(all_targets(s).contains(id));
        lemma_target_has_edge(s, id);
    }
    assert(ns[i] == s[i].1);
    lemma_orphan_listed(ns, refs, i);
    let a = start_issues(count_starts(ns)) + ending_issues(ns) + dangling_issues(g, ns);
    let o = orphan_issues(ns, refs);
    let rest = match first_start(ns) {
        Some(f) => unreachable_issues(ending_nodes(ns), reach_set(g, ns[f].id@)),
        None => Seq::empty(),
    };
    assert(validation_issues(g) == a + o + rest);
    let w = choose|w: int| 0 <= w < o.len() && o[w] == orphan_message(id);
    assert((a + o + rest)[a.len() + w] == orphan_message(id));
}

/// Exactly one start: a graph with no start node, or with two, is reported.
pub proof fn law_start_problems_reported(g: NarrativeGraph)
    ensures
        (forall|i: int| 0 <= i < g.nodes.seq().len() ==> !(#[trigger] g.nodes.seq()[i]).1.is_start)
            ==> validation_issues(g).contains("no start node defined (set is_start: true on exactly one node)"@),
        (exists|i: int, j: int| 0 <= i < j < g.nodes.seq().len() && (#[trigger] g.nodes.seq()[i]).1.is_start && (#[trigger] g.nodes.seq()[j]).1.is_start)
            ==> exists|c: nat| c >= 2 && validation_issues(g).contains(#[trigger] nat_decimal(c) + " start nodes defined — exactly one required"@),
{
    let s = g.nodes.seq();
    let ns = entry_nodes(s);
    lemma_issue_parts(g);
    let a = start_issues(count_starts(ns));
    if forall|i: int| 0 <= i < s.len() ==> !(#[trigger] s[i]).1.is_start {
        assert forall|i: int| 0 <= i < ns.len() implies !(#[trigger] ns[i]).is_start by {
            assert(ns[i] == s[i].1);
        }
        lemma_count_starts_none(ns);
        assert(a[0] == "no start node defined (set is_start: true on exactly one node)"@);
        assert(validation_issues(g).contains(a[0]));
    }
    if exists|i: int, j: int| 0 <= i < j < s.len() && (#[trigger] s[i]).1.is_start && (#[trigger] s[j]).1.is_start {
        let (i, j) = choose|i: int, j: int| 0 <= i < j < s.len() && (#[trigger] s[i]).1.is_start && (#[trigger] s[j]).1.is_start;
        assert(ns[i] == s[i].1 && ns[j] == s[j].1);
        lemma_count_starts_two(ns, i, j);
        let c = count_starts(ns);
        assert(a[0] == nat_decimal(c) + " start nodes defined — exactly one required"@);
        assert(validation_issues(g).contains(a[0]));
    }
}

/// At least one ending: a graph with no ending node is reported.
pub proof fn law_missing_endings_reported(g: NarrativeGraph)
    requires
        forall|i: int| 0 <= i < g.nodes.seq().len() ==> !(#[trigger] g.nodes.seq()[i]).1.is_ending,
    ensures
        validation_issues(g).contains("no ending nodes defined (set is_ending: true on at least one node)"@),
{
    let s = g.nodes.seq();
    let ns = entry_nodes(s);
    lemma_issue_parts(g);
    assert forall|i: int| 0 <= i < ns.len() implies !(#[trigger] ns[i]).is_ending by {
        assert(ns[i] == s[i].1);
    }
    lemma_ending_nodes(ns);
    let b = ending_issues(ns);
    assert(b[0] == "no ending nodes defined (set is_ending: true on at least one node)"@);
    assert(validation_issues(g).contains(b[0]));
}

/// No dangling edges: an exit whose target is no node of the graph is
/// reported, naming its node and its target.
pub proof fn law_dangling_edges_reported(g: NarrativeGraph, i: int, k: int)
    requires
        0 <= i < g.nodes.seq().len(),
        0 <= k < g.nodes.seq()[i].1.exits@.len(),
        g.nodes.spec_get(g.nodes.seq()[i].1.exits@[k].target@) is None,
    ensures
        validation_issues(g).contains(dangling_message(g.nodes.seq()[i].1.id@, g.nodes.seq()[i].1.exits@[k].target@)),
{
    let s = g.nodes.seq();
    let ns = entry_nodes(s);
    lemma_issue_parts(g);
    assert(ns[i] == s[i].1);
    lemma_dangling_issues(g, ns);
    assert(ns[i].exits@[k] == s[i].1.exits@[k]);
    assert(dangling_issues(g, ns).contains(dangling_message(ns[i].id@, ns[i].exits@[k].target@)));
}

/// Every ending reachable: an ending that the only start node cannot reach
/// by following exits is reported by name.
pub proof fn law_unreachable_endings_reported(g: NarrativeGraph, f: int, i: int)
    requires
        0 <= f < g.nodes.seq().len(),
        g.nodes.seq()[f].1.is_start,
        forall|j: int| 0 <= j < g.nodes.seq().len() && j != f ==> !(#[trigger] g.nodes.seq()[j]).1.is_start,
        0 <= i < g.nodes.seq().len(),
        g.nodes.seq()[i].1.is_ending,
        !reaches(g, g.nodes.seq()[f].1.id@, g.nodes.seq()[i].1.id@),
    ensures
        validation_issues(g).contains(unreachable_message(g.nodes.seq()[i].1.id@)),
{
    let s = g.nodes.seq();
    let ns = entry_nodes(s);
    lemma_issue_parts(g);
    assert(ns[i] == s[i].1 && ns[f] == s[f].1);
    lemma_first_start(ns);
    let f2 = first_start(ns)->0;
    if f2 != f {
        assert(ns[f2] == s[f2].1);
    }
    lemma_ending_nodes(ns);
    let es = ending_nodes(ns);
    assert(es.contains(ns[i]));
    let w = choose|w: int| 0 <= w < es.len() && es[w] == ns[i];
    let reach = reach_set(g, ns[f].id@);
    assert(!reach.contains(es[w].id@));
    lemma_unreachable_issues(es, reach);
    assert(unreachable_issues(es, reach).contains(unreachable_message(es[w].id@)));
}

/// A well-formed graph validates clean: exactly one start, some ending,
/// every exit leading to a node, every other node the target of some exit,
/// and every ending reachable from the start give no issue at all.
#[verifier::rlimit(60)]
pub proof fn law_clean_graph_validates(g: NarrativeGraph, f: int)
    requires
        0 <= f < g.nodes.seq().len(),
        g.nodes.seq()[f].1.is_start,
        forall|j: int| 0 <= j < g.nodes.seq().len() && j != f ==> !(#[trigger] g.nodes.seq()[j]).1.is_start,
        exists|e: int| 0 <= e < g.nodes.seq().len() && (#[trigger] g.nodes.seq()[e]).1.is_ending,
        forall|i: int, k: int| 0 <= i < g.nodes.seq().len() && 0 <= k < g.nodes.seq()[i].1.exits@.len()
            ==> g.nodes.spec_get((#[trigger] g.nodes.seq()[i].1.exits@[k]).target@) is Some,
        forall|i: int| 0 <= i < g.nodes.seq().len() && i != f ==> exists|j: int, k: int|
            0 <= j < g.nodes.seq().len() && 0 <= k < g.nodes.seq()[j].1.exits@.len()
                && (#[trigger] g.nodes.seq()[j].1.exits@[k]).target@ == (#[trigger] g.nodes.seq()[i]).1.id@,
        forall|i: int| 0 <= i < g.nodes.seq().len() && (#[trigger] g.nodes.seq()[i]).1.is_ending
            ==> reaches(g, g.nodes.seq()[f].1.id@, g.nodes.seq()[i].1.id@),
    ensures
        validation_issues(g).len() == 0,
{
    let s = g.nodes.seq();
    let ns = entry_nodes(s);
    assert(start_issues(count_starts(ns)).len() == 0) by {
        assert forall|j: int| 0 <= j < ns.len() && j != f implies !(#[trigger] ns[j]).is_start by {
            assert(ns[j] == s[j].1);
        }
        assert(ns[f] == s[f].1);
        lemma_count_starts_one(ns, f);
    }
    assert(ending_issues(ns).len() == 0) by {
        let e = choose|e: int| 0 <= e < s.len() && (#[trigger] s[e]).1.is_ending;
        lemma_ending_nodes(ns);
        assert(ns[e] == s[e].1);
        assert(ending_nodes(ns).contains(ns[e]));
    }
    assert(dangling_issues(g, ns).len() == 0) by {
        assert forall|i: int, k: int| 0 <= i < ns.len() && 0 <= k < ns[i].exits@.len()
            implies g.nodes.spec_get((#[trigger] ns[i].exits@[k]).target@) is Some by {
            assert(ns[i] == s[i].1);
            assert(ns[i].exits@[k] == s[i].1.exits@[k]);
        }
        lemma_dangling_issues(g, ns);
    }
    let refs = all_targets(s).to_set();
    assert(orphan_issues(ns, refs).len() == 0) by {
        assert forall|i: int| 0 <= i < ns.len() && !(#[trigger] ns[i]).is_start implies refs.contains(ns[i].id@) by {
            assert(ns[i] == s[i].1);
            assert(i != f);
            let (j, k) = choose|j: int, k: int| 0 <= j < s.len() && 0 <= k < s[j].1.exits@.len()
                && (#[trigger] s[j].1.exits@[k]).target@ == (#[trigger] s[i]).1.id@;
            assert(targets_of(s[j].1)[k] == ns[i].id@);
            lemma_all_targets(s, j, ns[i].id@);
        }
        lemma_no_orphans(ns, refs);
    }
    let u = match first_start(ns) {
        Some(f2) => unreachable_issues(ending_nodes(ns), reach_set(g, ns[f2].id@)),
        None => Seq::empty(),
    };
    assert(u.len() == 0) by {
        lemma_first_start(ns);
        assert(ns[f] == s[f].1);
        let f2 = first_start(ns)->0;
        if f2 != f {
            assert(ns[f2] == s[f2].1);
        }
        assert(f2 == f);
        lemma_ending_nodes(ns);
        let es = ending_nodes(ns);
        let reach = reach_set(g, ns[f].id@);
        assert forall|i: int| 0 <= i < es.len() implies reach.contains((#[trigger] es[i]).id@) by {
            assert(es.contains(es[i]));
            let v = choose|v: int| 0 <= v < ns.len() && ns[v] == es[i];
            assert(ns[v] == s[v].1);
            assert(s[v].1.is_ending);
        }
        lemma_unreachable_issues(es, reach);
    }
    lemma_issue_parts(g);
}

} // verus!
