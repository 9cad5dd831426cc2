//! Shortest-path depth of every node reachable from the start node.

use vstd::prelude::*;

use crate::collections::{StrMap, distinct, string_views};
use super::{
    NarrativeGraph, all_targets, entry_nodes, first_start, is_walk, reaches, succ, targets_of,
    lemma_closed_contains_reach, lemma_distinct_bounded, lemma_first_start, lemma_succ_in_targets,
    lemma_walk_extend,
};

verus! {

/// `w` is a walk from `a` to `b`.
pub open spec fn walk_between(g: NarrativeGraph, w: Seq<Seq<char>>, a: Seq<char>, b: Seq<char>) -> bool {
    is_walk(g, w) && w[0] == a && w.last() == b
}

/// `d` is the length (in edges) of a shortest walk from `a` to `b`.
pub open spec fn shortest_distance(g: NarrativeGraph, a: Seq<char>, b: Seq<char>, d: nat) -> bool {
    &&& exists|w: Seq<Seq<char>>| #[trigger] walk_between(g, w, a, b) && w.len() == d + 1
    &&& forall|w: Seq<Seq<char>>| #[trigger] walk_between(g, w, a, b) ==> w.len() >= d + 1
}

/// `m` maps exactly the ids reachable from `s` to their shortest distance
/// from `s`.
pub open spec fn is_depth_map(g: NarrativeGraph, s: Seq<char>, m: Map<Seq<char>, usize>) -> bool {
    &&& forall|t: Seq<char>| #[trigger] m.contains_key(t) <==> reaches(g, s, t)
    &&& forall|t: Seq<char>| #[trigger] m.contains_key(t) ==> shortest_distance(g, s, t, m[t] as nat)
}

/// The ids at depth `lvl` in `m` are exactly those of `ids`.
spec fn level_is(m: Map<Seq<char>, usize>, ids: Seq<Seq<char>>, lvl: int) -> bool {
    forall|k: Seq<char>| #[trigger] m.contains_key(k) && m[k] == lvl <==> ids.contains(k)
}

/// Every key other than the root has a key one level shallower with an
/// edge to it.
spec fn has_parents(g: NarrativeGraph, s: Seq<char>, m: Map<Seq<char>, usize>) -> bool {
    forall|k: Seq<char>| #[trigger] m.contains_key(k) && k != s ==> exists|p: Seq<char>| #[trigger] m.contains_key(p) && succ(g, p, k) && m[p] + 1 == m[k]
}

/// A key at depth `n` is the end of a walk of `n + 1` ids from the root.
proof fn lemma_parent_walk(g: NarrativeGraph, s: Seq<char>, m: Map<Seq<char>, usize>, k: Seq<char>)
    requires
        m.contains_key(s),
        m[s] == 0,
        has_parents(g, s, m),
        m.contains_key(k),
    ensures
        exists|w: Seq<Seq<char>>| #[trigger] walk_between(g, w, s, k) && w.len() == m[k] + 1,
    decreases m[k],
{
    if k == s {
        let w = seq![s];
        assert(walk_between(g, w, s, k));
    } else {
        let p = choose|p: Seq<char>| #[trigger] m.contains_key(p) && succ(g, p, k) && m[p] + 1 == m[k];
        lemma_parent_walk(g, s, m, p);
        let w = choose|w: Seq<Seq<char>>| #[trigger] walk_between(g, w, s, p) && w.len() == m[p] + 1;
        lemma_walk_extend(g, w, k);
        assert(walk_between(g, w.push(k), s, k));
    }
}

/// Along any walk from the root, depths grow by at most one per step, so a
/// walk of `n` ids ends at depth at most `n - 1`.
proof fn lemma_walk_depth_bound(g: NarrativeGraph, s: Seq<char>, m: Map<Seq<char>, usize>, w: Seq<Seq<char>>, i: int)
    requires
        m.contains_key(s),
        m[s] == 0,
        forall|x: Seq<char>, y: Seq<char>| m.contains_key(x) && #[trigger] succ(g, x, y) ==> m.contains_key(y) && m[y] <= m[x] + 1,
        is_walk(g, w),
        w[0] == s,
        0 <= i < w.len(),
    ensures
        m.contains_key(w[i]),
        m[w[i]] <= i,
    decreases i,
{
    if i > 0 {
        lemma_walk_depth_bound(g, s, m, w, i - 1);
        assert(succ(g, w[i - 1], w[i]));
    }
}


/// Discovering a new id `t` from a node `f` at depth `d` (giving `t` depth
/// `d + 1`) keeps the search invariants.
proof fn lemma_bfs_discover(
    g: NarrativeGraph,
    s: Seq<char>,
    u: Seq<Seq<char>>,
    d: usize,
    f: Seq<char>,
    t: Seq<char>,
    old_map: Map<Seq<char>, usize>,
    new_map: Map<Seq<char>, usize>,
    old_keys: Seq<Seq<char>>,
    new_keys: Seq<Seq<char>>,
    old_next: Seq<Seq<char>>,
    new_next: Seq<Seq<char>>,
)
    requires
        d < usize::MAX,
        succ(g, f, t),
        all_targets(g.nodes.seq()).contains(t),
        u == seq![s] + all_targets(g.nodes.seq()),
        old_map.contains_key(f),
        old_map[f] == d,
        !old_map.contains_key(t),
        new_map == old_map.insert(t, (d + 1) as usize),
        new_keys == old_keys.push(t),
        new_next == old_next.push(t),
        distinct(new_keys),
        old_map.contains_key(s),
        forall|i: int| 0 <= i < old_keys.len() ==> u.contains(#[trigger] old_keys[i]),
        forall|k: Seq<char>| #[trigger] old_map.contains_key(k) <==> old_keys.contains(k),
        level_is(old_map, old_next, d + 1),
        has_parents(g, s, old_map),
    ensures
        u.contains(t),
        forall|i: int| 0 <= i < new_keys.len() ==> u.contains(#[trigger] new_keys[i]),
        new_keys.len() <= u.len(),
        forall|k: Seq<char>| #[trigger] new_map.contains_key(k) <==> new_keys.contains(k),
        level_is(new_map, new_next, d + 1),
        has_parents(g, s, new_map),
{
    assert(u.contains(t)) by {
        let k = choose|k: int| 0 <= k < all_targets(g.nodes.seq()).len() && all_targets(g.nodes.seq())[k] == t;
        assert(u[k + 1] == t);
    }
    assert forall|i: int| 0 <= i < new_keys.len() implies u.contains(#[trigger] new_keys[i]) by {
        if i < old_keys.len() {
            assert(new_keys[i] == old_keys[i]);
        }
    }
    lemma_distinct_bounded(new_keys, u);
    assert forall|k: Seq<char>| #[trigger] new_map.contains_key(k) <==> new_keys.contains(k) by {
        if k == t {
            assert(new_keys[old_keys.len() as int] == t);
        } else if old_keys.contains(k) {
            let q = choose|q: int| 0 <= q < old_keys.len() && old_keys[q] == k;
            assert(new_keys[q] == k);
        } else if new_keys.contains(k) {
            let q = choose|q: int| 0 <= q < new_keys.len() && new_keys[q] == k;
            assert(old_keys[q] == k);
        }
    }
    assert forall|k: Seq<char>| #[trigger] new_map.contains_key(k) && new_map[k] == d + 1 <==> new_next.contains(k) by {
        if k == t {
            assert(new_next[old_next.len() as int] == t);
        } else if old_next.contains(k) {
            let q = choose|q: int| 0 <= q < old_next.len() && old_next[q] == k;
            assert(new_next[q] == k);
        } else if new_next.contains(k) {
            let q = choose|q: int| 0 <= q < new_next.len() && new_next[q] == k;
            assert(old_next[q] == k);
        }
    }
    assert forall|k: Seq<char>| #[trigger] new_map.contains_key(k) && k != s implies exists|p: Seq<char>| #[trigger] new_map.contains_key(p) && succ(g, p, k) && new_map[p] + 1 == new_map[k] by {
        if k == t {
            assert(new_map.contains_key(f));
        } else {
            let p = choose|p: Seq<char>| #[trigger] old_map.contains_key(p) && succ(g, p, k) && old_map[p] + 1 == old_map[k];
            assert(new_map.contains_key(p));
        }
    }
}

impl NarrativeGraph {
    /// Breadth-first shortest-path depth from the start node to every
    /// reachable id: depth 0 is the start, depth `n` the fewest forward
    /// hops.  Unreachable ids are absent; without a start node the map is
    /// empty.
    #[verifier::spinoff_prover]
    #[verifier::rlimit(40)]
    pub fn bfs_depths(&self) -> (r: StrMap<usize>)
        ensures
            match first_start(self.node_seq()) {
                Some(i) => is_depth_map(*self, self.node_seq()[i].id@, r.as_map()),
                None => r.as_map() == Map::<Seq<char>, usize>::empty(),
            },
    {
        proof {
            lemma_first_start(self.node_seq());
        }
        let mut depths: StrMap<usize> = StrMap::new();
        let start = match self.start_node() {
            Some(n) => n,
            None => {
                return depths;
            },
        };
        let ghost g = *self;
        let ghost s = start.id@;
        let ghost u = seq![s] + all_targets(g.nodes.seq());
        depths.insert(start.id.clone(), 0);
        let mut frontier: Vec<String> = Vec::new();
        frontier.push(start.id.clone());
        let mut d: usize = 0;
        depths.keys_distinct();
        proof {
            assert(u[0] == s);
            assert(depths.as_map().dom() =~= set![s]);
            assert(depths.keys() =~= seq![s]);
            assert(string_views(frontier@) =~= seq![s]);
            assert(string_views(frontier@)[0] == s);
            assert(depths.keys()[0] == s);
        }
        while frontier.len() > 0
            invariant
                g == *self,
                u == seq![s] + all_targets(g.nodes.seq()),
                depths.as_map().contains_key(s),
                depths.as_map()[s] == 0,
                has_parents(g, s, depths.as_map()),
                forall|k: Seq<char>| #[trigger] depths.as_map().contains_key(k) ==> depths.as_map()[k] <= d,
                forall|k: Seq<char>| #[trigger] depths.as_map().contains_key(k) && depths.as_map()[k] == d
                    ==> string_views(frontier@).contains(k),
                forall|i: int| 0 <= i < frontier@.len() ==> depths.as_map().contains_key(#[trigger] string_views(frontier@)[i])
                    && depths.as_map()[string_views(frontier@)[i]] == d,
                forall|x: Seq<char>, y: Seq<char>| #[trigger] depths.as_map().contains_key(x) && depths.as_map()[x] < d && #[trigger] succ(g, x, y)
                    ==> depths.as_map().contains_key(y) && depths.as_map()[y] <= depths.as_map()[x] + 1,
                forall|i: int| 0 <= i < depths.keys().len() ==> u.contains(#[trigger] depths.keys()[i]),
                distinct(depths.keys()),
                depths.keys().len() <= u.len(),
                forall|k: Seq<char>| #[trigger] depths.as_map().contains_key(k) <==> depths.keys().contains(k),
                d <= depths.keys().len(),
                frontier@.len() > 0 ==> d < depths.keys().len(),
                frontier@.len() <= depths.keys().len(),
            decreases u.len() - depths.keys().len() + frontier@.len(),
        {
            let ghost keys_before = depths.keys();
            let mut next: Vec<String> = Vec::new();
            let mut a: usize = 0;
            while a < frontier.len()
                invariant
                    g == *self,
                    u == seq![s] + all_targets(g.nodes.seq()),
                    d < depths.keys().len(),
                    a <= frontier@.len(),
                    depths.as_map().contains_key(s),
                    depths.as_map()[s] == 0,
                    has_parents(g, s, depths.as_map()),
                    forall|k: Seq<char>| #[trigger] depths.as_map().contains_key(k) ==> depths.as_map()[k] <= d + 1,
                    forall|k: Seq<char>| #[trigger] depths.as_map().contains_key(k) && depths.as_map()[k] == d
                        ==> string_views(frontier@).contains(k),
                    forall|k: Seq<char>| #[trigger] depths.as_map().contains_key(k) && depths.as_map()[k] == d + 1
                        <==> string_views(next@).contains(k),
                    forall|i: int| 0 <= i < frontier@.len() ==> depths.as_map().contains_key(#[trigger] string_views(frontier@)[i])
                        && depths.as_map()[string_views(frontier@)[i]] == d,
                    forall|x: Seq<char>, y: Seq<char>| #[trigger] depths.as_map().contains_key(x) && depths.as_map()[x] < d && #[trigger] succ(g, x, y)
                        ==> depths.as_map().contains_key(y) && depths.as_map()[y] <= depths.as_map()[x] + 1,
                    forall|i: int, y: Seq<char>| 0 <= i < a && #[trigger] succ(g, string_views(frontier@)[i], y)
                        ==> depths.as_map().contains_key(y) && depths.as_map()[y] <= d + 1,
                    forall|i: int| 0 <= i < depths.keys().len() ==> u.contains(#[trigger] depths.keys()[i]),
                    distinct(depths.keys()),
                    depths.keys().len() <= u.len(),
                    forall|k: Seq<char>| #[trigger] depths.as_map().contains_key(k) <==> depths.keys().contains(k),
                    depths.keys().len() == keys_before.len() + next@.len(),
                    frontier@.len() <= keys_before.len(),
                decreases frontier@.len() - a,
            {
                let f = frontier[a].clone();
                let ghost fv = f@;
                proof {
                    assert(fv == string_views(frontier@)[a as int]);
                }
                match self.nodes.get(f.as_str()) {
                    Some(node) => {
                        let mut j: usize = 0;
                        while j < node.exits.len()
                            invariant
                                g == *self,
                                u == seq![s] + all_targets(g.nodes.seq()),
                                d < depths.keys().len(),
                                a < frontier@.len(),
                                fv == string_views(frontier@)[a as int],
                                g.nodes.spec_get(fv) == Some(*node),
                                j <= node.exits@.len(),
                                depths.as_map().contains_key(s),
                                depths.as_map()[s] == 0,
                                has_parents(g, s, depths.as_map()),
                                forall|k: Seq<char>| #[trigger] depths.as_map().contains_key(k) ==> depths.as_map()[k] <= d + 1,
                                forall|k: Seq<char>| #[trigger] depths.as_map().contains_key(k) && depths.as_map()[k] == d
                                    ==> string_views(frontier@).contains(k),
                                forall|k: Seq<char>| #[trigger] depths.as_map().contains_key(k) && depths.as_map()[k] == d + 1
                                    <==> string_views(next@).contains(k),
                                forall|i: int| 0 <= i < frontier@.len() ==> depths.as_map().contains_key(#[trigger] string_views(frontier@)[i])
                                    && depths.as_map()[string_views(frontier@)[i]] == d,
                                forall|x: Seq<char>, y: Seq<char>| #[trigger] depths.as_map().contains_key(x) && depths.as_map()[x] < d && #[trigger] succ(g, x, y)
                                    ==> depths.as_map().contains_key(y) && depths.as_map()[y] <= depths.as_map()[x] + 1,
                                forall|i: int, y: Seq<char>| 0 <= i < a && #[trigger] succ(g, string_views(frontier@)[i], y)
                                    ==> depths.as_map().contains_key(y) && depths.as_map()[y] <= d + 1,
                                forall|k: int| 0 <= k < j ==> depths.as_map().contains_key(#[trigger] targets_of(*node)[k]),
                                forall|i: int| 0 <= i < depths.keys().len() ==> u.contains(#[trigger] depths.keys()[i]),
                                distinct(depths.keys()),
                                depths.keys().len() <= u.len(),
                                forall|k: Seq<char>| #[trigger] depths.as_map().contains_key(k) <==> depths.keys().contains(k),
                                depths.keys().len() == keys_before.len() + next@.len(),
                                frontier@.len() <= keys_before.len(),
                            decreases node.exits@.len() - j,
                        {
                            let t = &node.exits[j].target;
                            let ghost tv = t@;
                            proof {
                                assert(targets_of(*node)[j as int] == tv);
                                assert(targets_of(*node).contains(tv));
                                assert(succ(g, fv, tv));
                            }
                            if !depths.contains_key(t.as_str()) {
                                let ghost old_map = depths.as_map();
                                let ghost old_keys = depths.keys();
                                let ghost old_next = string_views(next@);
                                assert(level_is(depths.as_map(), string_views(next@), d + 1));
                                assert(level_is(old_map, old_next, d + 1));
                                let _count = depths.len();
                                let dn = d + 1;
                                proof {
                                    crate::collections::lemma_key_index(depths.seq(), tv);
                                }
                                depths.insert(t.clone(), dn);
                                next.push(t.clone());
                                depths.keys_distinct();
                                proof {
                                    assert(depths.keys() =~= old_keys.push(tv));
                                    assert(string_views(next@) =~= old_next.push(tv));
                                    lemma_succ_in_targets(g, fv, tv);
                                    assert(level_is(old_map, old_next, d + 1));
                                    lemma_bfs_discover(g, s, u, d, fv, tv, old_map, depths.as_map(), old_keys, depths.keys(), old_next, string_views(next@));
                                }
                            }
                            j = j + 1;
                        }
                        proof {
                            assert forall|i: int, y: Seq<char>| 0 <= i < a + 1 && #[trigger] succ(g, string_views(frontier@)[i], y)
                                implies depths.as_map().contains_key(y) && depths.as_map()[y] <= d + 1 by {
                                if i == a {
                                    let k = choose|k: int| 0 <= k < targets_of(*node).len() && targets_of(*node)[k] == y;
                                }
                            }
                        }
                    },
                    None => {
                        proof {
                            assert forall|i: int, y: Seq<char>| 0 <= i < a + 1 && #[trigger] succ(g, string_views(frontier@)[i], y)
                                implies depths.as_map().contains_key(y) && depths.as_map()[y] <= d + 1 by {
                                if i == a {
                                    assert(!succ(g, fv, y));
                                }
                            }
                        }
                    },
                }
                a = a + 1;
            }
            proof {
                assert forall|x: Seq<char>, y: Seq<char>| #[trigger] depths.as_map().contains_key(x) && depths.as_map()[x] < d + 1 && #[trigger] succ(g, x, y)
                    implies depths.as_map().contains_key(y) && depths.as_map()[y] <= depths.as_map()[x] + 1 by {
                    if depths.as_map()[x] == d {
                        assert(string_views(frontier@).contains(x));
                        let i = choose|i: int| 0 <= i < frontier@.len() && string_views(frontier@)[i] == x;
                        assert(succ(g, string_views(frontier@)[i], y));
                    }
                }
                assert forall|i: int| 0 <= i < next@.len() implies depths.as_map().contains_key(#[trigger] string_views(next@)[i])
                    && depths.as_map()[string_views(next@)[i]] == d + 1 by {
                    assert(string_views(next@).contains(string_views(next@)[i]));
                }
            }
            let _count = depths.len();
            frontier = next;
            d = d + 1;
        }
        proof {
            let m = depths.as_map();
            assert forall|x: Seq<char>, y: Seq<char>| m.contains_key(x) && #[trigger] succ(g, x, y)
                implies m.contains_key(y) && m[y] <= m[x] + 1 by {
                if m[x] == d {
                    assert(string_views(frontier@).contains(x));
                }
            }
            assert forall|t: Seq<char>| #[trigger] m.contains_key(t) <==> reaches(g, s, t) by {
                if m.contains_key(t) {
                    lemma_parent_walk(g, s, m, t);
                    let w = choose|w: Seq<Seq<char>>| #[trigger] walk_between(g, w, s, t) && w.len() == m[t] + 1;
                    assert(is_walk(g, w) && w[0] == s && w.last() == t);
                }
                if reaches(g, s, t) {
                    lemma_closed_contains_reach(g, s, t, m.dom());
                }
            }
            assert forall|t: Seq<char>| #[trigger] m.contains_key(t) implies shortest_distance(g, s, t, m[t] as nat) by {
                lemma_parent_walk(g, s, m, t);
                assert forall|w: Seq<Seq<char>>| #[trigger] walk_between(g, w, s, t) implies w.len() >= m[t] + 1 by {
                    lemma_walk_depth_bound(g, s, m, w, w.len() - 1);
                }
            }
        }
        depths
    }
}

/// The depth drawn for node `id`: its depth in `m`, or 0 where it has none
/// (an unreachable node is drawn at the start's layer).
pub open spec fn drawn_depth(m: Map<Seq<char>, usize>, id: Seq<char>) -> usize {
    if m.contains_key(id) {
        m[id]
    } else {
        0
    }
}

/// The depth drawn for node `id` (see `drawn_depth`).
pub fn depth_or_zero(depths: &StrMap<usize>, id: &str) -> (r: usize)
    ensures
        r == drawn_depth(depths.as_map(), id@),
{
    match depths.get(id) {
        Some(d) => *d,
        None => 0,
    }
}

/// The deepest layer among the values of `s`, 0 for none.
pub open spec fn deepest(s: Seq<(String, usize)>) -> usize
    decreases s.len(),
{
    if s.len() == 0 {
        0
    } else {
        let rest = deepest(s.drop_last());
        if s.last().1 > rest {
            s.last().1
        } else {
            rest
        }
    }
}

/// The deepest layer of a depth map, 0 when it is empty: the largest
/// depth stored, every stored depth being at most it.
pub fn max_depth(depths: &StrMap<usize>) -> (r: usize)
    ensures
        r == deepest(depths.seq()),
        forall|i: int| 0 <= i < depths.seq().len() ==> (#[trigger] depths.seq()[i]).1 <= r,
        depths.seq().len() > 0 ==> exists|i: int| 0 <= i < depths.seq().len() && (#[trigger] depths.seq()[i]).1 == r,
{
    let mut best: usize = 0;
    let mut i: usize = 0;
    while i < depths.len()
        invariant
            i <= depths.seq().len(),
            best == deepest(depths.seq().subrange(0, i as int)),
            forall|k: int| 0 <= k < i ==> (#[trigger] depths.seq()[k]).1 <= best,
            i > 0 ==> exists|k: int| 0 <= k < i && (#[trigger] depths.seq()[k]).1 == best,
            i == 0 ==> best == 0,
        decreases depths.seq().len() - i,
    {
        let d = *depths.value_at(i);
        proof {
            assert(depths.seq().subrange(0, i + 1).drop_last() =~= depths.seq().subrange(0, i as int));
        }
        if d > best {
            best = d;
        }
        i = i + 1;
    }
    proof {
        assert(depths.seq().subrange(0, depths.seq().len() as int) =~= depths.seq());
    }
    best
}

} // verus!
