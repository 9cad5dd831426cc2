//! Deploy graphs: the primals to launch, their dependencies, and the order
//! of launch in waves, where each wave holds the nodes whose dependencies
//! all started in earlier waves (Kahn's algorithm).

use vstd::prelude::*;
use vstd::string::*;

use crate::text::str_eq;

verus! {

/// A spawned primal process.
#[derive(Debug, Clone)]
pub struct SpawnedPrimal {
    /// Primal name (e.g. "rhizocrypt").
    pub name: String,
    /// Process ID.
    pub pid: u32,
    /// TCP address the primal is listening on.
    pub address: String,
    /// Capability domain (e.g. "dag").
    pub domain: String,
}

/// A node in a deploy graph.
#[derive(Debug, Clone)]
pub struct GraphNode {
    /// Primal name (e.g. "rhizocrypt").
    pub name: String,
    /// Binary name override (defaults to primal name).
    pub binary: Option<String>,
    /// Spawn order hint (lower = earlier within a wave).
    pub order: u32,
    /// Whether to actually spawn this node (false = validation-only).
    pub spawn: bool,
    /// Names of nodes that must be healthy before this one starts.
    pub depends_on: Vec<String>,
    /// Capability domain this node provides.
    pub by_capability: Option<String>,
    /// TCP port override (auto-assigned if absent).
    pub port: Option<u16>,
}

/// A deploy graph.
#[derive(Debug)]
pub struct DeployGraph {
    /// The `[graph]` section containing metadata and nodes.
    pub graph: GraphSection,
}

/// The `[graph]` section of a deploy graph.
#[derive(Debug)]
pub struct GraphSection {
    /// Human-readable graph name.
    pub name: String,
    /// Ordered list of graph nodes.
    pub node: Vec<GraphNode>,
}

/// The default of the `spawn` field: nodes are spawned unless told not to.
pub fn default_true() -> (r: bool)
    ensures
        r,
{
    true
}

/// The mathematical content of a graph node.
pub open spec fn node_view(n: GraphNode) -> (Seq<char>, Option<Seq<char>>, u32, bool, Seq<Seq<char>>, Option<Seq<char>>, Option<u16>) {
    (
        n.name@,
        match n.binary {
            Some(b) => Some(b@),
            None => None,
        },
        n.order,
        n.spawn,
        n.depends_on@.map_values(|d: String| d@),
        match n.by_capability {
            Some(c) => Some(c@),
            None => None,
        },
        n.port,
    )
}

/// The last node of `ns` named `name` (a later node of the same name
/// shadows an earlier one).
pub open spec fn resolve(ns: Seq<GraphNode>, name: Seq<char>) -> Option<int>
    decreases ns.len(),
{
    if ns.len() == 0 {
        None
    } else if ns.last().name@ == name {
        Some(ns.len() - 1)
    } else {
        resolve(ns.drop_last(), name)
    }
}

/// The first dependency of node `i` that names no node.
pub open spec fn missing_dep(ns: Seq<GraphNode>, deps: Seq<String>) -> Option<int>
    decreases deps.len(),
{
    if deps.len() == 0 {
        None
    } else {
        match missing_dep(ns, deps.drop_last()) {
            Some(j) => Some(j),
            None => if resolve(ns, deps.last()@) is None {
                Some(deps.len() - 1)
            } else {
                None
            },
        }
    }
}

/// The first node (among the first `k`) with a dependency that names no
/// node.
pub open spec fn first_broken(ns: Seq<GraphNode>, k: int) -> Option<int>
    decreases k,
{
    if k <= 0 {
        None
    } else {
        match first_broken(ns, k - 1) {
            Some(i) => Some(i),
            None => if missing_dep(ns, ns[k - 1].depends_on@) is Some {
                Some(k - 1)
            } else {
                None
            },
        }
    }
}

/// The error for node `i`'s first dependency that names no node.
pub open spec fn missing_dep_error(ns: Seq<GraphNode>, i: int) -> Seq<char> {
    let j = missing_dep(ns, ns[i].depends_on@)->0;
    "node '"@ + ns[i].name@ + "' depends on '"@ + ns[i].depends_on@[j]@ + "' which is not in the graph"@
}

/// The nodes that node `i`'s dependencies name, in order.
pub open spec fn sources(ns: Seq<GraphNode>, i: int) -> Seq<int> {
    ns[i].depends_on@.map_values(|d: String| resolve(ns, d@)->0)
}

/// How many entries of `s` are `x`.
pub open spec fn count_of(s: Seq<int>, x: int) -> nat
    decreases s.len(),
{
    if s.len() == 0 {
        0
    } else {
        count_of(s.drop_last(), x) + if s.last() == x { 1nat } else { 0nat }
    }
}

/// How many entries of `s` are not in `done`.
pub open spec fn pending(s: Seq<int>, done: Set<int>) -> nat
    decreases s.len(),
{
    if s.len() == 0 {
        0
    } else {
        pending(s.drop_last(), done) + if done.contains(s.last()) { 0nat } else { 1nat }
    }
}

/// The nodes among the first `k` that depend on node `p`, in ascending
/// order, each as often as it names `p`.
pub open spec fn dependents_upto(ns: Seq<GraphNode>, p: int, k: int) -> Seq<int>
    decreases k,
{
    if k <= 0 {
        Seq::empty()
    } else {
        dependents_upto(ns, p, k - 1) + Seq::new(count_of(sources(ns, k - 1), p), |_i: int| k - 1)
    }
}

/// The last node of `nodes` named `name`.
fn find_last(nodes: &Vec<GraphNode>, name: &str) -> (r: Option<usize>)
    ensures
        match r {
            Some(i) => resolve(nodes@, name@) == Some(i as int) && i < nodes@.len(),
            None => resolve(nodes@, name@) is None,
        },
{
    let mut i: usize = nodes.len();
    assert(nodes@.subrange(0, nodes@.len() as int) =~= nodes@);
    while i > 0
        invariant
            i <= nodes@.len(),
            resolve(nodes@, name@) == resolve(nodes@.subrange(0, i as int), name@),
        decreases i,
    {
        let ghost sub = nodes@.subrange(0, i as int);
        proof {
            assert(sub.drop_last() =~= nodes@.subrange(0, i - 1));
        }
        if str_eq(nodes[i - 1].name.as_str(), name) {
            return Some(i - 1);
        }
        i = i - 1;
    }
    None
}

/// Characterization of `resolve`.
pub proof fn lemma_resolve(ns: Seq<GraphNode>, name: Seq<char>)
    ensures
        match resolve(ns, name) {
            Some(k) => 0 <= k < ns.len() && ns[k].name@ == name && forall|j: int| k < j < ns.len() ==> (#[trigger] ns[j]).name@ != name,
            None => forall|j: int| 0 <= j < ns.len() ==> (#[trigger] ns[j]).name@ != name,
        },
    decreases ns.len(),
{
    if ns.len() > 0 {
        lemma_resolve(ns.drop_last(), name);
        assert forall|j: int| 0 <= j < ns.len() - 1 implies ns.drop_last()[j] == ns[j] by {}
    }
}

/// Characterization of `missing_dep`.
pub proof fn lemma_missing_dep(ns: Seq<GraphNode>, deps: Seq<String>)
    ensures
        match missing_dep(ns, deps) {
            Some(j) => 0 <= j < deps.len() && resolve(ns, deps[j]@) is None && forall|t: int| 0 <= t < j ==> resolve(ns, (#[trigger] deps[t])@) is Some,
            None => forall|t: int| 0 <= t < deps.len() ==> resolve(ns, (#[trigger] deps[t])@) is Some,
        },
    decreases deps.len(),
{
    if deps.len() > 0 {
        lemma_missing_dep(ns, deps.drop_last());
        assert forall|t: int| 0 <= t < deps.len() - 1 implies deps.drop_last()[t] == deps[t] by {}
    }
}

/// Characterization of `first_broken`.
pub proof fn lemma_first_broken(ns: Seq<GraphNode>, k: int)
    requires
        0 <= k <= ns.len(),
    ensures
        match first_broken(ns, k) {
            Some(i) => 0 <= i < k && missing_dep(ns, ns[i].depends_on@) is Some && forall|t: int| 0 <= t < i ==> missing_dep(ns, (#[trigger] ns[t]).depends_on@) is None,
            None => forall|t: int| 0 <= t < k ==> missing_dep(ns, (#[trigger] ns[t]).depends_on@) is None,
        },
    decreases k,
{
    if k > 0 {
        lemma_first_broken(ns, k - 1);
    }
}

/// `count_of` over one more element.
proof fn lemma_count_push(s: Seq<int>, v: int, x: int)
    ensures
        count_of(s.push(v), x) == count_of(s, x) + if v == x { 1nat } else { 0nat },
{
    assert(s.push(v).drop_last() =~= s);
}

/// Whether every dependency of every node names some node.
pub open spec fn all_resolved(ns: Seq<GraphNode>) -> bool {
    forall|i: int, j: int| 0 <= i < ns.len() && 0 <= j < ns[i].depends_on@.len() ==> resolve(ns, (#[trigger] ns[i].depends_on@[j])@) is Some
}

/// The dependency tables of a graph: for each node, how many dependencies
/// it has, and for each node, the nodes depending on it; or the error for
/// the first dependency (by node, then by position) that names no node.
fn dependency_tables(nodes: &Vec<GraphNode>) -> (r: Result<(Vec<usize>, Vec<Vec<usize>>), String>)
    ensures
        match first_broken(nodes@, nodes@.len() as int) {
            Some(i) => r is Err && r->Err_0@ == missing_dep_error(nodes@, i),
            None => r is Ok && all_resolved(nodes@) && ({
                let (deg, deps) = r->Ok_0;
                &&& deg@.len() == nodes@.len()
                &&& deps@.len() == nodes@.len()
                &&& forall|x: int| 0 <= x < nodes@.len() ==> #[trigger] deg@[x] == sources(nodes@, x).len()
                &&& forall|p: int| 0 <= p < nodes@.len() ==> (#[trigger] deps@[p])@.map_values(|v: usize| v as int) == dependents_upto(nodes@, p, nodes@.len() as int)
            }),
        },
{
    let ghost ns = nodes@;
    let n = nodes.len();
    let mut deg: Vec<usize> = Vec::new();
    let mut deps: Vec<Vec<usize>> = Vec::new();
    let mut k: usize = 0;
    while k < n
        invariant
            n == ns.len(),
            ns == nodes@,
            k <= n,
            deg@.len() == k,
            deps@.len() == k,
            forall|x: int| 0 <= x < k ==> #[trigger] deg@[x] == 0,
            forall|x: int| 0 <= x < k ==> (#[trigger] deps@[x])@ == Seq::<usize>::empty(),
        decreases n - k,
    {
        deg.push(0);
        deps.push(Vec::new());
        k = k + 1;
    }
    let mut i: usize = 0;
    while i < n
        invariant
            n == ns.len(),
            ns == nodes@,
            i <= n,
            first_broken(ns, i as int) is None,
            deg@.len() == n,
            deps@.len() == n,
            forall|x: int| 0 <= x < i ==> #[trigger] deg@[x] == sources(ns, x).len(),
            forall|x: int| i <= x < n ==> #[trigger] deg@[x] == 0,
            forall|p: int| 0 <= p < n ==> (#[trigger] deps@[p])@.map_values(|v: usize| v as int) == dependents_upto(ns, p, i as int),
            forall|a: int, b: int| 0 <= a < i && 0 <= b < ns[a].depends_on@.len() ==> resolve(ns, (#[trigger] ns[a].depends_on@[b])@) is Some,
        decreases n - i,
    {
        let node = &nodes[i];
        let m = node.depends_on.len();
        let mut j: usize = 0;
        while j < m
            invariant
                n == ns.len(),
                ns == nodes@,
                i < n,
                *node == ns[i as int],
                m == node.depends_on@.len(),
                j <= m,
                deg@.len() == n,
                deps@.len() == n,
                forall|x: int| 0 <= x < i ==> #[trigger] deg@[x] == sources(ns, x).len(),
                forall|x: int| i < x < n ==> #[trigger] deg@[x] == 0,
                deg@[i as int] == j,
                first_broken(ns, i as int) is None,
                forall|t: int| 0 <= t < j ==> resolve(ns, (#[trigger] node.depends_on@[t])@) is Some,
                forall|p: int| 0 <= p < n ==> (#[trigger] deps@[p])@.map_values(|v: usize| v as int) == dependents_upto(ns, p, i as int) + Seq::new(
                    count_of(sources(ns, i as int).subrange(0, j as int), p),
                    |_t: int| i as int,
                ),
            decreases m - j,
        {
            let dep = &node.depends_on[j];
            match find_last(nodes, dep.as_str()) {
                None => {
                    proof {
                        lemma_missing_dep(ns, node.depends_on@);
                        lemma_first_broken(ns, i as int);
                        match missing_dep(ns, node.depends_on@) {
                            Some(q) => {
                                if q < j {
                                } else if q > j {
                                    assert(resolve(ns, node.depends_on@[j as int]@) is None);
                                }
                            },
                            None => {
                                assert(resolve(ns, node.depends_on@[j as int]@) is Some);
                            },
                        }
                        assert(first_broken(ns, i + 1) == Some(i as int));
                        lemma_first_broken_prefix(ns, i + 1, n as int);
                    }
                    let mut msg = String::from_str("node '");
                    msg.append(node.name.as_str());
                    msg.append("' depends on '");
                    msg.append(dep.as_str());
                    msg.append("' which is not in the graph");
                    return Err(msg);
                },
                Some(src) => {
                    let d = deg[i] + 1;
                    deg.set(i, d);
                    let ghost old_deps = deps@;
                    let mut list = deps.remove(src);
                    list.push(i);
                    deps.insert(src, list);
                    proof {
                        assert(deps@ =~= old_deps.update(src as int, list));
                        lemma_resolve(ns, dep@);
                        let srcs = sources(ns, i as int);
                        assert(srcs[j as int] == src as int);
                        assert(srcs.subrange(0, j + 1) =~= srcs.subrange(0, j as int).push(src as int));
                        assert forall|p: int| 0 <= p < n implies (#[trigger] deps@[p])@.map_values(|v: usize| v as int) == dependents_upto(ns, p, i as int) + Seq::new(
                            count_of(sources(ns, i as int).subrange(0, j + 1), p),
                            |_t: int| i as int,
                        ) by {
                            lemma_count_push(srcs.subrange(0, j as int), src as int, p);
                            let c = count_of(srcs.subrange(0, j as int), p);
                            if p == src as int {
                                assert(Seq::new(c + 1, |_t: int| i as int) =~= Seq::new(c, |_t: int| i as int).push(i as int));
                                assert(deps@[p]@.map_values(|v: usize| v as int) =~= old_deps[p]@.map_values(|v: usize| v as int).push(i as int));
                                assert(deps@[p]@.map_values(|v: usize| v as int) =~= dependents_upto(ns, p, i as int) + Seq::new(
                                    count_of(sources(ns, i as int).subrange(0, j + 1), p),
                                    |_t: int| i as int,
                                ));
                            } else {
                                assert(deps@[p] == old_deps[p]);
                            }
                        }
                    }
                },
            }
            j = j + 1;
        }
        proof {
            lemma_missing_dep(ns, node.depends_on@);
            assert(missing_dep(ns, ns[i as int].depends_on@) is None);
            assert(first_broken(ns, i + 1) is None);
            assert(sources(ns, i as int).subrange(0, m as int) =~= sources(ns, i as int));
            assert forall|p: int| 0 <= p < n implies (#[trigger] deps@[p])@.map_values(|v: usize| v as int) == dependents_upto(ns, p, i + 1) by {
                assert(dependents_upto(ns, p, i + 1) == dependents_upto(ns, p, i as int) + Seq::new(count_of(sources(ns, i as int), p), |_t: int| i as int));
            }
        }
        i = i + 1;
    }
    Ok((deg, deps))
}

/// A broken node among the first `k` is the first broken one among more.
proof fn lemma_first_broken_prefix(ns: Seq<GraphNode>, k: int, m: int)
    requires
        0 <= k <= m,
        first_broken(ns, k) is Some,
    ensures
        first_broken(ns, m) == first_broken(ns, k),
    decreases m - k,
{
    if m > k {
        lemma_first_broken_prefix(ns, k, m - 1);
    }
}

/// `count_of` distributes over concatenation.
proof fn lemma_count_concat(a: Seq<int>, b: Seq<int>, x: int)
    ensures
        count_of(a + b, x) == count_of(a, x) + count_of(b, x),
    decreases b.len(),
{
    if b.len() > 0 {
        lemma_count_concat(a, b.drop_last(), x);
        assert((a + b).drop_last() =~= a + b.drop_last());
    } else {
        assert(a + b =~= a);
    }
}

/// A run of one value counts that value as often as it is long.
proof fn lemma_count_run(c: nat, y: int, x: int)
    ensures
        count_of(Seq::new(c, |_t: int| y), x) == if x == y { c } else { 0 },
    decreases c,
{
    if c > 0 {
        lemma_count_run((c - 1) as nat, y, x);
        assert(Seq::new(c, |_t: int| y).drop_last() =~= Seq::new((c - 1) as nat, |_t: int| y));
    }
}

/// Node `x` occurs among the dependents of `p` as often as it names `p`.
proof fn lemma_dependents_count(ns: Seq<GraphNode>, p: int, k: int, x: int)
    requires
        0 <= k,
    ensures
        count_of(dependents_upto(ns, p, k), x) == if 0 <= x < k { count_of(sources(ns, x), p) } else { 0 },
    decreases k,
{
    if k > 0 {
        lemma_dependents_count(ns, p, k - 1, x);
        lemma_count_concat(dependents_upto(ns, p, k - 1), Seq::new(count_of(sources(ns, k - 1), p), |_i: int| k - 1), x);
        lemma_count_run(count_of(sources(ns, k - 1), p), k - 1, x);
    }
}

/// The dependents of `p` are nodes that name `p`.
proof fn lemma_dependents_members(ns: Seq<GraphNode>, p: int, k: int, t: int)
    requires
        0 <= k,
        0 <= t < dependents_upto(ns, p, k).len(),
    ensures
        0 <= dependents_upto(ns, p, k)[t] < k,
        count_of(sources(ns, dependents_upto(ns, p, k)[t]), p) > 0,
    decreases k,
{
    if k > 0 {
        let prev = dependents_upto(ns, p, k - 1);
        if t < prev.len() {
            lemma_dependents_members(ns, p, k - 1, t);
            assert(dependents_upto(ns, p, k)[t] == prev[t]);
        } else {
            assert(dependents_upto(ns, p, k)[t] == k - 1);
        }
    }
}

/// Entering `p` into the finished set lowers the pending count by the
/// number of times `p` occurs.
proof fn lemma_pending_insert(s: Seq<int>, done: Set<int>, p: int)
    requires
        !done.contains(p),
    ensures
        pending(s, done) == pending(s, done.insert(p)) + count_of(s, p),
    decreases s.len(),
{
    if s.len() > 0 {
        lemma_pending_insert(s.drop_last(), done, p);
    }
}

/// Nothing pending means every entry is finished; something pending
/// means some entry is not.
proof fn lemma_pending_zero(s: Seq<int>, done: Set<int>)
    ensures
        pending(s, done) == 0 <==> forall|j: int| 0 <= j < s.len() ==> done.contains(#[trigger] s[j]),
        pending(s, done) <= s.len(),
    decreases s.len(),
{
    if s.len() > 0 {
        lemma_pending_zero(s.drop_last(), done);
        assert forall|j: int| 0 <= j < s.len() - 1 implies s.drop_last()[j] == s[j] by {}
    }
}

/// The nodes at queue positions `a..b`.
pub open spec fn queued(q: Seq<usize>, a: int, b: int) -> Set<int> {
    Set::new(|x: int| exists|k: int| a <= k < b && q[k] as int == x)
}

/// Whether the entries of `s` are pairwise distinct.
pub open spec fn no_repeats(s: Seq<usize>) -> bool {
    forall|a: int, b: int| 0 <= a < b < s.len() ==> s[a] != s[b]
}

/// Whether node `x` is in some wave of `idx`.
pub open spec fn in_some_wave(idx: Seq<Seq<int>>, x: int) -> bool {
    exists|w: int, m: int| 0 <= w < idx.len() && 0 <= m < idx[w].len() && #[trigger] idx[w][m] == x
}

/// Whether node `x` is in a wave before wave `w`.
pub open spec fn in_wave_before(idx: Seq<Seq<int>>, w: int, x: int) -> bool {
    exists|w2: int, m2: int| 0 <= w2 < w && 0 <= m2 < idx[w2].len() && #[trigger] idx[w2][m2] == x
}

/// Whether node `x` depends on some node of wave `v`.
pub open spec fn depends_on_wave(ns: Seq<GraphNode>, idx: Seq<Seq<int>>, v: int, x: int) -> bool {
    exists|j: int, m2: int|
        #![trigger idx[v][m2], sources(ns, x)[j]]
        0 <= j < sources(ns, x).len() && 0 <= m2 < idx[v].len() && idx[v][m2] == sources(ns, x)[j]
}

/// Whether `idx` describes valid launch waves for the nodes `ns`: every
/// node is in exactly one wave, once; every wave is non-empty and sorted
/// by `order`; every dependency of a node is in an earlier wave, and a
/// node past the first wave depends on some node of the wave before.
pub open spec fn valid_waves(ns: Seq<GraphNode>, idx: Seq<Seq<int>>) -> bool {
    &&& forall|w: int, m: int| 0 <= w < idx.len() && 0 <= m < idx[w].len() ==> 0 <= #[trigger] idx[w][m] < ns.len()
    &&& forall|x: int| 0 <= x < ns.len() ==> #[trigger] in_some_wave(idx, x)
    &&& forall|w1: int, m1: int, w2: int, m2: int|
        0 <= w1 < idx.len() && 0 <= m1 < idx[w1].len() && 0 <= w2 < idx.len() && 0 <= m2 < idx[w2].len() && #[trigger] idx[w1][m1]
            == #[trigger] idx[w2][m2] ==> w1 == w2 && m1 == m2
    &&& forall|w: int| 0 <= w < idx.len() ==> (#[trigger] idx[w]).len() > 0
    &&& forall|w: int, a: int, b: int| 0 <= w < idx.len() && 0 <= a < b < idx[w].len() ==> ns[(#[trigger] idx[w][a])].order <= ns[(#[trigger] idx[w][b])].order
    &&& forall|w: int, m: int, j: int| 0 <= w < idx.len() && 0 <= m < idx[w].len() && 0 <= j < sources(ns, idx[w][m]).len() ==>
        in_wave_before(idx, w, #[trigger] sources(ns, #[trigger] idx[w][m])[j])
    &&& forall|w: int, m: int| 0 < w < idx.len() && 0 <= m < idx[w].len() ==> depends_on_wave(ns, idx, w - 1, #[trigger] idx[w][m])
}

/// Whether `stuck` is a non-empty set of nodes that each depend on a node
/// of the set: none of them can ever start.
pub open spec fn stuck_set(ns: Seq<GraphNode>, stuck: Set<int>) -> bool {
    &&& exists|x: int| stuck.contains(x)
    &&& forall|x: int| #[trigger] stuck.contains(x) ==> 0 <= x < ns.len() && exists|j: int|
        0 <= j < sources(ns, x).len() && stuck.contains(sources(ns, x)[j])
}

/// Distinct entries below `n` number at most `n`.
proof fn lemma_distinct_bounded(q: Seq<usize>, n: int)
    requires
        no_repeats(q),
        forall|k: int| 0 <= k < q.len() ==> (#[trigger] q[k]) < n,
        0 <= n,
    ensures
        q.len() <= n,
{
    let s = q.map_values(|v: usize| v as int);
    assert forall|a: int, b: int| 0 <= a < s.len() && 0 <= b < s.len() && a != b implies s[a] != s[b] by {
        if a < b {
            assert(q[a] != q[b]);
        } else {
            assert(q[b] != q[a]);
        }
    }
    s.unique_seq_to_set();
    vstd::set_lib::lemma_int_range(0, n);
    assert(s.to_set().subset_of(vstd::set_lib::set_int_range(0, n)));
    vstd::set_lib::lemma_len_subset(s.to_set(), vstd::set_lib::set_int_range(0, n));
}

/// The facts about the dependency tables that the ordering relies on.
pub open spec fn tables_ok(ns: Seq<GraphNode>, deps: Seq<Vec<usize>>) -> bool {
    &&& all_resolved(ns)
    &&& deps.len() == ns.len()
    &&& forall|p: int| 0 <= p < ns.len() ==> (#[trigger] deps[p])@.map_values(|v: usize| v as int) == dependents_upto(ns, p, ns.len() as int)
}

/// The sources of every node are nodes.
proof fn lemma_sources_in_range(ns: Seq<GraphNode>, x: int, j: int)
    requires
        all_resolved(ns),
        0 <= x < ns.len(),
        0 <= j < sources(ns, x).len(),
    ensures
        0 <= sources(ns, x)[j] < ns.len(),
{
    let d = ns[x].depends_on@[j];
    assert(resolve(ns, d@) is Some);
    lemma_resolve(ns, d@);
}

/// Whether node `s` sits at a queue position of a wave before position
/// `k`'s.
pub open spec fn placed_before(q: Seq<usize>, wv: Seq<int>, k: int, s: int) -> bool {
    exists|k2: int| 0 <= k2 < q.len() && #[trigger] q[k2] as int == s && wv[k2] < wv[k]
}

/// Whether the node at position `k` depends on a node of the wave just
/// before its own.
pub open spec fn waits_on_prev(ns: Seq<GraphNode>, q: Seq<usize>, wv: Seq<int>, k: int) -> bool {
    exists|j: int, k2: int|
        #![trigger q[k2], sources(ns, q[k] as int)[j]]
        0 <= j < sources(ns, q[k] as int).len() && 0 <= k2 < q.len() && q[k2] as int == sources(ns, q[k] as int)[j]
            && wv[k2] == wv[k] - 1
}

/// The shape of a launch order: `q` lists distinct nodes, `wv` gives the
/// wave of each position (non-decreasing), every dependency of a node
/// sits in an earlier wave, and a node past the first wave depends on a
/// node of the wave before.
pub open spec fn order_ok(ns: Seq<GraphNode>, q: Seq<usize>, wv: Seq<int>) -> bool {
    &&& no_repeats(q)
    &&& wv.len() == q.len()
    &&& forall|k: int| 0 <= k < q.len() ==> (#[trigger] q[k]) < ns.len()
    &&& forall|k: int| 0 <= k < q.len() ==> #[trigger] wv[k] >= 0
    &&& forall|a: int, b: int| 0 <= a <= b < q.len() ==> #[trigger] wv[a] <= #[trigger] wv[b]
    &&& forall|k: int, j: int| 0 <= k < q.len() && 0 <= j < sources(ns, q[k] as int).len() ==> placed_before(
        q,
        wv,
        k,
        #[trigger] sources(ns, #[trigger] q[k] as int)[j],
    )
    &&& forall|k: int| 0 <= k < q.len() && #[trigger] wv[k] > 0 ==> waits_on_prev(ns, q, wv, k)
}

/// Queued nodes after one more push.
proof fn lemma_queued_push(q: Seq<usize>, v: usize, a: int)
    requires
        0 <= a <= q.len(),
    ensures
        queued(q.push(v), a, q.len() + 1int) == queued(q, a, q.len() as int).insert(v as int),
        queued(q.push(v), 0, a) == queued(q, 0, a),
{
    let qp = q.push(v);
    assert forall|y: int| queued(qp, a, q.len() + 1int).contains(y) <==> queued(q, a, q.len() as int).insert(v as int).contains(y) by {
        if queued(qp, a, q.len() + 1int).contains(y) {
            let k = choose|k: int| a <= k < q.len() + 1 && qp[k] as int == y;
            if k < q.len() {
                assert(q[k] == qp[k]);
            }
        }
        if queued(q, a, q.len() as int).contains(y) {
            let k = choose|k: int| a <= k < q.len() && q[k] as int == y;
            assert(qp[k] == q[k]);
        }
        if y == v as int {
            assert(qp[q.len() as int] == v);
        }
    }
    assert(queued(qp, a, q.len() + 1int) =~= queued(q, a, q.len() as int).insert(v as int));
    assert forall|y: int| queued(qp, 0, a).contains(y) <==> queued(q, 0, a).contains(y) by {
        if queued(qp, 0, a).contains(y) {
            let k = choose|k: int| 0 <= k < a && qp[k] as int == y;
            assert(q[k] == qp[k]);
        }
        if queued(q, 0, a).contains(y) {
            let k = choose|k: int| 0 <= k < a && q[k] as int == y;
            assert(qp[k] == q[k]);
        }
    }
    assert(queued(qp, 0, a) =~= queued(q, 0, a));
}

/// Moving the head past position `a`.
proof fn lemma_queued_advance(q: Seq<usize>, a: int, b: int)
    requires
        0 <= a < b <= q.len(),
        no_repeats(q),
    ensures
        queued(q, 0, a + 1) == queued(q, 0, a).insert(q[a] as int),
        queued(q, a, b) == queued(q, a + 1, b).insert(q[a] as int),
        !queued(q, 0, a).contains(q[a] as int),
        !queued(q, a + 1, b).contains(q[a] as int),
{
    assert(queued(q, 0, a + 1) =~= queued(q, 0, a).insert(q[a] as int)) by {
        assert forall|y: int| queued(q, 0, a + 1).contains(y) <==> queued(q, 0, a).insert(q[a] as int).contains(y) by {
            if queued(q, 0, a + 1).contains(y) {
                let k = choose|k: int| 0 <= k < a + 1 && q[k] as int == y;
            }
            if queued(q, 0, a).contains(y) {
                let k = choose|k: int| 0 <= k < a && q[k] as int == y;
            }
        }
    }
    assert(queued(q, a, b) =~= queued(q, a + 1, b).insert(q[a] as int)) by {
        assert forall|y: int| queued(q, a, b).contains(y) <==> queued(q, a + 1, b).insert(q[a] as int).contains(y) by {
            if queued(q, a, b).contains(y) {
                let k = choose|k: int| a <= k < b && q[k] as int == y;
            }
            if queued(q, a + 1, b).contains(y) {
                let k = choose|k: int| a + 1 <= k < b && q[k] as int == y;
            }
        }
    }
    if queued(q, 0, a).contains(q[a] as int) {
        let k = choose|k: int| 0 <= k < a && q[k] as int == q[a] as int;
        assert(q[k] != q[a]);
    }
    if queued(q, a + 1, b).contains(q[a] as int) {
        let k = choose|k: int| a + 1 <= k < b && q[k] as int == q[a] as int;
        assert(q[a] != q[k]);
    }
}

/// A positive count has a witness.
proof fn lemma_count_pos(s: Seq<int>, x: int)
    requires
        count_of(s, x) > 0,
    ensures
        exists|j: int| 0 <= j < s.len() && s[j] == x,
    decreases s.len(),
{
    if s.last() != x {
        lemma_count_pos(s.drop_last(), x);
        let j = choose|j: int| 0 <= j < s.drop_last().len() && s.drop_last()[j] == x;
        assert(s[j] == x);
    } else {
        assert(s[s.len() - 1] == x);
    }
}

/// A prefix counts no more than the whole.
proof fn lemma_count_prefix(s: Seq<int>, t: int, x: int)
    requires
        0 <= t <= s.len(),
    ensures
        count_of(s.subrange(0, t), x) <= count_of(s, x),
    decreases s.len() - t,
{
    if t < s.len() {
        lemma_count_prefix(s, t + 1, x);
        assert(s.subrange(0, t + 1).drop_last() =~= s.subrange(0, t));
    } else {
        assert(s.subrange(0, t) =~= s);
    }
}

/// Queue positions within a prefix are unaffected by appending.
proof fn lemma_queued_prefix(q1: Seq<usize>, q2: Seq<usize>, a: int, b: int)
    requires
        q1.len() <= q2.len(),
        q2.subrange(0, q1.len() as int) == q1,
        0 <= a <= b <= q1.len(),
    ensures
        queued(q2, a, b) == queued(q1, a, b),
{
    assert forall|k: int| 0 <= k < q1.len() implies q2[k] == q1[k] by {
        assert(q2.subrange(0, q1.len() as int)[k] == q2[k]);
    }
    assert(queued(q2, a, b) =~= queued(q1, a, b));
}

/// Whether each node's count in `deg` is its number of dependencies not
/// yet finished.
pub open spec fn pending_ok(ns: Seq<GraphNode>, deg: Seq<usize>, done: Set<int>) -> bool {
    &&& deg.len() == ns.len()
    &&& forall|y: int| 0 <= y < ns.len() ==> #[trigger] deg[y] == pending(sources(ns, y), done)
}

/// Whether the unfinished nodes waiting in the queue are exactly those
/// with nothing pending.
pub open spec fn waiting_ok(ns: Seq<GraphNode>, deg: Seq<usize>, done: Set<int>, waiting: Set<int>) -> bool {
    forall|y: int| 0 <= y < ns.len() && !done.contains(y) ==> #[trigger] waiting.contains(y) == (deg[y] == 0)
}

#[verifier::rlimit(60)]
#[verifier::spinoff_prover]
/// Finishing node `p` (at queue position `head - 1`, in wave `w`): each
/// node depending on it has one dependency fewer pending, and those left
/// with none join the queue in wave `w + 1`.
fn release_dependents(
    q: &mut Vec<usize>,
    deg: &mut Vec<usize>,
    list: &Vec<usize>,
    p: usize,
    head: usize,
    wave_end: usize,
    Ghost(ns): Ghost<Seq<GraphNode>>,
    Ghost(wv): Ghost<Seq<int>>,
    Ghost(w): Ghost<int>,
) -> (r: Ghost<Seq<int>>)
    requires
        all_resolved(ns),
        list@.map_values(|v: usize| v as int) == dependents_upto(ns, p as int, ns.len() as int),
        p < ns.len(),
        order_ok(ns, old(q)@, wv),
        0 < head <= wave_end <= old(q)@.len() <= ns.len(),
        old(q)@[head - 1] == p,
        w >= 0,
        forall|k: int| 0 <= k < wave_end ==> #[trigger] wv[k] <= w,
        wv[head - 1] == w,
        forall|k: int| wave_end <= k < old(q)@.len() ==> #[trigger] wv[k] == w + 1,
        pending_ok(ns, old(deg)@, queued(old(q)@, 0, head - 1)),
        waiting_ok(ns, old(deg)@, queued(old(q)@, 0, head as int), queued(old(q)@, head as int, old(q)@.len() as int)),
    ensures
        final(q)@.len() >= old(q)@.len(),
        final(q)@.len() <= ns.len(),
        final(q)@.subrange(0, old(q)@.len() as int) == old(q)@,
        r@.len() == final(q)@.len(),
        r@.subrange(0, old(q)@.len() as int) == wv,
        forall|k: int| old(q)@.len() <= k < final(q)@.len() ==> #[trigger] r@[k] == w + 1,
        order_ok(ns, final(q)@, r@),
        pending_ok(ns, final(deg)@, queued(old(q)@, 0, head as int)),
        waiting_ok(ns, final(deg)@, queued(old(q)@, 0, head as int), queued(final(q)@, head as int, final(q)@.len() as int)),
{
    let ghost n = ns.len();
    let ghost q0 = q@;
    let ghost dmp = queued(q0, 0, head - 1);
    let ghost done = queued(q0, 0, head as int);
    let ghost lst = list@.map_values(|v: usize| v as int);
    let ghost mut wv2 = wv;
    proof {
        lemma_queued_advance(q0, head - 1, q0.len() as int);
        assert(done == dmp.insert(p as int));
        assert forall|y: int| 0 <= y < n implies #[trigger] deg@[y] + count_of(lst.subrange(0, 0), y) == pending(sources(ns, y), dmp) by {
            assert(lst.subrange(0, 0) =~= Seq::<int>::empty());
        }
        assert(q@.subrange(0, q0.len() as int) =~= q0);
    }
    let mut t: usize = 0;
    while t < list.len()
        invariant
            n == ns.len(),
            all_resolved(ns),
            p < n,
            lst == list@.map_values(|v: usize| v as int),
            lst == dependents_upto(ns, p as int, n as int),
            t <= list@.len(),
            0 < head <= wave_end <= q0.len() <= q@.len() <= n,
            q@.subrange(0, q0.len() as int) == q0,
            q0[head - 1] == p,
            deg@.len() == n,
            order_ok(ns, q@, wv2),
            wv2.len() == q@.len(),
            wv2.subrange(0, q0.len() as int) == wv,
            forall|k: int| 0 <= k < wave_end ==> #[trigger] wv2[k] <= w,
            wv2[head - 1] == w,
            forall|k: int| wave_end <= k < q@.len() ==> #[trigger] wv2[k] == w + 1,
            dmp == queued(q0, 0, head - 1),
            done == queued(q0, 0, head as int),
            done == dmp.insert(p as int),
            !dmp.contains(p as int),
            forall|y: int| 0 <= y < n ==> #[trigger] deg@[y] + count_of(lst.subrange(0, t as int), y) == pending(sources(ns, y), dmp),
            waiting_ok(ns, deg@, done, queued(q@, head as int, q@.len() as int)),
        decreases list@.len() - t,
    {
        let y = list[t];
        proof {
            lemma_queued_prefix(q0, q@, 0, head as int);
            lemma_dependents_members(ns, p as int, n as int, t as int);
            assert(lst[t as int] == y as int);
            lemma_count_pos(sources(ns, y as int), p as int);
            let j0 = choose|j: int| 0 <= j < sources(ns, y as int).len() && sources(ns, y as int)[j] == p as int;
            if done.contains(y as int) {
                let ky = choose|k: int| 0 <= k < head && q0[k] as int == y as int;
                assert(q@[ky] == q0[ky]);
                assert(placed_before(q@, wv2, ky, sources(ns, q@[ky] as int)[j0]));
                let k2 = choose|k2: int| 0 <= k2 < q@.len() && #[trigger] q@[k2] as int == sources(ns, q@[ky] as int)[j0] && wv2[k2] < wv2[ky];
                assert(q@[head - 1] == q0[head - 1]);
                if k2 != head - 1 {
                    assert(q@[k2] != q@[head - 1]);
                }
                assert(false);
            }
            lemma_count_prefix(lst, t + 1, y as int);
            lemma_dependents_count(ns, p as int, n as int, y as int);
            lemma_pending_insert(sources(ns, y as int), dmp, p as int);
            assert(lst.subrange(0, t + 1) =~= lst.subrange(0, t as int).push(y as int));
            lemma_count_push(lst.subrange(0, t as int), y as int, y as int);
        }
        let d = deg[y] - 1;
        deg.set(y, d);
        proof {
            assert forall|z: int| 0 <= z < n implies #[trigger] deg@[z] + count_of(lst.subrange(0, t + 1), z) == pending(sources(ns, z), dmp) by {
                lemma_count_push(lst.subrange(0, t as int), y as int, z);
            }
        }
        if d == 0 {
            let ghost old_q = q@;
            let ghost old_wv = wv2;
            proof {
                lemma_queued_prefix(q0, old_q, 0, head as int);
                lemma_pending_zero(sources(ns, y as int), done);
                lemma_queued_union(old_q, head as int);
                assert(!queued(old_q, head as int, old_q.len() as int).contains(y as int));
                assert forall|j: int| 0 <= j < sources(ns, y as int).len() implies #[trigger] placed_below(old_q, old_wv, sources(ns, y as int)[j], w + 1) by {
                    assert(done.contains(sources(ns, y as int)[j]));
                    let k2 = choose|k2: int| 0 <= k2 < head && q0[k2] as int == sources(ns, y as int)[j];
                    assert(old_q[k2] == q0[k2]);
                    assert(old_wv[k2] <= w);
                }
                assert forall|k: int| 0 <= k < old_q.len() implies #[trigger] old_wv[k] <= w + 1 by {
                    if k < wave_end {
                        assert(old_wv[k] <= w);
                    }
                }
                let j0 = choose|j: int| 0 <= j < sources(ns, y as int).len() && sources(ns, y as int)[j] == p as int;
                assert(old_q[head - 1] == q0[head - 1]);
                lemma_order_push(ns, old_q, old_wv, y, w + 1, j0, head - 1);
            }
            q.push(y);
            proof {
                lemma_queued_push(old_q, y, head as int);
                wv2 = old_wv.push(w + 1);
                assert forall|k: int| wave_end <= k < q@.len() implies #[trigger] wv2[k] == w + 1 by {
                    if k < old_q.len() {
                        assert(wv2[k] == old_wv[k]);
                    }
                }
                assert forall|k: int| 0 <= k < wave_end implies #[trigger] wv2[k] <= w by {
                    assert(wv2[k] == old_wv[k]);
                }
                assert(wv2[head - 1] == old_wv[head - 1]);
                assert(q@.subrange(0, q0.len() as int) =~= old_q.subrange(0, q0.len() as int));
                assert(wv2.subrange(0, q0.len() as int) =~= old_wv.subrange(0, q0.len() as int));
                lemma_distinct_bounded(q@, n as int);
            }
        }
        t = t + 1;
    }
    proof {
        assert(lst.subrange(0, lst.len() as int) =~= lst);
        assert forall|y: int| 0 <= y < n implies #[trigger] deg@[y] == pending(sources(ns, y), done) by {
            lemma_dependents_count(ns, p as int, n as int, y);
            lemma_pending_insert(sources(ns, y), dmp, p as int);
        }
        assert forall|k: int| q0.len() <= k < q@.len() implies #[trigger] wv2[k] == w + 1 by {}
    }
    Ghost(wv2)
}

#[verifier::rlimit(40)]
/// Finishing every node of the current wave (queue positions `head` to
/// the current end, all in wave `w`); the nodes they release form wave
/// `w + 1`. Returns where the next wave begins.
fn process_wave(
    q: &mut Vec<usize>,
    deg: &mut Vec<usize>,
    deps: &Vec<Vec<usize>>,
    head: usize,
    Ghost(ns): Ghost<Seq<GraphNode>>,
    Ghost(wv): Ghost<Seq<int>>,
    Ghost(w): Ghost<int>,
) -> (r: (usize, Ghost<Seq<int>>))
    requires
        tables_ok(ns, deps@),
        order_ok(ns, old(q)@, wv),
        head < old(q)@.len() <= ns.len(),
        w >= 0,
        forall|k: int| 0 <= k < head ==> #[trigger] wv[k] < w,
        forall|k: int| head <= k < old(q)@.len() ==> #[trigger] wv[k] == w,
        pending_ok(ns, old(deg)@, queued(old(q)@, 0, head as int)),
        waiting_ok(ns, old(deg)@, queued(old(q)@, 0, head as int), queued(old(q)@, head as int, old(q)@.len() as int)),
    ensures
        r.0 == old(q)@.len(),
        final(q)@.len() >= old(q)@.len(),
        final(q)@.len() <= ns.len(),
        final(q)@.subrange(0, old(q)@.len() as int) == old(q)@,
        r.1@.len() == final(q)@.len(),
        r.1@.subrange(0, old(q)@.len() as int) == wv,
        forall|k: int| old(q)@.len() <= k < final(q)@.len() ==> #[trigger] r.1@[k] == w + 1,
        order_ok(ns, final(q)@, r.1@),
        pending_ok(ns, final(deg)@, queued(final(q)@, 0, r.0 as int)),
        waiting_ok(ns, final(deg)@, queued(final(q)@, 0, r.0 as int), queued(final(q)@, r.0 as int, final(q)@.len() as int)),
{
    let ghost n = ns.len();
    let ghost q0 = q@;
    let wave_end = q.len();
    let mut h = head;
    let ghost mut wv2 = wv;
    proof {
        assert(q@.subrange(0, q0.len() as int) =~= q0);
        assert(wv2.subrange(0, q0.len() as int) =~= wv);
    }
    while h < wave_end
        invariant
            n == ns.len(),
            tables_ok(ns, deps@),
            head <= h <= wave_end,
            wave_end == q0.len(),
            q0.len() <= q@.len() <= n,
            q@.subrange(0, q0.len() as int) == q0,
            order_ok(ns, q@, wv2),
            wv2.len() == q@.len(),
            wv2.subrange(0, q0.len() as int) == wv,
            w >= 0,
            forall|k: int| 0 <= k < head ==> #[trigger] wv[k] < w,
            forall|k: int| head <= k < q0.len() ==> #[trigger] wv[k] == w,
            forall|k: int| wave_end <= k < q@.len() ==> #[trigger] wv2[k] == w + 1,
            pending_ok(ns, deg@, queued(q@, 0, h as int)),
            waiting_ok(ns, deg@, queued(q@, 0, h as int), queued(q@, h as int, q@.len() as int)),
        decreases wave_end - h,
    {
        let p = q[h];
        proof {
            assert(q@.subrange(0, q0.len() as int)[h as int] == q@[h as int]);
            assert(q@[h as int] == q0[h as int]);
            assert(wv2.subrange(0, q0.len() as int)[h as int] == wv2[h as int]);
            assert(wv2[h as int] == wv[h as int]);
            lemma_queued_advance(q@, h as int, q@.len() as int);
            assert forall|k: int| 0 <= k < wave_end implies #[trigger] wv2[k] <= w by {
                assert(wv2.subrange(0, q0.len() as int)[k] == wv2[k]);
                assert(wv2[k] == wv[k]);
            }
            assert(waiting_ok(ns, deg@, queued(q@, 0, h + 1), queued(q@, h + 1, q@.len() as int))) by {
                assert forall|y: int| 0 <= y < n && !queued(q@, 0, h + 1).contains(y) implies #[trigger] queued(q@, h + 1, q@.len() as int).contains(y) == (deg@[y] == 0) by {
                    assert(!queued(q@, 0, h as int).contains(y));
                    assert(queued(q@, h as int, q@.len() as int).contains(y) == (deg@[y] == 0));
                }
            }
        }
        let ghost qa = q@;
        let ghost wva = wv2;
        let Ghost(next) = release_dependents(q, deg, &deps[p], p, h + 1, wave_end, Ghost(ns), Ghost(wv2), Ghost(w));
        proof {
            wv2 = next;
            lemma_queued_prefix(qa, q@, 0, h + 1);
            assert(q@.subrange(0, q0.len() as int) =~= qa.subrange(0, q0.len() as int));
            assert(wv2.subrange(0, q0.len() as int) =~= wva.subrange(0, q0.len() as int));
            assert forall|k: int| wave_end <= k < q@.len() implies #[trigger] wv2[k] == w + 1 by {
                if k < qa.len() {
                    assert(wv2[k] == wva[k]);
                }
            }
        }
        h = h + 1;
    }
    (h, Ghost(wv2))
}

/// Whether queue position `k` lies in the slot of its wave.
pub open spec fn in_wave_slot(bounds: Seq<usize>, wv: Seq<int>, k: int) -> bool {
    &&& 0 <= wv[k]
    &&& wv[k] + 1 < bounds.len()
    &&& bounds[wv[k]] <= k < bounds[wv[k] + 1]
}

/// The launch order of a graph whose dependencies all resolve: the nodes
/// in the order Kahn's algorithm finishes them, the wave of each, and the
/// positions where waves begin (and the end). A node left out waits on
/// another node left out.
fn kahn_order(nodes: &Vec<GraphNode>, deg0: Vec<usize>, deps: &Vec<Vec<usize>>) -> (r: (Vec<usize>, Vec<usize>, Ghost<Seq<int>>))
    requires
        tables_ok(nodes@, deps@),
        deg0@.len() == nodes@.len(),
        forall|x: int| 0 <= x < nodes@.len() ==> #[trigger] deg0@[x] == sources(nodes@, x).len(),
    ensures
        ({
            let (q, bounds, wv) = r;
            &&& order_ok(nodes@, q@, wv@)
            &&& bounds@.len() >= 1
            &&& bounds@[0] == 0
            &&& bounds@[bounds@.len() - 1] == q@.len()
            &&& forall|v: int| 0 <= v < bounds@.len() - 1 ==> #[trigger] bounds@[v] < bounds@[v + 1]
            &&& forall|k: int| 0 <= k < q@.len() ==> #[trigger] in_wave_slot(bounds@, wv@, k)
            &&& forall|x: int| 0 <= x < nodes@.len() && !#[trigger] queued(q@, 0, q@.len() as int).contains(x) ==> exists|j: int|
                0 <= j < sources(nodes@, x).len() && !queued(q@, 0, q@.len() as int).contains(sources(nodes@, x)[j])
        }),
{
    let ghost ns = nodes@;
    let n = nodes.len();
    let mut deg = deg0;
    let mut q: Vec<usize> = Vec::new();
    let ghost mut wv: Seq<int> = Seq::empty();
    let mut x: usize = 0;
    while x < n
        invariant
            n == ns.len(),
            ns == nodes@,
            tables_ok(ns, deps@),
            x <= n,
            deg@.len() == n,
            forall|y: int| 0 <= y < n ==> #[trigger] deg@[y] == sources(ns, y).len(),
            order_ok(ns, q@, wv),
            forall|k: int| 0 <= k < q@.len() ==> wv[k] == 0 && #[trigger] q@[k] < x && deg@[q@[k] as int] == 0,
            forall|y: int| 0 <= y < n ==> #[trigger] queued(q@, 0, q@.len() as int).contains(y) == (y < x && deg@[y] == 0),
        decreases n - x,
    {
        if deg[x] == 0 {
            let ghost old_q = q@;
            proof {
                assert(!queued(q@, 0, q@.len() as int).contains(x as int));
                assert forall|j: int| 0 <= j < sources(ns, x as int).len() implies #[trigger] placed_below(old_q, wv, sources(ns, x as int)[j], 0) by {}
                lemma_order_push(ns, old_q, wv, x, 0, 0, 0);
            }
            q.push(x);
            proof {
                lemma_queued_push(old_q, x, 0);
                let old_wv = wv;
                wv = wv.push(0);
                assert forall|k: int| 0 <= k < q@.len() implies wv[k] == 0 && #[trigger] q@[k] < x + 1 && deg@[q@[k] as int] == 0 by {
                    if k < old_q.len() {
                        assert(q@[k] == old_q[k]);
                        assert(wv[k] == old_wv[k]);
                    }
                }
                assert forall|y: int| 0 <= y < n implies #[trigger] queued(q@, 0, q@.len() as int).contains(y) == (y < x + 1 && deg@[y] == 0) by {
                    if y < x {
                        assert(queued(old_q, 0, old_q.len() as int).contains(y) == (y < x && deg@[y] == 0));
                    }
                }
            }
        } else {
            proof {
                assert forall|y: int| 0 <= y < n implies #[trigger] queued(q@, 0, q@.len() as int).contains(y) == (y < x + 1 && deg@[y] == 0) by {
                    assert(queued(q@, 0, q@.len() as int).contains(y) == (y < x && deg@[y] == 0));
                }
            }
        }
        x = x + 1;
    }
    proof {
        assert(queued(q@, 0, 0) =~= Set::<int>::empty());
        assert forall|y: int| 0 <= y < n implies #[trigger] deg@[y] == pending(sources(ns, y), queued(q@, 0, 0)) by {
            lemma_pending_all(sources(ns, y), queued(q@, 0, 0));
        }
        lemma_distinct_bounded(q@, n as int);
        assert(waiting_ok(ns, deg@, queued(q@, 0, 0), queued(q@, 0, q@.len() as int)));
    }
    let mut head: usize = 0;
    let mut bounds: Vec<usize> = Vec::new();
    bounds.push(0);
    let ghost mut w: int = 0;
    while head < q.len()
        invariant
            n == ns.len(),
            ns == nodes@,
            tables_ok(ns, deps@),
            order_ok(ns, q@, wv),
            head <= q@.len() <= n,
            w >= 0,
            forall|k: int| 0 <= k < head ==> #[trigger] wv[k] < w,
            forall|k: int| head <= k < q@.len() ==> #[trigger] wv[k] == w,
            bounds@.len() == w + 1,
            bounds@[0] == 0,
            bounds@[w] == head,
            forall|v: int| 0 <= v < w ==> #[trigger] bounds@[v] < bounds@[v + 1],
            forall|k: int| 0 <= k < head ==> #[trigger] in_wave_slot(bounds@, wv, k),
            pending_ok(ns, deg@, queued(q@, 0, head as int)),
            waiting_ok(ns, deg@, queued(q@, 0, head as int), queued(q@, head as int, q@.len() as int)),
        decreases n - head,
    {
        let ghost qa = q@;
        let ghost wva = wv;
        let ghost start = head as int;
        let (next_head, Ghost(next_wv)) = process_wave(&mut q, &mut deg, deps, head, Ghost(ns), Ghost(wv), Ghost(w));
        let ghost old_bounds = bounds@;
        bounds.push(next_head);
        proof {
            wv = next_wv;
            assert forall|k: int| 0 <= k < next_head implies #[trigger] wv[k] < w + 1 by {
                assert(wv.subrange(0, qa.len() as int)[k] == wv[k]);
                assert(wv[k] == wva[k]);
            }
            assert forall|k: int| 0 <= k < next_head implies #[trigger] in_wave_slot(bounds@, wv, k) by {
                assert(wv.subrange(0, qa.len() as int)[k] == wv[k]);
                assert(wv[k] == wva[k]);
                assert(q@.subrange(0, qa.len() as int)[k] == q@[k]);
                assert(q@[k] == qa[k]);
                if k >= start {
                    assert(wva[k] == w);
                    assert(wv[k] == w);
                    assert(bounds@[w] == old_bounds[w]);
                    assert(bounds@[w + 1] == next_head);
                } else {
                    assert(in_wave_slot(old_bounds, wva, k));
                    assert(wva[k] < w);
                    assert(bounds@[wv[k]] == old_bounds[wv[k]]);
                    assert(bounds@[wv[k] + 1] == old_bounds[wv[k] + 1]);
                }
            }
            w = w + 1;
        }
        head = next_head;
    }
    proof {
        assert forall|x: int| 0 <= x < n && !#[trigger] queued(q@, 0, q@.len() as int).contains(x) implies exists|j: int|
            0 <= j < sources(ns, x).len() && !queued(q@, 0, q@.len() as int).contains(sources(ns, x)[j]) by {
            assert(!queued(q@, head as int, q@.len() as int).contains(x));
            lemma_pending_zero(sources(ns, x), queued(q@, 0, head as int));
        }
    }
    (q, bounds, Ghost(wv))
}

/// Every entry is pending when nothing is finished.
proof fn lemma_pending_all(s: Seq<int>, done: Set<int>)
    requires
        done == Set::<int>::empty(),
    ensures
        pending(s, done) == s.len(),
    decreases s.len(),
{
    if s.len() > 0 {
        lemma_pending_all(s.drop_last(), done);
    }
}

/// Whether node `s` sits at a queue position of a wave below `w`.
pub open spec fn placed_below(q: Seq<usize>, wv: Seq<int>, s: int, w: int) -> bool {
    exists|k2: int| 0 <= k2 < q.len() && #[trigger] q[k2] as int == s && wv[k2] < w
}

/// Appending a node whose dependencies are all placed in earlier waves
/// keeps a launch order well-shaped.
proof fn lemma_order_push(ns: Seq<GraphNode>, q: Seq<usize>, wv: Seq<int>, y: usize, wy: int, j0: int, k0: int)
    requires
        order_ok(ns, q, wv),
        y < ns.len(),
        !queued(q, 0, q.len() as int).contains(y as int),
        wy >= 0,
        forall|k: int| 0 <= k < q.len() ==> #[trigger] wv[k] <= wy,
        forall|j: int| 0 <= j < sources(ns, y as int).len() ==> #[trigger] placed_below(q, wv, sources(ns, y as int)[j], wy),
        wy > 0 ==> 0 <= j0 < sources(ns, y as int).len() && 0 <= k0 < q.len() && q[k0] as int == sources(ns, y as int)[j0]
            && wv[k0] == wy - 1,
    ensures
        order_ok(ns, q.push(y), wv.push(wy)),
{
    let q2 = q.push(y);
    let w2 = wv.push(wy);
    assert forall|a: int, b: int| 0 <= a < b < q2.len() implies q2[a] != q2[b] by {
        if b == q.len() {
            assert(q2[a] == q[a]);
            assert(queued(q, 0, q.len() as int).contains(q[a] as int));
        } else {
            assert(q[a] != q[b]);
        }
    }
    assert forall|k: int| 0 <= k < q2.len() implies (#[trigger] q2[k]) < ns.len() by {
        if k < q.len() {
            assert(q2[k] == q[k]);
        }
    }
    assert forall|k: int| 0 <= k < q2.len() implies #[trigger] w2[k] >= 0 by {
        if k < q.len() {
            assert(w2[k] == wv[k]);
        }
    }
    assert forall|a: int, b: int| 0 <= a <= b < q2.len() implies #[trigger] w2[a] <= #[trigger] w2[b] by {
        if b < q.len() {
            assert(wv[a] <= wv[b]);
        } else if a < q.len() {
            assert(w2[a] == wv[a]);
        }
    }
    assert forall|k: int, j: int| 0 <= k < q2.len() && 0 <= j < sources(ns, q2[k] as int).len() implies placed_before(
        q2,
        w2,
        k,
        #[trigger] sources(ns, #[trigger] q2[k] as int)[j],
    ) by {
        if k < q.len() {
            assert(q2[k] == q[k]);
            assert(placed_before(q, wv, k, sources(ns, q[k] as int)[j]));
            let k2 = choose|k2: int| 0 <= k2 < q.len() && #[trigger] q[k2] as int == sources(ns, q[k] as int)[j] && wv[k2] < wv[k];
            assert(q2[k2] == q[k2]);
        } else {
            assert(placed_below(q, wv, sources(ns, y as int)[j], wy));
            let k2 = choose|k2: int| 0 <= k2 < q.len() && #[trigger] q[k2] as int == sources(ns, y as int)[j] && wv[k2] < wy;
            assert(q2[k2] == q[k2]);
        }
    }
    assert forall|k: int| 0 <= k < q2.len() && #[trigger] w2[k] > 0 implies waits_on_prev(ns, q2, w2, k) by {
        if k < q.len() {
            assert(q2[k] == q[k]);
            assert(w2[k] == wv[k]);
            assert(waits_on_prev(ns, q, wv, k));
            let (j, k2) = choose|j: int, k2: int|
                #![trigger q[k2], sources(ns, q[k] as int)[j]]
                0 <= j < sources(ns, q[k] as int).len() && 0 <= k2 < q.len() && q[k2] as int == sources(ns, q[k] as int)[j]
                    && wv[k2] == wv[k] - 1;
            assert(q2[k2] == q[k2]);
        } else {
            assert(q2[k0] == q[k0]);
        }
    }
}

/// All queued positions are the finished ones and the waiting ones.
proof fn lemma_queued_union(q: Seq<usize>, h: int)
    requires
        0 <= h <= q.len(),
    ensures
        queued(q, 0, q.len() as int) == queued(q, 0, h) + queued(q, h, q.len() as int),
{
    assert forall|y: int| queued(q, 0, q.len() as int).contains(y) <==> (queued(q, 0, h) + queued(q, h, q.len() as int)).contains(y) by {
        if queued(q, 0, q.len() as int).contains(y) {
            let k = choose|k: int| 0 <= k < q.len() && q[k] as int == y;
            if k < h {
                assert(queued(q, 0, h).contains(y));
            } else {
                assert(queued(q, h, q.len() as int).contains(y));
            }
        }
        if queued(q, 0, h).contains(y) {
            let k = choose|k: int| 0 <= k < h && q[k] as int == y;
        }
        if queued(q, h, q.len() as int).contains(y) {
            let k = choose|k: int| h <= k < q.len() && q[k] as int == y;
        }
    }
    assert(queued(q, 0, q.len() as int) =~= queued(q, 0, h) + queued(q, h, q.len() as int));
}

/// Whether the nodes at `r` are in ascending order of `order`.
pub open spec fn sorted_by_order(ns: Seq<GraphNode>, r: Seq<usize>) -> bool {
    forall|a: int, b: int| 0 <= a < b < r.len() ==> ns[r[a] as int].order <= ns[r[b] as int].order
}

/// Sorts node positions by the nodes' `order`, inserting each behind
/// those of equal order.
fn sort_by_order(nodes: &Vec<GraphNode>, seg: &Vec<usize>) -> (r: Vec<usize>)
    requires
        forall|k: int| 0 <= k < seg@.len() ==> (#[trigger] seg@[k]) < nodes@.len(),
        no_repeats(seg@),
    ensures
        r@.len() == seg@.len(),
        no_repeats(r@),
        forall|y: usize| r@.contains(y) <==> seg@.contains(y),
        sorted_by_order(nodes@, r@),
{
    let mut out: Vec<usize> = Vec::new();
    let mut i: usize = 0;
    while i < seg.len()
        invariant
            i <= seg@.len(),
            forall|k: int| 0 <= k < seg@.len() ==> (#[trigger] seg@[k]) < nodes@.len(),
            no_repeats(seg@),
            out@.len() == i,
            no_repeats(out@),
            forall|y: usize| out@.contains(y) <==> seg@.subrange(0, i as int).contains(y),
            forall|k: int| 0 <= k < out@.len() ==> (#[trigger] out@[k]) < nodes@.len(),
            sorted_by_order(nodes@, out@),
        decreases seg@.len() - i,
    {
        let x = seg[i];
        let key = nodes[x].order;
        let mut pos: usize = out.len();
        while pos > 0 && nodes[out[pos - 1]].order > key
            invariant
                pos <= out@.len(),
                forall|k: int| 0 <= k < out@.len() ==> (#[trigger] out@[k]) < nodes@.len(),
                x < nodes@.len(),
                key == nodes@[x as int].order,
                forall|k: int| pos <= k < out@.len() ==> nodes@[(#[trigger] out@[k]) as int].order > key,
            decreases pos,
        {
            pos = pos - 1;
        }
        let ghost before = out@;
        proof {
            assert(!seg@.subrange(0, i as int).contains(x)) by {
                if seg@.subrange(0, i as int).contains(x) {
                    let k = choose|k: int| 0 <= k < i && #[trigger] seg@.subrange(0, i as int)[k] == x;
                    assert(seg@[k] == seg@[i as int]);
                }
            }
        }
        out.insert(pos, x);
        proof {
            assert(out@ == before.insert(pos as int, x));
            assert forall|a: int, b: int| 0 <= a < b < out@.len() implies out@[a] != out@[b] by {
                if a < pos && b < pos {
                    assert(before[a] != before[b]);
                } else if a < pos && b == pos {
                    assert(before.contains(before[a]));
                } else if a < pos && b > pos {
                    assert(before[a] != before[b - 1]);
                } else if a == pos {
                    assert(before.contains(before[b - 1]));
                } else {
                    assert(before[a - 1] != before[b - 1]);
                }
            }
            assert(seg@.subrange(0, i + 1) =~= seg@.subrange(0, i as int).push(x));
            assert forall|y: usize| out@.contains(y) <==> seg@.subrange(0, i + 1).contains(y) by {
                if out@.contains(y) {
                    let k = choose|k: int| 0 <= k < out@.len() && out@[k] == y;
                    if k < pos {
                        assert(before[k] == y);
                        assert(before.contains(y));
                    } else if k > pos {
                        assert(before[k - 1] == y);
                        assert(before.contains(y));
                    }
                    if y != x {
                        assert(seg@.subrange(0, i as int).contains(y));
                        let k2 = choose|k2: int| 0 <= k2 < i && #[trigger] seg@.subrange(0, i as int)[k2] == y;
                        assert(seg@.subrange(0, i + 1)[k2] == y);
                    } else {
                        assert(seg@.subrange(0, i + 1)[i as int] == y);
                    }
                }
                if seg@.subrange(0, i + 1).contains(y) {
                    let k2 = choose|k2: int| 0 <= k2 < i + 1 && #[trigger] seg@.subrange(0, i + 1)[k2] == y;
                    if k2 < i {
                        assert(seg@.subrange(0, i as int)[k2] == y);
                        assert(seg@.subrange(0, i as int).contains(y));
                        assert(before.contains(y));
                        let k = choose|k: int| 0 <= k < before.len() && before[k] == y;
                        if k < pos {
                            assert(out@[k] == y);
                        } else {
                            assert(out@[k + 1] == y);
                        }
                    } else {
                        assert(out@[pos as int] == y);
                    }
                }
            }
            assert forall|k: int| 0 <= k < out@.len() implies (#[trigger] out@[k]) < nodes@.len() by {
                if k < pos {
                    assert(out@[k] == before[k]);
                } else if k > pos {
                    assert(out@[k] == before[k - 1]);
                }
            }
            assert forall|a: int, b: int| 0 <= a < b < out@.len() implies nodes@[out@[a] as int].order <= nodes@[out@[b] as int].order by {
                if b < pos {
                    assert(nodes@[before[a] as int].order <= nodes@[before[b] as int].order);
                } else if b == pos {
                    if pos > 0 && a < pos - 1 {
                        assert(nodes@[before[a] as int].order <= nodes@[before[pos - 1] as int].order);
                    }
                } else if a < pos {
                    assert(out@[b] == before[b - 1]);
                    if b - 1 > a {
                        assert(nodes@[before[a] as int].order <= nodes@[before[b - 1] as int].order);
                    }
                } else if a == pos {
                    assert(out@[b] == before[b - 1]);
                } else {
                    assert(out@[a] == before[a - 1]);
                    assert(out@[b] == before[b - 1]);
                    assert(nodes@[before[a - 1] as int].order <= nodes@[before[b - 1] as int].order);
                }
            }
        }
        i = i + 1;
    }
    assert(seg@.subrange(0, seg@.len() as int) =~= seg@);
    out
}

/// A copy of a graph node.
fn copy_node(n: &GraphNode) -> (r: GraphNode)
    ensures
        node_view(r) == node_view(*n),
{
    let mut deps: Vec<String> = Vec::new();
    let mut i: usize = 0;
    while i < n.depends_on.len()
        invariant
            i <= n.depends_on@.len(),
            deps@.map_values(|d: String| d@) == n.depends_on@.subrange(0, i as int).map_values(|d: String| d@),
        decreases n.depends_on@.len() - i,
    {
        let ghost before = deps@;
        let c = n.depends_on[i].clone();
        deps.push(c);
        proof {
            assert(deps@ == before.push(c));
            assert(deps@.map_values(|d: String| d@) =~= before.map_values(|d: String| d@).push(c@));
            assert(n.depends_on@.subrange(0, i + 1) =~= n.depends_on@.subrange(0, i as int).push(n.depends_on@[i as int]));
            assert(n.depends_on@.subrange(0, i + 1).map_values(|d: String| d@) =~= n.depends_on@.subrange(0, i as int).map_values(|d: String| d@).push(c@));
        }
        i = i + 1;
    }
    assert(n.depends_on@.subrange(0, n.depends_on@.len() as int) =~= n.depends_on@);
    GraphNode {
        name: n.name.clone(),
        binary: match &n.binary {
            Some(b) => Some(b.clone()),
            None => None,
        },
        order: n.order,
        spawn: n.spawn,
        depends_on: deps,
        by_capability: match &n.by_capability {
            Some(c) => Some(c.clone()),
            None => None,
        },
        port: n.port,
    }
}

/// Whether the output waves hold copies of the nodes that `idx` names.
pub open spec fn waves_match(ns: Seq<GraphNode>, waves: Seq<Vec<GraphNode>>, idx: Seq<Seq<int>>) -> bool {
    &&& waves.len() == idx.len()
    &&& forall|v: int| 0 <= v < idx.len() ==> (#[trigger] waves[v])@.len() == idx[v].len()
    &&& forall|v: int, m: int| 0 <= v < idx.len() && 0 <= m < idx[v].len() ==> node_view(#[trigger] waves[v]@[m]) == node_view(ns[idx[v][m]])
}

/// Distinct queue entries below `n`, `n` of them, are all of `0..n`.
proof fn lemma_queue_covers(q: Seq<usize>, n: int)
    requires
        no_repeats(q),
        q.len() == n,
        forall|k: int| 0 <= k < q.len() ==> (#[trigger] q[k]) < n,
    ensures
        forall|x: int| 0 <= x < n ==> #[trigger] queued(q, 0, n).contains(x),
{
    let s = q.map_values(|v: usize| v as int);
    assert forall|a: int, b: int| 0 <= a < s.len() && 0 <= b < s.len() && a != b implies s[a] != s[b] by {
        if a < b {
            assert(q[a] != q[b]);
        } else {
            assert(q[b] != q[a]);
        }
    }
    s.unique_seq_to_set();
    vstd::set_lib::lemma_int_range(0, n);
    assert(s.to_set().subset_of(vstd::set_lib::set_int_range(0, n)));
    vstd::set_lib::lemma_subset_equality(s.to_set(), vstd::set_lib::set_int_range(0, n));
    assert forall|x: int| 0 <= x < n implies #[trigger] queued(q, 0, n).contains(x) by {
        assert(vstd::set_lib::set_int_range(0, n).contains(x));
        assert(s.to_set().contains(x));
        let k = choose|k: int| 0 <= k < s.len() && s[k] == x;
        assert(q[k] as int == x);
    }
}

/// Wave boundaries never decrease.
proof fn lemma_bounds_monotone(bounds: Seq<usize>, a: int, b: int)
    requires
        forall|v: int| 0 <= v < bounds.len() - 1 ==> #[trigger] bounds[v] < bounds[v + 1],
        0 <= a <= b < bounds.len(),
    ensures
        bounds[a] <= bounds[b],
        a < b ==> bounds[a] < bounds[b],
    decreases b - a,
{
    if a < b {
        lemma_bounds_monotone(bounds, a, b - 1);
        assert(bounds[b - 1] < bounds[b]);
    }
}

/// A queue position lies in the slot of exactly one wave.
proof fn lemma_slot_unique(bounds: Seq<usize>, wv: Seq<int>, k: int, v: int)
    requires
        forall|u: int| 0 <= u < bounds.len() - 1 ==> #[trigger] bounds[u] < bounds[u + 1],
        in_wave_slot(bounds, wv, k),
        0 <= v < bounds.len() - 1,
        bounds[v] <= k < bounds[v + 1],
    ensures
        wv[k] == v,
{
    if v < wv[k] {
        lemma_bounds_monotone(bounds, v + 1, wv[k]);
    } else if v > wv[k] {
        lemma_bounds_monotone(bounds, wv[k] + 1, v);
    }
}

/// The facts about a finished Kahn order and the waves cut from it.
pub open spec fn waves_setup(ns: Seq<GraphNode>, q: Seq<usize>, wv: Seq<int>, bounds: Seq<usize>, idx: Seq<Seq<int>>) -> bool {
    &&& order_ok(ns, q, wv)
    &&& q.len() == ns.len()
    &&& bounds.len() >= 1
    &&& bounds[0] == 0
    &&& bounds[bounds.len() - 1] == q.len()
    &&& forall|v: int| 0 <= v < bounds.len() - 1 ==> #[trigger] bounds[v] < bounds[v + 1]
    &&& forall|k: int| 0 <= k < q.len() ==> #[trigger] in_wave_slot(bounds, wv, k)
    &&& idx.len() == bounds.len() - 1
    &&& forall|v: int| 0 <= v < idx.len() ==> (#[trigger] idx[v]).len() == bounds[v + 1] - bounds[v]
    &&& forall|v: int, a: int, b: int| 0 <= v < idx.len() && 0 <= a < b < idx[v].len() ==> #[trigger] idx[v][a] != #[trigger] idx[v][b]
    &&& forall|v: int, a: int, b: int| 0 <= v < idx.len() && 0 <= a < b < idx[v].len() ==> ns[(#[trigger] idx[v][a])].order <= ns[(#[trigger] idx[v][b])].order
    &&& forall|v: int, y: int| 0 <= v < idx.len() ==> (#[trigger] idx[v].contains(y) <==> queued(q, bounds[v] as int, bounds[v + 1] as int).contains(y))
}

/// A node of wave `w` sits at a queue position of that wave's slot.
proof fn lemma_member_position(ns: Seq<GraphNode>, q: Seq<usize>, wv: Seq<int>, bounds: Seq<usize>, idx: Seq<Seq<int>>, w: int, m: int) -> (k: int)
    requires
        waves_setup(ns, q, wv, bounds, idx),
        0 <= w < idx.len(),
        0 <= m < idx[w].len(),
    ensures
        0 <= k < q.len(),
        q[k] as int == idx[w][m],
        wv[k] == w,
{
    let x = idx[w][m];
    assert(idx[w].contains(x));
    assert(queued(q, bounds[w] as int, bounds[w + 1] as int).contains(x));
    let k = choose|k: int| bounds[w] <= k < bounds[w + 1] && q[k] as int == x;
    lemma_bounds_monotone(bounds, w + 1, bounds.len() - 1);
    assert(in_wave_slot(bounds, wv, k));
    lemma_slot_unique(bounds, wv, k, w);
    k
}

/// The node at queue position `k` is in the wave `wv[k]`.
proof fn lemma_position_member(ns: Seq<GraphNode>, q: Seq<usize>, wv: Seq<int>, bounds: Seq<usize>, idx: Seq<Seq<int>>, k: int) -> (m: int)
    requires
        waves_setup(ns, q, wv, bounds, idx),
        0 <= k < q.len(),
    ensures
        0 <= wv[k] < idx.len(),
        0 <= m < idx[wv[k]].len(),
        idx[wv[k]][m] == q[k] as int,
{
    assert(in_wave_slot(bounds, wv, k));
    let v = wv[k];
    assert(queued(q, bounds[v] as int, bounds[v + 1] as int).contains(q[k] as int));
    assert(idx[v].contains(q[k] as int));
    choose|m: int| 0 <= m < idx[v].len() && #[trigger] idx[v][m] == q[k] as int
}

/// Each node sits in exactly one place of the waves.
proof fn lemma_waves_unique(ns: Seq<GraphNode>, q: Seq<usize>, wv: Seq<int>, bounds: Seq<usize>, idx: Seq<Seq<int>>)
    requires
        waves_setup(ns, q, wv, bounds, idx),
    ensures
        forall|w1: int, m1: int, w2: int, m2: int|
            0 <= w1 < idx.len() && 0 <= m1 < idx[w1].len() && 0 <= w2 < idx.len() && 0 <= m2 < idx[w2].len() && #[trigger] idx[w1][m1]
                == #[trigger] idx[w2][m2] ==> w1 == w2 && m1 == m2,
{
    assert forall|w1: int, m1: int, w2: int, m2: int|
        0 <= w1 < idx.len() && 0 <= m1 < idx[w1].len() && 0 <= w2 < idx.len() && 0 <= m2 < idx[w2].len() && #[trigger] idx[w1][m1]
            == #[trigger] idx[w2][m2] implies w1 == w2 && m1 == m2 by {
        let k1 = lemma_member_position(ns, q, wv, bounds, idx, w1, m1);
        let k2 = lemma_member_position(ns, q, wv, bounds, idx, w2, m2);
        if k1 != k2 {
            if k1 < k2 {
                assert(q[k1] != q[k2]);
            } else {
                assert(q[k2] != q[k1]);
            }
        }
        if m1 < m2 {
            assert(idx[w1][m1] != idx[w1][m2]);
        } else if m2 < m1 {
            assert(idx[w1][m2] != idx[w1][m1]);
        }
    }
}

/// Every dependency of a wave's node is in an earlier wave.
proof fn lemma_waves_deps(ns: Seq<GraphNode>, q: Seq<usize>, wv: Seq<int>, bounds: Seq<usize>, idx: Seq<Seq<int>>)
    requires
        waves_setup(ns, q, wv, bounds, idx),
    ensures
        forall|w: int, m: int, j: int| 0 <= w < idx.len() && 0 <= m < idx[w].len() && 0 <= j < sources(ns, idx[w][m]).len() ==>
            in_wave_before(idx, w, #[trigger] sources(ns, #[trigger] idx[w][m])[j]),
{
    assert forall|w: int, m: int, j: int| 0 <= w < idx.len() && 0 <= m < idx[w].len() && 0 <= j < sources(ns, idx[w][m]).len() implies
        in_wave_before(idx, w, #[trigger] sources(ns, #[trigger] idx[w][m])[j]) by {
        let k = lemma_member_position(ns, q, wv, bounds, idx, w, m);
        assert(placed_before(q, wv, k, sources(ns, q[k] as int)[j]));
        let k2 = choose|k2: int| 0 <= k2 < q.len() && #[trigger] q[k2] as int == sources(ns, q[k] as int)[j] && wv[k2] < wv[k];
        let m2 = lemma_position_member(ns, q, wv, bounds, idx, k2);
        assert(idx[wv[k2]][m2] == sources(ns, idx[w][m])[j]);
    }
}

/// Every node past the first wave depends on a node of the wave before.
proof fn lemma_waves_chain(ns: Seq<GraphNode>, q: Seq<usize>, wv: Seq<int>, bounds: Seq<usize>, idx: Seq<Seq<int>>)
    requires
        waves_setup(ns, q, wv, bounds, idx),
    ensures
        forall|w: int, m: int| 0 < w < idx.len() && 0 <= m < idx[w].len() ==> depends_on_wave(ns, idx, w - 1, #[trigger] idx[w][m]),
{
    assert forall|w: int, m: int| 0 < w < idx.len() && 0 <= m < idx[w].len() implies depends_on_wave(ns, idx, w - 1, #[trigger] idx[w][m]) by {
        let x = idx[w][m];
        let k = lemma_member_position(ns, q, wv, bounds, idx, w, m);
        assert(waits_on_prev(ns, q, wv, k));
        let (j, k2) = choose|j: int, k2: int|
            #![trigger q[k2], sources(ns, q[k] as int)[j]]
            0 <= j < sources(ns, q[k] as int).len() && 0 <= k2 < q.len() && q[k2] as int == sources(ns, q[k] as int)[j]
                && wv[k2] == wv[k] - 1;
        let m2 = lemma_position_member(ns, q, wv, bounds, idx, k2);
        assert(idx[w - 1][m2] == sources(ns, x)[j]);
    }
}

/// The sorted slots of a finished Kahn order are valid launch waves.
proof fn lemma_waves_valid(ns: Seq<GraphNode>, q: Seq<usize>, wv: Seq<int>, bounds: Seq<usize>, idx: Seq<Seq<int>>)
    requires
        waves_setup(ns, q, wv, bounds, idx),
    ensures
        valid_waves(ns, idx),
{
    let n = ns.len() as int;
    lemma_queue_covers(q, n);
    assert forall|w: int, m: int| 0 <= w < idx.len() && 0 <= m < idx[w].len() implies 0 <= #[trigger] idx[w][m] < ns.len() by {
        let k = lemma_member_position(ns, q, wv, bounds, idx, w, m);
    }
    assert forall|x: int| 0 <= x < ns.len() implies #[trigger] in_some_wave(idx, x) by {
        assert(queued(q, 0, n).contains(x));
        let k = choose|k: int| 0 <= k < n && q[k] as int == x;
        let m = lemma_position_member(ns, q, wv, bounds, idx, k);
        assert(idx[wv[k]][m] == x);
    }
    lemma_waves_unique(ns, q, wv, bounds, idx);
    assert forall|w: int| 0 <= w < idx.len() implies (#[trigger] idx[w]).len() > 0 by {
        assert(bounds[w] < bounds[w + 1]);
    }
    lemma_waves_deps(ns, q, wv, bounds, idx);
    lemma_waves_chain(ns, q, wv, bounds, idx);
}

/// The error a graph with a dependency cycle gets.
pub open spec fn cycle_error() -> Seq<char> {
    "deploy graph contains a dependency cycle"@
}

/// One wave: copies of the nodes at queue positions `lo..hi`, sorted by
/// `order`, and the node positions they came from.
fn build_wave(nodes: &Vec<GraphNode>, q: &Vec<usize>, lo: usize, hi: usize) -> (r: (Vec<GraphNode>, Ghost<Seq<int>>))
    requires
        lo <= hi <= q@.len(),
        no_repeats(q@),
        forall|k: int| 0 <= k < q@.len() ==> (#[trigger] q@[k]) < nodes@.len(),
    ensures
        ({
            let (wave, ix) = r;
            &&& ix@.len() == hi - lo
            &&& wave@.len() == ix@.len()
            &&& forall|a: int, b: int| 0 <= a < b < ix@.len() ==> #[trigger] ix@[a] != #[trigger] ix@[b]
            &&& forall|a: int, b: int| 0 <= a < b < ix@.len() ==> nodes@[(#[trigger] ix@[a])].order <= nodes@[(#[trigger] ix@[b])].order
            &&& forall|y: int| #[trigger] ix@.contains(y) <==> queued(q@, lo as int, hi as int).contains(y)
            &&& forall|m: int| 0 <= m < ix@.len() ==> 0 <= #[trigger] ix@[m] < nodes@.len() && node_view(wave@[m]) == node_view(nodes@[ix@[m]])
        }),
{
    let mut seg: Vec<usize> = Vec::new();
    let mut k: usize = lo;
    while k < hi
        invariant
            lo <= k <= hi <= q@.len(),
            seg@ == q@.subrange(lo as int, k as int),
        decreases hi - k,
    {
        seg.push(q[k]);
        k = k + 1;
    }
    assert forall|a: int, b: int| 0 <= a < b < seg@.len() implies seg@[a] != seg@[b] by {
        assert(q@[lo + a] != q@[lo + b]);
    }
    let sorted = sort_by_order(nodes, &seg);
    let ghost ix = sorted@.map_values(|v: usize| v as int);
    let mut wave: Vec<GraphNode> = Vec::new();
    let mut i: usize = 0;
    while i < sorted.len()
        invariant
            i <= sorted@.len(),
            sorted@.len() == seg@.len(),
            forall|m: int| 0 <= m < seg@.len() ==> (#[trigger] seg@[m]) < nodes@.len(),
            forall|y: usize| sorted@.contains(y) <==> seg@.contains(y),
            wave@.len() == i,
            forall|m: int| 0 <= m < i ==> node_view(#[trigger] wave@[m]) == node_view(nodes@[sorted@[m] as int]),
        decreases sorted@.len() - i,
    {
        assert(sorted@.contains(sorted@[i as int]));
        let ghost y = sorted@[i as int];
        let ghost m0 = choose|m: int| 0 <= m < seg@.len() && seg@[m] == y;
        assert(seg@[m0] < nodes@.len());
        wave.push(copy_node(&nodes[sorted[i]]));
        i = i + 1;
    }
    proof {
        assert forall|m: int| 0 <= m < ix.len() implies 0 <= #[trigger] ix[m] < nodes@.len() && node_view(wave@[m]) == node_view(nodes@[ix[m]]) by {
            assert(sorted@.contains(sorted@[m]));
            let m0 = choose|m0: int| 0 <= m0 < seg@.len() && seg@[m0] == sorted@[m];
            assert(seg@[m0] < nodes@.len());
        }
        assert forall|a: int, b: int| 0 <= a < b < ix.len() implies #[trigger] ix[a] != #[trigger] ix[b] by {
            assert(sorted@[a] != sorted@[b]);
        }
        assert forall|y: int| #[trigger] ix.contains(y) <==> queued(q@, lo as int, hi as int).contains(y) by {
            if ix.contains(y) {
                let m = choose|m: int| 0 <= m < ix.len() && ix[m] == y;
                assert(sorted@.contains(sorted@[m]));
                let m0 = choose|m0: int| 0 <= m0 < seg@.len() && seg@[m0] == sorted@[m];
                assert(q@[lo + m0] as int == y);
            }
            if queued(q@, lo as int, hi as int).contains(y) {
                let k0 = choose|k0: int| lo <= k0 < hi && q@[k0] as int == y;
                let u = q@[k0];
                assert(seg@[k0 - lo] == u);
                assert(seg@.contains(u));
                assert(sorted@.contains(u));
                let m = choose|m: int| 0 <= m < sorted@.len() && sorted@[m] == u;
                assert(ix[m] == y);
            }
        }
    }
    (wave, Ghost(ix))
}

/// A Kahn order that leaves nodes out leaves a stuck set of them.
proof fn lemma_short_order_stuck(ns: Seq<GraphNode>, q: Seq<usize>)
    requires
        all_resolved(ns),
        no_repeats(q),
        q.len() != ns.len(),
        forall|k: int| 0 <= k < q.len() ==> (#[trigger] q[k]) < ns.len(),
        forall|x: int| 0 <= x < ns.len() && !#[trigger] queued(q, 0, q.len() as int).contains(x) ==> exists|j: int|
            0 <= j < sources(ns, x).len() && !queued(q, 0, q.len() as int).contains(sources(ns, x)[j]),
    ensures
        exists|stuck: Set<int>| stuck_set(ns, stuck),
{
    let n = ns.len() as int;
    let inq = queued(q, 0, q.len() as int);
    lemma_distinct_bounded(q, n);
    let stuck = Set::new(|x: int| 0 <= x < n && !inq.contains(x));
    if forall|x: int| 0 <= x < n ==> inq.contains(x) {
        let s = q.map_values(|v: usize| v as int);
        assert forall|a: int, b: int| 0 <= a < s.len() && 0 <= b < s.len() && a != b implies s[a] != s[b] by {
            if a < b {
                assert(q[a] != q[b]);
            } else {
                assert(q[b] != q[a]);
            }
        }
        s.unique_seq_to_set();
        vstd::set_lib::lemma_int_range(0, n);
        assert forall|x: int| vstd::set_lib::set_int_range(0, n).contains(x) implies s.to_set().contains(x) by {
            assert(inq.contains(x));
            let k = choose|k: int| 0 <= k < q.len() && q[k] as int == x;
            assert(s[k] == x);
        }
        vstd::set_lib::lemma_len_subset(vstd::set_lib::set_int_range(0, n), s.to_set());
        assert(false);
    }
    let x0 = choose|x: int| 0 <= x < n && !inq.contains(x);
    assert(stuck.contains(x0));
    assert forall|x: int| #[trigger] stuck.contains(x) implies 0 <= x < ns.len() && exists|j: int|
        0 <= j < sources(ns, x).len() && stuck.contains(sources(ns, x)[j]) by {
        assert(!queued(q, 0, q.len() as int).contains(x));
        let j = choose|j: int| 0 <= j < sources(ns, x).len() && !inq.contains(sources(ns, x)[j]);
        lemma_sources_in_range(ns, x, j);
        assert(stuck.contains(sources(ns, x)[j]));
    }
    assert(stuck_set(ns, stuck));
}

/// The waves of a complete Kahn order: the slots between consecutive
/// boundaries, each built by `build_wave`.
fn cut_waves(nodes: &Vec<GraphNode>, q: &Vec<usize>, bounds: &Vec<usize>, wv: Ghost<Seq<int>>) -> (r: (Vec<Vec<GraphNode>>, Ghost<Seq<Seq<int>>>))
    requires
        order_ok(nodes@, q@, wv@),
        q@.len() == nodes@.len(),
        bounds@.len() >= 1,
        bounds@[0] == 0,
        bounds@[bounds@.len() - 1] == q@.len(),
        forall|u: int| 0 <= u < bounds@.len() - 1 ==> #[trigger] bounds@[u] < bounds@[u + 1],
        forall|k: int| 0 <= k < q@.len() ==> #[trigger] in_wave_slot(bounds@, wv@, k),
    ensures
        waves_setup(nodes@, q@, wv@, bounds@, r.1@),
        waves_match(nodes@, r.0@, r.1@),
{
    let ghost ns = nodes@;
    let ghost wv = wv@;
    let mut waves: Vec<Vec<GraphNode>> = Vec::new();
    let ghost mut idx: Seq<Seq<int>> = Seq::empty();
    let mut v: usize = 0;
    while v < bounds.len() - 1
        invariant
            ns == nodes@,
            order_ok(ns, q@, wv),
            q@.len() == ns.len(),
            bounds@.len() >= 1,
            bounds@[0] == 0,
            bounds@[bounds@.len() - 1] == q@.len(),
            forall|u: int| 0 <= u < bounds@.len() - 1 ==> #[trigger] bounds@[u] < bounds@[u + 1],
            forall|k: int| 0 <= k < q@.len() ==> #[trigger] in_wave_slot(bounds@, wv, k),
            v < bounds@.len(),
            idx.len() == v,
            waves@.len() == v,
            forall|u: int| 0 <= u < idx.len() ==> (#[trigger] idx[u]).len() == bounds@[u + 1] - bounds@[u],
            forall|u: int, a: int, b: int| 0 <= u < idx.len() && 0 <= a < b < idx[u].len() ==> #[trigger] idx[u][a] != #[trigger] idx[u][b],
            forall|u: int, a: int, b: int| 0 <= u < idx.len() && 0 <= a < b < idx[u].len() ==> ns[(#[trigger] idx[u][a])].order <= ns[(#[trigger] idx[u][b])].order,
            forall|u: int, y: int| 0 <= u < idx.len() ==> (#[trigger] idx[u].contains(y) <==> queued(q@, bounds@[u] as int, bounds@[u + 1] as int).contains(y)),
            forall|u: int| 0 <= u < idx.len() ==> (#[trigger] waves@[u])@.len() == idx[u].len(),
            forall|u: int, m: int| 0 <= u < idx.len() && 0 <= m < idx[u].len() ==> node_view(#[trigger] waves@[u]@[m]) == node_view(ns[idx[u][m]]),
        decreases bounds@.len() - v,
    {
        proof {
            lemma_bounds_monotone(bounds@, v as int, v + 1);
            lemma_bounds_monotone(bounds@, v + 1, bounds@.len() - 1);
        }
        let (wave, Ghost(ix)) = build_wave(nodes, &q, bounds[v], bounds[v + 1]);
        proof {
            idx = idx.push(ix);
        }
        waves.push(wave);
        v = v + 1;
    }
    proof {
        assert(waves_setup(ns, q@, wv, bounds@, idx));
        assert(waves_match(ns, waves@, idx));
    }
    (waves, Ghost(idx))
}

/// Launch waves from a deploy graph's dependencies: each wave holds the
/// nodes whose dependencies all started in earlier waves, sorted by
/// `order`. A dependency that names no node, or a cycle, is an error.
pub fn topological_waves(graph: &DeployGraph) -> (r: Result<Vec<Vec<GraphNode>>, String>)
    ensures
        graph.graph.node@.len() == 0 ==> r is Ok && r->Ok_0@.len() == 0,
        match first_broken(graph.graph.node@, graph.graph.node@.len() as int) {
            Some(i) => r is Err && r->Err_0@ == missing_dep_error(graph.graph.node@, i),
            None => match r {
                Ok(waves) => exists|idx: Seq<Seq<int>>| valid_waves(graph.graph.node@, idx) && waves_match(graph.graph.node@, waves@, idx),
                Err(e) => e@ == cycle_error() && exists|stuck: Set<int>| stuck_set(graph.graph.node@, stuck),
            },
        },
{
    let nodes = &graph.graph.node;
    let ghost ns = nodes@;
    if nodes.len() == 0 {
        let waves: Vec<Vec<GraphNode>> = Vec::new();
        proof {
            let idx: Seq<Seq<int>> = Seq::empty();
            assert(valid_waves(ns, idx));
            assert(waves_match(ns, waves@, idx));
        }
        return Ok(waves);
    }
    let (deg, deps) = match dependency_tables(nodes) {
        Ok(t) => t,
        Err(e) => {
            return Err(e);
        },
    };
    let (q, bounds, Ghost(wv)) = kahn_order(nodes, deg, &deps);
    proof {
        assert forall|k: int| 0 <= k < q@.len() implies (#[trigger] q@[k]) < ns.len() by {}
        lemma_distinct_bounded(q@, ns.len() as int);
    }
    if q.len() != nodes.len() {
        proof {
            lemma_short_order_stuck(ns, q@);
        }
        return Err(String::from_str("deploy graph contains a dependency cycle"));
    }
    let (waves, Ghost(idx)) = cut_waves(nodes, &q, &bounds, Ghost(wv));
    proof {
        lemma_waves_valid(ns, q@, wv, bounds@, idx);
    }
    Ok(waves)
}

/// No node of a stuck set sits in the first `w` waves.
proof fn lemma_stuck_above(ns: Seq<GraphNode>, idx: Seq<Seq<int>>, stuck: Set<int>, w: int)
    requires
        valid_waves(ns, idx),
        stuck_set(ns, stuck),
        0 <= w <= idx.len(),
    ensures
        forall|u: int, m: int| 0 <= u < w && 0 <= m < idx[u].len() ==> !stuck.contains(#[trigger] idx[u][m]),
    decreases w,
{
    if w > 0 {
        lemma_stuck_above(ns, idx, stuck, w - 1);
        assert forall|u: int, m: int| 0 <= u < w && 0 <= m < idx[u].len() implies !stuck.contains(#[trigger] idx[u][m]) by {
            if u == w - 1 && stuck.contains(idx[u][m]) {
                let x = idx[u][m];
                let j = choose|j: int| 0 <= j < sources(ns, x).len() && stuck.contains(sources(ns, x)[j]);
                assert(in_wave_before(idx, u, sources(ns, idx[u][m])[j]));
                let (w2, m2) = choose|w2: int, m2: int| 0 <= w2 < u && 0 <= m2 < idx[w2].len() && #[trigger] idx[w2][m2] == sources(ns, x)[j];
                assert(!stuck.contains(idx[w2][m2]));
            }
        }
    }
}

/// Every dependency of a wave's node is in an earlier wave.
#[verifier::opaque]
spec fn deps_before(ns: Seq<GraphNode>, idx: Seq<Seq<int>>) -> bool {
    forall|w: int, m: int, j: int| 0 <= w < idx.len() && 0 <= m < idx[w].len() && 0 <= j < sources(ns, idx[w][m]).len() ==>
        in_wave_before(idx, w, #[trigger] sources(ns, #[trigger] idx[w][m])[j])
}

/// Every node past the first wave depends on a node of the wave before.
#[verifier::opaque]
spec fn chained(ns: Seq<GraphNode>, idx: Seq<Seq<int>>) -> bool {
    forall|w: int, m: int| 0 < w < idx.len() && 0 <= m < idx[w].len() ==> depends_on_wave(ns, idx, w - 1, #[trigger] idx[w][m])
}

/// The wave a node after the first sits in is one past a wave of a node
/// it depends on, which sits in an earlier wave of any other valid waves.
proof fn lemma_wave_step(ns: Seq<GraphNode>, a: Seq<Seq<int>>, b: Seq<Seq<int>>, wa: int, ma: int, wb: int, mb: int) -> (r: (int, int, int))
    requires
        deps_before(ns, a),
        chained(ns, b),
        0 <= wa < a.len(),
        0 <= ma < a[wa].len(),
        0 < wb < b.len(),
        0 <= mb < b[wb].len(),
        a[wa][ma] == b[wb][mb],
    ensures
        0 <= r.0 < wa,
        0 <= r.1 < a[r.0].len(),
        0 <= r.2 < b[wb - 1].len(),
        a[r.0][r.1] == b[wb - 1][r.2],
{
    let x = b[wb][mb];
    assert(depends_on_wave(ns, b, wb - 1, b[wb][mb])) by {
        reveal(chained);
    }
    let (j, m2) = choose|j: int, m2: int|
        #![trigger b[wb - 1][m2], sources(ns, x)[j]]
        0 <= j < sources(ns, x).len() && 0 <= m2 < b[wb - 1].len() && b[wb - 1][m2] == sources(ns, x)[j];
    let y = sources(ns, x)[j];
    assert(in_wave_before(a, wa, sources(ns, a[wa][ma])[j])) by {
        reveal(deps_before);
    }
    let (w2, n2) = choose|w2: int, n2: int| 0 <= w2 < wa && 0 <= n2 < a[w2].len() && #[trigger] a[w2][n2] == y;
    (w2, n2, m2)
}

/// A node sits in the same wave of any two valid launch waves.
proof fn lemma_same_wave(ns: Seq<GraphNode>, a: Seq<Seq<int>>, b: Seq<Seq<int>>, wa: int, ma: int, wb: int, mb: int)
    requires
        deps_before(ns, a),
        chained(ns, a),
        deps_before(ns, b),
        chained(ns, b),
        0 <= wa < a.len(),
        0 <= ma < a[wa].len(),
        0 <= wb < b.len(),
        0 <= mb < b[wb].len(),
        a[wa][ma] == b[wb][mb],
    ensures
        wa == wb,
    decreases wa + wb,
{
    if wa < wb {
        let (w2, n2, m2) = lemma_wave_step(ns, a, b, wa, ma, wb, mb);
        lemma_same_wave(ns, a, b, w2, n2, wb - 1, m2);
    } else if wb < wa {
        let (w2, n2, m2) = lemma_wave_step(ns, b, a, wb, mb, wa, ma);
        lemma_same_wave(ns, a, b, wa - 1, m2, w2, n2);
    }
}

/// Launch waves are determined by the graph: any two valid launch waves
/// for the same nodes have as many waves, and put each node in the same
/// wave. (Within a wave only nodes of equal `order` may come in another
/// order.)
pub proof fn law_waves_determined(ns: Seq<GraphNode>, a: Seq<Seq<int>>, b: Seq<Seq<int>>)
    requires
        valid_waves(ns, a),
        valid_waves(ns, b),
    ensures
        a.len() == b.len(),
        forall|wa: int, ma: int, wb: int, mb: int|
            0 <= wa < a.len() && 0 <= ma < a[wa].len() && 0 <= wb < b.len() && 0 <= mb < b[wb].len()
                && #[trigger] a[wa][ma] == #[trigger] b[wb][mb] ==> wa == wb,
{
    assert(deps_before(ns, a) && chained(ns, a) && deps_before(ns, b) && chained(ns, b)) by {
        reveal(deps_before);
        reveal(chained);
    }
    assert forall|wa: int, ma: int, wb: int, mb: int|
        0 <= wa < a.len() && 0 <= ma < a[wa].len() && 0 <= wb < b.len() && 0 <= mb < b[wb].len()
            && #[trigger] a[wa][ma] == #[trigger] b[wb][mb] implies wa == wb by {
        lemma_same_wave(ns, a, b, wa, ma, wb, mb);
    }
    if a.len() > 0 {
        let x = a[a.len() - 1][0];
        assert(0 <= x < ns.len());
        assert(in_some_wave(b, x));
        let (wb, mb) = choose|wb: int, mb: int| 0 <= wb < b.len() && 0 <= mb < b[wb].len() && #[trigger] b[wb][mb] == x;
        lemma_same_wave(ns, a, b, a.len() - 1, 0, wb, mb);
    }
    if b.len() > 0 {
        let x = b[b.len() - 1][0];
        assert(0 <= x < ns.len());
        assert(in_some_wave(a, x));
        let (wa, ma) = choose|wa: int, ma: int| 0 <= wa < a.len() && 0 <= ma < a[wa].len() && #[trigger] a[wa][ma] == x;
        lemma_same_wave(ns, a, b, wa, ma, b.len() - 1, 0);
    }
}

/// A graph with valid launch waves has no stuck set: no non-empty set of
/// its nodes in which every node waits on another node of the set. So a
/// graph gets waves exactly when it has no dependency cycle.
pub proof fn law_waves_exclude_stuck(ns: Seq<GraphNode>, idx: Seq<Seq<int>>, stuck: Set<int>)
    requires
        valid_waves(ns, idx),
    ensures
        !stuck_set(ns, stuck),
{
    if stuck_set(ns, stuck) {
        lemma_stuck_above(ns, idx, stuck, idx.len() as int);
        let x = choose|x: int| stuck.contains(x);
        assert(in_some_wave(idx, x));
        let (w, m) = choose|w: int, m: int| 0 <= w < idx.len() && 0 <= m < idx[w].len() && #[trigger] idx[w][m] == x;
        assert(!stuck.contains(idx[w][m]));
    }
}

/// The first launch port for nodes without a `port`, read from its
/// setting: a `u16`, else 9401.
pub fn port_base(setting: Option<&str>) -> (r: u16)
    ensures
        r == crate::ipc::resilience::setting_or(setting, u16::MAX as nat, 9401),
{
    let v = crate::ipc::resilience::read_setting(setting, u16::MAX as u64, 9401);
    v as u16
}

/// How long to wait for a spawned primal to accept connections, in
/// seconds, read from its setting: a `u64`, else 10.
pub fn readiness_timeout_secs(setting: Option<&str>) -> (r: u64)
    ensures
        r == crate::ipc::resilience::setting_or(setting, u64::MAX as nat, 10),
{
    crate::ipc::resilience::read_setting(setting, u64::MAX, 10)
}

/// One primal to start: its name, its TCP port and its capability domain.
#[derive(Debug, Clone)]
pub struct SpawnRequest {
    /// Primal name.
    pub name: String,
    /// TCP port to listen on.
    pub port: u16,
    /// Capability domain it provides.
    pub domain: String,
}

/// The nodes of the waves, wave after wave.
pub open spec fn flatten_waves(waves: Seq<Vec<GraphNode>>) -> Seq<GraphNode>
    decreases waves.len(),
{
    if waves.len() == 0 {
        Seq::empty()
    } else {
        flatten_waves(waves.drop_last()) + waves.last()@
    }
}

/// How many of the nodes are spawned without a port of their own.
pub open spec fn auto_ports(ns: Seq<GraphNode>) -> nat
    decreases ns.len(),
{
    if ns.len() == 0 {
        0
    } else {
        auto_ports(ns.drop_last()) + if ns.last().spawn && ns.last().port is None {
            1nat
        } else {
            0nat
        }
    }
}

/// What to start for the nodes, in order: each node with `spawn` set, on
/// its own port or else on the next free one counting up from `base`,
/// for its capability domain or else its own name.
pub open spec fn plan_of(ns: Seq<GraphNode>, base: nat) -> Seq<(Seq<char>, nat, Seq<char>)>
    decreases ns.len(),
{
    if ns.len() == 0 {
        Seq::empty()
    } else {
        let n = ns.last();
        let rest = plan_of(ns.drop_last(), base);
        if n.spawn {
            let port: nat = match n.port {
                Some(p) => p as nat,
                None => base + auto_ports(ns.drop_last()),
            };
            let domain = match n.by_capability {
                Some(c) => c@,
                None => n.name@,
            };
            rest.push((n.name@, port, domain))
        } else {
            rest
        }
    }
}

/// The mathematical content of a spawn request.
pub open spec fn request_view(r: SpawnRequest) -> (Seq<char>, nat, Seq<char>) {
    (r.name@, r.port as nat, r.domain@)
}

/// The primals to start for launch waves, in launch order: every node with
/// `spawn` set, on its own port or else on the next port counting up from
/// `base`.
pub fn spawn_plan(waves: &Vec<Vec<GraphNode>>, base: u16) -> (r: Vec<SpawnRequest>)
    requires
        base + auto_ports(flatten_waves(waves@)) <= u16::MAX,
    ensures
        r@.map_values(|q: SpawnRequest| request_view(q)) == plan_of(flatten_waves(waves@), base as nat),
{
    let mut out: Vec<SpawnRequest> = Vec::new();
    let mut next: u16 = base;
    let mut i: usize = 0;
    proof {
        lemma_auto_ports_prefix(flatten_waves(waves@), 0);
    }
    while i < waves.len()
        invariant
            i <= waves@.len(),
            base + auto_ports(flatten_waves(waves@)) <= u16::MAX,
            auto_ports(flatten_waves(waves@.subrange(0, i as int))) <= auto_ports(flatten_waves(waves@)),
            next == base + auto_ports(flatten_waves(waves@.subrange(0, i as int))),
            out@.map_values(|q: SpawnRequest| request_view(q)) == plan_of(flatten_waves(waves@.subrange(0, i as int)), base as nat),
        decreases waves@.len() - i,
    {
        let ghost done = flatten_waves(waves@.subrange(0, i as int));
        let wave = &waves[i];
        proof {
            assert(waves@.subrange(0, i + 1).drop_last() =~= waves@.subrange(0, i as int));
            assert(flatten_waves(waves@.subrange(0, i + 1)) == done + wave@);
            lemma_flatten_prefix(waves@, i + 1);
            lemma_auto_ports_prefix(flatten_waves(waves@), (done + wave@).len() as int);
            assert(flatten_waves(waves@).subrange(0, (done + wave@).len() as int) =~= done + wave@);
            assert(done + wave@.subrange(0, 0) =~= done);
        }
        let mut j: usize = 0;
        while j < wave.len()
            invariant
                j <= wave@.len(),
                wave == waves@[i as int],
                base + auto_ports(done + wave@) <= u16::MAX,
                next == base + auto_ports(done + wave@.subrange(0, j as int)),
                out@.map_values(|q: SpawnRequest| request_view(q)) == plan_of(done + wave@.subrange(0, j as int), base as nat),
            decreases wave@.len() - j,
        {
            let ghost pre = done + wave@.subrange(0, j as int);
            let ghost cur = done + wave@.subrange(0, j + 1);
            proof {
                assert(cur.drop_last() =~= pre);
                assert(cur.last() == wave@[j as int]);
                lemma_auto_ports_prefix(done + wave@, cur.len() as int);
                assert((done + wave@).subrange(0, cur.len() as int) =~= cur);
            }
            let node = &wave[j];
            if node.spawn {
                let port = match node.port {
                    Some(p) => p,
                    None => {
                        let p = next;
                        next = next + 1;
                        p
                    },
                };
                let domain = match &node.by_capability {
                    Some(c) => c.clone(),
                    None => node.name.clone(),
                };
                let req = SpawnRequest { name: node.name.clone(), port, domain };
                let ghost before = out@;
                out.push(req);
                proof {
                    assert(out@.map_values(|q: SpawnRequest| request_view(q)) =~= before.map_values(|q: SpawnRequest| request_view(q)).push(request_view(req)));
                }
            }
            j = j + 1;
        }
        proof {
            assert(wave@.subrange(0, wave@.len() as int) =~= wave@);
        }
        i = i + 1;
    }
    proof {
        assert(waves@.subrange(0, waves@.len() as int) =~= waves@);
    }
    out
}

/// The flattening of a prefix of the waves is a prefix of the flattening.
proof fn lemma_flatten_prefix(waves: Seq<Vec<GraphNode>>, i: int)
    requires
        0 <= i <= waves.len(),
    ensures
        flatten_waves(waves.subrange(0, i)).len() <= flatten_waves(waves).len(),
        flatten_waves(waves).subrange(0, flatten_waves(waves.subrange(0, i)).len() as int) == flatten_waves(waves.subrange(0, i)),
    decreases waves.len(),
{
    if i == waves.len() {
        assert(waves.subrange(0, i) =~= waves);
        assert(flatten_waves(waves).subrange(0, flatten_waves(waves).len() as int) =~= flatten_waves(waves));
    } else {
        lemma_flatten_prefix(waves.drop_last(), i);
        assert(waves.drop_last().subrange(0, i) =~= waves.subrange(0, i));
        let f = flatten_waves(waves.drop_last());
        let g = flatten_waves(waves.subrange(0, i));
        assert(flatten_waves(waves) == f + waves.last()@);
        assert((f + waves.last()@).subrange(0, g.len() as int) =~= f.subrange(0, g.len() as int));
    }
}

/// Counting auto ports over a prefix counts no more than over the whole.
proof fn lemma_auto_ports_prefix(ns: Seq<GraphNode>, k: int)
    requires
        0 <= k <= ns.len(),
    ensures
        auto_ports(ns.subrange(0, k)) <= auto_ports(ns),
    decreases ns.len(),
{
    if k == ns.len() {
        assert(ns.subrange(0, k) =~= ns);
    } else {
        lemma_auto_ports_prefix(ns.drop_last(), k);
        assert(ns.drop_last().subrange(0, k) =~= ns.subrange(0, k));
    }
}

/// The relative paths, under a base directory, where a primal's binary may
/// sit: the musl build and the plain build for the platform, then the
/// `primals/` layouts, then a directory of its own, then the bare name.
pub open spec fn binary_patterns_of(primal: Seq<char>, arch: Seq<char>, os: Seq<char>) -> Seq<Seq<char>> {
    seq![
        primal + "_"@ + arch + "_"@ + os + "_musl/"@ + primal,
        primal + "_"@ + arch + "_"@ + os + "/"@ + primal,
        "primals/"@ + primal + "/"@ + primal,
        "primals/"@ + primal,
        primal + "/"@ + primal,
        primal,
    ]
}

/// The relative paths where a primal's binary is looked for, in order of
/// preference, for the platform `arch` and `os`.
pub fn binary_patterns(primal: &str, arch: &str, os: &str) -> (r: Vec<String>)
    ensures
        r@.map_values(|p: String| p@) == binary_patterns_of(primal@, arch@, os@),
{
    let mut musl = String::from_str(primal);
    musl.append("_");
    musl.append(arch);
    musl.append("_");
    musl.append(os);
    musl.append("_musl/");
    musl.append(primal);
    let mut plain = String::from_str(primal);
    plain.append("_");
    plain.append(arch);
    plain.append("_");
    plain.append(os);
    plain.append("/");
    plain.append(primal);
    let mut nested = String::from_str("primals/");
    nested.append(primal);
    nested.append("/");
    nested.append(primal);
    let flat = crate::text::concat2("primals/", primal);
    let own = crate::text::concat3(primal, "/", primal);
    let bare = String::from_str(primal);
    let r = vec![musl, plain, nested, flat, own, bare];
    proof {
        assert(r@.map_values(|p: String| p@) =~= binary_patterns_of(primal@, arch@, os@));
    }
    r
}

/// The searched paths, one per line, each indented and bulleted.
pub open spec fn searched_lines(paths: Seq<Seq<char>>) -> Seq<char>
    decreases paths.len(),
{
    if paths.len() == 0 {
        Seq::empty()
    } else if paths.len() == 1 {
        "  - "@ + paths[0]
    } else {
        searched_lines(paths.drop_last()) + "\n  - "@ + paths.last()
    }
}

/// The error for a binary found nowhere: the primal's name and every path
/// that was searched.
pub open spec fn binary_not_found_text(primal: Seq<char>, paths: Seq<Seq<char>>) -> Seq<char> {
    "binary not found for '"@ + primal + "'. Searched:\n"@ + searched_lines(paths)
}

/// The error for a primal binary found in none of the searched paths.
pub fn binary_not_found(primal: &str, searched: &Vec<String>) -> (r: String)
    ensures
        r@ == binary_not_found_text(primal@, searched@.map_values(|p: String| p@)),
{
    let ghost ps = searched@.map_values(|p: String| p@);
    let mut lines = String::from_str("");
    proof {
        reveal_strlit("");
    }
    let mut i: usize = 0;
    while i < searched.len()
        invariant
            i <= searched@.len(),
            ps == searched@.map_values(|p: String| p@),
            lines@ == searched_lines(ps.subrange(0, i as int)),
        decreases searched@.len() - i,
    {
        proof {
            assert(ps.subrange(0, i + 1).drop_last() =~= ps.subrange(0, i as int));
            assert(ps.subrange(0, i + 1).last() == searched@[i as int]@);
        }
        if i == 0 {
            lines.append("  - ");
        } else {
            lines.append("\n  - ");
        }
        lines.append(searched[i].as_str());
        proof {
            if i == 0 {
                assert(ps.subrange(0, 1)[0] == searched@[0]@);
                assert(lines@ =~= searched_lines(ps.subrange(0, 1)));
            } else {
                assert(lines@ =~= searched_lines(ps.subrange(0, i + 1)));
            }
        }
        i = i + 1;
    }
    proof {
        assert(ps.subrange(0, ps.len() as int) =~= ps);
    }
    let mut r = String::from_str("binary not found for '");
    r.append(primal);
    r.append("'. Searched:\n");
    r.append(lines.as_str());
    proof {
        assert(r@ =~= binary_not_found_text(primal@, ps));
    }
    r
}

} // verus!
