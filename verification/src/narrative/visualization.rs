//! Graph visualization: DOT rendering, with or without a session overlay
//! (visited nodes, edges taken, current position, gated edges), and the
//! edge and node classifications used by structured exports.

use vstd::prelude::*;
use vstd::string::*;

use crate::collections::{PairSet, StrSet};
use crate::text::{is_prefix, str_eq};
use super::{NarrativeEdge, NarrativeGraph, NarrativeNode, entry_nodes};

verus! {

/// Overlay data for rendering a narrative graph with session state: the
/// played path (visited nodes, edges taken) and the live position (current
/// node, available and gated targets).
#[derive(Debug)]
pub struct DagOverlay {
    /// Nodes the player has visited.
    pub visited: StrSet,
    /// Edges the player has traversed (source, target).
    pub edges_taken: PairSet,
    /// Current node (if in a live session).
    pub current_node: Option<String>,
    /// Targets currently available from the current node.
    pub available_targets: StrSet,
    /// Edges that exist but are gated (conditions not met).
    pub gated_targets: PairSet,
}

impl DagOverlay {
    /// An empty overlay: nothing visited, taken, current, available or gated.
    pub fn new() -> (r: DagOverlay)
        ensures
            r.visited.members() == Set::<Seq<char>>::empty(),
            r.edges_taken.members() == Set::<(Seq<char>, Seq<char>)>::empty(),
            r.current_node is None,
            r.available_targets.members() == Set::<Seq<char>>::empty(),
            r.gated_targets.members() == Set::<(Seq<char>, Seq<char>)>::empty(),
    {
        DagOverlay {
            visited: StrSet::new(),
            edges_taken: PairSet::new(),
            current_node: None,
            available_targets: StrSet::new(),
            gated_targets: PairSet::new(),
        }
    }
}

/// The label shown for a node: its label, or its id when it has none.
pub open spec fn node_label(n: NarrativeNode) -> Seq<char> {
    match n.label {
        Some(l) => l@,
        None => n.id@,
    }
}

/// The label shown for an edge: its label, or nothing.
pub open spec fn edge_label(e: NarrativeEdge) -> Seq<char> {
    match e.label {
        Some(l) => l@,
        None => Seq::empty(),
    }
}

/// The DOT shape of a node: start, ending, or plain.
pub open spec fn node_shape(n: NarrativeNode) -> Seq<char> {
    if n.is_start {
        "doubleoctagon"@
    } else if n.is_ending {
        "doublecircle"@
    } else {
        "box"@
    }
}

/// The DOT line declaring a node.
pub open spec fn dot_node_line(n: NarrativeNode) -> Seq<char> {
    "  \""@ + n.id@ + "\" [label=\""@ + node_label(n) + "\" shape="@ + node_shape(n) + "];\n"@
}

/// The DOT lines declaring the nodes of `s`.
pub open spec fn dot_node_lines(s: Seq<NarrativeNode>) -> Seq<char>
    decreases s.len(),
{
    if s.len() == 0 {
        Seq::empty()
    } else {
        dot_node_lines(s.drop_last()) + dot_node_line(s.last())
    }
}

/// The DOT line of an edge from `src`.
pub open spec fn dot_edge_line(src: Seq<char>, e: NarrativeEdge) -> Seq<char> {
    "  \""@ + src + "\" -> \""@ + e.target@ + "\" [label=\""@ + edge_label(e) + "\"];\n"@
}

/// The DOT lines of the edges `es` leaving `src`.
pub open spec fn dot_edge_lines_from(src: Seq<char>, es: Seq<NarrativeEdge>) -> Seq<char>
    decreases es.len(),
{
    if es.len() == 0 {
        Seq::empty()
    } else {
        dot_edge_lines_from(src, es.drop_last()) + dot_edge_line(src, es.last())
    }
}

/// The DOT lines of every edge of the nodes of `s`.
pub open spec fn dot_edge_lines(s: Seq<NarrativeNode>) -> Seq<char>
    decreases s.len(),
{
    if s.len() == 0 {
        Seq::empty()
    } else {
        dot_edge_lines(s.drop_last()) + dot_edge_lines_from(s.last().id@, s.last().exits@)
    }
}

/// The DOT rendering of a graph.
pub open spec fn dot_text(g: NarrativeGraph) -> Seq<char> {
    let ns = entry_nodes(g.nodes.seq());
    "digraph NarrativeGraph {\n"@ + "  rankdir=LR;\n"@ + "  node [shape=box];\n\n"@ + dot_node_lines(
        ns,
    ) + "\n"@ + dot_edge_lines(ns) + "}\n"@
}

/// Classification of an edge by the depths of its ends.
pub open spec fn edge_kind_text(src_depth: int, tgt_depth: int) -> Seq<char> {
    if tgt_depth > src_depth {
        "forward"@
    } else if tgt_depth < src_depth {
        "back"@
    } else {
        "lateral"@
    }
}

/// Whether `n` is the overlay's current node.
pub open spec fn is_current(ov: DagOverlay, n: NarrativeNode) -> bool {
    match ov.current_node {
        Some(c) => c@ == n.id@,
        None => false,
    }
}

/// Session status of a node: current, visited, available or unexplored.
pub open spec fn node_status_text(n: NarrativeNode, ov: DagOverlay) -> Seq<char> {
    if is_current(ov, n) {
        "current"@
    } else if ov.visited.members().contains(n.id@) {
        "visited"@
    } else if ov.available_targets.members().contains(n.id@) {
        "available"@
    } else {
        "unexplored"@
    }
}

/// Overlay style of a node: (shape, fill colour, border colour).
pub open spec fn node_style_text(n: NarrativeNode, ov: DagOverlay) -> (Seq<char>, Seq<char>, Seq<char>) {
    if is_current(ov, n) {
        (node_shape(n), "#ff79c6"@, "#ff79c6"@)
    } else if ov.visited.members().contains(n.id@) {
        (node_shape(n), "#2d4a3e"@, "#50fa7b"@)
    } else if ov.available_targets.members().contains(n.id@) {
        (node_shape(n), "#3d3520"@, "#ffb86c"@)
    } else {
        (node_shape(n), "#1e1e30"@, "#444466"@)
    }
}

/// Overlay style of an edge: (colour, line style, pen width).
pub open spec fn edge_style_text(src: NarrativeNode, e: NarrativeEdge, ov: DagOverlay) -> (Seq<char>, Seq<char>, Seq<char>) {
    if ov.edges_taken.members().contains((src.id@, e.target@)) {
        ("#50fa7b"@, "bold"@, "2.5"@)
    } else if ov.gated_targets.members().contains((src.id@, e.target@)) {
        ("#6272a4"@, "dashed"@, "1.0"@)
    } else if ov.visited.members().contains(src.id@) {
        ("#ffb86c"@, "solid"@, "1.0"@)
    } else {
        ("#444466"@, "dotted"@, "0.5"@)
    }
}

/// The overlay DOT line declaring a node.
pub open spec fn overlay_node_line(n: NarrativeNode, ov: DagOverlay) -> Seq<char> {
    let st = node_style_text(n, ov);
    "  \""@ + n.id@ + "\" [label=\""@ + node_label(n) + "\" shape="@ + st.0 + " fillcolor=\""@ + st.1
        + "\" color=\""@ + st.2 + "\"];\n"@
}

/// The overlay DOT lines declaring the nodes of `s`.
pub open spec fn overlay_node_lines(s: Seq<NarrativeNode>, ov: DagOverlay) -> Seq<char>
    decreases s.len(),
{
    if s.len() == 0 {
        Seq::empty()
    } else {
        overlay_node_lines(s.drop_last(), ov) + overlay_node_line(s.last(), ov)
    }
}

/// The overlay DOT line of an edge leaving `src`.
pub open spec fn overlay_edge_line(src: NarrativeNode, e: NarrativeEdge, ov: DagOverlay) -> Seq<char> {
    let st = edge_style_text(src, e, ov);
    "  \""@ + src.id@ + "\" -> \""@ + e.target@ + "\" [label=\""@ + edge_label(e) + "\" color=\""@
        + st.0 + "\" style="@ + st.1 + " penwidth="@ + st.2 + "];\n"@
}

/// The overlay DOT lines of the edges `es` leaving `src`.
pub open spec fn overlay_edge_lines_from(src: NarrativeNode, es: Seq<NarrativeEdge>, ov: DagOverlay) -> Seq<char>
    decreases es.len(),
{
    if es.len() == 0 {
        Seq::empty()
    } else {
        overlay_edge_lines_from(src, es.drop_last(), ov) + overlay_edge_line(src, es.last(), ov)
    }
}

/// The overlay DOT lines of every edge of the nodes of `s`.
pub open spec fn overlay_edge_lines(s: Seq<NarrativeNode>, ov: DagOverlay) -> Seq<char>
    decreases s.len(),
{
    if s.len() == 0 {
        Seq::empty()
    } else {
        overlay_edge_lines(s.drop_last(), ov) + overlay_edge_lines_from(s.last(), s.last().exits@, ov)
    }
}

/// The fixed preamble of an overlay rendering: graph attributes and legend.
pub open spec fn overlay_preamble() -> Seq<char> {
    "digraph NarrativeGraph {\n"@ + "  rankdir=LR;\n"@ + "  bgcolor=\"#1a1a2e\";\n"@
        + "  node [shape=box fontname=\"Helvetica\" fontcolor=\"#e0e0e0\" color=\"#444466\" style=filled];\n"@
        + "  edge [fontname=\"Helvetica\" fontsize=9 fontcolor=\"#888888\" color=\"#444466\"];\n\n"@
        + "  // Legend\n"@ + "  subgraph cluster_legend {\n"@ + "    label=\"\" style=invis;\n"@
        + "    legend [shape=note fillcolor=\"#1a1a2e\" fontcolor=\"#888888\" label=<"@
        + "<b>Legend</b><br/>"@ + "<font color=\"#50fa7b\">■</font> visited  "@
        + "<font color=\"#ff79c6\">■</font> current  "@
        + "<font color=\"#ffb86c\">■</font> available  "@
        + "<font color=\"#444466\">■</font> unexplored  "@ + "<font color=\"#6272a4\">---</font> gated"@
        + ">];\n"@ + "  }\n\n"@
}

/// The overlay DOT rendering of a graph.
pub open spec fn overlay_text(g: NarrativeGraph, ov: DagOverlay) -> Seq<char> {
    let ns = entry_nodes(g.nodes.seq());
    overlay_preamble() + overlay_node_lines(ns, ov) + "\n"@ + overlay_edge_lines(ns, ov) + "}\n"@
}

/// Whether `ov`'s current node is `n`.
fn current_is(ov: &DagOverlay, n: &NarrativeNode) -> (r: bool)
    ensures
        r == is_current(*ov, *n),
{
    match &ov.current_node {
        Some(c) => str_eq(c.as_str(), n.id.as_str()),
        None => false,
    }
}

/// The label shown for a node.
fn label_of(n: &NarrativeNode) -> (r: &str)
    ensures
        r@ == node_label(*n),
{
    match &n.label {
        Some(l) => l.as_str(),
        None => n.id.as_str(),
    }
}

/// The DOT shape of a node.
fn shape_of(n: &NarrativeNode) -> (r: &'static str)
    ensures
        r@ == node_shape(*n),
{
    if n.is_start {
        "doubleoctagon"
    } else if n.is_ending {
        "doublecircle"
    } else {
        "box"
    }
}

/// Appends an edge's label, if it has one.
fn append_edge_label(s: &mut String, e: &NarrativeEdge)
    ensures
        final(s)@ == old(s)@ + edge_label(*e),
{
    match &e.label {
        Some(l) => s.append(l.as_str()),
        None => {
            assert(old(s)@ + Seq::<char>::empty() =~= old(s)@);
        },
    }
}

/// Overlay style of a node: (shape, fill colour, border colour).
pub fn node_style(node: &NarrativeNode, ov: &DagOverlay) -> (r: (&'static str, &'static str, &'static str))
    ensures
        (r.0@, r.1@, r.2@) == node_style_text(*node, *ov),
{
    let shape = shape_of(node);
    if current_is(ov, node) {
        (shape, "#ff79c6", "#ff79c6")
    } else if ov.visited.contains(node.id.as_str()) {
        (shape, "#2d4a3e", "#50fa7b")
    } else if ov.available_targets.contains(node.id.as_str()) {
        (shape, "#3d3520", "#ffb86c")
    } else {
        (shape, "#1e1e30", "#444466")
    }
}

/// Overlay style of an edge: (colour, line style, pen width).
pub fn edge_style(source: &NarrativeNode, edge: &NarrativeEdge, ov: &DagOverlay) -> (r: (&'static str, &'static str, &'static str))
    ensures
        (r.0@, r.1@, r.2@) == edge_style_text(*source, *edge, *ov),
{
    if ov.edges_taken.contains(source.id.as_str(), edge.target.as_str()) {
        ("#50fa7b", "bold", "2.5")
    } else if ov.gated_targets.contains(source.id.as_str(), edge.target.as_str()) {
        ("#6272a4", "dashed", "1.0")
    } else if ov.visited.contains(source.id.as_str()) {
        ("#ffb86c", "solid", "1.0")
    } else {
        ("#444466", "dotted", "0.5")
    }
}

/// Session status of a node: `current`, `visited`, `available` or
/// `unexplored`.
pub fn node_status(node: &NarrativeNode, ov: &DagOverlay) -> (r: &'static str)
    ensures
        r@ == node_status_text(*node, *ov),
{
    if current_is(ov, node) {
        "current"
    } else if ov.visited.contains(node.id.as_str()) {
        "visited"
    } else if ov.available_targets.contains(node.id.as_str()) {
        "available"
    } else {
        "unexplored"
    }
}

/// Appends the DOT line declaring `node`.
fn push_dot_node_line(dot: &mut String, node: &NarrativeNode)
    ensures
        final(dot)@ == old(dot)@ + dot_node_line(*node),
{
    dot.append("  \"");
    dot.append(node.id.as_str());
    dot.append("\" [label=\"");
    dot.append(label_of(node));
    dot.append("\" shape=");
    dot.append(shape_of(node));
    dot.append("];\n");
    assert(dot@ =~= old(dot)@ + dot_node_line(*node));
}

/// Appends the DOT line of `edge` leaving `node`.
fn push_dot_edge_line(dot: &mut String, node: &NarrativeNode, edge: &NarrativeEdge)
    ensures
        final(dot)@ == old(dot)@ + dot_edge_line(node.id@, *edge),
{
    dot.append("  \"");
    dot.append(node.id.as_str());
    dot.append("\" -> \"");
    dot.append(edge.target.as_str());
    dot.append("\" [label=\"");
    append_edge_label(dot, edge);
    dot.append("\"];\n");
    assert(dot@ =~= old(dot)@ + dot_edge_line(node.id@, *edge));
}

/// Appends the overlay DOT line declaring `node`.
fn push_overlay_node_line(dot: &mut String, node: &NarrativeNode, ov: &DagOverlay)
    ensures
        final(dot)@ == old(dot)@ + overlay_node_line(*node, *ov),
{
    let (shape, fill, border) = node_style(node, ov);
    dot.append("  \"");
    dot.append(node.id.as_str());
    dot.append("\" [label=\"");
    dot.append(label_of(node));
    dot.append("\" shape=");
    dot.append(shape);
    dot.append(" fillcolor=\"");
    dot.append(fill);
    dot.append("\" color=\"");
    dot.append(border);
    dot.append("\"];\n");
    assert(dot@ =~= old(dot)@ + overlay_node_line(*node, *ov));
}

/// Appends the overlay DOT line of `edge` leaving `node`.
fn push_overlay_edge_line(dot: &mut String, node: &NarrativeNode, edge: &NarrativeEdge, ov: &DagOverlay)
    ensures
        final(dot)@ == old(dot)@ + overlay_edge_line(*node, *edge, *ov),
{
    let (color, style, penwidth) = edge_style(node, edge, ov);
    dot.append("  \"");
    dot.append(node.id.as_str());
    dot.append("\" -> \"");
    dot.append(edge.target.as_str());
    dot.append("\" [label=\"");
    append_edge_label(dot, edge);
    dot.append("\" color=\"");
    dot.append(color);
    dot.append("\" style=");
    dot.append(style);
    dot.append(" penwidth=");
    dot.append(penwidth);
    dot.append("];\n");
    assert(dot@ =~= old(dot)@ + overlay_edge_line(*node, *edge, *ov));
}

impl NarrativeGraph {
    /// Generate DOT format for graph visualization.
    pub fn to_dot(&self) -> (r: String)
        ensures
            r@ == dot_text(*self),
    {
        let ghost ns = self.node_seq();
        let mut dot = String::from_str("digraph NarrativeGraph {\n");
        dot.append("  rankdir=LR;\n");
        dot.append("  node [shape=box];\n\n");
        let ghost head = dot@;
        let mut i: usize = 0;
        while i < self.nodes.len()
            invariant
                ns == self.node_seq(),
                i <= ns.len(),
                dot@ == head + dot_node_lines(ns.subrange(0, i as int)),
            decreases ns.len() - i,
        {
            let node = self.nodes.value_at(i);
            push_dot_node_line(&mut dot, node);
            proof {
                assert(ns.subrange(0, i + 1).drop_last() =~= ns.subrange(0, i as int));
                assert(ns.subrange(0, i + 1).last() == *node);
                assert(dot@ =~= head + dot_node_lines(ns.subrange(0, i + 1)));
            }
            i = i + 1;
        }
        proof {
            assert(ns.subrange(0, ns.len() as int) =~= ns);
        }
        dot.append("\n");
        let ghost mid = dot@;
        let mut i: usize = 0;
        while i < self.nodes.len()
            invariant
                ns == self.node_seq(),
                i <= ns.len(),
                dot@ == mid + dot_edge_lines(ns.subrange(0, i as int)),
            decreases ns.len() - i,
        {
            let node = self.nodes.value_at(i);
            let ghost before = dot@;
            let mut j: usize = 0;
            while j < node.exits.len()
                invariant
                    j <= node.exits@.len(),
                    dot@ == before + dot_edge_lines_from(node.id@, node.exits@.subrange(0, j as int)),
                decreases node.exits@.len() - j,
            {
                let edge = &node.exits[j];
                push_dot_edge_line(&mut dot, node, edge);
                proof {
                    let sub = node.exits@.subrange(0, j + 1);
                    assert(sub.drop_last() =~= node.exits@.subrange(0, j as int));
                    assert(sub.last() == *edge);
                    assert(dot@ =~= before + dot_edge_lines_from(node.id@, sub));
                }
                j = j + 1;
            }
            proof {
                assert(node.exits@.subrange(0, node.exits@.len() as int) =~= node.exits@);
                let sub = ns.subrange(0, i + 1);
                assert(sub.drop_last() =~= ns.subrange(0, i as int));
                assert(sub.last() == *node);
                assert(dot@ =~= mid + dot_edge_lines(sub));
            }
            i = i + 1;
        }
        proof {
            assert(ns.subrange(0, ns.len() as int) =~= ns);
        }
        dot.append("}\n");
        dot
    }

    /// Classify an edge relative to breadth-first depth layers.
    pub fn edge_kind(src_depth: usize, tgt_depth: usize) -> (r: &'static str)
        ensures
            r@ == edge_kind_text(src_depth as int, tgt_depth as int),
    {
        if tgt_depth > src_depth {
            "forward"
        } else if tgt_depth < src_depth {
            "back"
        } else {
            "lateral"
        }
    }

    /// Generate DOT with a session overlay: visited nodes, edges taken,
    /// current position, gated edges, and unexplored paths.
    pub fn to_dot_overlay(&self, overlay: &DagOverlay) -> (r: String)
        ensures
            r@ == overlay_text(*self, *overlay),
    {
        let ghost ns = self.node_seq();
        let mut dot = String::from_str("digraph NarrativeGraph {\n");
        dot.append("  rankdir=LR;\n");
        dot.append("  bgcolor=\"#1a1a2e\";\n");
        dot.append("  node [shape=box fontname=\"Helvetica\" fontcolor=\"#e0e0e0\" color=\"#444466\" style=filled];\n");
        dot.append("  edge [fontname=\"Helvetica\" fontsize=9 fontcolor=\"#888888\" color=\"#444466\"];\n\n");
        dot.append("  // Legend\n");
        dot.append("  subgraph cluster_legend {\n");
        dot.append("    label=\"\" style=invis;\n");
        dot.append("    legend [shape=note fillcolor=\"#1a1a2e\" fontcolor=\"#888888\" label=<");
        dot.append("<b>Legend</b><br/>");
        dot.append("<font color=\"#50fa7b\">■</font> visited  ");
        dot.append("<font color=\"#ff79c6\">■</font> current  ");
        dot.append("<font color=\"#ffb86c\">■</font> available  ");
        dot.append("<font color=\"#444466\">■</font> unexplored  ");
        dot.append("<font color=\"#6272a4\">---</font> gated");
        dot.append(">];\n");
        dot.append("  }\n\n");
        let ghost head = dot@;
        proof {
            assert(head =~= overlay_preamble());
        }
        let mut i: usize = 0;
        while i < self.nodes.len()
            invariant
                ns == self.node_seq(),
                i <= ns.len(),
                dot@ == head + overlay_node_lines(ns.subrange(0, i as int), *overlay),
            decreases ns.len() - i,
        {
            let node = self.nodes.value_at(i);
            push_overlay_node_line(&mut dot, node, overlay);
            proof {
                assert(ns.subrange(0, i + 1).drop_last() =~= ns.subrange(0, i as int));
                assert(ns.subrange(0, i + 1).last() == *node);
                assert(dot@ =~= head + overlay_node_lines(ns.subrange(0, i + 1), *overlay));
            }
            i = i + 1;
        }
        proof {
            assert(ns.subrange(0, ns.len() as int) =~= ns);
        }
        dot.append("\n");
        let ghost mid = dot@;
        let mut i: usize = 0;
        while i < self.nodes.len()
            invariant
                ns == self.node_seq(),
                i <= ns.len(),
                dot@ == mid + overlay_edge_lines(ns.subrange(0, i as int), *overlay),
            decreases ns.len() - i,
        {
            let node = self.nodes.value_at(i);
            let ghost before = dot@;
            let mut j: usize = 0;
            while j < node.exits.len()
                invariant
                    j <= node.exits@.len(),
                    dot@ == before + overlay_edge_lines_from(*node, node.exits@.subrange(0, j as int), *overlay),
                decreases node.exits@.len() - j,
            {
                let edge = &node.exits[j];
                push_overlay_edge_line(&mut dot, node, edge, overlay);
                proof {
                    let sub = node.exits@.subrange(0, j + 1);
                    assert(sub.drop_last() =~= node.exits@.subrange(0, j as int));
                    assert(sub.last() == *edge);
                    assert(dot@ =~= before + overlay_edge_lines_from(*node, sub, *overlay));
                }
                j = j + 1;
            }
            proof {
                assert(node.exits@.subrange(0, node.exits@.len() as int) =~= node.exits@);
                let sub = ns.subrange(0, i + 1);
                assert(sub.drop_last() =~= ns.subrange(0, i as int));
                assert(sub.last() == *node);
                assert(dot@ =~= mid + overlay_edge_lines(sub, *overlay));
            }
            i = i + 1;
        }
        proof {
            assert(ns.subrange(0, ns.len() as int) =~= ns);
        }
        dot.append("}\n");
        dot
    }
}

/// The played path of a recorded history (action, node reached) from the
/// start node `start`: the nodes visited, the exits taken, and the last
/// node reached. Entries with no node reached are passed over.
pub open spec fn history_path(start: Seq<char>, h: Seq<(Seq<char>, Seq<char>)>) -> (
    Set<Seq<char>>,
    Set<(Seq<char>, Seq<char>)>,
    Seq<char>,
)
    decreases h.len(),
{
    if h.len() == 0 {
        (set![start], Set::empty(), start)
    } else {
        let p = history_path(start, h.drop_last());
        let (action, after) = h.last();
        if after.len() == 0 {
            p
        } else {
            (
                p.0.insert(after),
                if is_prefix("exit:"@, action) {
                    p.1.insert((p.2, after))
                } else {
                    p.1
                },
                after,
            )
        }
    }
}

/// The id of a graph's start node, or the empty text.
pub open spec fn graph_start_id(g: NarrativeGraph) -> Seq<char> {
    match super::first_start(g.node_seq()) {
        Some(i) => g.node_seq()[i].id@,
        None => Seq::empty(),
    }
}

impl DagOverlay {
    /// The overlay of a recorded play-through: each entry is an action and
    /// the node it reached (empty when none); the path starts at the
    /// graph's start node; `final_node` becomes the current node.
    pub fn from_history(entries: &Vec<(String, String)>, final_node: Option<String>, graph: &NarrativeGraph) -> (r: DagOverlay)
        ensures
            ({
                let h = entries@.map_values(|e: (String, String)| (e.0@, e.1@));
                let p = history_path(graph_start_id(*graph), h);
                &&& r.visited.members() == p.0
                &&& r.edges_taken.members() == p.1
                &&& r.current_node == final_node
                &&& r.available_targets.members() == Set::<Seq<char>>::empty()
                &&& r.gated_targets.members() == Set::<(Seq<char>, Seq<char>)>::empty()
            }),
    {
        let ghost h = entries@.map_values(|e: (String, String)| (e.0@, e.1@));
        let start = match graph.start_node() {
            Some(n) => n.id.clone(),
            None => String::new(),
        };
        let mut visited = StrSet::new();
        let mut edges_taken = PairSet::new();
        visited.insert(start.clone());
        let mut prev = start.clone();
        proof {
            assert(visited.members() =~= set![start@]);
            assert(edges_taken.members() =~= Set::<(Seq<char>, Seq<char>)>::empty());
        }
        let mut i: usize = 0;
        while i < entries.len()
            invariant
                i <= entries@.len(),
                h == entries@.map_values(|e: (String, String)| (e.0@, e.1@)),
                history_path(graph_start_id(*graph), h.subrange(0, i as int)) == (visited.members(), edges_taken.members(), prev@),
            decreases entries@.len() - i,
        {
            let (action, after) = &entries[i];
            proof {
                assert(h.subrange(0, i + 1).drop_last() =~= h.subrange(0, i as int));
                assert(h.subrange(0, i + 1).last() == (action@, after@));
            }
            if after.unicode_len() > 0 {
                if crate::text::starts_with(action.as_str(), "exit:") {
                    edges_taken.insert(prev.clone(), after.clone());
                }
                visited.insert(after.clone());
                prev = after.clone();
            }
            i = i + 1;
        }
        proof {
            assert(h.subrange(0, h.len() as int) =~= h);
        }
        DagOverlay {
            visited,
            edges_taken,
            current_node: final_node,
            available_targets: StrSet::new(),
            gated_targets: PairSet::new(),
        }
    }
}

/// The session flags of an edge for structured export: (taken, available,
/// gated) — taken when traversed; available when its source was visited
/// and it was not taken; gated when recorded as gated.
pub fn edge_flags(source: &NarrativeNode, edge: &NarrativeEdge, ov: &DagOverlay) -> (r: (bool, bool, bool))
    ensures
        r.0 == ov.edges_taken.members().contains((source.id@, edge.target@)),
        r.1 == (ov.visited.members().contains(source.id@) && !ov.edges_taken.members().contains((source.id@, edge.target@))),
        r.2 == ov.gated_targets.members().contains((source.id@, edge.target@)),
{
    let taken = ov.edges_taken.contains(source.id.as_str(), edge.target.as_str());
    let available = ov.visited.contains(source.id.as_str()) && !taken;
    let gated = ov.gated_targets.contains(source.id.as_str(), edge.target.as_str());
    (taken, available, gated)
}

} // verus!
