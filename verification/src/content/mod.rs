//! The content bundle and its validation: cross-references between
//! narrative nodes, scenes, NPCs and abilities, and the shape of rulesets.

use vstd::prelude::*;
use vstd::string::*;

use crate::collections::{StrMap, StrSet, string_views};
use crate::narrative::predicate::StatePredicate;
use crate::narrative::validator::{
    count_starts, ending_issues, reach_set, start_issues, unreachable_issues, validate as validate_graph, validation_issues,
};
use crate::narrative::{NarrativeGraph, NarrativeNode, ending_nodes, entry_nodes, first_start, lemma_first_start};
use crate::text::{nat_decimal, str_eq, u64_to_string};

pub mod types;

pub use types::{AbilityDef, LieInfo, NpcDef, NpcTrustReward, RulesetOutline, SceneContent, WorldMeta};

verus! {

/// The loaded content bundle.
#[derive(Debug)]
pub struct ContentBundle {
    /// World metadata.
    pub meta: WorldMeta,
    /// The narrative graph.
    pub narrative: NarrativeGraph,
    /// Ids of the world definitions.
    pub worlds: StrSet,
    /// NPC definitions (keyed by NPC ID).
    pub npcs: StrMap<NpcDef>,
    /// Ability definitions (keyed by ability ID).
    pub abilities: StrMap<AbilityDef>,
    /// Scene content (keyed by `content_ref`).
    pub scenes: StrMap<SceneContent>,
    /// Ruleset outlines (keyed by plane name).
    pub rulesets: StrMap<RulesetOutline>,
    /// Diagnostics from content loading (non-fatal issues).
    pub load_warnings: Vec<String>,
}

/// The values of a sequence of keyed entries, in order.
pub open spec fn entry_values<V>(s: Seq<(String, V)>) -> Seq<V> {
    s.map_values(|e: (String, V)| e.1)
}

/// Issues for nodes whose content reference names no scene.
pub open spec fn content_ref_issues(ns: Seq<NarrativeNode>, scenes: StrMap<SceneContent>) -> Seq<Seq<char>>
    decreases ns.len(),
{
    if ns.len() == 0 {
        Seq::empty()
    } else {
        let n = ns.last();
        content_ref_issues(ns.drop_last(), scenes) + if n.content_ref@.len() > 0
            && scenes.spec_get(n.content_ref@) is None {
            seq![
                "node '"@ + n.id@ + "': content_ref '"@ + n.content_ref@
                    + "' not found in scenes"@,
            ]
        } else {
            Seq::empty()
        }
    }
}

/// Issues for the NPC ids of one scene that name no NPC.
pub open spec fn scene_npc_issues(scene_id: Seq<char>, ids: Seq<String>, npcs: StrMap<NpcDef>) -> Seq<Seq<char>>
    decreases ids.len(),
{
    if ids.len() == 0 {
        Seq::empty()
    } else {
        scene_npc_issues(scene_id, ids.drop_last(), npcs) + if npcs.spec_get(ids.last()@) is None {
            seq!["scene '"@ + scene_id + "': NPC '"@ + ids.last()@ + "' not found in npcs/"@]
        } else {
            Seq::empty()
        }
    }
}

/// Issues for every scene's NPC references.
pub open spec fn scene_issues(ss: Seq<SceneContent>, npcs: StrMap<NpcDef>) -> Seq<Seq<char>>
    decreases ss.len(),
{
    if ss.len() == 0 {
        Seq::empty()
    } else {
        scene_issues(ss.drop_last(), npcs) + scene_npc_issues(ss.last().id@, ss.last().npcs@, npcs)
    }
}

/// Issues for NPCs with no trust rewards (spirits excepted).
pub open spec fn npc_issues(ns: Seq<NpcDef>) -> Seq<Seq<char>>
    decreases ns.len(),
{
    if ns.len() == 0 {
        Seq::empty()
    } else {
        let n = ns.last();
        npc_issues(ns.drop_last()) + if n.trust_rewards.seq().len() == 0 && n.role@ != "spirit"@ {
            seq!["npc '"@ + n.id@ + "': no trust rewards defined — talk will be inert"@]
        } else {
            Seq::empty()
        }
    }
}

/// Whether a predicate is a compound (`All` or `Any`) with no members.
pub open spec fn is_empty_compound(p: StatePredicate) -> bool {
    match p {
        StatePredicate::All(v) => v@.len() == 0,
        StatePredicate::Any(v) => v@.len() == 0,
        _ => false,
    }
}

/// Issues for the empty compound preconditions of an ability.
pub open spec fn precondition_issues(id: Seq<char>, ps: Seq<StatePredicate>) -> Seq<Seq<char>>
    decreases ps.len(),
{
    if ps.len() == 0 {
        Seq::empty()
    } else {
        precondition_issues(id, ps.drop_last()) + if is_empty_compound(ps.last()) {
            seq![
                "ability '"@ + id + "': precondition "@ + nat_decimal((ps.len() - 1) as nat)
                    + " is empty compound"@,
            ]
        } else {
            Seq::empty()
        }
    }
}

/// Issues for every ability: empty compound preconditions, then a
/// missing effect list.
pub open spec fn ability_issues(abs: Seq<AbilityDef>) -> Seq<Seq<char>>
    decreases abs.len(),
{
    if abs.len() == 0 {
        Seq::empty()
    } else {
        let a = abs.last();
        ability_issues(abs.drop_last()) + precondition_issues(a.id@, a.preconditions@) + if a.effects@.len()
            == 0 {
            seq!["ability '"@ + a.id@ + "': has no effects"@]
        } else {
            Seq::empty()
        }
    }
}

/// Issues for the rules of one ruleset that have no id.
pub open spec fn rule_id_issues(id: Seq<char>, rules: Seq<bool>) -> Seq<Seq<char>>
    decreases rules.len(),
{
    if rules.len() == 0 {
        Seq::empty()
    } else {
        rule_id_issues(id, rules.drop_last()) + if !rules.last() {
            seq![
                "ruleset '"@ + id + "': rule["@ + nat_decimal((rules.len() - 1) as nat)
                    + "] missing 'id'"@,
            ]
        } else {
            Seq::empty()
        }
    }
}

/// Issues for one ruleset: a missing plane, then a missing rules array
/// or its rules without id.
pub open spec fn one_ruleset_issues(id: Seq<char>, r: RulesetOutline) -> Seq<Seq<char>> {
    (if !r.has_plane {
        seq!["ruleset '"@ + id + "': missing required 'plane'"@]
    } else {
        Seq::empty()
    }) + match r.rules_with_id {
        None => seq!["ruleset '"@ + id + "': missing required 'rules'"@],
        Some(v) => rule_id_issues(id, v@),
    }
}

/// Issues for every ruleset.
pub open spec fn ruleset_issues(rs: Seq<(String, RulesetOutline)>) -> Seq<Seq<char>>
    decreases rs.len(),
{
    if rs.len() == 0 {
        Seq::empty()
    } else {
        ruleset_issues(rs.drop_last()) + one_ruleset_issues(rs.last().0@, rs.last().1)
    }
}

/// Every issue of a bundle, in the order validation reports them.
pub open spec fn bundle_issues(b: ContentBundle) -> Seq<Seq<char>> {
    string_views(b.load_warnings@) + validation_issues(b.narrative) + content_ref_issues(
        entry_nodes(b.narrative.nodes.seq()),
        b.scenes,
    ) + scene_issues(entry_values(b.scenes.seq()), b.npcs) + npc_issues(entry_values(b.npcs.seq()))
        + ability_issues(entry_values(b.abilities.seq())) + ruleset_issues(b.rulesets.seq())
}

/// Appends `s` to `issues`.
fn push_issue(issues: &mut Vec<String>, s: String)
    ensures
        string_views(final(issues)@) == string_views(old(issues)@).push(s@),
{
    issues.push(s);
    assert(string_views(issues@) =~= string_views(old(issues)@).push(s@));
}

/// Appends every string of `more` to `issues`.
fn append_all(issues: &mut Vec<String>, more: Vec<String>)
    ensures
        string_views(final(issues)@) == string_views(old(issues)@) + string_views(more@),
{
    let ghost base = string_views(issues@);
    let mut more = more;
    let mut i: usize = 0;
    let n = more.len();
    while i < n
        invariant
            n == more@.len(),
            i <= n,
            string_views(issues@) == base + string_views(more@.subrange(0, i as int)),
        decreases n - i,
    {
        let s = more[i].clone();
        push_issue(issues, s);
        proof {
            assert(string_views(more@.subrange(0, i + 1)) =~= string_views(more@.subrange(0, i as int)).push(more@[i as int]@));
        }
        i = i + 1;
    }
    assert(more@.subrange(0, n as int) =~= more@);
}

impl ContentBundle {
    /// Issues for nodes whose content reference names no scene.
    fn push_content_ref_issues(&self, issues: &mut Vec<String>)
        ensures
            string_views(final(issues)@) == string_views(old(issues)@) + content_ref_issues(
                entry_nodes(self.narrative.nodes.seq()),
                self.scenes,
            ),
    {
        let ghost ns = entry_nodes(self.narrative.nodes.seq());
        let ghost base = string_views(issues@);
        let mut i: usize = 0;
        while i < self.narrative.nodes.len()
            invariant
                ns == entry_nodes(self.narrative.nodes.seq()),
                i <= ns.len(),
                string_views(issues@) == base + content_ref_issues(ns.subrange(0, i as int), self.scenes),
            decreases ns.len() - i,
        {
            let node = self.narrative.nodes.value_at(i);
            proof {
                assert(ns.subrange(0, i + 1).drop_last() =~= ns.subrange(0, i as int));
                assert(ns.subrange(0, i + 1).last() == *node);
            }
            if node.content_ref.unicode_len() > 0 && !self.scenes.contains_key(node.content_ref.as_str()) {
                let mut s = String::from_str("node '");
                s.append(node.id.as_str());
                s.append("': content_ref '");
                s.append(node.content_ref.as_str());
                s.append("' not found in scenes");
                push_issue(issues, s);
            }
            proof {
                assert(string_views(issues@) =~= base + content_ref_issues(ns.subrange(0, i + 1), self.scenes));
            }
            i = i + 1;
        }
        assert(ns.subrange(0, ns.len() as int) =~= ns);
    }

    /// Issues for scenes that name unknown NPCs.
    fn push_scene_issues(&self, issues: &mut Vec<String>)
        ensures
            string_views(final(issues)@) == string_views(old(issues)@) + scene_issues(
                entry_values(self.scenes.seq()),
                self.npcs,
            ),
    {
        let ghost ss = entry_values(self.scenes.seq());
        let ghost base = string_views(issues@);
        let mut i: usize = 0;
        while i < self.scenes.len()
            invariant
                ss == entry_values(self.scenes.seq()),
                i <= ss.len(),
                string_views(issues@) == base + scene_issues(ss.subrange(0, i as int), self.npcs),
            decreases ss.len() - i,
        {
            let scene = self.scenes.value_at(i);
            let ghost mid = string_views(issues@);
            let mut j: usize = 0;
            while j < scene.npcs.len()
                invariant
                    j <= scene.npcs@.len(),
                    string_views(issues@) == mid + scene_npc_issues(
                        scene.id@,
                        scene.npcs@.subrange(0, j as int),
                        self.npcs,
                    ),
                decreases scene.npcs@.len() - j,
            {
                let npc_id = &scene.npcs[j];
                proof {
                    assert(scene.npcs@.subrange(0, j + 1).drop_last() =~= scene.npcs@.subrange(0, j as int));
                }
                if !self.npcs.contains_key(npc_id.as_str()) {
                    let mut s = String::from_str("scene '");
                    s.append(scene.id.as_str());
                    s.append("': NPC '");
                    s.append(npc_id.as_str());
                    s.append("' not found in npcs/");
                    push_issue(issues, s);
                }
                proof {
                    assert(string_views(issues@) =~= mid + scene_npc_issues(
                        scene.id@,
                        scene.npcs@.subrange(0, j + 1),
                        self.npcs,
                    ));
                }
                j = j + 1;
            }
            proof {
                assert(scene.npcs@.subrange(0, scene.npcs@.len() as int) =~= scene.npcs@);
                assert(ss.subrange(0, i + 1).drop_last() =~= ss.subrange(0, i as int));
                assert(ss.subrange(0, i + 1).last() == *scene);
                assert(string_views(issues@) =~= base + scene_issues(ss.subrange(0, i + 1), self.npcs));
            }
            i = i + 1;
        }
        assert(ss.subrange(0, ss.len() as int) =~= ss);
    }

    /// Issues for NPCs without trust rewards.
    fn push_npc_issues(&self, issues: &mut Vec<String>)
        ensures
            string_views(final(issues)@) == string_views(old(issues)@) + npc_issues(
                entry_values(self.npcs.seq()),
            ),
    {
        let ghost ns = entry_values(self.npcs.seq());
        let ghost base = string_views(issues@);
        let mut i: usize = 0;
        while i < self.npcs.len()
            invariant
                ns == entry_values(self.npcs.seq()),
                i <= ns.len(),
                string_views(issues@) == base + npc_issues(ns.subrange(0, i as int)),
            decreases ns.len() - i,
        {
            let npc = self.npcs.value_at(i);
            proof {
                assert(ns.subrange(0, i + 1).drop_last() =~= ns.subrange(0, i as int));
                assert(ns.subrange(0, i + 1).last() == *npc);
            }
            if npc.trust_rewards.is_empty() && !str_eq(npc.role.as_str(), "spirit") {
                let mut s = String::from_str("npc '");
                s.append(npc.id.as_str());
                s.append("': no trust rewards defined — talk will be inert");
                push_issue(issues, s);
            }
            proof {
                assert(string_views(issues@) =~= base + npc_issues(ns.subrange(0, i + 1)));
            }
            i = i + 1;
        }
        assert(ns.subrange(0, ns.len() as int) =~= ns);
    }

    /// Issues for abilities: empty compound preconditions, missing effects.
    fn push_ability_issues(&self, issues: &mut Vec<String>)
        ensures
            string_views(final(issues)@) == string_views(old(issues)@) + ability_issues(
                entry_values(self.abilities.seq()),
            ),
    {
        let ghost abs = entry_values(self.abilities.seq());
        let ghost base = string_views(issues@);
        let mut i: usize = 0;
        while i < self.abilities.len()
            invariant
                abs == entry_values(self.abilities.seq()),
                i <= abs.len(),
                string_views(issues@) == base + ability_issues(abs.subrange(0, i as int)),
            decreases abs.len() - i,
        {
            let ability = self.abilities.value_at(i);
            let ghost mid = string_views(issues@);
            let mut j: usize = 0;
            while j < ability.preconditions.len()
                invariant
                    j <= ability.preconditions@.len(),
                    string_views(issues@) == mid + precondition_issues(
                        ability.id@,
                        ability.preconditions@.subrange(0, j as int),
                    ),
                decreases ability.preconditions@.len() - j,
            {
                let pred = &ability.preconditions[j];
                proof {
                    assert(ability.preconditions@.subrange(0, j + 1).drop_last() =~= ability.preconditions@.subrange(0, j as int));
                }
                let empty = match pred {
                    StatePredicate::All(v) => v.len() == 0,
                    StatePredicate::Any(v) => v.len() == 0,
                    _ => false,
                };
                if empty {
                    let mut s = String::from_str("ability '");
                    s.append(ability.id.as_str());
                    s.append("': precondition ");
                    let digits = u64_to_string(j as u64);
                    s.append(digits.as_str());
                    s.append(" is empty compound");
                    push_issue(issues, s);
                }
                proof {
                    assert(string_views(issues@) =~= mid + precondition_issues(
                        ability.id@,
                        ability.preconditions@.subrange(0, j + 1),
                    ));
                }
                j = j + 1;
            }
            proof {
                assert(ability.preconditions@.subrange(0, ability.preconditions@.len() as int) =~= ability.preconditions@);
            }
            if ability.effects.len() == 0 {
                let mut s = String::from_str("ability '");
                s.append(ability.id.as_str());
                s.append("': has no effects");
                push_issue(issues, s);
            }
            proof {
                assert(abs.subrange(0, i + 1).drop_last() =~= abs.subrange(0, i as int));
                assert(abs.subrange(0, i + 1).last() == *ability);
                assert(string_views(issues@) =~= base + ability_issues(abs.subrange(0, i + 1)));
            }
            i = i + 1;
        }
        assert(abs.subrange(0, abs.len() as int) =~= abs);
    }

    /// Validate the rulesets: each must name its plane and carry a `rules`
    /// array whose rules all have an id.
    pub fn validate_rulesets(&self) -> (r: Vec<String>)
        ensures
            string_views(r@) == ruleset_issues(self.rulesets.seq()),
    {
        let mut issues: Vec<String> = Vec::new();
        let ghost rs = self.rulesets.seq();
        let mut i: usize = 0;
        while i < self.rulesets.len()
            invariant
                rs == self.rulesets.seq(),
                i <= rs.len(),
                string_views(issues@) == ruleset_issues(rs.subrange(0, i as int)),
            decreases rs.len() - i,
        {
            let id = self.rulesets.key_at(i);
            let outline = self.rulesets.value_at(i);
            let ghost mid = string_views(issues@);
            proof {
                assert(rs.subrange(0, i + 1).drop_last() =~= rs.subrange(0, i as int));
                assert(rs.subrange(0, i + 1).last() == (*id, *outline));
            }
            if !outline.has_plane {
                let mut s = String::from_str("ruleset '");
                s.append(id.as_str());
                s.append("': missing required 'plane'");
                push_issue(&mut issues, s);
            }
            let ghost after_plane = string_views(issues@);
            match &outline.rules_with_id {
                None => {
                    let mut s = String::from_str("ruleset '");
                    s.append(id.as_str());
                    s.append("': missing required 'rules'");
                    push_issue(&mut issues, s);
                },
                Some(rules) => {
                    let mut j: usize = 0;
                    while j < rules.len()
                        invariant
                            j <= rules@.len(),
                            string_views(issues@) == after_plane + rule_id_issues(id@, rules@.subrange(0, j as int)),
                        decreases rules@.len() - j,
                    {
                        proof {
                            assert(rules@.subrange(0, j + 1).drop_last() =~= rules@.subrange(0, j as int));
                        }
                        if !rules[j] {
                            let mut s = String::from_str("ruleset '");
                            s.append(id.as_str());
                            s.append("': rule[");
                            let digits = u64_to_string(j as u64);
                            s.append(digits.as_str());
                            s.append("] missing 'id'");
                            push_issue(&mut issues, s);
                        }
                        proof {
                            assert(string_views(issues@) =~= after_plane + rule_id_issues(id@, rules@.subrange(0, j + 1)));
                        }
                        j = j + 1;
                    }
                    proof {
                        assert(rules@.subrange(0, rules@.len() as int) =~= rules@);
                    }
                },
            }
            proof {
                assert(string_views(issues@) =~= mid + one_ruleset_issues(id@, *outline));
                assert(string_views(issues@) =~= ruleset_issues(rs.subrange(0, i + 1)));
            }
            i = i + 1;
        }
        assert(rs.subrange(0, rs.len() as int) =~= rs);
        issues
    }

    /// Validate the loaded content and return every issue: the load
    /// warnings, the narrative graph's issues, then dangling content
    /// references, unknown NPCs in scenes, NPCs without trust rewards,
    /// ability problems and ruleset problems.
    pub fn validate(&self) -> (r: Vec<String>)
        ensures
            string_views(r@) == bundle_issues(*self),
    {
        let mut issues: Vec<String> = Vec::new();
        let mut i: usize = 0;
        while i < self.load_warnings.len()
            invariant
                i <= self.load_warnings@.len(),
                string_views(issues@) == string_views(self.load_warnings@.subrange(0, i as int)),
            decreases self.load_warnings@.len() - i,
        {
            let w = self.load_warnings[i].clone();
            push_issue(&mut issues, w);
            proof {
                assert(string_views(self.load_warnings@.subrange(0, i + 1)) =~= string_views(
                    self.load_warnings@.subrange(0, i as int),
                ).push(self.load_warnings@[i as int]@));
            }
            i = i + 1;
        }
        assert(self.load_warnings@.subrange(0, self.load_warnings@.len() as int) =~= self.load_warnings@);
        append_all(&mut issues, validate_graph(&self.narrative));
        self.push_content_ref_issues(&mut issues);
        self.push_scene_issues(&mut issues);
        self.push_npc_issues(&mut issues);
        self.push_ability_issues(&mut issues);
        append_all(&mut issues, self.validate_rulesets());
        issues
    }
}

/// With no start flag on any node, no start is counted.
proof fn lemma_no_start_counted(s: Seq<NarrativeNode>)
    requires
        forall|j: int| 0 <= j < s.len() ==> !#[trigger] s[j].is_start,
    ensures
        count_starts(s) == 0,
    decreases s.len(),
{
    if s.len() > 0 {
        lemma_no_start_counted(s.drop_last());
        assert(!s[s.len() - 1].is_start);
    }
}

/// An ending with no unreachable-ending issue is reachable.
proof fn lemma_endings_reached(es: Seq<NarrativeNode>, reach: Set<Seq<char>>)
    requires
        unreachable_issues(es, reach).len() == 0,
    ensures
        forall|i: int| 0 <= i < es.len() ==> reach.contains(#[trigger] es[i].id@),
    decreases es.len(),
{
    if es.len() > 0 {
        lemma_endings_reached(es.drop_last(), reach);
        assert forall|i: int| 0 <= i < es.len() implies reach.contains(#[trigger] es[i].id@) by {
            if i < es.len() - 1 {
                assert(es[i] == es.drop_last()[i]);
            }
        }
    }
}

/// Content that validates cleanly is playable: its narrative has exactly
/// one start node (so a session starts there), at least one ending, and
/// every ending is reachable from the start.
pub proof fn law_clean_content_is_playable(b: ContentBundle)
    requires
        bundle_issues(b).len() == 0,
    ensures
        ({
            let ns = entry_nodes(b.narrative.nodes.seq());
            &&& count_starts(ns) == 1
            &&& first_start(ns) is Some
            &&& ending_nodes(ns).len() > 0
            &&& forall|i: int| 0 <= i < ending_nodes(ns).len() ==>
                reach_set(b.narrative, ns[first_start(ns)->0].id@).contains(#[trigger] ending_nodes(ns)[i].id@)
        }),
{
    let g = b.narrative;
    let ns = entry_nodes(g.nodes.seq());
    assert(validation_issues(g).len() == 0);
    assert(start_issues(count_starts(ns)).len() == 0);
    assert(count_starts(ns) == 1);
    lemma_first_start(ns);
    if first_start(ns) is None {
        lemma_no_start_counted(ns);
    }
    assert(ending_issues(ns).len() == 0);
    let i = first_start(ns)->0;
    assert(unreachable_issues(ending_nodes(ns), reach_set(g, ns[i].id@)).len() == 0);
    lemma_endings_reached(ending_nodes(ns), reach_set(g, ns[i].id@));
}

} // verus!
