//! Talking to NPCs: trust grows by one per conversation, and crossing a
//! trust threshold hands out that threshold's rewards.

use vstd::prelude::*;
use vstd::string::*;

use crate::collections::{StrSet, string_views};
use crate::content::{ContentBundle, NpcDef, NpcTrustReward};
use crate::state::{StateModel, WorldState};
use crate::text::str_eq;
use super::{DirectorOutcome, GameDirector, Outcome, node_of};

verus! {

/// How an NPC regards the player at trust level `trust`.
pub open spec fn demeanor_text(trust: i32) -> Seq<char> {
    if trust <= 0 {
        "hostility"@
    } else if trust == 1 {
        "wariness"@
    } else if trust == 2 {
        "cautious interest"@
    } else if trust == 3 {
        "growing warmth"@
    } else if trust <= 5 {
        "openness"@
    } else {
        "deep trust"@
    }
}

/// How an NPC regards the player at trust level `trust`.
pub fn trust_demeanor(trust: i32) -> (r: &'static str)
    ensures
        r@ == demeanor_text(trust),
{
    if trust <= 0 {
        "hostility"
    } else if trust == 1 {
        "wariness"
    } else if trust == 2 {
        "cautious interest"
    } else if trust == 3 {
        "growing warmth"
    } else if trust <= 5 {
        "openness"
    } else {
        "deep trust"
    }
}

/// Whether NPC `npc` is listed in the scene at node `at`.
pub open spec fn in_scene(b: ContentBundle, at: Seq<char>, npc: Seq<char>) -> bool {
    match node_of(b, at) {
        Some(n) => match b.scenes.spec_get(n.content_ref@) {
            Some(s) => string_views(s.npcs@).contains(npc),
            None => false,
        },
        None => false,
    }
}

/// Each string of `s`, wrapped in `pre` and `post`.
pub open spec fn tagged(s: Seq<Seq<char>>, pre: Seq<char>, post: Seq<char>) -> Seq<Seq<char>> {
    s.map_values(|x: Seq<char>| pre + x + post)
}

/// The narration parts of a reward: its description (when not empty),
/// then what it teaches, gives and sets.
pub open spec fn reward_parts(r: NpcTrustReward) -> Seq<Seq<char>> {
    (if r.description@.len() > 0 {
        seq![r.description@]
    } else {
        Seq::empty()
    }) + tagged(string_views(r.grants_knowledge@), "[Learned: "@, "]"@) + tagged(
        string_views(r.grants_items@),
        "[Received: "@,
        "]"@,
    ) + tagged(string_views(r.sets_flags@), "["@, "]"@)
}

/// The state after a reward: its knowledge, items and flags added.
pub open spec fn reward_state(m: StateModel, r: NpcTrustReward) -> StateModel {
    StateModel {
        knowledge: m.knowledge + string_views(r.grants_knowledge@).to_set(),
        inventory: m.inventory + string_views(r.grants_items@).to_set(),
        flags: m.flags + string_views(r.sets_flags@).to_set(),
        ..m
    }
}

/// The rewards whose threshold is crossed going from `old` to `new`,
/// applied in ascending order: the state after them and their narration.
pub open spec fn crossed_rewards(
    m: StateModel,
    rs: Seq<(i32, NpcTrustReward)>,
    old: i32,
    new: i32,
) -> (StateModel, Seq<Seq<char>>)
    decreases rs.len(),
{
    if rs.len() == 0 {
        (m, Seq::empty())
    } else {
        let prev = crossed_rewards(m, rs.drop_last(), old, new);
        let (k, r) = rs.last();
        if old < k && new >= k {
            (reward_state(prev.0, r), prev.1 + reward_parts(r))
        } else {
            prev
        }
    }
}

/// Words joined by single spaces.
pub open spec fn join_words(parts: Seq<Seq<char>>) -> Seq<char>
    decreases parts.len(),
{
    if parts.len() == 0 {
        Seq::empty()
    } else if parts.len() == 1 {
        parts[0]
    } else {
        join_words(parts.drop_last()) + " "@ + parts.last()
    }
}

/// The trust `npc` starts a conversation with: the recorded value, or the
/// NPC's initial trust when none is recorded.
pub open spec fn trust_before(m: StateModel, npc: Seq<char>, d: NpcDef) -> i32 {
    if m.trust.contains_key(npc) {
        m.trust[npc]
    } else {
        d.trust_initial
    }
}

/// What happens, in state `m` at node `at`, when the player talks to
/// `npc`: the new state and the outcome.
pub open spec fn talk_step(b: ContentBundle, at: Seq<char>, m: StateModel, npc: Seq<char>) -> (
    StateModel,
    Outcome,
) {
    let nobody = Outcome::NoEffect("There is no one called '"@ + npc + "' here."@);
    if !in_scene(b, at, npc) {
        if b.npcs.spec_get(npc) is Some {
            (m, Outcome::NoEffect(npc + " is not in this scene."@))
        } else {
            (m, nobody)
        }
    } else {
        match b.npcs.spec_get(npc) {
            None => (m, nobody),
            Some(d) => {
                let old_t = trust_before(m, npc, d);
                let new_t = old_t.wrapping_add(1);
                let m1 = StateModel { trust: m.trust.insert(npc, new_t), ..m };
                let crossed = crossed_rewards(m1, d.trust_rewards.seq(), old_t, new_t);
                let parts = seq!["You speak with "@ + d.name@ + "."@] + crossed.1;
                let parts2 = if parts.len() == 1 {
                    parts.push(d.name@ + " regards you with "@ + demeanor_text(new_t) + "."@)
                } else {
                    parts
                };
                (crossed.0, Outcome::Narration(join_words(parts2)))
            },
        }
    }
}

/// Appends `part` to a narration of at least one part, after a space.
fn push_part(text: &mut String, part: &str, Ghost(parts): Ghost<Seq<Seq<char>>>)
    requires
        parts.len() >= 1,
        old(text)@ == join_words(parts),
    ensures
        final(text)@ == join_words(parts.push(part@)),
{
    text.append(" ");
    text.append(part);
    assert(parts.push(part@).drop_last() =~= parts);
}

/// Adds every string of `items` to `set`, narrating each wrapped in `pre`
/// and `post`.
fn grant_all(
    set: &mut StrSet,
    items: &Vec<String>,
    pre: &str,
    post: &str,
    text: &mut String,
    Ghost(parts): Ghost<Seq<Seq<char>>>,
)
    requires
        parts.len() >= 1,
        old(text)@ == join_words(parts),
    ensures
        final(set).members() == old(set).members() + string_views(items@).to_set(),
        final(text)@ == join_words(parts + tagged(string_views(items@), pre@, post@)),
{
    let ghost s0 = set.members();
    let mut i: usize = 0;
    while i < items.len()
        invariant
            parts.len() >= 1,
            i <= items@.len(),
            set.members() == s0 + string_views(items@.subrange(0, i as int)).to_set(),
            text@ == join_words(parts + tagged(string_views(items@.subrange(0, i as int)), pre@, post@)),
        decreases items@.len() - i,
    {
        let ghost before = parts + tagged(string_views(items@.subrange(0, i as int)), pre@, post@);
        set.insert(items[i].clone());
        let mut tag = String::from_str(pre);
        tag.append(items[i].as_str());
        tag.append(post);
        push_part(text, tag.as_str(), Ghost(before));
        proof {
            let sub = items@.subrange(0, i + 1);
            assert(string_views(sub) =~= string_views(items@.subrange(0, i as int)).push(items@[i as int]@));
            assert(before.push(tag@) =~= parts + tagged(string_views(sub), pre@, post@));
            string_views(items@.subrange(0, i as int)).lemma_push_to_set_commute(items@[i as int]@);
            assert(set.members() =~= s0 + string_views(sub).to_set());
        }
        i = i + 1;
    }
    assert(items@.subrange(0, items@.len() as int) =~= items@);
}

/// Hands out one reward: narrates its description (when not empty) and
/// grants its knowledge, items and flags.
fn hand_out(state: &mut WorldState, reward: &NpcTrustReward, text: &mut String, Ghost(parts): Ghost<Seq<Seq<char>>>)
    requires
        parts.len() >= 1,
        old(text)@ == join_words(parts),
    ensures
        final(state).model() == reward_state(old(state).model(), *reward),
        final(text)@ == join_words(parts + reward_parts(*reward)),
{
    let ghost m0 = state.model();
    let ghost p0 = if reward.description@.len() > 0 {
        parts.push(reward.description@)
    } else {
        parts
    };
    if reward.description.unicode_len() > 0 {
        push_part(text, reward.description.as_str(), Ghost(parts));
    }
    let ghost p1 = p0 + tagged(string_views(reward.grants_knowledge@), "[Learned: "@, "]"@);
    grant_all(&mut state.knowledge, &reward.grants_knowledge, "[Learned: ", "]", text, Ghost(p0));
    let ghost p2 = p1 + tagged(string_views(reward.grants_items@), "[Received: "@, "]"@);
    grant_all(&mut state.inventory, &reward.grants_items, "[Received: ", "]", text, Ghost(p1));
    grant_all(&mut state.flags, &reward.sets_flags, "[", "]", text, Ghost(p2));
    proof {
        assert(p2 + tagged(string_views(reward.sets_flags@), "["@, "]"@) =~= parts + reward_parts(*reward));
        assert(state.model() =~= reward_state(m0, *reward));
    }
}

impl GameDirector {
    /// Talk to `npc_id`: trust with the NPC grows by one (wrapping at the
    /// bound of `i32`), and every reward whose threshold that crosses is
    /// handed out and narrated.
    pub(crate) fn process_talk(&self, npc_id: &str, state: &mut WorldState, bundle: &ContentBundle) -> (r:
        DirectorOutcome)
        ensures
            ({
                let step = talk_step(*bundle, self.node(), old(state).model(), npc_id@);
                final(state).model() == step.0 && super::outcome_view(r) == step.1
            }),
    {
        let ghost m0 = state.model();
        let mut in_scene_now = false;
        match bundle.narrative.get(self.current_node_id()) {
            Some(node) => match bundle.scenes.get(node.content_ref.as_str()) {
                Some(scene) => {
                    let mut i: usize = 0;
                    while i < scene.npcs.len()
                        invariant
                            i <= scene.npcs@.len(),
                            in_scene_now == exists|j: int| 0 <= j < i && scene.npcs@[j]@ == npc_id@,
                        decreases scene.npcs@.len() - i,
                    {
                        if str_eq(scene.npcs[i].as_str(), npc_id) {
                            in_scene_now = true;
                        }
                        i = i + 1;
                    }
                    proof {
                        if in_scene_now {
                            let j = choose|j: int| 0 <= j < scene.npcs@.len() && scene.npcs@[j]@ == npc_id@;
                            assert(string_views(scene.npcs@)[j] == npc_id@);
                        }
                        if string_views(scene.npcs@).contains(npc_id@) {
                            let j = choose|j: int| 0 <= j < string_views(scene.npcs@).len() && string_views(scene.npcs@)[j] == npc_id@;
                            assert(scene.npcs@[j]@ == npc_id@);
                        }
                    }
                },
                None => {},
            },
            None => {},
        }
        if !in_scene_now {
            if bundle.npcs.contains_key(npc_id) {
                let mut s = String::from_str(npc_id);
                s.append(" is not in this scene.");
                return DirectorOutcome::NoEffect(s);
            } else {
                let mut s = String::from_str("There is no one called '");
                s.append(npc_id);
                s.append("' here.");
                return DirectorOutcome::NoEffect(s);
            }
        }
        let npc = match bundle.npcs.get(npc_id) {
            Some(n) => n,
            None => {
                let mut s = String::from_str("There is no one called '");
                s.append(npc_id);
                s.append("' here.");
                return DirectorOutcome::NoEffect(s);
            },
        };
        let old_trust: i32 = match state.trust.get(npc_id) {
            Some(t) => *t,
            None => npc.trust_initial,
        };
        let new_trust = old_trust.wrapping_add(1);
        proof {
            assert(old_trust == trust_before(m0, npc_id@, *npc));
        }
        state.trust.insert(npc_id.to_owned(), new_trust);
        let ghost m1 = state.model();
        let mut text = String::from_str("You speak with ");
        text.append(npc.name.as_str());
        text.append(".");
        let ghost opening = seq!["You speak with "@ + npc.name@ + "."@];
        proof {
            assert(m1 == StateModel { trust: m0.trust.insert(npc_id@, new_trust), ..m0 });
            assert(text@ == join_words(opening));
        }
        let rewards = &npc.trust_rewards;
        let ghost rs = rewards.seq();
        let mut any_part = false;
        let mut i: usize = 0;
        while i < rewards.len()
            invariant
                rs == rewards.seq(),
                i <= rs.len(),
                opening.len() == 1,
                any_part == (crossed_rewards(m1, rs.subrange(0, i as int), old_trust, new_trust).1.len() > 0),
                text@ == join_words(opening + crossed_rewards(m1, rs.subrange(0, i as int), old_trust, new_trust).1),
                state.model() == crossed_rewards(m1, rs.subrange(0, i as int), old_trust, new_trust).0,
            decreases rs.len() - i,
        {
            let k = rewards.key_at(i);
            let reward = rewards.value_at(i);
            let ghost prev = crossed_rewards(m1, rs.subrange(0, i as int), old_trust, new_trust);
            proof {
                assert(rs.subrange(0, i + 1).drop_last() =~= rs.subrange(0, i as int));
                assert(rs.subrange(0, i + 1).last() == (k, *reward));
            }
            if old_trust < k && new_trust >= k {
                hand_out(state, reward, &mut text, Ghost(opening + prev.1));
                if reward.description.unicode_len() > 0 || reward.grants_knowledge.len() > 0
                    || reward.grants_items.len() > 0 || reward.sets_flags.len() > 0 {
                    any_part = true;
                }
                proof {
                    assert(opening + prev.1 + reward_parts(*reward) =~= opening + (prev.1 + reward_parts(*reward)));
                }
            }
            i = i + 1;
        }
        proof {
            assert(rs.subrange(0, rs.len() as int) =~= rs);
        }
        let ghost crossed = crossed_rewards(m1, rs, old_trust, new_trust);
        if !any_part {
            let mut tail = String::from_str(npc.name.as_str());
            tail.append(" regards you with ");
            tail.append(trust_demeanor(new_trust));
            tail.append(".");
            push_part(&mut text, tail.as_str(), Ghost(opening + crossed.1));
        }
        DirectorOutcome::Narration(text)
    }
}

} // verus!
