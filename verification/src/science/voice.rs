//! Offline voice interjections: "internal voice" notes that fire on game
//! state predicates, ordered by priority.

use vstd::prelude::*;
use vstd::string::*;

use crate::state::{StateModel, WorldState};

verus! {

/// A voice profile that can fire interjections.
#[derive(Debug, Clone)]
pub struct VoiceProfile {
    /// Voice identifier (e.g. "logic", "empathy", "perception").
    pub id: &'static str,
    /// Display name shown to the player.
    pub display_name: &'static str,
    /// Triggers that cause this voice to fire.
    pub triggers: &'static [VoiceTrigger],
}

/// A condition under which a voice fires an interjection.
#[derive(Debug, Clone)]
pub struct VoiceTrigger {
    /// What state condition activates this trigger.
    pub condition: TriggerCondition,
    /// The interjection text to display.
    pub text: &'static str,
    /// Priority (lower = shown first when multiple voices fire).
    pub priority: u32,
}

/// Condition types for voice triggers.
#[derive(Debug, Clone)]
pub enum TriggerCondition {
    /// Fires when the player has a specific knowledge entry.
    HasKnowledge(&'static str),
    /// Fires when the player has a specific flag set.
    HasFlag(&'static str),
    /// Fires when trust with an NPC exceeds a threshold.
    TrustAbove(&'static str, i32),
    /// Fires when trust with an NPC is below a threshold.
    TrustBelow(&'static str, i32),
    /// Fires when the player has a specific item.
    HasItem(&'static str),
    /// Fires when the player is on a specific narrative plane.
    OnPlane(&'static str),
}

/// A fired voice interjection ready for enrichment.
#[derive(Debug, Clone)]
pub struct FiredInterjection {
    /// Voice identifier.
    pub voice_id: String,
    /// Interjection text.
    pub text: String,
    /// Priority (lower = more important).
    pub priority: u32,
}

/// The mathematical content of a fired interjection: (voice, text, priority).
pub open spec fn fired_view(f: FiredInterjection) -> (Seq<char>, Seq<char>, u32) {
    (f.voice_id@, f.text@, f.priority)
}

/// The mathematical content of a list of fired interjections.
pub open spec fn fired_views(s: Seq<FiredInterjection>) -> Seq<(Seq<char>, Seq<char>, u32)> {
    s.map_values(|f: FiredInterjection| fired_view(f))
}

/// Whether a trigger condition holds in a state. A trust condition needs
/// a recorded trust for the NPC.
pub open spec fn condition_holds(c: TriggerCondition, m: StateModel) -> bool {
    match c {
        TriggerCondition::HasKnowledge(k) => m.knowledge.contains(k@),
        TriggerCondition::HasFlag(f) => m.flags.contains(f@),
        TriggerCondition::TrustAbove(npc, t) => m.trust.contains_key(npc@) && m.trust[npc@] > t,
        TriggerCondition::TrustBelow(npc, t) => m.trust.contains_key(npc@) && m.trust[npc@] < t,
        TriggerCondition::HasItem(i) => m.inventory.contains(i@),
        TriggerCondition::OnPlane(p) => m.plane == p@,
    }
}

/// The interjections of one voice whose triggers hold, in trigger order.
pub open spec fn fired_by(id: Seq<char>, ts: Seq<VoiceTrigger>, m: StateModel) -> Seq<(Seq<char>, Seq<char>, u32)>
    decreases ts.len(),
{
    if ts.len() == 0 {
        Seq::empty()
    } else {
        let rest = fired_by(id, ts.drop_last(), m);
        if condition_holds(ts.last().condition, m) {
            rest.push((id, ts.last().text@, ts.last().priority))
        } else {
            rest
        }
    }
}

/// The interjections of all voices whose triggers hold, voice by voice.
pub open spec fn fired_all(vs: Seq<VoiceProfile>, m: StateModel) -> Seq<(Seq<char>, Seq<char>, u32)>
    decreases vs.len(),
{
    if vs.len() == 0 {
        Seq::empty()
    } else {
        fired_all(vs.drop_last(), m) + fired_by(vs.last().id@, vs.last().triggers@, m)
    }
}

/// The entries of `s` with priority `p`, in order.
pub open spec fn at_priority(s: Seq<(Seq<char>, Seq<char>, u32)>, p: u32) -> Seq<(Seq<char>, Seq<char>, u32)>
    decreases s.len(),
{
    if s.len() == 0 {
        Seq::empty()
    } else {
        let r = at_priority(s.drop_last(), p);
        if s.last().2 == p {
            r.push(s.last())
        } else {
            r
        }
    }
}

/// Whether `s` is ordered by priority, lowest first.
pub open spec fn by_priority(s: Seq<(Seq<char>, Seq<char>, u32)>) -> bool {
    forall|i: int, j: int| 0 <= i < j < s.len() ==> s[i].2 <= s[j].2
}

/// Picking out one priority distributes over concatenation.
proof fn lemma_at_priority_add(a: Seq<(Seq<char>, Seq<char>, u32)>, b: Seq<(Seq<char>, Seq<char>, u32)>, p: u32)
    ensures
        at_priority(a + b, p) == at_priority(a, p) + at_priority(b, p),
    decreases b.len(),
{
    if b.len() == 0 {
        assert(a + b =~= a);
        assert(at_priority(a, p) + at_priority(b, p) =~= at_priority(a, p));
    } else {
        lemma_at_priority_add(a, b.drop_last(), p);
        assert((a + b).drop_last() =~= a + b.drop_last());
        assert((a + b).last() == b.last());
        if b.last().2 == p {
            assert(at_priority(a, p) + at_priority(b, p) =~= (at_priority(a, p) + at_priority(b.drop_last(), p)).push(b.last()));
        }
    }
}

/// Entries all of other priorities contribute nothing.
proof fn lemma_at_priority_none(s: Seq<(Seq<char>, Seq<char>, u32)>, p: u32)
    requires
        forall|i: int| 0 <= i < s.len() ==> s[i].2 != p,
    ensures
        at_priority(s, p) == Seq::<(Seq<char>, Seq<char>, u32)>::empty(),
    decreases s.len(),
{
    if s.len() > 0 {
        lemma_at_priority_none(s.drop_last(), p);
    }
}

/// Whether the trigger condition holds in the state.
fn matches_condition(condition: &TriggerCondition, state: &WorldState) -> (r: bool)
    ensures
        r == condition_holds(*condition, state.model()),
{
    match condition {
        TriggerCondition::HasKnowledge(k) => state.knowledge.contains(k),
        TriggerCondition::HasFlag(f) => state.flags.contains(f),
        TriggerCondition::TrustAbove(npc, threshold) => match state.trust.get(npc) {
            Some(t) => *t > *threshold,
            None => false,
        },
        TriggerCondition::TrustBelow(npc, threshold) => match state.trust.get(npc) {
            Some(t) => *t < *threshold,
            None => false,
        },
        TriggerCondition::HasItem(item) => state.inventory.contains(item),
        TriggerCondition::OnPlane(plane) => crate::text::str_eq(state.active_plane.as_str(), plane),
    }
}

/// Inserts `x` after every entry of priority at most its own: the order
/// stays by priority, and entries of equal priority keep arrival order.
fn insert_by_priority(out: &mut Vec<FiredInterjection>, x: FiredInterjection)
    requires
        by_priority(fired_views(old(out)@)),
    ensures
        by_priority(fired_views(final(out)@)),
        final(out)@.len() == old(out)@.len() + 1,
        forall|p: u32| #[trigger] at_priority(fired_views(final(out)@), p) == at_priority(
            fired_views(old(out)@),
            p,
        ) + at_priority(seq![fired_view(x)], p),
{
    let ghost s = fired_views(out@);
    let ghost xv = fired_view(x);
    let mut pos: usize = 0;
    while pos < out.len() && out[pos].priority <= x.priority
        invariant
            pos <= out@.len(),
            s == fired_views(out@),
            forall|i: int| 0 <= i < pos ==> s[i].2 <= x.priority,
        decreases out@.len() - pos,
    {
        pos = pos + 1;
    }
    let ghost a = s.subrange(0, pos as int);
    let ghost b = s.subrange(pos as int, s.len() as int);
    proof {
        if pos < s.len() {
            assert(s[pos as int].2 > x.priority);
        }
        assert forall|i: int| 0 <= i < b.len() implies b[i].2 > x.priority by {
            assert(b[i] == s[pos + i]);
            if i > 0 {
                assert(s[pos as int].2 <= s[pos + i].2);
            }
        }
        assert(s =~= a + b);
    }
    out.insert(pos, x);
    let ghost t = fired_views(out@);
    proof {
        assert(t =~= a + seq![xv] + b);
        assert forall|i: int, j: int| 0 <= i < j < t.len() implies t[i].2 <= t[j].2 by {
            if j < pos {
                assert(t[i] == s[i] && t[j] == s[j]);
            } else if j == pos {
                assert(t[i] == s[i]);
            } else if i < pos {
                assert(t[i] == s[i] && t[j] == s[j - 1]);
                assert(s[i].2 <= xv.2);
            } else if i == pos {
                assert(t[j] == b[j - pos - 1]);
            } else {
                assert(t[i] == s[i - 1] && t[j] == s[j - 1]);
            }
        }
        assert forall|p: u32| #[trigger] at_priority(t, p) == at_priority(s, p) + at_priority(seq![xv], p) by {
            lemma_at_priority_add(a + seq![xv], b, p);
            lemma_at_priority_add(a, seq![xv], p);
            lemma_at_priority_add(a, b, p);
            lemma_at_priority_add(seq![xv], b, p);
            if p == xv.2 {
                lemma_at_priority_none(b, p);
                assert(at_priority(s, p) =~= at_priority(a, p));
                assert(at_priority(t, p) =~= at_priority(a, p) + at_priority(seq![xv], p));
            } else {
                assert(seq![xv].drop_last() =~= Seq::<(Seq<char>, Seq<char>, u32)>::empty());
                assert(seq![xv].last() == xv);
                assert(at_priority(Seq::<(Seq<char>, Seq<char>, u32)>::empty(), p) =~= Seq::<(Seq<char>, Seq<char>, u32)>::empty());
                assert(at_priority(seq![xv], p) =~= Seq::<(Seq<char>, Seq<char>, u32)>::empty());
                assert(at_priority(t, p) =~= at_priority(a, p) + at_priority(b, p));
            }
        }
    }
}

/// Evaluates all voice profiles against the state: the interjections of
/// every trigger that holds, ordered by priority (lowest first); those of
/// equal priority in voice order, then trigger order.
pub fn evaluate_voices(state: &WorldState, voices: &[VoiceProfile]) -> (r: Vec<FiredInterjection>)
    ensures
        by_priority(fired_views(r@)),
        r@.len() == fired_all(voices@, state.model()).len(),
        forall|p: u32| #[trigger] at_priority(fired_views(r@), p) == at_priority(
            fired_all(voices@, state.model()),
            p,
        ),
{
    let ghost m = state.model();
    let mut fired: Vec<FiredInterjection> = Vec::new();
    let mut v: usize = 0;
    while v < voices.len()
        invariant
            v <= voices@.len(),
            m == state.model(),
            by_priority(fired_views(fired@)),
            fired@.len() == fired_all(voices@.subrange(0, v as int), m).len(),
            forall|p: u32| #[trigger] at_priority(fired_views(fired@), p) == at_priority(
                fired_all(voices@.subrange(0, v as int), m),
                p,
            ),
        decreases voices@.len() - v,
    {
        let voice = &voices[v];
        let ghost done = fired_all(voices@.subrange(0, v as int), m);
        let ghost ts = voice.triggers@;
        proof {
            assert(voices@.subrange(0, v + 1).drop_last() =~= voices@.subrange(0, v as int));
            assert(voices@.subrange(0, v + 1).last() == *voice);
        }
        let mut t: usize = 0;
        while t < voice.triggers.len()
            invariant
                t <= ts.len(),
                ts == voice.triggers@,
                m == state.model(),
                by_priority(fired_views(fired@)),
                fired@.len() == (done + fired_by(voice.id@, ts.subrange(0, t as int), m)).len(),
                forall|p: u32| #[trigger] at_priority(fired_views(fired@), p) == at_priority(
                    done + fired_by(voice.id@, ts.subrange(0, t as int), m),
                    p,
                ),
            decreases ts.len() - t,
        {
            let trigger = &voice.triggers[t];
            let ghost pre = fired_by(voice.id@, ts.subrange(0, t as int), m);
            proof {
                assert(ts.subrange(0, t + 1).drop_last() =~= ts.subrange(0, t as int));
                assert(ts.subrange(0, t + 1).last() == *trigger);
            }
            if matches_condition(&trigger.condition, state) {
                let x = FiredInterjection {
                    voice_id: String::from_str(voice.id),
                    text: String::from_str(trigger.text),
                    priority: trigger.priority,
                };
                let ghost xv = fired_view(x);
                insert_by_priority(&mut fired, x);
                proof {
                    assert forall|p: u32| #[trigger] at_priority(fired_views(fired@), p) == at_priority(
                        done + fired_by(voice.id@, ts.subrange(0, t + 1), m),
                        p,
                    ) by {
                        assert(done + pre.push(xv) =~= (done + pre) + seq![xv]);
                        lemma_at_priority_add(done + pre, seq![xv], p);
                    }
                }
            }
            t = t + 1;
        }
        proof {
            assert(ts.subrange(0, ts.len() as int) =~= ts);
        }
        v = v + 1;
    }
    proof {
        assert(voices@.subrange(0, voices@.len() as int) =~= voices@);
    }
    fired
}

/// Whether `t` is the trigger with condition `c`, text `text` and
/// priority `priority`.
pub open spec fn trigger_is(t: VoiceTrigger, c: spec_fn(TriggerCondition) -> bool, text: Seq<char>, priority: u32) -> bool {
    c(t.condition) && t.text@ == text && t.priority == priority
}

/// Whether `v` is the voice `id` shown as `name`, with two triggers.
pub open spec fn voice_is(v: VoiceProfile, id: Seq<char>, name: Seq<char>) -> bool {
    v.id@ == id && v.display_name@ == name && v.triggers@.len() == 2
}

/// The starter set of voices for offline play: logic, empathy and
/// perception, two triggers each.
pub fn built_in_voices() -> (r: Vec<VoiceProfile>)
    ensures
        r@.len() == 3,
        voice_is(r@[0], "logic"@, "Logic"@),
        trigger_is(r@[0].triggers@[0], |c: TriggerCondition| c matches TriggerCondition::HasKnowledge(k) && k@ == "contradiction"@,
            "Something doesn't add up here. The facts contradict each other."@, 1),
        trigger_is(r@[0].triggers@[1], |c: TriggerCondition| c matches TriggerCondition::HasFlag(f) && f@ == "evidence_found"@,
            "We have evidence now. Time to confront the inconsistencies."@, 2),
        voice_is(r@[1], "empathy"@, "Empathy"@),
        trigger_is(r@[1].triggers@[0], |c: TriggerCondition| c matches TriggerCondition::TrustBelow(n, t) && n@ == "maren"@ && t == 0,
            "She's pulling away. Something we said hurt her."@, 1),
        trigger_is(r@[1].triggers@[1], |c: TriggerCondition| c matches TriggerCondition::TrustAbove(n, t) && n@ == "maren"@ && t == 5,
            "There's genuine warmth here now. She trusts us."@, 3),
        voice_is(r@[2], "perception"@, "Perception"@),
        trigger_is(r@[2].triggers@[0], |c: TriggerCondition| c matches TriggerCondition::HasItem(i) && i@ == "old_key"@,
            "That key... it's heavier than it should be. There's something inside."@, 2),
        trigger_is(r@[2].triggers@[1], |c: TriggerCondition| c matches TriggerCondition::OnPlane(p) && p@ == "shadow"@,
            "The shadows are thicker here. Stay alert."@, 1),
{
    vec![
    VoiceProfile {
        id: "logic",
        display_name: "Logic",
        triggers: &[
            VoiceTrigger {
                condition: TriggerCondition::HasKnowledge("contradiction"),
                text: "Something doesn't add up here. The facts contradict each other.",
                priority: 1,
            },
            VoiceTrigger {
                condition: TriggerCondition::HasFlag("evidence_found"),
                text: "We have evidence now. Time to confront the inconsistencies.",
                priority: 2,
            },
        ],
    },
    VoiceProfile {
        id: "empathy",
        display_name: "Empathy",
        triggers: &[
            VoiceTrigger {
                condition: TriggerCondition::TrustBelow("maren", 0),
                text: "She's pulling away. Something we said hurt her.",
                priority: 1,
            },
            VoiceTrigger {
                condition: TriggerCondition::TrustAbove("maren", 5),
                text: "There's genuine warmth here now. She trusts us.",
                priority: 3,
            },
        ],
    },
    VoiceProfile {
        id: "perception",
        display_name: "Perception",
        triggers: &[
            VoiceTrigger {
                condition: TriggerCondition::HasItem("old_key"),
                text: "That key... it's heavier than it should be. There's something inside.",
                priority: 2,
            },
            VoiceTrigger {
                condition: TriggerCondition::OnPlane("shadow"),
                text: "The shadows are thicker here. Stay alert.",
                priority: 1,
            },
        ],
    },
]
}

} // verus!
