//! State effects: the typed mutations that game actions apply to the world
//! state.  There are no free-form mutations, only these operations.

use vstd::prelude::*;
use vstd::string::*;

use crate::text::{i64_to_signed_string, i64_to_string, u64_to_string, int_decimal, nat_decimal, signed_decimal};

verus! {

/// A typed mutation to the game state.
#[derive(Debug, PartialEq, Eq)]
pub enum StateEffect {
    /// Add a knowledge fragment to the player's knowledge store.
    AddKnowledge(String),
    /// Remove a knowledge fragment.
    RemoveKnowledge(String),
    /// Modify trust with an NPC by a delta.
    ModifyTrust(String, i32),
    /// Set trust to an exact value.
    SetTrust(String, i32),
    /// Add an item to inventory.
    AddItem(String),
    /// Remove an item from inventory.
    RemoveItem(String),
    /// Apply a condition with a duration in turns (0 = permanent).
    ApplyCondition(String, u32),
    /// Remove a condition.
    RemoveCondition(String),
    /// Advance an NPC's arc to a new phase.
    AdvanceArc(String, String),
    /// Transition to a different plane.
    TransitionPlane(String),
    /// Set a flag.
    SetFlag(String),
    /// Clear a flag.
    ClearFlag(String),
    /// Composite: apply multiple effects in sequence.
    Batch(Vec<StateEffect>),
}

/// The human-readable description of an effect.
pub open spec fn effect_text(e: StateEffect) -> Seq<char>
    decreases e,
{
    match e {
        StateEffect::AddKnowledge(k) => "learn '"@ + k@ + "'"@,
        StateEffect::RemoveKnowledge(k) => "forget '"@ + k@ + "'"@,
        StateEffect::ModifyTrust(npc, delta) => "trust with '"@ + npc@ + "' "@ + signed_decimal(
            delta as int,
        ),
        StateEffect::SetTrust(npc, val) => "trust with '"@ + npc@ + "' = "@ + int_decimal(
            val as int,
        ),
        StateEffect::AddItem(i) => "gain '"@ + i@ + "'"@,
        StateEffect::RemoveItem(i) => "lose '"@ + i@ + "'"@,
        StateEffect::ApplyCondition(c, dur) => if dur == 0 {
            "apply '"@ + c@ + "' (permanent)"@
        } else {
            "apply '"@ + c@ + "' for "@ + nat_decimal(dur as nat) + " turns"@
        },
        StateEffect::RemoveCondition(c) => "remove '"@ + c@ + "'"@,
        StateEffect::AdvanceArc(npc, phase) => "'"@ + npc@ + "' arc -> '"@ + phase@ + "'"@,
        StateEffect::TransitionPlane(p) => "transition to '"@ + p@ + "'"@,
        StateEffect::SetFlag(f) => "set flag '"@ + f@ + "'"@,
        StateEffect::ClearFlag(f) => "clear flag '"@ + f@ + "'"@,
        StateEffect::Batch(es) => "["@ + effects_text(es@) + "]"@,
    }
}

/// The descriptions of a list of effects, joined by `"; "`.
pub open spec fn effects_text(es: Seq<StateEffect>) -> Seq<char>
    decreases es,
{
    if es.len() == 0 {
        Seq::empty()
    } else if es.len() == 1 {
        effect_text(es[0])
    } else {
        effects_text(es.drop_last()) + "; "@ + effect_text(es.last())
    }
}

/// The number of atomic effects, expanding batches.
pub open spec fn atomic_count(e: StateEffect) -> nat
    decreases e,
{
    match e {
        StateEffect::Batch(es) => atomic_count_all(es@),
        _ => 1,
    }
}

/// The number of atomic effects in a list of effects.
pub open spec fn atomic_count_all(es: Seq<StateEffect>) -> nat
    decreases es,
{
    if es.len() == 0 {
        0
    } else {
        atomic_count_all(es.drop_last()) + atomic_count(es.last())
    }
}

/// The atomic count of a prefix never exceeds that of a longer prefix.
proof fn lemma_count_prefix_monotone(es: Seq<StateEffect>, i: int, j: int)
    requires
        0 <= i <= j <= es.len(),
    ensures
        atomic_count_all(es.subrange(0, i)) <= atomic_count_all(es.subrange(0, j)),
    decreases j - i,
{
    if i < j {
        lemma_count_prefix_monotone(es, i, j - 1);
        assert(es.subrange(0, j).drop_last() =~= es.subrange(0, j - 1));
    }
}

/// A batch counts the atomic effects of its members, added up; any other
/// effect counts as one.
pub proof fn law_effect_count(e: StateEffect)
    ensures
        match e {
            StateEffect::Batch(es) => atomic_count(e) == atomic_count_all(es@),
            _ => atomic_count(e) == 1,
        },
{
}

/// The count of a list of effects is additive: the count of two lists
/// one after the other is the sum of their counts (so the empty list
/// counts zero).
pub proof fn law_count_all_concat(a: Seq<StateEffect>, b: Seq<StateEffect>)
    ensures
        atomic_count_all(a + b) == atomic_count_all(a) + atomic_count_all(b),
        atomic_count_all(Seq::<StateEffect>::empty()) == 0,
    decreases b.len(),
{
    if b.len() > 0 {
        law_count_all_concat(a, b.drop_last());
        assert((a + b).drop_last() =~= a + b.drop_last());
        assert((a + b).last() == b.last());
    } else {
        assert(a + b =~= a);
    }
}

impl StateEffect {
    /// Human-readable description of this effect.
    pub fn describe(&self) -> (r: String)
        ensures
            r@ == effect_text(*self),
        decreases self,
    {
        match self {
            StateEffect::AddKnowledge(k) => crate::text::concat3("learn '", k.as_str(), "'"),
            StateEffect::RemoveKnowledge(k) => crate::text::concat3("forget '", k.as_str(), "'"),
            StateEffect::ModifyTrust(npc, delta) => {
                let d = i64_to_signed_string(*delta as i64);
                let mut s = crate::text::concat3("trust with '", npc.as_str(), "' ");
                s.append(d.as_str());
                s
            },
            StateEffect::SetTrust(npc, val) => {
                let d = i64_to_string(*val as i64);
                let mut s = crate::text::concat3("trust with '", npc.as_str(), "' = ");
                s.append(d.as_str());
                s
            },
            StateEffect::AddItem(i) => crate::text::concat3("gain '", i.as_str(), "'"),
            StateEffect::RemoveItem(i) => crate::text::concat3("lose '", i.as_str(), "'"),
            StateEffect::ApplyCondition(c, dur) => {
                if *dur == 0 {
                    crate::text::concat3("apply '", c.as_str(), "' (permanent)")
                } else {
                    let d = u64_to_string(*dur as u64);
                    let mut s = crate::text::concat3("apply '", c.as_str(), "' for ");
                    s.append(d.as_str());
                    s.append(" turns");
                    s
                }
            },
            StateEffect::RemoveCondition(c) => crate::text::concat3("remove '", c.as_str(), "'"),
            StateEffect::AdvanceArc(npc, phase) => {
                let mut s = crate::text::concat3("'", npc.as_str(), "' arc -> '");
                s.append(phase.as_str());
                s.append("'");
                s
            },
            StateEffect::TransitionPlane(p) => crate::text::concat3(
                "transition to '",
                p.as_str(),
                "'",
            ),
            StateEffect::SetFlag(f) => crate::text::concat3("set flag '", f.as_str(), "'"),
            StateEffect::ClearFlag(f) => crate::text::concat3("clear flag '", f.as_str(), "'"),
            StateEffect::Batch(es) => {
                let inner = Self::describe_list(es);
                crate::text::concat3("[", inner.as_str(), "]")
            },
        }
    }

    /// Descriptions of `es`, joined by `"; "`.
    fn describe_list(es: &Vec<StateEffect>) -> (r: String)
        ensures
            r@ == effects_text(es@),
        decreases es,
    {
        let mut s = String::new();
        let mut i: usize = 0;
        while i < es.len()
            invariant
                i <= es@.len(),
                s@ == effects_text(es@.subrange(0, i as int)),
            decreases es@.len() - i,
        {
            proof {
                assert(decreases_to!(es => es@[i as int]));
            }
            let d = es[i].describe();
            if i == 0 {
                s.append(d.as_str());
                proof {
                    assert(s@ =~= effect_text(es@[0]));
                    assert(es@.subrange(0, 1)[0] == es@[0]);
                }
            } else {
                s.append("; ");
                s.append(d.as_str());
                proof {
                    assert(es@.subrange(0, i + 1).drop_last() =~= es@.subrange(0, i as int));
                }
            }
            i = i + 1;
        }
        assert(es@.subrange(0, es@.len() as int) =~= es@);
        s
    }

    /// Count the number of atomic effects (expanding batches).
    pub fn count(&self) -> (r: usize)
        requires
            atomic_count(*self) <= usize::MAX,
        ensures
            r == atomic_count(*self),
        decreases self,
    {
        match self {
            StateEffect::Batch(es) => Self::count_list(es),
            _ => 1,
        }
    }

    /// Total atomic count of `es`.
    fn count_list(es: &Vec<StateEffect>) -> (r: usize)
        requires
            atomic_count_all(es@) <= usize::MAX,
        ensures
            r == atomic_count_all(es@),
        decreases es,
    {
        let mut total: usize = 0;
        let mut i: usize = 0;
        while i < es.len()
            invariant
                i <= es@.len(),
                total == atomic_count_all(es@.subrange(0, i as int)),
                atomic_count_all(es@) <= usize::MAX,
            decreases es@.len() - i,
        {
            proof {
                assert(decreases_to!(es => es@[i as int]));
                assert(es@.subrange(0, i + 1).drop_last() =~= es@.subrange(0, i as int));
                assert(es@.subrange(0, es@.len() as int) =~= es@);
                lemma_count_prefix_monotone(es@, i + 1, es@.len() as int);
            }
            let c = es[i].count();
            total = total + c;
            i = i + 1;
        }
        assert(es@.subrange(0, es@.len() as int) =~= es@);
        total
    }
}

} // verus!
