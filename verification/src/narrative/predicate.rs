//! State predicates: composable queries against the world state.
//!
//! Predicates gate traversal: they appear in narrative edge conditions,
//! node preconditions and ability preconditions.

use vstd::prelude::*;
use vstd::string::*;

use crate::text::{i64_to_string, int_decimal};

verus! {

/// A composable predicate that queries the game state.
#[derive(Debug, PartialEq, Eq)]
pub enum StatePredicate {
    /// Player has acquired a specific knowledge fragment.
    HasKnowledge(String),
    /// Player does NOT have a specific knowledge fragment.
    LacksKnowledge(String),
    /// Trust with an NPC is at or above a threshold.
    TrustAbove(String, i32),
    /// Trust with an NPC is below a threshold.
    TrustBelow(String, i32),
    /// Player is currently in a specific plane.
    InPlane(String),
    /// Player has a specific item in inventory.
    HasItem(String),
    /// Player does not have a specific item.
    LacksItem(String),
    /// A specific condition is currently active.
    ConditionActive(String),
    /// A specific condition is NOT active.
    ConditionInactive(String),
    /// An NPC's arc is at a specific phase.
    ArcPhaseIs(String, String),
    /// A flag has been set.
    FlagSet(String),
    /// A flag has NOT been set.
    FlagUnset(String),
    /// All sub-predicates must be true.
    All(Vec<StatePredicate>),
    /// At least one sub-predicate must be true.
    Any(Vec<StatePredicate>),
    /// The sub-predicate must be false.
    Not(Box<StatePredicate>),
}

/// The human-readable description of a predicate.
pub open spec fn predicate_text(p: StatePredicate) -> Seq<char>
    decreases p,
{
    match p {
        StatePredicate::HasKnowledge(k) => "knows '"@ + k@ + "'"@,
        StatePredicate::LacksKnowledge(k) => "does not know '"@ + k@ + "'"@,
        StatePredicate::TrustAbove(npc, lvl) => "trust with '"@ + npc@ + "' >= "@ + int_decimal(
            lvl as int,
        ),
        StatePredicate::TrustBelow(npc, lvl) => "trust with '"@ + npc@ + "' < "@ + int_decimal(
            lvl as int,
        ),
        StatePredicate::InPlane(pl) => "in plane '"@ + pl@ + "'"@,
        StatePredicate::HasItem(i) => "has item '"@ + i@ + "'"@,
        StatePredicate::LacksItem(i) => "lacks item '"@ + i@ + "'"@,
        StatePredicate::ConditionActive(c) => "condition '"@ + c@ + "' active"@,
        StatePredicate::ConditionInactive(c) => "condition '"@ + c@ + "' inactive"@,
        StatePredicate::ArcPhaseIs(npc, phase) => "'"@ + npc@ + "' arc at '"@ + phase@ + "'"@,
        StatePredicate::FlagSet(f) => "flag '"@ + f@ + "' set"@,
        StatePredicate::FlagUnset(f) => "flag '"@ + f@ + "' unset"@,
        StatePredicate::All(ps) => "all of ["@ + predicates_text(ps@) + "]"@,
        StatePredicate::Any(ps) => "any of ["@ + predicates_text(ps@) + "]"@,
        StatePredicate::Not(inner) => "not ("@ + predicate_text(*inner) + ")"@,
    }
}

/// The descriptions of a list of predicates, joined by `", "`.
pub open spec fn predicates_text(ps: Seq<StatePredicate>) -> Seq<char>
    decreases ps,
{
    if ps.len() == 0 {
        Seq::empty()
    } else if ps.len() == 1 {
        predicate_text(ps[0])
    } else {
        predicates_text(ps.drop_last()) + ", "@ + predicate_text(ps.last())
    }
}

/// `predicates_text` of one more element extends the text by a separator
/// and that element's description.
proof fn lemma_predicates_text_step(ps: Seq<StatePredicate>, i: int)
    requires
        0 < i < ps.len(),
    ensures
        predicates_text(ps.subrange(0, i + 1)) == predicates_text(ps.subrange(0, i)) + ", "@
            + predicate_text(ps[i]),
{
    assert(ps.subrange(0, i + 1).drop_last() =~= ps.subrange(0, i));
}

impl StatePredicate {
    /// Human-readable description of this predicate.
    pub fn describe(&self) -> (r: String)
        ensures
            r@ == predicate_text(*self),
        decreases self,
    {
        match self {
            StatePredicate::HasKnowledge(k) => crate::text::concat3("knows '", k.as_str(), "'"),
            StatePredicate::LacksKnowledge(k) => crate::text::concat3(
                "does not know '",
                k.as_str(),
                "'",
            ),
            StatePredicate::TrustAbove(npc, lvl) => {
                let n = i64_to_string(*lvl as i64);
                let mut s = crate::text::concat3("trust with '", npc.as_str(), "' >= ");
                s.append(n.as_str());
                s
            },
            StatePredicate::TrustBelow(npc, lvl) => {
                let n = i64_to_string(*lvl as i64);
                let mut s = crate::text::concat3("trust with '", npc.as_str(), "' < ");
                s.append(n.as_str());
                s
            },
            StatePredicate::InPlane(p) => crate::text::concat3("in plane '", p.as_str(), "'"),
            StatePredicate::HasItem(i) => crate::text::concat3("has item '", i.as_str(), "'"),
            StatePredicate::LacksItem(i) => crate::text::concat3("lacks item '", i.as_str(), "'"),
            StatePredicate::ConditionActive(c) => crate::text::concat3(
                "condition '",
                c.as_str(),
                "' active",
            ),
            StatePredicate::ConditionInactive(c) => crate::text::concat3(
                "condition '",
                c.as_str(),
                "' inactive",
            ),
            StatePredicate::ArcPhaseIs(npc, phase) => {
                let mut s = crate::text::concat3("'", npc.as_str(), "' arc at '");
                s.append(phase.as_str());
                s.append("'");
                s
            },
            StatePredicate::FlagSet(f) => crate::text::concat3("flag '", f.as_str(), "' set"),
            StatePredicate::FlagUnset(f) => crate::text::concat3("flag '", f.as_str(), "' unset"),
            StatePredicate::All(ps) => {
                let inner = Self::describe_list(ps);
                crate::text::concat3("all of [", inner.as_str(), "]")
            },
            StatePredicate::Any(ps) => {
                let inner = Self::describe_list(ps);
                crate::text::concat3("any of [", inner.as_str(), "]")
            },
            StatePredicate::Not(inner) => {
                let d = inner.describe();
                crate::text::concat3("not (", d.as_str(), ")")
            },
        }
    }

    /// Descriptions of `ps`, joined by `", "`.
    fn describe_list(ps: &Vec<StatePredicate>) -> (r: String)
        ensures
            r@ == predicates_text(ps@),
        decreases ps,
    {
        let mut s = String::new();
        let mut i: usize = 0;
        while i < ps.len()
            invariant
                i <= ps@.len(),
                s@ == predicates_text(ps@.subrange(0, i as int)),
            decreases ps@.len() - i,
        {
            proof {
                assert(decreases_to!(ps => ps@[i as int]));
            }
            let d = ps[i].describe();
            if i == 0 {
                proof {
                    assert(ps@.subrange(0, 1).drop_last() =~= ps@.subrange(0, 0));
                    assert(ps@.subrange(0, 0).len() == 0);
                }
                s.append(d.as_str());
                proof {
                    assert(s@ =~= predicate_text(ps@[0]));
                    assert(ps@.subrange(0, 1)[0] == ps@[0]);
                }
            } else {
                s.append(", ");
                s.append(d.as_str());
                proof {
                    lemma_predicates_text_step(ps@, i as int);
                }
            }
            i = i + 1;
        }
        assert(ps@.subrange(0, ps@.len() as int) =~= ps@);
        s
    }
}

} // verus!
