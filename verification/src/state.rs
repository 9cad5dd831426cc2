//! The world state: knowledge, inventory, flags, trust, timed conditions,
//! arc phases, the active plane and the player's position and turn count.
//!
//! Predicates are evaluated against it and effects are applied to it; this
//! is the combinatorial space that authored structure is traversed through.

use vstd::prelude::*;

use crate::collections::{StrMap, StrSet, entries_map, tick_map};
use crate::narrative::effect::StateEffect;
use crate::narrative::predicate::StatePredicate;

verus! {

/// The mutable game state that predicates query and effects change.
#[derive(Debug)]
pub struct WorldState {
    /// Knowledge fragments the player has acquired.
    pub knowledge: StrSet,
    /// Items in the player's inventory.
    pub inventory: StrSet,
    /// Flags that have been set.
    pub flags: StrSet,
    /// Trust per NPC (absent means 0).
    pub trust: StrMap<i32>,
    /// Active conditions with their remaining turns (0 = permanent).
    pub conditions: StrMap<u32>,
    /// Current phase of each NPC arc.
    pub arcs: StrMap<String>,
    /// The plane the player is currently in.
    pub active_plane: String,
    /// The narrative node the player is at.
    pub current_node: String,
    /// Turns taken.
    pub turn: u32,
}

/// The mathematical content of a world state.
pub struct StateModel {
    /// Knowledge fragments.
    pub knowledge: Set<Seq<char>>,
    /// Inventory items.
    pub inventory: Set<Seq<char>>,
    /// Set flags.
    pub flags: Set<Seq<char>>,
    /// Trust per NPC.
    pub trust: Map<Seq<char>, i32>,
    /// Remaining turns per active condition.
    pub conditions: Map<Seq<char>, u32>,
    /// Phase per arc.
    pub arcs: Map<Seq<char>, Seq<char>>,
    /// Active plane.
    pub plane: Seq<char>,
    /// Current narrative node.
    pub node: Seq<char>,
    /// Turns taken.
    pub turn: nat,
}

/// The empty state model: nothing known, held, set or active.
pub open spec fn empty_model() -> StateModel {
    StateModel {
        knowledge: Set::empty(),
        inventory: Set::empty(),
        flags: Set::empty(),
        trust: Map::empty(),
        conditions: Map::empty(),
        arcs: Map::empty(),
        plane: Seq::empty(),
        node: Seq::empty(),
        turn: 0,
    }
}

/// Trust with `npc` (0 when never set).
pub open spec fn trust_of(m: StateModel, npc: Seq<char>) -> int {
    if m.trust.contains_key(npc) {
        m.trust[npc] as int
    } else {
        0
    }
}

/// `a + b` clamped to the range of `i32`.
pub open spec fn saturating_sum(a: int, b: int) -> i32 {
    if a + b > i32::MAX {
        i32::MAX
    } else if a + b < i32::MIN {
        i32::MIN
    } else {
        (a + b) as i32
    }
}

/// Whether predicate `p` holds in state `m`.
pub open spec fn holds(m: StateModel, p: StatePredicate) -> bool
    decreases p,
{
    match p {
        StatePredicate::HasKnowledge(k) => m.knowledge.contains(k@),
        StatePredicate::LacksKnowledge(k) => !m.knowledge.contains(k@),
        StatePredicate::TrustAbove(npc, lvl) => trust_of(m, npc@) >= lvl as int,
        StatePredicate::TrustBelow(npc, lvl) => trust_of(m, npc@) < lvl as int,
        StatePredicate::InPlane(pl) => m.plane == pl@,
        StatePredicate::HasItem(i) => m.inventory.contains(i@),
        StatePredicate::LacksItem(i) => !m.inventory.contains(i@),
        StatePredicate::ConditionActive(c) => m.conditions.contains_key(c@),
        StatePredicate::ConditionInactive(c) => !m.conditions.contains_key(c@),
        StatePredicate::ArcPhaseIs(npc, phase) => m.arcs.contains_key(npc@) && m.arcs[npc@]
            == phase@,
        StatePredicate::FlagSet(f) => m.flags.contains(f@),
        StatePredicate::FlagUnset(f) => !m.flags.contains(f@),
        StatePredicate::All(ps) => all_hold(m, ps@),
        StatePredicate::Any(ps) => any_holds(m, ps@),
        StatePredicate::Not(inner) => !holds(m, *inner),
    }
}

/// Whether every predicate of `ps` holds.
pub open spec fn all_hold(m: StateModel, ps: Seq<StatePredicate>) -> bool
    decreases ps,
{
    if ps.len() == 0 {
        true
    } else {
        all_hold(m, ps.drop_last()) && holds(m, ps.last())
    }
}

/// Whether some predicate of `ps` holds.
pub open spec fn any_holds(m: StateModel, ps: Seq<StatePredicate>) -> bool
    decreases ps,
{
    if ps.len() == 0 {
        false
    } else {
        any_holds(m, ps.drop_last()) || holds(m, ps.last())
    }
}

/// `all_hold` is the conjunction over every element.
pub proof fn lemma_all_hold(m: StateModel, ps: Seq<StatePredicate>)
    ensures
        all_hold(m, ps) <==> forall|i: int| 0 <= i < ps.len() ==> holds(m, #[trigger] ps[i]),
    decreases ps.len(),
{
    if ps.len() > 0 {
        lemma_all_hold(m, ps.drop_last());
        if forall|i: int| 0 <= i < ps.len() ==> holds(m, #[trigger] ps[i]) {
            assert forall|i: int| 0 <= i < ps.drop_last().len() implies holds(m, #[trigger] ps.drop_last()[i]) by {
                assert(ps.drop_last()[i] == ps[i]);
            }
            assert(holds(m, ps[ps.len() - 1]));
        }
        if all_hold(m, ps) {
            assert forall|i: int| 0 <= i < ps.len() implies holds(m, #[trigger] ps[i]) by {
                if i < ps.len() - 1 {
                    assert(ps.drop_last()[i] == ps[i]);
                }
            }
        }
    }
}

/// `any_holds` is the disjunction over every element.
pub proof fn lemma_any_holds(m: StateModel, ps: Seq<StatePredicate>)
    ensures
        any_holds(m, ps) <==> exists|i: int| 0 <= i < ps.len() && holds(m, #[trigger] ps[i]),
    decreases ps.len(),
{
    if ps.len() > 0 {
        lemma_any_holds(m, ps.drop_last());
        if any_holds(m, ps.drop_last()) {
            let i = choose|i: int| 0 <= i < ps.drop_last().len() && holds(m, #[trigger] ps.drop_last()[i]);
            assert(ps[i] == ps.drop_last()[i]);
        }
        if exists|i: int| 0 <= i < ps.len() && holds(m, #[trigger] ps[i]) {
            let i = choose|i: int| 0 <= i < ps.len() && holds(m, #[trigger] ps[i]);
            if i < ps.len() - 1 {
                assert(ps.drop_last()[i] == ps[i]);
            }
        }
    }
}

/// The state after applying effect `e` to `m`.
pub open spec fn apply_model(m: StateModel, e: StateEffect) -> StateModel
    decreases e,
{
    match e {
        StateEffect::AddKnowledge(k) => StateModel { knowledge: m.knowledge.insert(k@), ..m },
        StateEffect::RemoveKnowledge(k) => StateModel { knowledge: m.knowledge.remove(k@), ..m },
        StateEffect::ModifyTrust(npc, delta) => StateModel {
            trust: m.trust.insert(npc@, saturating_sum(trust_of(m, npc@), delta as int)),
            ..m
        },
        StateEffect::SetTrust(npc, val) => StateModel { trust: m.trust.insert(npc@, val), ..m },
        StateEffect::AddItem(i) => StateModel { inventory: m.inventory.insert(i@), ..m },
        StateEffect::RemoveItem(i) => StateModel { inventory: m.inventory.remove(i@), ..m },
        StateEffect::ApplyCondition(c, dur) => StateModel {
            conditions: m.conditions.insert(c@, dur),
            ..m
        },
        StateEffect::RemoveCondition(c) => StateModel {
            conditions: m.conditions.remove(c@),
            ..m
        },
        StateEffect::AdvanceArc(npc, phase) => StateModel {
            arcs: m.arcs.insert(npc@, phase@),
            ..m
        },
        StateEffect::TransitionPlane(p) => StateModel { plane: p@, ..m },
        StateEffect::SetFlag(f) => StateModel { flags: m.flags.insert(f@), ..m },
        StateEffect::ClearFlag(f) => StateModel { flags: m.flags.remove(f@), ..m },
        StateEffect::Batch(es) => apply_all(m, es@),
    }
}

/// The state after applying every effect of `es` in order.
pub open spec fn apply_all(m: StateModel, es: Seq<StateEffect>) -> StateModel
    decreases es,
{
    if es.len() == 0 {
        m
    } else {
        apply_model(apply_all(m, es.drop_last()), es.last())
    }
}

/// The state after one turn of condition countdown.
pub open spec fn tick_model(m: StateModel) -> StateModel {
    StateModel { conditions: tick_map(m.conditions), ..m }
}

/// The state after `n` turns of condition countdown.
pub open spec fn tick_n(m: StateModel, n: nat) -> StateModel
    decreases n,
{
    if n == 0 {
        m
    } else {
        tick_model(tick_n(m, (n - 1) as nat))
    }
}

impl WorldState {
    /// The mathematical content of this state.
    pub open spec fn model(&self) -> StateModel {
        StateModel {
            knowledge: self.knowledge.members(),
            inventory: self.inventory.members(),
            flags: self.flags.members(),
            trust: self.trust.as_map(),
            conditions: self.conditions.as_map(),
            arcs: self.arcs.as_map().map_values(|s: String| s@),
            plane: self.active_plane@,
            node: self.current_node@,
            turn: self.turn as nat,
        }
    }

    /// A fresh state: nothing known, held, set, trusted or active; no plane,
    /// no position, turn 0.
    pub fn new() -> (r: WorldState)
        ensures
            r.model() == empty_model(),
    {
        let r = WorldState {
            knowledge: StrSet::new(),
            inventory: StrSet::new(),
            flags: StrSet::new(),
            trust: StrMap::new(),
            conditions: StrMap::new(),
            arcs: StrMap::new(),
            active_plane: String::new(),
            current_node: String::new(),
            turn: 0,
        };
        assert(r.model().arcs =~= Map::<Seq<char>, Seq<char>>::empty());
        r
    }

    /// Evaluate a predicate against this state.
    pub fn evaluate(&self, p: &StatePredicate) -> (r: bool)
        ensures
            r == holds(self.model(), *p),
        decreases p,
    {
        match p {
            StatePredicate::HasKnowledge(k) => self.knowledge.contains(k.as_str()),
            StatePredicate::LacksKnowledge(k) => !self.knowledge.contains(k.as_str()),
            StatePredicate::TrustAbove(npc, lvl) => self.trust_value(npc.as_str()) >= *lvl,
            StatePredicate::TrustBelow(npc, lvl) => self.trust_value(npc.as_str()) < *lvl,
            StatePredicate::InPlane(pl) => crate::text::str_eq(
                self.active_plane.as_str(),
                pl.as_str(),
            ),
            StatePredicate::HasItem(i) => self.inventory.contains(i.as_str()),
            StatePredicate::LacksItem(i) => !self.inventory.contains(i.as_str()),
            StatePredicate::ConditionActive(c) => self.conditions.contains_key(c.as_str()),
            StatePredicate::ConditionInactive(c) => !self.conditions.contains_key(c.as_str()),
            StatePredicate::ArcPhaseIs(npc, phase) => {
                match self.arcs.get(npc.as_str()) {
                    Some(cur) => crate::text::str_eq(cur.as_str(), phase.as_str()),
                    None => false,
                }
            },
            StatePredicate::FlagSet(f) => self.flags.contains(f.as_str()),
            StatePredicate::FlagUnset(f) => !self.flags.contains(f.as_str()),
            StatePredicate::All(ps) => self.evaluate_all(ps),
            StatePredicate::Any(ps) => self.evaluate_any(ps),
            StatePredicate::Not(inner) => !self.evaluate(inner),
        }
    }

    /// Whether every predicate of `ps` holds.
    fn evaluate_all(&self, ps: &Vec<StatePredicate>) -> (r: bool)
        ensures
            r == all_hold(self.model(), ps@),
        decreases ps,
    {
        proof {
            lemma_all_hold(self.model(), ps@);
        }
        let mut i: usize = 0;
        while i < ps.len()
            invariant
                i <= ps@.len(),
                forall|j: int| 0 <= j < i ==> holds(self.model(), #[trigger] ps@[j]),
            decreases ps@.len() - i,
        {
            proof {
                assert(decreases_to!(ps => ps@[i as int]));
            }
            if !self.evaluate(&ps[i]) {
                proof {
                    lemma_all_hold(self.model(), ps@);
                }
                return false;
            }
            i = i + 1;
        }
        true
    }

    /// Whether some predicate of `ps` holds.
    fn evaluate_any(&self, ps: &Vec<StatePredicate>) -> (r: bool)
        ensures
            r == any_holds(self.model(), ps@),
        decreases ps,
    {
        proof {
            lemma_any_holds(self.model(), ps@);
        }
        let mut i: usize = 0;
        while i < ps.len()
            invariant
                i <= ps@.len(),
                forall|j: int| 0 <= j < i ==> !holds(self.model(), #[trigger] ps@[j]),
            decreases ps@.len() - i,
        {
            proof {
                assert(decreases_to!(ps => ps@[i as int]));
            }
            if self.evaluate(&ps[i]) {
                proof {
                    lemma_any_holds(self.model(), ps@);
                }
                return true;
            }
            i = i + 1;
        }
        false
    }

    /// Trust with `npc` (0 when never set).
    pub fn trust_value(&self, npc: &str) -> (r: i32)
        ensures
            r as int == trust_of(self.model(), npc@),
    {
        match self.trust.get(npc) {
            Some(t) => *t,
            None => 0,
        }
    }

    /// Apply an effect to this state.
    pub fn apply(&mut self, e: &StateEffect)
        ensures
            final(self).model() == apply_model(old(self).model(), *e),
        decreases e,
    {
        let ghost m = self.model();
        match e {
            StateEffect::AddKnowledge(k) => {
                self.knowledge.insert(k.clone());
            },
            StateEffect::RemoveKnowledge(k) => {
                self.knowledge.remove(k.as_str());
            },
            StateEffect::ModifyTrust(npc, delta) => {
                let cur = self.trust_value(npc.as_str());
                let sum: i64 = cur as i64 + *delta as i64;
                let v: i32 = if sum > i32::MAX as i64 {
                    i32::MAX
                } else if sum < i32::MIN as i64 {
                    i32::MIN
                } else {
                    sum as i32
                };
                self.trust.insert(npc.clone(), v);
            },
            StateEffect::SetTrust(npc, val) => {
                self.trust.insert(npc.clone(), *val);
            },
            StateEffect::AddItem(i) => {
                self.inventory.insert(i.clone());
            },
            StateEffect::RemoveItem(i) => {
                self.inventory.remove(i.as_str());
            },
            StateEffect::ApplyCondition(c, dur) => {
                self.conditions.insert(c.clone(), *dur);
            },
            StateEffect::RemoveCondition(c) => {
                self.conditions.remove(c.as_str());
            },
            StateEffect::AdvanceArc(npc, phase) => {
                let ghost old_arcs = self.arcs.as_map();
                self.arcs.insert(npc.clone(), phase.clone());
                proof {
                    assert(self.arcs.as_map().map_values(|s: String| s@) =~= old_arcs.map_values(
                        |s: String| s@,
                    ).insert(npc@, phase@));
                }
            },
            StateEffect::TransitionPlane(p) => {
                self.active_plane = p.clone();
            },
            StateEffect::SetFlag(f) => {
                self.flags.insert(f.clone());
            },
            StateEffect::ClearFlag(f) => {
                self.flags.remove(f.as_str());
            },
            StateEffect::Batch(es) => {
                self.apply_list(es);
            },
        }
        proof {
            assert(self.model() =~= apply_model(m, *e));
        }
    }

    /// Apply every effect of `es` in order.
    fn apply_list(&mut self, es: &Vec<StateEffect>)
        ensures
            final(self).model() == apply_all(old(self).model(), es@),
        decreases es,
    {
        let ghost m0 = self.model();
        let mut i: usize = 0;
        while i < es.len()
            invariant
                i <= es@.len(),
                self.model() == apply_all(m0, es@.subrange(0, i as int)),
            decreases es@.len() - i,
        {
            proof {
                assert(decreases_to!(es => es@[i as int]));
                assert(es@.subrange(0, i + 1).drop_last() =~= es@.subrange(0, i as int));
            }
            self.apply(&es[i]);
            i = i + 1;
        }
        assert(es@.subrange(0, es@.len() as int) =~= es@);
    }

    /// Count every timed condition down by one turn; conditions reaching the
    /// end of their duration expire, permanent ones (duration 0) stay.
    pub fn tick_conditions(&mut self)
        ensures
            final(self).model() == tick_model(old(self).model()),
    {
        self.conditions.tick();
    }
}

impl Default for WorldState {
    fn default() -> (r: WorldState)
        ensures
            r.model() == empty_model(),
    {
        WorldState::new()
    }
}

/// Every effect takes hold: right after it is applied, the predicate that
/// reads what it wrote is true (and its negation false).
pub proof fn law_effects_take_hold(m: StateModel, name: String, other: String, n: i32, d: u32)
    ensures
        holds(apply_model(m, StateEffect::AddKnowledge(name)), StatePredicate::HasKnowledge(name)),
        holds(
            apply_model(m, StateEffect::RemoveKnowledge(name)),
            StatePredicate::LacksKnowledge(name),
        ),
        holds(apply_model(m, StateEffect::AddItem(name)), StatePredicate::HasItem(name)),
        holds(apply_model(m, StateEffect::RemoveItem(name)), StatePredicate::LacksItem(name)),
        holds(apply_model(m, StateEffect::SetFlag(name)), StatePredicate::FlagSet(name)),
        holds(apply_model(m, StateEffect::ClearFlag(name)), StatePredicate::FlagUnset(name)),
        holds(apply_model(m, StateEffect::SetTrust(name, n)), StatePredicate::TrustAbove(name, n)),
        !holds(apply_model(m, StateEffect::SetTrust(name, n)), StatePredicate::TrustBelow(name, n)),
        holds(
            apply_model(m, StateEffect::ApplyCondition(name, d)),
            StatePredicate::ConditionActive(name),
        ),
        holds(
            apply_model(m, StateEffect::RemoveCondition(name)),
            StatePredicate::ConditionInactive(name),
        ),
        holds(
            apply_model(m, StateEffect::AdvanceArc(name, other)),
            StatePredicate::ArcPhaseIs(name, other),
        ),
        holds(apply_model(m, StateEffect::TransitionPlane(name)), StatePredicate::InPlane(name)),
{
}

/// A predicate and its negation never hold together, and one of them always
/// holds.
pub proof fn law_not_is_complement(m: StateModel, p: StatePredicate)
    ensures
        holds(m, StatePredicate::Not(Box::new(p))) == !holds(m, p),
{
}

/// Trust changes add up: while the total stays inside the range of `i32`,
/// modifying trust by `delta` raises it by exactly `delta` (starting from
/// 0 for an NPC never met).
pub proof fn law_trust_is_additive(m: StateModel, npc: String, delta: i32)
    requires
        i32::MIN <= trust_of(m, npc@) + delta <= i32::MAX,
    ensures
        trust_of(apply_model(m, StateEffect::ModifyTrust(npc, delta)), npc@) == trust_of(m, npc@)
            + delta,
{
}

/// A condition applied for `d > 0` turns stays active for the next `d - 1`
/// ticks and is gone after the `d`-th; a condition applied with duration 0
/// is permanent and survives any number of ticks.
pub proof fn law_condition_duration(m: StateModel, c: String, d: u32, t: nat)
    ensures
        d > 0 && t < d ==> holds(
            tick_n(apply_model(m, StateEffect::ApplyCondition(c, d)), t),
            StatePredicate::ConditionActive(c),
        ),
        d > 0 && t >= d ==> holds(
            tick_n(apply_model(m, StateEffect::ApplyCondition(c, d)), t),
            StatePredicate::ConditionInactive(c),
        ),
        d == 0 ==> holds(
            tick_n(apply_model(m, StateEffect::ApplyCondition(c, d)), t),
            StatePredicate::ConditionActive(c),
        ),
    decreases t,
{
    let m1 = apply_model(m, StateEffect::ApplyCondition(c, d));
    lemma_tick_n_condition(m1, c@, t);
}

/// After `t` ticks a condition that had `r` remaining turns has
/// `r - t` left while `t < r`, is gone once `t >= r` (for `r > 0`), and a
/// permanent one (`r == 0`) is unchanged.
proof fn lemma_tick_n_condition(m: StateModel, c: Seq<char>, t: nat)
    requires
        m.conditions.contains_key(c),
    ensures
        m.conditions[c] > 0 && t < m.conditions[c] ==> tick_n(m, t).conditions.contains_key(c)
            && tick_n(m, t).conditions[c] == m.conditions[c] - t,
        m.conditions[c] > 0 && t >= m.conditions[c] ==> !tick_n(m, t).conditions.contains_key(c),
        m.conditions[c] == 0 ==> tick_n(m, t).conditions.contains_key(c) && tick_n(
            m,
            t,
        ).conditions[c] == 0,
    decreases t,
{
    if t > 0 {
        lemma_tick_n_condition(m, c, (t - 1) as nat);
        let prev = tick_n(m, (t - 1) as nat);
        assert(tick_n(m, t) == tick_model(prev));
        if m.conditions[c] > 0 && t > m.conditions[c] {
            assert(!prev.conditions.contains_key(c));
        }
    }
}

} // verus!
