//! String-keyed collections: an ordered set of strings and an
//! insertion-ordered map from strings to values.

use vstd::prelude::*;
use vstd::string::*;

use crate::text::str_eq;

verus! {

/// Lexicographic order on character sequences, by code point (the order of
/// `String`'s `Ord`).
pub open spec fn seq_lt(a: Seq<char>, b: Seq<char>) -> bool
    decreases a.len(),
{
    if b.len() == 0 {
        false
    } else if a.len() == 0 {
        true
    } else if (a[0] as int) < (b[0] as int) {
        true
    } else if a[0] == b[0] {
        seq_lt(a.drop_first(), b.drop_first())
    } else {
        false
    }
}

/// Every earlier element is strictly below every later one.
pub open spec fn strictly_sorted(s: Seq<Seq<char>>) -> bool {
    forall|i: int, j: int| 0 <= i < j < s.len() ==> seq_lt(#[trigger] s[i], #[trigger] s[j])
}

/// The character sequences of a sequence of strings.
pub open spec fn string_views(s: Seq<String>) -> Seq<Seq<char>> {
    s.map_values(|x: String| x@)
}

/// No element occurs twice.
pub open spec fn distinct(s: Seq<Seq<char>>) -> bool {
    forall|i: int, j: int| 0 <= i < j < s.len() ==> #[trigger] s[i] != #[trigger] s[j]
}

/// `seq_lt` is irreflexive.
pub proof fn lemma_lt_irreflexive(a: Seq<char>)
    ensures
        !seq_lt(a, a),
    decreases a.len(),
{
    if a.len() > 0 {
        lemma_lt_irreflexive(a.drop_first());
    }
}

/// `seq_lt` is transitive.
pub proof fn lemma_lt_transitive(a: Seq<char>, b: Seq<char>, c: Seq<char>)
    requires
        seq_lt(a, b),
        seq_lt(b, c),
    ensures
        seq_lt(a, c),
    decreases a.len(),
{
    if a.len() > 0 && b.len() > 0 && c.len() > 0 {
        if a[0] == b[0] && b[0] == c[0] {
            lemma_lt_transitive(a.drop_first(), b.drop_first(), c.drop_first());
        }
    }
}

/// Two distinct sequences are ordered one way or the other.
pub proof fn lemma_lt_total(a: Seq<char>, b: Seq<char>)
    ensures
        a == b || seq_lt(a, b) || seq_lt(b, a),
    decreases a.len(),
{
    if a.len() == 0 && b.len() == 0 {
        assert(a =~= b);
    } else if a.len() > 0 && b.len() > 0 && a[0] == b[0] {
        lemma_lt_total(a.drop_first(), b.drop_first());
        if a.drop_first() == b.drop_first() {
            assert forall|i: int| 0 <= i < a.len() implies a[i] == b[i] by {
                if i > 0 {
                    assert(a[i] == a.drop_first()[i - 1]);
                    assert(b[i] == b.drop_first()[i - 1]);
                }
            }
            assert(a.len() == a.drop_first().len() + 1);
            assert(b.len() == b.drop_first().len() + 1);
            assert(a =~= b);
        }
    }
}

/// A strictly sorted sequence has no duplicates.
pub proof fn lemma_sorted_distinct(s: Seq<Seq<char>>)
    requires
        strictly_sorted(s),
    ensures
        distinct(s),
{
    assert forall|i: int, j: int| 0 <= i < j < s.len() implies #[trigger] s[i] != #[trigger] s[j] by {
        lemma_lt_irreflexive(s[i]);
    }
}

/// Inserting into a sequence adds exactly that element to its set.
pub proof fn lemma_insert_to_set(s: Seq<Seq<char>>, p: int, x: Seq<char>)
    requires
        0 <= p <= s.len(),
    ensures
        s.insert(p, x).to_set() == s.to_set().insert(x),
{
    let ne = s.insert(p, x);
    assert forall|y: Seq<char>| #[trigger] ne.to_set().contains(y) <==> s.to_set().insert(x).contains(y) by {
        if ne.contains(y) {
            let k = choose|k: int| 0 <= k < ne.len() && ne[k] == y;
            if k < p {
                assert(s[k] == y);
            } else if k > p {
                assert(s[k - 1] == y);
            }
        }
        if s.contains(y) {
            let k = choose|k: int| 0 <= k < s.len() && s[k] == y;
            if k < p {
                assert(ne[k] == y);
            } else {
                assert(ne[k + 1] == y);
            }
        }
        if y == x {
            assert(ne[p] == y);
        }
    }
    assert(ne.to_set() =~= s.to_set().insert(x));
}

/// Removing a position from a duplicate-free sequence removes exactly that
/// element from its set.
pub proof fn lemma_remove_to_set(s: Seq<Seq<char>>, i: int)
    requires
        0 <= i < s.len(),
        distinct(s),
    ensures
        s.remove(i).to_set() == s.to_set().remove(s[i]),
{
    let ne = s.remove(i);
    assert forall|y: Seq<char>| #[trigger] ne.to_set().contains(y) <==> s.to_set().remove(s[i]).contains(y) by {
        if ne.contains(y) {
            let k = choose|k: int| 0 <= k < ne.len() && ne[k] == y;
            if k < i {
                assert(s[k] == y);
            } else {
                assert(s[k + 1] == y);
            }
        }
        if s.contains(y) && y != s[i] {
            let k = choose|k: int| 0 <= k < s.len() && s[k] == y;
            if k < i {
                assert(ne[k] == y);
            } else if k > i {
                assert(ne[k - 1] == y);
            }
        }
    }
    assert(ne.to_set() =~= s.to_set().remove(s[i]));
}

/// Lexicographic comparison of two strings.
pub fn str_lt(a: &str, b: &str) -> (r: bool)
    ensures
        r == seq_lt(a@, b@),
{
    let n = a.unicode_len();
    let m = b.unicode_len();
    let mut i: usize = 0;
    assert(a@.skip(0) =~= a@);
    assert(b@.skip(0) =~= b@);
    while i < n && i < m
        invariant
            n == a@.len(),
            m == b@.len(),
            i <= n,
            i <= m,
            seq_lt(a@, b@) == seq_lt(a@.skip(i as int), b@.skip(i as int)),
        decreases n - i,
    {
        let ca = a.get_char(i);
        let cb = b.get_char(i);
        let xa = ca as u32;
        let xb = cb as u32;
        if xa < xb {
            return true;
        }
        if ca != cb {
            return false;
        }
        assert(a@.skip(i as int).drop_first() =~= a@.skip(i + 1));
        assert(b@.skip(i as int).drop_first() =~= b@.skip(i + 1));
        i = i + 1;
    }
    i < m
}

/// A set of strings, kept in ascending lexicographic order without duplicates.
#[derive(Debug)]
pub struct StrSet {
    items: Vec<String>,
}

impl StrSet {
    #[verifier::type_invariant]
    spec fn sorted_inv(self) -> bool {
        strictly_sorted(string_views(self.items@))
    }

    /// The members, in ascending order.
    pub closed spec fn elems(self) -> Seq<Seq<char>> {
        string_views(self.items@)
    }

    /// The members as a mathematical set.
    pub open spec fn members(self) -> Set<Seq<char>> {
        self.elems().to_set()
    }

    /// An empty set.
    pub fn new() -> (r: StrSet)
        ensures
            r.elems() == Seq::<Seq<char>>::empty(),
            r.members() == Set::<Seq<char>>::empty(),
    {
        let r = StrSet { items: Vec::new() };
        assert(r.elems() =~= Seq::<Seq<char>>::empty());
        assert(r.members() =~= Set::<Seq<char>>::empty());
        r
    }

    /// Number of members.
    pub fn len(&self) -> (r: usize)
        ensures
            r == self.elems().len(),
            r == self.members().len(),
    {
        proof {
            use_type_invariant(self);
            lemma_sorted_distinct(self.elems());
            assert forall|a: int, b: int| 0 <= a < self.elems().len() && 0 <= b < self.elems().len() && a != b
                implies self.elems()[a] != self.elems()[b] by {
                if a < b {
                    assert(self.elems()[a] != self.elems()[b]);
                } else {
                    assert(self.elems()[b] != self.elems()[a]);
                }
            }
            self.elems().unique_seq_to_set();
        }
        self.items.len()
    }

    /// Whether the set has no members.
    pub fn is_empty(&self) -> (r: bool)
        ensures
            r == (self.elems().len() == 0),
    {
        self.items.len() == 0
    }

    /// Whether `x` is a member.
    pub fn contains(&self, x: &str) -> (r: bool)
        ensures
            r == self.members().contains(x@),
            r == self.elems().contains(x@),
    {
        let mut i: usize = 0;
        while i < self.items.len()
            invariant
                i <= self.items@.len(),
                forall|j: int| 0 <= j < i ==> self.elems()[j] != x@,
            decreases self.items@.len() - i,
        {
            if str_eq(self.items[i].as_str(), x) {
                assert(self.elems()[i as int] == x@);
                return true;
            }
            i = i + 1;
        }
        false
    }

    /// The member at position `i` in ascending order.
    pub fn get(&self, i: usize) -> (r: &String)
        requires
            i < self.elems().len(),
        ensures
            r@ == self.elems()[i as int],
    {
        &self.items[i]
    }

    /// The members in ascending order; the result is strictly sorted.
    pub fn to_vec(&self) -> (r: Vec<String>)
        ensures
            string_views(r@) == self.elems(),
            strictly_sorted(self.elems()),
            distinct(self.elems()),
    {
        proof {
            use_type_invariant(self);
            lemma_sorted_distinct(self.elems());
        }
        let mut out: Vec<String> = Vec::new();
        let mut i: usize = 0;
        while i < self.items.len()
            invariant
                i <= self.items@.len(),
                out@.len() == i,
                forall|j: int| 0 <= j < i ==> #[trigger] out@[j]@ == self.items@[j]@,
            decreases self.items@.len() - i,
        {
            let s = self.items[i].clone();
            out.push(s);
            i = i + 1;
        }
        assert(string_views(out@) =~= self.elems());
        out
    }

    /// Adds `x`; returns whether it was newly added.
    pub fn insert(&mut self, x: String) -> (r: bool)
        ensures
            final(self).members() == old(self).members().insert(x@),
            r == !old(self).members().contains(x@),
    {
        proof {
            use_type_invariant(&*self);
        }
        if self.contains(x.as_str()) {
            assert(self.members() =~= self.members().insert(x@));
            return false;
        }
        let ghost old_elems = self.elems();
        let mut p: usize = 0;
        while p < self.items.len()
            invariant
                p <= self.items@.len(),
                old_elems == string_views(self.items@),
                strictly_sorted(old_elems),
                !old_elems.contains(x@),
                forall|j: int| 0 <= j < p ==> seq_lt(#[trigger] old_elems[j], x@),
            ensures
                p <= old_elems.len(),
                forall|j: int| 0 <= j < p ==> seq_lt(#[trigger] old_elems[j], x@),
                p < old_elems.len() ==> !seq_lt(old_elems[p as int], x@),
            decreases self.items@.len() - p,
        {
            if !str_lt(self.items[p].as_str(), x.as_str()) {
                break;
            }
            p = p + 1;
        }
        proof {
            if p < old_elems.len() {
                assert(old_elems[p as int] != x@);
                lemma_lt_total(old_elems[p as int], x@);
                assert(seq_lt(x@, old_elems[p as int]));
                assert forall|j: int| p < j < old_elems.len() implies seq_lt(
                    x@,
                    #[trigger] old_elems[j],
                ) by {
                    lemma_lt_transitive(x@, old_elems[p as int], old_elems[j]);
                }
            }
        }
        let ghost xv = x@;
        let mut items: Vec<String> = Vec::new();
        std::mem::swap(&mut items, &mut self.items);
        items.insert(p, x);
        proof {
            assert(strictly_sorted(string_views(items@))) by {
                let ne = string_views(items@);
                assert(ne =~= old_elems.insert(p as int, xv));
                assert forall|i: int, j: int| 0 <= i < j < ne.len() implies seq_lt(
                    #[trigger] ne[i],
                    #[trigger] ne[j],
                ) by {
                    if i < p && j < p {
                    } else if i < p && j == p {
                    } else if i < p && j > p {
                        assert(ne[j] == old_elems[j - 1]);
                        assert(seq_lt(old_elems[i], old_elems[j - 1]));
                    } else if i == p {
                        assert(ne[j] == old_elems[j - 1]);
                    } else {
                        assert(ne[i] == old_elems[i - 1]);
                        assert(ne[j] == old_elems[j - 1]);
                    }
                }
            }
        }
        std::mem::swap(&mut items, &mut self.items);
        proof {
            let ne = self.elems();
            assert(ne =~= old_elems.insert(p as int, xv));
            assert(strictly_sorted(ne)) by {
                assert forall|i: int, j: int| 0 <= i < j < ne.len() implies seq_lt(
                    #[trigger] ne[i],
                    #[trigger] ne[j],
                ) by {
                    if i < p && j < p {
                    } else if i < p && j == p {
                    } else if i < p && j > p {
                        assert(ne[j] == old_elems[j - 1]);
                        assert(seq_lt(old_elems[i], old_elems[j - 1]));
                    } else if i == p {
                        assert(ne[j] == old_elems[j - 1]);
                    } else {
                        assert(ne[i] == old_elems[i - 1]);
                        assert(ne[j] == old_elems[j - 1]);
                    }
                }
            }
            lemma_insert_to_set(old_elems, p as int, xv);
        }
        true
    }

    /// Removes `x`; returns whether it was a member.
    pub fn remove(&mut self, x: &str) -> (r: bool)
        ensures
            final(self).members() == old(self).members().remove(x@),
            r == old(self).members().contains(x@),
    {
        proof {
            use_type_invariant(&*self);
            lemma_sorted_distinct(self.elems());
        }
        let ghost old_elems = self.elems();
        let mut i: usize = 0;
        while i < self.items.len()
            invariant
                i <= self.items@.len(),
                old_elems == string_views(self.items@),
                old_elems == old(self).elems(),
                strictly_sorted(old_elems),
                distinct(old_elems),
                forall|j: int| 0 <= j < i ==> old_elems[j] != x@,
            decreases self.items@.len() - i,
        {
            if str_eq(self.items[i].as_str(), x) {
                let mut items: Vec<String> = Vec::new();
                std::mem::swap(&mut items, &mut self.items);
                items.remove(i);
                proof {
                    let ne = string_views(items@);
                    assert(ne =~= old_elems.remove(i as int));
                    assert(strictly_sorted(ne)) by {
                        assert forall|a: int, b: int| 0 <= a < b < ne.len() implies seq_lt(
                            #[trigger] ne[a],
                            #[trigger] ne[b],
                        ) by {
                            if a < i && b >= i {
                                assert(ne[b] == old_elems[b + 1]);
                            } else if a >= i {
                                assert(ne[a] == old_elems[a + 1]);
                                assert(ne[b] == old_elems[b + 1]);
                            }
                        }
                    }
                }
                std::mem::swap(&mut items, &mut self.items);
                proof {
                    let ne = self.elems();
                    assert(ne =~= old_elems.remove(i as int));
                    assert(strictly_sorted(ne)) by {
                        assert forall|a: int, b: int| 0 <= a < b < ne.len() implies seq_lt(
                            #[trigger] ne[a],
                            #[trigger] ne[b],
                        ) by {
                            if a < i && b >= i {
                                assert(ne[b] == old_elems[b + 1]);
                            } else if a >= i {
                                assert(ne[a] == old_elems[a + 1]);
                                assert(ne[b] == old_elems[b + 1]);
                            }
                        }
                    }
                    assert(old_elems[i as int] == x@);
                    lemma_remove_to_set(old_elems, i as int);
                    assert(old_elems.contains(x@));
                }
                return true;
            }
            i = i + 1;
        }
        assert(!old_elems.contains(x@));
        assert(self.members() =~= old_elems.to_set().remove(x@));
        false
    }
}

/// The value stored under `k`: that of the first entry whose key is `k`.
pub open spec fn lookup<V>(s: Seq<(String, V)>, k: Seq<char>) -> Option<V>
    decreases s.len(),
{
    if s.len() == 0 {
        None
    } else if s[0].0@ == k {
        Some(s[0].1)
    } else {
        lookup(s.drop_first(), k)
    }
}

/// The position of the first entry whose key is `k`, if any.
pub open spec fn key_index<V>(s: Seq<(String, V)>, k: Seq<char>) -> Option<int>
    decreases s.len(),
{
    if s.len() == 0 {
        None
    } else if s[0].0@ == k {
        Some(0)
    } else {
        match key_index(s.drop_first(), k) {
            Some(i) => Some(i + 1),
            None => None,
        }
    }
}

/// The keys of a sequence of entries.
pub open spec fn entry_keys<V>(s: Seq<(String, V)>) -> Seq<Seq<char>> {
    s.map_values(|e: (String, V)| e.0@)
}

/// Characterization of `key_index`: the first position holding `k`.
pub proof fn lemma_key_index<V>(s: Seq<(String, V)>, k: Seq<char>)
    ensures
        match key_index(s, k) {
            Some(i) => 0 <= i < s.len() && s[i].0@ == k && (forall|j: int|
                0 <= j < i ==> s[j].0@ != k) && lookup(s, k) == Some(s[i].1),
            None => (forall|j: int| 0 <= j < s.len() ==> s[j].0@ != k) && lookup(s, k) is None,
        },
    decreases s.len(),
{
    if s.len() > 0 && s[0].0@ != k {
        lemma_key_index(s.drop_first(), k);
        match key_index(s.drop_first(), k) {
            Some(i) => {
                assert forall|j: int| 0 <= j < i + 1 implies s[j].0@ != k by {
                    if j > 0 {
                        assert(s[j] == s.drop_first()[j - 1]);
                    }
                }
            },
            None => {
                assert forall|j: int| 0 <= j < s.len() implies s[j].0@ != k by {
                    if j > 0 {
                        assert(s[j] == s.drop_first()[j - 1]);
                    }
                }
            },
        }
    }
}

/// `lookup` after appending an entry.
pub proof fn lemma_lookup_push<V>(s: Seq<(String, V)>, e: (String, V), k: Seq<char>)
    ensures
        lookup(s.push(e), k) == (match lookup(s, k) {
            Some(v) => Some(v),
            None => if e.0@ == k {
                Some(e.1)
            } else {
                None
            },
        }),
    decreases s.len(),
{
    if s.len() == 0 {
        assert(s.push(e).drop_first() =~= s);
        assert(s.push(e)[0] == e);
    } else if s[0].0@ != k {
        assert(s.push(e).drop_first() =~= s.drop_first().push(e));
        assert(s.push(e)[0] == s[0]);
        lemma_lookup_push(s.drop_first(), e, k);
    } else {
        assert(s.push(e)[0] == s[0]);
    }
}

/// `lookup` after replacing the first entry that holds `e`'s key.
pub proof fn lemma_lookup_update<V>(s: Seq<(String, V)>, i: int, e: (String, V), k: Seq<char>)
    requires
        0 <= i < s.len(),
        s[i].0@ == e.0@,
        forall|j: int| 0 <= j < i ==> s[j].0@ != e.0@,
    ensures
        lookup(s.update(i, e), k) == if k == e.0@ {
            Some(e.1)
        } else {
            lookup(s, k)
        },
    decreases i,
{
    let u = s.update(i, e);
    if i == 0 {
        assert(u.drop_first() =~= s.drop_first());
    } else {
        assert(u.drop_first() =~= s.drop_first().update(i - 1, e));
        assert forall|j: int| 0 <= j < i - 1 implies s.drop_first()[j].0@ != e.0@ by {
            assert(s.drop_first()[j] == s[j + 1]);
        }
        lemma_lookup_update(s.drop_first(), i - 1, e, k);
    }
}

/// With distinct keys, `lookup` finds the one entry holding the key.
pub proof fn lemma_lookup_distinct<V>(s: Seq<(String, V)>, k: Seq<char>)
    requires
        distinct(entry_keys(s)),
    ensures
        forall|i: int| 0 <= i < s.len() && #[trigger] s[i].0@ == k ==> lookup(s, k) == Some(s[i].1),
        (forall|i: int| 0 <= i < s.len() ==> #[trigger] s[i].0@ != k) ==> lookup(s, k) is None,
{
    lemma_key_index(s, k);
    assert forall|i: int| 0 <= i < s.len() && #[trigger] s[i].0@ == k implies lookup(s, k) == Some(
        s[i].1,
    ) by {
        match key_index(s, k) {
            Some(q) => {
                if q != i {
                    assert(entry_keys(s)[q] == s[q].0@);
                    assert(entry_keys(s)[i] == s[i].0@);
                }
            },
            None => {},
        }
    }
}

/// `lookup` after removing a position from a sequence with distinct keys.
pub proof fn lemma_lookup_remove<V>(s: Seq<(String, V)>, i: int, k: Seq<char>)
    requires
        0 <= i < s.len(),
        distinct(entry_keys(s)),
    ensures
        distinct(entry_keys(s.remove(i))),
        lookup(s.remove(i), k) == if k == s[i].0@ {
            None
        } else {
            lookup(s, k)
        },
{
    let t = s.remove(i);
    assert forall|a: int, b: int| 0 <= a < b < t.len() implies #[trigger] entry_keys(t)[a]
        != #[trigger] entry_keys(t)[b] by {
        let a2 = if a < i {
            a
        } else {
            a + 1
        };
        let b2 = if b < i {
            b
        } else {
            b + 1
        };
        assert(entry_keys(t)[a] == entry_keys(s)[a2]);
        assert(entry_keys(t)[b] == entry_keys(s)[b2]);
    }
    lemma_lookup_distinct(s, k);
    lemma_lookup_distinct(t, k);
    if exists|j: int| 0 <= j < t.len() && #[trigger] t[j].0@ == k {
        let j = choose|j: int| 0 <= j < t.len() && #[trigger] t[j].0@ == k;
        let j2 = if j < i {
            j
        } else {
            j + 1
        };
        assert(t[j] == s[j2]);
        if k == s[i].0@ {
            assert(entry_keys(s)[j2] == entry_keys(s)[i]);
        }
    } else {
        if k != s[i].0@ {
            assert forall|j: int| 0 <= j < s.len() implies #[trigger] s[j].0@ != k by {
                if j < i {
                    assert(t[j] == s[j]);
                } else if j > i {
                    assert(t[j - 1] == s[j]);
                }
            }
        }
    }
}

/// The entries viewed as a mathematical map.
pub open spec fn entries_map<V>(s: Seq<(String, V)>) -> Map<Seq<char>, V> {
    Map::new(|k: Seq<char>| lookup(s, k) is Some, |k: Seq<char>| lookup(s, k)->0)
}

/// One turn of countdown for a remaining-turns value: `0` stays (permanent),
/// `1` expires, larger values decrease by one.
pub open spec fn tick_value(v: u32) -> Option<u32> {
    if v == 0 {
        Some(0u32)
    } else if v == 1 {
        None
    } else {
        Some((v - 1) as u32)
    }
}

/// One turn of countdown applied to every entry, expired entries dropped.
pub open spec fn tick_seq(s: Seq<(String, u32)>) -> Seq<(String, u32)>
    decreases s.len(),
{
    if s.len() == 0 {
        s
    } else {
        let rest = tick_seq(s.drop_last());
        match tick_value(s.last().1) {
            Some(v) => rest.push((s.last().0, v)),
            None => rest,
        }
    }
}

/// A countdown map after one tick: expired entries gone, others decreased.
pub open spec fn tick_map(m: Map<Seq<char>, u32>) -> Map<Seq<char>, u32> {
    Map::new(
        |k: Seq<char>| m.contains_key(k) && tick_value(m[k]) is Some,
        |k: Seq<char>| tick_value(m[k])->0,
    )
}

/// The keys of `tick_seq(s)` are among those of `s`.
proof fn lemma_tick_seq_keys(s: Seq<(String, u32)>)
    ensures
        forall|j: int| 0 <= j < tick_seq(s).len() ==> (exists|i: int| 0 <= i < s.len() && s[i].0 == (#[trigger] tick_seq(s)[j]).0 && tick_value(s[i].1) == Some(tick_seq(s)[j].1)),
    decreases s.len(),
{
    if s.len() > 0 {
        lemma_tick_seq_keys(s.drop_last());
        let rest = tick_seq(s.drop_last());
        assert forall|j: int| 0 <= j < rest.len() implies exists|i: int| 0 <= i < s.len() && s[i].0 == (#[trigger] rest[j]).0 && tick_value(s[i].1) == Some(rest[j].1) by {
            let i = choose|i: int| 0 <= i < s.drop_last().len() && s.drop_last()[i].0 == rest[j].0 && tick_value(s.drop_last()[i].1) == Some(rest[j].1);
            assert(s[i] == s.drop_last()[i]);
        }
        let t = tick_seq(s);
        assert forall|j: int| 0 <= j < t.len() implies (exists|i: int| 0 <= i < s.len() && s[i].0 == (#[trigger] t[j]).0 && tick_value(s[i].1) == Some(t[j].1)) by {
            if j < rest.len() {
                assert(t[j] == rest[j]);
            } else {
                assert(s[s.len() - 1].0 == t[j].0);
            }
        }
    }
}

/// `tick_seq` keeps keys distinct and acts pointwise like `tick_value`.
proof fn lemma_tick_seq(s: Seq<(String, u32)>, k: Seq<char>)
    requires
        distinct(entry_keys(s)),
    ensures
        distinct(entry_keys(tick_seq(s))),
        lookup(tick_seq(s), k) == (match lookup(s, k) {
            Some(v) => tick_value(v),
            None => None,
        }),
    decreases s.len(),
{
    if s.len() > 0 {
        let d = s.drop_last();
        assert(distinct(entry_keys(d))) by {
            assert forall|a: int, b: int| 0 <= a < b < d.len() implies #[trigger] entry_keys(d)[a]
                != #[trigger] entry_keys(d)[b] by {
                assert(entry_keys(d)[a] == entry_keys(s)[a]);
                assert(entry_keys(d)[b] == entry_keys(s)[b]);
            }
        }
        lemma_tick_seq(d, k);
        lemma_tick_seq(d, s.last().0@);
        lemma_tick_seq_keys(d);
        let rest = tick_seq(d);
        let e = s.last();
        assert(s =~= d.push(e));
        lemma_lookup_push(d, e, k);
        lemma_lookup_distinct(s, e.0@);
        lemma_lookup_distinct(d, e.0@);
        assert forall|i: int| 0 <= i < d.len() implies #[trigger] d[i].0@ != e.0@ by {
            assert(entry_keys(s)[i] == d[i].0@);
            assert(entry_keys(s)[s.len() - 1] == e.0@);
        }
        match tick_value(e.1) {
            Some(v) => {
                lemma_lookup_push(rest, (e.0, v), k);
                let t = rest.push((e.0, v));
                assert forall|a: int, b: int| 0 <= a < b < t.len() implies #[trigger] entry_keys(t)[a]
                    != #[trigger] entry_keys(t)[b] by {
                    if b == rest.len() {
                        assert(entry_keys(t)[a] == rest[a].0@);
                        let i = choose|i: int| 0 <= i < d.len() && d[i].0 == (#[trigger] rest[a]).0 && tick_value(d[i].1) == Some(rest[a].1);
                        assert(d[i].0@ == rest[a].0@);
                    } else {
                        assert(entry_keys(t)[a] == entry_keys(rest)[a]);
                        assert(entry_keys(t)[b] == entry_keys(rest)[b]);
                    }
                }
            },
            None => {},
        }
    }
}

/// The entries of `s` with their keys read as character sequences.
pub open spec fn pair_keys<V>(s: Seq<(String, V)>) -> Seq<(Seq<char>, V)> {
    s.map_values(|e: (String, V)| (e.0@, e.1))
}

/// A map from strings to values that remembers insertion order; no key
/// occurs twice.
#[derive(Debug)]
pub struct StrMap<V> {
    entries: Vec<(String, V)>,
}

impl<V> StrMap<V> {
    #[verifier::type_invariant]
    spec fn keys_inv(self) -> bool {
        distinct(entry_keys(self.entries@))
    }

    /// The entries, in insertion order.
    pub closed spec fn seq(self) -> Seq<(String, V)> {
        self.entries@
    }

    /// The value stored under `k`.
    pub open spec fn spec_get(self, k: Seq<char>) -> Option<V> {
        lookup(self.seq(), k)
    }

    /// The entries as a mathematical map.
    pub open spec fn as_map(self) -> Map<Seq<char>, V> {
        entries_map(self.seq())
    }

    /// The keys, in insertion order.
    pub open spec fn keys(self) -> Seq<Seq<char>> {
        entry_keys(self.seq())
    }

    /// An empty map.
    pub fn new() -> (r: StrMap<V>)
        ensures
            r.seq() == Seq::<(String, V)>::empty(),
            r.as_map() == Map::<Seq<char>, V>::empty(),
    {
        let r = StrMap { entries: Vec::new() };
        assert(r.as_map() =~= Map::<Seq<char>, V>::empty());
        r
    }

    /// Number of entries.
    pub fn len(&self) -> (r: usize)
        ensures
            r == self.seq().len(),
    {
        self.entries.len()
    }

    /// Whether the map has no entries.
    pub fn is_empty(&self) -> (r: bool)
        ensures
            r == (self.seq().len() == 0),
    {
        self.entries.len() == 0
    }

    /// The keys are pairwise distinct.
    pub fn keys_distinct(&self)
        ensures
            distinct(self.keys()),
    {
        proof {
            use_type_invariant(self);
        }
    }

    /// The position of the entry stored under `k`, if any.
    pub fn index_of(&self, k: &str) -> (r: Option<usize>)
        ensures
            match r {
                Some(i) => key_index(self.seq(), k@) == Some(i as int),
                None => key_index(self.seq(), k@) is None,
            },
    {
        proof {
            lemma_key_index(self.seq(), k@);
        }
        let mut i: usize = 0;
        while i < self.entries.len()
            invariant
                i <= self.entries@.len(),
                forall|j: int| 0 <= j < i ==> self.entries@[j].0@ != k@,
            decreases self.entries@.len() - i,
        {
            if str_eq(self.entries[i].0.as_str(), k) {
                proof {
                    lemma_key_index(self.seq(), k@);
                    match key_index(self.seq(), k@) {
                        Some(q) => {
                            if q > i {
                                assert(self.entries@[i as int].0@ == k@);
                            }
                        },
                        None => {
                            assert(self.entries@[i as int].0@ == k@);
                        },
                    }
                }
                return Some(i);
            }
            i = i + 1;
        }
        None
    }

    /// The value stored under `k`.
    pub fn get(&self, k: &str) -> (r: Option<&V>)
        ensures
            match r {
                Some(v) => self.spec_get(k@) == Some(*v),
                None => self.spec_get(k@) is None,
            },
    {
        proof {
            lemma_key_index(self.seq(), k@);
        }
        match self.index_of(k) {
            Some(i) => Some(&self.entries[i].1),
            None => None,
        }
    }

    /// Whether some entry is stored under `k`.
    pub fn contains_key(&self, k: &str) -> (r: bool)
        ensures
            r == (self.spec_get(k@) is Some),
    {
        proof {
            lemma_key_index(self.seq(), k@);
        }
        self.index_of(k).is_some()
    }

    /// The key of the entry at position `i`.
    pub fn key_at(&self, i: usize) -> (r: &String)
        requires
            i < self.seq().len(),
        ensures
            *r == self.seq()[i as int].0,
    {
        &self.entries[i].0
    }

    /// The value of the entry at position `i`.
    pub fn value_at(&self, i: usize) -> (r: &V)
        requires
            i < self.seq().len(),
        ensures
            *r == self.seq()[i as int].1,
    {
        &self.entries[i].1
    }

    /// Stores `v` under `k`: replaces the value of an existing entry in
    /// place, or appends a new entry.  Returns the value it replaced.
    pub fn insert(&mut self, k: String, v: V) -> (r: Option<V>)
        ensures
            match key_index(old(self).seq(), k@) {
                Some(i) => final(self).seq() == old(self).seq().update(i, (k, v)) && r == Some(
                    old(self).seq()[i].1,
                ),
                None => final(self).seq() == old(self).seq().push((k, v)) && r is None,
            },
            final(self).as_map() == old(self).as_map().insert(k@, v),
            final(self).spec_get(k@) == Some(v),
    {
        proof {
            use_type_invariant(&*self);
            lemma_key_index(self.seq(), k@);
        }
        let ghost old_seq = self.seq();
        let ghost kv = k@;
        let mut entries: Vec<(String, V)> = Vec::new();
        std::mem::swap(&mut entries, &mut self.entries);
        let result = match self_index_of(&entries, k.as_str()) {
            Some(i) => {
                let old_entry = entries.remove(i);
                entries.insert(i, (k, v));
                proof {
                    let ns = entries@;
                    assert(ns =~= old_seq.update(i as int, ns[i as int]));
                    assert(entry_keys(ns) =~= entry_keys(old_seq));
                    assert forall|q: Seq<char>| lookup(ns, q) == (if q == kv { Some(ns[i as int].1) } else { lookup(old_seq, q) }) by {
                        lemma_lookup_update(old_seq, i as int, ns[i as int], q);
                    }
                    assert(entries_map(ns) =~= entries_map(old_seq).insert(kv, ns[i as int].1));
                }
                Some(old_entry.1)
            },
            None => {
                entries.push((k, v));
                proof {
                    let ns = entries@;
                    assert forall|q: Seq<char>| lookup(ns, q) == (if q == kv { Some(ns[old_seq.len() as int].1) } else { lookup(old_seq, q) }) by {
                        lemma_lookup_push(old_seq, ns[old_seq.len() as int], q);
                        assert(ns =~= old_seq.push(ns[old_seq.len() as int]));
                    }
                    assert(entries_map(ns) =~= entries_map(old_seq).insert(kv, ns[old_seq.len() as int].1));
                    let nk = entry_keys(ns);
                    assert forall|a: int, b: int| 0 <= a < b < nk.len() implies #[trigger] nk[a]
                        != #[trigger] nk[b] by {
                        if b == old_seq.len() {
                            assert(nk[a] == ns[a].0@);
                            assert(ns[a] == old_seq[a]);
                        } else {
                            assert(nk[a] == entry_keys(old_seq)[a]);
                            assert(nk[b] == entry_keys(old_seq)[b]);
                        }
                    }
                }
                None
            },
        };
        std::mem::swap(&mut entries, &mut self.entries);
        result
    }

    /// A copy of the entries, in insertion order.
    pub fn entries_copy(&self) -> (r: Vec<(String, V)>)
        where V: Copy
        ensures
            pair_keys(r@) == pair_keys(self.seq()),
    {
        let mut out: Vec<(String, V)> = Vec::new();
        let mut i: usize = 0;
        while i < self.entries.len()
            invariant
                i <= self.entries@.len(),
                pair_keys(out@) == pair_keys(self.entries@.subrange(0, i as int)),
            decreases self.entries@.len() - i,
        {
            let k = self.entries[i].0.clone();
            let v = self.entries[i].1;
            let ghost before = out@;
            out.push((k, v));
            proof {
                assert(out@ =~= before.push((k, v)));
                assert(pair_keys(out@) =~= pair_keys(before).push((k@, v)));
                assert(self.entries@.subrange(0, i + 1) =~= self.entries@.subrange(0, i as int).push(self.entries@[i as int]));
                assert(pair_keys(out@) =~= pair_keys(self.entries@.subrange(0, i + 1)));
            }
            i = i + 1;
        }
        assert(self.entries@.subrange(0, self.entries@.len() as int) =~= self.entries@);
        out
    }

    /// Removes the entry stored under `k`; returns its value.
    pub fn remove(&mut self, k: &str) -> (r: Option<V>)
        ensures
            r == old(self).spec_get(k@),
            final(self).as_map() == old(self).as_map().remove(k@),
            final(self).spec_get(k@) is None,
    {
        proof {
            use_type_invariant(&*self);
            lemma_key_index(self.seq(), k@);
        }
        let ghost old_seq = self.seq();
        let mut entries: Vec<(String, V)> = Vec::new();
        std::mem::swap(&mut entries, &mut self.entries);
        let result = match self_index_of(&entries, k) {
            Some(i) => {
                let old_entry = entries.remove(i);
                proof {
                    assert forall|q: Seq<char>| lookup(entries@, q) == (if q == k@ { None } else { lookup(old_seq, q) }) by {
                        lemma_lookup_remove(old_seq, i as int, q);
                    }
                    lemma_lookup_remove(old_seq, i as int, k@);
                    assert(entries_map(entries@) =~= entries_map(old_seq).remove(k@));
                }
                Some(old_entry.1)
            },
            None => {
                proof {
                    assert(entries_map(entries@) =~= entries_map(old_seq).remove(k@));
                }
                None
            },
        };
        std::mem::swap(&mut entries, &mut self.entries);
        result
    }
}

/// The position of the first entry of `entries` whose key is `k`.
fn self_index_of<V>(entries: &Vec<(String, V)>, k: &str) -> (r: Option<usize>)
    ensures
        match r {
            Some(i) => key_index(entries@, k@) == Some(i as int),
            None => key_index(entries@, k@) is None,
        },
{
    proof {
        lemma_key_index(entries@, k@);
    }
    let mut i: usize = 0;
    while i < entries.len()
        invariant
            i <= entries@.len(),
            forall|j: int| 0 <= j < i ==> entries@[j].0@ != k@,
        decreases entries@.len() - i,
    {
        if str_eq(entries[i].0.as_str(), k) {
            proof {
                lemma_key_index(entries@, k@);
                match key_index(entries@, k@) {
                    Some(q) => {
                        if q > i {
                            assert(entries@[i as int].0@ == k@);
                        }
                    },
                    None => {
                        assert(entries@[i as int].0@ == k@);
                    },
                }
            }
            return Some(i);
        }
        i = i + 1;
    }
    None
}

impl StrMap<u32> {
    /// Counts every entry down by one turn: entries at `0` stay (permanent),
    /// entries at `1` expire, larger values decrease by one.
    pub fn tick(&mut self)
        ensures
            final(self).as_map() == tick_map(old(self).as_map()),
    {
        proof {
            use_type_invariant(&*self);
        }
        let ghost old_seq = self.seq();
        let mut entries: Vec<(String, u32)> = Vec::new();
        std::mem::swap(&mut entries, &mut self.entries);
        let mut out: Vec<(String, u32)> = Vec::new();
        let mut i: usize = 0;
        let n = entries.len();
        while i < n
            invariant
                n == entries@.len(),
                entries@ == old_seq,
                i <= n,
                out@ == tick_seq(old_seq.subrange(0, i as int)),
            decreases n - i,
        {
            let v = entries[i].1;
            proof {
                assert(old_seq.subrange(0, i + 1).drop_last() =~= old_seq.subrange(0, i as int));
            }
            if v == 0 {
                let k = entries[i].0.clone();
                out.push((k, 0u32));
            } else if v > 1 {
                let k = entries[i].0.clone();
                out.push((k, v - 1));
            }
            i = i + 1;
        }
        proof {
            assert(old_seq.subrange(0, n as int) =~= old_seq);
            assert forall|q: Seq<char>| #[trigger] lookup(out@, q) == (match lookup(old_seq, q) {
                Some(v) => tick_value(v),
                None => None,
            }) by {
                lemma_tick_seq(old_seq, q);
            }
            lemma_tick_seq(old_seq, Seq::empty());
            assert(entries_map(out@) =~= tick_map(entries_map(old_seq)));
        }
        self.entries = out;
    }
}

} // verus!

verus! {

/// The character sequences of a sequence of string pairs.
pub open spec fn pair_views(s: Seq<(String, String)>) -> Seq<(Seq<char>, Seq<char>)> {
    s.map_values(|p: (String, String)| (p.0@, p.1@))
}

/// A set of ordered string pairs (such as the edges of a graph).
#[derive(Debug)]
pub struct PairSet {
    items: Vec<(String, String)>,
}

impl PairSet {
    /// The members, in insertion order.
    pub closed spec fn elems(self) -> Seq<(Seq<char>, Seq<char>)> {
        pair_views(self.items@)
    }

    /// The members as a mathematical set.
    pub open spec fn members(self) -> Set<(Seq<char>, Seq<char>)> {
        self.elems().to_set()
    }

    /// An empty set.
    pub fn new() -> (r: PairSet)
        ensures
            r.members() == Set::<(Seq<char>, Seq<char>)>::empty(),
    {
        let r = PairSet { items: Vec::new() };
        assert(r.members() =~= Set::<(Seq<char>, Seq<char>)>::empty());
        r
    }

    /// Number of members.
    pub fn len(&self) -> (r: usize)
        ensures
            r == self.elems().len(),
    {
        self.items.len()
    }

    /// Whether `(a, b)` is a member.
    pub fn contains(&self, a: &str, b: &str) -> (r: bool)
        ensures
            r == self.members().contains((a@, b@)),
    {
        let mut i: usize = 0;
        while i < self.items.len()
            invariant
                i <= self.items@.len(),
                forall|j: int| 0 <= j < i ==> self.elems()[j] != (a@, b@),
            decreases self.items@.len() - i,
        {
            if str_eq(self.items[i].0.as_str(), a) && str_eq(self.items[i].1.as_str(), b) {
                assert(self.elems()[i as int] == (a@, b@));
                return true;
            }
            i = i + 1;
        }
        false
    }

    /// Adds `(a, b)`; returns whether it was newly added.
    pub fn insert(&mut self, a: String, b: String) -> (r: bool)
        ensures
            final(self).members() == old(self).members().insert((a@, b@)),
            r == !old(self).members().contains((a@, b@)),
    {
        if self.contains(a.as_str(), b.as_str()) {
            assert(self.members() =~= self.members().insert((a@, b@)));
            return false;
        }
        let ghost old_elems = self.elems();
        let ghost pv = (a@, b@);
        self.items.push((a, b));
        proof {
            assert(self.elems() =~= old_elems.push(pv));
            assert forall|y: (Seq<char>, Seq<char>)| #[trigger] self.members().contains(y) <==> old_elems.to_set().insert(pv).contains(y) by {
                if self.elems().contains(y) {
                    let k = choose|k: int| 0 <= k < self.elems().len() && self.elems()[k] == y;
                    if k < old_elems.len() {
                        assert(old_elems[k] == y);
                    }
                }
                if old_elems.contains(y) {
                    let k = choose|k: int| 0 <= k < old_elems.len() && old_elems[k] == y;
                    assert(self.elems()[k] == y);
                }
                if y == pv {
                    assert(self.elems()[old_elems.len() as int] == y);
                }
            }
            assert(self.members() =~= old_elems.to_set().insert(pv));
        }
        true
    }
}

} // verus!

verus! {

/// Whether the keys of `s` strictly increase.
pub open spec fn keys_increasing<V>(s: Seq<(i32, V)>) -> bool {
    forall|a: int, b: int| 0 <= a < b < s.len() ==> (#[trigger] s[a]).0 < (#[trigger] s[b]).0
}

/// `after` is `before` with `(k, v)` stored at slot `p`: every entry before
/// `p` has a smaller threshold, and the entry at `p` is replaced when its
/// threshold is `k`, or `(k, v)` is inserted there otherwise.
pub open spec fn threshold_slot<V>(before: Seq<(i32, V)>, p: int, k: i32, v: V, after: Seq<(i32, V)>) -> bool {
    &&& 0 <= p <= before.len()
    &&& forall|j: int| 0 <= j < p ==> (#[trigger] before[j]).0 < k
    &&& {
        ||| (p < before.len() && before[p].0 == k && after == before.update(p, (k, v)))
        ||| ((p == before.len() || before[p].0 > k) && after == before.insert(p, (k, v)))
    }
}

/// A map from `i32` thresholds to values, kept in ascending order of
/// threshold; no threshold occurs twice.
#[derive(Debug)]
pub struct ThresholdMap<V> {
    entries: Vec<(i32, V)>,
}

impl<V> ThresholdMap<V> {
    #[verifier::type_invariant]
    spec fn order_inv(self) -> bool {
        keys_increasing(self.entries@)
    }

    /// The entries in ascending order of threshold.
    pub closed spec fn seq(self) -> Seq<(i32, V)> {
        self.entries@
    }

    /// An empty map.
    pub fn new() -> (r: ThresholdMap<V>)
        ensures
            r.seq() == Seq::<(i32, V)>::empty(),
    {
        ThresholdMap { entries: Vec::new() }
    }

    /// The entries' thresholds strictly increase.
    pub fn keys_increase(&self)
        ensures
            keys_increasing(self.seq()),
    {
        proof {
            use_type_invariant(self);
        }
    }

    /// Number of entries.
    pub fn len(&self) -> (r: usize)
        ensures
            r == self.seq().len(),
    {
        self.entries.len()
    }

    /// Whether the map has no entries.
    pub fn is_empty(&self) -> (r: bool)
        ensures
            r == (self.seq().len() == 0),
    {
        self.entries.len() == 0
    }

    /// The threshold of the `i`-th entry in ascending order.
    pub fn key_at(&self, i: usize) -> (r: i32)
        requires
            i < self.seq().len(),
        ensures
            r == self.seq()[i as int].0,
    {
        self.entries[i].0
    }

    /// The value of the `i`-th entry in ascending order.
    pub fn value_at(&self, i: usize) -> (r: &V)
        requires
            i < self.seq().len(),
        ensures
            *r == self.seq()[i as int].1,
    {
        &self.entries[i].1
    }

    /// Stores `v` under threshold `k`, in its place in ascending order; an
    /// existing entry for `k` has its value replaced.
    pub fn insert(&mut self, k: i32, v: V)
        ensures
            keys_increasing(final(self).seq()),
            exists|p: int| #[trigger] threshold_slot(old(self).seq(), p, k, v, final(self).seq()),
    {
        proof {
            use_type_invariant(&*self);
        }
        let ghost old_seq = self.seq();
        let mut entries: Vec<(i32, V)> = Vec::new();
        std::mem::swap(&mut entries, &mut self.entries);
        let mut p: usize = 0;
        while p < entries.len() && entries[p].0 < k
            invariant
                entries@ == old_seq,
                p <= old_seq.len(),
                forall|j: int| 0 <= j < p ==> (#[trigger] old_seq[j]).0 < k,
            decreases old_seq.len() - p,
        {
            p = p + 1;
        }
        if p < entries.len() && entries[p].0 == k {
            entries.remove(p);
            entries.insert(p, (k, v));
            proof {
                assert(entries@ =~= old_seq.update(p as int, (k, v)));
                assert forall|a: int, b: int| 0 <= a < b < entries@.len() implies (#[trigger] entries@[a]).0
                    < (#[trigger] entries@[b]).0 by {
                    assert(old_seq[a].0 < old_seq[b].0);
                }
            }
        } else {
            entries.insert(p, (k, v));
            proof {
                let ns = entries@;
                assert(ns =~= old_seq.insert(p as int, (k, v)));
                assert forall|a: int, b: int| 0 <= a < b < ns.len() implies (#[trigger] ns[a]).0
                    < (#[trigger] ns[b]).0 by {
                    if b < p {
                        assert(old_seq[a].0 < old_seq[b].0);
                    } else if b == p {
                        assert(ns[a] == old_seq[a]);
                    } else if a == p {
                        assert(ns[b] == old_seq[b - 1]);
                        if b - 1 > p {
                            assert(old_seq[p as int].0 < old_seq[b - 1].0);
                        }
                    } else if a < p {
                        assert(ns[a] == old_seq[a]);
                        assert(ns[b] == old_seq[b - 1]);
                        assert(old_seq[a].0 < old_seq[b - 1].0);
                    } else {
                        assert(ns[a] == old_seq[a - 1]);
                        assert(ns[b] == old_seq[b - 1]);
                        assert(old_seq[a - 1].0 < old_seq[b - 1].0);
                    }
                }
            }
        }
        std::mem::swap(&mut entries, &mut self.entries);
        assert(threshold_slot(old_seq, p as int, k, v, self.seq()));
    }
}

} // verus!
