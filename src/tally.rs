//! Occurrence counts of text values, kept in lexicographic order.

use crate::order::{lemma_text_lt_irreflexive, lemma_text_lt_total, lemma_text_lt_transitive, text_less, text_lt};
use vstd::prelude::*;
use vstd::string::*;

verus! {

/// How many times `k` occurs in `items`.
pub open spec fn occurrences(items: Seq<Seq<char>>, k: Seq<char>) -> nat
    decreases items.len(),
{
    if items.len() == 0 {
        0
    } else {
        occurrences(items.drop_last(), k) + if items.last() == k { 1nat } else { 0nat }
    }
}

/// A count as stored: it stops at `u64::MAX`.
pub open spec fn saturated(n: nat) -> u64 {
    if n > u64::MAX { u64::MAX } else { n as u64 }
}

/// Whether `k` is one of the values counted in `entries`.
pub open spec fn has_key(entries: Seq<(Seq<char>, u64)>, k: Seq<char>) -> bool {
    exists|i: int| 0 <= i < entries.len() && entries[i].0 == k
}

/// `entries` counts `items`: one entry per distinct item, in increasing
/// order, each with the number of times the item occurs.
pub open spec fn tallies(entries: Seq<(Seq<char>, u64)>, items: Seq<Seq<char>>) -> bool {
    &&& forall|i: int, j: int| 0 <= i < j < entries.len() ==> text_lt(#[trigger] entries[i].0, #[trigger] entries[j].0)
    &&& forall|i: int| 0 <= i < entries.len() ==> {
        &&& occurrences(items, #[trigger] entries[i].0) > 0
        &&& entries[i].1 == saturated(occurrences(items, entries[i].0))
    }
    &&& forall|j: int| 0 <= j < items.len() ==> has_key(entries, #[trigger] items[j])
}

/// Counts of text values, in increasing order of the values.
#[derive(Clone, Debug)]
pub struct Tally {
    entries: Vec<(String, u64)>,
}

impl View for Tally {
    type V = Seq<(Seq<char>, u64)>;

    closed spec fn view(&self) -> Seq<(Seq<char>, u64)> {
        self.entries@.map_values(|e: (String, u64)| (e.0@, e.1))
    }
}

proof fn lemma_occurrences_push(items: Seq<Seq<char>>, x: Seq<char>, k: Seq<char>)
    ensures
        occurrences(items.push(x), k) == occurrences(items, k) + if x == k { 1nat } else { 0nat },
{
    assert(items.push(x).drop_last() =~= items);
}

pub proof fn lemma_occurrences_positive(items: Seq<Seq<char>>, k: Seq<char>)
    requires
        occurrences(items, k) > 0,
    ensures
        exists|j: int| 0 <= j < items.len() && items[j] == k,
    decreases items.len(),
{
    if items.last() != k {
        lemma_occurrences_positive(items.drop_last(), k);
        let j = choose|j: int| 0 <= j < items.len() - 1 && items.drop_last()[j] == k;
        assert(items[j] == k);
    } else {
        assert(items[items.len() - 1] == k);
    }
}

impl Tally {
    /// No value counted yet.
    pub fn new() -> (r: Self)
        ensures
            tallies(r@, Seq::empty()),
            r@.len() == 0,
    {
        let r = Tally { entries: Vec::new() };
        assert(r@ =~= Seq::<(Seq<char>, u64)>::empty());
        r
    }

    /// Number of distinct values.
    pub fn len(&self) -> (r: usize)
        ensures
            r == self@.len(),
    {
        self.entries.len()
    }

    /// Whether nothing was counted.
    pub fn is_empty(&self) -> (r: bool)
        ensures
            r == (self@.len() == 0),
    {
        self.entries.len() == 0
    }

    /// The value and count at index `i`.
    pub fn get(&self, i: usize) -> (r: (&str, u64))
        requires
            i < self@.len(),
        ensures
            r.0@ == self@[i as int].0,
            r.1 == self@[i as int].1,
    {
        (self.entries[i].0.as_str(), self.entries[i].1)
    }

    /// The count of `key`, or `None` when it was never counted.
    pub fn count_of(&self, key: &str) -> (r: Option<u64>)
        ensures
            match r {
                Some(c) => exists|i: int| 0 <= i < self@.len() && #[trigger] self@[i] == (key@, c),
                None => forall|i: int| 0 <= i < self@.len() ==> #[trigger] self@[i].0 != key@,
            },
    {
        let mut i: usize = 0;
        while i < self.entries.len()
            invariant
                i <= self@.len(),
                forall|j: int| 0 <= j < i ==> #[trigger] self@[j].0 != key@,
            decreases self@.len() - i,
        {
            let (k, c) = (self.entries[i].0.as_str(), self.entries[i].1);
            if !text_less(k, key) && !text_less(key, k) {
                proof {
                    if k@ != key@ {
                        lemma_text_lt_total(k@, key@);
                    }
                    assert(self@[i as int] == (key@, c));
                }
                return Some(c);
            }
            proof {
                lemma_text_lt_irreflexive(key@);
            }
            i = i + 1;
        }
        None
    }

    /// Counts one more occurrence of `key`.
    pub(crate) fn add(&mut self, key: &str, Ghost(items): Ghost<Seq<Seq<char>>>)
        requires
            tallies(old(self)@, items),
        ensures
            tallies(final(self)@, items.push(key@)),
    {
        proof {
            assert forall|k: Seq<char>| occurrences(items.push(key@), k) == occurrences(items, k) + if key@ == k { 1nat } else { 0nat } by {
                lemma_occurrences_push(items, key@, k);
            }
        }
        let ghost new_items = items.push(key@);
        let mut i: usize = 0;
        while i < self.entries.len() && text_less(self.entries[i].0.as_str(), key)
            invariant
                i <= self@.len(),
                self@ == old(self)@,
                forall|j: int| 0 <= j < i ==> text_lt(#[trigger] self@[j].0, key@),
            decreases self@.len() - i,
        {
            i = i + 1;
        }
        if i < self.entries.len() && !text_less(key, self.entries[i].0.as_str()) {
            proof {
                if self@[i as int].0 != key@ {
                    lemma_text_lt_total(self@[i as int].0, key@);
                }
            }
            let (k, c) = self.entries.remove(i);
            let c2 = if c == u64::MAX { c } else { c + 1 };
            self.entries.insert(i, (k, c2));
            proof {
                let s = self@;
                let o = old(self)@;
                assert(s =~= o.update(i as int, (key@, c2)));
                assert forall|a: int| 0 <= a < s.len() implies #[trigger] s[a].0 == o[a].0 by {
                }
                assert forall|a: int, b: int| 0 <= a < b < s.len() implies text_lt(#[trigger] s[a].0, #[trigger] s[b].0) by {
                    assert(s[a].0 == o[a].0);
                    assert(s[b].0 == o[b].0);
                }
                assert forall|a: int| 0 <= a < s.len() && a != i implies #[trigger] s[a].0 != key@ by {
                    lemma_text_lt_irreflexive(key@);
                    if a < i {
                        assert(text_lt(o[a].0, o[i as int].0));
                    } else {
                        assert(text_lt(o[i as int].0, o[a].0));
                    }
                }
                assert forall|a: int| 0 <= a < s.len() implies occurrences(new_items, #[trigger] s[a].0) > 0 && s[a].1 == saturated(occurrences(new_items, s[a].0)) by {
                    if a != i {
                        assert(s[a] == o[a]);
                    }
                }
                assert forall|j: int| 0 <= j < new_items.len() implies has_key(s, #[trigger] new_items[j]) by {
                    if j < items.len() {
                        assert(new_items[j] == items[j]);
                        assert(has_key(o, items[j]));
                        let a = choose|a: int| 0 <= a < o.len() && o[a].0 == items[j];
                        assert(s[a].0 == new_items[j]);
                    } else {
                        assert(s[i as int].0 == new_items[j]);
                    }
                }
            }
        } else {
            proof {
                lemma_text_lt_irreflexive(key@);
                assert forall|j: int| i <= j < self@.len() implies text_lt(key@, #[trigger] self@[j].0) by {
                    if j > i {
                        lemma_text_lt_transitive(key@, self@[i as int].0, self@[j].0);
                    }
                }
            }
            let owned = String::from_str(key);
            self.entries.insert(i, (owned, 1));
            proof {
                let s = self@;
                let o = old(self)@;
                assert(s =~= o.insert(i as int, (key@, 1u64)));
                assert forall|a: int| 0 <= a < o.len() implies #[trigger] o[a].0 != key@ by {
                    if a < i {
                    }
                }
                assert forall|a: int, b: int| 0 <= a < b < s.len() implies text_lt(#[trigger] s[a].0, #[trigger] s[b].0) by {
                    if b < i {
                    } else if a < i && b == i {
                    } else if a < i && b > i {
                        assert(s[b] == o[b - 1]);
                    } else if a == i {
                        assert(s[b] == o[b - 1]);
                    } else {
                        assert(s[a] == o[a - 1]);
                        assert(s[b] == o[b - 1]);
                    }
                }
                assert forall|a: int| 0 <= a < s.len() implies occurrences(new_items, #[trigger] s[a].0) > 0 && s[a].1 == saturated(occurrences(new_items, s[a].0)) by {
                    if a > i {
                        assert(s[a] == o[a - 1]);
                    } else if a < i {
                        assert(s[a] == o[a]);
                    } else if occurrences(items, key@) > 0 {
                        lemma_occurrences_positive(items, key@);
                        let j = choose|j: int| 0 <= j < items.len() && items[j] == key@;
                        assert(has_key(o, items[j]));
                        let b = choose|b: int| 0 <= b < o.len() && o[b].0 == items[j];
                        assert(o[b].0 == key@);
                    }
                }
                assert forall|j: int| 0 <= j < new_items.len() implies has_key(s, #[trigger] new_items[j]) by {
                    if j < items.len() {
                        assert(new_items[j] == items[j]);
                        assert(has_key(o, items[j]));
                        let a = choose|a: int| 0 <= a < o.len() && o[a].0 == items[j];
                        if a < i {
                            assert(s[a].0 == new_items[j]);
                        } else {
                            assert(s[a + 1].0 == new_items[j]);
                        }
                    } else {
                        assert(s[i as int].0 == new_items[j]);
                    }
                }
            }
        }
    }
}

/// Keys strictly increase along `t`.
pub open spec fn keys_increase(t: Seq<(Seq<char>, u64)>) -> bool {
    forall|i: int, j: int| 0 <= i < j < t.len() ==> text_lt(#[trigger] t[i].0, #[trigger] t[j].0)
}

proof fn lemma_sorted_same_keys(t1: Seq<(Seq<char>, u64)>, t2: Seq<(Seq<char>, u64)>)
    requires
        keys_increase(t1),
        keys_increase(t2),
        forall|k: Seq<char>| has_key(t1, k) <==> has_key(t2, k),
    ensures
        t1.len() == t2.len(),
        forall|i: int| 0 <= i < t1.len() ==> #[trigger] t1[i].0 == t2[i].0,
    decreases t1.len(),
{
    if t1.len() == 0 {
        if t2.len() > 0 {
            assert(has_key(t2, t2[0].0));
        }
    } else {
        assert(has_key(t1, t1[0].0));
        assert(t2.len() > 0);
        assert(has_key(t2, t2[0].0));
        let b = choose|b: int| 0 <= b < t2.len() && t2[b].0 == t1[0].0;
        let a = choose|a: int| 0 <= a < t1.len() && t1[a].0 == t2[0].0;
        if t1[0].0 != t2[0].0 {
            assert(text_lt(t2[0].0, t2[b].0));
            assert(text_lt(t1[0].0, t1[a].0));
            lemma_text_lt_transitive(t2[0].0, t1[0].0, t2[0].0);
            lemma_text_lt_irreflexive(t2[0].0);
        }
        let r1 = t1.drop_first();
        let r2 = t2.drop_first();
        assert forall|k: Seq<char>| has_key(r1, k) <==> has_key(r2, k) by {
            if has_key(r1, k) {
                let x = choose|x: int| 0 <= x < r1.len() && r1[x].0 == k;
                assert(t1[x + 1].0 == k);
                assert(text_lt(t1[0].0, k));
                lemma_text_lt_irreflexive(k);
                assert(has_key(t1, k));
                let y = choose|y: int| 0 <= y < t2.len() && t2[y].0 == k;
                assert(y != 0);
                assert(r2[y - 1].0 == k);
            }
            if has_key(r2, k) {
                let x = choose|x: int| 0 <= x < r2.len() && r2[x].0 == k;
                assert(t2[x + 1].0 == k);
                assert(text_lt(t2[0].0, k));
                lemma_text_lt_irreflexive(k);
                assert(has_key(t2, k));
                let y = choose|y: int| 0 <= y < t1.len() && t1[y].0 == k;
                assert(y != 0);
                assert(r1[y - 1].0 == k);
            }
        }
        lemma_sorted_same_keys(r1, r2);
        assert forall|i: int| 0 <= i < t1.len() implies #[trigger] t1[i].0 == t2[i].0 by {
            if i > 0 {
                assert(r1[i - 1].0 == r2[i - 1].0);
            }
        }
    }
}

/// The counts of `items`, in the one order `tallies` allows.
pub open spec fn tally_of(items: Seq<Seq<char>>) -> Seq<(Seq<char>, u64)> {
    choose|t: Seq<(Seq<char>, u64)>| tallies(t, items)
}

/// Counts of `items` are unique: any `t` that tallies `items` is `tally_of(items)`.
pub proof fn lemma_tallies_unique(t: Seq<(Seq<char>, u64)>, items: Seq<Seq<char>>)
    requires
        tallies(t, items),
    ensures
        t == tally_of(items),
{
    let u = tally_of(items);
    assert(tallies(u, items));
    assert forall|k: Seq<char>| has_key(t, k) <==> has_key(u, k) by {
        if has_key(t, k) {
            let a = choose|a: int| 0 <= a < t.len() && t[a].0 == k;
            assert(occurrences(items, t[a].0) > 0);
            lemma_occurrences_positive(items, k);
            let j = choose|j: int| 0 <= j < items.len() && items[j] == k;
            assert(has_key(u, items[j]));
        }
        if has_key(u, k) {
            let a = choose|a: int| 0 <= a < u.len() && u[a].0 == k;
            assert(occurrences(items, u[a].0) > 0);
            lemma_occurrences_positive(items, k);
            let j = choose|j: int| 0 <= j < items.len() && items[j] == k;
            assert(has_key(t, items[j]));
        }
    }
    lemma_sorted_same_keys(t, u);
    assert forall|i: int| 0 <= i < t.len() implies #[trigger] t[i] == u[i] by {
        assert(t[i].0 == u[i].0);
    }
    assert(t =~= u);
}

} // verus!
