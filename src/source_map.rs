//! A map keyed by [`SourceStr`], kept in the lexicographic order of its keys.

use crate::order::{lemma_text_lt_total, lemma_text_lt_transitive, text_less, text_lt};
use crate::source::SourceStr;
use vstd::prelude::*;

verus! {

/// Keys strictly increase along the sequence, so each key occurs once.
pub open spec fn keys_sorted<T>(s: Seq<(SourceStr, T)>) -> bool {
    forall|i: int, j: int| 0 <= i < j < s.len() ==> text_lt(#[trigger] s[i].0@, #[trigger] s[j].0@)
}

/// Map from [`SourceStr`] to the data kept for that source.
#[derive(Debug)]
pub struct SourceMap<T> {
    entries: Vec<(SourceStr, T)>,
}

impl<T> View for SourceMap<T> {
    type V = Seq<(SourceStr, T)>;

    closed spec fn view(&self) -> Seq<(SourceStr, T)> {
        self.entries@
    }
}

impl<T> SourceMap<T> {
    #[verifier::type_invariant]
    spec fn sorted(&self) -> bool {
        keys_sorted(self.entries@)
    }

    /// The map's entries are in strictly increasing key order; every map
    /// keeps this.
    pub open spec fn wf(&self) -> bool {
        keys_sorted(self@)
    }

    /// Every map is in strictly increasing key order.
    pub fn assert_sorted(&self)
        ensures
            self.wf(),
    {
        proof {
            use_type_invariant(self);
        }
    }

    /// An empty map.
    pub fn new() -> (r: Self)
        ensures
            r@ == Seq::<(SourceStr, T)>::empty(),
            r.wf(),
    {
        SourceMap { entries: Vec::new() }
    }

    /// Number of sources.
    pub fn len(&self) -> (r: usize)
        ensures
            r == self@.len(),
    {
        self.entries.len()
    }

    /// Whether the map holds no source.
    pub fn is_empty(&self) -> (r: bool)
        ensures
            r == (self@.len() == 0),
    {
        self.entries.len() == 0
    }

    /// The entries, in key order.
    pub fn iter(&self) -> (r: &Vec<(SourceStr, T)>)
        ensures
            r@ == self@,
            keys_sorted(r@),
    {
        proof {
            use_type_invariant(self);
        }
        &self.entries
    }

    /// Where `key` stands: `Ok` with its index, or `Err` with the index at
    /// which it would be inserted to keep the order.
    pub fn find(&self, key: &SourceStr) -> (r: Result<usize, usize>)
        ensures
            match r {
                Ok(i) => i < self@.len() && self@[i as int].0@ == key@,
                Err(i) => {
                    &&& i <= self@.len()
                    &&& forall|j: int| 0 <= j < i ==> text_lt(#[trigger] self@[j].0@, key@)
                    &&& forall|j: int| i <= j < self@.len() ==> text_lt(key@, #[trigger] self@[j].0@)
                },
            },
    {
        proof {
            use_type_invariant(self);
        }
        let mut i: usize = 0;
        while i < self.entries.len() && text_less(self.entries[i].0.as_str(), key.as_str())
            invariant
                i <= self@.len(),
                self.wf(),
                forall|j: int| 0 <= j < i ==> text_lt(#[trigger] self@[j].0@, key@),
            decreases self@.len() - i,
        {
            i = i + 1;
        }
        if i < self.entries.len() {
            if !text_less(key.as_str(), self.entries[i].0.as_str()) {
                proof {
                    if self@[i as int].0@ != key@ {
                        lemma_text_lt_total(self@[i as int].0@, key@);
                    }
                }
                return Ok(i);
            }
            assert forall|j: int| i <= j < self@.len() implies text_lt(key@, #[trigger] self@[j].0@) by {
                if j > i {
                    lemma_text_lt_transitive(key@, self@[i as int].0@, self@[j].0@);
                }
            }
        }
        Err(i)
    }

    /// Makes sure `key` is present, inserting it with `default` when it is
    /// not, and returns its index.
    pub fn entry(&mut self, key: SourceStr, default: T) -> (i: usize)
        ensures
            final(self).wf(),
            i < final(self)@.len(),
            i <= old(self)@.len(),
            final(self)@[i as int].0@ == key@,
            (exists|j: int| 0 <= j < old(self)@.len() && #[trigger] old(self)@[j].0@ == key@)
                ==> final(self)@ == old(self)@,
            !(exists|j: int| 0 <= j < old(self)@.len() && #[trigger] old(self)@[j].0@ == key@)
                ==> final(self)@ == old(self)@.insert(i as int, (key, default)),
    {
        proof {
            use_type_invariant(&*self);
        }
        match self.find(&key) {
            Ok(i) => i,
            Err(i) => {
                proof {
                    crate::order::lemma_text_lt_irreflexive(key@);
                    assert forall|j: int| 0 <= j < old(self)@.len() implies #[trigger] old(self)@[j].0@ != key@ by {
                        if j < i {
                        }
                    }
                }
                let mut entries = Vec::new();
                std::mem::swap(&mut entries, &mut self.entries);
                entries.insert(i, (key, default));
                proof {
                    let s = entries@;
                    assert forall|a: int, b: int| 0 <= a < b < s.len() implies text_lt(#[trigger] s[a].0@, #[trigger] s[b].0@) by {
                        if b < i {
                        } else if a < i && b == i {
                        } else if a < i && b > i {
                            assert(s[b] == old(self)@[b - 1]);
                        } else if a == i {
                            assert(s[b] == old(self)@[b - 1]);
                        } else {
                            assert(s[a] == old(self)@[a - 1]);
                            assert(s[b] == old(self)@[b - 1]);
                        }
                    }
                }
                self.entries = entries;
                i
            },
        }
    }

    /// Puts `value` at index `i` in place of the value there, and returns the
    /// value that was there.
    pub fn replace(&mut self, i: usize, value: T) -> (r: T)
        requires
            i < old(self)@.len(),
        ensures
            final(self).wf(),
            r == old(self)@[i as int].1,
            final(self)@ == old(self)@.update(i as int, (old(self)@[i as int].0, value)),
    {
        proof {
            use_type_invariant(&*self);
        }
        let mut entries = Vec::new();
        std::mem::swap(&mut entries, &mut self.entries);
        let (key, previous) = entries.remove(i);
        entries.insert(i, (key, value));
        assert(entries@ =~= old(self)@.update(i as int, (old(self)@[i as int].0, value)));
        assert forall|a: int| 0 <= a < entries@.len() implies #[trigger] entries@[a].0 == old(self)@[a].0 by {}
        self.entries = entries;
        previous
    }

    /// Returns the value of `source` when it is the only entry; otherwise the
    /// map comes back unchanged.
    pub fn into_expect_only(self, source: &SourceStr) -> (r: Result<T, Self>)
        ensures
            match r {
                Ok(v) => self@.len() == 1 && self@[0].0@ == source@ && v == self@[0].1,
                Err(m) => m@ == self@ && !(self@.len() == 1 && self@[0].0@ == source@),
            },
    {
        let mut s = self;
        if s.entries.len() != 1 {
            return Err(s);
        }
        if text_less(s.entries[0].0.as_str(), source.as_str())
            || text_less(source.as_str(), s.entries[0].0.as_str()) {
            proof {
                crate::order::lemma_text_lt_irreflexive(source@);
            }
            return Err(s);
        }
        proof {
            if s@[0].0@ != source@ {
                lemma_text_lt_total(s@[0].0@, source@);
            }
        }
        let SourceMap { entries } = s;
        let mut entries = entries;
        let (_key, value) = entries.remove(0);
        Ok(value)
    }

    /// Applies `map_fn` to the map unless it is empty.
    pub fn map_nonempty<U, F: FnOnce(Self) -> U>(self, map_fn: F) -> (r: Option<U>)
        requires
            self@.len() > 0 ==> map_fn.requires((self,)),
        ensures
            self@.len() == 0 ==> r is None,
            self@.len() > 0 ==> (r matches Some(u) && map_fn.ensures((self,), u)),
    {
        if self.is_empty() {
            None
        } else {
            Some(map_fn(self))
        }
    }
}

} // verus!
