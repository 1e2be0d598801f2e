//! Snapshot records as the backup tool lists them, and the per-label
//! retention counts over a history.

use crate::source::Source;
use crate::tally::{
    has_key, lemma_occurrences_positive, lemma_tallies_unique, occurrences, saturated, tallies, tally_of, Tally,
};
use vstd::prelude::*;

verus! {

/// One completed backup run for a source.
#[derive(Clone, Debug)]
pub struct Snapshot {
    pub id: String,
    pub source: Source,
    pub description: String,
    pub start_time: String,
    pub end_time: String,
    pub stats: Stats,
    pub root_entry: RootEntry,
    pub retention_reason: Vec<String>,
}

/// Size and count statistics of one snapshot.
#[derive(Clone, Copy, Debug)]
pub struct Stats {
    pub total_size: u64,
    pub excluded_total_size: u64,
    pub file_count: u32,
    pub cached_files: u32,
    pub non_cached_files: u32,
    pub dir_count: u32,
    pub excluded_file_count: u32,
    pub excluded_dir_count: u32,
    pub ignored_error_count: u32,
    pub error_count: u32,
}

/// The root directory entry of a snapshot.
#[derive(Clone, Debug)]
pub struct RootEntry {
    pub name: String,
    pub entry_type: String,
    pub mode: String,
    pub mtime: String,
    pub obj: String,
    pub summ: Summary,
}

/// Summary of the tree below a snapshot's root entry.
#[derive(Clone, Debug)]
pub struct Summary {
    pub size: u64,
    pub files: u32,
    pub symlinks: u32,
    pub dirs: u32,
    pub max_time: String,
    pub num_failed: u32,
}

/// The retention labels of one snapshot, as text.
pub open spec fn labels_of(s: Snapshot) -> Seq<Seq<char>> {
    s.retention_reason@.map_values(|l: String| l@)
}

/// The distinct labels of a label list, in order of first occurrence.
pub open spec fn distinct_labels(ls: Seq<Seq<char>>) -> Seq<Seq<char>>
    decreases ls.len(),
{
    if ls.len() == 0 {
        Seq::empty()
    } else if ls.drop_last().contains(ls.last()) {
        distinct_labels(ls.drop_last())
    } else {
        distinct_labels(ls.drop_last()).push(ls.last())
    }
}

/// Each label once for every snapshot that carries it, snapshot after
/// snapshot.
pub open spec fn carried_labels(snapshots: Seq<Snapshot>) -> Seq<Seq<char>>
    decreases snapshots.len(),
{
    if snapshots.len() == 0 {
        Seq::empty()
    } else {
        carried_labels(snapshots.drop_last()) + distinct_labels(labels_of(snapshots.last()))
    }
}

/// Number of snapshots whose retention labels contain `label`.
pub open spec fn carrying_count(snapshots: Seq<Snapshot>, label: Seq<char>) -> nat
    decreases snapshots.len(),
{
    if snapshots.len() == 0 {
        0
    } else {
        carrying_count(snapshots.drop_last(), label) + if labels_of(snapshots.last()).contains(label) {
            1nat
        } else {
            0nat
        }
    }
}

proof fn lemma_occurrences_concat(a: Seq<Seq<char>>, b: Seq<Seq<char>>, k: Seq<char>)
    ensures
        occurrences(a + b, k) == occurrences(a, k) + occurrences(b, k),
    decreases b.len(),
{
    if b.len() == 0 {
        assert(a + b =~= a);
    } else {
        assert((a + b).drop_last() =~= a + b.drop_last());
        lemma_occurrences_concat(a, b.drop_last(), k);
    }
}

proof fn lemma_contains_last(ls: Seq<Seq<char>>, k: Seq<char>)
    requires
        ls.len() > 0,
    ensures
        ls.contains(k) <==> (ls.drop_last().contains(k) || ls.last() == k),
{
    if ls.contains(k) && ls.last() != k {
        let i = choose|i: int| 0 <= i < ls.len() && ls[i] == k;
        assert(ls.drop_last()[i] == k);
    }
    if ls.drop_last().contains(k) {
        let i = choose|i: int| 0 <= i < ls.len() - 1 && ls.drop_last()[i] == k;
        assert(ls[i] == k);
    }
    if ls.last() == k {
        assert(ls[ls.len() - 1] == k);
    }
}

proof fn lemma_distinct_once(ls: Seq<Seq<char>>, k: Seq<char>)
    ensures
        occurrences(distinct_labels(ls), k) == if ls.contains(k) { 1nat } else { 0nat },
    decreases ls.len(),
{
    if ls.len() > 0 {
        lemma_distinct_once(ls.drop_last(), k);
        lemma_contains_last(ls, k);
        let d = distinct_labels(ls.drop_last());
        if !ls.drop_last().contains(ls.last()) {
            assert(d.push(ls.last()).drop_last() =~= d);
        }
    }
}

/// Each label occurs in `carried_labels` once per snapshot that carries it.
pub proof fn lemma_carried_occurrences(snapshots: Seq<Snapshot>, label: Seq<char>)
    ensures
        occurrences(carried_labels(snapshots), label) == carrying_count(snapshots, label),
    decreases snapshots.len(),
{
    if snapshots.len() > 0 {
        lemma_carried_occurrences(snapshots.drop_last(), label);
        lemma_occurrences_concat(
            carried_labels(snapshots.drop_last()),
            distinct_labels(labels_of(snapshots.last())),
            label,
        );
        lemma_distinct_once(labels_of(snapshots.last()), label);
    }
}

/// Counts, for each retention label, the snapshots that carry it; a label
/// listed twice by one snapshot counts once. Labels are distinct policy
/// slots and are never merged. Entries come in increasing label order.
pub fn get_retention_counts(snapshots: &[Snapshot]) -> (r: Tally)
    ensures
        tallies(r@, carried_labels(snapshots@)),
        r@ == tally_of(carried_labels(snapshots@)),
        forall|i: int| 0 <= i < r@.len() ==> {
            &&& carrying_count(snapshots@, #[trigger] r@[i].0) > 0
            &&& r@[i].1 == saturated(carrying_count(snapshots@, r@[i].0))
        },
        forall|label: Seq<char>| has_key(r@, label) <==> carrying_count(snapshots@, label) > 0,
{
    let mut counts = Tally::new();
    let mut i: usize = 0;
    while i < snapshots.len()
        invariant
            i <= snapshots@.len(),
            tallies(counts@, carried_labels(snapshots@.take(i as int))),
        decreases snapshots@.len() - i,
    {
        let labels = &snapshots[i].retention_reason;
        let ghost before = carried_labels(snapshots@.take(i as int));
        let ghost ls = labels_of(snapshots@[i as int]);
        let mut j: usize = 0;
        while j < labels.len()
            invariant
                i < snapshots@.len(),
                labels == &snapshots@[i as int].retention_reason,
                ls == labels_of(snapshots@[i as int]),
                j <= labels@.len(),
                tallies(counts@, before + distinct_labels(ls.take(j as int))),
            decreases labels@.len() - j,
        {
            let mut seen = false;
            let mut k: usize = 0;
            while k < j
                invariant
                    i < snapshots@.len(),
                    j < labels@.len(),
                    k <= j,
                    ls == labels_of(snapshots@[i as int]),
                    labels == &snapshots@[i as int].retention_reason,
                    seen <==> exists|x: int| 0 <= x < k && ls[x] == ls[j as int],
                decreases j - k,
            {
                assert(ls[k as int] == labels@[k as int]@);
                assert(ls[j as int] == labels@[j as int]@);
                if labels[k] == labels[j] {
                    seen = true;
                }
                proof {
                    if exists|x: int| 0 <= x < k + 1 && ls[x] == ls[j as int] {
                        let x = choose|x: int| 0 <= x < k + 1 && ls[x] == ls[j as int];
                        if x < k {
                            assert(exists|y: int| 0 <= y < k && ls[y] == ls[j as int]);
                        }
                    }
                }
                k = k + 1;
            }
            let ghost t = ls.take(j + 1);
            assert(t.drop_last() =~= ls.take(j as int));
            assert(t.last() == ls[j as int]);
            proof {
                if seen {
                    let x = choose|x: int| 0 <= x < j && ls[x] == ls[j as int];
                    assert(t.drop_last()[x] == ls[j as int]);
                }
                if t.drop_last().contains(t.last()) {
                    let x = choose|x: int| 0 <= x < j && t.drop_last()[x] == t.last();
                    assert(ls[x] == ls[j as int]);
                }
            }
            if !seen {
                let ghost items = before + distinct_labels(ls.take(j as int));
                counts.add(labels[j].as_str(), Ghost(items));
                assert(items.push(labels@[j as int]@) =~= before + distinct_labels(t));
            }
            j = j + 1;
        }
        assert(snapshots@.take(i + 1).drop_last() =~= snapshots@.take(i as int));
        assert(ls.take(j as int) =~= ls);
        i = i + 1;
    }
    assert(snapshots@.take(i as int) =~= snapshots@);
    proof {
        let items = carried_labels(snapshots@);
        lemma_tallies_unique(counts@, items);
        assert forall|label: Seq<char>| #[trigger] occurrences(items, label) == carrying_count(snapshots@, label) by {
            lemma_carried_occurrences(snapshots@, label);
        }
        assert forall|label: Seq<char>| has_key(counts@, label) <==> carrying_count(snapshots@, label) > 0 by {
            if carrying_count(snapshots@, label) > 0 {
                assert(occurrences(items, label) > 0);
                lemma_occurrences_positive(items, label);
                let x = choose|x: int| 0 <= x < items.len() && items[x] == label;
                assert(has_key(counts@, items[x]));
            }
            if has_key(counts@, label) {
                let a = choose|a: int| 0 <= a < counts@.len() && counts@[a].0 == label;
                assert(occurrences(items, counts@[a].0) > 0);
            }
        }
    }
    counts
}

/// When every label is carried by at most one snapshot, each row of the
/// counts is 1 and there is one row per carried label: labels that share a
/// prefix are never merged.
pub proof fn lemma_each_label_counted_once(snapshots: Seq<Snapshot>, t: Seq<(Seq<char>, u64)>)
    requires
        tallies(t, carried_labels(snapshots)),
        forall|label: Seq<char>| carrying_count(snapshots, label) <= 1,
    ensures
        forall|i: int| 0 <= i < t.len() ==> #[trigger] t[i].1 == 1,
        forall|label: Seq<char>| has_key(t, label) <==> carrying_count(snapshots, label) == 1,
{
    let items = carried_labels(snapshots);
    assert forall|label: Seq<char>| #[trigger] occurrences(items, label) == carrying_count(snapshots, label) by {
        lemma_carried_occurrences(snapshots, label);
    }
    assert forall|i: int| 0 <= i < t.len() implies #[trigger] t[i].1 == 1 by {
        assert(occurrences(items, t[i].0) > 0);
        assert(carrying_count(snapshots, t[i].0) <= 1);
    }
    assert forall|label: Seq<char>| has_key(t, label) <==> carrying_count(snapshots, label) == 1 by {
        if carrying_count(snapshots, label) == 1 {
            lemma_occurrences_positive(items, label);
            let x = choose|x: int| 0 <= x < items.len() && items[x] == label;
            assert(has_key(t, items[x]));
        }
        if has_key(t, label) {
            let a = choose|a: int| 0 <= a < t.len() && t[a].0 == label;
            assert(occurrences(items, t[a].0) > 0);
            assert(carrying_count(snapshots, label) <= 1);
        }
    }
}

} // verus!
