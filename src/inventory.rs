//! The source-partitioned inventory built from one listing.

use crate::kopia::Snapshot;
use crate::order::lemma_text_lt_irreflexive;
use crate::source::{render_error_matches, renderable, source_key, Error, SourceModel, SourceStr};
use crate::source_map::SourceMap;
use crate::tally::{tallies, Tally};
use vstd::prelude::*;

verus! {

#[verifier::external_type_specification]
#[verifier::external_body]
pub struct ExReport(eyre::Report);

/// Whether `r` belongs to the history keyed by `k`.
pub open spec fn renders_to(r: Snapshot, k: Seq<char>) -> bool {
    renderable(r.source@) && source_key(r.source@) == k
}

/// The records of source `k`, in arrival order.
pub open spec fn history_of(records: Seq<Snapshot>, k: Seq<char>) -> Seq<Snapshot>
    decreases records.len(),
{
    if records.len() == 0 {
        Seq::empty()
    } else if renders_to(records.last(), k) {
        history_of(records.drop_last(), k).push(records.last())
    } else {
        history_of(records.drop_last(), k)
    }
}

/// The user names that made records unrenderable, one per such record.
pub open spec fn rejected_users(records: Seq<Snapshot>) -> Seq<Seq<char>>
    decreases records.len(),
{
    if records.len() == 0 {
        Seq::empty()
    } else if records.last().source@.user_name.contains('@') {
        rejected_users(records.drop_last()).push(records.last().source@.user_name)
    } else {
        rejected_users(records.drop_last())
    }
}

/// The hosts that made records unrenderable (with a valid user name), one
/// per such record.
pub open spec fn rejected_hosts(records: Seq<Snapshot>) -> Seq<Seq<char>>
    decreases records.len(),
{
    if records.len() == 0 {
        Seq::empty()
    } else if !records.last().source@.user_name.contains('@') && records.last().source@.host.contains(':') {
        rejected_hosts(records.drop_last()).push(records.last().source@.host)
    } else {
        rejected_hosts(records.drop_last())
    }
}

/// Whether some entry is keyed by `k`.
pub open spec fn has_source<T>(entries: Seq<(SourceStr, T)>, k: Seq<char>) -> bool {
    exists|a: int| 0 <= a < entries.len() && entries[a].0@ == k
}

/// `entries` holds exactly the non-empty histories of `records`.
pub open spec fn holds_histories(entries: Seq<(SourceStr, Vec<Snapshot>)>, records: Seq<Snapshot>) -> bool {
    &&& forall|a: int| 0 <= a < entries.len() ==> {
        &&& (#[trigger] entries[a]).1@ == history_of(records, entries[a].0@)
        &&& entries[a].1@.len() > 0
    }
    &&& forall|j: int| 0 <= j < records.len() && renderable(records[j].source@)
        ==> has_source(entries, source_key(#[trigger] records[j].source@))
}

/// The policy hook accepted the rendering error of source `s`.
pub open spec fn hook_accepted<F: Fn(Error) -> Result<(), eyre::Report>>(f: F, s: SourceModel) -> bool {
    exists|e: Error, r: Result<(), eyre::Report>| render_error_matches(s, e) && #[trigger] f.ensures((e,), r) && r is Ok
}

/// The policy hook accepted every unrenderable record before index `j`,
/// then rejected the rendering error of record `j` with `report`: ingestion
/// stops at the first rejection.
pub open spec fn hook_rejected<F: Fn(Error) -> Result<(), eyre::Report>>(
    f: F,
    records: Seq<Snapshot>,
    report: eyre::Report,
) -> bool {
    exists|j: int, e: Error| {
        &&& 0 <= j < records.len()
        &&& !renderable(records[j].source@)
        &&& render_error_matches(#[trigger] records[j].source@, e)
        &&& #[trigger] f.ensures((e,), Err(report))
        &&& forall|i: int| 0 <= i < j && !renderable(#[trigger] records[i].source@)
            ==> hook_accepted(f, records[i].source@)
    }
}

/// Parsed snapshots list, partitioned by source, with the tallies of the
/// values that made sources unrenderable.
#[derive(Debug)]
pub struct KopiaSnapshots {
    pub snapshots_map: SourceMap<Vec<Snapshot>>,
    pub invalid_user_names: Tally,
    pub invalid_hosts: Tally,
}

impl KopiaSnapshots {
    /// The inventory is what ingesting `records` in order yields.
    pub open spec fn is_inventory_of(&self, records: Seq<Snapshot>) -> bool {
        &&& self.snapshots_map.wf()
        &&& holds_histories(self.snapshots_map@, records)
        &&& tallies(self.invalid_user_names@, rejected_users(records))
        &&& tallies(self.invalid_hosts@, rejected_hosts(records))
    }

    /// The inventory is well formed: its map keeps its keys in order.
    pub open spec fn wf(&self) -> bool {
        self.snapshots_map.wf()
    }

    /// Ingests `snapshots` in order: each record with a renderable source is
    /// appended to its source's history; each other record is tallied by its
    /// offending value and handed to `invalid_source_fn`, whose error aborts
    /// the ingestion.
    pub fn new_from_snapshots<F: Fn(Error) -> Result<(), eyre::Report>>(
        snapshots: Vec<Snapshot>,
        invalid_source_fn: F,
    ) -> (r: Result<Self, eyre::Report>)
        requires
            forall|e: Error| invalid_source_fn.requires((e,)),
        ensures
            match r {
                Ok(ks) => {
                    &&& ks.is_inventory_of(snapshots@)
                    &&& forall|j: int| 0 <= j < snapshots@.len() && !renderable(#[trigger] snapshots@[j].source@)
                        ==> hook_accepted(invalid_source_fn, snapshots@[j].source@)
                },
                Err(report) => hook_rejected(invalid_source_fn, snapshots@, report),
            },
    {
        let ghost records = snapshots@;
        let mut snapshots_map: SourceMap<Vec<Snapshot>> = SourceMap::new();
        let mut invalid_user_names = Tally::new();
        let mut invalid_hosts = Tally::new();
        for snapshot in it: snapshots.into_iter()
            invariant
                it.seq() == records,
                snapshots_map.wf(),
                holds_histories(snapshots_map@, records.take(it.index() as int)),
                tallies(invalid_user_names@, rejected_users(records.take(it.index() as int))),
                tallies(invalid_hosts@, rejected_hosts(records.take(it.index() as int))),
                forall|e: Error| invalid_source_fn.requires((e,)),
                forall|j: int| 0 <= j < it.index() && !renderable(#[trigger] records[j].source@)
                    ==> hook_accepted(invalid_source_fn, records[j].source@),
        {
            let ghost n = it.index() as int;
            let ghost before = records.take(n);
            let ghost after = records.take(n + 1);
            proof {
                assert(after.drop_last() =~= before);
                assert(after.last() == snapshot);
            }
            match snapshot.source.render() {
                Err(e) => {
                    match e.invalid_user_name() {
                        Some(user) => invalid_user_names.add(user, Ghost(rejected_users(before))),
                        None => {},
                    }
                    match e.invalid_host() {
                        Some(host) => invalid_hosts.add(host, Ghost(rejected_hosts(before))),
                        None => {},
                    }
                    let ghost err = e;
                    let outcome = invalid_source_fn(e);
                    match outcome {
                        Ok(()) => {
                            proof {
                                assert(invalid_source_fn.ensures((err,), outcome));
                            }
                        },
                        Err(report) => {
                            proof {
                                assert(records[n] == snapshot);
                                assert(render_error_matches(records[n].source@, err));
                                assert(invalid_source_fn.ensures((err,), Err(report)));
                                assert(hook_rejected(invalid_source_fn, records, report));
                            }
                            assert(records == snapshots@);
                            return Err(report);
                        },
                    }
                    proof {
                        assert(render_error_matches(snapshot.source@, err));
                        assert(hook_accepted(invalid_source_fn, snapshot.source@));
                        assert(records[n] == snapshot);
                        assert(history_of(after, source_key(snapshot.source@)) == history_of(before, source_key(snapshot.source@)));
                        assert forall|k: Seq<char>| history_of(after, k) == history_of(before, k) by {}
                        assert forall|j: int| 0 <= j < after.len() && renderable(after[j].source@)
                            implies has_source(snapshots_map@, source_key(#[trigger] after[j].source@)) by {
                            if j < before.len() {
                                assert(after[j] == before[j]);
                                assert(renderable(before[j].source@));
                            } else {
                                assert(after[j] == snapshot);
                            }
                        }
                    }
                },
                Ok(key) => {
                    let ghost k = key@;
                    let ghost old_map = snapshots_map@;
                    proof {
                        assert(rejected_users(after) == rejected_users(before));
                        assert(rejected_hosts(after) == rejected_hosts(before));
                    }
                    let fresh: Vec<Snapshot> = Vec::new();
                    let ghost key_value = key;
                    let ghost fresh_value = fresh;
                    let i = snapshots_map.entry(key, fresh);
                    let ghost mid = snapshots_map@;
                    proof {
                        if !has_source(old_map, k) {
                            assert(!(exists|j: int| 0 <= j < old_map.len() && #[trigger] old_map[j].0@ == k));
                            assert(mid == old_map.insert(i as int, (key_value, fresh_value)));
                            assert(mid[i as int].1@ == Seq::<Snapshot>::empty());
                        }
                        if !has_source(old_map, k) {
                            lemma_history_nonempty_has_record(before, k);
                            if history_of(before, k).len() > 0 {
                                let j = choose|j: int| 0 <= j < before.len() && renders_to(before[j], k);
                                assert(has_source(old_map, source_key(before[j].source@)));
                            }
                            assert(mid[i as int].1@ =~= history_of(before, k));
                        } else {
                            assert(mid == old_map);
                            assert(mid[i as int].1@ == history_of(before, mid[i as int].0@));
                        }
                    }
                    let mut history = snapshots_map.replace(i, Vec::new());
                    proof {
                        assert(history@ == history_of(before, k));
                        assert(after.last() == snapshot);
                        assert(renders_to(snapshot, k));
                        assert(history_of(after, k) == history_of(before, k).push(snapshot));
                    }
                    history.push(snapshot);
                    let _ = snapshots_map.replace(i, history);
                    proof {
                        let s = snapshots_map@;
                        lemma_text_lt_irreflexive(k);
                        assert(s[i as int].0@ == k);
                        assert(s[i as int].1@ == history_of(after, k));
                        if has_source(old_map, k) {
                            assert forall|a: int| 0 <= a < s.len() && a != i implies (#[trigger] s[a]) == old_map[a] && s[a].0@ != k by {
                                if a < i {
                                    assert(crate::order::text_lt(s[a].0@, s[i as int].0@));
                                } else {
                                    assert(crate::order::text_lt(s[i as int].0@, s[a].0@));
                                }
                            }
                            assert forall|j: int| 0 <= j < after.len() && renderable(after[j].source@)
                                implies has_source(s, source_key(#[trigger] after[j].source@)) by {
                                if j < before.len() {
                                    assert(after[j] == before[j]);
                                    let a = choose|a: int| 0 <= a < old_map.len() && old_map[a].0@ == source_key(before[j].source@);
                                    assert(s[a].0@ == old_map[a].0@);
                                } else {
                                    assert(s[i as int].0@ == source_key(after[j].source@));
                                }
                            }
                        } else {
                            assert(s.len() == old_map.len() + 1);
                            assert forall|a: int| 0 <= a < old_map.len() implies #[trigger] old_map[a].0@ != k by {}
                            assert forall|a: int| 0 <= a < s.len() && a != i implies (#[trigger] s[a]).0@ != k
                                && s[a] == (if a < i { old_map[a] } else { old_map[a - 1] }) by {
                                if a < i {
                                    assert(s[a] == old_map[a]);
                                } else {
                                    assert(s[a] == old_map[a - 1]);
                                }
                            }
                            assert forall|j: int| 0 <= j < after.len() && renderable(after[j].source@)
                                implies has_source(s, source_key(#[trigger] after[j].source@)) by {
                                if j < before.len() {
                                    assert(after[j] == before[j]);
                                    let a = choose|a: int| 0 <= a < old_map.len() && old_map[a].0@ == source_key(before[j].source@);
                                    if a < i {
                                        assert(s[a] == old_map[a]);
                                    } else {
                                        assert(s[a + 1] == old_map[a]);
                                    }
                                } else {
                                    assert(s[i as int].0@ == source_key(after[j].source@));
                                }
                            }
                        }
                    }
                },
            }
        }
        proof {
            assert(records.take(records.len() as int) =~= records);
        }
        Ok(KopiaSnapshots { snapshots_map, invalid_user_names, invalid_hosts })
    }

    /// The per-source histories.
    pub fn into_inner_map(self) -> (r: SourceMap<Vec<Snapshot>>)
        ensures
            r@ == self.snapshots_map@,
    {
        self.snapshots_map
    }
}

proof fn lemma_history_all_same_source(records: Seq<Snapshot>, k: Seq<char>)
    requires
        forall|j: int| 0 <= j < records.len() ==> renders_to(#[trigger] records[j], k),
    ensures
        history_of(records, k) == records,
    decreases records.len(),
{
    if records.len() > 0 {
        assert(renders_to(records[records.len() - 1], k));
        lemma_history_all_same_source(records.drop_last(), k);
        assert(records.drop_last().push(records.last()) =~= records);
    }
}

/// Ingesting records that all share one source yields one history: the
/// records themselves, in arrival order, so the latest entry is the last
/// record appended.
pub proof fn lemma_single_source_history(ks: KopiaSnapshots, records: Seq<Snapshot>, k: Seq<char>)
    requires
        ks.is_inventory_of(records),
        records.len() > 0,
        forall|j: int| 0 <= j < records.len() ==> renders_to(#[trigger] records[j], k),
    ensures
        ks.snapshots_map@.len() == 1,
        ks.snapshots_map@[0].0@ == k,
        ks.snapshots_map@[0].1@ == records,
        ks.snapshots_map@[0].1@.last() == records.last(),
{
    let m = ks.snapshots_map@;
    lemma_history_all_same_source(records, k);
    assert(renders_to(records[0], k));
    assert(has_source(m, source_key(records[0].source@)));
    let a = choose|a: int| 0 <= a < m.len() && m[a].0@ == k;
    assert forall|b: int| 0 <= b < m.len() implies #[trigger] m[b].0@ == k by {
        assert(m[b].1@ == history_of(records, m[b].0@));
        lemma_history_nonempty_has_record(records, m[b].0@);
        let j = choose|j: int| 0 <= j < records.len() && renders_to(records[j], m[b].0@);
        assert(renders_to(records[j], k));
    }
    if m.len() > 1 {
        assert(crate::order::text_lt(m[0].0@, m[1].0@));
        lemma_text_lt_irreflexive(k);
    }
    assert(m[0].1@ == history_of(records, m[0].0@));
}

proof fn lemma_history_nonempty_has_record(records: Seq<Snapshot>, k: Seq<char>)
    ensures
        history_of(records, k).len() > 0 ==> exists|j: int| 0 <= j < records.len() && renders_to(records[j], k),
    decreases records.len(),
{
    if records.len() > 0 {
        lemma_history_nonempty_has_record(records.drop_last(), k);
        if history_of(records.drop_last(), k).len() > 0 {
            let j = choose|j: int| 0 <= j < records.len() - 1 && renders_to(records.drop_last()[j], k);
            assert(records[j] == records.drop_last()[j]);
        }
        if renders_to(records.last(), k) {
            assert(records[records.len() - 1] == records.last());
        }
    }
}

} // verus!
