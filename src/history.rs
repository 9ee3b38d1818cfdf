//! The launch history: per entry id, how often and how recently it was
//! launched. Ids are unique; records keep the order in which they came.
use crate::text::same_text;
use vstd::prelude::*;

verus! {

/// One record of the history.
pub struct HistoryEntry {
    pub id: String,
    /// Number of launches.
    pub count: u64,
    /// Ordinal of the last launch.
    pub last_used: u64,
}

/// A record as a value: id, count, last use.
pub type Record = (Seq<char>, u64, u64);

pub open spec fn record_of(r: HistoryEntry) -> Record {
    (r.id@, r.count, r.last_used)
}

pub open spec fn records_view(v: Seq<HistoryEntry>) -> Seq<Record> {
    v.map_values(|r: HistoryEntry| record_of(r))
}

pub open spec fn strings_view(v: Seq<String>) -> Seq<Seq<char>> {
    v.map_values(|s: String| s@)
}

/// No two records share an id.
pub open spec fn unique_ids(s: Seq<Record>) -> bool {
    forall|i: int, j: int| 0 <= i < j < s.len() ==> (#[trigger] s[i]).0 != (#[trigger] s[j]).0
}

pub open spec fn has_id(s: Seq<Record>, id: Seq<char>) -> bool {
    exists|i: int| 0 <= i < s.len() && (#[trigger] s[i]).0 == id
}

/// The position of the record with the given id.
pub open spec fn index_of(s: Seq<Record>, id: Seq<char>) -> int {
    choose|i: int| 0 <= i < s.len() && (#[trigger] s[i]).0 == id
}

/// Count and last use recorded for an id, if any.
pub open spec fn stat_of(s: Seq<Record>, id: Seq<char>) -> Option<(u64, u64)> {
    if has_id(s, id) {
        let r = s[index_of(s, id)];
        Some((r.1, r.2))
    } else {
        None
    }
}

/// One more launch: the count grows by one (saturating), the last use
/// becomes `now`.
pub open spec fn bumped(r: Record, now: u64) -> Record {
    (
        r.0,
        if r.1 == u64::MAX {
            r.1
        } else {
            (r.1 + 1) as u64
        },
        now,
    )
}

/// The history after one launch of `id` at `now`.
pub open spec fn recorded(s: Seq<Record>, id: Seq<char>, now: u64) -> Seq<Record> {
    if has_id(s, id) {
        let i = index_of(s, id);
        s.update(i, bumped(s[i], now))
    } else {
        s.push((id, 1, now))
    }
}

/// The records whose id is among `ids`, in order.
pub open spec fn kept(s: Seq<Record>, ids: Seq<Seq<char>>) -> Seq<Record>
    decreases s.len(),
{
    if s.len() == 0 {
        s
    } else {
        let k = kept(s.drop_last(), ids);
        if ids.contains(s.last().0) {
            k.push(s.last())
        } else {
            k
        }
    }
}

/// The first record of each id, in order.
pub open spec fn deduped(s: Seq<Record>) -> Seq<Record>
    decreases s.len(),
{
    if s.len() == 0 {
        s
    } else {
        let d = deduped(s.drop_last());
        if has_id(d, s.last().0) {
            d
        } else {
            d.push(s.last())
        }
    }
}

/// The history read from stored records, pruned to `ids` where asked.
pub open spec fn loaded(s: Seq<Record>, prune: bool, ids: Seq<Seq<char>>) -> Seq<Record> {
    if prune {
        kept(deduped(s), ids)
    } else {
        deduped(s)
    }
}

/// The launch history.
pub struct History {
    records: Vec<HistoryEntry>,
}

impl View for History {
    type V = Seq<Record>;

    closed spec fn view(&self) -> Seq<Record> {
        records_view(self.records@)
    }
}

fn copy_record(r: &HistoryEntry) -> (c: HistoryEntry)
    ensures
        record_of(c) == record_of(*r),
{
    HistoryEntry { id: r.id.as_str().to_owned(), count: r.count, last_used: r.last_used }
}

/// Whether some record of `v` has the id `id`, and where.
fn find(v: &Vec<HistoryEntry>, id: &str) -> (r: Option<usize>)
    ensures
        match r {
            Some(i) => i < v@.len() && v@[i as int].id@ == id@,
            None => !has_id(records_view(v@), id@),
        },
{
    let mut i: usize = 0;
    while i < v.len()
        invariant
            i <= v@.len(),
            forall|j: int| 0 <= j < i ==> (#[trigger] v@[j]).id@ != id@,
        decreases v.len() - i,
    {
        if same_text(v[i].id.as_str(), id) {
            return Some(i);
        }
        i = i + 1;
    }
    proof {
        let s = records_view(v@);
        assert forall|j: int| 0 <= j < s.len() implies (#[trigger] s[j]).0 != id@ by {
            assert(v@[j].id@ != id@);
        }
    }
    None
}

fn contains_text(v: &Vec<String>, id: &str) -> (r: bool)
    ensures
        r == strings_view(v@).contains(id@),
{
    let mut i: usize = 0;
    while i < v.len()
        invariant
            i <= v@.len(),
            forall|j: int| 0 <= j < i ==> (#[trigger] v@[j])@ != id@,
        decreases v.len() - i,
    {
        if same_text(v[i].as_str(), id) {
            assert(strings_view(v@)[i as int] == id@);
            return true;
        }
        i = i + 1;
    }
    proof {
        let s = strings_view(v@);
        if s.contains(id@) {
            let k = choose|k: int| 0 <= k < s.len() && s[k] == id@;
            assert(v@[k]@ != id@);
        }
    }
    false
}

impl History {
    pub open spec fn wf(&self) -> bool {
        unique_ids(self@)
    }

    /// The empty history.
    pub fn new() -> (h: History)
        ensures
            h.wf(),
            h@.len() == 0,
    {
        let h = History { records: Vec::new() };
        assert(h@ =~= Seq::<Record>::empty());
        h
    }

    /// Builds the history from stored records, keeping the first record of
    /// each id, and, where `prune` is set, only those whose id is in `ids`.
    pub fn load(records: Vec<HistoryEntry>, prune: bool, ids: &Vec<String>) -> (h: History)
        ensures
            h.wf(),
            h@ == loaded(records_view(records@), prune, strings_view(ids@)),
    {
        let ghost src = records_view(records@);
        let mut h = History::new();
        let mut i: usize = 0;
        while i < records.len()
            invariant
                src == records_view(records@),
                i <= records@.len(),
                h.wf(),
                h@ == deduped(src.subrange(0, i as int)),
            decreases records.len() - i,
        {
            proof {
                assert(src.subrange(0, i + 1).drop_last() =~= src.subrange(0, i as int));
                lemma_deduped_unique(src.subrange(0, i + 1));
            }
            let r = &records[i];
            assert(src.subrange(0, i + 1).last() == record_of(*r));
            match find(&h.records, r.id.as_str()) {
                Some(j) => {
                    assert(h@[j as int].0 == r.id@);
                },
                None => {
                    let ghost before = h@;
                    h.records.push(copy_record(r));
                    proof {
                        assert(h@ =~= before.push(record_of(*r)));
                    }
                },
            }
            i = i + 1;
        }
        assert(src.subrange(0, records@.len() as int) =~= src);
        if prune {
            h.prune(ids);
        }
        h
    }

    /// The records to store, in order.
    pub fn to_records(&self) -> (r: Vec<HistoryEntry>)
        ensures
            records_view(r@) == self@,
    {
        let mut out: Vec<HistoryEntry> = Vec::new();
        let mut i: usize = 0;
        while i < self.records.len()
            invariant
                i <= self.records@.len(),
                records_view(out@) =~= records_view(self.records@.subrange(0, i as int)),
            decreases self.records.len() - i,
        {
            let ghost before = out@;
            out.push(copy_record(&self.records[i]));
            proof {
                assert(records_view(out@) =~= records_view(before).push(record_of(self.records@[i as int])));
                assert(self.records@.subrange(0, i + 1) =~= self.records@.subrange(0, i as int).push(self.records@[i as int]));
            }
            i = i + 1;
            assert(records_view(out@) =~= records_view(self.records@.subrange(0, i as int)));
        }
        assert(self.records@.subrange(0, i as int) =~= self.records@);
        out
    }

    /// Count and last use recorded for `id`.
    pub fn stat(&self, id: &str) -> (r: Option<(u64, u64)>)
        requires
            self.wf(),
        ensures
            r == stat_of(self@, id@),
    {
        match find(&self.records, id) {
            Some(i) => {
                proof {
                    lemma_index_of_unique(self@, i as int);
                }
                Some((self.records[i].count, self.records[i].last_used))
            },
            None => None,
        }
    }

    /// Records one launch of `id` at ordinal `now`: the count grows by one
    /// (saturating) and the last use becomes `now`; a record is created for
    /// an id not seen before.
    pub fn record_use(&mut self, id: &str, now: u64)
        requires
            old(self).wf(),
        ensures
            final(self).wf(),
            final(self)@ == recorded(old(self)@, id@, now),
            stat_of(final(self)@, id@) == Some(
                match stat_of(old(self)@, id@) {
                    Some(st) => (if st.0 == u64::MAX { st.0 } else { (st.0 + 1) as u64 }, now),
                    None => (1u64, now),
                },
            ),
    {
        proof {
            lemma_recorded_stat(self@, id@, now);
        }
        match find(&self.records, id) {
            Some(i) => {
                proof {
                    lemma_index_of_unique(self@, i as int);
                }
                let count = if self.records[i].count == u64::MAX {
                    u64::MAX
                } else {
                    self.records[i].count + 1
                };
                let rec = HistoryEntry { id: id.to_owned(), count, last_used: now };
                let ghost before = self@;
                self.records.set(i, rec);
                proof {
                    assert(self@ =~= before.update(i as int, bumped(before[i as int], now)));
                }
            },
            None => {
                let ghost before = self@;
                self.records.push(HistoryEntry { id: id.to_owned(), count: 1, last_used: now });
                proof {
                    assert(self@ =~= before.push((id@, 1u64, now)));
                }
            },
        }
    }

    /// Drops every record whose id is not in `ids`.
    pub fn prune(&mut self, ids: &Vec<String>)
        requires
            old(self).wf(),
        ensures
            final(self).wf(),
            final(self)@ == kept(old(self)@, strings_view(ids@)),
    {
        let ghost src = self@;
        let ghost keep = strings_view(ids@);
        let mut out: Vec<HistoryEntry> = Vec::new();
        let mut i: usize = 0;
        while i < self.records.len()
            invariant
                src == self@,
                keep == strings_view(ids@),
                unique_ids(src),
                i <= self.records@.len(),
                records_view(out@) == kept(src.subrange(0, i as int), keep),
            decreases self.records.len() - i,
        {
            proof {
                assert(src.subrange(0, i + 1).drop_last() =~= src.subrange(0, i as int));
            }
            if contains_text(ids, self.records[i].id.as_str()) {
                out.push(copy_record(&self.records[i]));
            }
            proof {
                assert(records_view(out@) =~= kept(src.subrange(0, i + 1), keep));
            }
            i = i + 1;
        }
        assert(src.subrange(0, i as int) =~= src);
        proof {
            lemma_kept_unique(src, keep);
        }
        self.records = out;
    }
}

/// With unique ids, the chosen position of an id is its only position.
pub proof fn lemma_index_of_unique(s: Seq<Record>, i: int)
    requires
        unique_ids(s),
        0 <= i < s.len(),
    ensures
        has_id(s, s[i].0),
        index_of(s, s[i].0) == i,
{
    assert(has_id(s, s[i].0));
    let k = index_of(s, s[i].0);
    if k != i {
        if k < i {
            assert(s[k].0 != s[i].0);
        } else {
            assert(s[i].0 != s[k].0);
        }
    }
}

/// Deduplication leaves no two records with one id.
pub proof fn lemma_deduped_unique(s: Seq<Record>)
    ensures
        unique_ids(deduped(s)),
    decreases s.len(),
{
    if s.len() > 0 {
        lemma_deduped_unique(s.drop_last());
    }
}

/// Every record kept is a record of the source whose id is in `ids`.
pub proof fn lemma_kept_from(s: Seq<Record>, ids: Seq<Seq<char>>)
    ensures
        forall|j: int|
            0 <= j < kept(s, ids).len() ==> ids.contains(#[trigger] kept(s, ids)[j].0) && exists|
                k: int,
            |
                0 <= k < s.len() && s[k] == kept(s, ids)[j],
    decreases s.len(),
{
    if s.len() > 0 {
        let t = s.drop_last();
        lemma_kept_from(t, ids);
        let k0 = kept(t, ids);
        assert forall|j: int| 0 <= j < kept(s, ids).len() implies ids.contains(
            #[trigger] kept(s, ids)[j].0,
        ) && exists|k: int| 0 <= k < s.len() && s[k] == kept(s, ids)[j] by {
            if j < k0.len() {
                assert(ids.contains(k0[j].0));
                let k = choose|k: int| 0 <= k < t.len() && t[k] == k0[j];
                assert(s[k] == kept(s, ids)[j]);
            } else {
                assert(s[s.len() - 1] == kept(s, ids)[j]);
            }
        }
    }
}

/// Pruning keeps ids unique.
pub proof fn lemma_kept_unique(s: Seq<Record>, ids: Seq<Seq<char>>)
    requires
        unique_ids(s),
    ensures
        unique_ids(kept(s, ids)),
    decreases s.len(),
{
    if s.len() > 0 {
        let t = s.drop_last();
        assert(unique_ids(t));
        lemma_kept_unique(t, ids);
        lemma_kept_from(t, ids);
        let k0 = kept(t, ids);
        if ids.contains(s.last().0) {
            assert forall|j: int| 0 <= j < k0.len() implies (#[trigger] k0[j]).0 != s.last().0 by {
                assert(ids.contains(k0[j].0));
                let k = choose|k: int| 0 <= k < t.len() && t[k] == k0[j];
                assert(t[k] == s[k]);
                assert(s[k].0 != s[s.len() - 1].0);
            }
        }
    }
}

/// Deduplication leaves records with unique ids as they are.
pub proof fn lemma_deduped_of_unique(s: Seq<Record>)
    requires
        unique_ids(s),
    ensures
        deduped(s) == s,
    decreases s.len(),
{
    if s.len() > 0 {
        let t = s.drop_last();
        assert(unique_ids(t));
        lemma_deduped_of_unique(t);
        if has_id(t, s.last().0) {
            let k = choose|k: int| 0 <= k < t.len() && (#[trigger] t[k]).0 == s.last().0;
            assert(s[k].0 != s[s.len() - 1].0);
        }
        assert(t.push(s.last()) =~= s);
    }
}

/// Records whose ids are all in `ids` are all kept.
pub proof fn lemma_kept_all(s: Seq<Record>, ids: Seq<Seq<char>>)
    requires
        forall|j: int| 0 <= j < s.len() ==> ids.contains(#[trigger] s[j].0),
    ensures
        kept(s, ids) == s,
    decreases s.len(),
{
    if s.len() > 0 {
        let t = s.drop_last();
        assert forall|j: int| 0 <= j < t.len() implies ids.contains(#[trigger] t[j].0) by {
            assert(t[j] == s[j]);
        }
        lemma_kept_all(t, ids);
        assert(ids.contains(s[s.len() - 1].0));
        assert(t.push(s.last()) =~= s);
    }
}

/// Saving a history and loading it back without pruning gives the same
/// history.
pub proof fn lemma_save_load_round_trip(h: &History, ids: Seq<Seq<char>>)
    requires
        h.wf(),
    ensures
        loaded(h@, false, ids) == h@,
{
    lemma_deduped_of_unique(h@);
}

/// Loading with pruning is idempotent: loading again, with the same entry
/// ids, what a pruning load produced keeps the same records.
pub proof fn lemma_prune_load_idempotent(s: Seq<Record>, ids: Seq<Seq<char>>)
    ensures
        loaded(loaded(s, true, ids), true, ids) == loaded(s, true, ids),
{
    let u = loaded(s, true, ids);
    lemma_deduped_unique(s);
    lemma_kept_unique(deduped(s), ids);
    lemma_deduped_of_unique(u);
    lemma_kept_from(deduped(s), ids);
    lemma_kept_all(u, ids);
}

/// What one launch does to the record of its id; ids stay unique.
pub proof fn lemma_recorded_stat(s: Seq<Record>, id: Seq<char>, now: u64)
    requires
        unique_ids(s),
    ensures
        unique_ids(recorded(s, id, now)),
        stat_of(recorded(s, id, now), id) == Some(
            match stat_of(s, id) {
                Some(st) => (if st.0 == u64::MAX { st.0 } else { (st.0 + 1) as u64 }, now),
                None => (1u64, now),
            },
        ),
{
    let r = recorded(s, id, now);
    if has_id(s, id) {
        let i = index_of(s, id);
        assert(r.len() == s.len());
        assert forall|a: int, b: int| 0 <= a < b < r.len() implies (#[trigger] r[a]).0 != (
        #[trigger] r[b]).0 by {
            assert(r[a].0 == s[a].0);
            assert(r[b].0 == s[b].0);
        }
        lemma_index_of_unique(r, i);
    } else {
        assert forall|a: int, b: int| 0 <= a < b < r.len() implies (#[trigger] r[a]).0 != (
        #[trigger] r[b]).0 by {
            if b == s.len() {
                assert(r[a] == s[a]);
            } else {
                assert(r[a] == s[a]);
                assert(r[b] == s[b]);
            }
        }
        lemma_index_of_unique(r, s.len() as int);
    }
}

/// Recording two launches of one id at ordinals that do not go back: each
/// raises its count by one, and the last use follows the ordinals, so it
/// never decreases.
pub proof fn lemma_record_use_monotone(s: Seq<Record>, id: Seq<char>, t1: u64, t2: u64)
    requires
        unique_ids(s),
        t1 <= t2,
        match stat_of(s, id) {
            Some(st) => st.0 < u64::MAX - 1 && st.1 <= t1,
            None => true,
        },
    ensures
        ({
            let s1 = recorded(s, id, t1);
            let s2 = recorded(s1, id, t2);
            &&& stat_of(s1, id) == Some(
                (
                    match stat_of(s, id) {
                        Some(st) => (st.0 + 1) as u64,
                        None => 1u64,
                    },
                    t1,
                ),
            )
            &&& stat_of(s2, id) == Some(((stat_of(s1, id).unwrap().0 + 1) as u64, t2))
            &&& stat_of(s2, id).unwrap().0 > stat_of(s1, id).unwrap().0
            &&& stat_of(s2, id).unwrap().1 >= stat_of(s1, id).unwrap().1
            &&& match stat_of(s, id) {
                Some(st) => stat_of(s1, id).unwrap().0 > st.0 && stat_of(s1, id).unwrap().1 >= st.1,
                None => true,
            }
        }),
{
    lemma_recorded_stat(s, id, t1);
    lemma_recorded_stat(recorded(s, id, t1), id, t2);
}

} // verus!
