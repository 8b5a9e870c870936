//! The records of all watches, one for each job.

use vstd::prelude::*;

use crate::clock::Timestamp;
use crate::text::{same_text, views};
use crate::watch::model::{RecordView, WatchRecord};

verus! {

pub struct WatchStore {
    records: Vec<WatchRecord>,
}

/// The job identifiers of these records.
pub open spec fn job_ids(records: Seq<WatchRecord>) -> Seq<Seq<char>> {
    records.map_values(|r: WatchRecord| r@.job_id)
}

/// The records by job identifier.
pub open spec fn by_job(records: Seq<WatchRecord>) -> Map<Seq<char>, RecordView> {
    Map::new(
        |id: Seq<char>| job_ids(records).contains(id),
        |id: Seq<char>| records[job_ids(records).index_of(id)]@,
    )
}

impl View for WatchStore {
    type V = Map<Seq<char>, RecordView>;

    closed spec fn view(&self) -> Map<Seq<char>, RecordView> {
        by_job(self.records@)
    }
}

/// Whether a record is over and was not touched since the cutoff.
pub open spec fn expired(r: RecordView, cutoff: Timestamp) -> bool {
    r.status.terminal() && r.updated_at.before(cutoff)
}

/// The records that are not expired.
pub open spec fn unexpired(
    m: Map<Seq<char>, RecordView>,
    cutoff: Timestamp,
) -> Map<Seq<char>, RecordView> {
    Map::new(
        |id: Seq<char>| m.dom().contains(id) && !expired(m[id], cutoff),
        |id: Seq<char>| m[id],
    )
}

/// Whether these records are all of the map's, each once, the earliest first.
pub open spec fn lists_all(
    records: Seq<WatchRecord>,
    m: Map<Seq<char>, RecordView>,
) -> bool {
    &&& job_ids(records).no_duplicates()
    &&& by_job(records) == m
    &&& forall|i: int, j: int|
        #![trigger records[i], records[j]]
        0 <= i < j < records.len() ==> !records[j]@.created_at.before(records[i]@.created_at)
}

/// A listed record is the map's record of its job.
pub proof fn lemma_at(records: Seq<WatchRecord>, i: int)
    requires
        job_ids(records).no_duplicates(),
        0 <= i < records.len(),
    ensures
        by_job(records).dom().contains(records[i]@.job_id),
        by_job(records)[records[i]@.job_id] == records[i]@,
{
    let ids = job_ids(records);
    assert(ids[i] == records[i]@.job_id);
    assert(ids.contains(records[i]@.job_id));
    let k = ids.index_of(records[i]@.job_id);
    assert(ids[k] == ids[i]);
}

proof fn lemma_absent(records: Seq<WatchRecord>, id: Seq<char>)
    requires
        forall|i: int| 0 <= i < records.len() ==> (#[trigger] records[i])@.job_id != id,
    ensures
        !by_job(records).dom().contains(id),
{
    let ids = job_ids(records);
    if ids.contains(id) {
        let i = choose|i: int| 0 <= i < ids.len() && ids[i] == id;
        assert(records[i]@.job_id == id);
    }
}

/// Every record that the map holds stands somewhere in the list.
pub proof fn lemma_position(records: Seq<WatchRecord>, id: Seq<char>) -> (i: int)
    requires
        job_ids(records).no_duplicates(),
        by_job(records).dom().contains(id),
    ensures
        0 <= i < records.len(),
        records[i]@.job_id == id,
        by_job(records)[id] == records[i]@,
{
    let ids = job_ids(records);
    let i = ids.index_of(id);
    assert(ids[i] == id);
    i
}

proof fn lemma_pushed(records: Seq<WatchRecord>, record: WatchRecord)
    requires
        job_ids(records).no_duplicates(),
        !by_job(records).dom().contains(record@.job_id),
    ensures
        job_ids(records.push(record)).no_duplicates(),
        by_job(records.push(record)) == by_job(records).insert(record@.job_id, record@),
{
    lemma_inserted(records, records.len() as int, record);
    assert(records.insert(records.len() as int, record) =~= records.push(record));
}

proof fn lemma_inserted(records: Seq<WatchRecord>, at: int, record: WatchRecord)
    requires
        job_ids(records).no_duplicates(),
        0 <= at <= records.len(),
        !by_job(records).dom().contains(record@.job_id),
    ensures
        job_ids(records.insert(at, record)).no_duplicates(),
        by_job(records.insert(at, record)) == by_job(records).insert(record@.job_id, record@),
{
    let after = records.insert(at, record);
    let ids = job_ids(records);
    let new_ids = job_ids(after);
    assert forall|i: int, j: int|
        0 <= i < new_ids.len() && 0 <= j < new_ids.len() && i != j implies new_ids[i]
        != new_ids[j] by {
        let a = if i < at { i } else { i - 1 };
        let b = if j < at { j } else { j - 1 };
        if i != at {
            assert(new_ids[i] == ids[a]);
            assert(ids.contains(ids[a]));
        }
        if j != at {
            assert(new_ids[j] == ids[b]);
            assert(ids.contains(ids[b]));
        }
    }
    let left = by_job(after);
    let right = by_job(records).insert(record@.job_id, record@);
    assert forall|id: Seq<char>| left.dom().contains(id) <==> right.dom().contains(id) by {
        if left.dom().contains(id) {
            let i = lemma_position(after, id);
            if i != at {
                let a = if i < at { i } else { i - 1 };
                assert(records[a] == after[i]);
                lemma_at(records, a);
            }
        }
        if right.dom().contains(id) {
            if id == record@.job_id {
                assert(after[at] == record);
                lemma_at(after, at);
            } else {
                let a = lemma_position(records, id);
                let i = if a < at { a } else { a + 1 };
                assert(after[i] == records[a]);
                lemma_at(after, i);
            }
        }
    }
    assert forall|id: Seq<char>| left.dom().contains(id) implies left[id] == right[id] by {
        let i = lemma_position(after, id);
        if i != at {
            let a = if i < at { i } else { i - 1 };
            assert(records[a] == after[i]);
            lemma_at(records, a);
        }
    }
    assert(left =~= right);
}

proof fn lemma_replaced(records: Seq<WatchRecord>, at: int, record: WatchRecord)
    requires
        job_ids(records).no_duplicates(),
        0 <= at < records.len(),
        records[at]@.job_id == record@.job_id,
    ensures
        job_ids(records.update(at, record)).no_duplicates(),
        by_job(records.update(at, record)) == by_job(records).insert(record@.job_id, record@),
{
    let after = records.update(at, record);
    assert(job_ids(after) =~= job_ids(records));
    let left = by_job(after);
    let right = by_job(records).insert(record@.job_id, record@);
    lemma_at(records, at);
    lemma_at(after, at);
    assert forall|id: Seq<char>| left.dom().contains(id) implies left[id] == right[id] by {
        let i = lemma_position(after, id);
        lemma_at(records, i);
    }
    assert(left =~= right);
}

/// There are as many jobs as records.
proof fn lemma_count(records: Seq<WatchRecord>)
    requires
        job_ids(records).no_duplicates(),
    ensures
        by_job(records).dom().len() == records.len(),
{
    let ids = job_ids(records);
    ids.unique_seq_to_set();
    assert(by_job(records).dom() =~= ids.to_set());
}

/// Whether these are the identifiers of the expired records, each once.
pub open spec fn lists_expired(
    ids: Seq<Seq<char>>,
    m: Map<Seq<char>, RecordView>,
    cutoff: Timestamp,
) -> bool {
    &&& ids.no_duplicates()
    &&& forall|id: Seq<char>| #[trigger]
        ids.contains(id) <==> m.dom().contains(id) && expired(m[id], cutoff)
}

proof fn lemma_sweep_step(
    done: Seq<WatchRecord>,
    record: WatchRecord,
    kept: Seq<WatchRecord>,
    removed: Seq<Seq<char>>,
    cutoff: Timestamp,
)
    requires
        job_ids(done).no_duplicates(),
        !by_job(done).dom().contains(record@.job_id),
        job_ids(kept).no_duplicates(),
        by_job(kept) == unexpired(by_job(done), cutoff),
        lists_expired(removed, by_job(done), cutoff),
    ensures
        expired(record@, cutoff) ==> by_job(kept) == unexpired(
            by_job(done).insert(record@.job_id, record@),
            cutoff,
        ) && lists_expired(
            removed.push(record@.job_id),
            by_job(done).insert(record@.job_id, record@),
            cutoff,
        ),
        !expired(record@, cutoff) ==> by_job(kept).insert(record@.job_id, record@) == unexpired(
            by_job(done).insert(record@.job_id, record@),
            cutoff,
        ) && lists_expired(removed, by_job(done).insert(record@.job_id, record@), cutoff)
            && !by_job(kept).dom().contains(record@.job_id),
{
    let before = by_job(done);
    let after = before.insert(record@.job_id, record@);
    if expired(record@, cutoff) {
        assert(unexpired(after, cutoff) =~= unexpired(before, cutoff));
        let more = removed.push(record@.job_id);
        assert forall|id: Seq<char>| #[trigger]
            more.contains(id) <==> after.dom().contains(id) && expired(after[id], cutoff) by {
            if more.contains(id) {
                let k = choose|k: int| 0 <= k < more.len() && more[k] == id;
                if k < removed.len() {
                    assert(removed[k] == id);
                    assert(removed.contains(id));
                }
            }
            if after.dom().contains(id) && expired(after[id], cutoff) {
                if id == record@.job_id {
                    assert(more[removed.len() as int] == id);
                } else {
                    assert(removed.contains(id));
                    let k = choose|k: int| 0 <= k < removed.len() && removed[k] == id;
                    assert(more[k] == id);
                }
            }
        }
        assert(!removed.contains(record@.job_id));
    } else {
        assert(unexpired(after, cutoff) =~= unexpired(before, cutoff).insert(
            record@.job_id,
            record@,
        ));
        assert forall|id: Seq<char>| #[trigger]
            removed.contains(id) <==> after.dom().contains(id) && expired(after[id], cutoff) by {
        }
    }
}

impl WatchStore {
    /// Each job has one record.
    pub closed spec fn wf(&self) -> bool {
        job_ids(self.records@).no_duplicates()
    }

    pub fn new() -> (res: Self)
        ensures
            res.wf(),
            res@ == Map::<Seq<char>, RecordView>::empty(),
    {
        let res = WatchStore { records: Vec::new() };
        assert(by_job(res.records@) =~= Map::<Seq<char>, RecordView>::empty());
        res
    }

    fn find(&self, job_id: &str) -> (res: Option<usize>)
        ensures
            match res {
                Some(i) => i < self.records@.len() && self.records@[i as int]@.job_id == job_id@,
                None => forall|i: int|
                    0 <= i < self.records@.len() ==> (#[trigger] self.records@[i])@.job_id
                        != job_id@,
            },
    {
        let mut i: usize = 0;
        while i < self.records.len()
            invariant
                i <= self.records@.len(),
                forall|k: int|
                    0 <= k < i ==> (#[trigger] self.records@[k])@.job_id != job_id@,
            decreases self.records@.len() - i,
        {
            if same_text(self.records[i].job_id.as_str(), job_id) {
                return Some(i);
            }
            i += 1;
        }
        None
    }

    /// The record of a job.
    pub fn get(&self, job_id: &str) -> (res: Option<&WatchRecord>)
        requires
            self.wf(),
        ensures
            match res {
                Some(r) => self@.get(job_id@) == Some(r@),
                None => self@.get(job_id@) is None,
            },
            res matches Some(r) ==> r@.job_id == job_id@,
    {
        match self.find(job_id) {
            Some(i) => {
                proof {
                    lemma_at(self.records@, i as int);
                }
                Some(&self.records[i])
            },
            None => {
                proof {
                    lemma_absent(self.records@, job_id@);
                }
                None
            },
        }
    }

    /// Puts a record in the place of its job's.
    pub fn put(&mut self, record: WatchRecord)
        requires
            old(self).wf(),
        ensures
            final(self).wf(),
            final(self)@ == old(self)@.insert(record@.job_id, record@),
    {
        match self.find(record.job_id.as_str()) {
            Some(i) => {
                proof {
                    lemma_replaced(self.records@, i as int, record);
                }
                self.records[i] = record;
            },
            None => {
                proof {
                    lemma_absent(self.records@, record@.job_id);
                    lemma_pushed(self.records@, record);
                }
                self.records.push(record);
            },
        }
    }

    /// Drops the expired records and says whose they were.
    pub fn remove_expired(&mut self, cutoff: Timestamp) -> (res: Vec<String>)
        requires
            old(self).wf(),
        ensures
            final(self).wf(),
            final(self)@ == unexpired(old(self)@, cutoff),
            lists_expired(views(res@), old(self)@, cutoff),
            res@.len() + final(self)@.dom().len() == old(self)@.dom().len(),
    {
        let ghost all = self.records@;
        let mut kept: Vec<WatchRecord> = Vec::new();
        let mut removed: Vec<String> = Vec::new();
        let mut i: usize = 0;
        assert(by_job(kept@) =~= unexpired(by_job(all.take(0)), cutoff));
        assert(lists_expired(views(removed@), by_job(all.take(0)), cutoff));
        while i < self.records.len()
            invariant
                self.records@ == all,
                job_ids(all).no_duplicates(),
                i <= all.len(),
                job_ids(all.take(i as int)).no_duplicates(),
                job_ids(kept@).no_duplicates(),
                by_job(kept@) == unexpired(by_job(all.take(i as int)), cutoff),
                lists_expired(views(removed@), by_job(all.take(i as int)), cutoff),
                kept@.len() + removed@.len() == i,
            decreases all.len() - i,
        {
            let record = self.records[i].clone();
            let ghost entry = all[i as int];
            let ghost done = all.take(i as int);
            let ghost gone = views(removed@);
            proof {
                assert(all.take(i + 1) =~= done.push(entry));
                if by_job(done).dom().contains(entry@.job_id) {
                    let k = lemma_position(done, entry@.job_id);
                    assert(job_ids(all)[k] == job_ids(all)[i as int]);
                }
                lemma_pushed(done, entry);
                lemma_sweep_step(done, entry, kept@, gone, cutoff);
            }
            if record.status.is_terminal() && record.updated_at.is_before(&cutoff) {
                removed.push(record.job_id);
                assert(views(removed@) =~= gone.push(entry@.job_id));
            } else {
                proof {
                    lemma_pushed(kept@, record);
                }
                kept.push(record);
            }
            i += 1;
        }
        assert(all.take(i as int) =~= all);
        proof {
            lemma_count(all);
            lemma_count(kept@);
        }
        self.records = kept;
        removed
    }

    /// All records, the earliest first.
    pub fn list(&self) -> (res: Vec<WatchRecord>)
        requires
            self.wf(),
        ensures
            lists_all(res@, self@),
    {
        let mut res: Vec<WatchRecord> = Vec::new();
        let mut i: usize = 0;
        assert(by_job(res@) =~= by_job(self.records@.take(0)));
        while i < self.records.len()
            invariant
                self.wf(),
                i <= self.records@.len(),
                lists_all(res@, by_job(self.records@.take(i as int))),
                job_ids(self.records@.take(i as int)).no_duplicates(),
            decreases self.records@.len() - i,
        {
            let record = self.records[i].clone();
            let ghost done = self.records@.take(i as int);
            let ghost entry = self.records@[i as int];
            let ghost before = res@;
            let mut at: usize = res.len();
            while at > 0 && record.created_at.is_before(&res[at - 1].created_at)
                invariant
                    at <= res@.len(),
                    res@ == before,
                    forall|k: int|
                        at <= k < res@.len() ==> record@.created_at.before(
                            (#[trigger] res@[k])@.created_at,
                        ),
                decreases at,
            {
                at -= 1;
            }
            proof {
                assert(self.records@.take(i + 1) =~= done.push(entry));
                if by_job(done).dom().contains(entry@.job_id) {
                    let k = lemma_position(done, entry@.job_id);
                    assert(job_ids(self.records@)[k] == job_ids(self.records@)[i as int]);
                }
                lemma_pushed(done, entry);
                lemma_inserted(before, at as int, record);
            }
            res.insert(at, record);
            proof {
                assert forall|a: int, b: int|
                    #![trigger res@[a], res@[b]]
                    0 <= a < b < res@.len() implies !res@[b]@.created_at.before(
                    res@[a]@.created_at,
                ) by {
                    let x = if a < at { a } else { a - 1 };
                    let y = if b < at { b } else { b - 1 };
                    if a != at {
                        assert(res@[a] == before[x]);
                    }
                    if b != at {
                        assert(res@[b] == before[y]);
                    }
                    if b == at && at > 0 {
                        assert(before[at - 1] == before[at - 1]);
                    }
                }
            }
            i += 1;
        }
        assert(self.records@.take(i as int) =~= self.records@);
        res
    }
}

} // verus!
