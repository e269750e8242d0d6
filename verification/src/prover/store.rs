//! Task storage: the store interface and its in-memory implementation.

use vstd::prelude::*;

use crate::prover::error::{ProverError, ProverResult};
use crate::prover::record::TaskRecord;
use crate::prover::record::TaskRecordView;
use crate::prover::task::TaskStatus;

verus! {

/// A task that a retry pass should pick up at time `now`: it failed
/// transiently and its retry time has come.
pub open spec fn due_for_retry(r: TaskRecordView, now: u64) -> bool {
    &&& r.status.retriable()
    &&& r.retry_after matches Some(t)
    &&& t <= now
}

/// Whether task `r` is due for another attempt at `now`.
pub fn is_due_for_retry(r: &TaskRecord, now: u64) -> (b: bool)
    ensures
        b == due_for_retry(r@, now),
{
    match r.retry_after() {
        Some(t) => r.status().is_retriable() && t <= now,
        None => false,
    }
}

/// A task that is queued or being proved.
pub open spec fn in_progress(r: TaskRecordView) -> bool {
    r.status.in_progress()
}

/// `list` holds, once each, exactly the records of `tasks` that satisfy `pred`.
pub open spec fn lists_exactly(
    list: Seq<TaskRecordView>,
    tasks: Map<Seq<char>, TaskRecordView>,
    pred: spec_fn(TaskRecordView) -> bool,
) -> bool {
    &&& forall|k: int|
        0 <= k < list.len() ==> {
            &&& tasks.contains_key(#[trigger] list[k].uuid)
            &&& tasks[list[k].uuid] == list[k]
            &&& pred(list[k])
        }
    &&& forall|u: Seq<char>|
        tasks.contains_key(u) && pred(tasks[u]) ==> exists|k: int| 0 <= k < list.len() && #[trigger] list[k].uuid == u
    &&& forall|k1: int, k2: int|
        0 <= k1 < list.len() && 0 <= k2 < list.len() && k1 != k2 ==> list[k1].uuid != list[k2].uuid
}

/// The values of a list of records.
pub open spec fn record_views(list: Seq<TaskRecord>) -> Seq<TaskRecordView> {
    list.map_values(|r: TaskRecord| r@)
}

/// Persistence for task records, keyed by task UUID. The store's content is
/// the map [`TaskStore::tasks`] from UUID to record.
pub trait TaskStore {
    /// The records held, by UUID.
    spec fn tasks(&self) -> Map<Seq<char>, TaskRecordView>;

    /// The store's internal consistency.
    spec fn inv(&self) -> bool;

    fn get(&self, uuid: &str) -> (r: Option<TaskRecord>)
        requires
            self.inv(),
        ensures
            r is Some <==> self.tasks().contains_key(uuid@),
            r matches Some(rec) ==> rec@ == self.tasks()[uuid@],
    ;

    /// Adds a record; a record with the same UUID must not be there yet.
    fn insert(&mut self, record: TaskRecord) -> (r: ProverResult<()>)
        requires
            old(self).inv(),
        ensures
            final(self).inv(),
            old(self).tasks().contains_key(record@.uuid) ==> {
                &&& r matches Err(ProverError::TaskAlreadyExists(u)) && u@ == record@.uuid
                &&& final(self).tasks() == old(self).tasks()
            },
            !old(self).tasks().contains_key(record@.uuid) ==> {
                &&& r is Ok
                &&& final(self).tasks() == old(self).tasks().insert(record@.uuid, record@)
            },
    ;

    fn update_status(&mut self, uuid: &str, status: TaskStatus) -> (r: ProverResult<()>)
        requires
            old(self).inv(),
        ensures
            final(self).inv(),
            !old(self).tasks().contains_key(uuid@) ==> {
                &&& r matches Err(ProverError::TaskNotFound(u)) && u@ == uuid@
                &&& final(self).tasks() == old(self).tasks()
            },
            old(self).tasks().contains_key(uuid@) ==> {
                &&& r is Ok
                &&& final(self).tasks().dom() == old(self).tasks().dom()
                &&& forall|u: Seq<char>|
                    #![trigger final(self).tasks()[u]]
                    old(self).tasks().contains_key(u) && u != uuid@ ==> final(self).tasks()[u]
                        == old(self).tasks()[u]
                &&& final(self).tasks()[uuid@].status == status@
                &&& final(self).tasks()[uuid@].uuid == uuid@
                &&& final(self).tasks()[uuid@].retry_after == old(self).tasks()[uuid@].retry_after
                &&& final(self).tasks()[uuid@].metadata == old(self).tasks()[uuid@].metadata
            },
    ;

    fn set_retry_after(&mut self, uuid: &str, when: u64) -> (r: ProverResult<()>)
        requires
            old(self).inv(),
        ensures
            final(self).inv(),
            !old(self).tasks().contains_key(uuid@) ==> {
                &&& r matches Err(ProverError::TaskNotFound(u)) && u@ == uuid@
                &&& final(self).tasks() == old(self).tasks()
            },
            old(self).tasks().contains_key(uuid@) ==> {
                &&& r is Ok
                &&& final(self).tasks().dom() == old(self).tasks().dom()
                &&& forall|u: Seq<char>|
                    #![trigger final(self).tasks()[u]]
                    old(self).tasks().contains_key(u) && u != uuid@ ==> final(self).tasks()[u]
                        == old(self).tasks()[u]
                &&& final(self).tasks()[uuid@].retry_after == Some(when)
                &&& final(self).tasks()[uuid@].uuid == uuid@
                &&& final(self).tasks()[uuid@].status == old(self).tasks()[uuid@].status
                &&& final(self).tasks()[uuid@].metadata == old(self).tasks()[uuid@].metadata
            },
    ;

    fn set_metadata(&mut self, uuid: &str, data: Vec<u8>) -> (r: ProverResult<()>)
        requires
            old(self).inv(),
        ensures
            final(self).inv(),
            !old(self).tasks().contains_key(uuid@) ==> {
                &&& r matches Err(ProverError::TaskNotFound(u)) && u@ == uuid@
                &&& final(self).tasks() == old(self).tasks()
            },
            old(self).tasks().contains_key(uuid@) ==> {
                &&& r is Ok
                &&& final(self).tasks().dom() == old(self).tasks().dom()
                &&& forall|u: Seq<char>|
                    #![trigger final(self).tasks()[u]]
                    old(self).tasks().contains_key(u) && u != uuid@ ==> final(self).tasks()[u]
                        == old(self).tasks()[u]
                &&& final(self).tasks()[uuid@].metadata == Some(data@)
                &&& final(self).tasks()[uuid@].uuid == uuid@
                &&& final(self).tasks()[uuid@].status == old(self).tasks()[uuid@].status
                &&& final(self).tasks()[uuid@].retry_after == old(self).tasks()[uuid@].retry_after
            },
    ;

    /// The transiently failed tasks whose retry time is at or before `now`.
    fn list_retriable(&self, now: u64) -> (r: Vec<TaskRecord>)
        requires
            self.inv(),
        ensures
            lists_exactly(record_views(r@), self.tasks(), |t: TaskRecordView| due_for_retry(t, now)),
    ;

    /// The queued and proving tasks.
    fn list_in_progress(&self) -> (r: Vec<TaskRecord>)
        requires
            self.inv(),
        ensures
            lists_exactly(record_views(r@), self.tasks(), |t: TaskRecordView| in_progress(t)),
    ;

    fn count(&self) -> (r: usize)
        requires
            self.inv(),
        ensures
            r == self.tasks().dom().len(),
    ;
}

/// In-memory task store. Default for tests and development.

pub struct InMemoryTaskStore {
    records: Vec<TaskRecord>,
    index: Ghost<Map<Seq<char>, TaskRecordView>>,
}

impl InMemoryTaskStore {
    pub fn new() -> (r: InMemoryTaskStore)
        ensures
            r.inv(),
            r.tasks() == Map::<Seq<char>, TaskRecordView>::empty(),
    {
        InMemoryTaskStore { records: Vec::new(), index: Ghost(Map::empty()) }
    }

    /// Position of the record of task `key`, if there is one.
    fn position(&self, key: &String) -> (r: Option<usize>)
        requires
            self.inv(),
        ensures
            r is None <==> !self.tasks().contains_key(key@),
            r matches Some(i) ==> i < self.records.len() && self.records@[i as int]@.uuid == key@,
    {
        let mut i: usize = 0;
        while i < self.records.len()
            invariant
                self.inv(),
                i <= self.records.len(),
                forall|j: int| 0 <= j < i ==> self.records@[j]@.uuid != key@,
            decreases self.records.len() - i,
        {
            if self.records[i].has_uuid(key) {
                return Some(i);
            }
            i += 1;
        }
        None
    }

    /// Replaces the record at `i` by `rec`, which keeps its UUID.
    fn replace_at(&mut self, i: usize, rec: TaskRecord)
        requires
            old(self).inv(),
            i < old(self).records.len(),
            rec@.uuid == old(self).records@[i as int]@.uuid,
        ensures
            final(self).inv(),
            final(self).tasks() == old(self).tasks().insert(rec@.uuid, rec@),
    {
        let ghost key = rec@.uuid;
        let ghost v = rec@;
        self.records.set(i, rec);
        proof {
            self.index@ = self.index@.insert(key, v);
            assert(self.index@.dom() =~= old(self).index@.dom());
            assert forall|j: int| 0 <= j < self.records@.len() implies {
                &&& self.index@.contains_key(#[trigger] self.records@[j]@.uuid)
                &&& self.index@[self.records@[j]@.uuid] == self.records@[j]@
            } by {
                if j != i {
                    assert(self.records@[j] == old(self).records@[j]);
                }
            }
            assert forall|u: Seq<char>| #[trigger] self.index@.contains_key(u) implies exists|j: int|
                0 <= j < self.records@.len() && self.records@[j]@.uuid == u by {
                let j = choose|j: int|
                    0 <= j < old(self).records@.len() && old(self).records@[j]@.uuid == u;
                assert(self.records@[j]@.uuid == u);
            }
        }
    }
}

impl TaskStore for InMemoryTaskStore {
    closed spec fn tasks(&self) -> Map<Seq<char>, TaskRecordView> {
        self.index@
    }

    closed spec fn inv(&self) -> bool {
        &&& self.index@.dom().finite()
        &&& self.index@.dom().len() == self.records@.len()
        &&& forall|i: int, j: int|
            0 <= i < self.records@.len() && 0 <= j < self.records@.len() && i != j
                ==> self.records@[i]@.uuid != self.records@[j]@.uuid
        &&& forall|i: int|
            0 <= i < self.records@.len() ==> {
                &&& self.index@.contains_key(#[trigger] self.records@[i]@.uuid)
                &&& self.index@[self.records@[i]@.uuid] == self.records@[i]@
            }
        &&& forall|u: Seq<char>|
            #[trigger] self.index@.contains_key(u) ==> exists|i: int|
                0 <= i < self.records@.len() && self.records@[i]@.uuid == u
    }

    fn get(&self, uuid: &str) -> (r: Option<TaskRecord>) {
        let key = uuid.to_owned();
        match self.position(&key) {
            Some(i) => Some(self.records[i].duplicate()),
            None => None,
        }
    }

    fn insert(&mut self, record: TaskRecord) -> (r: ProverResult<()>) {
        let key = record.uuid().to_owned();
        if self.position(&key).is_some() {
            return Err(ProverError::TaskAlreadyExists(key));
        }
        let ghost v = record@;
        self.records.push(record);
        proof {
            let old_index = self.index@;
            self.index@ = old_index.insert(v.uuid, v);
            assert(!old_index.contains_key(v.uuid));
            assert(self.index@.dom() =~= old_index.dom().insert(v.uuid));
            let n = self.records@.len() - 1;
            assert forall|i: int| 0 <= i < self.records@.len() implies {
                &&& self.index@.contains_key(#[trigger] self.records@[i]@.uuid)
                &&& self.index@[self.records@[i]@.uuid] == self.records@[i]@
            } by {
                if i < n {
                    assert(self.records@[i] == old(self).records@[i]);
                    assert(old_index.contains_key(old(self).records@[i]@.uuid));
                }
            }
            assert forall|i: int, j: int|
                0 <= i < self.records@.len() && 0 <= j < self.records@.len() && i != j
                implies self.records@[i]@.uuid != self.records@[j]@.uuid by {
                if i < n && j < n {
                    assert(self.records@[i] == old(self).records@[i]);
                    assert(self.records@[j] == old(self).records@[j]);
                } else if i < n {
                    assert(self.records@[i] == old(self).records@[i]);
                    assert(old_index.contains_key(old(self).records@[i]@.uuid));
                } else if j < n {
                    assert(self.records@[j] == old(self).records@[j]);
                    assert(old_index.contains_key(old(self).records@[j]@.uuid));
                }
            }
            assert forall|u: Seq<char>| #[trigger] self.index@.contains_key(u) implies exists|i: int|
                0 <= i < self.records@.len() && self.records@[i]@.uuid == u by {
                if u == v.uuid {
                    assert(self.records@[n]@.uuid == u);
                } else {
                    assert(old_index.contains_key(u));
                    let j = choose|j: int|
                        0 <= j < old(self).records@.len() && old(self).records@[j]@.uuid == u;
                    assert(self.records@[j] == old(self).records@[j]);
                }
            }
        }
        Ok(())
    }

    fn update_status(&mut self, uuid: &str, status: TaskStatus) -> (r: ProverResult<()>) {
        let key = uuid.to_owned();
        match self.position(&key) {
            None => Err(ProverError::TaskNotFound(key)),
            Some(i) => {
                let mut rec = self.records[i].duplicate();
                rec.update_status(status);
                self.replace_at(i, rec);
                Ok(())
            },
        }
    }

    fn set_retry_after(&mut self, uuid: &str, when: u64) -> (r: ProverResult<()>) {
        let key = uuid.to_owned();
        match self.position(&key) {
            None => Err(ProverError::TaskNotFound(key)),
            Some(i) => {
                let mut rec = self.records[i].duplicate();
                rec.set_retry_after(Some(when));
                self.replace_at(i, rec);
                Ok(())
            },
        }
    }

    fn set_metadata(&mut self, uuid: &str, data: Vec<u8>) -> (r: ProverResult<()>) {
        let key = uuid.to_owned();
        match self.position(&key) {
            None => Err(ProverError::TaskNotFound(key)),
            Some(i) => {
                let mut rec = self.records[i].duplicate();
                rec.set_metadata(Some(data));
                self.replace_at(i, rec);
                Ok(())
            },
        }
    }

    fn list_retriable(&self, now: u64) -> (r: Vec<TaskRecord>) {
        let ghost pred = |t: TaskRecordView| due_for_retry(t, now);
        let mut out: Vec<TaskRecord> = Vec::new();
        let ghost mut src: Seq<int> = Seq::empty();
        let mut i: usize = 0;
        while i < self.records.len()
            invariant
                pred == (|t: TaskRecordView| due_for_retry(t, now)),
                self.inv(),
                i <= self.records.len(),
                src.len() == out@.len(),
                forall|k: int|
                    0 <= k < out@.len() ==> 0 <= #[trigger] src[k] < i && out@[k]@
                        == self.records@[src[k]]@ && pred(out@[k]@),
                forall|k1: int, k2: int| 0 <= k1 < k2 < src.len() ==> src[k1] < src[k2],
                forall|j: int|
                    0 <= j < i && pred(#[trigger] self.records@[j]@) ==> exists|k: int|
                        0 <= k < src.len() && src[k] == j,
            decreases self.records.len() - i,
        {
            let rec = &self.records[i];
            let due = is_due_for_retry(rec, now);
            let ghost out0 = out@;
            let ghost src0 = src;
            if due {
                out.push(rec.duplicate());
                proof {
                    src = src.push(i as int);
                }
            }
            proof {
                Self::lemma_filter_step(self.records@, out0, src0, out@, src, pred, i as int, due);
            }
            i += 1;
        }
        proof {
            self.lemma_lists_exactly(out@, src, pred);
        }
        out
    }

    fn list_in_progress(&self) -> (r: Vec<TaskRecord>) {
        let ghost pred = |t: TaskRecordView| in_progress(t);
        let mut out: Vec<TaskRecord> = Vec::new();
        let ghost mut src: Seq<int> = Seq::empty();
        let mut i: usize = 0;
        while i < self.records.len()
            invariant
                pred == (|t: TaskRecordView| in_progress(t)),
                self.inv(),
                i <= self.records.len(),
                src.len() == out@.len(),
                forall|k: int|
                    0 <= k < out@.len() ==> 0 <= #[trigger] src[k] < i && out@[k]@
                        == self.records@[src[k]]@ && pred(out@[k]@),
                forall|k1: int, k2: int| 0 <= k1 < k2 < src.len() ==> src[k1] < src[k2],
                forall|j: int|
                    0 <= j < i && pred(#[trigger] self.records@[j]@) ==> exists|k: int|
                        0 <= k < src.len() && src[k] == j,
            decreases self.records.len() - i,
        {
            let rec = &self.records[i];
            let keep = rec.status().is_in_progress();
            assert(keep == in_progress(self.records@[i as int]@));
            let ghost out0 = out@;
            let ghost src0 = src;
            if keep {
                out.push(rec.duplicate());
                proof {
                    src = src.push(i as int);
                }
            }
            proof {
                Self::lemma_filter_step(self.records@, out0, src0, out@, src, pred, i as int, keep);
            }
            i += 1;
        }
        proof {
            self.lemma_lists_exactly(out@, src, pred);
        }
        out
    }

    fn count(&self) -> (r: usize) {
        self.records.len()
    }
}

impl InMemoryTaskStore {
    /// One step of a filtering pass over `records`: position `i` was examined
    /// and, when `kept`, its record was appended to the output, with the
    /// source positions `src` extended by `i`.
    proof fn lemma_filter_step(
        records: Seq<TaskRecord>,
        out0: Seq<TaskRecord>,
        src0: Seq<int>,
        out: Seq<TaskRecord>,
        src: Seq<int>,
        pred: spec_fn(TaskRecordView) -> bool,
        i: int,
        kept: bool,
    )
        requires
            0 <= i < records.len(),
            src0.len() == out0.len(),
            kept == pred(records[i]@),
            kept ==> src == src0.push(i) && out.len() == out0.len() + 1 && out[out.len() - 1]@
                == records[i]@ && (forall|k: int| 0 <= k < out0.len() ==> out[k] == out0[k]),
            !kept ==> src == src0 && out == out0,
            forall|k: int|
                0 <= k < out0.len() ==> 0 <= #[trigger] src0[k] < i && out0[k]@ == records[src0[k]]@
                    && pred(out0[k]@),
            forall|k1: int, k2: int| 0 <= k1 < k2 < src0.len() ==> src0[k1] < src0[k2],
            forall|j: int|
                0 <= j < i && pred(#[trigger] records[j]@) ==> exists|k: int|
                    0 <= k < src0.len() && src0[k] == j,
        ensures
            src.len() == out.len(),
            forall|k: int|
                0 <= k < out.len() ==> 0 <= #[trigger] src[k] < i + 1 && out[k]@ == records[src[k]]@
                    && pred(out[k]@),
            forall|k1: int, k2: int| 0 <= k1 < k2 < src.len() ==> src[k1] < src[k2],
            forall|j: int|
                0 <= j < i + 1 && pred(#[trigger] records[j]@) ==> exists|k: int|
                    0 <= k < src.len() && src[k] == j,
    {
        if kept {
            assert forall|k: int| 0 <= k < out.len() implies 0 <= #[trigger] src[k] < i + 1
                && out[k]@ == records[src[k]]@ && pred(out[k]@) by {
                if k < out0.len() {
                    assert(src[k] == src0[k]);
                }
            }
        }
        assert forall|j: int| 0 <= j < i + 1 && pred(#[trigger] records[j]@) implies exists|k: int|
            0 <= k < src.len() && src[k] == j by {
            if j == i {
                assert(src[src.len() - 1] == j);
            } else {
                let k = choose|k: int| 0 <= k < src0.len() && src0[k] == j;
                assert(src[k] == src0[k]);
            }
        }
    }

    /// A filtered copy of the records, with the positions it was taken from,
    /// lists exactly the matching tasks.
    proof fn lemma_lists_exactly(
        &self,
        out: Seq<TaskRecord>,
        src: Seq<int>,
        pred: spec_fn(TaskRecordView) -> bool,
    )
        requires
            self.inv(),
            src.len() == out.len(),
            forall|k: int|
                0 <= k < out.len() ==> 0 <= #[trigger] src[k] < self.records@.len() && out[k]@
                    == self.records@[src[k]]@ && pred(out[k]@),
            forall|k1: int, k2: int| 0 <= k1 < k2 < src.len() ==> src[k1] < src[k2],
            forall|j: int|
                0 <= j < self.records@.len() && pred(#[trigger] self.records@[j]@) ==> exists|k: int|
                    0 <= k < src.len() && src[k] == j,
        ensures
            lists_exactly(record_views(out), self.tasks(), pred),
    {
        let list = record_views(out);
        assert forall|k: int| 0 <= k < list.len() implies {
            &&& self.tasks().contains_key(#[trigger] list[k].uuid)
            &&& self.tasks()[list[k].uuid] == list[k]
            &&& pred(list[k])
        } by {
            assert(list[k] == out[k]@);
            assert(src[k] < self.records@.len());
            let _ = self.records@[src[k]]@.uuid;
        }
        assert forall|u: Seq<char>| self.tasks().contains_key(u) && pred(self.tasks()[u]) implies exists|k: int|
            0 <= k < list.len() && #[trigger] list[k].uuid == u by {
            assert(self.index@.contains_key(u));
            let j = choose|j: int| 0 <= j < self.records@.len() && self.records@[j]@.uuid == u;
            assert(self.index@[self.records@[j]@.uuid] == self.records@[j]@);
            assert(pred(self.records@[j]@));
            let k = choose|k: int| 0 <= k < src.len() && src[k] == j;
            assert(list[k] == out[k]@);
        }
        assert forall|k1: int, k2: int|
            0 <= k1 < list.len() && 0 <= k2 < list.len() && k1 != k2 implies list[k1].uuid
            != list[k2].uuid by {
            assert(list[k1] == out[k1]@);
            assert(list[k2] == out[k2]@);
            if k1 < k2 {
                assert(src[k1] < src[k2]);
            } else {
                assert(src[k2] < src[k1]);
            }
        }
    }
}

} // verus!
