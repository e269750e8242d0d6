//! A task record as held by a task store.

use vstd::prelude::*;

use crate::prover::task::{TaskStatus, TaskStatusView};
use crate::sys::now_micros;

verus! {

/// A single task record in the store. Times are microseconds since the UNIX
/// epoch.
#[derive(Debug, Clone)]
pub struct TaskRecord {
    uuid: String,
    status: TaskStatus,
    updated_at: u64,
    retry_after: Option<u64>,
    /// Opaque bytes for strategy-specific state (e.g. a remote proof id).
    metadata: Option<Vec<u8>>,
}

/// Mathematical value of a [`TaskRecord`].
pub struct TaskRecordView {
    pub uuid: Seq<char>,
    pub status: TaskStatusView,
    pub updated_at: u64,
    pub retry_after: Option<u64>,
    pub metadata: Option<Seq<u8>>,
}

impl View for TaskRecord {
    type V = TaskRecordView;

    closed spec fn view(&self) -> TaskRecordView {
        TaskRecordView {
            uuid: self.uuid@,
            status: self.status@,
            updated_at: self.updated_at,
            retry_after: self.retry_after,
            metadata: match self.metadata {
                Some(m) => Some(m@),
                None => None,
            },
        }
    }
}

/// A copy of a byte vector.
pub fn copy_bytes(v: &Vec<u8>) -> (r: Vec<u8>)
    ensures
        r@ == v@,
{
    let r = v.clone();
    assert(r@ =~= v@);
    r
}

impl TaskRecord {
    /// A fresh record for `uuid` in `status`, stamped with the current time.
    pub fn new(uuid: String, status: TaskStatus) -> (r: TaskRecord)
        ensures
            r@.uuid == uuid@,
            r@.status == status@,
            r@.retry_after is None,
            r@.metadata is None,
    {
        TaskRecord { uuid, status, updated_at: now_micros(), retry_after: None, metadata: None }
    }

    /// A record with every field given, as a store reads it back.
    pub fn from_parts(
        uuid: String,
        status: TaskStatus,
        updated_at: u64,
        retry_after: Option<u64>,
        metadata: Option<Vec<u8>>,
    ) -> (r: TaskRecord)
        ensures
            r@.uuid == uuid@,
            r@.status == status@,
            r@.updated_at == updated_at,
            r@.retry_after == retry_after,
            r@.metadata == (match metadata {
                Some(m) => Some(m@),
                None => None::<Seq<u8>>,
            }),
    {
        TaskRecord { uuid, status, updated_at, retry_after, metadata }
    }

    /// A copy with the same value.
    pub fn duplicate(&self) -> (r: TaskRecord)
        ensures
            r@ == self@,
    {
        let metadata = match &self.metadata {
            Some(m) => Some(copy_bytes(m)),
            None => None,
        };
        TaskRecord {
            uuid: self.uuid.clone(),
            status: self.status.duplicate(),
            updated_at: self.updated_at,
            retry_after: self.retry_after,
            metadata,
        }
    }

    /// Whether this record belongs to task `key`.
    pub fn has_uuid(&self, key: &String) -> (r: bool)
        ensures
            r == (self@.uuid == key@),
    {
        self.uuid == *key
    }

    pub fn uuid(&self) -> (r: &str)
        ensures
            r@ == self@.uuid,
    {
        self.uuid.as_str()
    }

    pub fn status(&self) -> (r: &TaskStatus)
        ensures
            r@ == self@.status,
    {
        &self.status
    }

    /// When the record was last changed.
    pub fn updated_at(&self) -> (r: u64)
        ensures
            r == self@.updated_at,
    {
        self.updated_at
    }

    pub fn retry_after(&self) -> (r: Option<u64>)
        ensures
            r == self@.retry_after,
    {
        self.retry_after
    }

    pub fn metadata(&self) -> (r: Option<&[u8]>)
        ensures
            self@.metadata is None ==> r is None,
            self@.metadata matches Some(m) ==> (r matches Some(s) && s@ == m),
    {
        match &self.metadata {
            Some(m) => Some(m.as_slice()),
            None => None,
        }
    }

    /// Replaces the status and stamps the record with the current time.
    pub fn update_status(&mut self, status: TaskStatus)
        ensures
            final(self)@.status == status@,
            final(self)@.uuid == old(self)@.uuid,
            final(self)@.retry_after == old(self)@.retry_after,
            final(self)@.metadata == old(self)@.metadata,
    {
        self.status = status;
        self.updated_at = now_micros();
    }

    /// Replaces the retry time and stamps the record with the current time.
    pub fn set_retry_after(&mut self, when: Option<u64>)
        ensures
            final(self)@.retry_after == when,
            final(self)@.uuid == old(self)@.uuid,
            final(self)@.status == old(self)@.status,
            final(self)@.metadata == old(self)@.metadata,
    {
        self.retry_after = when;
        self.updated_at = now_micros();
    }

    /// Replaces the metadata and stamps the record with the current time.
    pub fn set_metadata(&mut self, data: Option<Vec<u8>>)
        ensures
            final(self)@.metadata == (match data {
                Some(m) => Some(m@),
                None => None::<Seq<u8>>,
            }),
            final(self)@.uuid == old(self)@.uuid,
            final(self)@.status == old(self)@.status,
            final(self)@.retry_after == old(self)@.retry_after,
    {
        self.metadata = data;
        self.updated_at = now_micros();
    }
}

} // verus!
