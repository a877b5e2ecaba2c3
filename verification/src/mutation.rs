//! Keys, records and the mutations that a worker keeps for them.

use std::sync::Arc;
use vstd::prelude::*;

verus! {

/// The number of partitions into which the key space is divided.
pub const PARTITIONS_AMOUNT: usize = 4096;

/// Identifies one of the [`PARTITIONS_AMOUNT`] partitions.
pub type PartitionId = u16;

/// The partition of a 64-bit key.
pub open spec fn partition_of(key: u64) -> PartitionId {
    (key % 4096) as PartitionId
}

/// A storage key.
#[derive(Debug, Clone, Copy, PartialEq, Eq, Hash, PartialOrd, Ord, Structural)]
pub struct Key(pub u64);

impl Key {
    /// The partition that holds this key.
    pub fn partition(&self) -> (partition: PartitionId)
        ensures
            partition == partition_of(self.0),
            partition == self.0 % 4096,
            partition < PARTITIONS_AMOUNT,
    {
        (self.0 % 4096) as u16
    }
}

/// A stored value. An expiration time of zero means that the record never expires.
#[derive(Debug)]
pub struct Record {
    pub expiration_time_ms: u64,
    pub creation_time_ms: u64,
    pub value: Vec<u8>,
}

/// What a [`Record`] holds.
pub struct RecordView {
    pub expiration_time_ms: u64,
    pub creation_time_ms: u64,
    pub value: Seq<u8>,
}

impl View for Record {
    type V = RecordView;

    open spec fn view(&self) -> RecordView {
        RecordView {
            expiration_time_ms: self.expiration_time_ms,
            creation_time_ms: self.creation_time_ms,
            value: self.value@,
        }
    }
}

impl RecordView {
    /// The record has expired by `now_ms`.
    pub open spec fn expired_at(self, now_ms: u64) -> bool {
        self.expiration_time_ms != 0 && self.expiration_time_ms <= now_ms
    }
}

impl Clone for Record {
    fn clone(&self) -> (copy: Self)
        ensures
            copy@ == self@,
    {
        let copy = Record {
            expiration_time_ms: self.expiration_time_ms,
            creation_time_ms: self.creation_time_ms,
            value: self.value.clone(),
        };
        assert(copy.value@ =~= self.value@);
        copy
    }
}

impl Record {
    /// Whether the record has expired by `now_ms`.
    pub fn is_expired_at(&self, now_ms: u64) -> (expired: bool)
        ensures
            expired == self@.expired_at(now_ms),
            expired == (self.expiration_time_ms != 0 && self.expiration_time_ms <= now_ms),
    {
        self.expiration_time_ms != 0 && self.expiration_time_ms <= now_ms
    }
}

/// The latest thing that happened to a key: a value was stored, or the key was deleted. A
/// deletion stays behind as a tombstone, so that an older value cannot return.
#[derive(Debug)]
pub enum Mutation {
    Put(Arc<Record>),
    Delete { deletion_time_ms: u64 },
}

/// What a [`Mutation`] says.
pub enum MutationView {
    Put(RecordView),
    Delete { deletion_time_ms: u64 },
}

impl View for Mutation {
    type V = MutationView;

    open spec fn view(&self) -> MutationView {
        match self {
            Mutation::Put(record) => MutationView::Put(record@),
            Mutation::Delete { deletion_time_ms } => MutationView::Delete {
                deletion_time_ms: *deletion_time_ms,
            },
        }
    }
}

impl MutationView {
    /// The time stamp by which mutations of one key are ordered.
    pub open spec fn version(self) -> u64 {
        match self {
            MutationView::Put(record) => record.creation_time_ms,
            MutationView::Delete { deletion_time_ms } => deletion_time_ms,
        }
    }

    /// The mutation is a record that has expired by `now_ms`. A tombstone never expires.
    pub open spec fn expired_at(self, now_ms: u64) -> bool {
        match self {
            MutationView::Put(record) => record.expired_at(now_ms),
            MutationView::Delete { .. } => false,
        }
    }

    /// The mutation gives way to `newer`: its version is no greater.
    pub open spec fn yields_to(self, newer: MutationView) -> bool {
        self.version() <= newer.version()
    }
}

impl Clone for Mutation {
    fn clone(&self) -> (copy: Self)
        ensures
            copy == *self,
    {
        match self {
            Mutation::Put(record) => Mutation::Put(record.clone()),
            Mutation::Delete { deletion_time_ms } => Mutation::Delete {
                deletion_time_ms: *deletion_time_ms,
            },
        }
    }
}

impl Mutation {
    /// The time stamp by which mutations of one key are ordered.
    pub fn version(&self) -> (version: u64)
        ensures
            version == self@.version(),
            self matches Mutation::Put(record) ==> version == record.creation_time_ms,
            self matches Mutation::Delete { deletion_time_ms } ==> version == deletion_time_ms,
    {
        match self {
            Mutation::Put(record) => record.creation_time_ms,
            Mutation::Delete { deletion_time_ms } => *deletion_time_ms,
        }
    }

    /// Whether this mutation gives way to `newer`. Of two equal versions the one that comes
    /// later stays.
    pub fn yields_to(&self, newer: &Mutation) -> (yields: bool)
        ensures
            yields == self@.yields_to(newer@),
    {
        self.version() <= newer.version()
    }
}

/// What a key holds after `next` was offered to it: a greater version already there stays,
/// anything else is replaced.
pub open spec fn merge(current: Option<MutationView>, next: MutationView) -> MutationView {
    match current {
        Some(old) => if old.yields_to(next) {
            next
        } else {
            old
        },
        None => next,
    }
}

} // verus!
