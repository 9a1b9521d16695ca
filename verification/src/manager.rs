use vstd::prelude::*;

use crate::errors::SyncError;
use crate::revision::{Revision, RevisionState, SyncRecord, SyncRecordView};
use crate::store::{
    create_spec, insert_one_spec, row_of_record, DatabaseRevisionPersistence,
    DatabaseRevisionState, RowView,
};
use crate::view_pad::DatabaseViewRevisionChangeset;

verus! {

/// The stored row a committed local revision adds: derived from the
/// manager's current revision id, unacknowledged.
pub open spec fn committed_row(oid: Seq<u8>, base: int, data: Seq<u8>) -> RowView {
    RowView {
        object_id: oid,
        base_rev_id: base,
        rev_id: base + 1,
        data: data,
        state: DatabaseRevisionState::Sync,
    }
}

/// The commit path of one object's revision log: assigns each local change
/// the next revision id, derived from the last one, and persists it in the
/// disk cache in `Sync` state until the remote authority acknowledges it.
pub struct RevisionManager {
    pub object_id: Vec<u8>,
    pub rev_id: i64,
    pub persistence: DatabaseRevisionPersistence,
}

impl RevisionManager {
    pub open spec fn inv(&self) -> bool {
        self.persistence.inv()
    }

    /// A manager for a fresh object: no revisions committed yet.
    pub fn new(object_id: Vec<u8>) -> (r: Self)
        ensures
            r.object_id@ == object_id@,
            r.rev_id == 0,
            r.persistence@ == Seq::<RowView>::empty(),
            r.inv(),
    {
        RevisionManager { object_id, rev_id: 0, persistence: DatabaseRevisionPersistence::new() }
    }

    /// Commits one local change: the new revision's id is one past the
    /// current one, its base is the current one, and it is persisted in
    /// `Sync` state. An empty payload is malformed and committed nowhere.
    pub fn add_local_revision(&mut self, data: Vec<u8>, checksum: Vec<u8>) -> (r: Result<
        i64,
        SyncError,
    >)
        requires
            old(self).inv(),
            old(self).rev_id < i64::MAX,
        ensures
            final(self).inv(),
            data@.len() == 0 ==> r is Err && r->Err_0 == SyncError::Serialization && *final(self) == *old(self),
            data@.len() > 0 ==> {
                &&& r is Ok
                &&& r->Ok_0 == old(self).rev_id + 1
                &&& final(self).rev_id == old(self).rev_id + 1
                &&& final(self).object_id@ == old(self).object_id@
                &&& final(self).persistence@ == insert_one_spec(
                    old(self).persistence@,
                    committed_row(old(self).object_id@, old(self).rev_id as int, data@),
                )
            },
    {
        if data.len() == 0 {
            return Err(SyncError::Serialization);
        }
        let base = self.rev_id;
        let new_id = base + 1;
        let ghost datav = data@;
        let revision = Revision::new(&self.object_id, base, new_id, data, checksum);
        let record = SyncRecord { revision, state: RevisionState::Sync, write_to_disk: true };
        let ghost recv = record@;
        let mut records: Vec<SyncRecord> = Vec::new();
        records.push(record);
        proof {
            assert(records@.map_values(|rec: SyncRecord| rec@) =~= seq![recv]);
        }
        let _ = self.persistence.create_revision_records(records);
        self.rev_id = new_id;
        proof {
            assert(seq![recv].drop_last() =~= Seq::<SyncRecordView>::empty());
            assert(create_spec(old(self).persistence@, Seq::<SyncRecordView>::empty())
                == old(self).persistence@);
            assert(row_of_record(recv) == committed_row(
                old(self).object_id@,
                old(self).rev_id as int,
                datav,
            ));
        }
        Ok(new_id)
    }
}

/// Commits a pad changeset through the revision manager: its encoded
/// operations become the next revision's payload, its hash the revision's
/// checksum. A changeset with an empty payload is malformed and committed
/// nowhere.
pub fn apply_change(rev_manager: &mut RevisionManager, change: DatabaseViewRevisionChangeset)
    -> (r: Result<(), SyncError>)
    requires
        old(rev_manager).inv(),
        old(rev_manager).rev_id < i64::MAX,
    ensures
        final(rev_manager).inv(),
        change.operations@.len() == 0 ==> r is Err && r->Err_0 == SyncError::Serialization
            && *final(rev_manager) == *old(rev_manager),
        change.operations@.len() > 0 ==> {
            &&& r is Ok
            &&& final(rev_manager).rev_id == old(rev_manager).rev_id + 1
            &&& final(rev_manager).object_id@ == old(rev_manager).object_id@
            &&& final(rev_manager).persistence@ == insert_one_spec(
                old(rev_manager).persistence@,
                committed_row(
                    old(rev_manager).object_id@,
                    old(rev_manager).rev_id as int,
                    change.operations@,
                ),
            )
        },
{
    match rev_manager.add_local_revision(change.operations, change.md5) {
        Ok(_) => Ok(()),
        Err(e) => Err(e),
    }
}

} // verus!
