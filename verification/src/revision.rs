use vstd::prelude::*;

verus! {

/// Mathematical value of a [`Revision`].
pub struct RevisionView {
    pub object_id: Seq<u8>,
    pub base_rev_id: int,
    pub rev_id: int,
    pub bytes: Seq<u8>,
    pub checksum: Seq<u8>,
}

/// One durable, ordered unit of change to an object's state.
///
/// `rev_id` strictly increases per `object_id` in the stored log;
/// `base_rev_id` names the revision this one was derived from (0 for the
/// first). `checksum` is the content hash of `bytes`.
pub struct Revision {
    pub object_id: Vec<u8>,
    pub base_rev_id: i64,
    pub rev_id: i64,
    pub bytes: Vec<u8>,
    pub checksum: Vec<u8>,
}

impl View for Revision {
    type V = RevisionView;

    open spec fn view(&self) -> RevisionView {
        RevisionView {
            object_id: self.object_id@,
            base_rev_id: self.base_rev_id as int,
            rev_id: self.rev_id as int,
            bytes: self.bytes@,
            checksum: self.checksum@,
        }
    }
}

impl Revision {
    pub fn new(
        object_id: &Vec<u8>,
        base_rev_id: i64,
        rev_id: i64,
        bytes: Vec<u8>,
        checksum: Vec<u8>,
    ) -> (r: Revision)
        ensures
            r@ == (RevisionView {
                object_id: object_id@,
                base_rev_id: base_rev_id as int,
                rev_id: rev_id as int,
                bytes: bytes@,
                checksum: checksum@,
            }),
    {
        Revision {
            object_id: clone_bytes(object_id),
            base_rev_id,
            rev_id,
            bytes,
            checksum,
        }
    }
}

impl Clone for Revision {
    fn clone(&self) -> (r: Self)
        ensures
            r@ == self@,
    {
        Revision {
            object_id: clone_bytes(&self.object_id),
            base_rev_id: self.base_rev_id,
            rev_id: self.rev_id,
            bytes: clone_bytes(&self.bytes),
            checksum: clone_bytes(&self.checksum),
        }
    }
}

/// Lifecycle state of a stored revision: `Sync` is locally committed but not
/// yet confirmed by the remote authority, `Ack` is confirmed. The only legal
/// transition is `Sync` to `Ack`.
#[derive(Clone, Copy, Debug, PartialEq, Eq, Structural)]
pub enum RevisionState {
    Sync,
    Ack,
}

impl Default for RevisionState {
    /// A newly created revision starts unacknowledged.
    fn default() -> (r: Self)
        ensures
            r == RevisionState::Sync,
    {
        RevisionState::Sync
    }
}

/// Mathematical value of a [`SyncRecord`].
pub struct SyncRecordView {
    pub revision: RevisionView,
    pub state: RevisionState,
    pub write_to_disk: bool,
}

/// The unit exchanged between the in-memory layer and the disk cache: a
/// revision together with its lifecycle state.
pub struct SyncRecord {
    pub revision: Revision,
    pub state: RevisionState,
    pub write_to_disk: bool,
}

impl View for SyncRecord {
    type V = SyncRecordView;

    open spec fn view(&self) -> SyncRecordView {
        SyncRecordView { revision: self.revision@, state: self.state, write_to_disk: self.write_to_disk }
    }
}

impl Clone for SyncRecord {
    fn clone(&self) -> (r: Self)
        ensures
            r@ == self@,
    {
        SyncRecord {
            revision: self.revision.clone(),
            state: self.state,
            write_to_disk: self.write_to_disk,
        }
    }
}

/// Mathematical value of a [`RevisionChangeset`].
pub struct RevisionChangesetView {
    pub object_id: Seq<u8>,
    pub rev_id: int,
    pub state: RevisionState,
}

/// A requested lifecycle-state transition for one stored revision.
pub struct RevisionChangeset {
    pub object_id: Vec<u8>,
    pub rev_id: i64,
    pub state: RevisionState,
}

impl View for RevisionChangeset {
    type V = RevisionChangesetView;

    open spec fn view(&self) -> RevisionChangesetView {
        RevisionChangesetView {
            object_id: self.object_id@,
            rev_id: self.rev_id as int,
            state: self.state,
        }
    }
}

/// An inclusive range of revision ids, used for incremental catch-up reads.
#[derive(Clone, Copy, Debug, PartialEq, Eq, Structural)]
pub struct RevisionRange {
    pub start: i64,
    pub end: i64,
}

/// Clones a byte buffer; the copy holds exactly the same bytes.
pub fn clone_bytes(v: &Vec<u8>) -> (r: Vec<u8>)
    ensures
        r@ == v@,
{
    let r = v.clone();
    proof {
        assert forall|i: int| 0 <= i < v@.len() implies r@[i] == v@[i] by {
            assert(cloned::<u8>(v@[i], r@[i]));
        }
        assert(r@ =~= v@);
    }
    r
}

/// Compares two byte buffers for equality of their contents.
pub fn bytes_eq(a: &Vec<u8>, b: &Vec<u8>) -> (r: bool)
    ensures
        r == (a@ == b@),
{
    if a.len() != b.len() {
        proof {
            assert(a@.len() != b@.len());
        }
        return false;
    }
    let mut i: usize = 0;
    while i < a.len()
        invariant
            i <= a.len(),
            a@.len() == b@.len(),
            forall|j: int| 0 <= j < i ==> a@[j] == b@[j],
        decreases a.len() - i,
    {
        if a[i] != b[i] {
            return false;
        }
        i += 1;
    }
    proof {
        assert(a@ =~= b@);
    }
    true
}

} // verus!
