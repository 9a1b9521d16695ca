use vstd::prelude::*;

use crate::checksum::{md5_hex, md5_of};
use crate::errors::SyncError;
use crate::seq_util::{lemma_filter_subsequence, lemma_filter_take_step};
use crate::revision::{
    bytes_eq, clone_bytes, Revision, RevisionChangeset, RevisionChangesetView, RevisionRange,
    RevisionState, RevisionView, SyncRecord, SyncRecordView,
};

verus! {

/// Storage-side lifecycle state, the value persisted in a revision row.
/// It mirrors [`RevisionState`]; the integer mapping used by the durable
/// layer is [`state_to_i32`] / [`state_from_i32`], and the raw integer never
/// crosses past this storage boundary.
#[derive(Clone, Copy, Debug, PartialEq, Eq, Structural)]
pub enum DatabaseRevisionState {
    Sync,
    Ack,
}

impl Default for DatabaseRevisionState {
    /// A freshly stored revision is unacknowledged.
    fn default() -> (r: Self)
        ensures
            r == DatabaseRevisionState::Sync,
    {
        DatabaseRevisionState::Sync
    }
}

/// The integer persisted for a storage state: 0 for `Sync`, 1 for `Ack`.
pub fn state_to_i32(state: DatabaseRevisionState) -> (r: i32)
    ensures
        r == state_to_i32_spec(state),
{
    match state {
        DatabaseRevisionState::Sync => 0,
        DatabaseRevisionState::Ack => 1,
    }
}

pub open spec fn state_to_i32_spec(state: DatabaseRevisionState) -> i32 {
    match state {
        DatabaseRevisionState::Sync => 0,
        DatabaseRevisionState::Ack => 1,
    }
}

/// The storage state encoded by a persisted integer; `None` for an integer
/// that encodes no state.
pub fn state_from_i32(value: i32) -> (r: Option<DatabaseRevisionState>)
    ensures
        r == state_from_i32_spec(value),
{
    if value == 0 {
        Some(DatabaseRevisionState::Sync)
    } else if value == 1 {
        Some(DatabaseRevisionState::Ack)
    } else {
        None
    }
}

pub open spec fn state_from_i32_spec(value: i32) -> Option<DatabaseRevisionState> {
    if value == 0 {
        Some(DatabaseRevisionState::Sync)
    } else if value == 1 {
        Some(DatabaseRevisionState::Ack)
    } else {
        None
    }
}

/// The integer mapping is bidirectional: decoding an encoded state gives the
/// state back, and every decodable integer re-encodes to itself.
pub proof fn lemma_state_int_mapping_bijective()
    ensures
        forall|s: DatabaseRevisionState|
            state_from_i32_spec(#[trigger] state_to_i32_spec(s)) == Some(s),
        forall|v: i32|
            (#[trigger] state_from_i32_spec(v)) is Some ==> state_to_i32_spec(
                state_from_i32_spec(v)->Some_0,
            ) == v,
{
}

/// The storage state that stands for a business-level [`RevisionState`].
pub open spec fn db_state_of_spec(state: RevisionState) -> DatabaseRevisionState {
    match state {
        RevisionState::Sync => DatabaseRevisionState::Sync,
        RevisionState::Ack => DatabaseRevisionState::Ack,
    }
}

pub fn db_state_of(state: RevisionState) -> (r: DatabaseRevisionState)
    ensures
        r == db_state_of_spec(state),
{
    match state {
        RevisionState::Sync => DatabaseRevisionState::Sync,
        RevisionState::Ack => DatabaseRevisionState::Ack,
    }
}

/// The business-level state that a storage state stands for.
pub open spec fn rev_state_of_spec(state: DatabaseRevisionState) -> RevisionState {
    match state {
        DatabaseRevisionState::Sync => RevisionState::Sync,
        DatabaseRevisionState::Ack => RevisionState::Ack,
    }
}

pub fn rev_state_of(state: DatabaseRevisionState) -> (r: RevisionState)
    ensures
        r == rev_state_of_spec(state),
{
    match state {
        DatabaseRevisionState::Sync => RevisionState::Sync,
        DatabaseRevisionState::Ack => RevisionState::Ack,
    }
}

/// Mathematical value of a [`DatabaseRevisionTable`] row.
pub struct RowView {
    pub object_id: Seq<u8>,
    pub base_rev_id: int,
    pub rev_id: int,
    pub data: Seq<u8>,
    pub state: DatabaseRevisionState,
}

/// One persisted revision row: the logical schema of the revision table,
/// keyed by `(object_id, rev_id)`.
pub struct DatabaseRevisionTable {
    pub object_id: Vec<u8>,
    pub base_rev_id: i64,
    pub rev_id: i64,
    pub data: Vec<u8>,
    pub state: DatabaseRevisionState,
}

impl View for DatabaseRevisionTable {
    type V = RowView;

    open spec fn view(&self) -> RowView {
        RowView {
            object_id: self.object_id@,
            base_rev_id: self.base_rev_id as int,
            rev_id: self.rev_id as int,
            data: self.data@,
            state: self.state,
        }
    }
}

/// Rows are well formed when, per object, revision ids strictly increase
/// with position: the log of every object is sorted and free of duplicates.
pub open spec fn wf_rows(s: Seq<RowView>) -> bool {
    forall|i: int, j: int|
        #![trigger s[i], s[j]]
        0 <= i < j < s.len() && s[i].object_id == s[j].object_id ==> s[i].rev_id < s[j].rev_id
}

/// Whether a row for key `(oid, rid)` is stored.
pub open spec fn has_key(s: Seq<RowView>, oid: Seq<u8>, rid: int) -> bool {
    exists|i: int| 0 <= i < s.len() && (#[trigger] s[i]).object_id == oid && s[i].rev_id == rid
}

/// Whether a scan for the insertion point of `(oid, rid)` stops at `row`.
pub open spec fn scan_stops(row: RowView, oid: Seq<u8>, rid: int) -> bool {
    row.object_id == oid && row.rev_id >= rid
}

/// The position at which a row with key `(oid, rid)` belongs: just before
/// the first row of the same object with an equal or higher revision id.
pub open spec fn find_pos(s: Seq<RowView>, oid: Seq<u8>, rid: int) -> int
    decreases s.len(),
{
    if s.len() == 0 {
        0
    } else if scan_stops(s[0], oid, rid) {
        0
    } else {
        1 + find_pos(s.drop_first(), oid, rid)
    }
}

/// `find_pos` is exactly the first stopping position of a forward scan.
pub proof fn lemma_find_pos_char(s: Seq<RowView>, oid: Seq<u8>, rid: int, p: int)
    requires
        0 <= p <= s.len(),
        forall|j: int| 0 <= j < p ==> !scan_stops(#[trigger] s[j], oid, rid),
        p == s.len() || scan_stops(s[p], oid, rid),
    ensures
        find_pos(s, oid, rid) == p,
    decreases s.len(),
{
    if s.len() == 0 {
    } else if scan_stops(s[0], oid, rid) {
        assert(p == 0);
    } else {
        assert(p >= 1);
        let t = s.drop_first();
        assert forall|j: int| 0 <= j < p - 1 implies !scan_stops(#[trigger] t[j], oid, rid) by {
            assert(t[j] == s[j + 1]);
        }
        if p < s.len() {
            assert(t[p - 1] == s[p]);
        }
        lemma_find_pos_char(t, oid, rid, p - 1);
    }
}

/// Inserting the row for a record: a row whose key is already present is
/// silently skipped; otherwise the row enters at its sorted position.
pub open spec fn insert_one_spec(s: Seq<RowView>, row: RowView) -> Seq<RowView> {
    if has_key(s, row.object_id, row.rev_id) {
        s
    } else {
        s.insert(find_pos(s, row.object_id, row.rev_id), row)
    }
}

/// The row that a [`SyncRecord`] is persisted as.
pub open spec fn row_of_record(r: SyncRecordView) -> RowView {
    RowView {
        object_id: r.revision.object_id,
        base_rev_id: r.revision.base_rev_id,
        rev_id: r.revision.rev_id,
        data: r.revision.bytes,
        state: db_state_of_spec(r.state),
    }
}

/// The stored rows after a batch insert, applied record by record.
pub open spec fn create_spec(s: Seq<RowView>, recs: Seq<SyncRecordView>) -> Seq<RowView>
    decreases recs.len(),
{
    if recs.len() == 0 {
        s
    } else {
        insert_one_spec(create_spec(s, recs.drop_last()), row_of_record(recs.last()))
    }
}

/// `find_pos` lands inside the sequence.
pub proof fn lemma_find_pos_bounds(s: Seq<RowView>, oid: Seq<u8>, rid: int)
    ensures
        0 <= find_pos(s, oid, rid) <= s.len(),
    decreases s.len(),
{
    if s.len() != 0 && !scan_stops(s[0], oid, rid) {
        lemma_find_pos_bounds(s.drop_first(), oid, rid);
    }
}

/// Rows before the insertion position do not stop the scan; the row at the
/// position, if any, does.
pub proof fn lemma_find_pos_props(s: Seq<RowView>, oid: Seq<u8>, rid: int)
    ensures
        forall|j: int| 0 <= j < find_pos(s, oid, rid) ==> !scan_stops(#[trigger] s[j], oid, rid),
        find_pos(s, oid, rid) < s.len() ==> scan_stops(s[find_pos(s, oid, rid)], oid, rid),
        0 <= find_pos(s, oid, rid) <= s.len(),
    decreases s.len(),
{
    lemma_find_pos_bounds(s, oid, rid);
    if s.len() != 0 && !scan_stops(s[0], oid, rid) {
        let t = s.drop_first();
        lemma_find_pos_props(t, oid, rid);
        assert forall|j: int| 0 <= j < find_pos(s, oid, rid) implies !scan_stops(
            #[trigger] s[j],
            oid,
            rid,
        ) by {
            if j > 0 {
                assert(s[j] == t[j - 1]);
            }
        }
        if find_pos(s, oid, rid) < s.len() {
            assert(s[find_pos(s, oid, rid)] == t[find_pos(t, oid, rid)]);
        }
    }
}

/// Under well-formedness, a stored key is found exactly at the insertion
/// position, with an equal revision id.
pub proof fn lemma_find_pos_key(s: Seq<RowView>, oid: Seq<u8>, rid: int)
    requires
        wf_rows(s),
    ensures
        has_key(s, oid, rid) <==> {
            let p = find_pos(s, oid, rid);
            p < s.len() && s[p].object_id == oid && s[p].rev_id == rid
        },
{
    let p = find_pos(s, oid, rid);
    lemma_find_pos_props(s, oid, rid);
    if has_key(s, oid, rid) {
        let i = choose|i: int|
            0 <= i < s.len() && (#[trigger] s[i]).object_id == oid && s[i].rev_id == rid;
        assert(scan_stops(s[i], oid, rid));
        assert(p <= i);
        if p < i {
            assert(s[p].rev_id < s[i].rev_id);
        }
    }
}

/// Inserting one record keeps the rows well formed.
pub proof fn lemma_insert_one_wf(s: Seq<RowView>, row: RowView)
    requires
        wf_rows(s),
    ensures
        wf_rows(insert_one_spec(s, row)),
{
    if !has_key(s, row.object_id, row.rev_id) {
        let p = find_pos(s, row.object_id, row.rev_id);
        lemma_find_pos_props(s, row.object_id, row.rev_id);
        lemma_find_pos_key(s, row.object_id, row.rev_id);
        let t = s.insert(p, row);
        assert forall|i: int, j: int|
            #![trigger t[i], t[j]]
            0 <= i < j < t.len() && t[i].object_id == t[j].object_id implies t[i].rev_id
            < t[j].rev_id by {
            if i < p && j < p {
                assert(t[i] == s[i] && t[j] == s[j]);
            } else if i < p && j == p {
                assert(t[i] == s[i] && t[j] == row);
                assert(!scan_stops(s[i], row.object_id, row.rev_id));
            } else if i < p && j > p {
                assert(t[i] == s[i] && t[j] == s[j - 1]);
            } else if i == p && j > p {
                assert(t[i] == row && t[j] == s[j - 1]);
                assert(scan_stops(s[p], row.object_id, row.rev_id));
                assert(s[p].rev_id != row.rev_id);
                if p < j - 1 {
                    assert(s[p].rev_id < s[j - 1].rev_id);
                }
            } else {
                assert(t[i] == s[i - 1] && t[j] == s[j - 1]);
            }
        }
    }
}

/// Whether a revision id occurs in a list of requested ids.
pub open spec fn id_in(ids: Seq<i64>, rid: int) -> bool {
    exists|k: int| 0 <= k < ids.len() && ids[k] == rid
}

/// The contents of an optional id list.
pub open spec fn ids_view(ids: Option<Vec<i64>>) -> Option<Seq<i64>> {
    match ids {
        None => None,
        Some(l) => Some(l@),
    }
}

/// Whether a row is selected by a read for `oid`, optionally restricted to
/// the listed revision ids.
pub open spec fn read_pred(oid: Seq<u8>, ids: Option<Seq<i64>>, r: RowView) -> bool {
    r.object_id == oid && match ids {
        None => true,
        Some(l) => id_in(l, r.rev_id),
    }
}

pub open spec fn read_pred_fn(oid: Seq<u8>, ids: Option<Seq<i64>>) -> spec_fn(RowView) -> bool {
    |r: RowView| read_pred(oid, ids, r)
}

/// Whether a row is selected by a range read for `oid`.
pub open spec fn range_pred(oid: Seq<u8>, range: RevisionRange, r: RowView) -> bool {
    r.object_id == oid && range.start <= r.rev_id <= range.end
}

pub open spec fn range_pred_fn(oid: Seq<u8>, range: RevisionRange) -> spec_fn(RowView) -> bool {
    |r: RowView| range_pred(oid, range, r)
}

/// Whether a row is removed by a delete for `oid`, optionally restricted to
/// the listed revision ids.
pub open spec fn delete_pred(oid: Seq<u8>, ids: Option<Seq<i64>>, r: RowView) -> bool {
    r.object_id == oid && match ids {
        None => true,
        Some(l) => id_in(l, r.rev_id),
    }
}

pub open spec fn keep_pred_fn(oid: Seq<u8>, ids: Option<Seq<i64>>) -> spec_fn(RowView) -> bool {
    |r: RowView| !delete_pred(oid, ids, r)
}

/// The stored rows after a delete.
pub open spec fn delete_spec(s: Seq<RowView>, oid: Seq<u8>, ids: Option<Seq<i64>>) -> Seq<
    RowView,
> {
    s.filter(keep_pred_fn(oid, ids))
}

/// The record handed back for a stored row: the revision with its checksum
/// recomputed from the stored bytes, not marked for a further disk write.
pub open spec fn record_of_row(row: RowView) -> SyncRecordView {
    SyncRecordView {
        revision: RevisionView {
            object_id: row.object_id,
            base_rev_id: row.base_rev_id,
            rev_id: row.rev_id,
            bytes: row.data,
            checksum: md5_of(row.data),
        },
        state: rev_state_of_spec(row.state),
        write_to_disk: false,
    }
}

/// The records for a sequence of rows, in order.
pub open spec fn records_of(rows: Seq<RowView>) -> Seq<SyncRecordView> {
    rows.map_values(|r: RowView| record_of_row(r))
}

/// The result of a read: the selected rows, in stored order, as records.
pub open spec fn read_spec(s: Seq<RowView>, oid: Seq<u8>, ids: Option<Seq<i64>>) -> Seq<
    SyncRecordView,
> {
    records_of(s.filter(read_pred_fn(oid, ids)))
}

/// The result of a range read.
pub open spec fn read_range_spec(s: Seq<RowView>, oid: Seq<u8>, range: RevisionRange) -> Seq<
    SyncRecordView,
> {
    records_of(s.filter(range_pred_fn(oid, range)))
}

/// Mapping rows to records commutes with appending a row.
pub proof fn lemma_records_push(rows: Seq<RowView>, row: RowView)
    ensures
        records_of(rows.push(row)) == records_of(rows).push(record_of_row(row)),
{
    assert(records_of(rows.push(row)) =~= records_of(rows).push(record_of_row(row)));
}

/// Any filter of well-formed rows is well formed.
pub proof fn lemma_filter_wf(s: Seq<RowView>, pred: spec_fn(RowView) -> bool)
    requires
        wf_rows(s),
    ensures
        wf_rows(s.filter(pred)),
{
    lemma_filter_subsequence(s, pred);
    let fs = s.filter(pred);
    assert forall|k: int, l: int|
        #![trigger fs[k], fs[l]]
        0 <= k < l < fs.len() && fs[k].object_id == fs[l].object_id implies fs[k].rev_id
        < fs[l].rev_id by {
        let (i, j) = choose|i: int, j: int|
            0 <= i < j < s.len() && #[trigger] fs[k] == s[i] && #[trigger] fs[l] == s[j];
    }
}

/// The rows a read selects come out in strictly increasing revision-id
/// order.
pub proof fn lemma_read_sorted(s: Seq<RowView>, pred: spec_fn(RowView) -> bool, oid: Seq<u8>)
    requires
        wf_rows(s),
        forall|r: RowView| #[trigger] pred(r) ==> r.object_id == oid,
    ensures
        forall|k: int, l: int|
            #![trigger s.filter(pred)[k], s.filter(pred)[l]]
            0 <= k < l < s.filter(pred).len() ==> s.filter(pred)[k].rev_id < s.filter(
                pred,
            )[l].rev_id,
{
    broadcast use vstd::seq_lib::group_filter_ensures;

    lemma_filter_wf(s, pred);
    let fs = s.filter(pred);
    assert forall|k: int, l: int|
        #![trigger fs[k], fs[l]]
        0 <= k < l < fs.len() implies fs[k].rev_id < fs[l].rev_id by {
        assert(pred(fs[k]) && pred(fs[l]));
    }
}

/// The durable, ordered revision log: one row per revision, unique per
/// `(object_id, rev_id)`, each object's rows sorted by ascending revision
/// id. This is the verified model of the disk cache; a durable adapter
/// persists and restores it at the storage boundary.
pub struct DatabaseRevisionPersistence {
    rows: Vec<DatabaseRevisionTable>,
}

impl View for DatabaseRevisionPersistence {
    type V = Seq<RowView>;

    closed spec fn view(&self) -> Seq<RowView> {
        self.rows@.map_values(|r: DatabaseRevisionTable| r@)
    }
}

impl DatabaseRevisionPersistence {
    /// The log invariant every operation preserves.
    pub open spec fn inv(&self) -> bool {
        wf_rows(self@)
    }

    /// An empty revision log.
    pub fn new() -> (r: Self)
        ensures
            r@ == Seq::<RowView>::empty(),
            r.inv(),
    {
        let r = DatabaseRevisionPersistence { rows: Vec::new() };
        proof {
            assert(r@ =~= Seq::<RowView>::empty());
        }
        r
    }

    /// Inserts one record at its sorted position, or skips it silently when
    /// its `(object_id, rev_id)` key is already stored.
    fn insert_record(&mut self, record: &SyncRecord)
        requires
            old(self).inv(),
        ensures
            final(self).inv(),
            final(self)@ == insert_one_spec(old(self)@, row_of_record(record@)),
    {
        let oid = &record.revision.object_id;
        let rid = record.revision.rev_id;
        let ghost s = self@;
        let mut i: usize = 0;
        loop
            invariant
                self == old(self),
                s == self@,
                oid@ == record@.revision.object_id,
                rid == record.revision.rev_id,
                i <= self.rows.len(),
                forall|j: int| 0 <= j < i ==> !scan_stops(#[trigger] s[j], oid@, rid as int),
            ensures
                self == old(self),
                i <= self.rows.len(),
                forall|j: int| 0 <= j < i ==> !scan_stops(#[trigger] s[j], oid@, rid as int),
                i == self.rows.len() || scan_stops(s[i as int], oid@, rid as int),
            decreases self.rows.len() - i,
        {
            if i == self.rows.len() {
                break ;
            }
            let same = bytes_eq(&self.rows[i].object_id, oid);
            proof {
                assert(s[i as int] == self.rows@[i as int]@);
            }
            if same && self.rows[i].rev_id >= rid {
                break ;
            }
            i += 1;
        }
        proof {
            lemma_find_pos_char(s, oid@, rid as int, i as int);
            lemma_find_pos_key(s, oid@, rid as int);
            lemma_insert_one_wf(s, row_of_record(record@));
        }
        if i < self.rows.len() && self.rows[i].rev_id == rid {
            // insert-or-ignore: the key is already stored.
            return ;
        }
        let row = DatabaseRevisionTable {
            object_id: clone_bytes(&record.revision.object_id),
            base_rev_id: record.revision.base_rev_id,
            rev_id: record.revision.rev_id,
            data: clone_bytes(&record.revision.bytes),
            state: db_state_of(record.state),
        };
        self.rows.insert(i, row);
        proof {
            assert(self@ =~= s.insert(i as int, row_of_record(record@)));
        }
    }

    /// Idempotent batch insert: each record whose `(object_id, rev_id)` is
    /// already stored is skipped, never overwritten; the others enter at
    /// their sorted position.
    pub fn create_revision_records(&mut self, revision_records: Vec<SyncRecord>) -> (r: Result<
        (),
        SyncError,
    >)
        requires
            old(self).inv(),
        ensures
            r is Ok,
            final(self).inv(),
            final(self)@ == create_spec(
                old(self)@,
                revision_records@.map_values(|rec: SyncRecord| rec@),
            ),
    {
        let ghost recs = revision_records@.map_values(|rec: SyncRecord| rec@);
        let mut k: usize = 0;
        while k < revision_records.len()
            invariant
                k <= revision_records.len(),
                recs == revision_records@.map_values(|rec: SyncRecord| rec@),
                self.inv(),
                self@ == create_spec(old(self)@, recs.take(k as int)),
            decreases revision_records.len() - k,
        {
            proof {
                assert(recs.take(k + 1).drop_last() =~= recs.take(k as int));
                assert(recs.take(k + 1).last() == recs[k as int]);
            }
            self.insert_record(&revision_records[k]);
            k += 1;
        }
        proof {
            assert(recs.take(revision_records@.len() as int) =~= recs);
        }
        Ok(())
    }

    /// Reads the revisions stored for `object_id`, restricted to `rev_ids`
    /// when given, in strictly ascending `rev_id` order.
    pub fn read_revision_records(&self, object_id: &Vec<u8>, rev_ids: Option<Vec<i64>>) -> (r:
        Result<Vec<SyncRecord>, SyncError>)
        requires
            self.inv(),
        ensures
            r is Ok,
            (r->Ok_0)@.map_values(|x: SyncRecord| x@) == read_spec(
                self@,
                object_id@,
                ids_view(rev_ids),
            ),
            forall|a: int, b: int|
                #![trigger (r->Ok_0)@[a], (r->Ok_0)@[b]]
                0 <= a < b < (r->Ok_0)@.len() ==> (r->Ok_0)@[a].revision.rev_id
                    < (r->Ok_0)@[b].revision.rev_id,
    {
        let ghost s = self@;
        let ghost idsv = ids_view(rev_ids);
        let ghost pred = read_pred_fn(object_id@, idsv);
        let mut out: Vec<SyncRecord> = Vec::new();
        let mut k: usize = 0;
        proof {
            assert(s.take(0).filter(pred) =~= Seq::<RowView>::empty());
            assert(out@.map_values(|x: SyncRecord| x@) =~= records_of(s.take(0).filter(pred)));
        }
        while k < self.rows.len()
            invariant
                k <= self.rows.len(),
                s == self@,
                idsv == ids_view(rev_ids),
                pred == read_pred_fn(object_id@, idsv),
                out@.map_values(|x: SyncRecord| x@) == records_of(s.take(k as int).filter(pred)),
            decreases self.rows.len() - k,
        {
            let row = &self.rows[k];
            proof {
                assert(s[k as int] == self.rows@[k as int]@);
            }
            let is_obj = bytes_eq(&row.object_id, object_id);
            let selected = is_obj && (match &rev_ids {
                None => true,
                Some(ids) => id_list_contains(ids, row.rev_id),
            });
            proof {
                assert(selected == pred(s[k as int]));
                lemma_filter_take_step(s, pred, k as int);
            }
            if selected {
                let ghost prev = out@.map_values(|x: SyncRecord| x@);
                let rec = mk_revision_record_from_table(row);
                out.push(rec);
                proof {
                    lemma_records_push(s.take(k as int).filter(pred), s[k as int]);
                    assert(out@.map_values(|x: SyncRecord| x@) =~= prev.push(rec@));
                }
            }
            k += 1;
        }
        proof {
            assert(s.take(s.len() as int) =~= s);
            lemma_read_sorted(s, pred, object_id@);
            broadcast use vstd::seq_lib::group_filter_ensures;

            let fs = s.filter(pred);
            assert forall|a: int, b: int|
                #![trigger out@[a], out@[b]]
                0 <= a < b < out@.len() implies out@[a].revision.rev_id
                < out@[b].revision.rev_id by {
                assert(out@.map_values(|x: SyncRecord| x@)[a] == out@[a]@);
                assert(out@.map_values(|x: SyncRecord| x@)[b] == out@[b]@);
                assert(records_of(fs)[a] == record_of_row(fs[a]));
                assert(records_of(fs)[b] == record_of_row(fs[b]));
            }
        }
        Ok(out)
    }

    /// Reads the contiguous inclusive revision range stored for `object_id`,
    /// in strictly ascending `rev_id` order.
    pub fn read_revision_records_with_range(&self, object_id: &Vec<u8>, range: &RevisionRange)
        -> (r: Result<Vec<SyncRecord>, SyncError>)
        requires
            self.inv(),
        ensures
            r is Ok,
            (r->Ok_0)@.map_values(|x: SyncRecord| x@) == read_range_spec(self@, object_id@, *range),
            forall|a: int, b: int|
                #![trigger (r->Ok_0)@[a], (r->Ok_0)@[b]]
                0 <= a < b < (r->Ok_0)@.len() ==> (r->Ok_0)@[a].revision.rev_id
                    < (r->Ok_0)@[b].revision.rev_id,
    {
        let ghost s = self@;
        let ghost pred = range_pred_fn(object_id@, *range);
        let mut out: Vec<SyncRecord> = Vec::new();
        let mut k: usize = 0;
        proof {
            assert(s.take(0).filter(pred) =~= Seq::<RowView>::empty());
            assert(out@.map_values(|x: SyncRecord| x@) =~= records_of(s.take(0).filter(pred)));
        }
        while k < self.rows.len()
            invariant
                k <= self.rows.len(),
                s == self@,
                pred == range_pred_fn(object_id@, *range),
                out@.map_values(|x: SyncRecord| x@) == records_of(s.take(k as int).filter(pred)),
            decreases self.rows.len() - k,
        {
            let row = &self.rows[k];
            proof {
                assert(s[k as int] == self.rows@[k as int]@);
            }
            let is_obj = bytes_eq(&row.object_id, object_id);
            let selected = is_obj && range.start <= row.rev_id && row.rev_id <= range.end;
            proof {
                assert(selected == pred(s[k as int]));
                lemma_filter_take_step(s, pred, k as int);
            }
            if selected {
                let ghost prev = out@.map_values(|x: SyncRecord| x@);
                let rec = mk_revision_record_from_table(row);
                out.push(rec);
                proof {
                    lemma_records_push(s.take(k as int).filter(pred), s[k as int]);
                    assert(out@.map_values(|x: SyncRecord| x@) =~= prev.push(rec@));
                }
            }
            k += 1;
        }
        proof {
            assert(s.take(s.len() as int) =~= s);
            lemma_read_sorted(s, pred, object_id@);
            broadcast use vstd::seq_lib::group_filter_ensures;

            let fs = s.filter(pred);
            assert forall|a: int, b: int|
                #![trigger out@[a], out@[b]]
                0 <= a < b < out@.len() implies out@[a].revision.rev_id
                < out@[b].revision.rev_id by {
                assert(out@.map_values(|x: SyncRecord| x@)[a] == out@[a]@);
                assert(out@.map_values(|x: SyncRecord| x@)[b] == out@[b]@);
                assert(records_of(fs)[a] == record_of_row(fs[a]));
                assert(records_of(fs)[b] == record_of_row(fs[b]));
            }
        }
        Ok(out)
    }

    /// Applies one state changeset to every row it addresses.
    fn apply_changeset(&mut self, changeset: &RevisionChangeset)
        requires
            old(self).inv(),
        ensures
            final(self).inv(),
            final(self)@ == update_one_spec(old(self)@, changeset@),
    {
        let ghost s = old(self)@;
        let mut i: usize = 0;
        while i < self.rows.len()
            invariant
                i <= self.rows.len(),
                self.rows.len() == s.len(),
                self@.len() == s.len(),
                forall|j: int| 0 <= j < i ==> self@[j] == upd_row(s[j], changeset@),
                forall|j: int| i <= j < s.len() ==> self@[j] == s[j],
            decreases self.rows.len() - i,
        {
            proof {
                assert(self@[i as int] == self.rows@[i as int]@);
            }
            let matches_key = bytes_eq(&self.rows[i].object_id, &changeset.object_id)
                && self.rows[i].rev_id == changeset.rev_id;
            let is_sync = self.rows[i].state == DatabaseRevisionState::Sync;
            proof {
                assert(matches_key == (s[i as int].object_id == changeset@.object_id
                    && s[i as int].rev_id == changeset@.rev_id));
                assert(is_sync == (s[i as int].state == DatabaseRevisionState::Sync));
            }
            if matches_key && is_sync {
                let new_row = DatabaseRevisionTable {
                    object_id: clone_bytes(&self.rows[i].object_id),
                    base_rev_id: self.rows[i].base_rev_id,
                    rev_id: self.rows[i].rev_id,
                    data: clone_bytes(&self.rows[i].data),
                    state: db_state_of(changeset.state),
                };
                proof {
                    assert(new_row@ == upd_row(s[i as int], changeset@));
                }
                let ghost prev = self@;
                self.rows[i] = new_row;
                proof {
                    assert forall|j: int| 0 <= j < s.len() implies self@[j] == (if j == i as int {
                        upd_row(s[j], changeset@)
                    } else {
                        prev[j]
                    }) by {
                        assert(self@[j] == self.rows@[j]@);
                    }
                }
            } else {
                proof {
                    assert(upd_row(s[i as int], changeset@) == s[i as int]);
                }
            }
            i += 1;
        }
        proof {
            assert(self@ =~= update_one_spec(s, changeset@));
            lemma_update_one_wf(s, changeset@);
        }
    }

    /// Applies a batch of lifecycle-state transitions as one atomic step:
    /// the store moves from its old value to the batch's full effect, with
    /// no intermediate state observable. A transition is applied only
    /// forward: a row already `Ack` is never demoted.
    pub fn update_revision_record(&mut self, changesets: Vec<RevisionChangeset>) -> (r: Result<
        (),
        SyncError,
    >)
        requires
            old(self).inv(),
        ensures
            r is Ok,
            final(self).inv(),
            final(self)@ == update_all_spec(
                old(self)@,
                changesets@.map_values(|c: RevisionChangeset| c@),
            ),
    {
        let ghost css = changesets@.map_values(|c: RevisionChangeset| c@);
        let mut k: usize = 0;
        while k < changesets.len()
            invariant
                k <= changesets.len(),
                css == changesets@.map_values(|c: RevisionChangeset| c@),
                self.inv(),
                self@ == update_all_spec(old(self)@, css.take(k as int)),
            decreases changesets.len() - k,
        {
            proof {
                assert(css.take(k + 1).drop_last() =~= css.take(k as int));
                assert(css.take(k + 1).last() == css[k as int]);
            }
            self.apply_changeset(&changesets[k]);
            k += 1;
        }
        proof {
            assert(css.take(changesets@.len() as int) =~= css);
        }
        Ok(())
    }

    /// Deletes the revisions stored for `object_id`: all of them when
    /// `rev_ids` is absent, otherwise exactly the listed ids.
    pub fn delete_revision_records(&mut self, object_id: &Vec<u8>, rev_ids: Option<Vec<i64>>)
        -> (r: Result<(), SyncError>)
        requires
            old(self).inv(),
        ensures
            r is Ok,
            final(self).inv(),
            final(self)@ == delete_spec(old(self)@, object_id@, ids_view(rev_ids)),
    {
        let ghost s = self@;
        let ghost idsv = ids_view(rev_ids);
        let ghost pred = keep_pred_fn(object_id@, idsv);
        let mut kept: Vec<DatabaseRevisionTable> = Vec::new();
        let mut k: usize = 0;
        proof {
            assert(s.take(0).filter(pred) =~= Seq::<RowView>::empty());
            assert(kept@.map_values(|r: DatabaseRevisionTable| r@) =~= s.take(0).filter(pred));
        }
        while k < self.rows.len()
            invariant
                k <= self.rows.len(),
                s == self@,
                idsv == ids_view(rev_ids),
                pred == keep_pred_fn(object_id@, idsv),
                kept@.map_values(|r: DatabaseRevisionTable| r@) == s.take(k as int).filter(pred),
            decreases self.rows.len() - k,
        {
            let row = &self.rows[k];
            proof {
                assert(s[k as int] == self.rows@[k as int]@);
            }
            let is_obj = bytes_eq(&row.object_id, object_id);
            let removed = is_obj && (match &rev_ids {
                None => true,
                Some(ids) => id_list_contains(ids, row.rev_id),
            });
            proof {
                assert(removed == delete_pred(object_id@, idsv, s[k as int]));
                lemma_filter_take_step(s, pred, k as int);
            }
            if !removed {
                let ghost prev = kept@.map_values(|r: DatabaseRevisionTable| r@);
                kept.push(row.clone());
                proof {
                    assert(kept@.map_values(|r: DatabaseRevisionTable| r@) =~= prev.push(
                        s[k as int],
                    ));
                }
            }
            k += 1;
        }
        self.rows = kept;
        proof {
            assert(s.take(s.len() as int) =~= s);
            lemma_filter_wf(s, pred);
        }
        Ok(())
    }

    /// Atomic delete-then-insert, used when a batch of unacknowledged
    /// revisions is superseded by a compacted revision: the store moves in
    /// one step from its old value to the delete's effect followed by the
    /// insert's, so no state with only the delete applied is ever
    /// observable.
    pub fn delete_and_insert_records(
        &mut self,
        object_id: &Vec<u8>,
        deleted_rev_ids: Option<Vec<i64>>,
        inserted_records: Vec<SyncRecord>,
    ) -> (r: Result<(), SyncError>)
        requires
            old(self).inv(),
        ensures
            r is Ok,
            final(self).inv(),
            final(self)@ == create_spec(
                delete_spec(old(self)@, object_id@, ids_view(deleted_rev_ids)),
                inserted_records@.map_values(|rec: SyncRecord| rec@),
            ),
    {
        let _ = self.delete_revision_records(object_id, deleted_rev_ids);
        let _ = self.create_revision_records(inserted_records);
        Ok(())
    }
}

/// The stored row for a changeset's key takes the requested state when it
/// was still `Sync`; every other row, and a row already `Ack`, is left as
/// it stands.
pub open spec fn upd_row(row: RowView, cs: RevisionChangesetView) -> RowView {
    if row.object_id == cs.object_id && row.rev_id == cs.rev_id && row.state
        == DatabaseRevisionState::Sync {
        RowView {
            object_id: row.object_id,
            base_rev_id: row.base_rev_id,
            rev_id: row.rev_id,
            data: row.data,
            state: db_state_of_spec(cs.state),
        }
    } else {
        row
    }
}

/// The stored rows after one state changeset.
pub open spec fn update_one_spec(s: Seq<RowView>, cs: RevisionChangesetView) -> Seq<RowView> {
    s.map_values(|r: RowView| upd_row(r, cs))
}

/// The stored rows after a batch of state changesets, applied in order.
pub open spec fn update_all_spec(s: Seq<RowView>, css: Seq<RevisionChangesetView>) -> Seq<RowView>
    decreases css.len(),
{
    if css.len() == 0 {
        s
    } else {
        update_one_spec(update_all_spec(s, css.drop_last()), css.last())
    }
}

/// A state changeset keeps the rows well formed: keys are untouched.
pub proof fn lemma_update_one_wf(s: Seq<RowView>, cs: RevisionChangesetView)
    requires
        wf_rows(s),
    ensures
        wf_rows(update_one_spec(s, cs)),
{
    let t = update_one_spec(s, cs);
    assert forall|i: int, j: int|
        #![trigger t[i], t[j]]
        0 <= i < j < t.len() && t[i].object_id == t[j].object_id implies t[i].rev_id
        < t[j].rev_id by {
        assert(t[i] == upd_row(s[i], cs));
        assert(t[j] == upd_row(s[j], cs));
    }
}

/// Builds the in-memory record for a stored row; the checksum is recomputed
/// from the stored bytes.
pub fn mk_revision_record_from_table(table: &DatabaseRevisionTable) -> (r: SyncRecord)
    ensures
        r@ == record_of_row(table@),
{
    let checksum = md5_hex(&table.data);
    let revision = Revision::new(
        &table.object_id,
        table.base_rev_id,
        table.rev_id,
        clone_bytes(&table.data),
        checksum,
    );
    SyncRecord { revision, state: rev_state_of(table.state), write_to_disk: false }
}

/// Whether a requested revision id occurs in the list.
pub fn id_list_contains(ids: &Vec<i64>, rid: i64) -> (r: bool)
    ensures
        r == id_in(ids@, rid as int),
{
    let mut k: usize = 0;
    while k < ids.len()
        invariant
            k <= ids.len(),
            forall|j: int| 0 <= j < k ==> ids@[j] != rid,
        decreases ids.len() - k,
    {
        if ids[k] == rid {
            return true;
        }
        k += 1;
    }
    false
}

/// Inserting one record stores exactly the old keys plus the record's key.
pub proof fn lemma_insert_one_keys(s: Seq<RowView>, row: RowView)
    ensures
        forall|oid: Seq<u8>, rid: int|
            #[trigger] has_key(insert_one_spec(s, row), oid, rid) <==> (has_key(s, oid, rid) || (
            oid == row.object_id && rid == row.rev_id)),
{
    let t = insert_one_spec(s, row);
    if has_key(s, row.object_id, row.rev_id) {
    } else {
        let p = find_pos(s, row.object_id, row.rev_id);
        lemma_find_pos_bounds(s, row.object_id, row.rev_id);
        assert forall|oid: Seq<u8>, rid: int| #[trigger] has_key(t, oid, rid) implies (has_key(
            s,
            oid,
            rid,
        ) || (oid == row.object_id && rid == row.rev_id)) by {
            let i = choose|i: int|
                0 <= i < t.len() && (#[trigger] t[i]).object_id == oid && t[i].rev_id == rid;
            if i < p {
                assert(t[i] == s[i]);
            } else if i == p {
                assert(t[i] == row);
            } else {
                assert(t[i] == s[i - 1]);
            }
        }
        assert forall|oid: Seq<u8>, rid: int|
            (has_key(s, oid, rid) || (oid == row.object_id && rid == row.rev_id)) implies #[trigger] has_key(
            t,
            oid,
            rid,
        ) by {
            if has_key(s, oid, rid) {
                let i = choose|i: int|
                    0 <= i < s.len() && (#[trigger] s[i]).object_id == oid && s[i].rev_id == rid;
                if i < p {
                    assert(t[i] == s[i]);
                } else {
                    assert(t[i + 1] == s[i]);
                }
            } else {
                assert(t[p] == row);
            }
        }
    }
}

/// After a batch insert, every record's key is stored.
pub proof fn lemma_create_has_keys(s: Seq<RowView>, recs: Seq<SyncRecordView>)
    ensures
        forall|idx: int|
            0 <= idx < recs.len() ==> has_key(
                create_spec(s, recs),
                (#[trigger] recs[idx]).revision.object_id,
                recs[idx].revision.rev_id,
            ),
    decreases recs.len(),
{
    if recs.len() != 0 {
        let m = create_spec(s, recs.drop_last());
        let row = row_of_record(recs.last());
        lemma_create_has_keys(s, recs.drop_last());
        lemma_insert_one_keys(m, row);
        assert forall|idx: int| 0 <= idx < recs.len() implies has_key(
            create_spec(s, recs),
            (#[trigger] recs[idx]).revision.object_id,
            recs[idx].revision.rev_id,
        ) by {
            if idx < recs.len() - 1 {
                assert(recs.drop_last()[idx] == recs[idx]);
                assert(has_key(m, recs[idx].revision.object_id, recs[idx].revision.rev_id));
            }
        }
    }
}

/// A batch insert whose keys are all already stored changes nothing.
pub proof fn lemma_create_absorbed(m: Seq<RowView>, recs: Seq<SyncRecordView>)
    requires
        forall|idx: int|
            0 <= idx < recs.len() ==> has_key(
                m,
                (#[trigger] recs[idx]).revision.object_id,
                recs[idx].revision.rev_id,
            ),
    ensures
        create_spec(m, recs) == m,
    decreases recs.len(),
{
    if recs.len() != 0 {
        assert forall|idx: int| 0 <= idx < recs.len() - 1 implies has_key(
            m,
            (#[trigger] recs.drop_last()[idx]).revision.object_id,
            recs.drop_last()[idx].revision.rev_id,
        ) by {
            assert(recs.drop_last()[idx] == recs[idx]);
        }
        lemma_create_absorbed(m, recs.drop_last());
        assert(has_key(m, recs.last().revision.object_id, recs.last().revision.rev_id));
    }
}

/// Inserting the same batch of records twice leaves the stored log exactly
/// as one insert does: the second pass finds every key present and skips
/// every record.
pub proof fn lemma_create_idempotent(s: Seq<RowView>, recs: Seq<SyncRecordView>)
    ensures
        create_spec(create_spec(s, recs), recs) == create_spec(s, recs),
{
    lemma_create_has_keys(s, recs);
    lemma_create_absorbed(create_spec(s, recs), recs);
}

/// State transitions move only forward: a batch of changesets never touches
/// a row's key, bytes or ancestry, and a row observed `Ack` is `Ack` in
/// every later state — `Sync` to `Ack` is the only transition.
pub proof fn lemma_state_monotone(s: Seq<RowView>, css: Seq<RevisionChangesetView>)
    ensures
        update_all_spec(s, css).len() == s.len(),
        forall|i: int|
            #![trigger update_all_spec(s, css)[i]]
            0 <= i < s.len() ==> {
                let t = update_all_spec(s, css)[i];
                &&& t.object_id == s[i].object_id
                &&& t.rev_id == s[i].rev_id
                &&& t.base_rev_id == s[i].base_rev_id
                &&& t.data == s[i].data
                &&& (s[i].state == DatabaseRevisionState::Ack ==> t.state
                    == DatabaseRevisionState::Ack)
            },
    decreases css.len(),
{
    if css.len() != 0 {
        let m = update_all_spec(s, css.drop_last());
        lemma_state_monotone(s, css.drop_last());
        assert forall|i: int|
            #![trigger update_all_spec(s, css)[i]]
            0 <= i < s.len() implies {
            let t = update_all_spec(s, css)[i];
            &&& t.object_id == s[i].object_id
            &&& t.rev_id == s[i].rev_id
            &&& t.base_rev_id == s[i].base_rev_id
            &&& t.data == s[i].data
            &&& (s[i].state == DatabaseRevisionState::Ack ==> t.state
                == DatabaseRevisionState::Ack)
        } by {
            assert(update_all_spec(s, css)[i] == upd_row(m[i], css.last()));
        }
    }
}

impl Clone for DatabaseRevisionTable {
    fn clone(&self) -> (r: Self)
        ensures
            r@ == self@,
    {
        DatabaseRevisionTable {
            object_id: clone_bytes(&self.object_id),
            base_rev_id: self.base_rev_id,
            rev_id: self.rev_id,
            data: clone_bytes(&self.data),
            state: self.state,
        }
    }
}

} // verus!
