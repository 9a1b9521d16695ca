use vstd::prelude::*;

use crate::errors::SyncError;
use crate::manager::{apply_change, committed_row, RevisionManager};
use crate::ops::{enc_op, enc_ops, OperationView};
use crate::pad::{
    CalendarLayoutSetting, FieldRevision, FilterRevision, GroupConfigurationRevision,
    LayoutRevision, RowRevision, RowRevisionView, SortRevision,
};
use crate::revision::bytes_eq;
use crate::seq_util::lemma_filter_take_step;
use crate::store::insert_one_spec;
use crate::view_pad::{
    apply_op_spec, field_match, filter_field_fn, filter_key_fn, group_field_fn, sort_field_fn,
    sort_key_fn, DatabaseViewRevisionPad,
};

verus! {

/// The `(field_id, field_type)` key a filter controller asks about.
pub struct FilterType {
    pub field_id: Vec<u8>,
    pub field_type: u8,
}

/// The `(field_id, field_type)` key a sort controller asks about.
pub struct SortType {
    pub field_id: Vec<u8>,
    pub field_type: u8,
}

/// The filter delegate's pad read: the filter stored for the key, `None`
/// when none is. Should the invariant ever be violated and several match,
/// the tie-break is deterministic: the most recently stored entry wins.
pub fn get_filter_rev(pad: &DatabaseViewRevisionPad, filter_type: &FilterType) -> (r: Option<
    FilterRevision,
>)
    ensures
        ({
            let m = pad@.filters.filter(
                filter_key_fn(filter_type.field_id@, filter_type.field_type),
            );
            match r {
                None => m.len() == 0,
                Some(f) => m.len() > 0 && f@ == m.last(),
            }
        }),
{
    let mut filters = pad.get_filters(&filter_type.field_id, filter_type.field_type);
    filters.pop()
}

/// The sort delegate's pad read: the sort stored for the key, `None` when
/// none is, with the same deterministic tie-break.
pub fn get_sort_rev(pad: &DatabaseViewRevisionPad, sort_type: &SortType) -> (r: Option<
    SortRevision,
>)
    ensures
        ({
            let m = pad@.sorts.filter(sort_key_fn(sort_type.field_id@, sort_type.field_type));
            match r {
                None => m.len() == 0,
                Some(f) => m.len() > 0 && f@ == m.last(),
            }
        }),
{
    let mut sorts = pad.get_sorts(&sort_type.field_id, sort_type.field_type);
    sorts.pop()
}

/// The group reader's pad read: `None` when no group is configured; under
/// the single-group model at most one is stored, and with several the most
/// recently stored one wins, deterministically.
pub fn get_configuration(pad: &DatabaseViewRevisionPad) -> (r: Option<GroupConfigurationRevision>)
    ensures
        match r {
            None => pad@.groups.len() == 0,
            Some(g) => pad@.groups.len() > 0 && g@ == pad@.groups.last(),
        },
{
    let mut groups = pad.get_all_groups();
    groups.pop()
}

/// Whether a row id is one the filter controller excluded.
pub open spec fn row_id_excluded(ids: Seq<Seq<u8>>, id: Seq<u8>) -> bool {
    exists|k: int| 0 <= k < ids.len() && ids[k] == id
}

/// Whether the filter controller lets a row through.
pub open spec fn visible_row_fn(ids: Seq<Seq<u8>>) -> spec_fn(RowRevisionView) -> bool {
    |x: RowRevisionView| !row_id_excluded(ids, x.id)
}

/// Whether the filter controller excludes this row id.
fn id_excluded(excluded_row_ids: &Vec<Vec<u8>>, id: &Vec<u8>) -> (r: bool)
    ensures
        r == row_id_excluded(excluded_row_ids@.map_values(|v: Vec<u8>| v@), id@),
{
    let ghost ids = excluded_row_ids@.map_values(|v: Vec<u8>| v@);
    let mut k: usize = 0;
    while k < excluded_row_ids.len()
        invariant
            k <= excluded_row_ids.len(),
            ids == excluded_row_ids@.map_values(|v: Vec<u8>| v@),
            forall|j: int| 0 <= j < k ==> ids[j] != id@,
        decreases excluded_row_ids.len() - k,
    {
        proof {
            assert(ids[k as int] == excluded_row_ids@[k as int]@);
        }
        if bytes_eq(&excluded_row_ids[k], id) {
            return true;
        }
        k += 1;
    }
    false
}

/// The sort delegate's row access: the rows handed to the sort are the
/// unfiltered row set narrowed by the filter controller's current exclusions — filtering
/// precedes sorting on every read, so a row the filter excluded never
/// appears in the returned sequence.
pub fn get_row_revs(row_revs: Vec<RowRevision>, excluded_row_ids: &Vec<Vec<u8>>) -> (r: Vec<
    RowRevision,
>)
    ensures
        r@.map_values(|x: RowRevision| x@) == row_revs@.map_values(|x: RowRevision| x@).filter(
            visible_row_fn(excluded_row_ids@.map_values(|v: Vec<u8>| v@)),
        ),
        forall|i: int|
            0 <= i < r@.len() ==> !row_id_excluded(
                excluded_row_ids@.map_values(|v: Vec<u8>| v@),
                (#[trigger] r@[i])@.id,
            ),
{
    let ghost s = row_revs@.map_values(|x: RowRevision| x@);
    let ghost ids = excluded_row_ids@.map_values(|v: Vec<u8>| v@);
    let ghost pred = visible_row_fn(ids);
    let mut out: Vec<RowRevision> = Vec::new();
    let mut k: usize = 0;
    proof {
        assert(s.take(0).filter(pred) =~= Seq::<RowRevisionView>::empty());
        assert(out@.map_values(|x: RowRevision| x@) =~= s.take(0).filter(pred));
    }
    while k < row_revs.len()
        invariant
            k <= row_revs.len(),
            s == row_revs@.map_values(|x: RowRevision| x@),
            ids == excluded_row_ids@.map_values(|v: Vec<u8>| v@),
            pred == visible_row_fn(ids),
            out@.map_values(|x: RowRevision| x@) == s.take(k as int).filter(pred),
            forall|i: int|
                0 <= i < out@.len() ==> !row_id_excluded(ids, (#[trigger] out@[i])@.id),
        decreases row_revs.len() - k,
    {
        proof {
            assert(s[k as int] == row_revs@[k as int]@);
            lemma_filter_take_step(s, pred, k as int);
        }
        let excluded = id_excluded(excluded_row_ids, &row_revs[k].id);
        if !excluded {
            let ghost prev = out@.map_values(|x: RowRevision| x@);
            out.push(row_revs[k].clone());
            proof {
                assert(out@.map_values(|x: RowRevision| x@) =~= prev.push(s[k as int]));
            }
        }
        k += 1;
    }
    proof {
        assert(s.take(s.len() as int) =~= s);
    }
    out
}

/// A singleton operation sequence encodes to the operation's own encoding,
/// which is never empty: every changeset payload is committable.
pub proof fn lemma_enc_ops_singleton(op: OperationView)
    ensures
        enc_ops(seq![op]) == enc_op(op),
        enc_op(op).len() >= 1,
{
    assert(seq![op].drop_last() =~= Seq::<OperationView>::empty());
    assert(enc_ops(Seq::<OperationView>::empty()) =~= Seq::<u8>::empty());
    assert(enc_ops(seq![op]) =~= enc_op(op));
    match op {
        OperationView::SetLayout { .. } => {},
        OperationView::UpsertCalendarSetting { .. } => {},
        OperationView::UpsertFilter { .. } => {},
        OperationView::UpsertSort { .. } => {},
        OperationView::UpsertGroup { .. } => {},
    }
}

/// The group writer: upserts the configuration in the pad and, when the pad
/// actually changed, commits the produced changeset through the revision
/// manager. A no-op upsert is success with nothing to commit.
pub fn save_configuration(
    pad: &mut DatabaseViewRevisionPad,
    rev_manager: &mut RevisionManager,
    group: GroupConfigurationRevision,
) -> (r: Result<(), SyncError>)
    requires
        old(rev_manager).inv(),
        old(rev_manager).rev_id < i64::MAX,
    ensures
        r is Ok,
        final(rev_manager).inv(),
        old(pad).wf() ==> final(pad).wf(),
        old(pad)@.groups.contains(group@) ==> final(pad)@ == old(pad)@ && *final(rev_manager)
            == *old(rev_manager),
        !old(pad)@.groups.contains(group@) ==> {
            &&& final(pad)@ == apply_op_spec(
                old(pad)@,
                OperationView::UpsertGroup { group: group@ },
            )
            &&& final(rev_manager).rev_id == old(rev_manager).rev_id + 1
            &&& final(rev_manager).object_id@ == old(rev_manager).object_id@
            &&& final(rev_manager).persistence@ == insert_one_spec(
                old(rev_manager).persistence@,
                committed_row(
                    old(rev_manager).object_id@,
                    old(rev_manager).rev_id as int,
                    enc_ops(seq![OperationView::UpsertGroup { group: group@ }]),
                ),
            )
        },
{
    let ghost gv = group@;
    let changeset = pad.insert_or_update_group_configuration(group);
    match changeset {
        None => Ok(()),
        Some(cs) => {
            proof {
                lemma_enc_ops_singleton(OperationView::UpsertGroup { group: gv });
            }
            match apply_change(rev_manager, cs) {
                Ok(_) => Ok(()),
                Err(e) => Err(e),
            }
        },
    }
}

/// The read-only, point-in-time view-settings snapshot assembled for
/// external consumption.
pub struct DatabaseViewSetting {
    pub current_layout: LayoutRevision,
    pub layout_setting: Option<CalendarLayoutSetting>,
    pub filters: Vec<FilterRevision>,
    pub sorts: Vec<SortRevision>,
    pub group_configurations: Vec<GroupConfigurationRevision>,
}

/// Assembles the view-settings snapshot from the pad and the still-valid
/// field set: the current layout, the calendar payload only for the
/// calendar layout, and the filters, sorts and group configurations
/// restricted to the given fields — an entry referencing a field outside
/// the set never surfaces.
pub fn make_database_view_setting(
    view_pad: &DatabaseViewRevisionPad,
    field_revs: &Vec<FieldRevision>,
) -> (r: DatabaseViewSetting)
    ensures
        ({
            let fields = field_revs@.map_values(|x: FieldRevision| x@);
            &&& r.current_layout == view_pad@.layout
            &&& (view_pad@.layout == LayoutRevision::Calendar ==> (match r.layout_setting {
                None => view_pad@.calendar_setting is None,
                Some(s) => view_pad@.calendar_setting == Some(s@),
            }))
            &&& (view_pad@.layout != LayoutRevision::Calendar ==> r.layout_setting is None)
            &&& r.filters@.map_values(|f: FilterRevision| f@) == view_pad@.filters.filter(
                filter_field_fn(fields),
            )
            &&& r.sorts@.map_values(|f: SortRevision| f@) == view_pad@.sorts.filter(
                sort_field_fn(fields),
            )
            &&& r.group_configurations@.map_values(|f: GroupConfigurationRevision| f@)
                == view_pad@.groups.filter(group_field_fn(fields))
            &&& forall|i: int|
                0 <= i < r.filters@.len() ==> field_match(
                    fields,
                    (#[trigger] r.filters@[i])@.field_id,
                    r.filters@[i]@.field_type,
                )
            &&& forall|i: int|
                0 <= i < r.sorts@.len() ==> field_match(
                    fields,
                    (#[trigger] r.sorts@[i])@.field_id,
                    r.sorts@[i]@.field_type,
                )
            &&& forall|i: int|
                0 <= i < r.group_configurations@.len() ==> field_match(
                    fields,
                    (#[trigger] r.group_configurations@[i])@.field_id,
                    r.group_configurations@[i]@.field_type,
                )
        }),
{
    broadcast use vstd::seq_lib::group_filter_ensures;

    let ghost fields = field_revs@.map_values(|x: FieldRevision| x@);
    let layout = view_pad.get_layout();
    let layout_setting = match layout {
        LayoutRevision::Calendar => view_pad.get_layout_setting(),
        LayoutRevision::Grid => None,
        LayoutRevision::Board => None,
    };
    let filters = view_pad.get_all_filters(field_revs);
    let sorts = view_pad.get_all_sorts(field_revs);
    let group_configurations = view_pad.get_groups_by_field_revs(field_revs);
    proof {
        let fv = filters@.map_values(|f: FilterRevision| f@);
        assert forall|i: int| 0 <= i < filters@.len() implies field_match(
            fields,
            (#[trigger] filters@[i])@.field_id,
            filters@[i]@.field_type,
        ) by {
            assert(fv[i] == filters@[i]@);
            assert((filter_field_fn(fields))(fv[i]));
        }
        let sv = sorts@.map_values(|f: SortRevision| f@);
        assert forall|i: int| 0 <= i < sorts@.len() implies field_match(
            fields,
            (#[trigger] sorts@[i])@.field_id,
            sorts@[i]@.field_type,
        ) by {
            assert(sv[i] == sorts@[i]@);
            assert((sort_field_fn(fields))(sv[i]));
        }
        let gv = group_configurations@.map_values(|f: GroupConfigurationRevision| f@);
        assert forall|i: int| 0 <= i < group_configurations@.len() implies field_match(
            fields,
            (#[trigger] group_configurations@[i])@.field_id,
            group_configurations@[i]@.field_type,
        ) by {
            assert(gv[i] == group_configurations@[i]@);
            assert((group_field_fn(fields))(gv[i]));
        }
    }
    DatabaseViewSetting { current_layout: layout, layout_setting, filters, sorts, group_configurations }
}

} // verus!
