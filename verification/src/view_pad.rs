use vstd::prelude::*;

use crate::checksum::{md5_hex, md5_of};
use crate::ops::{enc_ops, encode_operations, OperationView, ViewOperation};
use crate::pad::{
    calendar_setting_eq, CalendarLayoutSetting, CalendarLayoutSettingView, FieldRevision,
    FieldRevisionView, FilterRevision, FilterRevisionView, GroupConfigurationRevision,
    GroupConfigurationRevisionView, LayoutRevision, SortRevision, SortRevisionView,
};
use crate::revision::bytes_eq;
use crate::seq_util::{
    lemma_filter_all_false, lemma_filter_len_le_one, lemma_filter_push, lemma_filter_subsequence,
    lemma_filter_take_step,
};

verus! {

/// Mathematical value of a [`DatabaseViewRevisionPad`].
#[verifier::ext_equal]
pub struct PadView {
    pub layout: LayoutRevision,
    pub calendar_setting: Option<CalendarLayoutSettingView>,
    pub filters: Seq<FilterRevisionView>,
    pub sorts: Seq<SortRevisionView>,
    pub groups: Seq<GroupConfigurationRevisionView>,
}

/// The pad of a freshly created view: grid layout, nothing configured.
pub open spec fn empty_pad() -> PadView {
    PadView {
        layout: LayoutRevision::Grid,
        calendar_setting: None,
        filters: Seq::empty(),
        sorts: Seq::empty(),
        groups: Seq::empty(),
    }
}

/// Whether a filter holds the key `(fid, ft)`.
pub open spec fn filter_key_fn(fid: Seq<u8>, ft: u8) -> spec_fn(FilterRevisionView) -> bool {
    |f: FilterRevisionView| f.field_id == fid && f.field_type == ft
}

/// Whether a filter holds a key other than `(fid, ft)`.
pub open spec fn keep_filter_fn(fid: Seq<u8>, ft: u8) -> spec_fn(FilterRevisionView) -> bool {
    |f: FilterRevisionView| !(f.field_id == fid && f.field_type == ft)
}

/// Whether a sort holds the key `(fid, ft)`.
pub open spec fn sort_key_fn(fid: Seq<u8>, ft: u8) -> spec_fn(SortRevisionView) -> bool {
    |f: SortRevisionView| f.field_id == fid && f.field_type == ft
}

/// Whether a sort holds a key other than `(fid, ft)`.
pub open spec fn keep_sort_fn(fid: Seq<u8>, ft: u8) -> spec_fn(SortRevisionView) -> bool {
    |f: SortRevisionView| !(f.field_id == fid && f.field_type == ft)
}

/// Whether a group configuration holds the key `(fid, ft)`.
pub open spec fn group_key_fn(fid: Seq<u8>, ft: u8) -> spec_fn(
    GroupConfigurationRevisionView,
) -> bool {
    |f: GroupConfigurationRevisionView| f.field_id == fid && f.field_type == ft
}

/// Whether a group configuration holds a key other than `(fid, ft)`.
pub open spec fn keep_group_fn(fid: Seq<u8>, ft: u8) -> spec_fn(
    GroupConfigurationRevisionView,
) -> bool {
    |f: GroupConfigurationRevisionView| !(f.field_id == fid && f.field_type == ft)
}

/// Whether the field set contains the key `(fid, ft)`.
pub open spec fn field_match(fields: Seq<FieldRevisionView>, fid: Seq<u8>, ft: u8) -> bool {
    exists|k: int|
        0 <= k < fields.len() && (#[trigger] fields[k]).id == fid && fields[k].field_type == ft
}

pub open spec fn filter_field_fn(fields: Seq<FieldRevisionView>) -> spec_fn(
    FilterRevisionView,
) -> bool {
    |f: FilterRevisionView| field_match(fields, f.field_id, f.field_type)
}

pub open spec fn sort_field_fn(fields: Seq<FieldRevisionView>) -> spec_fn(
    SortRevisionView,
) -> bool {
    |f: SortRevisionView| field_match(fields, f.field_id, f.field_type)
}

pub open spec fn group_field_fn(fields: Seq<FieldRevisionView>) -> spec_fn(
    GroupConfigurationRevisionView,
) -> bool {
    |f: GroupConfigurationRevisionView| field_match(fields, f.field_id, f.field_type)
}

/// Upserting a filter removes any entry of its key and appends it.
pub open spec fn upsert_filter_spec(s: Seq<FilterRevisionView>, f: FilterRevisionView) -> Seq<
    FilterRevisionView,
> {
    s.filter(keep_filter_fn(f.field_id, f.field_type)).push(f)
}

/// Upserting a sort removes any entry of its key and appends it.
pub open spec fn upsert_sort_spec(s: Seq<SortRevisionView>, f: SortRevisionView) -> Seq<
    SortRevisionView,
> {
    s.filter(keep_sort_fn(f.field_id, f.field_type)).push(f)
}

/// Upserting a group configuration removes any entry of its key and appends
/// it.
pub open spec fn upsert_group_spec(
    s: Seq<GroupConfigurationRevisionView>,
    f: GroupConfigurationRevisionView,
) -> Seq<GroupConfigurationRevisionView> {
    s.filter(keep_group_fn(f.field_id, f.field_type)).push(f)
}

/// At most one filter per `(field_id, field_type)` key.
pub open spec fn wf_filters(s: Seq<FilterRevisionView>) -> bool {
    forall|i: int, j: int|
        #![trigger s[i], s[j]]
        0 <= i < j < s.len() ==> !(s[i].field_id == s[j].field_id && s[i].field_type
            == s[j].field_type)
}

/// At most one sort per `(field_id, field_type)` key.
pub open spec fn wf_sorts(s: Seq<SortRevisionView>) -> bool {
    forall|i: int, j: int|
        #![trigger s[i], s[j]]
        0 <= i < j < s.len() ==> !(s[i].field_id == s[j].field_id && s[i].field_type
            == s[j].field_type)
}

/// At most one group configuration per `(field_id, field_type)` key.
pub open spec fn wf_groups(s: Seq<GroupConfigurationRevisionView>) -> bool {
    forall|i: int, j: int|
        #![trigger s[i], s[j]]
        0 <= i < j < s.len() ==> !(s[i].field_id == s[j].field_id && s[i].field_type
            == s[j].field_type)
}

/// The single-configuration invariant: for each of the three configuration
/// kinds, each `(field_id, field_type)` key holds at most one entry.
pub open spec fn pad_wf(p: PadView) -> bool {
    wf_filters(p.filters) && wf_sorts(p.sorts) && wf_groups(p.groups)
}

/// The pad after one replayed operation.
pub open spec fn apply_op_spec(p: PadView, op: OperationView) -> PadView {
    match op {
        OperationView::SetLayout { layout } => PadView { layout, ..p },
        OperationView::UpsertCalendarSetting { setting } => PadView {
            calendar_setting: Some(setting),
            ..p
        },
        OperationView::UpsertFilter { filter } => PadView {
            filters: upsert_filter_spec(p.filters, filter),
            ..p
        },
        OperationView::UpsertSort { sort } => PadView { sorts: upsert_sort_spec(p.sorts, sort), ..p },
        OperationView::UpsertGroup { group } => PadView {
            groups: upsert_group_spec(p.groups, group),
            ..p
        },
    }
}

/// The pad after replaying a sequence of operations in order; later
/// operations override earlier ones where they touch the same key.
pub open spec fn apply_ops_spec(p: PadView, ops: Seq<OperationView>) -> PadView
    decreases ops.len(),
{
    if ops.len() == 0 {
        p
    } else {
        apply_op_spec(apply_ops_spec(p, ops.drop_last()), ops.last())
    }
}

/// An upsert leaves exactly one entry for its key: the new one, at the end.
pub proof fn lemma_upsert_filter_single(s: Seq<FilterRevisionView>, f: FilterRevisionView)
    ensures
        upsert_filter_spec(s, f).filter(filter_key_fn(f.field_id, f.field_type)) == seq![f],
{
    broadcast use vstd::seq_lib::group_filter_ensures;

    let kept = s.filter(keep_filter_fn(f.field_id, f.field_type));
    assert forall|i: int| 0 <= i < kept.len() implies !(filter_key_fn(f.field_id, f.field_type))(
        #[trigger] kept[i],
    ) by {}
    lemma_filter_all_false(kept, filter_key_fn(f.field_id, f.field_type));
    lemma_filter_push(kept, filter_key_fn(f.field_id, f.field_type), f);
    assert(Seq::<FilterRevisionView>::empty().push(f) =~= seq![f]);
}

/// An upsert keeps the single-entry-per-key shape of the filters.
pub proof fn lemma_upsert_filter_wf(s: Seq<FilterRevisionView>, f: FilterRevisionView)
    requires
        wf_filters(s),
    ensures
        wf_filters(upsert_filter_spec(s, f)),
{
    broadcast use vstd::seq_lib::group_filter_ensures;

    let kept = s.filter(keep_filter_fn(f.field_id, f.field_type));
    lemma_filter_subsequence(s, keep_filter_fn(f.field_id, f.field_type));
    let t = upsert_filter_spec(s, f);
    assert forall|i: int, j: int|
        #![trigger t[i], t[j]]
        0 <= i < j < t.len() implies !(t[i].field_id == t[j].field_id && t[i].field_type
        == t[j].field_type) by {
        if j == t.len() - 1 {
            assert(t[i] == kept[i]);
            assert((keep_filter_fn(f.field_id, f.field_type))(kept[i]));
        } else {
            assert(t[i] == kept[i] && t[j] == kept[j]);
            let (a, b) = choose|a: int, b: int|
                0 <= a < b < s.len() && #[trigger] kept[i] == s[a] && #[trigger] kept[j] == s[b];
        }
    }
}

/// An upsert leaves exactly one entry for its key: the new one, at the end.
pub proof fn lemma_upsert_sort_single(s: Seq<SortRevisionView>, f: SortRevisionView)
    ensures
        upsert_sort_spec(s, f).filter(sort_key_fn(f.field_id, f.field_type)) == seq![f],
{
    broadcast use vstd::seq_lib::group_filter_ensures;

    let kept = s.filter(keep_sort_fn(f.field_id, f.field_type));
    assert forall|i: int| 0 <= i < kept.len() implies !(sort_key_fn(f.field_id, f.field_type))(
        #[trigger] kept[i],
    ) by {}
    lemma_filter_all_false(kept, sort_key_fn(f.field_id, f.field_type));
    lemma_filter_push(kept, sort_key_fn(f.field_id, f.field_type), f);
    assert(Seq::<SortRevisionView>::empty().push(f) =~= seq![f]);
}

/// An upsert keeps the single-entry-per-key shape of the sorts.
pub proof fn lemma_upsert_sort_wf(s: Seq<SortRevisionView>, f: SortRevisionView)
    requires
        wf_sorts(s),
    ensures
        wf_sorts(upsert_sort_spec(s, f)),
{
    broadcast use vstd::seq_lib::group_filter_ensures;

    let kept = s.filter(keep_sort_fn(f.field_id, f.field_type));
    lemma_filter_subsequence(s, keep_sort_fn(f.field_id, f.field_type));
    let t = upsert_sort_spec(s, f);
    assert forall|i: int, j: int|
        #![trigger t[i], t[j]]
        0 <= i < j < t.len() implies !(t[i].field_id == t[j].field_id && t[i].field_type
        == t[j].field_type) by {
        if j == t.len() - 1 {
            assert(t[i] == kept[i]);
            assert((keep_sort_fn(f.field_id, f.field_type))(kept[i]));
        } else {
            assert(t[i] == kept[i] && t[j] == kept[j]);
            let (a, b) = choose|a: int, b: int|
                0 <= a < b < s.len() && #[trigger] kept[i] == s[a] && #[trigger] kept[j] == s[b];
        }
    }
}

/// An upsert leaves exactly one entry for its key: the new one, at the end.
/// With the pad invariant, this is the single-configuration law: after any
/// sequence of group upserts, exactly one configuration is retrievable for
/// an upserted key.
pub proof fn lemma_upsert_group_single(
    s: Seq<GroupConfigurationRevisionView>,
    f: GroupConfigurationRevisionView,
)
    ensures
        upsert_group_spec(s, f).filter(group_key_fn(f.field_id, f.field_type)) == seq![f],
{
    broadcast use vstd::seq_lib::group_filter_ensures;

    let kept = s.filter(keep_group_fn(f.field_id, f.field_type));
    assert forall|i: int| 0 <= i < kept.len() implies !(group_key_fn(f.field_id, f.field_type))(
        #[trigger] kept[i],
    ) by {}
    lemma_filter_all_false(kept, group_key_fn(f.field_id, f.field_type));
    lemma_filter_push(kept, group_key_fn(f.field_id, f.field_type), f);
    assert(Seq::<GroupConfigurationRevisionView>::empty().push(f) =~= seq![f]);
}

/// An upsert keeps the single-entry-per-key shape of the groups.
pub proof fn lemma_upsert_group_wf(
    s: Seq<GroupConfigurationRevisionView>,
    f: GroupConfigurationRevisionView,
)
    requires
        wf_groups(s),
    ensures
        wf_groups(upsert_group_spec(s, f)),
{
    broadcast use vstd::seq_lib::group_filter_ensures;

    let kept = s.filter(keep_group_fn(f.field_id, f.field_type));
    lemma_filter_subsequence(s, keep_group_fn(f.field_id, f.field_type));
    let t = upsert_group_spec(s, f);
    assert forall|i: int, j: int|
        #![trigger t[i], t[j]]
        0 <= i < j < t.len() implies !(t[i].field_id == t[j].field_id && t[i].field_type
        == t[j].field_type) by {
        if j == t.len() - 1 {
            assert(t[i] == kept[i]);
            assert((keep_group_fn(f.field_id, f.field_type))(kept[i]));
        } else {
            assert(t[i] == kept[i] && t[j] == kept[j]);
            let (a, b) = choose|a: int, b: int|
                0 <= a < b < s.len() && #[trigger] kept[i] == s[a] && #[trigger] kept[j] == s[b];
        }
    }
}

/// Replaying any operation keeps the pad's single-configuration invariant.
pub proof fn lemma_apply_op_wf(p: PadView, op: OperationView)
    requires
        pad_wf(p),
    ensures
        pad_wf(apply_op_spec(p, op)),
{
    match op {
        OperationView::SetLayout { .. } => {},
        OperationView::UpsertCalendarSetting { .. } => {},
        OperationView::UpsertFilter { filter } => lemma_upsert_filter_wf(p.filters, filter),
        OperationView::UpsertSort { sort } => lemma_upsert_sort_wf(p.sorts, sort),
        OperationView::UpsertGroup { group } => lemma_upsert_group_wf(p.groups, group),
    }
}

/// Replaying any operation sequence keeps the pad's invariant.
pub proof fn lemma_apply_ops_wf(p: PadView, ops: Seq<OperationView>)
    requires
        pad_wf(p),
    ensures
        pad_wf(apply_ops_spec(p, ops)),
    decreases ops.len(),
{
    if ops.len() != 0 {
        lemma_apply_ops_wf(p, ops.drop_last());
        lemma_apply_op_wf(apply_ops_spec(p, ops.drop_last()), ops.last());
    }
}

/// Mathematical value of a [`DatabaseViewRevisionChangeset`].
pub struct ChangesetView {
    pub operations: Seq<u8>,
    pub md5: Seq<u8>,
}

/// The delta a pad mutation produces, pending commit as a new revision: the
/// encoded operations, and their content hash.
pub struct DatabaseViewRevisionChangeset {
    pub operations: Vec<u8>,
    pub md5: Vec<u8>,
}

impl View for DatabaseViewRevisionChangeset {
    type V = ChangesetView;

    open spec fn view(&self) -> ChangesetView {
        ChangesetView { operations: self.operations@, md5: self.md5@ }
    }
}

/// What every produced changeset holds: the encoding of exactly the one
/// operation the mutation performed, and the hash of those bytes.
pub open spec fn changeset_for(cs: ChangesetView, op: OperationView) -> bool {
    cs.operations == enc_ops(seq![op]) && cs.md5 == md5_of(cs.operations)
}

/// Builds the changeset recording one operation.
fn make_changeset(op: ViewOperation) -> (r: DatabaseViewRevisionChangeset)
    ensures
        changeset_for(r@, op@),
{
    let ghost opv = op@;
    let mut ops_vec: Vec<ViewOperation> = Vec::new();
    ops_vec.push(op);
    let bytes = encode_operations(&ops_vec);
    proof {
        assert(ops_vec@.map_values(|o: ViewOperation| o@) =~= seq![opv]);
    }
    let digest = md5_hex(&bytes);
    DatabaseViewRevisionChangeset { operations: bytes, md5: digest }
}

/// The in-memory configuration of one view, rebuilt by replaying its
/// revision log: the current layout, the calendar's layout setting, and the
/// active filter, sort and group configurations, each keyed by
/// `(field_id, field_type)`.
///
/// Every mutation returns `None` when the pad already holds the requested
/// state, and otherwise updates the pad and returns the changeset to commit.
pub struct DatabaseViewRevisionPad {
    layout: LayoutRevision,
    calendar_setting: Option<CalendarLayoutSetting>,
    filters: Vec<FilterRevision>,
    sorts: Vec<SortRevision>,
    groups: Vec<GroupConfigurationRevision>,
}

impl View for DatabaseViewRevisionPad {
    type V = PadView;

    closed spec fn view(&self) -> PadView {
        PadView {
            layout: self.layout,
            calendar_setting: match self.calendar_setting {
                None => None,
                Some(s) => Some(s@),
            },
            filters: self.filters@.map_values(|f: FilterRevision| f@),
            sorts: self.sorts@.map_values(|f: SortRevision| f@),
            groups: self.groups@.map_values(|f: GroupConfigurationRevision| f@),
        }
    }
}

impl DatabaseViewRevisionPad {
    /// The single-configuration invariant, kept by every mutation.
    pub open spec fn wf(&self) -> bool {
        pad_wf(self@)
    }

    /// An empty pad for a freshly created view.
    pub fn new() -> (r: Self)
        ensures
            r@ == empty_pad(),
            r.wf(),
    {
        let r = DatabaseViewRevisionPad {
            layout: LayoutRevision::Grid,
            calendar_setting: None,
            filters: Vec::new(),
            sorts: Vec::new(),
            groups: Vec::new(),
        };
        proof {
            assert(r@ =~= empty_pad());
        }
        r
    }

    /// The current layout.
    pub fn get_layout(&self) -> (r: LayoutRevision)
        ensures
            r == self@.layout,
    {
        self.layout
    }

    /// The calendar layout setting, when one has been stored.
    pub fn get_layout_setting(&self) -> (r: Option<CalendarLayoutSetting>)
        ensures
            match r {
                None => self@.calendar_setting is None,
                Some(s) => self@.calendar_setting == Some(s@),
            },
    {
        match &self.calendar_setting {
            None => None,
            Some(s) => Some(s.clone()),
        }
    }

    /// Replaces the filters with all entries of other keys plus `filter`.
    fn upsert_filter_raw(&mut self, filter: FilterRevision)
        ensures
            final(self)@ == (PadView {
                filters: upsert_filter_spec(old(self)@.filters, filter@),
                ..old(self)@
            }),
    {
        let ghost oldf = self@.filters;
        let ghost pred = keep_filter_fn(filter@.field_id, filter@.field_type);
        let mut kept: Vec<FilterRevision> = Vec::new();
        let mut k: usize = 0;
        proof {
            assert(oldf.take(0).filter(pred) =~= Seq::<FilterRevisionView>::empty());
            assert(kept@.map_values(|f: FilterRevision| f@) =~= oldf.take(0).filter(pred));
        }
        while k < self.filters.len()
            invariant
                k <= self.filters.len(),
                self == old(self),
                oldf == self@.filters,
                pred == keep_filter_fn(filter@.field_id, filter@.field_type),
                kept@.map_values(|f: FilterRevision| f@) == oldf.take(k as int).filter(pred),
            decreases self.filters.len() - k,
        {
            proof {
                assert(oldf[k as int] == self.filters@[k as int]@);
            }
            let same_key = bytes_eq(&self.filters[k].field_id, &filter.field_id)
                && self.filters[k].field_type == filter.field_type;
            proof {
                assert(same_key == !pred(oldf[k as int]));
                lemma_filter_take_step(oldf, pred, k as int);
            }
            if !same_key {
                let ghost prev = kept@.map_values(|f: FilterRevision| f@);
                kept.push(self.filters[k].clone());
                proof {
                    assert(kept@.map_values(|f: FilterRevision| f@) =~= prev.push(oldf[k as int]));
                }
            }
            k += 1;
        }
        proof {
            assert(oldf.take(oldf.len() as int) =~= oldf);
        }
        let ghost fv = filter@;
        let ghost prev = kept@.map_values(|f: FilterRevision| f@);
        kept.push(filter);
        proof {
            assert(kept@.map_values(|f: FilterRevision| f@) =~= prev.push(fv));
        }
        self.filters = kept;
        proof {
            assert(self@ =~= (PadView { filters: upsert_filter_spec(oldf, fv), ..old(self)@ }));
        }
    }

    /// Replaces the sorts with all entries of other keys plus `sort`.
    fn upsert_sort_raw(&mut self, sort: SortRevision)
        ensures
            final(self)@ == (PadView {
                sorts: upsert_sort_spec(old(self)@.sorts, sort@),
                ..old(self)@
            }),
    {
        let ghost oldf = self@.sorts;
        let ghost pred = keep_sort_fn(sort@.field_id, sort@.field_type);
        let mut kept: Vec<SortRevision> = Vec::new();
        let mut k: usize = 0;
        proof {
            assert(oldf.take(0).filter(pred) =~= Seq::<SortRevisionView>::empty());
            assert(kept@.map_values(|f: SortRevision| f@) =~= oldf.take(0).filter(pred));
        }
        while k < self.sorts.len()
            invariant
                k <= self.sorts.len(),
                self == old(self),
                oldf == self@.sorts,
                pred == keep_sort_fn(sort@.field_id, sort@.field_type),
                kept@.map_values(|f: SortRevision| f@) == oldf.take(k as int).filter(pred),
            decreases self.sorts.len() - k,
        {
            proof {
                assert(oldf[k as int] == self.sorts@[k as int]@);
            }
            let same_key = bytes_eq(&self.sorts[k].field_id, &sort.field_id)
                && self.sorts[k].field_type == sort.field_type;
            proof {
                assert(same_key == !pred(oldf[k as int]));
                lemma_filter_take_step(oldf, pred, k as int);
            }
            if !same_key {
                let ghost prev = kept@.map_values(|f: SortRevision| f@);
                kept.push(self.sorts[k].clone());
                proof {
                    assert(kept@.map_values(|f: SortRevision| f@) =~= prev.push(oldf[k as int]));
                }
            }
            k += 1;
        }
        proof {
            assert(oldf.take(oldf.len() as int) =~= oldf);
        }
        let ghost fv = sort@;
        let ghost prev = kept@.map_values(|f: SortRevision| f@);
        kept.push(sort);
        proof {
            assert(kept@.map_values(|f: SortRevision| f@) =~= prev.push(fv));
        }
        self.sorts = kept;
        proof {
            assert(self@ =~= (PadView { sorts: upsert_sort_spec(oldf, fv), ..old(self)@ }));
        }
    }

    /// Replaces the groups with all entries of other keys plus `group`.
    fn upsert_group_raw(&mut self, group: GroupConfigurationRevision)
        ensures
            final(self)@ == (PadView {
                groups: upsert_group_spec(old(self)@.groups, group@),
                ..old(self)@
            }),
    {
        let ghost oldf = self@.groups;
        let ghost pred = keep_group_fn(group@.field_id, group@.field_type);
        let mut kept: Vec<GroupConfigurationRevision> = Vec::new();
        let mut k: usize = 0;
        proof {
            assert(oldf.take(0).filter(pred) =~= Seq::<GroupConfigurationRevisionView>::empty());
            assert(kept@.map_values(|f: GroupConfigurationRevision| f@) =~= oldf.take(0).filter(
                pred,
            ));
        }
        while k < self.groups.len()
            invariant
                k <= self.groups.len(),
                self == old(self),
                oldf == self@.groups,
                pred == keep_group_fn(group@.field_id, group@.field_type),
                kept@.map_values(|f: GroupConfigurationRevision| f@) == oldf.take(
                    k as int,
                ).filter(pred),
            decreases self.groups.len() - k,
        {
            proof {
                assert(oldf[k as int] == self.groups@[k as int]@);
            }
            let same_key = bytes_eq(&self.groups[k].field_id, &group.field_id)
                && self.groups[k].field_type == group.field_type;
            proof {
                assert(same_key == !pred(oldf[k as int]));
                lemma_filter_take_step(oldf, pred, k as int);
            }
            if !same_key {
                let ghost prev = kept@.map_values(|f: GroupConfigurationRevision| f@);
                kept.push(self.groups[k].clone());
                proof {
                    assert(kept@.map_values(|f: GroupConfigurationRevision| f@) =~= prev.push(
                        oldf[k as int],
                    ));
                }
            }
            k += 1;
        }
        proof {
            assert(oldf.take(oldf.len() as int) =~= oldf);
        }
        let ghost fv = group@;
        let ghost prev = kept@.map_values(|f: GroupConfigurationRevision| f@);
        kept.push(group);
        proof {
            assert(kept@.map_values(|f: GroupConfigurationRevision| f@) =~= prev.push(fv));
        }
        self.groups = kept;
        proof {
            assert(self@ =~= (PadView { groups: upsert_group_spec(oldf, fv), ..old(self)@ }));
        }
    }

    /// Replays one operation over the pad, with no changeset: used when the
    /// pad is rebuilt from its revision log.
    pub fn apply_operation(&mut self, op: ViewOperation)
        ensures
            final(self)@ == apply_op_spec(old(self)@, op@),
    {
        let ghost opv = op@;
        match op {
            ViewOperation::SetLayout { layout } => {
                self.layout = layout;
                proof {
                    assert(self@ =~= apply_op_spec(old(self)@, opv));
                }
            },
            ViewOperation::UpsertCalendarSetting { setting } => {
                self.calendar_setting = Some(setting);
                proof {
                    assert(self@ =~= apply_op_spec(old(self)@, opv));
                }
            },
            ViewOperation::UpsertFilter { filter } => {
                self.upsert_filter_raw(filter);
            },
            ViewOperation::UpsertSort { sort } => {
                self.upsert_sort_raw(sort);
            },
            ViewOperation::UpsertGroup { group } => {
                self.upsert_group_raw(group);
            },
        }
    }

    /// Sets the layout. A request for the current layout is a no-op and
    /// produces no changeset.
    pub fn set_layout(&mut self, layout: LayoutRevision) -> (r: Option<
        DatabaseViewRevisionChangeset,
    >)
        ensures
            old(self)@.layout == layout ==> r is None && final(self)@ == old(self)@,
            old(self)@.layout != layout ==> {
                &&& final(self)@ == apply_op_spec(old(self)@, OperationView::SetLayout { layout })
                &&& r is Some
                &&& changeset_for((r->Some_0)@, OperationView::SetLayout { layout })
            },
            old(self).wf() ==> final(self).wf(),
    {
        if self.layout == layout {
            None
        } else {
            self.layout = layout;
            let cs = make_changeset(ViewOperation::SetLayout { layout });
            proof {
                assert(self@ =~= apply_op_spec(old(self)@, OperationView::SetLayout { layout }));
            }
            Some(cs)
        }
    }

    /// Stores the calendar layout setting. A request for the stored value is
    /// a no-op and produces no changeset.
    pub fn upsert_layout_setting(&mut self, setting: CalendarLayoutSetting) -> (r: Option<
        DatabaseViewRevisionChangeset,
    >)
        ensures
            old(self)@.calendar_setting == Some(setting@) ==> r is None && final(self)@ == old(
                self,
            )@,
            old(self)@.calendar_setting != Some(setting@) ==> {
                &&& final(self)@ == apply_op_spec(
                    old(self)@,
                    OperationView::UpsertCalendarSetting { setting: setting@ },
                )
                &&& r is Some
                &&& changeset_for(
                    (r->Some_0)@,
                    OperationView::UpsertCalendarSetting { setting: setting@ },
                )
            },
            old(self).wf() ==> final(self).wf(),
    {
        let same = match &self.calendar_setting {
            None => false,
            Some(s) => calendar_setting_eq(s, &setting),
        };
        if same {
            None
        } else {
            let ghost sv = setting@;
            let op = ViewOperation::UpsertCalendarSetting { setting: setting.clone() };
            self.calendar_setting = Some(setting);
            let cs = make_changeset(op);
            proof {
                assert(self@ =~= apply_op_spec(
                    old(self)@,
                    OperationView::UpsertCalendarSetting { setting: sv },
                ));
            }
            Some(cs)
        }
    }

    /// Upserts the filter for its `(field_id, field_type)` key, replacing
    /// any entry stored for that key. Requesting a filter the pad already
    /// holds is a no-op and produces no changeset.
    pub fn insert_or_update_filter(&mut self, filter: FilterRevision) -> (r: Option<
        DatabaseViewRevisionChangeset,
    >)
        ensures
            old(self)@.filters.contains(filter@) ==> r is None && final(self)@ == old(self)@,
            !old(self)@.filters.contains(filter@) ==> {
                &&& final(self)@ == apply_op_spec(
                    old(self)@,
                    OperationView::UpsertFilter { filter: filter@ },
                )
                &&& r is Some
                &&& changeset_for((r->Some_0)@, OperationView::UpsertFilter { filter: filter@ })
            },
            old(self).wf() ==> final(self).wf(),
    {
        let found = contains_filter_eq(&self.filters, &filter);
        if found {
            None
        } else {
            let ghost fv = filter@;
            let op = ViewOperation::UpsertFilter { filter: filter.clone() };
            self.upsert_filter_raw(filter);
            let cs = make_changeset(op);
            proof {
                if pad_wf(old(self)@) {
                    lemma_upsert_filter_wf(old(self)@.filters, fv);
                }
            }
            Some(cs)
        }
    }

    /// Upserts the sort for its `(field_id, field_type)` key, replacing any
    /// entry stored for that key. Requesting a sort the pad already holds is
    /// a no-op and produces no changeset.
    pub fn insert_or_update_sort(&mut self, sort: SortRevision) -> (r: Option<
        DatabaseViewRevisionChangeset,
    >)
        ensures
            old(self)@.sorts.contains(sort@) ==> r is None && final(self)@ == old(self)@,
            !old(self)@.sorts.contains(sort@) ==> {
                &&& final(self)@ == apply_op_spec(
                    old(self)@,
                    OperationView::UpsertSort { sort: sort@ },
                )
                &&& r is Some
                &&& changeset_for((r->Some_0)@, OperationView::UpsertSort { sort: sort@ })
            },
            old(self).wf() ==> final(self).wf(),
    {
        let found = contains_sort_eq(&self.sorts, &sort);
        if found {
            None
        } else {
            let ghost fv = sort@;
            let op = ViewOperation::UpsertSort { sort: sort.clone() };
            self.upsert_sort_raw(sort);
            let cs = make_changeset(op);
            proof {
                if pad_wf(old(self)@) {
                    lemma_upsert_sort_wf(old(self)@.sorts, fv);
                }
            }
            Some(cs)
        }
    }

    /// Upserts the group configuration for its `(field_id, field_type)`
    /// key, replacing any entry stored for that key — the single-
    /// configuration invariant is enforced here. Requesting a configuration
    /// the pad already holds is a no-op and produces no changeset.
    pub fn insert_or_update_group_configuration(&mut self, group: GroupConfigurationRevision)
        -> (r: Option<DatabaseViewRevisionChangeset>)
        ensures
            old(self)@.groups.contains(group@) ==> r is None && final(self)@ == old(self)@,
            !old(self)@.groups.contains(group@) ==> {
                &&& final(self)@ == apply_op_spec(
                    old(self)@,
                    OperationView::UpsertGroup { group: group@ },
                )
                &&& r is Some
                &&& changeset_for((r->Some_0)@, OperationView::UpsertGroup { group: group@ })
            },
            old(self).wf() ==> final(self).wf(),
    {
        let found = contains_group_eq(&self.groups, &group);
        if found {
            None
        } else {
            let ghost fv = group@;
            let op = ViewOperation::UpsertGroup { group: group.clone() };
            self.upsert_group_raw(group);
            let cs = make_changeset(op);
            proof {
                if pad_wf(old(self)@) {
                    lemma_upsert_group_wf(old(self)@.groups, fv);
                }
            }
            Some(cs)
        }
    }

    /// The filters stored for one `(field_id, field_type)` key: under the
    /// pad invariant, none or exactly one.
    pub fn get_filters(&self, field_id: &Vec<u8>, field_type: u8) -> (r: Vec<FilterRevision>)
        ensures
            r@.map_values(|f: FilterRevision| f@) == self@.filters.filter(
                filter_key_fn(field_id@, field_type),
            ),
            self.wf() ==> r@.len() <= 1,
    {
        let ghost s = self@.filters;
        let ghost pred = filter_key_fn(field_id@, field_type);
        let mut out: Vec<FilterRevision> = Vec::new();
        let mut k: usize = 0;
        proof {
            assert(s.take(0).filter(pred) =~= Seq::<FilterRevisionView>::empty());
            assert(out@.map_values(|f: FilterRevision| f@) =~= s.take(0).filter(pred));
        }
        while k < self.filters.len()
            invariant
                k <= self.filters.len(),
                s == self@.filters,
                pred == filter_key_fn(field_id@, field_type),
                out@.map_values(|f: FilterRevision| f@) == s.take(k as int).filter(pred),
            decreases self.filters.len() - k,
        {
            proof {
                assert(s[k as int] == self.filters@[k as int]@);
                lemma_filter_take_step(s, pred, k as int);
            }
            let same_key = bytes_eq(&self.filters[k].field_id, field_id)
                && self.filters[k].field_type == field_type;
            if same_key {
                let ghost prev = out@.map_values(|f: FilterRevision| f@);
                out.push(self.filters[k].clone());
                proof {
                    assert(out@.map_values(|f: FilterRevision| f@) =~= prev.push(s[k as int]));
                }
            }
            k += 1;
        }
        proof {
            assert(s.take(s.len() as int) =~= s);
            if self.wf() {
                assert forall|i: int, j: int|
                    #![trigger s[i], s[j]]
                    0 <= i < j < s.len() implies !(pred(s[i]) && pred(s[j])) by {}
                lemma_filter_len_le_one(s, pred);
            }
        }
        out
    }

    /// The sorts stored for one `(field_id, field_type)` key: under the pad
    /// invariant, none or exactly one.
    pub fn get_sorts(&self, field_id: &Vec<u8>, field_type: u8) -> (r: Vec<SortRevision>)
        ensures
            r@.map_values(|f: SortRevision| f@) == self@.sorts.filter(
                sort_key_fn(field_id@, field_type),
            ),
            self.wf() ==> r@.len() <= 1,
    {
        let ghost s = self@.sorts;
        let ghost pred = sort_key_fn(field_id@, field_type);
        let mut out: Vec<SortRevision> = Vec::new();
        let mut k: usize = 0;
        proof {
            assert(s.take(0).filter(pred) =~= Seq::<SortRevisionView>::empty());
            assert(out@.map_values(|f: SortRevision| f@) =~= s.take(0).filter(pred));
        }
        while k < self.sorts.len()
            invariant
                k <= self.sorts.len(),
                s == self@.sorts,
                pred == sort_key_fn(field_id@, field_type),
                out@.map_values(|f: SortRevision| f@) == s.take(k as int).filter(pred),
            decreases self.sorts.len() - k,
        {
            proof {
                assert(s[k as int] == self.sorts@[k as int]@);
                lemma_filter_take_step(s, pred, k as int);
            }
            let same_key = bytes_eq(&self.sorts[k].field_id, field_id) && self.sorts[k].field_type
                == field_type;
            if same_key {
                let ghost prev = out@.map_values(|f: SortRevision| f@);
                out.push(self.sorts[k].clone());
                proof {
                    assert(out@.map_values(|f: SortRevision| f@) =~= prev.push(s[k as int]));
                }
            }
            k += 1;
        }
        proof {
            assert(s.take(s.len() as int) =~= s);
            if self.wf() {
                assert forall|i: int, j: int|
                    #![trigger s[i], s[j]]
                    0 <= i < j < s.len() implies !(pred(s[i]) && pred(s[j])) by {}
                lemma_filter_len_le_one(s, pred);
            }
        }
        out
    }

    /// Every stored group configuration, in stored order.
    pub fn get_all_groups(&self) -> (r: Vec<GroupConfigurationRevision>)
        ensures
            r@.map_values(|f: GroupConfigurationRevision| f@) == self@.groups,
    {
        let mut out: Vec<GroupConfigurationRevision> = Vec::new();
        let mut k: usize = 0;
        proof {
            assert(out@.map_values(|f: GroupConfigurationRevision| f@) =~= self@.groups.take(0));
        }
        while k < self.groups.len()
            invariant
                k <= self.groups.len(),
                out@.map_values(|f: GroupConfigurationRevision| f@) == self@.groups.take(k as int),
            decreases self.groups.len() - k,
        {
            proof {
                assert(self@.groups[k as int] == self.groups@[k as int]@);
            }
            let ghost prev = out@.map_values(|f: GroupConfigurationRevision| f@);
            out.push(self.groups[k].clone());
            proof {
                assert(out@.map_values(|f: GroupConfigurationRevision| f@) =~= prev.push(
                    self@.groups[k as int],
                ));
                assert(self@.groups.take(k + 1) =~= self@.groups.take(k as int).push(
                    self@.groups[k as int],
                ));
            }
            k += 1;
        }
        proof {
            assert(self@.groups.take(self@.groups.len() as int) =~= self@.groups);
        }
        out
    }

    /// The filters whose field is still valid: entries whose key is outside
    /// `field_revs` never surface.
    pub fn get_all_filters(&self, field_revs: &Vec<FieldRevision>) -> (r: Vec<FilterRevision>)
        ensures
            r@.map_values(|f: FilterRevision| f@) == self@.filters.filter(
                filter_field_fn(field_revs@.map_values(|x: FieldRevision| x@)),
            ),
    {
        let ghost s = self@.filters;
        let ghost fields = field_revs@.map_values(|x: FieldRevision| x@);
        let ghost pred = filter_field_fn(fields);
        let mut out: Vec<FilterRevision> = Vec::new();
        let mut k: usize = 0;
        proof {
            assert(s.take(0).filter(pred) =~= Seq::<FilterRevisionView>::empty());
            assert(out@.map_values(|f: FilterRevision| f@) =~= s.take(0).filter(pred));
        }
        while k < self.filters.len()
            invariant
                k <= self.filters.len(),
                s == self@.filters,
                fields == field_revs@.map_values(|x: FieldRevision| x@),
                pred == filter_field_fn(fields),
                out@.map_values(|f: FilterRevision| f@) == s.take(k as int).filter(pred),
            decreases self.filters.len() - k,
        {
            proof {
                assert(s[k as int] == self.filters@[k as int]@);
                lemma_filter_take_step(s, pred, k as int);
            }
            let keep = field_set_matches(
                field_revs,
                &self.filters[k].field_id,
                self.filters[k].field_type,
            );
            if keep {
                let ghost prev = out@.map_values(|f: FilterRevision| f@);
                out.push(self.filters[k].clone());
                proof {
                    assert(out@.map_values(|f: FilterRevision| f@) =~= prev.push(s[k as int]));
                }
            }
            k += 1;
        }
        proof {
            assert(s.take(s.len() as int) =~= s);
        }
        out
    }

    /// The sorts whose field is still valid: entries whose key is outside
    /// `field_revs` never surface.
    pub fn get_all_sorts(&self, field_revs: &Vec<FieldRevision>) -> (r: Vec<SortRevision>)
        ensures
            r@.map_values(|f: SortRevision| f@) == self@.sorts.filter(
                sort_field_fn(field_revs@.map_values(|x: FieldRevision| x@)),
            ),
    {
        let ghost s = self@.sorts;
        let ghost fields = field_revs@.map_values(|x: FieldRevision| x@);
        let ghost pred = sort_field_fn(fields);
        let mut out: Vec<SortRevision> = Vec::new();
        let mut k: usize = 0;
        proof {
            assert(s.take(0).filter(pred) =~= Seq::<SortRevisionView>::empty());
            assert(out@.map_values(|f: SortRevision| f@) =~= s.take(0).filter(pred));
        }
        while k < self.sorts.len()
            invariant
                k <= self.sorts.len(),
                s == self@.sorts,
                fields == field_revs@.map_values(|x: FieldRevision| x@),
                pred == sort_field_fn(fields),
                out@.map_values(|f: SortRevision| f@) == s.take(k as int).filter(pred),
            decreases self.sorts.len() - k,
        {
            proof {
                assert(s[k as int] == self.sorts@[k as int]@);
                lemma_filter_take_step(s, pred, k as int);
            }
            let keep = field_set_matches(
                field_revs,
                &self.sorts[k].field_id,
                self.sorts[k].field_type,
            );
            if keep {
                let ghost prev = out@.map_values(|f: SortRevision| f@);
                out.push(self.sorts[k].clone());
                proof {
                    assert(out@.map_values(|f: SortRevision| f@) =~= prev.push(s[k as int]));
                }
            }
            k += 1;
        }
        proof {
            assert(s.take(s.len() as int) =~= s);
        }
        out
    }

    /// The group configurations whose field is still valid: entries whose
    /// key is outside `field_revs` never surface.
    pub fn get_groups_by_field_revs(&self, field_revs: &Vec<FieldRevision>) -> (r: Vec<
        GroupConfigurationRevision,
    >)
        ensures
            r@.map_values(|f: GroupConfigurationRevision| f@) == self@.groups.filter(
                group_field_fn(field_revs@.map_values(|x: FieldRevision| x@)),
            ),
    {
        let ghost s = self@.groups;
        let ghost fields = field_revs@.map_values(|x: FieldRevision| x@);
        let ghost pred = group_field_fn(fields);
        let mut out: Vec<GroupConfigurationRevision> = Vec::new();
        let mut k: usize = 0;
        proof {
            assert(s.take(0).filter(pred) =~= Seq::<GroupConfigurationRevisionView>::empty());
            assert(out@.map_values(|f: GroupConfigurationRevision| f@) =~= s.take(0).filter(pred));
        }
        while k < self.groups.len()
            invariant
                k <= self.groups.len(),
                s == self@.groups,
                fields == field_revs@.map_values(|x: FieldRevision| x@),
                pred == group_field_fn(fields),
                out@.map_values(|f: GroupConfigurationRevision| f@) == s.take(k as int).filter(
                    pred,
                ),
            decreases self.groups.len() - k,
        {
            proof {
                assert(s[k as int] == self.groups@[k as int]@);
                lemma_filter_take_step(s, pred, k as int);
            }
            let keep = field_set_matches(
                field_revs,
                &self.groups[k].field_id,
                self.groups[k].field_type,
            );
            if keep {
                let ghost prev = out@.map_values(|f: GroupConfigurationRevision| f@);
                out.push(self.groups[k].clone());
                proof {
                    assert(out@.map_values(|f: GroupConfigurationRevision| f@) =~= prev.push(
                        s[k as int],
                    ));
                }
            }
            k += 1;
        }
        proof {
            assert(s.take(s.len() as int) =~= s);
        }
        out
    }
}

/// Whether the still-valid field set holds the key `(fid, ft)`.
pub fn field_set_matches(field_revs: &Vec<FieldRevision>, fid: &Vec<u8>, ft: u8) -> (r: bool)
    ensures
        r == field_match(field_revs@.map_values(|x: FieldRevision| x@), fid@, ft),
{
    let ghost fields = field_revs@.map_values(|x: FieldRevision| x@);
    let mut k: usize = 0;
    while k < field_revs.len()
        invariant
            k <= field_revs.len(),
            fields == field_revs@.map_values(|x: FieldRevision| x@),
            forall|j: int|
                0 <= j < k ==> !((#[trigger] fields[j]).id == fid@ && fields[j].field_type == ft),
        decreases field_revs.len() - k,
    {
        proof {
            assert(fields[k as int] == field_revs@[k as int]@);
        }
        if bytes_eq(&field_revs[k].id, fid) && field_revs[k].field_type == ft {
            proof {
                assert(fields[k as int].id == fid@ && fields[k as int].field_type == ft);
            }
            return true;
        }
        k += 1;
    }
    false
}

/// Whether the list holds a filter equal to `f`.
fn contains_filter_eq(list: &Vec<FilterRevision>, f: &FilterRevision) -> (r: bool)
    ensures
        r == list@.map_values(|x: FilterRevision| x@).contains(f@),
{
    let ghost s = list@.map_values(|x: FilterRevision| x@);
    let mut k: usize = 0;
    while k < list.len()
        invariant
            k <= list.len(),
            s == list@.map_values(|x: FilterRevision| x@),
            forall|j: int| 0 <= j < k ==> s[j] != f@,
        decreases list.len() - k,
    {
        proof {
            assert(s[k as int] == list@[k as int]@);
        }
        if crate::pad::filter_rev_eq(&list[k], f) {
            assert(s.contains(f@));
            return true;
        }
        k += 1;
    }
    assert(!s.contains(f@));
    false
}

/// Whether the list holds a sort equal to `f`.
fn contains_sort_eq(list: &Vec<SortRevision>, f: &SortRevision) -> (r: bool)
    ensures
        r == list@.map_values(|x: SortRevision| x@).contains(f@),
{
    let ghost s = list@.map_values(|x: SortRevision| x@);
    let mut k: usize = 0;
    while k < list.len()
        invariant
            k <= list.len(),
            s == list@.map_values(|x: SortRevision| x@),
            forall|j: int| 0 <= j < k ==> s[j] != f@,
        decreases list.len() - k,
    {
        proof {
            assert(s[k as int] == list@[k as int]@);
        }
        if crate::pad::sort_rev_eq(&list[k], f) {
            assert(s.contains(f@));
            return true;
        }
        k += 1;
    }
    assert(!s.contains(f@));
    false
}

/// Whether the list holds a group configuration equal to `f`.
fn contains_group_eq(list: &Vec<GroupConfigurationRevision>, f: &GroupConfigurationRevision) -> (r:
    bool)
    ensures
        r == list@.map_values(|x: GroupConfigurationRevision| x@).contains(f@),
{
    let ghost s = list@.map_values(|x: GroupConfigurationRevision| x@);
    let mut k: usize = 0;
    while k < list.len()
        invariant
            k <= list.len(),
            s == list@.map_values(|x: GroupConfigurationRevision| x@),
            forall|j: int| 0 <= j < k ==> s[j] != f@,
        decreases list.len() - k,
    {
        proof {
            assert(s[k as int] == list@[k as int]@);
        }
        if crate::pad::group_rev_eq(&list[k], f) {
            assert(s.contains(f@));
            return true;
        }
        k += 1;
    }
    assert(!s.contains(f@));
    false
}

} // verus!
