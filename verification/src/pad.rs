use vstd::prelude::*;

use crate::revision::{bytes_eq, clone_bytes};

verus! {

/// The layout a view is rendered with. Only `Calendar` carries an extra
/// layout-setting payload in this core.
#[derive(Clone, Copy, Debug, PartialEq, Eq, Structural)]
pub enum LayoutRevision {
    Grid,
    Board,
    Calendar,
}

impl Default for LayoutRevision {
    /// A new view starts as a grid.
    fn default() -> (r: Self)
        ensures
            r == LayoutRevision::Grid,
    {
        LayoutRevision::Grid
    }
}

/// Mathematical value of a [`CalendarLayoutSetting`].
pub struct CalendarLayoutSettingView {
    pub layout_field_id: Seq<u8>,
    pub first_day_of_week: u8,
    pub show_weekends: bool,
}

/// The typed layout-setting payload carried by the calendar layout: which
/// date field lays the calendar out, and its display options.
pub struct CalendarLayoutSetting {
    pub layout_field_id: Vec<u8>,
    pub first_day_of_week: u8,
    pub show_weekends: bool,
}

impl View for CalendarLayoutSetting {
    type V = CalendarLayoutSettingView;

    open spec fn view(&self) -> CalendarLayoutSettingView {
        CalendarLayoutSettingView {
            layout_field_id: self.layout_field_id@,
            first_day_of_week: self.first_day_of_week,
            show_weekends: self.show_weekends,
        }
    }
}

impl Clone for CalendarLayoutSetting {
    fn clone(&self) -> (r: Self)
        ensures
            r@ == self@,
    {
        CalendarLayoutSetting {
            layout_field_id: clone_bytes(&self.layout_field_id),
            first_day_of_week: self.first_day_of_week,
            show_weekends: self.show_weekends,
        }
    }
}

/// Whether two calendar settings hold the same value.
pub fn calendar_setting_eq(a: &CalendarLayoutSetting, b: &CalendarLayoutSetting) -> (r: bool)
    ensures
        r == (a@ == b@),
{
    let r = bytes_eq(&a.layout_field_id, &b.layout_field_id) && a.first_day_of_week
        == b.first_day_of_week && a.show_weekends == b.show_weekends;
    r
}

/// Mathematical value of a [`FilterRevision`].
pub struct FilterRevisionView {
    pub id: Seq<u8>,
    pub field_id: Seq<u8>,
    pub field_type: u8,
    pub condition: u8,
    pub content: Seq<u8>,
}

/// One active filter configuration, keyed by `(field_id, field_type)`.
pub struct FilterRevision {
    pub id: Vec<u8>,
    pub field_id: Vec<u8>,
    pub field_type: u8,
    pub condition: u8,
    pub content: Vec<u8>,
}

impl View for FilterRevision {
    type V = FilterRevisionView;

    open spec fn view(&self) -> FilterRevisionView {
        FilterRevisionView {
            id: self.id@,
            field_id: self.field_id@,
            field_type: self.field_type,
            condition: self.condition,
            content: self.content@,
        }
    }
}

impl Clone for FilterRevision {
    fn clone(&self) -> (r: Self)
        ensures
            r@ == self@,
    {
        FilterRevision {
            id: clone_bytes(&self.id),
            field_id: clone_bytes(&self.field_id),
            field_type: self.field_type,
            condition: self.condition,
            content: clone_bytes(&self.content),
        }
    }
}

/// Whether two filter configurations hold the same value.
pub fn filter_rev_eq(a: &FilterRevision, b: &FilterRevision) -> (r: bool)
    ensures
        r == (a@ == b@),
{
    let r = bytes_eq(&a.id, &b.id) && bytes_eq(&a.field_id, &b.field_id) && a.field_type
        == b.field_type && a.condition == b.condition && bytes_eq(&a.content, &b.content);
    r
}

/// Mathematical value of a [`SortRevision`].
pub struct SortRevisionView {
    pub id: Seq<u8>,
    pub field_id: Seq<u8>,
    pub field_type: u8,
    pub condition: u8,
}

/// One active sort configuration, keyed by `(field_id, field_type)`;
/// `condition` selects the direction.
pub struct SortRevision {
    pub id: Vec<u8>,
    pub field_id: Vec<u8>,
    pub field_type: u8,
    pub condition: u8,
}

impl View for SortRevision {
    type V = SortRevisionView;

    open spec fn view(&self) -> SortRevisionView {
        SortRevisionView {
            id: self.id@,
            field_id: self.field_id@,
            field_type: self.field_type,
            condition: self.condition,
        }
    }
}

impl Clone for SortRevision {
    fn clone(&self) -> (r: Self)
        ensures
            r@ == self@,
    {
        SortRevision {
            id: clone_bytes(&self.id),
            field_id: clone_bytes(&self.field_id),
            field_type: self.field_type,
            condition: self.condition,
        }
    }
}

/// Whether two sort configurations hold the same value.
pub fn sort_rev_eq(a: &SortRevision, b: &SortRevision) -> (r: bool)
    ensures
        r == (a@ == b@),
{
    let r = bytes_eq(&a.id, &b.id) && bytes_eq(&a.field_id, &b.field_id) && a.field_type
        == b.field_type && a.condition == b.condition;
    r
}

/// Mathematical value of a [`GroupConfigurationRevision`].
pub struct GroupConfigurationRevisionView {
    pub id: Seq<u8>,
    pub field_id: Seq<u8>,
    pub field_type: u8,
    pub content: Seq<u8>,
}

/// One active group-by configuration, keyed by `(field_id, field_type)`.
pub struct GroupConfigurationRevision {
    pub id: Vec<u8>,
    pub field_id: Vec<u8>,
    pub field_type: u8,
    pub content: Vec<u8>,
}

impl View for GroupConfigurationRevision {
    type V = GroupConfigurationRevisionView;

    open spec fn view(&self) -> GroupConfigurationRevisionView {
        GroupConfigurationRevisionView {
            id: self.id@,
            field_id: self.field_id@,
            field_type: self.field_type,
            content: self.content@,
        }
    }
}

impl Clone for GroupConfigurationRevision {
    fn clone(&self) -> (r: Self)
        ensures
            r@ == self@,
    {
        GroupConfigurationRevision {
            id: clone_bytes(&self.id),
            field_id: clone_bytes(&self.field_id),
            field_type: self.field_type,
            content: clone_bytes(&self.content),
        }
    }
}

/// Whether two group configurations hold the same value.
pub fn group_rev_eq(a: &GroupConfigurationRevision, b: &GroupConfigurationRevision) -> (r: bool)
    ensures
        r == (a@ == b@),
{
    let r = bytes_eq(&a.id, &b.id) && bytes_eq(&a.field_id, &b.field_id) && a.field_type
        == b.field_type && bytes_eq(&a.content, &b.content);
    r
}

/// Mathematical value of a [`FieldRevision`].
pub struct FieldRevisionView {
    pub id: Seq<u8>,
    pub field_type: u8,
}

/// A still-valid field of the view, as handed in by the data-access
/// collaborator: configuration for keys outside this set never surfaces.
pub struct FieldRevision {
    pub id: Vec<u8>,
    pub field_type: u8,
}

impl View for FieldRevision {
    type V = FieldRevisionView;

    open spec fn view(&self) -> FieldRevisionView {
        FieldRevisionView { id: self.id@, field_type: self.field_type }
    }
}

impl Clone for FieldRevision {
    fn clone(&self) -> (r: Self)
        ensures
            r@ == self@,
    {
        FieldRevision { id: clone_bytes(&self.id), field_type: self.field_type }
    }
}

/// Mathematical value of a [`RowRevision`].
pub struct RowRevisionView {
    pub id: Seq<u8>,
}

/// A row of the view, as handed in by the data-access collaborator.
pub struct RowRevision {
    pub id: Vec<u8>,
}

impl View for RowRevision {
    type V = RowRevisionView;

    open spec fn view(&self) -> RowRevisionView {
        RowRevisionView { id: self.id@ }
    }
}

impl Clone for RowRevision {
    fn clone(&self) -> (r: Self)
        ensures
            r@ == self@,
    {
        RowRevision { id: clone_bytes(&self.id) }
    }
}

} // verus!
