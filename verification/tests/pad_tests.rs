use view_rev_sync::delegates::{
    get_configuration, get_filter_rev, get_row_revs, get_sort_rev, make_database_view_setting,
    save_configuration, FilterType, SortType,
};
use view_rev_sync::errors::SyncError;
use view_rev_sync::fetch::DatabaseViewRevisionCloudService;
use view_rev_sync::manager::{apply_change, RevisionManager};
use view_rev_sync::merge::DatabaseViewRevisionSerde;
use view_rev_sync::pad::{
    CalendarLayoutSetting, FieldRevision, FilterRevision, GroupConfigurationRevision,
    LayoutRevision, RowRevision, SortRevision,
};
use view_rev_sync::revision::Revision;
use view_rev_sync::view_pad::{DatabaseViewRevisionChangeset, DatabaseViewRevisionPad};

fn filter(field: &str, ft: u8, content: &str) -> FilterRevision {
    FilterRevision {
        id: format!("flt-{field}").into_bytes(),
        field_id: field.as_bytes().to_vec(),
        field_type: ft,
        condition: 1,
        content: content.as_bytes().to_vec(),
    }
}

fn sort(field: &str, ft: u8, condition: u8) -> SortRevision {
    SortRevision {
        id: format!("srt-{field}").into_bytes(),
        field_id: field.as_bytes().to_vec(),
        field_type: ft,
        condition,
    }
}

fn group(field: &str, ft: u8, content: &str) -> GroupConfigurationRevision {
    GroupConfigurationRevision {
        id: format!("grp-{field}").into_bytes(),
        field_id: field.as_bytes().to_vec(),
        field_type: ft,
        content: content.as_bytes().to_vec(),
    }
}

fn revision_of(changeset: DatabaseViewRevisionChangeset, base: i64, rev: i64) -> Revision {
    Revision {
        object_id: b"v1".to_vec(),
        base_rev_id: base,
        rev_id: rev,
        bytes: changeset.operations,
        checksum: changeset.md5,
    }
}

#[test]
fn combine_is_deterministic_and_order_preserving() {
    let mut pad = DatabaseViewRevisionPad::new();
    let c1 = pad.set_layout(LayoutRevision::Board).unwrap();
    let c2 = pad.insert_or_update_filter(filter("f1", 3, "x>1")).unwrap();
    let c3 = pad.insert_or_update_sort(sort("f2", 0, 1)).unwrap();
    let revs = vec![revision_of(c1, 0, 1), revision_of(c2, 1, 2), revision_of(c3, 2, 3)];

    let revs_again = revs
        .iter()
        .map(|r| Revision {
            object_id: r.object_id.clone(),
            base_rev_id: r.base_rev_id,
            rev_id: r.rev_id,
            bytes: r.bytes.clone(),
            checksum: r.checksum.clone(),
        })
        .collect::<Vec<_>>();

    let once = DatabaseViewRevisionSerde::combine_revisions(revs).unwrap();
    let twice = DatabaseViewRevisionSerde::combine_revisions(revs_again).unwrap();
    assert_eq!(once, twice);
    assert!(!once.is_empty());
}

#[test]
fn combined_revision_replays_to_the_same_pad() {
    let mut pad = DatabaseViewRevisionPad::new();
    let c1 = pad.set_layout(LayoutRevision::Calendar).unwrap();
    let c2 = pad
        .upsert_layout_setting(CalendarLayoutSetting {
            layout_field_id: b"due".to_vec(),
            first_day_of_week: 1,
            show_weekends: true,
        })
        .unwrap();
    let c3 = pad.insert_or_update_group_configuration(group("f9", 4, "by-status")).unwrap();
    let revs = vec![revision_of(c1, 0, 1), revision_of(c2, 1, 2), revision_of(c3, 2, 3)];

    let combined = DatabaseViewRevisionSerde::combine_revisions(vec![
        Revision {
            object_id: b"v1".to_vec(),
            base_rev_id: 0,
            rev_id: 1,
            bytes: revs[0].bytes.clone(),
            checksum: Vec::new(),
        },
        Revision {
            object_id: b"v1".to_vec(),
            base_rev_id: 1,
            rev_id: 2,
            bytes: revs[1].bytes.clone(),
            checksum: Vec::new(),
        },
        Revision {
            object_id: b"v1".to_vec(),
            base_rev_id: 2,
            rev_id: 3,
            bytes: revs[2].bytes.clone(),
            checksum: Vec::new(),
        },
    ])
    .unwrap();

    let replayed = DatabaseViewRevisionSerde::deserialize_revisions(
        &b"v1".to_vec(),
        vec![Revision {
            object_id: b"v1".to_vec(),
            base_rev_id: 0,
            rev_id: 1,
            bytes: combined,
            checksum: Vec::new(),
        }],
    )
    .unwrap();
    let stepwise =
        DatabaseViewRevisionSerde::deserialize_revisions(&b"v1".to_vec(), revs).unwrap();

    assert_eq!(replayed.get_layout(), LayoutRevision::Calendar);
    assert_eq!(replayed.get_layout(), stepwise.get_layout());
    let a = replayed.get_layout_setting().unwrap();
    let b = stepwise.get_layout_setting().unwrap();
    assert_eq!(a.layout_field_id, b.layout_field_id);
    assert_eq!(a.first_day_of_week, b.first_day_of_week);
    assert_eq!(a.show_weekends, b.show_weekends);
    let ga = replayed.get_all_groups();
    let gb = stepwise.get_all_groups();
    assert_eq!(ga.len(), 1);
    assert_eq!(ga[0].content, gb[0].content);
}

#[test]
fn malformed_revision_bytes_surface_a_serialization_error() {
    let bad = Revision {
        object_id: b"v1".to_vec(),
        base_rev_id: 0,
        rev_id: 1,
        bytes: vec![9, 9, 9],
        checksum: Vec::new(),
    };
    let r = DatabaseViewRevisionSerde::deserialize_revisions(&b"v1".to_vec(), vec![bad]);
    assert_eq!(r.err(), Some(SyncError::Serialization));

    let bad2 = Revision {
        object_id: b"v1".to_vec(),
        base_rev_id: 0,
        rev_id: 1,
        bytes: vec![1],
        checksum: Vec::new(),
    };
    let r2 = DatabaseViewRevisionSerde::combine_revisions(vec![bad2]);
    assert_eq!(r2.err(), Some(SyncError::Serialization));
}

#[test]
fn deserializing_no_revisions_yields_the_empty_pad() {
    let pad = DatabaseViewRevisionSerde::deserialize_revisions(&b"v1".to_vec(), vec![]).unwrap();
    assert_eq!(pad.get_layout(), LayoutRevision::Grid);
    assert!(pad.get_layout_setting().is_none());
    assert!(pad.get_all_groups().is_empty());
}

#[test]
fn recover_reports_no_recoverable_state() {
    assert!(DatabaseViewRevisionSerde::recover_from_revisions(vec![]).is_none());
}

#[test]
fn repeated_group_upserts_keep_exactly_one_configuration() {
    let mut pad = DatabaseViewRevisionPad::new();
    assert!(pad.insert_or_update_group_configuration(group("f1", 4, "one")).is_some());
    assert!(pad.insert_or_update_group_configuration(group("f1", 4, "two")).is_some());
    assert!(pad.insert_or_update_group_configuration(group("f1", 4, "three")).is_some());
    // an identical upsert is a no-op and produces no changeset
    assert!(pad.insert_or_update_group_configuration(group("f1", 4, "three")).is_none());

    let groups = pad.get_all_groups();
    assert_eq!(groups.len(), 1);
    assert_eq!(groups[0].content, b"three".to_vec());

    let retrieved = get_configuration(&pad).unwrap();
    assert_eq!(retrieved.content, b"three".to_vec());
}

#[test]
fn no_op_mutations_produce_no_changeset() {
    let mut pad = DatabaseViewRevisionPad::new();
    assert!(pad.set_layout(LayoutRevision::Grid).is_none());
    assert!(pad.set_layout(LayoutRevision::Board).is_some());
    assert!(pad.set_layout(LayoutRevision::Board).is_none());

    let f = filter("f1", 3, "x>1");
    assert!(pad.insert_or_update_filter(f).is_some());
    assert!(pad.insert_or_update_filter(filter("f1", 3, "x>1")).is_none());
    assert!(pad.insert_or_update_sort(sort("f1", 3, 0)).is_some());
    assert!(pad.insert_or_update_sort(sort("f1", 3, 0)).is_none());
}

#[test]
fn delegates_read_the_single_entry_for_a_key() {
    let mut pad = DatabaseViewRevisionPad::new();
    pad.insert_or_update_filter(filter("f1", 3, "old"));
    pad.insert_or_update_filter(filter("f1", 3, "new"));
    pad.insert_or_update_sort(sort("f2", 0, 1));

    let got = get_filter_rev(
        &pad,
        &FilterType { field_id: b"f1".to_vec(), field_type: 3 },
    )
    .unwrap();
    assert_eq!(got.content, b"new".to_vec());
    assert!(get_filter_rev(&pad, &FilterType { field_id: b"f1".to_vec(), field_type: 9 }).is_none());

    let s = get_sort_rev(&pad, &SortType { field_id: b"f2".to_vec(), field_type: 0 }).unwrap();
    assert_eq!(s.condition, 1);
    assert!(get_sort_rev(&pad, &SortType { field_id: b"zz".to_vec(), field_type: 0 }).is_none());
}

#[test]
fn filtered_out_row_never_reaches_the_sort() {
    let rows = vec![
        RowRevision { id: b"a".to_vec() },
        RowRevision { id: b"x".to_vec() },
        RowRevision { id: b"b".to_vec() },
    ];
    let excluded = vec![b"x".to_vec()];
    let got = get_row_revs(rows, &excluded);
    assert_eq!(got.len(), 2);
    assert_eq!(got[0].id, b"a".to_vec());
    assert_eq!(got[1].id, b"b".to_vec());
    assert!(got.iter().all(|r| r.id != b"x".to_vec()));
}

#[test]
fn empty_remote_fetch_returns_no_revisions_and_no_error() {
    let cloud = DatabaseViewRevisionCloudService::new(b"token".to_vec());
    let fetched = cloud.fetch_object(&b"user-1".to_vec(), &b"v1".to_vec());
    assert!(fetched.is_ok());
    assert!(fetched.unwrap().is_empty());
    let fetched2 = cloud.fetch_object(&b"user-2".to_vec(), &b"another".to_vec());
    assert!(fetched2.unwrap().is_empty());
}

#[test]
fn saved_configuration_is_committed_as_a_sync_revision() {
    let mut pad = DatabaseViewRevisionPad::new();
    let mut manager = RevisionManager::new(b"v1".to_vec());
    save_configuration(&mut pad, &mut manager, group("f1", 4, "by-status")).unwrap();
    assert_eq!(manager.rev_id, 1);

    let stored = manager
        .persistence
        .read_revision_records(&b"v1".to_vec(), None)
        .unwrap();
    assert_eq!(stored.len(), 1);
    assert_eq!(stored[0].revision.rev_id, 1);
    assert_eq!(stored[0].revision.base_rev_id, 0);
    assert_eq!(stored[0].state, view_rev_sync::revision::RevisionState::Sync);

    // replaying the committed log rebuilds the configuration
    let revs = stored.into_iter().map(|r| r.revision).collect::<Vec<_>>();
    let rebuilt = DatabaseViewRevisionSerde::deserialize_revisions(&b"v1".to_vec(), revs).unwrap();
    let g = get_configuration(&rebuilt).unwrap();
    assert_eq!(g.content, b"by-status".to_vec());

    // saving the identical configuration again commits nothing
    save_configuration(&mut pad, &mut manager, group("f1", 4, "by-status")).unwrap();
    assert_eq!(manager.rev_id, 1);
}

#[test]
fn empty_changeset_payload_is_rejected() {
    let mut manager = RevisionManager::new(b"v1".to_vec());
    let r = apply_change(
        &mut manager,
        DatabaseViewRevisionChangeset { operations: Vec::new(), md5: Vec::new() },
    );
    assert_eq!(r.err(), Some(SyncError::Serialization));
    assert_eq!(manager.rev_id, 0);
}

#[test]
fn view_setting_restricts_to_valid_fields_and_calendar_payload() {
    let mut pad = DatabaseViewRevisionPad::new();
    pad.set_layout(LayoutRevision::Calendar);
    pad.upsert_layout_setting(CalendarLayoutSetting {
        layout_field_id: b"due".to_vec(),
        first_day_of_week: 0,
        show_weekends: false,
    });
    pad.insert_or_update_filter(filter("f1", 3, "kept"));
    pad.insert_or_update_filter(filter("gone", 3, "dropped"));
    pad.insert_or_update_sort(sort("f1", 3, 1));
    pad.insert_or_update_group_configuration(group("gone", 4, "dropped"));

    let fields = vec![FieldRevision { id: b"f1".to_vec(), field_type: 3 }];
    let setting = make_database_view_setting(&pad, &fields);

    assert_eq!(setting.current_layout, LayoutRevision::Calendar);
    assert_eq!(
        setting.layout_setting.as_ref().unwrap().layout_field_id,
        b"due".to_vec()
    );
    assert_eq!(setting.filters.len(), 1);
    assert_eq!(setting.filters[0].content, b"kept".to_vec());
    assert_eq!(setting.sorts.len(), 1);
    assert!(setting.group_configurations.is_empty());

    // on a non-calendar layout the payload never surfaces
    let mut grid_pad = DatabaseViewRevisionPad::new();
    grid_pad.upsert_layout_setting(CalendarLayoutSetting {
        layout_field_id: b"due".to_vec(),
        first_day_of_week: 0,
        show_weekends: false,
    });
    let grid_setting = make_database_view_setting(&grid_pad, &fields);
    assert_eq!(grid_setting.current_layout, LayoutRevision::Grid);
    assert!(grid_setting.layout_setting.is_none());
}

#[test]
fn error_kinds_are_distinct() {
    assert_ne!(SyncError::Storage, SyncError::Serialization);
    assert_ne!(SyncError::Transport, SyncError::InvariantViolation);
    assert_ne!(SyncError::Storage, SyncError::Transport);
}
