use view_rev_sync::ops::{decode_operations, encode_operations, ViewOperation};
use view_rev_sync::pad::{
    CalendarLayoutSetting, FilterRevision, GroupConfigurationRevision, LayoutRevision,
    SortRevision,
};

#[test]
fn operations_round_trip_through_the_wire_encoding() {
    let ops = vec![
        ViewOperation::SetLayout { layout: LayoutRevision::Board },
        ViewOperation::UpsertCalendarSetting {
            setting: CalendarLayoutSetting {
                layout_field_id: b"due-date".to_vec(),
                first_day_of_week: 1,
                show_weekends: true,
            },
        },
        ViewOperation::UpsertFilter {
            filter: FilterRevision {
                id: b"flt-1".to_vec(),
                field_id: b"f1".to_vec(),
                field_type: 3,
                condition: 2,
                content: b"x > 1".to_vec(),
            },
        },
        ViewOperation::UpsertSort {
            sort: SortRevision {
                id: b"srt-1".to_vec(),
                field_id: b"f2".to_vec(),
                field_type: 0,
                condition: 1,
            },
        },
        ViewOperation::UpsertGroup {
            group: GroupConfigurationRevision {
                id: b"grp-1".to_vec(),
                field_id: b"f3".to_vec(),
                field_type: 4,
                content: b"by-status".to_vec(),
            },
        },
    ];
    let bytes = encode_operations(&ops);
    let decoded = decode_operations(&bytes, 0).expect("well-formed payload decodes");
    assert_eq!(decoded.len(), 5);
    match &decoded[0] {
        ViewOperation::SetLayout { layout } => assert_eq!(*layout, LayoutRevision::Board),
        _ => panic!("wrong operation kind"),
    }
    match &decoded[1] {
        ViewOperation::UpsertCalendarSetting { setting } => {
            assert_eq!(setting.layout_field_id, b"due-date".to_vec());
            assert_eq!(setting.first_day_of_week, 1);
            assert!(setting.show_weekends);
        },
        _ => panic!("wrong operation kind"),
    }
    match &decoded[2] {
        ViewOperation::UpsertFilter { filter } => {
            assert_eq!(filter.id, b"flt-1".to_vec());
            assert_eq!(filter.field_id, b"f1".to_vec());
            assert_eq!(filter.field_type, 3);
            assert_eq!(filter.condition, 2);
            assert_eq!(filter.content, b"x > 1".to_vec());
        },
        _ => panic!("wrong operation kind"),
    }
    match &decoded[3] {
        ViewOperation::UpsertSort { sort } => {
            assert_eq!(sort.id, b"srt-1".to_vec());
            assert_eq!(sort.field_id, b"f2".to_vec());
            assert_eq!(sort.field_type, 0);
            assert_eq!(sort.condition, 1);
        },
        _ => panic!("wrong operation kind"),
    }
    match &decoded[4] {
        ViewOperation::UpsertGroup { group } => {
            assert_eq!(group.id, b"grp-1".to_vec());
            assert_eq!(group.field_id, b"f3".to_vec());
            assert_eq!(group.field_type, 4);
            assert_eq!(group.content, b"by-status".to_vec());
        },
        _ => panic!("wrong operation kind"),
    }
}

#[test]
fn empty_payload_decodes_to_no_operations() {
    let decoded = decode_operations(&Vec::new(), 0).unwrap();
    assert!(decoded.is_empty());
}

#[test]
fn truncated_and_unknown_payloads_do_not_decode() {
    // unknown tag
    assert!(decode_operations(&vec![42], 0).is_none());
    // layout tag with no layout byte
    assert!(decode_operations(&vec![1], 0).is_none());
    // layout byte that encodes no layout
    assert!(decode_operations(&vec![1, 7], 0).is_none());
    // filter tag with a truncated length header
    assert!(decode_operations(&vec![3, 5, 0, 0], 0).is_none());
    // trailing garbage after a valid operation
    let mut bytes = encode_operations(&vec![ViewOperation::SetLayout {
        layout: LayoutRevision::Grid,
    }]);
    bytes.push(9);
    assert!(decode_operations(&bytes, 0).is_none());
}
