use view_rev_sync::revision::{Revision, RevisionChangeset, RevisionRange, RevisionState, SyncRecord};
use view_rev_sync::store::{
    state_from_i32, state_to_i32, DatabaseRevisionPersistence, DatabaseRevisionState,
    DatabaseRevisionTable,
};

fn record(object_id: &str, base: i64, rev: i64, data: &[u8], state: RevisionState) -> SyncRecord {
    SyncRecord {
        revision: Revision {
            object_id: object_id.as_bytes().to_vec(),
            base_rev_id: base,
            rev_id: rev,
            bytes: data.to_vec(),
            checksum: Vec::new(),
        },
        state,
        write_to_disk: true,
    }
}

fn rev_ids(records: &[SyncRecord]) -> Vec<i64> {
    records.iter().map(|r| r.revision.rev_id).collect()
}

#[test]
fn read_returns_revisions_in_ascending_order() {
    let mut store = DatabaseRevisionPersistence::new();
    let records = vec![
        record("v1", 2, 3, b"c", RevisionState::Sync),
        record("v1", 0, 1, b"a", RevisionState::Sync),
        record("v2", 0, 7, b"x", RevisionState::Sync),
        record("v1", 1, 2, b"b", RevisionState::Sync),
    ];
    store.create_revision_records(records).unwrap();
    let got = store
        .read_revision_records(&b"v1".to_vec(), None)
        .unwrap();
    assert_eq!(rev_ids(&got), vec![1, 2, 3]);
    let got2 = store
        .read_revision_records(&b"v2".to_vec(), None)
        .unwrap();
    assert_eq!(rev_ids(&got2), vec![7]);
}

#[test]
fn create_twice_is_idempotent() {
    let batch = || {
        vec![
            record("v1", 0, 1, b"a", RevisionState::Sync),
            record("v1", 1, 2, b"b", RevisionState::Ack),
        ]
    };
    let mut store = DatabaseRevisionPersistence::new();
    store.create_revision_records(batch()).unwrap();
    let before = store.read_revision_records(&b"v1".to_vec(), None).unwrap();
    store.create_revision_records(batch()).unwrap();
    let after = store.read_revision_records(&b"v1".to_vec(), None).unwrap();
    assert_eq!(before.len(), after.len());
    for (x, y) in before.iter().zip(after.iter()) {
        assert_eq!(x.revision.rev_id, y.revision.rev_id);
        assert_eq!(x.revision.base_rev_id, y.revision.base_rev_id);
        assert_eq!(x.revision.bytes, y.revision.bytes);
        assert_eq!(x.revision.checksum, y.revision.checksum);
        assert_eq!(x.state, y.state);
    }
}

#[test]
fn insert_does_not_overwrite_existing_rows() {
    let mut store = DatabaseRevisionPersistence::new();
    store
        .create_revision_records(vec![record("v1", 0, 1, b"first", RevisionState::Sync)])
        .unwrap();
    store
        .create_revision_records(vec![record("v1", 0, 1, b"second", RevisionState::Sync)])
        .unwrap();
    let got = store.read_revision_records(&b"v1".to_vec(), None).unwrap();
    assert_eq!(got.len(), 1);
    assert_eq!(got[0].revision.bytes, b"first".to_vec());
}

#[test]
fn delete_and_replace_shows_old_or_new_state_never_a_mix() {
    let seed = || {
        vec![
            record("v1", 0, 1, b"a", RevisionState::Sync),
            record("v1", 1, 2, b"b", RevisionState::Sync),
            record("v1", 2, 3, b"c", RevisionState::Sync),
        ]
    };
    let compacted = record("v1", 0, 4, b"ab-compacted", RevisionState::Sync);

    // The pre-call state: nothing replaced yet.
    let mut before = DatabaseRevisionPersistence::new();
    before.create_revision_records(seed()).unwrap();
    assert_eq!(
        rev_ids(&before.read_revision_records(&b"v1".to_vec(), None).unwrap()),
        vec![1, 2, 3]
    );

    // The post-call state: the single atomic call applied both halves.
    let mut after = DatabaseRevisionPersistence::new();
    after.create_revision_records(seed()).unwrap();
    after
        .delete_and_insert_records(&b"v1".to_vec(), Some(vec![1, 2]), vec![compacted])
        .unwrap();
    assert_eq!(
        rev_ids(&after.read_revision_records(&b"v1".to_vec(), None).unwrap()),
        vec![3, 4]
    );

    // The same composition performed as two separate calls lands on the same
    // state the atomic call produced: there is no third, mixed outcome.
    let mut two_steps = DatabaseRevisionPersistence::new();
    two_steps.create_revision_records(seed()).unwrap();
    two_steps
        .delete_revision_records(&b"v1".to_vec(), Some(vec![1, 2]))
        .unwrap();
    two_steps
        .create_revision_records(vec![record("v1", 0, 4, b"ab-compacted", RevisionState::Sync)])
        .unwrap();
    let a = after.read_revision_records(&b"v1".to_vec(), None).unwrap();
    let b = two_steps.read_revision_records(&b"v1".to_vec(), None).unwrap();
    assert_eq!(rev_ids(&a), rev_ids(&b));
    for (x, y) in a.iter().zip(b.iter()) {
        assert_eq!(x.revision.bytes, y.revision.bytes);
        assert_eq!(x.state, y.state);
    }
}

#[test]
fn state_moves_only_from_sync_to_ack() {
    let mut store = DatabaseRevisionPersistence::new();
    store
        .create_revision_records(vec![record("v1", 0, 1, b"a", RevisionState::Sync)])
        .unwrap();
    store
        .update_revision_record(vec![RevisionChangeset {
            object_id: b"v1".to_vec(),
            rev_id: 1,
            state: RevisionState::Ack,
        }])
        .unwrap();
    let got = store.read_revision_records(&b"v1".to_vec(), None).unwrap();
    assert_eq!(got[0].state, RevisionState::Ack);

    // A demotion back to Sync is ignored: Ack is never reversed.
    store
        .update_revision_record(vec![RevisionChangeset {
            object_id: b"v1".to_vec(),
            rev_id: 1,
            state: RevisionState::Sync,
        }])
        .unwrap();
    let got = store.read_revision_records(&b"v1".to_vec(), None).unwrap();
    assert_eq!(got[0].state, RevisionState::Ack);
}

#[test]
fn scenario_range_read_then_partial_ack() {
    let mut store = DatabaseRevisionPersistence::new();
    store
        .create_revision_records(vec![
            record("v1", 0, 1, b"a", RevisionState::Sync),
            record("v1", 1, 2, b"b", RevisionState::Sync),
            record("v1", 2, 3, b"c", RevisionState::Sync),
        ])
        .unwrap();

    let ranged = store
        .read_revision_records_with_range(&b"v1".to_vec(), &RevisionRange { start: 1, end: 2 })
        .unwrap();
    assert_eq!(rev_ids(&ranged), vec![1, 2]);

    store
        .update_revision_record(vec![
            RevisionChangeset { object_id: b"v1".to_vec(), rev_id: 1, state: RevisionState::Ack },
            RevisionChangeset { object_id: b"v1".to_vec(), rev_id: 2, state: RevisionState::Ack },
        ])
        .unwrap();

    let acked = store
        .read_revision_records(&b"v1".to_vec(), Some(vec![1, 2]))
        .unwrap();
    assert_eq!(rev_ids(&acked), vec![1, 2]);
    assert_eq!(acked[0].state, RevisionState::Ack);
    assert_eq!(acked[1].state, RevisionState::Ack);

    let all = store.read_revision_records(&b"v1".to_vec(), None).unwrap();
    assert_eq!(all[2].revision.rev_id, 3);
    assert_eq!(all[2].state, RevisionState::Sync);
}

#[test]
fn delete_whole_object_log() {
    let mut store = DatabaseRevisionPersistence::new();
    store
        .create_revision_records(vec![
            record("v1", 0, 1, b"a", RevisionState::Sync),
            record("v2", 0, 1, b"z", RevisionState::Sync),
        ])
        .unwrap();
    store.delete_revision_records(&b"v1".to_vec(), None).unwrap();
    assert!(store.read_revision_records(&b"v1".to_vec(), None).unwrap().is_empty());
    assert_eq!(
        rev_ids(&store.read_revision_records(&b"v2".to_vec(), None).unwrap()),
        vec![1]
    );
}

#[test]
fn read_recomputes_the_content_checksum() {
    let mut store = DatabaseRevisionPersistence::new();
    store
        .create_revision_records(vec![record("v1", 0, 1, b"abc", RevisionState::Sync)])
        .unwrap();
    let got = store.read_revision_records(&b"v1".to_vec(), None).unwrap();
    assert_eq!(
        got[0].revision.checksum,
        b"900150983cd24fb0d6963f7d28e17f72".to_vec()
    );
    assert!(!got[0].write_to_disk);
}

#[test]
fn storage_state_integer_mapping_is_bidirectional() {
    assert_eq!(state_to_i32(DatabaseRevisionState::Sync), 0);
    assert_eq!(state_to_i32(DatabaseRevisionState::Ack), 1);
    assert_eq!(state_from_i32(0), Some(DatabaseRevisionState::Sync));
    assert_eq!(state_from_i32(1), Some(DatabaseRevisionState::Ack));
    assert_eq!(state_from_i32(2), None);
    assert_eq!(state_from_i32(-1), None);
    assert_eq!(DatabaseRevisionState::default(), DatabaseRevisionState::Sync);
    assert_eq!(RevisionState::default(), RevisionState::Sync);
    let _ = DatabaseRevisionTable {
        object_id: b"v1".to_vec(),
        base_rev_id: 0,
        rev_id: 1,
        data: b"a".to_vec(),
        state: DatabaseRevisionState::default(),
    };
}
