use prover::changes::WriteOperation;
use prover::events::{Event, Relayer};
use prover::relayer_recorder::RelayerRecorder;
use prover::replay::ReplayStorage;
use prover::storage::{InMemoryStorage, PanicStorage, StorageError};
use prover::storage_access_recorder::StorageAccessRecorder;

const ACCOUNTS: u32 = 1;

fn sample_store() -> InMemoryStorage {
    let mut store = InMemoryStorage::new();
    store.insert(ACCOUNTS, vec![0x01], vec![0xAA, 0xBB]);
    store
}

#[test]
fn recorder_is_transparent() {
    let mut recorder = StorageAccessRecorder::new(sample_store());
    let hit = recorder.get(&vec![0x01], ACCOUNTS).unwrap();
    assert_eq!(hit, Some(vec![0xAA, 0xBB]));
    let miss = recorder.get(&vec![0x02], ACCOUNTS).unwrap();
    assert_eq!(miss, None);
}

#[test]
fn repeated_reads_are_stable() {
    let mut recorder = StorageAccessRecorder::new(sample_store());
    let first = recorder.get(&vec![0x01], ACCOUNTS).unwrap();
    let second = recorder.get(&vec![0x01], ACCOUNTS).unwrap();
    assert_eq!(first, second);
    let changes = recorder.into_changes();
    assert_eq!(changes.entries.len(), 1);
}

#[test]
fn export_records_presence_and_absence() {
    let mut recorder = StorageAccessRecorder::new(sample_store());
    recorder.get(&vec![0x01], ACCOUNTS).unwrap();
    recorder.get(&vec![0x02], ACCOUNTS).unwrap();
    let changes = recorder.into_changes();
    assert_eq!(
        changes.lookup(ACCOUNTS, &vec![0x01]),
        Some(WriteOperation::Insert(vec![0xAA, 0xBB]))
    );
    // A key read and found absent stands in the record as an explicit
    // `Remove`, not as a missing entry.
    assert_eq!(changes.lookup(ACCOUNTS, &vec![0x02]), Some(WriteOperation::Remove));
    assert_eq!(changes.lookup(ACCOUNTS, &vec![0x03]), None);
}

#[test]
fn exported_changes_are_independent_values() {
    let mut recorder = StorageAccessRecorder::new(sample_store());
    recorder.get(&vec![0x01], ACCOUNTS).unwrap();
    let changes = recorder.into_changes();
    // The export consumed the recorder; the exported value stands on its
    // own and keeps answering the recorded pairs.
    assert_eq!(
        changes.lookup(ACCOUNTS, &vec![0x01]),
        Some(WriteOperation::Insert(vec![0xAA, 0xBB]))
    );
    assert_eq!(changes.entries.len(), 1);
}

#[test]
fn relayer_mapping_keeps_first_list_and_defaults_to_empty() {
    let mut relayer = Relayer::new();
    relayer.add_event(7, vec![Event { payload: vec![0xEE] }]);
    assert!(relayer.enabled());
    assert!(relayer.contains(7));
    assert!(!relayer.contains(5));
    let at7 = relayer.get_events(7);
    assert_eq!(at7.len(), 1);
    assert_eq!(at7[0].payload, vec![0xEE]);
    // An absent height means "no events", never an error.
    assert_eq!(relayer.get_events(5).len(), 0);
}

#[test]
fn relayer_recorder_records_queried_heights_including_empty() {
    let mut source = Relayer::new();
    source.add_event(7, vec![Event { payload: vec![0xEE] }]);
    let mut recorder = RelayerRecorder::new(source);
    assert!(recorder.enabled());
    let at5 = recorder.get_events(5);
    assert_eq!(at5.len(), 0);
    let at7 = recorder.get_events(7);
    assert_eq!(at7.len(), 1);
    let record = recorder.into_prover_relayer();
    // Height 5 was queried and returned nothing; the mapping still holds
    // an entry for it, distinguishing "queried and empty" from "never
    // queried".
    assert!(record.contains(5));
    assert!(record.contains(7));
    assert!(!record.contains(6));
    assert_eq!(record.get_events(7)[0].payload, vec![0xEE]);
}

#[test]
fn relayer_mapping_keeps_the_first_recorded_list() {
    let mut relayer = Relayer::new();
    relayer.add_event(7, vec![Event { payload: vec![0x01] }]);
    relayer.add_event(7, vec![Event { payload: vec![0x02] }]);
    // Within one trial run every list observed for a fixed height is the
    // same; the mapping keeps the first recorded one.
    assert_eq!(relayer.get_events(7), vec![Event { payload: vec![0x01] }]);
    assert_eq!(relayer.entries.len(), 1);
}

#[test]
fn panic_storage_refuses_every_read() {
    let storage = PanicStorage;
    assert_eq!(
        storage.get(&vec![0x01], ACCOUNTS),
        Err(StorageError::WitnessIncomplete)
    );
    assert_eq!(storage.get(&Vec::new(), 0), Err(StorageError::WitnessIncomplete));
}

#[test]
fn replay_storage_answers_from_changes_and_fails_fast_otherwise() {
    let mut recorder = StorageAccessRecorder::new(sample_store());
    recorder.get(&vec![0x01], ACCOUNTS).unwrap();
    recorder.get(&vec![0x02], ACCOUNTS).unwrap();
    let replay = ReplayStorage::new(recorder.into_changes());
    assert_eq!(replay.get(&vec![0x01], ACCOUNTS), Ok(Some(vec![0xAA, 0xBB])));
    // A recorded absence answers as an ordinary "not found".
    assert_eq!(replay.get(&vec![0x02], ACCOUNTS), Ok(None));
    // A pair the witness does not cover reaches the fail-fast base.
    assert_eq!(
        replay.get(&vec![0x03], ACCOUNTS),
        Err(StorageError::WitnessIncomplete)
    );
}
