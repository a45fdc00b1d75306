use prover::changes::WriteOperation;
use prover::codec::{decode_input, encode_input, DecodeError};
use prover::driver::{produce_prover_input, prove, ProveError};
use prover::events::{Event, Relayer};
use prover::execution::{run_replay, run_trial, Answer, Query};
use prover::relayer_recorder::RelayerRecorder;
use prover::replay::ReplayStorage;
use prover::storage::{InMemoryStorage, StorageError};
use prover::storage_access_recorder::StorageAccessRecorder;
use prover::witness::{Block, Input};
use sha2::Digest;

const ACCOUNTS: u32 = 1;

fn sample_store() -> InMemoryStorage {
    let mut store = InMemoryStorage::new();
    store.insert(ACCOUNTS, vec![0x01], vec![0xAA, 0xBB]);
    store
}

fn sample_source() -> Relayer {
    let mut source = Relayer::new();
    source.add_event(7, vec![Event { payload: vec![0xEE] }]);
    source
}

fn sample_script() -> Vec<Query> {
    vec![
        Query::StorageRead { column: ACCOUNTS, key: vec![0x01] },
        Query::StorageRead { column: ACCOUNTS, key: vec![0x02] },
        Query::EventLookup { height: 5 },
        Query::EventLookup { height: 7 },
    ]
}

fn sample_package() -> (Input, Vec<Answer>) {
    let mut storage = StorageAccessRecorder::new(sample_store());
    let mut relayer = RelayerRecorder::new(sample_source());
    let script = sample_script();
    let answers = run_trial(&script, &mut storage, &mut relayer);
    let block = Block { bytes: vec![0x10, 0x20, 0x30] };
    (produce_prover_input(block, storage, relayer), answers)
}

#[test]
fn trial_scenario_exports_expected_witness() {
    let (input, answers) = sample_package();
    // The trial answers are exactly what the real store and source hold.
    assert_eq!(answers.len(), 4);
    assert_eq!(answers[0], Answer::Value(Some(vec![0xAA, 0xBB])));
    assert_eq!(answers[1], Answer::Value(None));
    assert_eq!(answers[2], Answer::Events(Vec::new()));
    assert_eq!(answers[3], Answer::Events(vec![Event { payload: vec![0xEE] }]));
    // The exported change-set holds the value and the explicit absence.
    assert_eq!(
        input.storage.lookup(ACCOUNTS, &vec![0x01]),
        Some(WriteOperation::Insert(vec![0xAA, 0xBB]))
    );
    assert_eq!(input.storage.lookup(ACCOUNTS, &vec![0x02]), Some(WriteOperation::Remove));
    // The exported mapping holds both queried heights, the empty one too.
    assert!(input.relayer.contains(5));
    assert_eq!(input.relayer.get_events(5).len(), 0);
    assert_eq!(input.relayer.get_events(7), vec![Event { payload: vec![0xEE] }]);
}

#[test]
fn replay_reproduces_trial_answers() {
    let (input, trial_answers) = sample_package();
    let script = sample_script();
    let replay_storage = ReplayStorage::new(input.storage);
    let replay_answers = run_replay(&script, &replay_storage, &input.relayer).unwrap();
    assert_eq!(replay_answers, trial_answers);
}

#[test]
fn replay_of_uncovered_read_fails_fast() {
    let (input, _) = sample_package();
    let mut script = sample_script();
    script.push(Query::StorageRead { column: ACCOUNTS, key: vec![0x03] });
    let replay_storage = ReplayStorage::new(input.storage);
    let result = run_replay(&script, &replay_storage, &input.relayer);
    assert_eq!(result, Err(StorageError::WitnessIncomplete));
}

#[test]
fn encoding_round_trips() {
    let (input, _) = sample_package();
    let bytes = encode_input(&input);
    let decoded = decode_input(&bytes).unwrap();
    assert_eq!(decoded, input);
}

#[test]
fn empty_package_round_trips() {
    let input = Input {
        block: Block { bytes: Vec::new() },
        storage: prover::changes::ChangeSet::new(),
        relayer: Relayer::new(),
    };
    let bytes = encode_input(&input);
    let decoded = decode_input(&bytes).unwrap();
    assert_eq!(decoded, input);
}

#[test]
fn encoding_is_deterministic() {
    let (input, _) = sample_package();
    let first = encode_input(&input);
    let second = encode_input(&input);
    assert_eq!(first, second);
}

#[test]
fn decoder_rejects_garbage() {
    assert_eq!(decode_input(&vec![0xFF, 0x00, 0x01]), Err(DecodeError::Malformed));
}

#[test]
fn decoder_rejects_truncation_and_trailing_bytes() {
    let (input, _) = sample_package();
    let bytes = encode_input(&input);
    let mut truncated = bytes.clone();
    truncated.pop();
    assert_eq!(decode_input(&truncated), Err(DecodeError::Malformed));
    let mut extended = bytes.clone();
    extended.push(0x00);
    assert_eq!(decode_input(&extended), Err(DecodeError::Malformed));
}

#[test]
fn prove_derives_both_commitments() {
    let (input, _) = sample_package();
    let block_bytes = input.block.bytes.clone();
    let bytes = encode_input(&input);
    let script = sample_script();
    let proof = prove(&bytes, &script).unwrap();
    let expected_input_hash = sha2::Sha256::digest(bytes.as_slice()).to_vec();
    let expected_block_id = sha2::Sha256::digest(block_bytes.as_slice()).to_vec();
    assert_eq!(proof.input_hash, expected_input_hash);
    assert_eq!(proof.block_id, expected_block_id);
    assert_eq!(proof.input_hash.len(), 32);
    assert_eq!(proof.block_id.len(), 32);
}

#[test]
fn prove_is_stable_across_runs() {
    let (input, _) = sample_package();
    let bytes = encode_input(&input);
    let script = sample_script();
    let first = prove(&bytes, &script).unwrap();
    let second = prove(&bytes, &script).unwrap();
    assert_eq!(first, second);
}

#[test]
fn prove_rejects_malformed_bytes() {
    let script = sample_script();
    assert_eq!(prove(&vec![0x00, 0x01], &script), Err(ProveError::Decode));
}

#[test]
fn prove_rejects_incomplete_witness() {
    let (input, _) = sample_package();
    let bytes = encode_input(&input);
    let mut script = sample_script();
    script.push(Query::StorageRead { column: ACCOUNTS, key: vec![0x03] });
    assert_eq!(prove(&bytes, &script), Err(ProveError::WitnessIncomplete));
}

#[test]
fn prover_can_verify() {
    let (input, _) = sample_package();
    let block_id: Vec<u8> = input.block.id();
    assert_eq!(block_id.len(), 32);
    let serialized_input = encode_input(&input);
    let script = sample_script();
    let proof = prove(&serialized_input, &script).unwrap();
    assert_eq!(proof.block_id, block_id);
}
