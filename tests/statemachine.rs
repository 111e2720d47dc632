use paenkodb::document::Document;
use paenkodb::message::Message;
use paenkodb::statemachine::{DocumentStateMachine, StateMachineError};

fn setup() -> DocumentStateMachine {
    DocumentStateMachine::new("tmp")
}

fn sample() -> Document {
    Document::new(vec![0u8, 1, 2, 3, 4, 5, 6, 7, 8, 9, 10])
}

#[test]
fn statemachine_test_get() {
    let mut statemachine = setup();
    let document = sample();
    let msg = Message::Post(document.clone());

    statemachine.apply(&msg.encode()).unwrap();

    let msg = Message::Get(document.id);

    let raw_document = statemachine.query(&msg.encode()).unwrap();
    let get_document = Document::decode(&raw_document).unwrap();

    assert_eq!(document, get_document);
}

#[test]
fn statemachine_test_post() {
    let mut statemachine = setup();
    let document = sample();
    let msg = Message::Post(document.clone());

    let applied = statemachine.apply(&msg.encode()).unwrap();

    let document_applied = Document::decode(applied.as_slice()).unwrap();

    assert_eq!(document, document_applied);
}

#[test]
fn statemachine_test_put() {
    let mut statemachine = setup();
    let mut payload = vec![0u8, 1, 2, 3, 4, 5, 6, 7, 8, 9, 10];
    let mut document = Document::new(payload.clone());
    let msg = Message::Post(document.clone());

    statemachine.apply(&msg.encode()).unwrap();
    document.payload.reverse();

    payload.reverse();
    let msg = Message::Put(document.id, payload.clone());

    let applied = statemachine.apply(&msg.encode()).unwrap();

    let document_applied = Document::decode(applied.as_slice()).unwrap();

    assert_eq!(document.payload, document_applied.payload);
    assert_eq!(document_applied.version, 1);
}

#[test]
#[should_panic(expected = "NotFound")]
fn statemachine_test_remove() {
    let mut statemachine = setup();
    let document = sample();
    let msg = Message::Post(document.clone());

    statemachine.apply(&msg.encode()).unwrap();

    let msg = Message::Remove(document.id);
    statemachine.apply(&msg.encode()).unwrap();

    let msg = Message::Get(document.id);
    statemachine.query(&msg.encode()).unwrap();
}

#[test]
fn test_revert_post() {
    let mut statemachine = setup();

    let document = sample();
    let msg = Message::Post(document.clone());

    statemachine.apply(&msg.encode()).unwrap();

    statemachine.revert(&msg.encode()).unwrap();

    assert!(!statemachine.has_document(&document.id));
}

#[test]
fn test_revert_put() {
    let mut statemachine = setup();

    let document = sample();
    let msg = Message::Post(document.clone());

    statemachine.apply(&msg.encode()).unwrap();

    let mut new_payload = document.payload.clone();

    new_payload.reverse();

    let msg = Message::Put(document.id, new_payload.clone());

    statemachine.apply(&msg.encode()).unwrap();

    let fetched = statemachine.query(&Message::Get(document.id).encode()).unwrap();
    let fetched = Document::decode(&fetched).unwrap();

    assert_eq!(new_payload, fetched.payload);

    statemachine.revert(&msg.encode()).unwrap();

    let fetched = statemachine.query(&Message::Get(document.id).encode()).unwrap();
    let fetched = Document::decode(&fetched).unwrap();

    assert_eq!(vec![0u8, 1, 2, 3, 4, 5, 6, 7, 8, 9, 10], fetched.payload);
}

#[test]
fn test_revert_remove() {
    let mut statemachine = setup();

    let document = sample();
    let msg = Message::Post(document.clone());

    statemachine.apply(&msg.encode()).unwrap();

    let msg = Message::Remove(document.id);

    statemachine.apply(&msg.encode()).unwrap();

    assert!(!statemachine.has_document(&document.id));

    statemachine.revert(&msg.encode()).unwrap();

    assert!(statemachine.has_document(&document.id));
}

#[test]
fn new_document_has_version_zero() {
    let document = Document::new(vec![7u8, 8]);
    assert_eq!(document.version, 0);
    assert_eq!(document.payload, vec![7u8, 8]);
    let other = Document::new(vec![7u8, 8]);
    assert_ne!(document.id, other.id);
}

#[test]
fn put_on_absent_document_is_not_found() {
    let mut statemachine = setup();
    let msg = Message::Put(42, vec![1u8]);
    assert_eq!(statemachine.apply(&msg.encode()), Err(StateMachineError::NotFound));
    assert!(statemachine.get_documents().is_empty());
}

#[test]
fn remove_on_absent_document_is_not_found() {
    let mut statemachine = setup();
    let msg = Message::Remove(42);
    assert_eq!(statemachine.apply(&msg.encode()), Err(StateMachineError::NotFound));
}

#[test]
fn query_takes_only_get() {
    let mut statemachine = setup();
    let document = sample();
    let post = Message::Post(document.clone());
    statemachine.apply(&post.encode()).unwrap();

    assert_eq!(statemachine.query(&post.encode()), Err(StateMachineError::InvalidOperation));
    let put = Message::Put(document.id, vec![1u8]);
    assert_eq!(statemachine.query(&put.encode()), Err(StateMachineError::InvalidOperation));
    let remove = Message::Remove(document.id);
    assert_eq!(statemachine.query(&remove.encode()), Err(StateMachineError::InvalidOperation));
    assert!(statemachine.has_document(&document.id));
}

#[test]
fn get_cannot_be_reverted() {
    let mut statemachine = setup();
    let document = sample();
    statemachine.apply(&Message::Post(document.clone()).encode()).unwrap();
    let get = Message::Get(document.id);
    assert_eq!(statemachine.revert(&get.encode()), Err(StateMachineError::InvalidOperation));
    assert!(statemachine.has_document(&document.id));
}

#[test]
fn apply_of_get_answers_the_query() {
    let mut statemachine = setup();
    let document = sample();
    statemachine.apply(&Message::Post(document.clone()).encode()).unwrap();
    let answer = statemachine.apply(&Message::Get(document.id).encode()).unwrap();
    assert_eq!(Document::decode(&answer).unwrap(), document);
    assert_eq!(statemachine.apply(&Message::Get(5).encode()), Err(StateMachineError::NotFound));
}

#[test]
fn undecodable_bytes_are_refused() {
    let mut statemachine = setup();
    assert_eq!(statemachine.apply(&[9u8, 1, 2]), Err(StateMachineError::Deserialization));
    assert_eq!(statemachine.apply(&[]), Err(StateMachineError::Deserialization));
    assert_eq!(statemachine.query(&[0u8, 1]), Err(StateMachineError::Deserialization));
    assert_eq!(statemachine.revert(&[3u8]), Err(StateMachineError::Deserialization));
}

#[test]
fn restore_of_corrupt_snapshot_gives_empty_collection() {
    let mut statemachine = setup();
    statemachine.apply(&Message::Post(sample()).encode()).unwrap();
    statemachine.restore_snapshot(vec![1u8, 2, 3]);
    assert!(statemachine.get_documents().is_empty());
    statemachine.apply(&Message::Post(sample()).encode()).unwrap();
    statemachine.restore_snapshot(Vec::new());
    assert!(statemachine.get_documents().is_empty());
}

#[test]
fn restore_of_snapshot_with_repeated_ids_gives_empty_collection() {
    let mut statemachine = setup();
    let document = sample();
    statemachine.apply(&Message::Post(document.clone()).encode()).unwrap();
    let mut bytes = statemachine.snapshot();
    bytes[0] = 2;
    bytes.extend_from_slice(&document.encode());
    statemachine.restore_snapshot(bytes);
    assert!(statemachine.get_documents().is_empty());
}

#[test]
fn snapshot_restores_the_collection() {
    let mut statemachine = setup();
    let first = sample();
    let second = Document::new(vec![]);
    statemachine.apply(&Message::Post(first.clone()).encode()).unwrap();
    statemachine.apply(&Message::Post(second.clone()).encode()).unwrap();
    let bytes = statemachine.snapshot();

    let mut restored = DocumentStateMachine::new("other");
    restored.restore_snapshot(bytes);
    let mut ids = restored.get_documents();
    ids.sort();
    let mut expected = vec![first.id, second.id];
    expected.sort();
    assert_eq!(ids, expected);
    let fetched = restored.query(&Message::Get(second.id).encode()).unwrap();
    assert_eq!(Document::decode(&fetched).unwrap(), second);
}

#[test]
fn snapshot_of_empty_collection_is_a_zero_count() {
    let statemachine = setup();
    assert_eq!(statemachine.snapshot(), vec![0u8; 8]);
}

#[test]
fn put_increments_version_each_time() {
    let mut statemachine = setup();
    let document = sample();
    statemachine.apply(&Message::Post(document.clone()).encode()).unwrap();
    for round in 1..=3usize {
        let applied = statemachine.apply(&Message::Put(document.id, vec![round as u8]).encode()).unwrap();
        let updated = Document::decode(&applied).unwrap();
        assert_eq!(updated.version, round);
        assert_eq!(updated.payload, vec![round as u8]);
    }
}

#[test]
fn put_at_largest_version_is_refused() {
    let mut statemachine = setup();
    let mut document = sample();
    document.version = usize::MAX;
    statemachine.apply(&Message::Post(document.clone()).encode()).unwrap();
    let put = Message::Put(document.id, vec![1u8]);
    assert_eq!(statemachine.apply(&put.encode()), Err(StateMachineError::InvalidOperation));
    let fetched = statemachine.query(&Message::Get(document.id).encode()).unwrap();
    assert_eq!(Document::decode(&fetched).unwrap(), document);
}

#[test]
fn post_put_revert_scenario() {
    let mut statemachine = setup();
    let payload: Vec<u8> = (0u8..=10).collect();
    let document = Document::new(payload.clone());
    statemachine.apply(&Message::Post(document.clone()).encode()).unwrap();

    let fetched = statemachine.query(&Message::Get(document.id).encode()).unwrap();
    assert_eq!(Document::decode(&fetched).unwrap(), document);

    let mut reversed = payload.clone();
    reversed.reverse();
    let put = Message::Put(document.id, reversed.clone());
    let applied = Document::decode(&statemachine.apply(&put.encode()).unwrap()).unwrap();
    assert_eq!(applied.version, 1);
    assert_eq!(applied.payload, reversed);

    statemachine.revert(&put.encode()).unwrap();
    let fetched = Document::decode(&statemachine.query(&Message::Get(document.id).encode()).unwrap()).unwrap();
    assert_eq!(fetched.payload, payload);
    assert_eq!(fetched.version, 0);
}

#[test]
fn post_remove_revert_scenario() {
    let mut statemachine = setup();
    let document = sample();
    statemachine.apply(&Message::Post(document.clone()).encode()).unwrap();
    let remove = Message::Remove(document.id);
    assert_eq!(statemachine.apply(&remove.encode()), Ok(Vec::new()));
    statemachine.revert(&remove.encode()).unwrap();
    let fetched = statemachine.query(&Message::Get(document.id).encode()).unwrap();
    assert_eq!(Document::decode(&fetched).unwrap(), document);
}

#[test]
fn reverting_in_reverse_order_restores_the_collection() {
    let mut statemachine = setup();
    let kept = Document::new(vec![1u8, 1]);
    statemachine.apply(&Message::Post(kept.clone()).encode()).unwrap();
    statemachine.commit();

    let fresh = Document::new(vec![2u8]);
    let mut overwrite = kept.clone();
    overwrite.payload = vec![9u8];
    let ops = vec![
        Message::Post(fresh.clone()),
        Message::Put(kept.id, vec![3u8, 3]),
        Message::Post(overwrite),
        Message::Put(fresh.id, vec![4u8]),
        Message::Remove(kept.id),
    ];
    for op in &ops {
        statemachine.apply(&op.encode()).unwrap();
    }
    for op in ops.iter().rev() {
        statemachine.revert(&op.encode()).unwrap();
    }
    assert_eq!(statemachine.get_documents(), vec![kept.id]);
    let fetched = statemachine.query(&Message::Get(kept.id).encode()).unwrap();
    assert_eq!(Document::decode(&fetched).unwrap(), kept);
    assert_eq!(statemachine.snapshot(), [vec![1u8, 0, 0, 0, 0, 0, 0, 0], kept.encode()].concat());
}

#[test]
fn rollback_undoes_the_open_transaction_only() {
    let mut statemachine = setup();
    let kept = Document::new(vec![1u8]);
    statemachine.apply(&Message::Post(kept.clone()).encode()).unwrap();
    statemachine.commit();

    let fresh = Document::new(vec![2u8]);
    statemachine.apply(&Message::Post(fresh.clone()).encode()).unwrap();
    statemachine.apply(&Message::Put(kept.id, vec![5u8]).encode()).unwrap();
    statemachine.rollback();

    assert!(!statemachine.has_document(&fresh.id));
    let fetched = Document::decode(&statemachine.query(&Message::Get(kept.id).encode()).unwrap()).unwrap();
    assert_eq!(fetched, kept);

    statemachine.rollback();
    assert!(statemachine.has_document(&kept.id));
}

#[test]
fn revert_without_record_is_not_found() {
    let mut statemachine = setup();
    let document = sample();
    assert_eq!(
        statemachine.revert(&Message::Post(document.clone()).encode()),
        Err(StateMachineError::NotFound)
    );
    statemachine.apply(&Message::Post(document.clone()).encode()).unwrap();
    assert_eq!(
        statemachine.revert(&Message::Remove(document.id).encode()),
        Err(StateMachineError::NotFound)
    );
    assert!(statemachine.has_document(&document.id));
}

#[test]
fn undo_log_survives_a_restart() {
    let mut statemachine = setup();
    let kept = Document::new(vec![1u8]);
    statemachine.apply(&Message::Post(kept.clone()).encode()).unwrap();
    statemachine.commit();
    let fresh = Document::new(vec![2u8]);
    statemachine.apply(&Message::Post(fresh.clone()).encode()).unwrap();
    statemachine.apply(&Message::Put(kept.id, vec![3u8]).encode()).unwrap();

    let map = statemachine.snapshot();
    let log = statemachine.snapshot_log();
    assert_eq!(&log[..16], &[2u8, 0, 0, 0, 0, 0, 0, 0, 3, 0, 0, 0, 0, 0, 0, 0]);

    let mut restarted = DocumentStateMachine::new("tmp");
    restarted.restore_snapshot(map);
    restarted.restore_snapshot_log(log);
    assert_eq!(restarted.snapshot_log(), statemachine.snapshot_log());
    restarted.rollback();
    assert!(!restarted.has_document(&fresh.id));
    let fetched = Document::decode(&restarted.query(&Message::Get(kept.id).encode()).unwrap()).unwrap();
    assert_eq!(fetched, kept);
}

#[test]
fn corrupt_undo_log_gives_no_records() {
    let mut statemachine = setup();
    let document = sample();
    statemachine.apply(&Message::Post(document.clone()).encode()).unwrap();
    statemachine.restore_snapshot_log(vec![5u8; 20]);
    assert_eq!(statemachine.snapshot_log(), vec![0u8; 16]);
    assert_eq!(
        statemachine.revert(&Message::Post(document.clone()).encode()),
        Err(StateMachineError::NotFound)
    );
    assert!(statemachine.has_document(&document.id));
}

#[test]
fn record_bytes_are_exact() {
    let mut statemachine = setup();
    let document = Document { id: 9, payload: vec![4u8], version: 2 };
    statemachine.apply(&Message::Post(document.clone()).encode()).unwrap();
    statemachine.apply(&Message::Remove(9).encode()).unwrap();
    let log = statemachine.snapshot_log();
    let mut expected = vec![2u8, 0, 0, 0, 0, 0, 0, 0, 2, 0, 0, 0, 0, 0, 0, 0];
    expected.push(9);
    expected.extend_from_slice(&[0u8; 15]);
    expected.extend_from_slice(&[2u8, 0]);
    expected.push(9);
    expected.extend_from_slice(&[0u8; 15]);
    expected.extend_from_slice(&[3u8, 1, 1, 0, 0, 0, 0, 0, 0, 0, 4, 2, 0, 0, 0, 0, 0, 0, 0]);
    assert_eq!(log, expected);
}
