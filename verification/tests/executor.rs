use replicated_kv::command::Access;
use replicated_kv::command::Command;
use replicated_kv::command::ReadConsistency;
use replicated_kv::response::ErrorKind;
use replicated_kv::response::ResponseEnvelope;
use replicated_kv::storage::ApplyOutcome;
use replicated_kv::storage::LogEntry;
use replicated_kv::storage::Record;
use replicated_kv::storage::StorageExecutor;
use replicated_kv::storage::WriteOp;

fn key(text: &str) -> String {
    text.to_string()
}

fn put(index: u64, k: &str, v: &[u8]) -> LogEntry {
    LogEntry { index, key: key(k), op: WriteOp::Put(v.to_vec()) }
}

fn delete(index: u64, k: &str) -> LogEntry {
    LogEntry { index, key: key(k), op: WriteOp::Delete }
}

#[test]
fn new_executor_is_empty() {
    let executor = StorageExecutor::new();
    assert_eq!(executor.last_applied(), 0);
    assert_eq!(executor.read(&key("k")), None);
    assert_eq!(executor.checkpoint(), (Vec::new(), 0));
}

#[test]
fn write_then_read() {
    let mut executor = StorageExecutor::new();
    let outcome = executor.apply_write(1, key("test_key"), WriteOp::Put(b"test_value".to_vec()));
    assert_eq!(outcome, ApplyOutcome::Applied);
    assert_eq!(executor.last_applied(), 1);
    assert_eq!(executor.read(&key("test_key")), Some(b"test_value".to_vec()));
    assert_eq!(executor.read(&key("other")), None);
}

#[test]
fn later_write_to_a_key_wins() {
    let mut executor = StorageExecutor::new();
    executor.apply_write(1, key("k"), WriteOp::Put(b"v1".to_vec()));
    executor.apply_write(2, key("j"), WriteOp::Put(b"w".to_vec()));
    executor.apply_write(3, key("k"), WriteOp::Put(b"v2".to_vec()));
    assert_eq!(executor.read(&key("k")), Some(b"v2".to_vec()));
    assert_eq!(executor.read(&key("j")), Some(b"w".to_vec()));
    assert_eq!(executor.last_applied(), 3);
}

#[test]
fn delete_removes_the_key_only() {
    let mut executor = StorageExecutor::new();
    executor.apply_write(1, key("a"), WriteOp::Put(b"1".to_vec()));
    executor.apply_write(2, key("b"), WriteOp::Put(b"2".to_vec()));
    executor.apply_write(3, key("c"), WriteOp::Put(b"3".to_vec()));
    let outcome = executor.apply_write(4, key("b"), WriteOp::Delete);
    assert_eq!(outcome, ApplyOutcome::Applied);
    assert_eq!(executor.read(&key("a")), Some(b"1".to_vec()));
    assert_eq!(executor.read(&key("b")), None);
    assert_eq!(executor.read(&key("c")), Some(b"3".to_vec()));
    assert_eq!(executor.last_applied(), 4);
}

#[test]
fn delete_of_an_absent_key_still_moves_the_apply_index() {
    let mut executor = StorageExecutor::new();
    let outcome = executor.apply_write(7, key("nobody"), WriteOp::Delete);
    assert_eq!(outcome, ApplyOutcome::Applied);
    assert_eq!(executor.last_applied(), 7);
    assert_eq!(executor.read(&key("nobody")), None);
}

#[test]
fn applying_twice_is_applying_once() {
    let mut once = StorageExecutor::new();
    once.apply_write(1, key("k"), WriteOp::Put(b"old".to_vec()));
    once.apply_write(2, key("k"), WriteOp::Put(b"new".to_vec()));

    let mut twice = StorageExecutor::new();
    twice.apply_write(1, key("k"), WriteOp::Put(b"old".to_vec()));
    let first = twice.apply_write(2, key("k"), WriteOp::Put(b"new".to_vec()));
    let second = twice.apply_write(2, key("k"), WriteOp::Put(b"new".to_vec()));

    assert_eq!(first, ApplyOutcome::Applied);
    assert_eq!(second, ApplyOutcome::AlreadyApplied);
    assert_eq!(once.checkpoint(), twice.checkpoint());
    assert_eq!(twice.read(&key("k")), Some(b"new".to_vec()));
    assert_eq!(twice.last_applied(), 2);
}

#[test]
fn a_write_below_the_apply_index_changes_nothing() {
    let mut executor = StorageExecutor::new();
    executor.apply_write(5, key("k"), WriteOp::Put(b"v5".to_vec()));
    let stale_put = executor.apply_write(3, key("k"), WriteOp::Put(b"v3".to_vec()));
    let stale_delete = executor.apply_write(5, key("k"), WriteOp::Delete);
    let stale_other = executor.apply_write(0, key("z"), WriteOp::Put(b"z".to_vec()));
    assert_eq!(stale_put, ApplyOutcome::AlreadyApplied);
    assert_eq!(stale_delete, ApplyOutcome::AlreadyApplied);
    assert_eq!(stale_other, ApplyOutcome::AlreadyApplied);
    assert_eq!(executor.read(&key("k")), Some(b"v5".to_vec()));
    assert_eq!(executor.read(&key("z")), None);
    assert_eq!(executor.last_applied(), 5);
}

#[test]
fn is_applied_follows_the_apply_index() {
    let mut executor = StorageExecutor::new();
    assert!(executor.is_applied(0));
    assert!(!executor.is_applied(1));
    executor.apply_write(4, key("k"), WriteOp::Put(b"v".to_vec()));
    assert!(executor.is_applied(3));
    assert!(executor.is_applied(4));
    assert!(!executor.is_applied(5));
}

#[test]
fn reads_return_the_latest_applied_value_after_each_apply() {
    let log = vec![
        put(1, "a", b"a1"),
        put(2, "b", b"b1"),
        put(3, "a", b"a2"),
        delete(4, "b"),
        put(5, "b", b"b2"),
        delete(6, "a"),
    ];
    let mut executor = StorageExecutor::new();
    for entry in log {
        let expected = match &entry.op {
            WriteOp::Put(value) => Some(value.clone()),
            WriteOp::Delete => None,
        };
        let outcome = executor.apply_write(entry.index, entry.key.clone(), entry.op.clone());
        assert_eq!(outcome, ApplyOutcome::Applied);
        assert_eq!(executor.last_applied(), entry.index);
        assert_eq!(executor.read(&entry.key), expected);
    }
    assert_eq!(executor.read(&key("a")), None);
    assert_eq!(executor.read(&key("b")), Some(b"b2".to_vec()));
}

#[test]
fn replay_is_the_writes_one_by_one() {
    let log = vec![put(1, "a", b"a1"), put(2, "b", b"b1"), delete(3, "a"), put(4, "c", b"c1")];
    let mut batch = StorageExecutor::new();
    batch.replay(&log);

    let mut single = StorageExecutor::new();
    for entry in &log {
        single.apply_write(entry.index, entry.key.clone(), entry.op.clone());
    }
    assert_eq!(batch.checkpoint(), single.checkpoint());
    assert_eq!(batch.last_applied(), 4);
    assert_eq!(batch.read(&key("a")), None);
    assert_eq!(batch.read(&key("b")), Some(b"b1".to_vec()));
    assert_eq!(batch.read(&key("c")), Some(b"c1".to_vec()));
}

#[test]
fn replay_skips_what_was_applied_before() {
    let mut executor = StorageExecutor::new();
    executor.replay(&vec![put(1, "k", b"v1"), put(2, "k", b"v2")]);
    // The same entries again, followed by a new one.
    executor.replay(&vec![put(1, "k", b"v1"), put(2, "k", b"v2"), put(3, "j", b"w")]);
    assert_eq!(executor.last_applied(), 3);
    assert_eq!(executor.read(&key("k")), Some(b"v2".to_vec()));
    assert_eq!(executor.read(&key("j")), Some(b"w".to_vec()));
}

#[test]
fn replay_of_nothing_changes_nothing() {
    let mut executor = StorageExecutor::new();
    executor.apply_write(2, key("k"), WriteOp::Put(b"v".to_vec()));
    executor.replay(&Vec::new());
    assert_eq!(executor.last_applied(), 2);
    assert_eq!(executor.read(&key("k")), Some(b"v".to_vec()));
}

#[test]
fn restore_takes_rows_and_apply_index_together() {
    let rows = vec![
        Record { key: key("a"), value: b"1".to_vec() },
        Record { key: key("b"), value: b"2".to_vec() },
    ];
    let mut executor = StorageExecutor::restore(&rows, 9);
    assert_eq!(executor.last_applied(), 9);
    assert_eq!(executor.read(&key("a")), Some(b"1".to_vec()));
    assert_eq!(executor.read(&key("b")), Some(b"2".to_vec()));
    // What the checkpoint covers is not applied again.
    assert_eq!(
        executor.apply_write(9, key("a"), WriteOp::Put(b"x".to_vec())),
        ApplyOutcome::AlreadyApplied
    );
    assert_eq!(executor.apply_write(10, key("a"), WriteOp::Delete), ApplyOutcome::Applied);
    assert_eq!(executor.read(&key("a")), None);
}

#[test]
fn restore_lets_the_last_row_of_a_key_stand() {
    let rows = vec![
        Record { key: key("k"), value: b"old".to_vec() },
        Record { key: key("j"), value: b"w".to_vec() },
        Record { key: key("k"), value: b"new".to_vec() },
    ];
    let executor = StorageExecutor::restore(&rows, 3);
    assert_eq!(executor.read(&key("k")), Some(b"new".to_vec()));
    assert_eq!(executor.read(&key("j")), Some(b"w".to_vec()));
    let (saved, index) = executor.checkpoint();
    assert_eq!(index, 3);
    assert_eq!(saved.len(), 2);
}

#[test]
fn checkpoint_and_restore_give_the_state_back() {
    let mut executor = StorageExecutor::new();
    executor.replay(&vec![put(1, "a", b"a1"), put(2, "b", b"b1"), delete(3, "a"), put(4, "c", b"")]);
    let (rows, index) = executor.checkpoint();
    assert_eq!(index, 4);
    let restored = StorageExecutor::restore(&rows, index);
    assert_eq!(restored.checkpoint(), (rows, index));
    assert_eq!(restored.read(&key("a")), None);
    assert_eq!(restored.read(&key("b")), Some(b"b1".to_vec()));
    assert_eq!(restored.read(&key("c")), Some(Vec::new()));
}

#[test]
fn committed_write_is_acknowledged_once_applied() {
    let mut executor = StorageExecutor::new();
    let response = executor.apply_command(1, Command::Write(key("k"), b"v1".to_vec()));
    assert_eq!(response, ResponseEnvelope::Success(None));
    assert!(response.is_success());
    assert!(executor.last_applied() >= 1);
    assert_eq!(executor.read(&key("k")), Some(b"v1".to_vec()));

    let response = executor.apply_command(2, Command::Delete(key("k")));
    assert_eq!(response, ResponseEnvelope::Success(None));
    assert_eq!(executor.last_applied(), 2);
    assert_eq!(executor.read(&key("k")), None);
}

#[test]
fn a_retried_write_is_acknowledged_and_applied_once() {
    let mut executor = StorageExecutor::new();
    executor.apply_command(1, Command::Write(key("k"), b"v1".to_vec()));
    executor.apply_command(2, Command::Write(key("k"), b"v2".to_vec()));
    let retried = executor.apply_command(1, Command::Write(key("k"), b"v1".to_vec()));
    assert_eq!(retried, ResponseEnvelope::Success(None));
    assert_eq!(executor.read(&key("k")), Some(b"v2".to_vec()));
    assert_eq!(executor.last_applied(), 2);
}

#[test]
fn the_table_takes_keyed_writes_only() {
    let mut executor = StorageExecutor::new();
    executor.apply_command(1, Command::Write(key("k"), b"v".to_vec()));
    let read = executor.apply_command(2, Command::Read(key("k"), ReadConsistency::Local));
    let statement =
        executor.apply_command(2, Command::RawStatement(key("DELETE FROM kv"), Access::Write));
    assert_eq!(read, ResponseEnvelope::Error(ErrorKind::InvalidCommand));
    assert_eq!(statement, ResponseEnvelope::Error(ErrorKind::InvalidCommand));
    assert!(!read.is_success());
    assert_eq!(executor.last_applied(), 1);
    assert_eq!(executor.read(&key("k")), Some(b"v".to_vec()));
}
