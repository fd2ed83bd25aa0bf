//! The storage executor: the key-value table together with the apply index.
//!
//! Committed writes arrive with their log position. A write at a position the
//! executor has already passed is skipped; any other write changes the table
//! and moves the apply index to its position, both in one step. Reads look the
//! key up in the table as it stands.

use crate::command::Command;
use crate::command::CommandView;
use crate::response::ErrorKind;
use crate::response::Response;
use crate::response::ResponseEnvelope;
use vstd::prelude::*;

verus! {

/// One row of the table.
#[derive(Clone, Debug, PartialEq, Eq)]
pub struct Record {
    pub key: String,
    pub value: Vec<u8>,
}

/// What a committed write does to its key.
#[derive(Clone, Debug, PartialEq, Eq)]
pub enum WriteOp {
    Put(Vec<u8>),
    Delete,
}

impl View for WriteOp {
    /// The value the key holds afterwards, if any.
    type V = Option<Seq<u8>>;

    open spec fn view(&self) -> Option<Seq<u8>> {
        match *self {
            WriteOp::Put(value) => Some(value@),
            WriteOp::Delete => None,
        }
    }
}

/// A committed write at its position in the log.
#[derive(Clone, Debug, PartialEq, Eq)]
pub struct LogEntry {
    pub index: u64,
    pub key: String,
    pub op: WriteOp,
}

/// Mathematical content of a [`LogEntry`].
pub struct LogEntryView {
    pub index: nat,
    pub key: Seq<char>,
    pub op: Option<Seq<u8>>,
}

impl View for LogEntry {
    type V = LogEntryView;

    open spec fn view(&self) -> LogEntryView {
        LogEntryView { index: self.index as nat, key: self.key@, op: self.op@ }
    }
}

/// The entries of a log, each by its view.
pub open spec fn log_view(entries: Seq<LogEntry>) -> Seq<LogEntryView> {
    entries.map_values(|entry: LogEntry| entry@)
}

/// Whether an apply changed the store.
#[derive(Clone, Copy, Debug, PartialEq, Eq, Structural)]
pub enum ApplyOutcome {
    /// The write took effect and the apply index moved to its position.
    Applied,
    /// The position was not above the apply index; nothing changed.
    AlreadyApplied,
}

/// The view of a value that may be absent.
pub open spec fn bytes_view(value: Option<Vec<u8>>) -> Option<Seq<u8>> {
    match value {
        Some(bytes) => Some(bytes@),
        None => None,
    }
}

/// Mathematical state of a [`StorageExecutor`].
#[verifier::ext_equal]
pub struct StoreState {
    pub table: Map<Seq<char>, Seq<u8>>,
    pub last_applied: nat,
}

impl StoreState {
    /// The empty table, with nothing applied.
    pub open spec fn empty() -> StoreState {
        StoreState { table: Map::empty(), last_applied: 0 }
    }

    /// The value under `key`, if the table holds one.
    pub open spec fn lookup(self, key: Seq<char>) -> Option<Seq<u8>> {
        if self.table.contains_key(key) {
            Some(self.table[key])
        } else {
            None
        }
    }

    /// The state after the write at `index` is handed to the executor.
    pub open spec fn apply(self, index: nat, key: Seq<char>, op: Option<Seq<u8>>) -> StoreState {
        if index <= self.last_applied {
            self
        } else {
            StoreState {
                table: match op {
                    Some(value) => self.table.insert(key, value),
                    None => self.table.remove(key),
                },
                last_applied: index,
            }
        }
    }

    /// The state after a committed command at `index` is handed to the
    /// executor: a keyed write or delete is applied, nothing else is.
    pub open spec fn apply_command(self, index: nat, command: CommandView) -> StoreState {
        match command {
            CommandView::Write(key, value) => self.apply(index, key, Some(value)),
            CommandView::Delete(key) => self.apply(index, key, None),
            CommandView::Read(_, _) => self,
            CommandView::RawStatement(_, _) => self,
        }
    }

    /// The state after `entries` are handed to the executor one by one.
    pub open spec fn replay(self, entries: Seq<LogEntryView>) -> StoreState
        decreases entries.len(),
    {
        if entries.len() == 0 {
            self
        } else {
            let last = entries.last();
            self.replay(entries.drop_last()).apply(last.index, last.key, last.op)
        }
    }
}

/// The answer to the sender of a committed command: keyed writes and deletes
/// are acknowledged, anything else is refused.
pub open spec fn acknowledgement(command: CommandView) -> Response {
    match command {
        CommandView::Write(_, _) => Response::Success(None),
        CommandView::Delete(_) => Response::Success(None),
        CommandView::Read(_, _) => Response::Error(ErrorKind::InvalidCommand),
        CommandView::RawStatement(_, _) => Response::Error(ErrorKind::InvalidCommand),
    }
}

/// The table that `rows` describe when they are stored in order: where a key
/// occurs more than once, its last row stands.
pub open spec fn table_from(rows: Seq<Record>) -> Map<Seq<char>, Seq<u8>>
    decreases rows.len(),
{
    if rows.len() == 0 {
        Map::empty()
    } else {
        table_from(rows.drop_last()).insert(rows.last().key@, rows.last().value@)
    }
}

spec fn keys_distinct(records: Seq<Record>) -> bool {
    forall|i: int, j: int|
        0 <= i < j < records.len() ==> (#[trigger] records[i]).key@ != (#[trigger] records[j]).key@
}

spec fn holds_key(records: Seq<Record>, key: Seq<char>) -> bool {
    exists|i: int| 0 <= i < records.len() && (#[trigger] records[i]).key@ == key
}

spec fn row_of(records: Seq<Record>, key: Seq<char>) -> int {
    choose|i: int| 0 <= i < records.len() && (#[trigger] records[i]).key@ == key
}

spec fn table_of(records: Seq<Record>) -> Map<Seq<char>, Seq<u8>> {
    Map::new(
        |key: Seq<char>| holds_key(records, key),
        |key: Seq<char>| records[row_of(records, key)].value@,
    )
}

/// `table` holds exactly the rows of `records`.
spec fn represents(records: Seq<Record>, table: Map<Seq<char>, Seq<u8>>) -> bool {
    &&& forall|i: int|
        0 <= i < records.len() ==> table.contains_key((#[trigger] records[i]).key@)
            && table[records[i].key@] == records[i].value@
    &&& forall|key: Seq<char>| #[trigger] table.contains_key(key) ==> holds_key(records, key)
}

proof fn lemma_table_of_represents(records: Seq<Record>)
    requires
        keys_distinct(records),
    ensures
        represents(records, table_of(records)),
{
    let table = table_of(records);
    assert forall|i: int| 0 <= i < records.len() implies table.contains_key(
        (#[trigger] records[i]).key@,
    ) && table[records[i].key@] == records[i].value@ by {
        let key = records[i].key@;
        assert(holds_key(records, key));
        let j = row_of(records, key);
        assert(j == i);
    }
}

proof fn lemma_represented_table_is_unique(
    records: Seq<Record>,
    table: Map<Seq<char>, Seq<u8>>,
)
    requires
        keys_distinct(records),
        represents(records, table),
    ensures
        table_of(records) == table,
{
    lemma_table_of_represents(records);
    let own = table_of(records);
    assert forall|key: Seq<char>| own.contains_key(key) <==> table.contains_key(key) by {
        if own.contains_key(key) {
            let i = row_of(records, key);
            assert(table.contains_key(records[i].key@));
        }
    }
    assert forall|key: Seq<char>| own.contains_key(key) implies own[key] == table[key] by {
        let i = row_of(records, key);
        assert(table[records[i].key@] == records[i].value@);
    }
    assert(own =~= table);
}

/// Rows that agree key by key and value by value describe one table.
proof fn lemma_table_from_same_rows(left: Seq<Record>, right: Seq<Record>)
    requires
        left.len() == right.len(),
        forall|i: int|
            0 <= i < left.len() ==> (#[trigger] left[i]).key@ == right[i].key@ && left[i].value@
                == right[i].value@,
    ensures
        table_from(left) == table_from(right),
    decreases left.len(),
{
    if left.len() > 0 {
        lemma_table_from_same_rows(left.drop_last(), right.drop_last());
        assert(left.last().key@ == right.last().key@);
    }
}

/// Rows with distinct keys describe the table that holds exactly them.
proof fn lemma_table_from_distinct(records: Seq<Record>)
    requires
        keys_distinct(records),
    ensures
        table_from(records) == table_of(records),
    decreases records.len(),
{
    if records.len() == 0 {
        assert(table_of(records) =~= Map::empty());
    } else {
        let front = records.drop_last();
        let last = records.last();
        lemma_table_from_distinct(front);
        lemma_table_of_represents(front);
        let target = table_of(front).insert(last.key@, last.value@);
        assert forall|key: Seq<char>| #[trigger] target.contains_key(key) implies holds_key(
            records,
            key,
        ) by {
            if key == last.key@ {
                assert(records[records.len() - 1].key@ == key);
            } else {
                let j = row_of(front, key);
                assert(records[j].key@ == key);
            }
        }
        assert forall|a: int| 0 <= a < records.len() implies target.contains_key(
            (#[trigger] records[a]).key@,
        ) && target[records[a].key@] == records[a].value@ by {
            if a < front.len() {
                assert(records[a] == front[a]);
                assert(records[a].key@ != records[records.len() - 1].key@);
            }
        }
        lemma_represented_table_is_unique(records, target);
    }
}

/// The row that holds `key`, if there is one.
fn find_row(records: &Vec<Record>, key: &String) -> (found: Option<usize>)
    ensures
        match found {
            Some(i) => i < records.len() && records[i as int].key@ == key@,
            None => !holds_key(records@, key@),
        },
{
    let mut i: usize = 0;
    while i < records.len()
        invariant
            i <= records.len(),
            forall|j: int| 0 <= j < i ==> (#[trigger] records[j]).key@ != key@,
        decreases records.len() - i,
    {
        if records[i].key == *key {
            return Some(i);
        }
        i += 1;
    }
    None
}

/// Stores `value` under `key`, replacing what the key held.
fn upsert(records: &mut Vec<Record>, key: String, value: Vec<u8>)
    requires
        keys_distinct(old(records)@),
    ensures
        keys_distinct(final(records)@),
        table_of(final(records)@) == table_of(old(records)@).insert(key@, value@),
{
    let ghost before = records@;
    let ghost target = table_of(before).insert(key@, value@);
    proof {
        lemma_table_of_represents(before);
    }
    let found = find_row(records, &key);
    match found {
        Some(i) => {
            records.set(i, Record { key, value });
            proof {
                let after = records@;
                assert forall|a: int, b: int| 0 <= a < b < after.len() implies (
                #[trigger] after[a]).key@ != (#[trigger] after[b]).key@ by {
                    assert(after[a].key@ == before[a].key@);
                    assert(after[b].key@ == before[b].key@);
                }
                assert forall|k: Seq<char>| #[trigger] target.contains_key(k) implies holds_key(
                    after,
                    k,
                ) by {
                    if k == key@ {
                        assert(after[i as int].key@ == k);
                    } else {
                        let j = row_of(before, k);
                        assert(after[j].key@ == k);
                    }
                }
                assert forall|a: int| 0 <= a < after.len() implies target.contains_key(
                    (#[trigger] after[a]).key@,
                ) && target[after[a].key@] == after[a].value@ by {
                    if a != i as int {
                        assert(after[a] == before[a]);
                        assert(before[a].key@ != before[i as int].key@);
                    }
                }
                lemma_represented_table_is_unique(after, target);
            }
        },
        None => {
            records.push(Record { key, value });
            proof {
                let after = records@;
                let n = before.len() as int;
                assert forall|a: int, b: int| 0 <= a < b < after.len() implies (
                #[trigger] after[a]).key@ != (#[trigger] after[b]).key@ by {
                    assert(after[a] == before[a]);
                    if b < n {
                        assert(after[b] == before[b]);
                    }
                }
                assert forall|k: Seq<char>| #[trigger] target.contains_key(k) implies holds_key(
                    after,
                    k,
                ) by {
                    if k == key@ {
                        assert(after[n].key@ == k);
                    } else {
                        let j = row_of(before, k);
                        assert(after[j].key@ == k);
                    }
                }
                assert forall|a: int| 0 <= a < after.len() implies target.contains_key(
                    (#[trigger] after[a]).key@,
                ) && target[after[a].key@] == after[a].value@ by {
                    if a < n {
                        assert(after[a] == before[a]);
                    }
                }
                lemma_represented_table_is_unique(after, target);
            }
        },
    }
}

/// Removes `key` and what it held.
fn erase(records: &mut Vec<Record>, key: &String)
    requires
        keys_distinct(old(records)@),
    ensures
        keys_distinct(final(records)@),
        table_of(final(records)@) == table_of(old(records)@).remove(key@),
{
    let ghost before = records@;
    let ghost target = table_of(before).remove(key@);
    proof {
        lemma_table_of_represents(before);
    }
    let found = find_row(records, key);
    match found {
        Some(i) => {
            records.remove(i);
            proof {
                let after = records@;
                assert forall|a: int| 0 <= a < after.len() implies #[trigger] after[a] == before[if a
                    < i { a } else { a + 1 }] by {}
                assert forall|a: int, b: int| 0 <= a < b < after.len() implies (
                #[trigger] after[a]).key@ != (#[trigger] after[b]).key@ by {
                    let a0 = if a < i { a } else { a + 1 };
                    let b0 = if b < i { b } else { b + 1 };
                    assert(before[a0].key@ != before[b0].key@);
                }
                assert forall|k: Seq<char>| #[trigger] target.contains_key(k) implies holds_key(
                    after,
                    k,
                ) by {
                    let j = row_of(before, k);
                    assert(j != i as int);
                    let j1 = if j < i { j } else { j - 1 };
                    assert(after[j1].key@ == k);
                }
                assert forall|a: int| 0 <= a < after.len() implies target.contains_key(
                    (#[trigger] after[a]).key@,
                ) && target[after[a].key@] == after[a].value@ by {
                    let a0 = if a < i { a } else { a + 1 };
                    assert(after[a] == before[a0]);
                    if a0 < i as int {
                        assert(before[a0].key@ != before[i as int].key@);
                    } else {
                        assert(before[i as int].key@ != before[a0].key@);
                    }
                }
                lemma_represented_table_is_unique(after, target);
            }
        },
        None => {
            proof {
                assert(table_of(before).remove(key@) =~= table_of(before));
            }
        },
    }
}

/// The key-value table and the position of the last write applied to it.
pub struct StorageExecutor {
    records: Vec<Record>,
    last_applied: u64,
}

impl View for StorageExecutor {
    type V = StoreState;

    closed spec fn view(&self) -> StoreState {
        StoreState { table: table_of(self.records@), last_applied: self.last_applied as nat }
    }
}

impl StorageExecutor {
    #[verifier::type_invariant]
    spec fn no_key_twice(self) -> bool {
        keys_distinct(self.records@)
    }

    /// An executor with an empty table, before any log position.
    pub fn new() -> (executor: Self)
        ensures
            executor@ == StoreState::empty(),
    {
        let executor = StorageExecutor { records: Vec::new(), last_applied: 0 };
        proof {
            assert(table_of(executor.records@) =~= Map::empty());
        }
        executor
    }

    /// The position of the last write that took effect.
    pub fn last_applied(&self) -> (index: u64)
        ensures
            index == self@.last_applied,
    {
        self.last_applied
    }

    /// The value under `key`, straight from the table.
    pub fn read(&self, key: &String) -> (value: Option<Vec<u8>>)
        ensures
            bytes_view(value) == self@.lookup(key@),
    {
        proof {
            use_type_invariant(self);
            lemma_table_of_represents(self.records@);
        }
        match find_row(&self.records, key) {
            Some(i) => {
                let bytes = self.records[i].value.clone();
                assert(bytes@ =~= self.records[i as int].value@);
                Some(bytes)
            },
            None => None,
        }
    }

    /// Hands the committed write at `index` to the table.
    ///
    /// A position at or below the apply index changes nothing. Any other
    /// position puts or removes the key and becomes the new apply index.
    pub fn apply_write(&mut self, index: u64, key: String, op: WriteOp) -> (outcome: ApplyOutcome)
        ensures
            final(self)@ == old(self)@.apply(index as nat, key@, op@),
            outcome == if index <= old(self)@.last_applied {
                ApplyOutcome::AlreadyApplied
            } else {
                ApplyOutcome::Applied
            },
    {
        proof {
            use_type_invariant(&*self);
        }
        if index <= self.last_applied {
            return ApplyOutcome::AlreadyApplied;
        }
        let mut records = Vec::new();
        std::mem::swap(&mut records, &mut self.records);
        match op {
            WriteOp::Put(value) => upsert(&mut records, key, value),
            WriteOp::Delete => erase(&mut records, &key),
        }
        self.records = records;
        self.last_applied = index;
        ApplyOutcome::Applied
    }

    /// True when a write at `index` would be skipped.
    pub fn is_applied(&self, index: u64) -> (applied: bool)
        ensures
            applied == (index <= self@.last_applied),
    {
        index <= self.last_applied
    }

    /// Hands a batch of committed writes to the table, first to last.
    pub fn replay(&mut self, entries: &Vec<LogEntry>)
        ensures
            final(self)@ == old(self)@.replay(log_view(entries@)),
    {
        let ghost start = self@;
        let ghost log = log_view(entries@);
        let mut i: usize = 0;
        proof {
            assert(log.take(0) =~= Seq::<LogEntryView>::empty());
        }
        while i < entries.len()
            invariant
                i <= entries.len(),
                log == log_view(entries@),
                self@ == start.replay(log.take(i as int)),
            decreases entries.len() - i,
        {
            let entry = &entries[i];
            let key = entry.key.clone();
            let op = match &entry.op {
                WriteOp::Put(value) => {
                    let bytes = value.clone();
                    assert(bytes@ =~= value@);
                    WriteOp::Put(bytes)
                },
                WriteOp::Delete => WriteOp::Delete,
            };
            proof {
                let next = log.take(i + 1);
                assert(next.drop_last() =~= log.take(i as int));
                assert(next.last() == entries@[i as int]@);
            }
            self.apply_write(entry.index, key, op);
            i += 1;
        }
        proof {
            assert(log.take(entries.len() as int) =~= log);
        }
    }

    /// Applies a committed command at `index` and answers its sender.
    ///
    /// A keyed write or delete goes to the table as [`Self::apply_write`]
    /// says and is acknowledged; by then the apply index has reached `index`.
    /// Anything else is no write the table can take: it is refused as
    /// `InvalidCommand` and the store is left as it was.
    pub fn apply_command(&mut self, index: u64, command: Command) -> (response: ResponseEnvelope)
        ensures
            final(self)@ == old(self)@.apply_command(index as nat, command@),
            response@ == acknowledgement(command@),
            response@ is Success ==> final(self)@.last_applied >= index,
    {
        match command {
            Command::Write(key, value) => {
                self.apply_write(index, key, WriteOp::Put(value));
                ResponseEnvelope::Success(None)
            },
            Command::Delete(key) => {
                self.apply_write(index, key, WriteOp::Delete);
                ResponseEnvelope::Success(None)
            },
            Command::Read(_, _) => ResponseEnvelope::Error(ErrorKind::InvalidCommand),
            Command::RawStatement(_, _) => ResponseEnvelope::Error(ErrorKind::InvalidCommand),
        }
    }

    /// An executor rebuilt from saved rows and the apply index saved with
    /// them. Where `rows` name a key more than once, the last row stands.
    pub fn restore(rows: &Vec<Record>, last_applied: u64) -> (executor: Self)
        ensures
            executor@ == (StoreState {
                table: table_from(rows@),
                last_applied: last_applied as nat,
            }),
    {
        let mut records: Vec<Record> = Vec::new();
        let mut i: usize = 0;
        proof {
            assert(table_of(records@) =~= Map::empty());
            assert(rows@.take(0) =~= Seq::<Record>::empty());
        }
        while i < rows.len()
            invariant
                i <= rows.len(),
                keys_distinct(records@),
                table_of(records@) == table_from(rows@.take(i as int)),
            decreases rows.len() - i,
        {
            let key = rows[i].key.clone();
            let value = rows[i].value.clone();
            proof {
                assert(value@ =~= rows@[i as int].value@);
                let next = rows@.take(i + 1);
                assert(next.drop_last() =~= rows@.take(i as int));
                assert(next.last() == rows@[i as int]);
            }
            upsert(&mut records, key, value);
            i += 1;
        }
        proof {
            assert(rows@.take(rows.len() as int) =~= rows@);
        }
        StorageExecutor { records, last_applied }
    }

    /// The rows of the table and the apply index they belong to, to be saved
    /// together. [`Self::restore`] on the pair gives this state back.
    pub fn checkpoint(&self) -> (saved: (Vec<Record>, u64))
        ensures
            table_from(saved.0@) == self@.table,
            saved.1 == self@.last_applied,
    {
        proof {
            use_type_invariant(self);
        }
        let mut rows: Vec<Record> = Vec::new();
        let mut i: usize = 0;
        while i < self.records.len()
            invariant
                i <= self.records.len(),
                rows.len() == i,
                forall|j: int|
                    0 <= j < i ==> (#[trigger] rows[j]).key@ == self.records[j].key@ && rows[j].value@
                        == self.records[j].value@,
            decreases self.records.len() - i,
        {
            let key = self.records[i].key.clone();
            let value = self.records[i].value.clone();
            assert(value@ =~= self.records[i as int].value@);
            rows.push(Record { key, value });
            i += 1;
        }
        proof {
            lemma_table_from_same_rows(rows@, self.records@);
            lemma_table_from_distinct(self.records@);
        }
        (rows, self.last_applied)
    }
}

} // verus!
