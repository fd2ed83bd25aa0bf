//! What holds of the store and of reads, whatever the inputs.
//!
//! Each law is a proof over the models that the contracts of the executor and
//! of the coordinator are written in: [`StoreState`] and [`transition`].

use crate::command::ReadConsistency;
use crate::coordinator::fits;
use crate::coordinator::response_of;
use crate::coordinator::transition;
use crate::coordinator::ReadEvent;
use crate::coordinator::ReadState;
use crate::coordinator::Role;
use crate::response::ErrorKind;
use crate::response::Response;
use crate::storage::LogEntryView;
use crate::storage::StoreState;
use vstd::prelude::*;

verus! {

/// The entries stand in log order and above the apply index of `start`:
/// positions rise strictly, and every one is still to be applied.
pub open spec fn in_log_order(start: StoreState, log: Seq<LogEntryView>) -> bool {
    &&& forall|i: int| 0 <= i < log.len() ==> start.last_applied < (#[trigger] log[i]).index
    &&& forall|i: int, j: int|
        0 <= i < j < log.len() ==> (#[trigger] log[i]).index < (#[trigger] log[j]).index
}

/// After entries in log order, the apply index is the last entry's position.
proof fn lemma_replay_reaches_last(start: StoreState, log: Seq<LogEntryView>)
    requires
        in_log_order(start, log),
    ensures
        start.replay(log).last_applied == if log.len() == 0 {
            start.last_applied
        } else {
            log.last().index
        },
    decreases log.len(),
{
    if log.len() > 0 {
        let front = log.drop_last();
        assert forall|i: int| 0 <= i < front.len() implies start.last_applied < (
        #[trigger] front[i]).index by {
            assert(front[i] == log[i]);
        }
        assert forall|i: int, j: int| 0 <= i < j < front.len() implies (#[trigger] front[i]).index
            < (#[trigger] front[j]).index by {
            assert(front[i] == log[i]);
            assert(front[j] == log[j]);
        }
        lemma_replay_reaches_last(start, front);
        if front.len() > 0 {
            assert(front.last() == log[log.len() - 2]);
        }
    }
}

/// A prefix of entries in log order is in log order.
proof fn lemma_prefix_in_log_order(start: StoreState, log: Seq<LogEntryView>, n: int)
    requires
        in_log_order(start, log),
        0 <= n <= log.len(),
    ensures
        in_log_order(start, log.take(n)),
{
    let prefix = log.take(n);
    assert forall|i: int| 0 <= i < prefix.len() implies start.last_applied < (
    #[trigger] prefix[i]).index by {
        assert(prefix[i] == log[i]);
    }
    assert forall|i: int, j: int| 0 <= i < j < prefix.len() implies (#[trigger] prefix[i]).index < (
    #[trigger] prefix[j]).index by {
        assert(prefix[i] == log[i]);
        assert(prefix[j] == log[j]);
    }
}

/// Entry `n` of a log in order takes effect when it is reached.
proof fn lemma_replay_step(start: StoreState, log: Seq<LogEntryView>, n: int)
    requires
        in_log_order(start, log),
        0 <= n < log.len(),
    ensures
        start.replay(log.take(n)).last_applied < log[n].index,
        start.replay(log.take(n + 1)) == start.replay(log.take(n)).apply(
            log[n].index,
            log[n].key,
            log[n].op,
        ),
        start.replay(log.take(n + 1)).last_applied == log[n].index,
{
    let prefix = log.take(n);
    let next = log.take(n + 1);
    lemma_prefix_in_log_order(start, log, n);
    lemma_replay_reaches_last(start, prefix);
    if n > 0 {
        assert(prefix.last() == log[n - 1]);
    }
    assert(next.drop_last() =~= prefix);
    assert(next.last() == log[n]);
}

/// The last write to the key of entry `w` among the first `n` entries, and
/// that the table holds what it wrote.
proof fn lemma_last_write_stands(start: StoreState, log: Seq<LogEntryView>, w: int, n: int) -> (j:
    int)
    requires
        in_log_order(start, log),
        0 <= w < n <= log.len(),
    ensures
        w <= j < n,
        log[j].key == log[w].key,
        forall|i: int| j < i < n ==> (#[trigger] log[i]).key != log[w].key,
        start.replay(log.take(n)).lookup(log[w].key) == log[j].op,
    decreases n - w,
{
    lemma_replay_step(start, log, n - 1);
    if n - 1 == w || log[n - 1].key == log[w].key {
        n - 1
    } else {
        lemma_last_write_stands(start, log, w, n - 1)
    }
}

/// Reads return the latest applied value.
///
/// Take any writes in log order and apply them one by one. Right after write
/// `n` has been applied, the table holds under its key what it wrote (nothing,
/// for a delete). A `Local` read of that key is answered with exactly that,
/// and so is a `Leader` read on a node that is told it is the leader.
pub proof fn law_reads_return_latest_applied(start: StoreState, log: Seq<LogEntryView>, n: int)
    requires
        in_log_order(start, log),
        0 <= n < log.len(),
    ensures
        ({
            let store = start.replay(log.take(n + 1));
            let written = Some(Response::Success(log[n].op));
            let local = transition(
                ReadConsistency::Local,
                ReadState::Requested,
                ReadEvent::Start,
                store.last_applied,
            );
            let asked = transition(
                ReadConsistency::Leader,
                ReadState::Requested,
                ReadEvent::Start,
                store.last_applied,
            );
            let leader = transition(
                ReadConsistency::Leader,
                asked,
                ReadEvent::Role(Role::Leader),
                store.last_applied,
            );
            &&& store.last_applied == log[n].index
            &&& store.lookup(log[n].key) == log[n].op
            &&& response_of(local, log[n].key, store) == written
            &&& response_of(leader, log[n].key, store) == written
        }),
{
    lemma_replay_step(start, log, n);
}

/// Applying a write twice is applying it once.
pub proof fn law_apply_is_idempotent(
    store: StoreState,
    index: nat,
    key: Seq<char>,
    op: Option<Seq<u8>>,
)
    ensures
        store.apply(index, key, op).apply(index, key, op) == store.apply(index, key, op),
{
}

/// The apply index never moves back, and a write that is skipped leaves the
/// table as it was.
pub proof fn law_apply_index_never_decreases(
    store: StoreState,
    index: nat,
    key: Seq<char>,
    op: Option<Seq<u8>>,
)
    ensures
        store.apply(index, key, op).last_applied >= store.last_applied,
        store.apply(index, key, op).last_applied >= index,
        index <= store.last_applied ==> store.apply(index, key, op) == store,
{
}

/// A `Linearizable` read becomes ready only with a read index that the apply
/// index has reached.
pub proof fn law_linearizable_read_waits_for_read_index(
    state: ReadState,
    event: ReadEvent,
    applied: nat,
)
    requires
        fits(ReadConsistency::Linearizable, state),
        !(state is Ready),
        transition(ReadConsistency::Linearizable, state, event, applied) is Ready,
    ensures
        match state {
            ReadState::AwaitingReadIndex => event matches ReadEvent::ReadIndex(read_index)
                && applied >= read_index,
            ReadState::AwaitingApply(read_index) => applied >= read_index,
            _ => false,
        },
{
}

/// A `Linearizable` read observes every write known to be committed.
///
/// Let the node have applied the first `n` entries of a log in order, and let
/// entry `w` be a write whose commit was seen before the read was requested,
/// so that the read index granted to the read is at least the position of
/// `w`. If the read becomes ready, then `w` is among the entries applied, and
/// the answer is what the last write to the key of `w` among them wrote: `w`
/// itself or a later one, never an older state.
pub proof fn law_linearizable_read_observes_commit(
    start: StoreState,
    log: Seq<LogEntryView>,
    w: int,
    n: int,
    read_index: u64,
    state: ReadState,
    event: ReadEvent,
) -> (j: int)
    requires
        in_log_order(start, log),
        0 <= w < log.len(),
        0 <= n <= log.len(),
        log[w].index <= read_index,
        state == ReadState::AwaitingApply(read_index) || (state == ReadState::AwaitingReadIndex
            && event == ReadEvent::ReadIndex(read_index)),
        transition(
            ReadConsistency::Linearizable,
            state,
            event,
            start.replay(log.take(n)).last_applied,
        ) is Ready,
    ensures
        w <= j < n,
        log[j].key == log[w].key,
        forall|i: int| j < i < n ==> (#[trigger] log[i]).key != log[w].key,
        response_of(ReadState::Ready, log[w].key, start.replay(log.take(n))) == Some(
            Response::Success(log[j].op),
        ),
{
    let prefix = log.take(n);
    lemma_prefix_in_log_order(start, log, n);
    lemma_replay_reaches_last(start, prefix);
    if n > 0 {
        assert(prefix.last() == log[n - 1]);
    }
    assert(w < n);
    lemma_last_write_stands(start, log, w, n)
}

/// A `Leader` read on a node that is not the leader fails `NotLeader` and
/// never returns data.
///
/// Taken up, the read asks for the role and has no answer yet. Told a role
/// other than `Leader`, it fails `NotLeader`, whatever the apply index. And
/// no `Leader` read becomes ready on anything but the news that the node is
/// the leader.
pub proof fn law_leader_read_needs_leadership(
    role: Role,
    state: ReadState,
    event: ReadEvent,
    applied: nat,
    key: Seq<char>,
    store: StoreState,
)
    requires
        fits(ReadConsistency::Leader, state),
    ensures
        ({
            let asked = transition(
                ReadConsistency::Leader,
                ReadState::Requested,
                ReadEvent::Start,
                applied,
            );
            let told = transition(ReadConsistency::Leader, asked, ReadEvent::Role(role), applied);
            &&& asked == ReadState::AwaitingRole
            &&& response_of(asked, key, store) is None
            &&& role != Role::Leader ==> told == ReadState::Failed(ErrorKind::NotLeader)
                && response_of(told, key, store) == Some(Response::Error(ErrorKind::NotLeader))
        }),
        !(state is Ready) && transition(ReadConsistency::Leader, state, event, applied) is Ready
            ==> state is AwaitingRole && event == ReadEvent::Role(Role::Leader),
{
}

/// A `Local` read never waits and never fails.
///
/// Taken up, it is ready at once and answered from the table as it stands,
/// whatever the role and the apply index. It is never in a state that waits
/// for anything, so one step is all it takes.
pub proof fn law_local_read_is_immediate(
    state: ReadState,
    event: ReadEvent,
    applied: nat,
    key: Seq<char>,
    store: StoreState,
)
    requires
        fits(ReadConsistency::Local, state),
    ensures
        ({
            let served = transition(
                ReadConsistency::Local,
                ReadState::Requested,
                ReadEvent::Start,
                applied,
            );
            &&& served == ReadState::Ready
            &&& response_of(served, key, store) == Some(Response::Success(store.lookup(key)))
        }),
        ({
            let next = transition(ReadConsistency::Local, state, event, applied);
            &&& fits(ReadConsistency::Local, next)
            &&& !next.is_awaiting()
            &&& !(next is Failed)
        }),
{
}

/// A read that is waiting when the node stops being the leader fails
/// `NotLeader`: it is never answered with a value, even if the apply index
/// has caught up by then.
pub proof fn law_demotion_fails_waiting_read(
    tier: ReadConsistency,
    state: ReadState,
    role: Role,
    applied: nat,
    key: Seq<char>,
    store: StoreState,
)
    requires
        state.is_awaiting(),
        role != Role::Leader,
    ensures
        transition(tier, state, ReadEvent::Role(role), applied) == ReadState::Failed(
            ErrorKind::NotLeader,
        ),
        response_of(transition(tier, state, ReadEvent::Role(role), applied), key, store) == Some(
            Response::Error(ErrorKind::NotLeader),
        ),
{
}

/// A waiting read whose deadline passes fails `ReadTimeout`, whatever it was
/// waiting for.
pub proof fn law_deadline_fails_waiting_read(
    tier: ReadConsistency,
    state: ReadState,
    applied: nat,
)
    requires
        state.is_awaiting(),
    ensures
        transition(tier, state, ReadEvent::DeadlineElapsed, applied) == ReadState::Failed(
            ErrorKind::ReadTimeout,
        ),
{
}

/// Every step keeps a read among the states of its tier, and a read that is
/// `Ready` or `Failed` stays so.
pub proof fn law_read_states_are_closed(
    tier: ReadConsistency,
    state: ReadState,
    event: ReadEvent,
    applied: nat,
)
    ensures
        fits(tier, state) ==> fits(tier, transition(tier, state, event, applied)),
        state.is_terminal() ==> transition(tier, state, event, applied) == state,
{
}

} // verus!
