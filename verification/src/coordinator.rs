//! The consistency coordinator: when a read may be answered.
//!
//! Each read is a small state machine. It starts as `Requested`, may wait for
//! the node's role, for a read index, or for the apply index to catch up with
//! that read index, and ends `Ready` or `Failed`. The machine only decides:
//! whoever drives it asks the consensus protocol, watches the clock, and hands
//! back what happened as a [`ReadEvent`].

use crate::command::ReadConsistency;
use crate::response::ErrorKind;
use crate::response::Response;
use crate::response::ResponseEnvelope;
use crate::storage::StorageExecutor;
use crate::storage::StoreState;
use vstd::prelude::*;

verus! {

/// The part a node plays in the consensus protocol.
#[derive(Clone, Copy, Debug, PartialEq, Eq, Structural)]
pub enum Role {
    Leader,
    Follower,
    Candidate,
}

/// Where a read stands.
#[derive(Clone, Copy, Debug, PartialEq, Eq, Structural)]
pub enum ReadState {
    /// Nothing has been done yet.
    Requested,
    /// The node's role has been asked for.
    AwaitingRole,
    /// A read index has been asked for.
    AwaitingReadIndex,
    /// The read index is known and the apply index is still below it.
    AwaitingApply(u64),
    /// The read may be answered from the table.
    Ready,
    /// The read is refused.
    Failed(ErrorKind),
}

/// What the driver reports to a read.
#[derive(Clone, Copy, Debug, PartialEq, Eq, Structural)]
pub enum ReadEvent {
    /// The read is taken up.
    Start,
    /// The node's role, asked for or changed.
    Role(Role),
    /// The log position a majority had acknowledged when it was asked for.
    ReadIndex(u64),
    /// No read index could be had this time.
    ReadIndexUnavailable,
    /// The apply index may have moved.
    ApplyAdvanced,
    /// The read's deadline has passed.
    DeadlineElapsed,
}

/// What the driver has to do for a read in a given state.
#[derive(Clone, Copy, Debug, PartialEq, Eq, Structural)]
pub enum ReadAction {
    /// Report `Start`.
    Begin,
    /// Ask for the node's role and report it.
    QueryRole,
    /// Ask for a read index and report it, or that none could be had.
    RequestReadIndex,
    /// Wait until the apply index may have reached this position, the role
    /// changes or the deadline passes, and report which.
    AwaitApply(u64),
    /// Answer from the table.
    Serve,
    /// Answer with this error.
    Reject(ErrorKind),
}

impl ReadState {
    /// `Ready` and `Failed` are final.
    pub open spec fn is_terminal(self) -> bool {
        self is Ready || self is Failed
    }

    /// The read waits for something outside the node's own table.
    pub open spec fn is_awaiting(self) -> bool {
        self is AwaitingRole || self is AwaitingReadIndex || self is AwaitingApply
    }
}

/// The states a read of the given tier passes through.
pub open spec fn fits(tier: ReadConsistency, state: ReadState) -> bool {
    match tier {
        ReadConsistency::Local => state is Requested || state is Ready,
        ReadConsistency::Leader => !(state is AwaitingReadIndex || state is AwaitingApply),
        ReadConsistency::Linearizable => !(state is AwaitingRole),
    }
}

/// What a waiting read does when it learns the node's role or that its
/// deadline has passed; `None` for every other event.
pub open spec fn interrupted(event: ReadEvent) -> Option<ReadState> {
    match event {
        ReadEvent::Role(Role::Leader) => None,
        ReadEvent::Role(_) => Some(ReadState::Failed(ErrorKind::NotLeader)),
        ReadEvent::DeadlineElapsed => Some(ReadState::Failed(ErrorKind::ReadTimeout)),
        _ => None,
    }
}

/// The state after `event`, for a read of `tier` on a node whose apply index
/// is `applied`.
///
/// * `Requested` moves on `Start` only: a `Leader` read asks for the role, a
///   `Local` read is ready at once, a `Linearizable` read asks for a read
///   index.
/// * A waiting read fails `NotLeader` when it learns that the node is not the
///   leader, and `ReadTimeout` when its deadline has passed.
/// * `AwaitingRole` becomes `Ready` when the node is the leader.
/// * `AwaitingReadIndex` takes the read index: the read is ready if the apply
///   index has reached it, and waits for it otherwise.
/// * `AwaitingApply` becomes `Ready` once the apply index has reached the read
///   index.
/// * `Ready` and `Failed` stay as they are, and so does any state on an event
///   that is not named for it here.
pub open spec fn transition(
    tier: ReadConsistency,
    state: ReadState,
    event: ReadEvent,
    applied: nat,
) -> ReadState {
    match state {
        ReadState::Requested => match event {
            ReadEvent::Start => match tier {
                ReadConsistency::Leader => ReadState::AwaitingRole,
                ReadConsistency::Local => ReadState::Ready,
                ReadConsistency::Linearizable => ReadState::AwaitingReadIndex,
            },
            _ => state,
        },
        ReadState::AwaitingRole => match interrupted(event) {
            Some(failed) => failed,
            None => if event == ReadEvent::Role(Role::Leader) {
                ReadState::Ready
            } else {
                state
            },
        },
        ReadState::AwaitingReadIndex => match interrupted(event) {
            Some(failed) => failed,
            None => match event {
                ReadEvent::ReadIndex(read_index) => if applied >= read_index {
                    ReadState::Ready
                } else {
                    ReadState::AwaitingApply(read_index)
                },
                _ => state,
            },
        },
        ReadState::AwaitingApply(read_index) => match interrupted(event) {
            Some(failed) => failed,
            None => if applied >= read_index {
                ReadState::Ready
            } else {
                state
            },
        },
        ReadState::Ready => state,
        ReadState::Failed(_) => state,
    }
}

/// What the driver has to do for a read in `state`.
pub open spec fn action_of(state: ReadState) -> ReadAction {
    match state {
        ReadState::Requested => ReadAction::Begin,
        ReadState::AwaitingRole => ReadAction::QueryRole,
        ReadState::AwaitingReadIndex => ReadAction::RequestReadIndex,
        ReadState::AwaitingApply(read_index) => ReadAction::AwaitApply(read_index),
        ReadState::Ready => ReadAction::Serve,
        ReadState::Failed(kind) => ReadAction::Reject(kind),
    }
}

/// The answer a read of `key` gives in `state`, from a store in state
/// `store`: the value under the key once the read is ready, the error once it
/// has failed, and none before.
pub open spec fn response_of(state: ReadState, key: Seq<char>, store: StoreState) -> Option<
    Response,
> {
    match state {
        ReadState::Ready => Some(Response::Success(store.lookup(key))),
        ReadState::Failed(kind) => Some(Response::Error(kind)),
        _ => None,
    }
}

/// The view of an answer that may not be due yet.
pub open spec fn response_view(response: Option<ResponseEnvelope>) -> Option<Response> {
    match response {
        Some(envelope) => Some(envelope@),
        None => None,
    }
}

/// Moves a read by one event. `last_applied` is the apply index of the node
/// at this moment.
pub fn step(tier: ReadConsistency, state: ReadState, event: ReadEvent, last_applied: u64) -> (next:
    ReadState)
    ensures
        next == transition(tier, state, event, last_applied as nat),
        fits(tier, state) ==> fits(tier, next),
{
    match state {
        ReadState::Requested => match event {
            ReadEvent::Start => match tier {
                ReadConsistency::Leader => ReadState::AwaitingRole,
                ReadConsistency::Local => ReadState::Ready,
                ReadConsistency::Linearizable => ReadState::AwaitingReadIndex,
            },
            _ => state,
        },
        ReadState::Ready => state,
        ReadState::Failed(_) => state,
        _ => match event {
            ReadEvent::Role(Role::Follower) => ReadState::Failed(ErrorKind::NotLeader),
            ReadEvent::Role(Role::Candidate) => ReadState::Failed(ErrorKind::NotLeader),
            ReadEvent::DeadlineElapsed => ReadState::Failed(ErrorKind::ReadTimeout),
            _ => match state {
                ReadState::AwaitingRole => match event {
                    ReadEvent::Role(Role::Leader) => ReadState::Ready,
                    _ => state,
                },
                ReadState::AwaitingReadIndex => match event {
                    ReadEvent::ReadIndex(read_index) => if last_applied >= read_index {
                        ReadState::Ready
                    } else {
                        ReadState::AwaitingApply(read_index)
                    },
                    _ => state,
                },
                ReadState::AwaitingApply(read_index) => if last_applied >= read_index {
                    ReadState::Ready
                } else {
                    state
                },
                _ => state,
            },
        },
    }
}

/// What the driver has to do for a read in `state`.
pub fn action_for(state: ReadState) -> (action: ReadAction)
    ensures
        action == action_of(state),
{
    match state {
        ReadState::Requested => ReadAction::Begin,
        ReadState::AwaitingRole => ReadAction::QueryRole,
        ReadState::AwaitingReadIndex => ReadAction::RequestReadIndex,
        ReadState::AwaitingApply(read_index) => ReadAction::AwaitApply(read_index),
        ReadState::Ready => ReadAction::Serve,
        ReadState::Failed(kind) => ReadAction::Reject(kind),
    }
}

/// One read of one key, from request to answer.
pub struct ConsistencyCoordinator {
    key: String,
    tier: ReadConsistency,
    state: ReadState,
}

/// Mathematical content of a [`ConsistencyCoordinator`].
pub struct ReadView {
    pub key: Seq<char>,
    pub tier: ReadConsistency,
    pub state: ReadState,
}

impl View for ConsistencyCoordinator {
    type V = ReadView;

    closed spec fn view(&self) -> ReadView {
        ReadView { key: self.key@, tier: self.tier, state: self.state }
    }
}

impl ConsistencyCoordinator {
    #[verifier::type_invariant]
    spec fn state_fits_tier(self) -> bool {
        fits(self.tier, self.state)
    }

    /// A read of `key` at `tier`, not yet taken up.
    pub fn new(key: String, tier: ReadConsistency) -> (read: Self)
        ensures
            read@ == (ReadView { key: key@, tier, state: ReadState::Requested }),
    {
        ConsistencyCoordinator { key, tier, state: ReadState::Requested }
    }

    /// The tier the read was requested at.
    pub fn tier(&self) -> (tier: ReadConsistency)
        ensures
            tier == self@.tier,
    {
        self.tier
    }

    /// Where the read stands; always a state its tier passes through.
    pub fn state(&self) -> (state: ReadState)
        ensures
            state == self@.state,
            fits(self@.tier, state),
    {
        proof {
            use_type_invariant(self);
        }
        self.state
    }

    /// The key the read asks for.
    pub fn key(&self) -> (key: &String)
        ensures
            key@ == self@.key,
    {
        &self.key
    }

    /// What the driver has to do next.
    pub fn action(&self) -> (action: ReadAction)
        ensures
            action == action_of(self@.state),
    {
        action_for(self.state)
    }

    /// Takes one event and answers if the read has come to its end.
    ///
    /// The read moves as [`transition`] says, judged against the apply index
    /// of `executor`. A read that is `Ready` afterwards is answered with what
    /// the table of `executor` holds under its key; a read that has `Failed`
    /// is answered with its error; any other read is not answered yet.
    pub fn advance(&mut self, event: ReadEvent, executor: &StorageExecutor) -> (response: Option<
        ResponseEnvelope,
    >)
        ensures
            final(self)@ == (ReadView {
                state: transition(
                    old(self)@.tier,
                    old(self)@.state,
                    event,
                    executor@.last_applied,
                ),
                ..old(self)@
            }),
            response_view(response) == response_of(final(self)@.state, old(self)@.key, executor@),
    {
        proof {
            use_type_invariant(&*self);
        }
        let next = step(self.tier, self.state, event, executor.last_applied());
        self.state = next;
        match next {
            ReadState::Ready => {
                let value = executor.read(&self.key);
                Some(ResponseEnvelope::Success(value))
            },
            ReadState::Failed(kind) => Some(ResponseEnvelope::Error(kind)),
            _ => None,
        }
    }
}

} // verus!
