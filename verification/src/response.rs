//! What a caller gets back: a value or acknowledgement, or the kind of failure.

use vstd::prelude::*;

verus! {

/// Why a request was not served.
#[derive(Clone, Copy, Debug, PartialEq, Eq, Structural)]
pub enum ErrorKind {
    /// The request is malformed or asks for something this node cannot do.
    InvalidCommand,
    /// The tier needs leadership and this node does not hold it.
    NotLeader,
    /// The read could not be brought up to date before its deadline.
    ReadTimeout,
    /// The storage engine failed; the effect of the write is unknown.
    StorageError,
}

/// The answer to one request. A successful write carries no value; a
/// successful read carries the value, or nothing when the key is absent.
#[derive(Clone, Debug, PartialEq, Eq)]
pub enum ResponseEnvelope {
    Success(Option<Vec<u8>>),
    Error(ErrorKind),
}

/// Mathematical content of a [`ResponseEnvelope`].
pub enum Response {
    Success(Option<Seq<u8>>),
    Error(ErrorKind),
}

impl View for ResponseEnvelope {
    type V = Response;

    open spec fn view(&self) -> Response {
        match *self {
            ResponseEnvelope::Success(Some(bytes)) => Response::Success(Some(bytes@)),
            ResponseEnvelope::Success(None) => Response::Success(None),
            ResponseEnvelope::Error(kind) => Response::Error(kind),
        }
    }
}

impl ResponseEnvelope {
    /// True for `Success`, false for `Error`.
    pub fn is_success(&self) -> (ok: bool)
        ensures
            ok == (self@ is Success),
    {
        match self {
            ResponseEnvelope::Success(_) => true,
            ResponseEnvelope::Error(_) => false,
        }
    }
}

} // verus!
