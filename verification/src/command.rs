//! Requests as they arrive, and the canonical commands they are normalised to.
//!
//! A request is either one of the typed operations (`Put`, `Delete`, `Get`) or
//! a generic statement. Whether a statement reads or writes is said by a tag
//! that travels with it; the statement's text is never inspected.

use crate::response::ErrorKind;
use vstd::prelude::*;

verus! {

/// The consistency tier a read asks for.
#[derive(Clone, Copy, Debug, PartialEq, Eq, Structural)]
pub enum ReadConsistency {
    /// Answered locally, and only while this node holds leadership.
    Leader,
    /// Answered locally at once, with no bound on staleness.
    Local,
    /// Answered only once the node has applied everything a majority had
    /// acknowledged when the read was requested.
    Linearizable,
}

/// The tag a generic statement carries to say whether it reads or writes.
#[derive(Clone, Copy, Debug, PartialEq, Eq, Structural)]
pub enum StatementKind {
    Query,
    Mutation,
}

/// What a canonical statement does: it writes, or it reads at a tier.
#[derive(Clone, Copy, Debug, PartialEq, Eq, Structural)]
pub enum Access {
    Write,
    Read(ReadConsistency),
}

/// A request as a client sends it.
#[derive(Clone, Debug, PartialEq, Eq)]
pub enum KVCommand {
    /// Store `value` under `key`.
    Put(String, Vec<u8>),
    /// Remove `key`.
    Delete(String),
    /// Read `key`; no tier can be named, so the default applies.
    Get(String),
    /// A statement for the storage engine, tagged as a query or a mutation.
    /// `consistency` matters for a query only.
    SQLQuery { query: String, kind: StatementKind, consistency: Option<ReadConsistency> },
}

/// The canonical command every request is normalised to.
#[derive(Clone, Debug, PartialEq, Eq)]
pub enum Command {
    Write(String, Vec<u8>),
    Delete(String),
    Read(String, ReadConsistency),
    RawStatement(String, Access),
}

/// Mathematical content of a [`KVCommand`].
pub enum KVCommandView {
    Put(Seq<char>, Seq<u8>),
    Delete(Seq<char>),
    Get(Seq<char>),
    SQLQuery { query: Seq<char>, kind: StatementKind, consistency: Option<ReadConsistency> },
}

/// Mathematical content of a [`Command`].
pub enum CommandView {
    Write(Seq<char>, Seq<u8>),
    Delete(Seq<char>),
    Read(Seq<char>, ReadConsistency),
    RawStatement(Seq<char>, Access),
}

impl View for KVCommand {
    type V = KVCommandView;

    open spec fn view(&self) -> KVCommandView {
        match *self {
            KVCommand::Put(key, value) => KVCommandView::Put(key@, value@),
            KVCommand::Delete(key) => KVCommandView::Delete(key@),
            KVCommand::Get(key) => KVCommandView::Get(key@),
            KVCommand::SQLQuery { query, kind, consistency } => KVCommandView::SQLQuery {
                query: query@,
                kind,
                consistency,
            },
        }
    }
}

impl View for Command {
    type V = CommandView;

    open spec fn view(&self) -> CommandView {
        match *self {
            Command::Write(key, value) => CommandView::Write(key@, value@),
            Command::Delete(key) => CommandView::Delete(key@),
            Command::Read(key, tier) => CommandView::Read(key@, tier),
            Command::RawStatement(text, access) => CommandView::RawStatement(text@, access),
        }
    }
}

impl CommandView {
    /// The key a command names, or the text of a statement.
    pub open spec fn subject(self) -> Seq<char> {
        match self {
            CommandView::Write(key, _) => key,
            CommandView::Delete(key) => key,
            CommandView::Read(key, _) => key,
            CommandView::RawStatement(text, _) => text,
        }
    }

    /// What the command does to the store.
    pub open spec fn access(self) -> Access {
        match self {
            CommandView::Write(_, _) => Access::Write,
            CommandView::Delete(_) => Access::Write,
            CommandView::Read(_, tier) => Access::Read(tier),
            CommandView::RawStatement(_, access) => access,
        }
    }

    /// A command is well formed when its key, or its statement, is not empty.
    pub open spec fn well_formed(self) -> bool {
        self.subject().len() > 0
    }
}

/// The tier of a read that may have named none: `Leader` by default.
pub open spec fn tier_or_default(tier: Option<ReadConsistency>) -> ReadConsistency {
    match tier {
        Some(tier) => tier,
        None => ReadConsistency::Leader,
    }
}

/// The canonical command a request stands for, before any validation.
///
/// A mutation has no tier: whatever `consistency` it carries is dropped.
pub open spec fn normalize(request: KVCommandView) -> CommandView {
    match request {
        KVCommandView::Put(key, value) => CommandView::Write(key, value),
        KVCommandView::Delete(key) => CommandView::Delete(key),
        KVCommandView::Get(key) => CommandView::Read(key, ReadConsistency::Leader),
        KVCommandView::SQLQuery { query, kind, consistency } => CommandView::RawStatement(
            query,
            match kind {
                StatementKind::Query => Access::Read(tier_or_default(consistency)),
                StatementKind::Mutation => Access::Write,
            },
        ),
    }
}

/// Turns a request into its canonical command.
///
/// Succeeds exactly when the normalised command is well formed, and then
/// returns it; otherwise the request is rejected as `InvalidCommand`. Nothing
/// but the argument is touched either way.
pub fn classify(request: KVCommand) -> (result: Result<Command, ErrorKind>)
    ensures
        match result {
            Ok(command) => command@ == normalize(request@) && command@.well_formed(),
            Err(kind) => kind == ErrorKind::InvalidCommand && !normalize(request@).well_formed(),
        },
{
    let command = match request {
        KVCommand::Put(key, value) => Command::Write(key, value),
        KVCommand::Delete(key) => Command::Delete(key),
        KVCommand::Get(key) => Command::Read(key, ReadConsistency::Leader),
        KVCommand::SQLQuery { query, kind, consistency } => {
            let access = match kind {
                StatementKind::Query => Access::Read(
                    match consistency {
                        Some(tier) => tier,
                        None => ReadConsistency::Leader,
                    },
                ),
                StatementKind::Mutation => Access::Write,
            };
            Command::RawStatement(query, access)
        },
    };
    validate(command)
}

/// Checks a command that is already canonical.
///
/// Returns the command unchanged when it is well formed, and `InvalidCommand`
/// when its key or statement is empty.
pub fn validate(command: Command) -> (result: Result<Command, ErrorKind>)
    ensures
        match result {
            Ok(accepted) => accepted == command && command@.well_formed(),
            Err(kind) => kind == ErrorKind::InvalidCommand && !command@.well_formed(),
        },
{
    let empty = match &command {
        Command::Write(key, _) => key.as_str().is_empty(),
        Command::Delete(key) => key.as_str().is_empty(),
        Command::Read(key, _) => key.as_str().is_empty(),
        Command::RawStatement(text, _) => text.as_str().is_empty(),
    };
    if empty {
        Err(ErrorKind::InvalidCommand)
    } else {
        Ok(command)
    }
}

} // verus!
