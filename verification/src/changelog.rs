use vstd::prelude::*;
use crate::error::{DocError, ErrModel};

verus! {

/// Operation parameters of one change-log record.
#[derive(Debug, Clone, PartialEq, Eq)]
pub struct OpParams {
    pub old_hash: Option<String>,
    pub new_hash: Option<String>,
    pub before_id: Option<String>,
}

/// One decoded change-log record. Records are immutable once appended.
/// `op` is an open string tag (insert/modify/delete/move, extensible).
#[derive(Debug, Clone, PartialEq, Eq)]
pub struct ChangeLogEntry {
    pub group_id: i32,
    pub par_id: String,
    pub op: String,
    pub op_params: Option<OpParams>,
    pub ver: [i32; 2],
    pub time: String,
}

/// One line of a change log as handed to the engine: either a record that
/// decoded structurally, or a marker that the line failed to decode.
/// Decoding the line-oriented record format itself is a given primitive
/// performed outside this engine.
#[derive(Debug, Clone, PartialEq, Eq)]
pub enum LogRecord {
    Entry(ChangeLogEntry),
    Malformed,
}

/// What `resolve_latest_version` returns, as a function of the log alone.
/// The log is written newest-first, so the first record is authoritative.
pub open spec fn latest_version_spec(log: Seq<LogRecord>, doc_id: int) -> Result<
    (int, int),
    ErrModel,
> {
    if log.len() == 0 {
        Err(ErrModel::NonExistentOrEmptyDocument { doc_id })
    } else {
        match log[0] {
            LogRecord::Malformed => Err(
                ErrModel::MalformedChangelogEntry { doc_id, line: 0 },
            ),
            LogRecord::Entry(e) => Ok((e.ver[0] as int, e.ver[1] as int)),
        }
    }
}

/// Picks the current version of a document from its change log: the first
/// record is authoritative. An empty log has no current version.
pub fn resolve_latest_version(log: &Vec<LogRecord>, doc_id: i32) -> (r: Result<[i32; 2], DocError>)
    ensures
        match r {
            Ok(v) => latest_version_spec(log@, doc_id as int) == Ok::<_, ErrModel>(
                (v[0] as int, v[1] as int),
            ),
            Err(e) => latest_version_spec(log@, doc_id as int) == Err::<(int, int), _>(
                crate::error::err_view(e),
            ),
        },
{
    if log.len() == 0 {
        Err(DocError::NonExistentOrEmptyDocument { doc_id })
    } else {
        match &log[0] {
            LogRecord::Malformed => Err(DocError::MalformedChangelogEntry { doc_id, line: 0 }),
            LogRecord::Entry(e) => Ok([e.ver[0], e.ver[1]]),
        }
    }
}

} // verus!
