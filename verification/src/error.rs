use vstd::prelude::*;

verus! {

/// Every way a document load can fail. The load pipeline is fail-fast:
/// the first error aborts the whole load and is returned unchanged.
/// Each variant carries enough context (document id, version, shard/key
/// or line offset) to diagnose the failure.
#[derive(Debug, Clone, PartialEq, Eq)]
pub enum DocError {
    /// The change log of the document is missing, unreadable, or empty.
    NonExistentOrEmptyDocument { doc_id: i32 },
    /// A change-log record failed structural decoding; `line` is its offset.
    MalformedChangelogEntry { doc_id: i32, line: usize },
    /// No manifest exists for the requested version of the document.
    VersionNotFound { doc_id: i32, major: i32, minor: i32 },
    /// A manifest (or area) line did not match the slot grammar; `line` is its offset.
    MalformedManifestLine { doc_id: i32, line: usize },
    /// The content store holds no object under the slot's shard and key.
    ParagraphNotFound { shard: String, key: String },
    /// The object exists but its content fails structural validation.
    CorruptParagraph { shard: String, key: String },
    /// A reference's destination slot was not found in the target document.
    ReferenceTargetNotFound { dest_doc_id: i32, dest_id: String },
    /// Resolving a reference or a nested area would re-enter a document or
    /// area that is already on the active resolution stack.
    ReferenceCycleDetected { dest_doc_id: i32 },
}

/// Mathematical model of `DocError`, over plain sequences and integers.
pub enum ErrModel {
    NonExistentOrEmptyDocument { doc_id: int },
    MalformedChangelogEntry { doc_id: int, line: int },
    VersionNotFound { doc_id: int, major: int, minor: int },
    MalformedManifestLine { doc_id: int, line: int },
    ParagraphNotFound { shard: Seq<char>, key: Seq<char> },
    CorruptParagraph { shard: Seq<char>, key: Seq<char> },
    ReferenceTargetNotFound { dest_doc_id: int, dest_id: Seq<char> },
    ReferenceCycleDetected { dest_doc_id: int },
}

pub open spec fn err_view(e: DocError) -> ErrModel {
    match e {
        DocError::NonExistentOrEmptyDocument { doc_id } => ErrModel::NonExistentOrEmptyDocument {
            doc_id: doc_id as int,
        },
        DocError::MalformedChangelogEntry { doc_id, line } => ErrModel::MalformedChangelogEntry {
            doc_id: doc_id as int,
            line: line as int,
        },
        DocError::VersionNotFound { doc_id, major, minor } => ErrModel::VersionNotFound {
            doc_id: doc_id as int,
            major: major as int,
            minor: minor as int,
        },
        DocError::MalformedManifestLine { doc_id, line } => ErrModel::MalformedManifestLine {
            doc_id: doc_id as int,
            line: line as int,
        },
        DocError::ParagraphNotFound { shard, key } => ErrModel::ParagraphNotFound {
            shard: shard@,
            key: key@,
        },
        DocError::CorruptParagraph { shard, key } => ErrModel::CorruptParagraph {
            shard: shard@,
            key: key@,
        },
        DocError::ReferenceTargetNotFound { dest_doc_id, dest_id } => ErrModel::ReferenceTargetNotFound {
            dest_doc_id: dest_doc_id as int,
            dest_id: dest_id@,
        },
        DocError::ReferenceCycleDetected { dest_doc_id } => ErrModel::ReferenceCycleDetected {
            dest_doc_id: dest_doc_id as int,
        },
    }
}

impl DocError {
    /// A short stable label naming the error class, for callers that report failures.
    pub fn kind_name(&self) -> (r: &'static str)
        ensures
            r@ == err_kind_name(err_view(*self)),
    {
        match self {
            DocError::NonExistentOrEmptyDocument { .. } => "NonExistentOrEmptyDocument",
            DocError::MalformedChangelogEntry { .. } => "MalformedChangelogEntry",
            DocError::VersionNotFound { .. } => "VersionNotFound",
            DocError::MalformedManifestLine { .. } => "MalformedManifestLine",
            DocError::ParagraphNotFound { .. } => "ParagraphNotFound",
            DocError::CorruptParagraph { .. } => "CorruptParagraph",
            DocError::ReferenceTargetNotFound { .. } => "ReferenceTargetNotFound",
            DocError::ReferenceCycleDetected { .. } => "ReferenceCycleDetected",
        }
    }
}

pub open spec fn err_kind_name(e: ErrModel) -> Seq<char> {
    match e {
        ErrModel::NonExistentOrEmptyDocument { .. } => "NonExistentOrEmptyDocument"@,
        ErrModel::MalformedChangelogEntry { .. } => "MalformedChangelogEntry"@,
        ErrModel::VersionNotFound { .. } => "VersionNotFound"@,
        ErrModel::MalformedManifestLine { .. } => "MalformedManifestLine"@,
        ErrModel::ParagraphNotFound { .. } => "ParagraphNotFound"@,
        ErrModel::CorruptParagraph { .. } => "CorruptParagraph"@,
        ErrModel::ReferenceTargetNotFound { .. } => "ReferenceTargetNotFound"@,
        ErrModel::ReferenceCycleDetected { .. } => "ReferenceCycleDetected"@,
    }
}

} // verus!
