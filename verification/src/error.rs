//! Errors of the storage engine.
use vstd::prelude::*;

verus! {

/// The kind of an operating-system I/O failure.
#[derive(Debug, Clone, Copy, PartialEq, Eq, Structural)]
pub enum IoErrorKind {
    InvalidInput,
    UnexpectedEof,
    NotFound,
    PermissionDenied,
    ConnectionRefused,
    ConnectionReset,
    Other,
}

/// Errors of the storage layer (SDSS: Skytable Disk Storage Subsystem).
#[derive(Debug, PartialEq)]
pub enum SDSSErrorKind {
    /// An I/O error
    IoError(IoErrorKind),
    OtherError(&'static str),
    CorruptedFile(&'static str),
    /// version mismatch
    HeaderDecodeVersionMismatch,
    /// The entire header is corrupted
    HeaderDecodeCorruptedHeader,
    /// Expected header values were not matched with the current header
    HeaderDecodeDataMismatch,
    /// The time in the header is in the future
    HeaderTimeConflict,
    /// The recovery engine could not repair the log after a basic failure
    JournalWRecoveryStageOneFailCritical,
    /// An entry in the journal is corrupted
    JournalLogEntryCorrupted,
    /// The structure of the journal is corrupted
    JournalCorrupted,
    /// A structure in an internal segment of a file could not be decoded
    InternalDecodeStructureCorrupted,
    /// The payload (non-static) part of a structure in an internal segment of a file is corrupted
    InternalDecodeStructureCorruptedPayload,
    /// The data for an internal structure was decoded but is logically invalid
    InternalDecodeStructureIllegalData,
    /// The batch journal could not be fixed after a crash while flushing a data batch
    DataBatchRecoveryFailStageOne,
    /// A crashed batch journal was found corrupted beyond repair while restoring a data batch
    DataBatchRestoreCorruptedBatch,
    /// A corrupted entry was found while restoring a data batch
    DataBatchRestoreCorruptedEntry,
    /// The data batch could not be closed
    DataBatchCloseError,
    DataBatchRestoreCorruptedBatchFile,
    JournalRestoreTxnError,
    SysDBCorrupted,
}

impl From<IoErrorKind> for SDSSErrorKind {
    /// An I/O failure as a storage error.
    fn from(e: IoErrorKind) -> (r: Self) {
        SDSSErrorKind::IoError(e)
    }
}

impl vstd::std_specs::convert::FromSpecImpl<IoErrorKind> for SDSSErrorKind {
    open spec fn obeys_from_spec() -> bool {
        true
    }

    open spec fn from_spec(e: IoErrorKind) -> SDSSErrorKind {
        SDSSErrorKind::IoError(e)
    }
}

/// The error of an engine operation that touches storage.
#[derive(Debug, PartialEq)]
pub enum RuntimeError {
    IoError(IoErrorKind),
    StorageError(SDSSErrorKind),
}

} // verus!
