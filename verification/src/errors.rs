//! The library's error type for storage-level failures.
use vstd::prelude::*;

verus! {

/// Declares `rusqlite::Error`, the error of the SQLite calls the storage layer makes, so that an error value can be carried; nothing is claimed of its contents.
#[verifier::external_type_specification]
#[verifier::external_body]
pub struct ExSqliteError(rusqlite::Error);

/// Why a storage operation failed.
#[derive(Debug)]
pub enum DatabaseError {
    Sqlite(rusqlite::Error),
    UnsupportedSchemaVersion { found: u32, supported: u32 },
    LegacySchemaVersion { found: u32, minimum: u32 },
    IntegrityCheckFailed(String),
    RowCountOverflow,
    InvalidPageSize { requested: u32, maximum: u32 },
    OffsetOverflow,
    CountOverflow,
    RowNotFound(i64),
    BatchNotFound(i64),
    DuplicateIdentityInBatch(String),
    EmptyIdentity,
    BatchFinalizeFailed(String),
    EmptyGroupName,
    GroupNotFound(i64),
    InvalidBundledArtistDictionary(String),
}

} // verus!
