//! Typed failures of the nested-table boundary.

use vstd::prelude::*;

use crate::identity::{EncodedId, LocalEncodedId, TableAddress};
use crate::name::Name;
use crate::request::{ModulePath, NameReference, PathV};
use crate::state::{OperationKey, SnapshotDigest, StateRevision, TableMutability};

verus! {

/// Constructing an encoded identity with the empty table-address chain.
#[derive(Clone, Copy, Debug, PartialEq, Eq)]
pub struct EmptyEncodedId;

/// A failure that leaves committed nested-table state unchanged.
#[derive(Clone, Debug, PartialEq, Eq)]
pub enum NameTableError<Root> {
    /// The same root table was submitted twice in one seal.
    DuplicateRootDeclaration { root: Root },
    /// One submitted module declared the same exact spelling twice.
    Redefinition { table: ModulePath<Root>, spelling: Name },
    /// Existing table provisioning disagrees with the submitted mutability.
    TableMutabilityMismatch {
        address: TableAddress<Root>,
        existing: TableMutability,
        submitted: TableMutability,
    },
    /// A table address does not exist.
    UnknownTable { address: TableAddress<Root> },
    /// A lookup-only reference did not resolve.
    UnresolvedReference { reference: NameReference<Root> },
    /// An encoded ID does not select an allocated entry.
    UnknownEncodedId { encoded_id: EncodedId<Root> },
    /// Rename was attempted against an immutable table.
    ImmutableTable { address: TableAddress<Root> },
    /// A rename would create a same-table spelling collision.
    SpellingCollision { address: TableAddress<Root>, spelling: Name, existing: LocalEncodedId },
    /// One table has allocated all 65,536 local IDs.
    TableCapacity { address: TableAddress<Root> },
    /// A table generation cannot advance.
    TableGenerationExhausted { address: TableAddress<Root> },
    /// The pure state revision cannot advance.
    StateRevisionExhausted,
    /// An idempotency key was reused with different operation content or kind.
    IdempotencyConflict { operation_key: OperationKey },
    /// A staged operation no longer matches the committed base revision.
    StaleStage { expected: StateRevision, actual: StateRevision },
    /// Stored state contains an empty encoded-ID chain.
    EmptyStoredEncodedId,
    /// A stored child table has no allocated parent entry.
    InconsistentTableAncestry { address: TableAddress<Root> },
    /// A stored head's key or current snapshot is inconsistent.
    InconsistentTableHead { address: TableAddress<Root> },
    /// Stored snapshot entries are not a unique exact spelling map.
    DuplicateSnapshotSpelling { address: TableAddress<Root>, spelling: Name },
    /// Stored snapshot cardinality exceeds the table-local range.
    SnapshotCapacity { address: TableAddress<Root> },
    /// A stored snapshot locator does not match its position.
    SnapshotIntegrityMismatch { digest: SnapshotDigest },
    /// Two archived records claim the same key.
    DuplicateArchiveRecord,
    /// A durable receipt disagrees with its key or stored state.
    InconsistentReceipt { operation_key: OperationKey },
    /// The archive does not carry this crate's envelope.
    InvalidArchiveEnvelope,
    /// The archive payload does not match its envelope integrity digest.
    ArchiveIntegrityMismatch,
    /// The envelope selects a layout this crate does not support.
    UnsupportedArchiveVersion { found: u16 },
    /// Canonical serialization failed.
    Serialize(String),
    /// Validated archive reconstruction failed.
    Deserialize(String),
}

/// The view of a failure: every carried value by its view.
pub enum ErrorV<Root> {
    DuplicateRootDeclaration(Root),
    Redefinition((Root, Seq<Seq<char>>), Seq<char>),
    TableMutabilityMismatch((Root, Seq<LocalEncodedId>), TableMutability, TableMutability),
    UnknownTable((Root, Seq<LocalEncodedId>)),
    UnresolvedReference(PathV<Root>),
    UnknownEncodedId((Root, Seq<LocalEncodedId>)),
    ImmutableTable((Root, Seq<LocalEncodedId>)),
    SpellingCollision((Root, Seq<LocalEncodedId>), Seq<char>, u16),
    TableCapacity((Root, Seq<LocalEncodedId>)),
    TableGenerationExhausted((Root, Seq<LocalEncodedId>)),
    StateRevisionExhausted,
    IdempotencyConflict(Seq<u8>),
    StaleStage(u64, u64),
    EmptyStoredEncodedId,
    InconsistentTableAncestry((Root, Seq<LocalEncodedId>)),
    InconsistentTableHead((Root, Seq<LocalEncodedId>)),
    DuplicateSnapshotSpelling((Root, Seq<LocalEncodedId>), Seq<char>),
    SnapshotCapacity((Root, Seq<LocalEncodedId>)),
    SnapshotIntegrityMismatch(u64),
    DuplicateArchiveRecord,
    InconsistentReceipt(Seq<u8>),
    InvalidArchiveEnvelope,
    ArchiveIntegrityMismatch,
    UnsupportedArchiveVersion(u16),
    Serialize(Seq<char>),
    Deserialize(Seq<char>),
}

impl<Root> View for NameTableError<Root> {
    type V = ErrorV<Root>;

    open spec fn view(&self) -> ErrorV<Root> {
        match self {
            NameTableError::DuplicateRootDeclaration { root } => ErrorV::DuplicateRootDeclaration(
                *root,
            ),
            NameTableError::Redefinition { table, spelling } => ErrorV::Redefinition(
                table@,
                spelling@,
            ),
            NameTableError::TableMutabilityMismatch { address, existing, submitted } =>
                ErrorV::TableMutabilityMismatch(address@, *existing, *submitted),
            NameTableError::UnknownTable { address } => ErrorV::UnknownTable(address@),
            NameTableError::UnresolvedReference { reference } => ErrorV::UnresolvedReference(
                reference@,
            ),
            NameTableError::UnknownEncodedId { encoded_id } => ErrorV::UnknownEncodedId(
                encoded_id@,
            ),
            NameTableError::ImmutableTable { address } => ErrorV::ImmutableTable(address@),
            NameTableError::SpellingCollision { address, spelling, existing } =>
                ErrorV::SpellingCollision(address@, spelling@, existing@),
            NameTableError::TableCapacity { address } => ErrorV::TableCapacity(address@),
            NameTableError::TableGenerationExhausted { address } =>
                ErrorV::TableGenerationExhausted(address@),
            NameTableError::StateRevisionExhausted => ErrorV::StateRevisionExhausted,
            NameTableError::IdempotencyConflict { operation_key } => ErrorV::IdempotencyConflict(
                operation_key@,
            ),
            NameTableError::StaleStage { expected, actual } => ErrorV::StaleStage(
                expected@,
                actual@,
            ),
            NameTableError::EmptyStoredEncodedId => ErrorV::EmptyStoredEncodedId,
            NameTableError::InconsistentTableAncestry { address } =>
                ErrorV::InconsistentTableAncestry(address@),
            NameTableError::InconsistentTableHead { address } => ErrorV::InconsistentTableHead(
                address@,
            ),
            NameTableError::DuplicateSnapshotSpelling { address, spelling } =>
                ErrorV::DuplicateSnapshotSpelling(address@, spelling@),
            NameTableError::SnapshotCapacity { address } => ErrorV::SnapshotCapacity(address@),
            NameTableError::SnapshotIntegrityMismatch { digest } =>
                ErrorV::SnapshotIntegrityMismatch(digest@),
            NameTableError::DuplicateArchiveRecord => ErrorV::DuplicateArchiveRecord,
            NameTableError::InconsistentReceipt { operation_key } => ErrorV::InconsistentReceipt(
                operation_key@,
            ),
            NameTableError::InvalidArchiveEnvelope => ErrorV::InvalidArchiveEnvelope,
            NameTableError::ArchiveIntegrityMismatch => ErrorV::ArchiveIntegrityMismatch,
            NameTableError::UnsupportedArchiveVersion { found } =>
                ErrorV::UnsupportedArchiveVersion(*found),
            NameTableError::Serialize(text) => ErrorV::Serialize(text@),
            NameTableError::Deserialize(text) => ErrorV::Deserialize(text@),
        }
    }
}

} // verus!
