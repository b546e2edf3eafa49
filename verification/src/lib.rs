//! Nested module name tables: exact spellings mapped to root-fronted
//! encoded-ID chains, with staged seals and identity-preserving renames.

pub mod archive;
pub mod arrangement;
pub mod association;
pub mod canonical;
pub mod changes;
pub mod consistency;
pub mod duplicate;
pub mod error;
pub mod guards;
pub mod identity;
pub mod laws;
pub mod name;
pub mod order;
pub mod preservation;
pub mod recorded;
pub mod reference;
pub mod rename;
pub mod request;
pub mod seal;
pub mod spelling_set;
pub mod stage;
pub mod root_order;
pub mod state;
pub mod table;
pub mod transaction;
pub mod validation;

pub use canonical::RequestDigest;
pub use error::{EmptyEncodedId, NameTableError};
pub use identity::{EncodedId, LocalEncodedId, TableAddress};
pub use name::Name;
pub use request::{
    Declaration, ModuleDeclaration, ModulePath, NamePath, NameReference, RenameRequest,
    RootDeclaration, SealRequest,
};
pub use state::{
    AllocationCursor, ModuleTableHead, ModuleTableSnapshot, OperationKey, RenameReceipt,
    ResolvedName, SealReceipt, SealRequestDomain, SnapshotDigest, SnapshotIntegrityDomain,
    StateRevision, TableChange, TableGeneration, TableMutability,
};
pub use table::NameTable;
pub use transaction::{StagedRename, StagedSeal};
