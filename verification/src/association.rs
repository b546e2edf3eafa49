//! Pure facts and capability contracts for opaque name associations.
//!
//! These records own no mutable table, entropy source or journal: an
//! authority owns those. `EncodedName` is archive and reference data; an
//! authority mints it from a cryptographic random source and never accepts
//! caller-selected bytes for a create operation.

use vstd::prelude::*;

use std::collections::BTreeSet;

pub use crate::state::OperationKey;

verus! {

broadcast use crate::state::reveal_key_view;

/// An opaque 128-bit encoded reference.
#[derive(Clone, Copy, Debug, PartialEq, Eq, Hash, PartialOrd, Ord)]
pub struct EncodedName(pub(crate) [u8; 16]);

impl View for EncodedName {
    type V = Seq<u8>;

    closed spec fn view(&self) -> Seq<u8> {
        self.0@
    }
}

impl EncodedName {
    /// Reconstruct archived or reference data. This is not an allocation API.
    pub fn from_archive_bytes(bytes: [u8; 16]) -> (name: Self)
        ensures
            name@ == bytes@,
    {
        EncodedName(bytes)
    }

    /// The exact archive and reference bytes.
    pub fn archive_bytes(self) -> (bytes: [u8; 16])
        ensures
            bytes@ == self@,
    {
        self.0
    }
}

/// The opaque content identity of one canonical object body: the 32 bytes
/// of its content-addressed hash.
#[derive(Clone, Copy, Debug, PartialEq, Eq, Hash, PartialOrd, Ord)]
pub struct TrueName(pub(crate) [u8; 32]);

impl View for TrueName {
    type V = Seq<u8>;

    closed spec fn view(&self) -> Seq<u8> {
        self.0@
    }
}

impl TrueName {
    /// Wrap a content identity already derived by the authority from its
    /// validated canonical body projection.
    pub fn from_content_addressed_hash(hash: [u8; 32]) -> (name: Self)
        ensures
            name@ == hash@,
    {
        TrueName(hash)
    }

    /// The opaque content identity for archive and comparison use.
    pub fn content_addressed_hash(self) -> (hash: [u8; 32])
        ensures
            hash@ == self@,
    {
        self.0
    }
}

/// Shared pure refusals for malformed facts.
#[derive(Clone, Copy, Debug, PartialEq, Eq, Structural)]
pub enum NameTableError {
    /// The content revision counter cannot advance.
    ContentRevisionExhausted,
}

impl NameTableError {
    /// The failure described in words.
    pub fn message(&self) -> (text: &'static str)
        ensures
            text@ == "content revision overflowed"@,
    {
        match self {
            NameTableError::ContentRevisionExhausted => "content revision overflowed",
        }
    }
}

/// A monotonic revision that changes only when object content changes.
#[derive(Clone, Copy, Debug, PartialEq, Eq, Hash, PartialOrd, Ord)]
pub struct ContentRevision(pub(crate) u64);

impl View for ContentRevision {
    type V = u64;

    closed spec fn view(&self) -> u64 {
        self.0
    }
}

impl ContentRevision {
    /// The revision assigned at creation.
    pub fn initial() -> (revision: Self)
        ensures
            revision@ == 0,
    {
        ContentRevision(0)
    }

    /// The numeric archive value.
    pub fn value(self) -> (value: u64)
        ensures
            value == self@,
    {
        self.0
    }

    /// The next content revision, or a typed overflow refusal.
    pub fn next(self) -> (next: Result<Self, NameTableError>)
        ensures
            self@ < u64::MAX <==> next is Ok,
            next matches Ok(n) ==> n@ == self@ + 1,
            next matches Err(e) ==> e == NameTableError::ContentRevisionExhausted,
    {
        match self.0.checked_add(1) {
            Some(value) => Ok(ContentRevision(value)),
            None => Err(NameTableError::ContentRevisionExhausted),
        }
    }
}

/// An exact visible spelling, kept outside content identity.
#[derive(Clone, Debug, PartialEq, Eq, Hash, PartialOrd, Ord)]
pub struct VisibleName(pub(crate) String);

impl View for VisibleName {
    type V = Seq<char>;

    closed spec fn view(&self) -> Seq<char> {
        self.0@
    }
}

impl VisibleName {
    /// Record an exact spelling without normalization.
    pub fn new(value: String) -> (name: Self)
        ensures
            name@ == value@,
    {
        VisibleName(value)
    }

    /// Read the exact spelling.
    pub fn as_str(&self) -> (text: &str)
        ensures
            text@ == self@,
    {
        self.0.as_str()
    }
}

/// The texts of a list of segments.
pub open spec fn segment_texts(segments: Seq<String>) -> Seq<Seq<char>> {
    segments.map_values(|s: String| s@)
}

/// Structured module placement for a textual projection.
#[derive(Clone, Debug, PartialEq, Eq, Hash, PartialOrd, Ord)]
pub struct ModulePlacement(pub(crate) Vec<String>);

impl View for ModulePlacement {
    type V = Seq<Seq<char>>;

    closed spec fn view(&self) -> Seq<Seq<char>> {
        segment_texts(self.0@)
    }
}

impl ModulePlacement {
    /// Record ordered module segments; no segments is the root.
    pub fn new(segments: Vec<String>) -> (placement: Self)
        ensures
            placement@ == segment_texts(segments@),
    {
        ModulePlacement(segments)
    }

    /// Ordered module segments.
    pub fn segments(&self) -> (segments: &[String])
        ensures
            segment_texts(segments@) == self@,
    {
        self.0.as_slice()
    }
}

/// Structured file placement for a textual projection.
#[derive(Clone, Debug, PartialEq, Eq, Hash, PartialOrd, Ord)]
pub struct FilePlacement(pub(crate) Vec<String>);

impl View for FilePlacement {
    type V = Seq<Seq<char>>;

    closed spec fn view(&self) -> Seq<Seq<char>> {
        segment_texts(self.0@)
    }
}

impl FilePlacement {
    /// Record ordered file-path segments.
    pub fn new(segments: Vec<String>) -> (placement: Self)
        ensures
            placement@ == segment_texts(segments@),
    {
        FilePlacement(segments)
    }

    /// Ordered file-path segments.
    pub fn segments(&self) -> (segments: &[String])
        ensures
            segment_texts(segments@) == self@,
    {
        self.0.as_slice()
    }
}

/// The view of textual metadata: visible name, module and file placement.
pub struct MetadataV {
    pub visible_name: Seq<char>,
    pub module_placement: Seq<Seq<char>>,
    pub file_placement: Seq<Seq<char>>,
}

/// Textual-only data keyed operationally by one encoded name.
#[derive(Clone, Debug, PartialEq, Eq, Hash, PartialOrd, Ord)]
pub struct TextualMetadata {
    pub(crate) visible_name: VisibleName,
    pub(crate) module_placement: ModulePlacement,
    pub(crate) file_placement: FilePlacement,
}

impl View for TextualMetadata {
    type V = MetadataV;

    closed spec fn view(&self) -> MetadataV {
        MetadataV {
            visible_name: self.visible_name@,
            module_placement: self.module_placement@,
            file_placement: self.file_placement@,
        }
    }
}

impl TextualMetadata {
    /// Construct structured textual metadata.
    pub fn new(
        visible_name: VisibleName,
        module_placement: ModulePlacement,
        file_placement: FilePlacement,
    ) -> (metadata: Self)
        ensures
            metadata@ == (MetadataV {
                visible_name: visible_name@,
                module_placement: module_placement@,
                file_placement: file_placement@,
            }),
    {
        TextualMetadata { visible_name, module_placement, file_placement }
    }

    /// The visible spelling.
    pub fn visible_name(&self) -> (name: &VisibleName)
        ensures
            name@ == self@.visible_name,
    {
        &self.visible_name
    }

    /// The module placement.
    pub fn module_placement(&self) -> (placement: &ModulePlacement)
        ensures
            placement@ == self@.module_placement,
    {
        &self.module_placement
    }

    /// The file placement.
    pub fn file_placement(&self) -> (placement: &FilePlacement)
        ensures
            placement@ == self@.file_placement,
    {
        &self.file_placement
    }
}

/// Whether an issued encoded name remains live.
#[derive(Clone, Copy, Debug, PartialEq, Eq, Structural, Hash, PartialOrd, Ord)]
pub enum NameLifecycle {
    Live,
    Tombstoned,
}

/// The view of one forward association.
pub struct AssociationV {
    pub true_name: Seq<u8>,
    pub content_revision: u64,
    pub lifecycle: NameLifecycle,
}

/// One forward association fact.
#[derive(Clone, Debug, PartialEq, Eq)]
pub struct NameAssociation {
    pub(crate) true_name: TrueName,
    pub(crate) content_revision: ContentRevision,
    pub(crate) lifecycle: NameLifecycle,
}

impl View for NameAssociation {
    type V = AssociationV;

    closed spec fn view(&self) -> AssociationV {
        AssociationV {
            true_name: self.true_name@,
            content_revision: self.content_revision@,
            lifecycle: self.lifecycle,
        }
    }
}

impl NameAssociation {
    /// Construct an archivable association fact.
    pub fn new(
        true_name: TrueName,
        content_revision: ContentRevision,
        lifecycle: NameLifecycle,
    ) -> (association: Self)
        ensures
            association@ == (AssociationV {
                true_name: true_name@,
                content_revision: content_revision@,
                lifecycle,
            }),
    {
        NameAssociation { true_name, content_revision, lifecycle }
    }

    /// The current content identity.
    pub fn true_name(&self) -> (name: TrueName)
        ensures
            name@ == self@.true_name,
    {
        self.true_name
    }

    /// The current content revision.
    pub fn content_revision(&self) -> (revision: ContentRevision)
        ensures
            revision@ == self@.content_revision,
    {
        self.content_revision
    }

    /// The current lifecycle.
    pub fn lifecycle(&self) -> (lifecycle: NameLifecycle)
        ensures
            lifecycle == self@.lifecycle,
    {
        self.lifecycle
    }
}

/// The view of one realized action.
pub enum ActionV {
    Create(Seq<u8>, Seq<u8>, MetadataV),
    ReviseContent(Seq<u8>, u64, Seq<u8>, u64),
    SetTextualMetadata(Seq<u8>, MetadataV),
    Delete(Seq<u8>, u64),
}

/// Realized association mutations.
#[derive(Clone, Debug, PartialEq, Eq)]
pub enum RealizedNameAction {
    /// A random encoded name was associated with a true name.
    Create { encoded_name: EncodedName, true_name: TrueName, metadata: TextualMetadata },
    /// An existing name, a new content identity and the exact next revision.
    ReviseContent {
        encoded_name: EncodedName,
        expected_revision: ContentRevision,
        next_true_name: TrueName,
        next_revision: ContentRevision,
    },
    /// Textual metadata only; semantic identity and revision do not change.
    SetTextualMetadata { encoded_name: EncodedName, metadata: TextualMetadata },
    /// Permanently tombstone an issued encoded name.
    Delete { encoded_name: EncodedName, expected_revision: ContentRevision },
}

impl View for RealizedNameAction {
    type V = ActionV;

    open spec fn view(&self) -> ActionV {
        match self {
            RealizedNameAction::Create { encoded_name, true_name, metadata } => ActionV::Create(
                encoded_name@,
                true_name@,
                metadata@,
            ),
            RealizedNameAction::ReviseContent {
                encoded_name,
                expected_revision,
                next_true_name,
                next_revision,
            } => ActionV::ReviseContent(
                encoded_name@,
                expected_revision@,
                next_true_name@,
                next_revision@,
            ),
            RealizedNameAction::SetTextualMetadata { encoded_name, metadata } =>
                ActionV::SetTextualMetadata(encoded_name@, metadata@),
            RealizedNameAction::Delete { encoded_name, expected_revision } => ActionV::Delete(
                encoded_name@,
                expected_revision@,
            ),
        }
    }
}

/// The view of one realized change.
pub struct ChangeV {
    pub sequence: u64,
    pub operation_key: Seq<u8>,
    pub action: ActionV,
}

/// An immutable realized change fact. Create records the actual random
/// bytes, so replay reads facts and never regenerates entropy or content
/// identities.
#[derive(Clone, Debug, PartialEq, Eq)]
pub struct NameChange {
    pub(crate) sequence: u64,
    pub(crate) operation_key: OperationKey,
    pub(crate) action: RealizedNameAction,
}

impl View for NameChange {
    type V = ChangeV;

    closed spec fn view(&self) -> ChangeV {
        ChangeV {
            sequence: self.sequence,
            operation_key: self.operation_key@,
            action: self.action@,
        }
    }
}

impl NameChange {
    /// Record one realized action at an exact sequence.
    pub fn new(sequence: u64, operation_key: OperationKey, action: RealizedNameAction) -> (change:
        Self)
        ensures
            change@ == (ChangeV { sequence, operation_key: operation_key@, action: action@ }),
    {
        NameChange { sequence, operation_key, action }
    }

    /// The exact append-only sequence.
    pub fn sequence(&self) -> (sequence: u64)
        ensures
            sequence == self@.sequence,
    {
        self.sequence
    }

    /// The idempotency key.
    pub fn operation_key(&self) -> (key: OperationKey)
        ensures
            key@ == self@.operation_key,
    {
        self.operation_key
    }

    /// The realized facts.
    pub fn action(&self) -> (action: &RealizedNameAction)
        ensures
            action@ == self@.action,
    {
        &self.action
    }
}

/// The view of one mutation receipt.
pub struct ChangeReceiptV {
    pub operation_key: Seq<u8>,
    pub sequence: u64,
    pub encoded_name: Seq<u8>,
    pub content_revision: u64,
    pub lifecycle: NameLifecycle,
}

/// The receipt returned by an idempotent successful mutation.
#[derive(Clone, Copy, Debug, PartialEq, Eq)]
pub struct NameChangeReceipt {
    pub(crate) operation_key: OperationKey,
    pub(crate) sequence: u64,
    pub(crate) encoded_name: EncodedName,
    pub(crate) content_revision: ContentRevision,
    pub(crate) lifecycle: NameLifecycle,
}

impl View for NameChangeReceipt {
    type V = ChangeReceiptV;

    closed spec fn view(&self) -> ChangeReceiptV {
        ChangeReceiptV {
            operation_key: self.operation_key@,
            sequence: self.sequence,
            encoded_name: self.encoded_name@,
            content_revision: self.content_revision@,
            lifecycle: self.lifecycle,
        }
    }
}

impl NameChangeReceipt {
    /// Construct a realized receipt.
    pub fn new(
        operation_key: OperationKey,
        sequence: u64,
        encoded_name: EncodedName,
        content_revision: ContentRevision,
        lifecycle: NameLifecycle,
    ) -> (receipt: Self)
        ensures
            receipt@ == (ChangeReceiptV {
                operation_key: operation_key@,
                sequence,
                encoded_name: encoded_name@,
                content_revision: content_revision@,
                lifecycle,
            }),
    {
        NameChangeReceipt { operation_key, sequence, encoded_name, content_revision, lifecycle }
    }

    /// The idempotency key.
    pub fn operation_key(&self) -> (key: OperationKey)
        ensures
            key@ == self@.operation_key,
    {
        self.operation_key
    }

    /// The change sequence.
    pub fn sequence(&self) -> (sequence: u64)
        ensures
            sequence == self@.sequence,
    {
        self.sequence
    }

    /// The associated encoded name.
    pub fn encoded_name(&self) -> (name: EncodedName)
        ensures
            name@ == self@.encoded_name,
    {
        self.encoded_name
    }

    /// The resulting content revision.
    pub fn content_revision(&self) -> (revision: ContentRevision)
        ensures
            revision@ == self@.content_revision,
    {
        self.content_revision
    }

    /// The resulting lifecycle.
    pub fn lifecycle(&self) -> (lifecycle: NameLifecycle)
        ensures
            lifecycle == self@.lifecycle,
    {
        self.lifecycle
    }
}

/// Read-only association and textual projection contract.
pub trait NameView {
    /// The association, tombstones included.
    fn association(&self, encoded_name: &EncodedName) -> Option<&NameAssociation>;

    /// Every live encoded name sharing one true name.
    fn encoded_names(&self, true_name: &TrueName) -> Option<&BTreeSet<EncodedName>>;

    /// The textual metadata of a live name.
    fn textual_metadata(&self, encoded_name: &EncodedName) -> Option<&TextualMetadata>;
}

/// Mutation capability. Its create operation takes no `EncodedName`: the
/// implementation owns cryptographic random allocation.
pub trait NameAssociationAuthority: NameView {
    /// The concrete authority refusal type.
    type Refusal;

    /// Stage and commit creation with an authority-minted encoded name.
    fn create(
        &mut self,
        operation_key: OperationKey,
        true_name: TrueName,
        metadata: TextualMetadata,
    ) -> Result<NameChangeReceipt, Self::Refusal>;

    /// Revise semantic content while retaining the encoded name.
    fn revise_content(
        &mut self,
        operation_key: OperationKey,
        encoded_name: EncodedName,
        expected_revision: ContentRevision,
        next_true_name: TrueName,
    ) -> Result<NameChangeReceipt, Self::Refusal>;

    /// Replace textual metadata only.
    fn set_textual_metadata(
        &mut self,
        operation_key: OperationKey,
        encoded_name: EncodedName,
        metadata: TextualMetadata,
    ) -> Result<NameChangeReceipt, Self::Refusal>;

    /// Tombstone an encoded name forever.
    fn delete(
        &mut self,
        operation_key: OperationKey,
        encoded_name: EncodedName,
        expected_revision: ContentRevision,
    ) -> Result<NameChangeReceipt, Self::Refusal>;
}

/// Exact reconstruction capability over a concrete authority-owned snapshot.
pub trait NameChangeReplay {
    /// The concrete snapshot owned by the authority implementation.
    type Snapshot;

    /// The typed replay refusal.
    type Refusal;

    /// Rebuild from a validated snapshot and realized facts only.
    fn replay(snapshot: Self::Snapshot, changes: &[NameChange]) -> Result<
        Self::Snapshot,
        Self::Refusal,
    >;
}

} // verus!
