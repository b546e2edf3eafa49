//! Persistent state records and typed locators.

use vstd::prelude::*;

use crate::canonical::{RequestDigest, RequestDigestV};
use crate::identity::{EncodedId, LocalEncodedId, TableAddress};
use crate::name::Name;
use crate::request::{NamePath, PathV};

verus! {

/// Whether the entries in one table may be operationally renamed.
#[derive(Clone, Copy, Debug, PartialEq, Eq, Structural, PartialOrd, Ord)]
pub enum TableMutability {
    /// Operational rename is permitted.
    Mutable,
    /// Operational rename fails before target lookup.
    Immutable,
}

/// Whether two mutabilities are equal.
pub fn same_mutability(a: TableMutability, b: TableMutability) -> (same: bool)
    ensures
        same == (a == b),
{
    match (a, b) {
        (TableMutability::Mutable, TableMutability::Mutable) => true,
        (TableMutability::Immutable, TableMutability::Immutable) => true,
        _ => false,
    }
}

/// One immutable table generation.
#[derive(Clone, Copy, Debug, PartialEq, Eq, Hash, PartialOrd, Ord)]
pub struct TableGeneration(pub(crate) u64);

impl View for TableGeneration {
    type V = u64;

    closed spec fn view(&self) -> u64 {
        self.0
    }
}

pub(crate) broadcast proof fn reveal_generation_view(generation: TableGeneration)
    ensures
        #[trigger] generation@ == generation.0,
{
}

impl TableGeneration {
    /// The generation holding `value`, as recorded in an archive.
    pub fn new(value: u64) -> (generation: Self)
        ensures
            generation@ == value,
    {
        TableGeneration(value)
    }

    /// The initial empty snapshot generation.
    pub fn zero() -> (generation: Self)
        ensures
            generation@ == 0,
    {
        TableGeneration(0)
    }

    /// The integer generation.
    pub fn value(self) -> (value: u64)
        ensures
            value == self@,
    {
        self.0
    }

    /// The next generation, or `None` when the counter is exhausted.
    pub(crate) fn next(self) -> (next: Option<Self>)
        ensures
            self@ < u64::MAX <==> next is Some,
            next matches Some(n) ==> n@ == self@ + 1,
    {
        if self.0 < u64::MAX {
            Some(TableGeneration(self.0 + 1))
        } else {
            None
        }
    }
}

/// The next table-local allocation, explicitly representing exhaustion.
#[derive(Clone, Copy, Debug, PartialEq, Eq, PartialOrd, Ord)]
pub enum AllocationCursor {
    /// The next available local ID.
    Next(LocalEncodedId),
    /// Every `u16` local ID has been allocated.
    Exhausted,
}

/// The number of entries a table with this cursor has allocated.
pub open spec fn cursor_count(cursor: AllocationCursor) -> nat {
    match cursor {
        AllocationCursor::Next(local) => local@ as nat,
        AllocationCursor::Exhausted => 65536,
    }
}

/// The cursor of a table holding `count` entries.
pub open spec fn cursor_for(count: nat) -> Option<AllocationCursor> {
    if count <= 65535 {
        Some(AllocationCursor::Next(LocalEncodedId::spec_new(count as u16)))
    } else if count == 65536 {
        Some(AllocationCursor::Exhausted)
    } else {
        None
    }
}

/// The cursor after one allocation.
pub open spec fn next_cursor(cursor: AllocationCursor) -> AllocationCursor {
    match cursor {
        AllocationCursor::Next(local) => if local@ == u16::MAX {
            AllocationCursor::Exhausted
        } else {
            AllocationCursor::Next(LocalEncodedId::spec_new((local@ + 1) as u16))
        },
        AllocationCursor::Exhausted => AllocationCursor::Exhausted,
    }
}

impl AllocationCursor {
    /// The cursor of a new empty table.
    pub fn zero() -> (cursor: Self)
        ensures
            cursor_for(0) == Some(cursor),
            cursor_count(cursor) == 0,
    {
        proof {
            crate::identity::lemma_local_spec_new();
        }
        AllocationCursor::Next(LocalEncodedId::new(0))
    }

    /// Allocate the next local ID, or `None` when exhausted.
    pub(crate) fn allocate(self) -> (result: Option<(LocalEncodedId, Self)>)
        ensures
            self is Exhausted <==> result is None,
            result matches Some((local, next)) ==> {
                &&& self == AllocationCursor::Next(local)
                &&& next == next_cursor(self)
                &&& local@ == cursor_count(self)
                &&& cursor_count(next) == cursor_count(self) + 1
                &&& cursor_for(cursor_count(next)) == Some(next)
            },
    {
        proof {
            crate::identity::lemma_local_spec_new();
        }
        match self {
            AllocationCursor::Next(local) => {
                if local.value() == u16::MAX {
                    Some((local, AllocationCursor::Exhausted))
                } else {
                    Some((local, AllocationCursor::Next(LocalEncodedId::new(local.value() + 1))))
                }
            },
            AllocationCursor::Exhausted => None,
        }
    }

    /// The cursor for a table holding `entries` entries.
    pub(crate) fn for_entry_count(entries: usize) -> (cursor: Option<Self>)
        ensures
            cursor == cursor_for(entries as nat),
    {
        proof {
            crate::identity::lemma_local_spec_new();
        }
        if entries <= 65535 {
            Some(AllocationCursor::Next(LocalEncodedId::new(entries as u16)))
        } else if entries == 65536 {
            Some(AllocationCursor::Exhausted)
        } else {
            None
        }
    }

    /// Whether two cursors are equal.
    pub(crate) fn same(self, other: Self) -> (same: bool)
        ensures
            same == (self == other),
    {
        proof {
            crate::identity::lemma_local_spec_new();
        }
        match (self, other) {
            (AllocationCursor::Next(a), AllocationCursor::Next(b)) => {
                proof {
                    assert(a == LocalEncodedId::spec_new(a@));
                    assert(b == LocalEncodedId::spec_new(b@));
                }
                a.value() == b.value()
            },
            (AllocationCursor::Exhausted, AllocationCursor::Exhausted) => true,
            _ => false,
        }
    }
}

/// The pure library state's monotonically increasing revision.
#[derive(Clone, Copy, Debug, PartialEq, Eq, Hash, PartialOrd, Ord)]
pub struct StateRevision(pub(crate) u64);

impl View for StateRevision {
    type V = u64;

    closed spec fn view(&self) -> u64 {
        self.0
    }
}

pub(crate) broadcast proof fn reveal_revision_view(revision: StateRevision)
    ensures
        #[trigger] revision@ == revision.0,
{
}

impl StateRevision {
    /// The revision holding `value`, as recorded in an archive.
    pub fn new(value: u64) -> (revision: Self)
        ensures
            revision@ == value,
    {
        StateRevision(value)
    }

    /// The revision integer.
    pub fn value(self) -> (value: u64)
        ensures
            value == self@,
    {
        self.0
    }

    /// The next revision, or `None` when the counter is exhausted.
    pub(crate) fn next(self) -> (next: Option<Self>)
        ensures
            self@ < u64::MAX <==> next is Some,
            next matches Some(n) ==> n@ == self@ + 1,
    {
        if self.0 < u64::MAX {
            Some(StateRevision(self.0 + 1))
        } else {
            None
        }
    }
}

impl Default for StateRevision {
    fn default() -> (revision: Self)
        ensures
            revision@ == 0,
    {
        StateRevision(0)
    }
}

/// A caller-supplied operation idempotency key.
#[derive(Clone, Copy, Debug, PartialEq, Eq, Hash, PartialOrd, Ord)]
pub struct OperationKey(pub(crate) [u8; 32]);

impl View for OperationKey {
    type V = Seq<u8>;

    closed spec fn view(&self) -> Seq<u8> {
        self.0@
    }
}

pub(crate) broadcast proof fn reveal_key_view(key: OperationKey)
    ensures
        #[trigger] key@ == key.0@,
{
}

impl OperationKey {
    /// Construct a key from caller-owned bytes.
    pub fn new(bytes: [u8; 32]) -> (key: Self)
        ensures
            key@ == bytes@,
    {
        OperationKey(bytes)
    }

    /// The exact key bytes.
    pub fn bytes(self) -> (bytes: [u8; 32])
        ensures
            bytes@ == self@,
    {
        self.0
    }

    /// Compare two keys by their bytes, lexicographically.
    pub fn compare(&self, other: &OperationKey) -> (result: i8)
        ensures
            result == crate::order::bytes_order(self@, other@),
    {
        crate::order::compare_bytes(self.0.as_slice(), other.0.as_slice())
    }

    /// Whether two keys hold the same bytes.
    pub fn same(&self, other: &OperationKey) -> (same: bool)
        ensures
            same == (self@ == other@),
    {
        let mut i: usize = 0;
        while i < 32
            invariant
                i <= 32,
                self.0@.len() == 32,
                other.0@.len() == 32,
                forall|k: int| 0 <= k < i ==> self.0@[k] == other.0@[k],
            decreases 32 - i,
        {
            if self.0[i] != other.0[i] {
                return false;
            }
            i = i + 1;
        }
        proof {
            assert(self.0@ =~= other.0@);
        }
        true
    }
}

/// Typed domain marker for an immutable snapshot's integrity locator.
pub struct SnapshotIntegrityDomain;

/// Typed domain marker for the canonical semantic content of a seal request.
pub struct SealRequestDomain;

/// Locator of one immutable table snapshot: its position in the state's
/// append-only snapshot history.
#[derive(Clone, Copy, Debug, PartialEq, Eq, Hash, PartialOrd, Ord)]
pub struct SnapshotDigest(pub(crate) u64);

impl View for SnapshotDigest {
    type V = u64;

    closed spec fn view(&self) -> u64 {
        self.0
    }
}

pub(crate) broadcast proof fn reveal_digest_view(digest: SnapshotDigest)
    ensures
        #[trigger] digest@ == digest.0,
{
}

impl SnapshotDigest {
    /// The locator of position `value`, as recorded in an archive.
    pub fn new(value: u64) -> (digest: Self)
        ensures
            digest@ == value,
    {
        SnapshotDigest(value)
    }

    /// The position of the snapshot in the history.
    pub fn value(self) -> (value: u64)
        ensures
            value == self@,
    {
        self.0
    }
}

/// The view of one table change.
pub struct TableChangeV<Root> {
    pub address: (Root, Seq<LocalEncodedId>),
    pub generation: u64,
    pub snapshot: u64,
}

/// One table generation and immutable snapshot created by a successful seal.
#[derive(Clone, Debug, PartialEq, Eq)]
pub struct TableChange<Root> {
    pub(crate) address: TableAddress<Root>,
    pub(crate) generation: TableGeneration,
    pub(crate) snapshot: SnapshotDigest,
}

impl<Root> View for TableChange<Root> {
    type V = TableChangeV<Root>;

    closed spec fn view(&self) -> TableChangeV<Root> {
        TableChangeV {
            address: self.address@,
            generation: self.generation@,
            snapshot: self.snapshot@,
        }
    }
}

pub(crate) broadcast proof fn reveal_change_view<Root>(change: TableChange<Root>)
    ensures
        #[trigger] change@ == (TableChangeV {
            address: change.address@,
            generation: change.generation.0,
            snapshot: change.snapshot.0,
        }),
{
}

impl<Root> TableChange<Root> {
    /// Record one table change, as recorded in an archive.
    pub fn new(address: TableAddress<Root>, generation: TableGeneration, snapshot: SnapshotDigest) -> (change:
        Self)
        ensures
            change@ == (TableChangeV {
                address: address@,
                generation: generation@,
                snapshot: snapshot@,
            }),
    {
        TableChange { address, generation, snapshot }
    }

    /// The table whose committed head changed.
    pub fn address(&self) -> (address: &TableAddress<Root>)
        ensures
            address@ == self@.address,
    {
        &self.address
    }

    /// The resulting immutable generation.
    pub fn generation(&self) -> (generation: TableGeneration)
        ensures
            generation@ == self@.generation,
    {
        self.generation
    }

    /// The exact resulting immutable snapshot locator.
    pub fn snapshot(&self) -> (snapshot: SnapshotDigest)
        ensures
            snapshot@ == self@.snapshot,
    {
        self.snapshot
    }
}

/// The view of one table head.
pub struct HeadV<Root> {
    pub address: (Root, Seq<LocalEncodedId>),
    pub mutability: TableMutability,
    pub generation: u64,
    pub cursor: AllocationCursor,
    pub current: u64,
}

/// The current mutable head of one table.
#[derive(Clone, Debug, PartialEq, Eq)]
pub struct ModuleTableHead<Root> {
    pub(crate) address: TableAddress<Root>,
    pub(crate) mutability: TableMutability,
    pub(crate) generation: TableGeneration,
    pub(crate) allocation_cursor: AllocationCursor,
    pub(crate) current_snapshot: SnapshotDigest,
}

impl<Root> View for ModuleTableHead<Root> {
    type V = HeadV<Root>;

    closed spec fn view(&self) -> HeadV<Root> {
        HeadV {
            address: self.address@,
            mutability: self.mutability,
            generation: self.generation@,
            cursor: self.allocation_cursor,
            current: self.current_snapshot@,
        }
    }
}

pub(crate) broadcast proof fn reveal_head_view<Root>(head: ModuleTableHead<Root>)
    ensures
        #[trigger] head@ == (HeadV {
            address: head.address@,
            mutability: head.mutability,
            generation: head.generation.0,
            cursor: head.allocation_cursor,
            current: head.current_snapshot.0,
        }),
{
}

impl<Root> ModuleTableHead<Root> {
    /// Record one table head, as recorded in an archive.
    pub fn new(
        address: TableAddress<Root>,
        mutability: TableMutability,
        generation: TableGeneration,
        allocation_cursor: AllocationCursor,
        current_snapshot: SnapshotDigest,
    ) -> (head: Self)
        ensures
            head@ == (HeadV {
                address: address@,
                mutability,
                generation: generation@,
                cursor: allocation_cursor,
                current: current_snapshot@,
            }),
    {
        ModuleTableHead { address, mutability, generation, allocation_cursor, current_snapshot }
    }

    /// The table's structural address.
    pub fn address(&self) -> (address: &TableAddress<Root>)
        ensures
            address@ == self@.address,
    {
        &self.address
    }

    /// The table-local operational rename policy.
    pub fn mutability(&self) -> (mutability: TableMutability)
        ensures
            mutability == self@.mutability,
    {
        self.mutability
    }

    /// The current immutable generation.
    pub fn generation(&self) -> (generation: TableGeneration)
        ensures
            generation@ == self@.generation,
    {
        self.generation
    }

    /// The explicit next-or-exhausted cursor.
    pub fn allocation_cursor(&self) -> (cursor: AllocationCursor)
        ensures
            cursor == self@.cursor,
    {
        self.allocation_cursor
    }

    /// The current immutable snapshot locator.
    pub fn current_snapshot(&self) -> (snapshot: SnapshotDigest)
        ensures
            snapshot@ == self@.current,
    {
        self.current_snapshot
    }
}

impl<Root: Copy> ModuleTableHead<Root> {
    /// An exact copy of this head.
    pub(crate) fn duplicate(&self) -> (copy: Self)
        ensures
            copy@ == self@,
    {
        ModuleTableHead {
            address: self.address.duplicate(),
            mutability: self.mutability,
            generation: self.generation,
            allocation_cursor: self.allocation_cursor,
            current_snapshot: self.current_snapshot,
        }
    }
}

/// The spellings held by a sequence of names.
pub open spec fn spellings(names: Seq<Name>) -> Seq<Seq<char>> {
    names.map_values(|name: Name| name@)
}

/// The view of one table snapshot.
pub struct SnapshotV<Root> {
    pub address: (Root, Seq<LocalEncodedId>),
    pub generation: u64,
    pub entries: Seq<Seq<char>>,
    pub digest: u64,
}

/// `position` is the first entry holding `spelling`.
pub open spec fn first_position(entries: Seq<Seq<char>>, spelling: Seq<char>, position: int) -> bool {
    &&& 0 <= position < entries.len()
    &&& entries[position] == spelling
    &&& forall|k: int| 0 <= k < position ==> entries[k] != spelling
}

/// One immutable generation of one table's ordered exact spellings.
#[derive(Clone, Debug, PartialEq, Eq)]
pub struct ModuleTableSnapshot<Root> {
    pub(crate) address: TableAddress<Root>,
    pub(crate) generation: TableGeneration,
    pub(crate) entries: Vec<Name>,
    pub(crate) digest: SnapshotDigest,
}

impl<Root> View for ModuleTableSnapshot<Root> {
    type V = SnapshotV<Root>;

    closed spec fn view(&self) -> SnapshotV<Root> {
        SnapshotV {
            address: self.address@,
            generation: self.generation@,
            entries: spellings(self.entries@),
            digest: self.digest@,
        }
    }
}

pub(crate) broadcast proof fn reveal_snapshot_view<Root>(snapshot: ModuleTableSnapshot<Root>)
    ensures
        #[trigger] snapshot@ == (SnapshotV {
            address: snapshot.address@,
            generation: snapshot.generation.0,
            entries: spellings(snapshot.entries@),
            digest: snapshot.digest.0,
        }),
{
}

/// Copy a sequence of names exactly.
pub(crate) fn copy_names(names: &[Name]) -> (copy: Vec<Name>)
    ensures
        spellings(copy@) == spellings(names@),
{
    let mut copy: Vec<Name> = Vec::with_capacity(names.len());
    let mut i: usize = 0;
    while i < names.len()
        invariant
            i <= names@.len(),
            spellings(copy@) == spellings(names@.subrange(0, i as int)),
        decreases names@.len() - i,
    {
        let ghost before = copy@;
        copy.push(names[i].duplicate());
        proof {
            assert(spellings(copy@) =~= spellings(before).push(names@[i as int]@));
            assert(names@.subrange(0, i + 1) =~= names@.subrange(0, i as int).push(
                names@[i as int],
            ));
            assert(spellings(names@.subrange(0, i + 1)) =~= spellings(
                names@.subrange(0, i as int),
            ).push(names@[i as int]@));
        }
        i = i + 1;
    }
    proof {
        assert(names@.subrange(0, names@.len() as int) =~= names@);
    }
    copy
}

impl<Root> ModuleTableSnapshot<Root> {
    /// Record one table snapshot, as recorded in an archive.
    pub fn new(
        address: TableAddress<Root>,
        generation: TableGeneration,
        entries: Vec<Name>,
        digest: SnapshotDigest,
    ) -> (snapshot: Self)
        ensures
            snapshot@ == (SnapshotV {
                address: address@,
                generation: generation@,
                entries: spellings(entries@),
                digest: digest@,
            }),
    {
        ModuleTableSnapshot { address, generation, entries, digest }
    }

    /// The table's structural address.
    pub fn address(&self) -> (address: &TableAddress<Root>)
        ensures
            address@ == self@.address,
    {
        &self.address
    }

    /// This immutable generation.
    pub fn generation(&self) -> (generation: TableGeneration)
        ensures
            generation@ == self@.generation,
    {
        self.generation
    }

    /// Ordered `local encodedID -> exact spelling` entries.
    pub fn entries(&self) -> (entries: &[Name])
        ensures
            spellings(entries@) == self@.entries,
    {
        self.entries.as_slice()
    }

    /// The snapshot's integrity locator.
    pub fn digest(&self) -> (digest: SnapshotDigest)
        ensures
            digest@ == self@.digest,
    {
        self.digest
    }

    /// Resolve one table-local ID.
    pub fn resolve_local(&self, local: LocalEncodedId) -> (name: Option<&Name>)
        ensures
            (local@ < self@.entries.len()) <==> name is Some,
            name matches Some(n) ==> n@ == self@.entries[local@ as int],
    {
        proof {
            crate::identity::reveal_local_view(local);
        }
        let index = local.0 as usize;
        if index < self.entries.len() {
            Some(&self.entries[index])
        } else {
            None
        }
    }

    /// Look up an exact spelling in this table only.
    pub fn lookup_local(&self, spelling: &Name) -> (local: Option<LocalEncodedId>)
        ensures
            match local {
                Some(l) => first_position(self@.entries, spelling@, l@ as int),
                None => forall|k: int|
                    0 <= k < self@.entries.len() && k <= u16::MAX ==> self@.entries[k] != spelling@,
            },
    {
        let ghost entries = self@.entries;
        let mut i: usize = 0;
        while i < self.entries.len()
            invariant
                entries == spellings(self.entries@),
                i <= self.entries@.len(),
                forall|k: int| 0 <= k < i ==> entries[k] != spelling@,
            decreases self.entries@.len() - i,
        {
            if self.entries[i].same(spelling) {
                if i <= 65535 {
                    proof {
                        crate::identity::lemma_local_spec_new();
                    }
                    return Some(LocalEncodedId::new(i as u16));
                } else {
                    return None;
                }
            }
            i = i + 1;
        }
        None
    }
}

impl<Root: Copy> ModuleTableSnapshot<Root> {
    /// An exact copy of this snapshot.
    pub(crate) fn duplicate(&self) -> (copy: Self)
        ensures
            copy@ == self@,
    {
        ModuleTableSnapshot {
            address: self.address.duplicate(),
            generation: self.generation,
            entries: copy_names(self.entries.as_slice()),
            digest: self.digest,
        }
    }
}

/// The view of one resolved name.
pub struct ResolvedV<Root> {
    pub path: PathV<Root>,
    pub encoded_id: (Root, Seq<LocalEncodedId>),
}

/// One declared or referenced path resolved by a seal.
#[derive(Clone, Debug, PartialEq, Eq)]
pub struct ResolvedName<Root> {
    pub(crate) path: NamePath<Root>,
    pub(crate) encoded_id: EncodedId<Root>,
}

impl<Root> View for ResolvedName<Root> {
    type V = ResolvedV<Root>;

    closed spec fn view(&self) -> ResolvedV<Root> {
        ResolvedV { path: self.path@, encoded_id: self.encoded_id@ }
    }
}

pub(crate) broadcast proof fn reveal_resolved_view<Root>(resolved: ResolvedName<Root>)
    ensures
        #[trigger] resolved@ == (ResolvedV {
            path: resolved.path@,
            encoded_id: resolved.encoded_id@,
        }),
{
}

impl<Root> ResolvedName<Root> {
    /// Record one resolved name, as recorded in an archive.
    pub fn new(path: NamePath<Root>, encoded_id: EncodedId<Root>) -> (resolved: Self)
        ensures
            resolved@ == (ResolvedV { path: path@, encoded_id: encoded_id@ }),
    {
        ResolvedName { path, encoded_id }
    }

    /// The submitted textual path.
    pub fn path(&self) -> (path: &NamePath<Root>)
        ensures
            path@ == self@.path,
    {
        &self.path
    }

    /// Its complete durable chain.
    pub fn encoded_id(&self) -> (id: &EncodedId<Root>)
        ensures
            id@ == self@.encoded_id,
    {
        &self.encoded_id
    }
}

/// The views of a sequence of values.
pub open spec fn resolved_views<Root>(s: Seq<ResolvedName<Root>>) -> Seq<ResolvedV<Root>> {
    s.map_values(|r: ResolvedName<Root>| r@)
}

/// The views of a sequence of table changes.
pub open spec fn change_views<Root>(s: Seq<TableChange<Root>>) -> Seq<TableChangeV<Root>> {
    s.map_values(|c: TableChange<Root>| c@)
}

/// The view of one seal receipt.
pub struct SealReceiptV<Root> {
    pub operation_key: Seq<u8>,
    pub request_digest: RequestDigestV<Root>,
    pub changed_tables: Seq<TableChangeV<Root>>,
    pub declarations: Seq<ResolvedV<Root>>,
    pub references: Seq<ResolvedV<Root>>,
    pub resulting_revision: u64,
}

/// Durable result of one successful seal.
#[derive(Clone, Debug, PartialEq, Eq)]
pub struct SealReceipt<Root> {
    pub(crate) operation_key: OperationKey,
    pub(crate) request_digest: RequestDigest<Root>,
    pub(crate) changed_tables: Vec<TableChange<Root>>,
    pub(crate) declarations: Vec<ResolvedName<Root>>,
    pub(crate) references: Vec<ResolvedName<Root>>,
    pub(crate) resulting_revision: StateRevision,
}

impl<Root> View for SealReceipt<Root> {
    type V = SealReceiptV<Root>;

    closed spec fn view(&self) -> SealReceiptV<Root> {
        SealReceiptV {
            operation_key: self.operation_key@,
            request_digest: self.request_digest@,
            changed_tables: change_views(self.changed_tables@),
            declarations: resolved_views(self.declarations@),
            references: resolved_views(self.references@),
            resulting_revision: self.resulting_revision@,
        }
    }
}

pub(crate) broadcast proof fn reveal_seal_receipt_view<Root>(receipt: SealReceipt<Root>)
    ensures
        #[trigger] receipt@ == (SealReceiptV {
            operation_key: receipt.operation_key.0@,
            request_digest: receipt.request_digest@,
            changed_tables: change_views(receipt.changed_tables@),
            declarations: resolved_views(receipt.declarations@),
            references: resolved_views(receipt.references@),
            resulting_revision: receipt.resulting_revision.0,
        }),
{
}

impl<Root> SealReceipt<Root> {
    /// Record one seal receipt, as recorded in an archive.
    pub fn new(
        operation_key: OperationKey,
        request_digest: RequestDigest<Root>,
        changed_tables: Vec<TableChange<Root>>,
        declarations: Vec<ResolvedName<Root>>,
        references: Vec<ResolvedName<Root>>,
        resulting_revision: StateRevision,
    ) -> (receipt: Self)
        ensures
            receipt@ == (SealReceiptV {
                operation_key: operation_key@,
                request_digest: request_digest@,
                changed_tables: change_views(changed_tables@),
                declarations: resolved_views(declarations@),
                references: resolved_views(references@),
                resulting_revision: resulting_revision@,
            }),
    {
        SealReceipt {
            operation_key,
            request_digest,
            changed_tables,
            declarations,
            references,
            resulting_revision,
        }
    }

    /// The idempotency key.
    pub fn operation_key(&self) -> (key: OperationKey)
        ensures
            key@ == self@.operation_key,
    {
        self.operation_key
    }

    /// The canonical request digest.
    pub fn request_digest(&self) -> (digest: &RequestDigest<Root>)
        ensures
            digest@ == self@.request_digest,
    {
        &self.request_digest
    }

    /// Every table generation and snapshot created by this seal.
    ///
    /// The records are ordered by table address and remain exact during an
    /// idempotent replay even if those tables have advanced since the seal.
    pub fn changed_tables(&self) -> (changes: &[TableChange<Root>])
        ensures
            change_views(changes@) == self@.changed_tables,
    {
        self.changed_tables.as_slice()
    }

    /// Every declaration result in deterministic parent-before-child order.
    pub fn declarations(&self) -> (declarations: &[ResolvedName<Root>])
        ensures
            resolved_views(declarations@) == self@.declarations,
    {
        self.declarations.as_slice()
    }

    /// Every lookup-only reference result in canonical path order.
    pub fn references(&self) -> (references: &[ResolvedName<Root>])
        ensures
            resolved_views(references@) == self@.references,
    {
        self.references.as_slice()
    }

    /// The committed pure-state revision.
    pub fn resulting_revision(&self) -> (revision: StateRevision)
        ensures
            revision@ == self@.resulting_revision,
    {
        self.resulting_revision
    }
}

/// The view of one rename receipt.
pub struct RenameReceiptV<Root> {
    pub operation_key: Seq<u8>,
    pub target: (Root, Seq<LocalEncodedId>),
    pub old_spelling: Seq<char>,
    pub new_spelling: Seq<char>,
    pub resulting_generation: u64,
    pub resulting_revision: u64,
}

/// Durable result of one chain-preserving operational rename.
#[derive(Clone, Debug, PartialEq, Eq)]
pub struct RenameReceipt<Root> {
    pub(crate) operation_key: OperationKey,
    pub(crate) target: EncodedId<Root>,
    pub(crate) old_spelling: Name,
    pub(crate) new_spelling: Name,
    pub(crate) resulting_generation: TableGeneration,
    pub(crate) resulting_revision: StateRevision,
}

impl<Root> View for RenameReceipt<Root> {
    type V = RenameReceiptV<Root>;

    closed spec fn view(&self) -> RenameReceiptV<Root> {
        RenameReceiptV {
            operation_key: self.operation_key@,
            target: self.target@,
            old_spelling: self.old_spelling@,
            new_spelling: self.new_spelling@,
            resulting_generation: self.resulting_generation@,
            resulting_revision: self.resulting_revision@,
        }
    }
}

pub(crate) broadcast proof fn reveal_rename_receipt_view<Root>(receipt: RenameReceipt<Root>)
    ensures
        #[trigger] receipt@ == (RenameReceiptV {
            operation_key: receipt.operation_key.0@,
            target: receipt.target@,
            old_spelling: receipt.old_spelling@,
            new_spelling: receipt.new_spelling@,
            resulting_generation: receipt.resulting_generation.0,
            resulting_revision: receipt.resulting_revision.0,
        }),
{
}

impl<Root> RenameReceipt<Root> {
    /// Record one rename receipt, as recorded in an archive.
    pub fn new(
        operation_key: OperationKey,
        target: EncodedId<Root>,
        old_spelling: Name,
        new_spelling: Name,
        resulting_generation: TableGeneration,
        resulting_revision: StateRevision,
    ) -> (receipt: Self)
        ensures
            receipt@ == (RenameReceiptV {
                operation_key: operation_key@,
                target: target@,
                old_spelling: old_spelling@,
                new_spelling: new_spelling@,
                resulting_generation: resulting_generation@,
                resulting_revision: resulting_revision@,
            }),
    {
        RenameReceipt {
            operation_key,
            target,
            old_spelling,
            new_spelling,
            resulting_generation,
            resulting_revision,
        }
    }

    /// The idempotency key.
    pub fn operation_key(&self) -> (key: OperationKey)
        ensures
            key@ == self@.operation_key,
    {
        self.operation_key
    }

    /// The unchanged complete identity.
    pub fn target(&self) -> (target: &EncodedId<Root>)
        ensures
            target@ == self@.target,
    {
        &self.target
    }

    /// The spelling replaced by this operation.
    pub fn old_spelling(&self) -> (spelling: &Name)
        ensures
            spelling@ == self@.old_spelling,
    {
        &self.old_spelling
    }

    /// The replacement exact spelling.
    pub fn new_spelling(&self) -> (spelling: &Name)
        ensures
            spelling@ == self@.new_spelling,
    {
        &self.new_spelling
    }

    /// The new immutable generation of the owning table.
    pub fn resulting_generation(&self) -> (generation: TableGeneration)
        ensures
            generation@ == self@.resulting_generation,
    {
        self.resulting_generation
    }

    /// The committed pure-state revision.
    pub fn resulting_revision(&self) -> (revision: StateRevision)
        ensures
            revision@ == self@.resulting_revision,
    {
        self.resulting_revision
    }
}

/// The view of one stored operation receipt.
pub enum ReceiptV<Root> {
    Seal(SealReceiptV<Root>),
    Rename(RenameReceiptV<Root>),
}

/// One stored idempotency receipt.
#[derive(Clone, Debug, PartialEq, Eq)]
pub enum OperationReceipt<Root> {
    Seal(SealReceipt<Root>),
    Rename(RenameReceipt<Root>),
}

impl<Root> View for OperationReceipt<Root> {
    type V = ReceiptV<Root>;

    open spec fn view(&self) -> ReceiptV<Root> {
        match self {
            OperationReceipt::Seal(receipt) => ReceiptV::Seal(receipt@),
            OperationReceipt::Rename(receipt) => ReceiptV::Rename(receipt@),
        }
    }
}

impl<Root> OperationReceipt<Root> {
    /// The key under which this receipt is stored.
    pub open spec fn key_view(&self) -> Seq<u8> {
        match self {
            OperationReceipt::Seal(receipt) => receipt@.operation_key,
            OperationReceipt::Rename(receipt) => receipt@.operation_key,
        }
    }

    /// The key under which this receipt is stored.
    pub fn operation_key(&self) -> (key: OperationKey)
        ensures
            key@ == self.key_view(),
    {
        match self {
            OperationReceipt::Seal(receipt) => receipt.operation_key(),
            OperationReceipt::Rename(receipt) => receipt.operation_key(),
        }
    }
}

} // verus!
