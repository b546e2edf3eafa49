//! Generic nested-table state and operations.

use vstd::prelude::*;

use crate::error::{ErrorV, NameTableError};
use crate::identity::{EncodedId, LocalEncodedId, TableAddress};
use crate::name::Name;
use crate::root_order::{root_laws, same_root};
use crate::state::{
    HeadV, ModuleTableHead, ModuleTableSnapshot, OperationReceipt, ReceiptV,
    SnapshotDigest, SnapshotV, StateRevision, first_position,
};

verus! {

broadcast use {
    crate::identity::reveal_local_view,
    crate::identity::reveal_address_view,
    crate::identity::reveal_id_view,
    crate::state::reveal_head_view,
    crate::state::reveal_snapshot_view,
    crate::state::reveal_revision_view,
    crate::state::reveal_digest_view,
    crate::state::reveal_generation_view,
};

/// The view of a complete name-table state.
pub struct TableV<Root> {
    pub revision: u64,
    pub heads: Seq<HeadV<Root>>,
    pub snapshots: Seq<SnapshotV<Root>>,
    pub receipts: Seq<ReceiptV<Root>>,
}

/// A table address or encoded ID, by its view.
pub type AddressV<Root> = (Root, Seq<LocalEncodedId>);

/// The position of the head of table `address`, if any.
#[verifier::opaque]
pub open spec fn head_index<Root>(heads: Seq<HeadV<Root>>, address: AddressV<Root>) -> Option<int> {
    if exists|i: int| 0 <= i < heads.len() && heads[i].address == address {
        Some(
            choose|i: int|
                0 <= i < heads.len() && heads[i].address == address && forall|j: int|
                    0 <= j < i ==> heads[j].address != address,
        )
    } else {
        None
    }
}

/// A first matching position exists whenever any position matches.
pub proof fn lemma_head_index<Root>(heads: Seq<HeadV<Root>>, address: AddressV<Root>, i: int)
    requires
        0 <= i < heads.len(),
        heads[i].address == address,
        forall|j: int| 0 <= j < i ==> heads[j].address != address,
    ensures
        head_index(heads, address) == Some(i),
{
    reveal(head_index);
    let k = choose|k: int|
        0 <= k < heads.len() && heads[k].address == address && forall|j: int|
            0 <= j < k ==> heads[j].address != address;
    assert(0 <= i < heads.len() && heads[i].address == address && forall|j: int|
        0 <= j < i ==> heads[j].address != address);
    if k < i {
        assert(heads[k].address != address);
    }
    if k > i {
        assert(heads[i].address != address);
    }
}

/// What the position of a head means.
pub proof fn lemma_head_index_props<Root>(heads: Seq<HeadV<Root>>, address: AddressV<Root>)
    ensures
        match head_index(heads, address) {
            Some(i) => 0 <= i < heads.len() && heads[i].address == address && forall|j: int|
                0 <= j < i ==> heads[j].address != address,
            None => forall|j: int| 0 <= j < heads.len() ==> heads[j].address != address,
        },
{
    reveal(head_index);
    if exists|i: int| 0 <= i < heads.len() && heads[i].address == address {
        let w = choose|i: int| 0 <= i < heads.len() && heads[i].address == address;
        lemma_first_match(heads, address, w);
    }
}

/// A matching position implies a first matching position.
proof fn lemma_first_match<Root>(heads: Seq<HeadV<Root>>, address: AddressV<Root>, w: int)
    requires
        0 <= w < heads.len(),
        heads[w].address == address,
    ensures
        exists|i: int|
            0 <= i < heads.len() && heads[i].address == address && forall|j: int|
                0 <= j < i ==> heads[j].address != address,
    decreases w,
{
    if exists|j: int| 0 <= j < w && heads[j].address == address {
        let j = choose|j: int| 0 <= j < w && heads[j].address == address;
        lemma_first_match(heads, address, j);
    } else {
        assert(forall|j: int| 0 <= j < w ==> heads[j].address != address);
    }
}

/// The result of looking up the current snapshot of one table.
pub open spec fn current_snapshot_spec<Root>(t: TableV<Root>, address: AddressV<Root>) -> Result<
    SnapshotV<Root>,
    ErrorV<Root>,
> {
    match head_index(t.heads, address) {
        None => Err(ErrorV::UnknownTable(address)),
        Some(i) => if t.heads[i].current < t.snapshots.len() {
            Ok(t.snapshots[t.heads[i].current as int])
        } else {
            Err(ErrorV::InconsistentTableHead(address))
        },
    }
}

/// The identity of local `local` in table `address`.
pub open spec fn entry_id<Root>(address: AddressV<Root>, local: int) -> AddressV<Root> {
    (address.0, address.1.push(LocalEncodedId::spec_new(local as u16)))
}

/// The first position of `spelling` among `entries`, if it lies in the
/// table-local range.
#[verifier::opaque]
pub open spec fn local_of(entries: Seq<Seq<char>>, spelling: Seq<char>) -> Option<u16> {
    if exists|p: int| p <= u16::MAX && first_position(entries, spelling, p) {
        Some((choose|p: int| p <= u16::MAX && first_position(entries, spelling, p)) as u16)
    } else {
        None
    }
}

/// `local_of` is the first position of the spelling, when there is one.
pub proof fn lemma_local_of(entries: Seq<Seq<char>>, spelling: Seq<char>, p: int)
    requires
        p <= u16::MAX,
        first_position(entries, spelling, p),
    ensures
        local_of(entries, spelling) == Some(p as u16),
{
    reveal(local_of);
    let q = choose|q: int| q <= u16::MAX && first_position(entries, spelling, q);
    assert(p <= u16::MAX && first_position(entries, spelling, p));
    if q < p {
        assert(entries[q] != spelling);
    }
    if q > p {
        assert(entries[p] != spelling);
    }
}

/// What `local_of` finds.
pub proof fn lemma_local_of_props(entries: Seq<Seq<char>>, spelling: Seq<char>)
    ensures
        local_of(entries, spelling) matches Some(p) ==> p <= u16::MAX && first_position(
            entries,
            spelling,
            p as int,
        ),
{
    reveal(local_of);
}

/// `local_of` finds a spelling held at a position in the local range.
pub proof fn lemma_local_of_found(entries: Seq<Seq<char>>, spelling: Seq<char>, m: int)
    requires
        0 <= m < entries.len(),
        m <= u16::MAX,
        entries[m] == spelling,
    ensures
        local_of(entries, spelling) is Some,
    decreases m,
{
    if exists|j: int| 0 <= j < m && entries[j] == spelling {
        let j = choose|j: int| 0 <= j < m && entries[j] == spelling;
        lemma_local_of_found(entries, spelling, j);
    } else {
        reveal(local_of);
        assert(m <= u16::MAX && first_position(entries, spelling, m));
    }
}

/// `local_of` finds nothing when no position in the local range holds the spelling.
pub proof fn lemma_local_of_none(entries: Seq<Seq<char>>, spelling: Seq<char>)
    requires
        forall|k: int| 0 <= k < entries.len() && k <= u16::MAX ==> entries[k] != spelling,
    ensures
        local_of(entries, spelling) is None,
{
    reveal(local_of);
    assert forall|p: int| p <= u16::MAX && first_position(entries, spelling, p) implies false by {
        assert(entries[p] == spelling);
    }
}

/// The result of looking up one exact spelling in one table.
pub open spec fn lookup_spec<Root>(
    t: TableV<Root>,
    address: AddressV<Root>,
    spelling: Seq<char>,
) -> Result<Option<AddressV<Root>>, ErrorV<Root>> {
    match current_snapshot_spec(t, address) {
        Err(e) => Err(e),
        Ok(s) => match local_of(s.entries, spelling) {
            Some(p) => Ok(Some(entry_id(address, p as int))),
            None => Ok(None),
        },
    }
}

/// The result of resolving one encoded ID through the current snapshots.
pub open spec fn resolve_spec<Root>(t: TableV<Root>, id: AddressV<Root>) -> Result<
    Seq<char>,
    ErrorV<Root>,
> {
    match current_snapshot_spec(t, (id.0, id.1.drop_last())) {
        Err(e) => Err(e),
        Ok(s) => if id.1.last()@ < s.entries.len() {
            Ok(s.entries[id.1.last()@ as int])
        } else {
            Err(ErrorV::UnknownEncodedId(id))
        },
    }
}

/// The result of resolving one encoded ID against one pinned snapshot.
pub open spec fn resolve_in_snapshot_spec<Root>(
    t: TableV<Root>,
    digest: u64,
    id: AddressV<Root>,
) -> Result<Seq<char>, ErrorV<Root>> {
    if digest >= t.snapshots.len() {
        Err(ErrorV::SnapshotIntegrityMismatch(digest))
    } else if t.snapshots[digest as int].address != (id.0, id.1.drop_last()) {
        Err(ErrorV::UnknownEncodedId(id))
    } else if id.1.last()@ < t.snapshots[digest as int].entries.len() {
        Ok(t.snapshots[digest as int].entries[id.1.last()@ as int])
    } else {
        Err(ErrorV::UnknownEncodedId(id))
    }
}

/// Whether two addresses are equal.
pub(crate) fn same_address<Root: Ord + Copy>(a: &TableAddress<Root>, b: &TableAddress<Root>) -> (same:
    bool)
    requires
        root_laws::<Root>(),
    ensures
        same == (a@ == b@),
{
    if !same_root(&a.root, &b.root) {
        return false;
    }
    if a.module_chain.len() != b.module_chain.len() {
        return false;
    }
    let mut i: usize = 0;
    while i < a.module_chain.len()
        invariant
            a.module_chain@.len() == b.module_chain@.len(),
            i <= a.module_chain@.len(),
            forall|k: int| 0 <= k < i ==> a.module_chain@[k] == b.module_chain@[k],
        decreases a.module_chain@.len() - i,
    {
        if a.module_chain[i].0 != b.module_chain[i].0 {
            proof {
                assert(a.module_chain@[i as int] != b.module_chain@[i as int]);
            }
            return false;
        }
        proof {
            crate::identity::lemma_local_spec_new();
            assert(a.module_chain@[i as int] == LocalEncodedId::spec_new(
                a.module_chain@[i as int]@,
            ));
            assert(b.module_chain@[i as int] == LocalEncodedId::spec_new(
                b.module_chain@[i as int]@,
            ));
        }
        i = i + 1;
    }
    proof {
        assert(a.module_chain@ =~= b.module_chain@);
    }
    true
}

/// The views of heads, snapshots and receipts.
pub open spec fn head_views<Root>(s: Seq<ModuleTableHead<Root>>) -> Seq<HeadV<Root>> {
    s.map_values(|h: ModuleTableHead<Root>| h@)
}

pub open spec fn snapshot_views<Root>(s: Seq<ModuleTableSnapshot<Root>>) -> Seq<SnapshotV<Root>> {
    s.map_values(|x: ModuleTableSnapshot<Root>| x@)
}

pub open spec fn receipt_views<Root>(s: Seq<OperationReceipt<Root>>) -> Seq<ReceiptV<Root>> {
    s.map_values(|r: OperationReceipt<Root>| r@)
}

/// Complete generic nested-table state.
#[derive(Clone, Debug, PartialEq, Eq)]
pub struct NameTable<Root> {
    pub(crate) revision: StateRevision,
    pub(crate) heads: Vec<ModuleTableHead<Root>>,
    pub(crate) snapshots: Vec<ModuleTableSnapshot<Root>>,
    pub(crate) receipts: Vec<OperationReceipt<Root>>,
}

impl<Root> View for NameTable<Root> {
    type V = TableV<Root>;

    closed spec fn view(&self) -> TableV<Root> {
        TableV {
            revision: self.revision@,
            heads: head_views(self.heads@),
            snapshots: snapshot_views(self.snapshots@),
            receipts: receipt_views(self.receipts@),
        }
    }
}

pub(crate) broadcast proof fn reveal_table_view<Root>(table: NameTable<Root>)
    ensures
        #[trigger] table@ == (TableV {
            revision: table.revision.0,
            heads: head_views(table.heads@),
            snapshots: snapshot_views(table.snapshots@),
            receipts: receipt_views(table.receipts@),
        }),
{
}

impl<Root> Default for NameTable<Root> {
    fn default() -> (table: Self)
        ensures
            table@ == (TableV::<Root> {
                revision: 0,
                heads: Seq::empty(),
                snapshots: Seq::empty(),
                receipts: Seq::empty(),
            }),
    {
        let table = NameTable {
            revision: StateRevision(0),
            heads: Vec::new(),
            snapshots: Vec::new(),
            receipts: Vec::new(),
        };
        proof {
            assert(head_views(table.heads@) =~= Seq::<HeadV<Root>>::empty());
            assert(snapshot_views(table.snapshots@) =~= Seq::<SnapshotV<Root>>::empty());
            assert(receipt_views(table.receipts@) =~= Seq::<ReceiptV<Root>>::empty());
        }
        table
    }
}

impl<Root: Ord> NameTable<Root> {
    /// Construct empty state. Root tables are provisioned by their first seal.
    pub fn new() -> (table: Self)
        ensures
            table@ == (TableV::<Root> {
                revision: 0,
                heads: Seq::empty(),
                snapshots: Seq::empty(),
                receipts: Seq::empty(),
            }),
            crate::consistency::consistent(table@),
            crate::arrangement::in_order(table@),
    {
        proof {
            crate::laws::lemma_empty_consistent::<Root>();
        }
        NameTable::default()
    }
}

impl<Root> NameTable<Root> {

    /// The current pure-state revision.
    pub fn revision(&self) -> (revision: StateRevision)
        ensures
            revision@ == self@.revision,
    {
        self.revision
    }

    /// One immutable historical snapshot by its locator.
    pub fn snapshot(&self, digest: SnapshotDigest) -> (snapshot: Option<&ModuleTableSnapshot<Root>>)
        ensures
            (digest@ < self@.snapshots.len()) <==> snapshot is Some,
            snapshot matches Some(s) ==> s@ == self@.snapshots[digest@ as int],
    {
        if digest.0 < self.snapshots.len() as u64 {
            Some(&self.snapshots[digest.0 as usize])
        } else {
            None
        }
    }
}

impl<Root: Ord + Copy> NameTable<Root> {
    /// The position of the head of one table.
    pub(crate) fn find_head(&self, address: &TableAddress<Root>) -> (index: Option<usize>)
        requires
            root_laws::<Root>(),
        ensures
            index matches Some(i) ==> head_index(self@.heads, address@) == Some(i as int),
            index is None ==> head_index(self@.heads, address@) is None,
            index matches Some(i) ==> i < self.heads@.len(),
    {
        let ghost hv = self@.heads;
        let mut i: usize = 0;
        while i < self.heads.len()
            invariant
                root_laws::<Root>(),
                hv == head_views(self.heads@),
                i <= self.heads@.len(),
                forall|j: int| 0 <= j < i ==> hv[j].address != address@,
            decreases self.heads@.len() - i,
        {
            if same_address(&self.heads[i].address, address) {
                proof {
                    assert(hv[i as int] == self.heads@[i as int]@);
                    lemma_head_index(hv, address@, i as int);
                }
                return Some(i);
            }
            proof {
                assert(hv[i as int] == self.heads@[i as int]@);
            }
            i = i + 1;
        }
        proof {
            reveal(head_index);
        }
        None
    }

    /// The current head of one table.
    pub fn head(&self, address: &TableAddress<Root>) -> (head: Option<&ModuleTableHead<Root>>)
        requires
            root_laws::<Root>(),
        ensures
            match head_index(self@.heads, address@) {
                Some(i) => head matches Some(h) && h@ == self@.heads[i],
                None => head is None,
            },
    {
        match self.find_head(address) {
            Some(i) => Some(&self.heads[i]),
            None => None,
        }
    }

    /// The positions of the head and of the current snapshot of one table.
    pub(crate) fn locate(&self, address: &TableAddress<Root>) -> (result: Result<
        (usize, usize),
        NameTableError<Root>,
    >)
        requires
            root_laws::<Root>(),
        ensures
            match current_snapshot_spec(self@, address@) {
                Ok(s) => result matches Ok((h, p)) && head_index(self@.heads, address@) == Some(
                    h as int,
                ) && h < self@.heads.len() && p < self@.snapshots.len() && p
                    == self@.heads[h as int].current && self@.snapshots[p as int] == s,
                Err(e) => result matches Err(r) && r@ == e,
            },
    {
        match self.find_head(address) {
            None => Err(NameTableError::UnknownTable { address: address.duplicate() }),
            Some(i) => {
                let current = self.heads[i].current_snapshot.0;
                if current < self.snapshots.len() as u64 {
                    Ok((i, current as usize))
                } else {
                    Err(NameTableError::InconsistentTableHead { address: address.duplicate() })
                }
            },
        }
    }

    /// The current immutable snapshot of one table.
    pub fn current_snapshot(&self, address: &TableAddress<Root>) -> (result: Result<
        &ModuleTableSnapshot<Root>,
        NameTableError<Root>,
    >)
        requires
            root_laws::<Root>(),
        ensures
            match current_snapshot_spec(self@, address@) {
                Ok(s) => result matches Ok(r) && r@ == s,
                Err(e) => result matches Err(r) && r@ == e,
            },
    {
        let (_, p) = self.locate(address)?;
        Ok(&self.snapshots[p])
    }

    /// Look up an exact spelling in one table without allocating.
    pub fn lookup(&self, address: &TableAddress<Root>, spelling: &Name) -> (result: Result<
        Option<EncodedId<Root>>,
        NameTableError<Root>,
    >)
        requires
            root_laws::<Root>(),
        ensures
            match lookup_spec(self@, address@, spelling@) {
                Ok(Some(id)) => result matches Ok(Some(r)) && r@ == id,
                Ok(None) => result matches Ok(None),
                Err(e) => result matches Err(r) && r@ == e,
            },
    {
        let snapshot = self.current_snapshot(address)?;
        match snapshot.lookup_local(spelling) {
            Some(local) => {
                proof {
                    crate::identity::lemma_local_spec_new();
                    lemma_local_of(snapshot@.entries, spelling@, local@ as int);
                    assert(local == LocalEncodedId::spec_new(local@));
                }
                Ok(Some(address.entry(local)))
            },
            None => {
                proof {
                    lemma_local_of_none(snapshot@.entries, spelling@);
                }
                Ok(None)
            },
        }
    }

    /// Resolve one complete encoded-ID chain through the current snapshot.
    pub fn resolve(&self, encoded_id: &EncodedId<Root>) -> (result: Result<&Name, NameTableError<Root>>)
        requires
            root_laws::<Root>(),
        ensures
            match resolve_spec(self@, encoded_id@) {
                Ok(s) => result matches Ok(r) && r@ == s,
                Err(e) => result matches Err(r) && r@ == e,
            },
    {
        let address = encoded_id.owning_table();
        let snapshot = self.current_snapshot(&address)?;
        match snapshot.resolve_local(encoded_id.local()) {
            Some(name) => Ok(name),
            None => Err(NameTableError::UnknownEncodedId { encoded_id: encoded_id.duplicate() }),
        }
    }

    /// Resolve an identity against a specifically pinned historical snapshot.
    pub fn resolve_in_snapshot(&self, snapshot: SnapshotDigest, encoded_id: &EncodedId<Root>) -> (result:
        Result<&Name, NameTableError<Root>>)
        requires
            root_laws::<Root>(),
        ensures
            match resolve_in_snapshot_spec(self@, snapshot@, encoded_id@) {
                Ok(s) => result matches Ok(r) && r@ == s,
                Err(e) => result matches Err(r) && r@ == e,
            },
    {
        let archived = match self.snapshot(snapshot) {
            Some(archived) => archived,
            None => return Err(NameTableError::SnapshotIntegrityMismatch { digest: snapshot }),
        };
        let owning = encoded_id.owning_table();
        if !same_address(&archived.address, &owning) {
            return Err(NameTableError::UnknownEncodedId { encoded_id: encoded_id.duplicate() });
        }
        match archived.resolve_local(encoded_id.local()) {
            Some(name) => Ok(name),
            None => Err(NameTableError::UnknownEncodedId { encoded_id: encoded_id.duplicate() }),
        }
    }
}

} // verus!
