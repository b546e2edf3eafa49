//! The versioned archive envelope, and the reconstruction of a complete
//! state from its archived records.

use vstd::prelude::*;

use crate::arrangement::{head_order, in_order, keyed_order, lemma_rebuilt_in_order};
use crate::consistency::{consistent, fault_with_keys, pair_keys, receipt_key};
use crate::duplicate::ExactCopy;
use crate::error::{ErrorV, NameTableError};
use crate::order::{CanonicalOrder, insertion_sort, int_order, order_of, sort_canonical, views};
use crate::root_order::root_laws;
use crate::state::{
    HeadV, ModuleTableHead, ModuleTableSnapshot, OperationKey, OperationReceipt, ReceiptV,
    SnapshotV, StateRevision,
};
use crate::table::{NameTable, TableV, head_views, receipt_views, same_address, snapshot_views};

verus! {

broadcast use {
    crate::identity::reveal_address_view,
    crate::state::reveal_head_view,
    crate::state::reveal_snapshot_view,
    crate::state::reveal_revision_view,
    crate::state::reveal_digest_view,
    crate::state::reveal_key_view,
    crate::table::reveal_table_view,
};

/// The archive layout this library writes and reads.
pub const ARCHIVE_VERSION: u16 = 3;

/// The envelope's leading magic bytes.
pub open spec fn archive_magic() -> Seq<u8> {
    seq![78u8, 84u8, 65u8, 66u8, 76u8, 69u8, 0u8, 0u8]
}

/// A layout version in little-endian byte order.
pub open spec fn version_bytes(version: u16) -> Seq<u8> {
    seq![(version % 256) as u8, (version / 256) as u8]
}

/// An archive: magic, layout version, the payload's integrity digest, and
/// the payload.
pub open spec fn envelope_bytes(integrity: Seq<u8>, payload: Seq<u8>) -> Seq<u8> {
    archive_magic() + version_bytes(ARCHIVE_VERSION) + integrity + payload
}

/// Why an envelope was refused.
#[derive(Clone, Copy, Debug, PartialEq, Eq)]
pub enum ArchiveEnvelopeError {
    /// Too short, or without the magic bytes.
    Invalid,
    /// The payload does not match the envelope's integrity digest.
    Integrity,
    /// A layout version this library does not read.
    Unsupported(u16),
}

/// Opening an envelope: the integrity digest it carries and its payload.
pub open spec fn open_spec(bytes: Seq<u8>) -> Result<(Seq<u8>, Seq<u8>), ArchiveEnvelopeError> {
    if bytes.len() < 10 || bytes.subrange(0, 8) != archive_magic() {
        Err(ArchiveEnvelopeError::Invalid)
    } else if bytes[8] + 256 * bytes[9] != ARCHIVE_VERSION {
        Err(ArchiveEnvelopeError::Unsupported((bytes[8] + 256 * bytes[9]) as u16))
    } else if bytes.len() < 42 {
        Err(ArchiveEnvelopeError::Invalid)
    } else {
        Ok((bytes.subrange(10, 42), bytes.subrange(42, bytes.len() as int)))
    }
}

/// Frame a payload under the current layout with its integrity digest.
pub fn seal_envelope(integrity: &[u8; 32], payload: &[u8]) -> (bytes: Vec<u8>)
    ensures
        bytes@ == envelope_bytes(integrity@, payload@),
{
    let mut bytes: Vec<u8> = Vec::new();
    bytes.push(78u8);
    bytes.push(84u8);
    bytes.push(65u8);
    bytes.push(66u8);
    bytes.push(76u8);
    bytes.push(69u8);
    bytes.push(0u8);
    bytes.push(0u8);
    bytes.push((ARCHIVE_VERSION % 256) as u8);
    bytes.push((ARCHIVE_VERSION / 256) as u8);
    let ghost header = bytes@;
    proof {
        assert(header =~= archive_magic() + version_bytes(ARCHIVE_VERSION));
    }
    let mut i: usize = 0;
    while i < 32
        invariant
            integrity@.len() == 32,
            i <= 32,
            bytes@ == header + integrity@.subrange(0, i as int),
        decreases 32 - i,
    {
        let ghost before = bytes@;
        bytes.push(integrity[i]);
        proof {
            assert(bytes@ =~= header + integrity@.subrange(0, i + 1));
        }
        i = i + 1;
    }
    let ghost framed = bytes@;
    proof {
        assert(integrity@.subrange(0, 32) =~= integrity@);
    }
    let mut j: usize = 0;
    while j < payload.len()
        invariant
            j <= payload@.len(),
            bytes@ == framed + payload@.subrange(0, j as int),
        decreases payload@.len() - j,
    {
        bytes.push(payload[j]);
        proof {
            assert(bytes@ =~= framed + payload@.subrange(0, j + 1));
        }
        j = j + 1;
    }
    proof {
        assert(payload@.subrange(0, payload@.len() as int) =~= payload@);
        assert(bytes@ =~= envelope_bytes(integrity@, payload@));
    }
    bytes
}

/// Open an envelope: check the magic bytes and the layout version, and
/// split the integrity digest from the payload.
pub fn open_envelope(bytes: &[u8]) -> (result: Result<(&[u8], &[u8]), ArchiveEnvelopeError>)
    ensures
        match open_spec(bytes@) {
            Ok((integrity, payload)) => result matches Ok((i, p)) && i@ == integrity && p@
                == payload,
            Err(e) => result == Err::<(&[u8], &[u8]), ArchiveEnvelopeError>(e),
        },
{
    if bytes.len() < 10 {
        return Err(ArchiveEnvelopeError::Invalid);
    }
    let magic: [u8; 8] = [78u8, 84u8, 65u8, 66u8, 76u8, 69u8, 0u8, 0u8];
    let mut k: usize = 0;
    while k < 8
        invariant
            bytes@.len() >= 10,
            magic@ == archive_magic(),
            k <= 8,
            forall|m: int| 0 <= m < k ==> bytes@[m] == archive_magic()[m],
        decreases 8 - k,
    {
        if bytes[k] != magic[k] {
            proof {
                assert(bytes@.subrange(0, 8)[k as int] != archive_magic()[k as int]);
            }
            return Err(ArchiveEnvelopeError::Invalid);
        }
        k = k + 1;
    }
    proof {
        assert(bytes@.subrange(0, 8) =~= archive_magic());
    }
    let version: u16 = bytes[8] as u16 + 256 * (bytes[9] as u16);
    if version != ARCHIVE_VERSION {
        return Err(ArchiveEnvelopeError::Unsupported(version));
    }
    if bytes.len() < 42 {
        return Err(ArchiveEnvelopeError::Invalid);
    }
    let integrity = slice_range(bytes, 10, 42);
    let payload = slice_range(bytes, 42, bytes.len());
    Ok((integrity, payload))
}

/// The bytes of `bytes` from `start` to `end`.
fn slice_range(bytes: &[u8], start: usize, end: usize) -> (part: &[u8])
    requires
        start <= end <= bytes@.len(),
    ensures
        part@ == bytes@.subrange(start as int, end as int),
{
    vstd::slice::slice_subrange(bytes, start, end)
}

/// Check the payload's derived integrity digest against the one the
/// envelope carries.
pub fn check_integrity(expected: &[u8], derived: &[u8; 32]) -> (result: Result<
    (),
    ArchiveEnvelopeError,
>)
    ensures
        result is Ok <==> expected@ == derived@,
        result is Err ==> result == Err::<(), ArchiveEnvelopeError>(ArchiveEnvelopeError::Integrity),
{
    if expected.len() != 32 {
        return Err(ArchiveEnvelopeError::Integrity);
    }
    let mut i: usize = 0;
    while i < 32
        invariant
            expected@.len() == 32,
            derived@.len() == 32,
            i <= 32,
            forall|k: int| 0 <= k < i ==> expected@[k] == derived@[k],
        decreases 32 - i,
    {
        if expected[i] != derived[i] {
            return Err(ArchiveEnvelopeError::Integrity);
        }
        i = i + 1;
    }
    proof {
        assert(expected@ =~= derived@);
    }
    Ok(())
}

/// The failure of the state that an envelope refusal stands for.
pub open spec fn envelope_error_view<Root>(e: ArchiveEnvelopeError) -> ErrorV<Root> {
    match e {
        ArchiveEnvelopeError::Invalid => ErrorV::InvalidArchiveEnvelope,
        ArchiveEnvelopeError::Integrity => ErrorV::ArchiveIntegrityMismatch,
        ArchiveEnvelopeError::Unsupported(found) => ErrorV::UnsupportedArchiveVersion(found),
    }
}

impl ArchiveEnvelopeError {
    /// The failure of the state that this refusal stands for.
    pub fn to_table_error<Root>(self) -> (error: NameTableError<Root>)
        ensures
            error@ == envelope_error_view::<Root>(self),
    {
        match self {
            ArchiveEnvelopeError::Invalid => NameTableError::InvalidArchiveEnvelope,
            ArchiveEnvelopeError::Integrity => NameTableError::ArchiveIntegrityMismatch,
            ArchiveEnvelopeError::Unsupported(found) => NameTableError::UnsupportedArchiveVersion {
                found,
            },
        }
    }
}

impl<Root> CanonicalOrder for ModuleTableSnapshot<Root> {
    open spec fn order_holds() -> bool {
        true
    }

    open spec fn order(a: SnapshotV<Root>, b: SnapshotV<Root>) -> int {
        int_order(a.digest as int, b.digest as int)
    }

    proof fn lemma_sign_laws() {
    }

    fn compare(&self, other: &Self) -> (result: i8) {
        if self.digest.0 < other.digest.0 {
            -1
        } else if self.digest.0 > other.digest.0 {
            1
        } else {
            0
        }
    }
}

/// Whether two positions of `s` hold equal values.
pub open spec fn has_repeat<A>(s: Seq<A>) -> bool {
    exists|i: int, j: int| 0 <= i < j < s.len() && s[i] == s[j]
}

/// Reconstructing a state from archived records: no two heads for one table,
/// snapshots for one locator or receipts for one key; the heads in address
/// order, the snapshots in locator order and the receipts in key order; and a
/// state that keeps every stored invariant, its receipts checked under the
/// keys they were archived under.
pub open spec fn from_parts_spec<Root: Ord>(
    revision: u64,
    heads: Seq<HeadV<Root>>,
    snapshots: Seq<SnapshotV<Root>>,
    receipts: Seq<(Seq<u8>, ReceiptV<Root>)>,
) -> Result<TableV<Root>, ErrorV<Root>> {
    if has_repeat(heads.map_values(|h: HeadV<Root>| h.address)) || has_repeat(
        snapshots.map_values(|s: SnapshotV<Root>| s.digest),
    ) || has_repeat(receipts.map_values(|r: (Seq<u8>, ReceiptV<Root>)| r.0)) {
        Err(ErrorV::DuplicateArchiveRecord)
    } else {
        let kvs = insertion_sort(receipts, keyed_order());
        let t = TableV {
            revision,
            heads: insertion_sort(heads, head_order()),
            snapshots: insertion_sort(snapshots, order_of::<ModuleTableSnapshot<Root>>()),
            receipts: kvs.map_values(|r: (Seq<u8>, ReceiptV<Root>)| r.1),
        };
        match fault_with_keys(t, kvs) {
            Some(e) => Err(e),
            None => Ok(t),
        }
    }
}

/// The views of archived keyed receipts.
pub open spec fn keyed_views<Root>(s: Seq<(OperationKey, OperationReceipt<Root>)>) -> Seq<
    (Seq<u8>, ReceiptV<Root>),
> {
    s.map_values(|r: (OperationKey, OperationReceipt<Root>)| (r.0@, r.1@))
}

impl<Root: Ord + Copy> NameTable<Root> {
    /// Reconstruct and validate a complete state from archived records.
    pub fn from_parts(
        revision: StateRevision,
        heads: Vec<ModuleTableHead<Root>>,
        snapshots: Vec<ModuleTableSnapshot<Root>>,
        receipts: Vec<(OperationKey, OperationReceipt<Root>)>,
    ) -> (result: Result<Self, NameTableError<Root>>)
        requires
            root_laws::<Root>(),
        ensures
            match from_parts_spec(revision@, head_views(heads@), snapshot_views(snapshots@), keyed_views(receipts@)) {
                Ok(t) => result matches Ok(table) && table@ == t,
                Err(e) => result matches Err(x) && x@ == e,
            },
            result matches Ok(table) ==> consistent(table@) && in_order(table@),
    {
        let ghost hv = head_views(heads@);
        let ghost sv = snapshot_views(snapshots@);
        let ghost kv = keyed_views(receipts@);
        let ghost ha = hv.map_values(|h: HeadV<Root>| h.address);
        let ghost sd = sv.map_values(|s: SnapshotV<Root>| s.digest);
        let ghost rk = kv.map_values(|r: (Seq<u8>, ReceiptV<Root>)| r.0);
        // No two heads for one table.
        let mut i: usize = 0;
        while i < heads.len()
            invariant
                root_laws::<Root>(),
                hv == head_views(heads@),
                ha == hv.map_values(|h: HeadV<Root>| h.address),
                i <= heads@.len(),
                forall|a: int, b: int| 0 <= a < b < i ==> ha[a] != ha[b],
            decreases heads@.len() - i,
        {
            let mut j: usize = 0;
            while j < i
                invariant
                    root_laws::<Root>(),
                    hv == head_views(heads@),
                    ha == hv.map_values(|h: HeadV<Root>| h.address),
                    i < heads@.len(),
                    j <= i,
                    forall|a: int, b: int| 0 <= a < b < i ==> ha[a] != ha[b],
                    forall|a: int| 0 <= a < j ==> ha[a] != ha[i as int],
                decreases i - j,
            {
                proof {
                    assert(ha[j as int] == heads@[j as int].address@);
                    assert(ha[i as int] == heads@[i as int].address@);
                }
                if same_address(&heads[j].address, &heads[i].address) {
                    proof {
                        assert(has_repeat(ha));
                    }
                    return Err(NameTableError::DuplicateArchiveRecord);
                }
                j = j + 1;
            }
            i = i + 1;
        }
        // No two snapshots for one locator.
        let mut i: usize = 0;
        while i < snapshots.len()
            invariant
                sv == snapshot_views(snapshots@),
                sd == sv.map_values(|s: SnapshotV<Root>| s.digest),
                !has_repeat(ha),
                i <= snapshots@.len(),
                forall|a: int, b: int| 0 <= a < b < i ==> sd[a] != sd[b],
            decreases snapshots@.len() - i,
        {
            let mut j: usize = 0;
            while j < i
                invariant
                    sv == snapshot_views(snapshots@),
                    sd == sv.map_values(|s: SnapshotV<Root>| s.digest),
                    !has_repeat(ha),
                    i < snapshots@.len(),
                    j <= i,
                    forall|a: int, b: int| 0 <= a < b < i ==> sd[a] != sd[b],
                    forall|a: int| 0 <= a < j ==> sd[a] != sd[i as int],
                decreases i - j,
            {
                proof {
                    assert(sd[j as int] == snapshots@[j as int].digest.0);
                    assert(sd[i as int] == snapshots@[i as int].digest.0);
                }
                if snapshots[j].digest.0 == snapshots[i].digest.0 {
                    proof {
                        assert(has_repeat(sd));
                    }
                    return Err(NameTableError::DuplicateArchiveRecord);
                }
                j = j + 1;
            }
            i = i + 1;
        }
        // No two receipts for one key.
        let mut i: usize = 0;
        while i < receipts.len()
            invariant
                kv == keyed_views(receipts@),
                rk == kv.map_values(|r: (Seq<u8>, ReceiptV<Root>)| r.0),
                !has_repeat(ha),
                !has_repeat(sd),
                i <= receipts@.len(),
                forall|a: int, b: int| 0 <= a < b < i ==> rk[a] != rk[b],
            decreases receipts@.len() - i,
        {
            let mut j: usize = 0;
            while j < i
                invariant
                    kv == keyed_views(receipts@),
                    rk == kv.map_values(|r: (Seq<u8>, ReceiptV<Root>)| r.0),
                    !has_repeat(ha),
                    !has_repeat(sd),
                    i < receipts@.len(),
                    j <= i,
                    forall|a: int, b: int| 0 <= a < b < i ==> rk[a] != rk[b],
                    forall|a: int| 0 <= a < j ==> rk[a] != rk[i as int],
                decreases i - j,
            {
                proof {
                    assert(rk[j as int] == receipts@[j as int].0@);
                    assert(rk[i as int] == receipts@[i as int].0@);
                }
                if receipts[j].0.same(&receipts[i].0) {
                    proof {
                        assert(has_repeat(rk));
                    }
                    return Err(NameTableError::DuplicateArchiveRecord);
                }
                j = j + 1;
            }
            i = i + 1;
        }
        let ghost heads_in = heads@;
        let ghost receipts_in = receipts@;
        let heads = sort_canonical(heads);
        let receipts = sort_canonical(receipts);
        let ghost kvs = keyed_views(receipts@);
        proof {
            assert(views(heads_in) =~= hv);
            assert(head_views(heads@) =~= views(heads@));
            assert(order_of::<ModuleTableHead<Root>>() =~= head_order::<Root>());
            assert(views(receipts_in) =~= kv);
            assert(keyed_views(receipts@) =~= views(receipts@));
            assert(order_of::<(OperationKey, OperationReceipt<Root>)>() =~= keyed_order::<Root>());
        }
        let mut stored: Vec<OperationReceipt<Root>> = Vec::new();
        let mut keys: Vec<OperationKey> = Vec::new();
        let mut i: usize = 0;
        while i < receipts.len()
            invariant
                kvs == keyed_views(receipts@),
                !has_repeat(ha),
                !has_repeat(sd),
                !has_repeat(rk),
                i <= receipts@.len(),
                keys@.len() == i,
                forall|k: int| 0 <= k < i ==> (#[trigger] keys@[k])@ == kvs[k].0,
                receipt_views(stored@) == kvs.subrange(0, i as int).map_values(
                    |r: (Seq<u8>, ReceiptV<Root>)| r.1,
                ),
            decreases receipts@.len() - i,
        {
            let ghost before = receipt_views(stored@);
            let receipt = receipts[i].1.exact_copy();
            stored.push(receipt);
            keys.push(receipts[i].0);
            proof {
                assert(kvs[i as int] == (receipts@[i as int].0@, receipts@[i as int].1@));
                assert(receipt_views(stored@) =~= before.push(receipt@));
                assert(kvs.subrange(0, i + 1).map_values(|r: (Seq<u8>, ReceiptV<Root>)| r.1)
                    =~= kvs.subrange(0, i as int).map_values(|r: (Seq<u8>, ReceiptV<Root>)| r.1).push(
                    kvs[i as int].1,
                ));
            }
            i = i + 1;
        }
        proof {
            assert(kvs.subrange(0, kvs.len() as int) =~= kvs);
        }
        let ghost unsorted = views(snapshots@);
        let sorted = sort_canonical(snapshots);
        let table = NameTable { revision, heads, snapshots: sorted, receipts: stored };
        proof {
            assert(snapshot_views(sorted@) =~= views(sorted@));
            assert(unsorted =~= sv);
            assert(table@.snapshots == insertion_sort(sv, order_of::<ModuleTableSnapshot<Root>>()));
            assert(pair_keys(keys@, table@.receipts) =~= kvs);
        }
        table.validate_with_keys(keys.as_slice())?;
        proof {
            crate::consistency::lemma_keyed_consistent(table@, kvs);
            lemma_rebuilt_in_order(table@, kvs);
        }
        Ok(table)
    }

    /// The heads, in the order they are stored: address order in every state
    /// built by `new`, `from_parts`, `seal` and `rename`.
    pub fn heads(&self) -> (heads: &[ModuleTableHead<Root>])
        ensures
            head_views(heads@) == self@.heads,
    {
        self.heads.as_slice()
    }

    /// The archived snapshot history, in locator order.
    pub fn snapshots(&self) -> (snapshots: &[ModuleTableSnapshot<Root>])
        ensures
            snapshot_views(snapshots@) == self@.snapshots,
    {
        self.snapshots.as_slice()
    }

    /// The stored receipts, each with the key it is stored under, in the order
    /// they are stored: key order in every state built by `new`, `from_parts`,
    /// `seal` and `rename`.
    pub fn keyed_receipts(&self) -> (receipts: Vec<(OperationKey, OperationReceipt<Root>)>)
        ensures
            keyed_views(receipts@) == self@.receipts.map_values(
                |r: ReceiptV<Root>| (receipt_key(r), r),
            ),
    {
        let ghost rv = self@.receipts;
        let ghost target = rv.map_values(|r: ReceiptV<Root>| (receipt_key(r), r));
        let mut keyed: Vec<(OperationKey, OperationReceipt<Root>)> = Vec::new();
        let mut i: usize = 0;
        while i < self.receipts.len()
            invariant
                rv == self@.receipts,
                target == rv.map_values(|r: ReceiptV<Root>| (receipt_key(r), r)),
                i <= rv.len(),
                keyed_views(keyed@) == target.subrange(0, i as int),
            decreases rv.len() - i,
        {
            let ghost before = keyed_views(keyed@);
            let receipt = self.receipts[i].exact_copy();
            let key = receipt.operation_key();
            let entry = (key, receipt);
            keyed.push(entry);
            proof {
                assert(rv[i as int] == self.receipts@[i as int]@);
                assert(keyed_views(keyed@) =~= before.push((key@, receipt@)));
                assert(target.subrange(0, i + 1) =~= target.subrange(0, i as int).push(
                    target[i as int],
                ));
            }
            i = i + 1;
        }
        proof {
            assert(target.subrange(0, rv.len() as int) =~= target);
        }
        keyed
    }
}

} // verus!
