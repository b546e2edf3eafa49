//! The stored invariants of a name-table state, checked in full after every
//! staged operation and on every restored archive.

use vstd::prelude::*;

use crate::error::{ErrorV, NameTableError};
use crate::identity::TableAddress;
use crate::name::Name;
use crate::root_order::root_laws;
use crate::spelling_set::{lemma_seen_empty, record_spelling, seen_covers, spelled};
use crate::state::{
    AllocationCursor, OperationKey, OperationReceipt, ReceiptV, ResolvedName, ResolvedV, SnapshotDigest,
    cursor_for, spellings,
};
use crate::changes::{address_order, compare_addresses};
use crate::order::bytes_order;
use crate::table::{NameTable, TableV, current_snapshot_spec, head_index, resolve_spec, same_address};

verus! {

broadcast use {
    crate::identity::reveal_local_view,
    crate::identity::reveal_address_view,
    crate::identity::reveal_id_view,
    crate::state::reveal_head_view,
    crate::state::reveal_snapshot_view,
    crate::state::reveal_revision_view,
    crate::state::reveal_digest_view,
    crate::state::reveal_generation_view,
    crate::state::reveal_resolved_view,
    crate::state::reveal_key_view,
    crate::state::reveal_seal_receipt_view,
    crate::state::reveal_rename_receipt_view,
    crate::table::reveal_table_view,
};

/// The first position at or after `j` whose spelling also occurs before it.
pub open spec fn repeat_from(ns: Seq<Seq<char>>, j: int) -> Option<int>
    decreases ns.len() - j,
{
    if j < 0 || j >= ns.len() {
        None
    } else if ns.subrange(0, j).contains(ns[j]) {
        Some(j)
    } else {
        repeat_from(ns, j + 1)
    }
}

/// The fault of the snapshot at position `i`: too many entries, a repeated
/// spelling, or a locator that is not its position.
pub open spec fn snapshot_fault<Root>(t: TableV<Root>, i: int) -> Option<ErrorV<Root>> {
    let s = t.snapshots[i];
    if s.entries.len() > 65536 {
        Some(ErrorV::SnapshotCapacity(s.address))
    } else {
        match repeat_from(s.entries, 0) {
            Some(j) => Some(ErrorV::DuplicateSnapshotSpelling(s.address, s.entries[j])),
            None => if s.digest != i {
                Some(ErrorV::SnapshotIntegrityMismatch(i as u64))
            } else {
                None
            },
        }
    }
}

/// The fault of the head at position `i`: a second head for one table, a
/// current snapshot that is missing or disagrees with the head, or a child
/// table whose owning entry is not allocated in its parent.
pub open spec fn head_fault<Root>(t: TableV<Root>, i: int) -> Option<ErrorV<Root>> {
    let h = t.heads[i];
    if exists|j: int| 0 <= j < i && t.heads[j].address == h.address {
        Some(ErrorV::InconsistentTableHead(h.address))
    } else if h.current >= t.snapshots.len() {
        Some(ErrorV::InconsistentTableHead(h.address))
    } else {
        let s = t.snapshots[h.current as int];
        if s.address != h.address || s.generation != h.generation || cursor_for(s.entries.len())
            != Some(h.cursor) {
            Some(ErrorV::InconsistentTableHead(h.address))
        } else if h.address.1.len() == 0 {
            None
        } else {
            match current_snapshot_spec(t, (h.address.0, h.address.1.drop_last())) {
                Err(_) => Some(ErrorV::InconsistentTableAncestry(h.address)),
                Ok(p) => if h.address.1.last()@ < p.entries.len() {
                    None
                } else {
                    Some(ErrorV::InconsistentTableAncestry(h.address))
                },
            }
        }
    }
}

/// The key under which a receipt is stored.
pub open spec fn receipt_key<Root>(r: ReceiptV<Root>) -> Seq<u8> {
    match r {
        ReceiptV::Seal(s) => s.operation_key,
        ReceiptV::Rename(n) => n.operation_key,
    }
}

/// The first fault among the recorded results `items[k..]` of receipt `key`.
pub open spec fn resolved_fault<Root>(
    t: TableV<Root>,
    items: Seq<ResolvedV<Root>>,
    k: int,
    key: Seq<u8>,
) -> Option<ErrorV<Root>>
    decreases items.len() - k,
{
    if k < 0 || k >= items.len() {
        None
    } else if items[k].encoded_id.1.len() == 0 {
        Some(ErrorV::EmptyStoredEncodedId)
    } else if resolve_spec(t, items[k].encoded_id) is Err {
        Some(ErrorV::InconsistentReceipt(key))
    } else {
        resolved_fault(t, items, k + 1, key)
    }
}

/// The fault of receipt `r` stored under `key`: a receipt stored under a key
/// that is not its own, a revision from the future, or a recorded identity
/// that no longer resolves.
pub open spec fn receipt_check<Root>(t: TableV<Root>, key: Seq<u8>, r: ReceiptV<Root>) -> Option<
    ErrorV<Root>,
> {
    match r {
        ReceiptV::Seal(s) => if s.operation_key != key || s.resulting_revision > t.revision {
            Some(ErrorV::InconsistentReceipt(key))
        } else {
            resolved_fault(t, s.declarations + s.references, 0, key)
        },
        ReceiptV::Rename(n) => if n.operation_key != key || n.resulting_revision > t.revision
            || n.target.1.len() == 0 {
            Some(ErrorV::InconsistentReceipt(key))
        } else {
            match head_index(t.heads, (n.target.0, n.target.1.drop_last())) {
                None => Some(ErrorV::InconsistentReceipt(key)),
                Some(h) => if n.resulting_generation > t.heads[h].generation || resolve_spec(
                    t,
                    n.target,
                ) is Err {
                    Some(ErrorV::InconsistentReceipt(key))
                } else {
                    None
                },
            }
        },
    }
}

/// The fault of the receipt at position `i` of the keyed receipts `kv`: a
/// second receipt for one key, or the fault of the receipt under its key.
pub open spec fn keyed_fault<Root>(
    t: TableV<Root>,
    kv: Seq<(Seq<u8>, ReceiptV<Root>)>,
    i: int,
) -> Option<ErrorV<Root>> {
    let key = kv[i].0;
    if exists|j: int| 0 <= j < i && kv[j].0 == key {
        Some(ErrorV::InconsistentReceipt(key))
    } else {
        receipt_check(t, key, kv[i].1)
    }
}

/// The receipts of a state, each under its own key.
pub open spec fn stored_receipts<Root>(t: TableV<Root>) -> Seq<(Seq<u8>, ReceiptV<Root>)> {
    t.receipts.map_values(|r: ReceiptV<Root>| (receipt_key(r), r))
}

/// The fault of the receipt at position `i` of a state, under its own key.
pub open spec fn receipt_fault<Root>(t: TableV<Root>, i: int) -> Option<ErrorV<Root>> {
    let r = t.receipts[i];
    let key = receipt_key(r);
    if exists|j: int| 0 <= j < i && receipt_key(t.receipts[j]) == key {
        Some(ErrorV::InconsistentReceipt(key))
    } else {
        receipt_check(t, key, r)
    }
}

/// A state's receipt faults are its keyed faults under the receipts' own keys.
pub proof fn lemma_receipt_fault_keyed<Root>(t: TableV<Root>, i: int)
    requires
        0 <= i < t.receipts.len(),
    ensures
        keyed_fault(t, stored_receipts(t), i) == receipt_fault(t, i),
{
    let kv = stored_receipts(t);
    assert(kv[i] == (receipt_key(t.receipts[i]), t.receipts[i]));
    let key = receipt_key(t.receipts[i]);
    if exists|j: int| 0 <= j < i && kv[j].0 == key {
        let j = choose|j: int| 0 <= j < i && kv[j].0 == key;
        assert(kv[j] == (receipt_key(t.receipts[j]), t.receipts[j]));
    }
    if exists|j: int| 0 <= j < i && receipt_key(t.receipts[j]) == key {
        let j = choose|j: int| 0 <= j < i && receipt_key(t.receipts[j]) == key;
        assert(kv[j] == (receipt_key(t.receipts[j]), t.receipts[j]));
    }
}

/// The first snapshot fault at or after position `i`.
pub open spec fn snapshots_fault_from<Root>(t: TableV<Root>, i: int) -> Option<ErrorV<Root>>
    decreases t.snapshots.len() - i,
{
    if i < 0 || i >= t.snapshots.len() {
        None
    } else if snapshot_fault(t, i) is Some {
        snapshot_fault(t, i)
    } else {
        snapshots_fault_from(t, i + 1)
    }
}

/// Among the heads at positions `i..` that have a fault, the one whose table
/// address is least (the earliest of equal ones): heads are checked in address
/// order.
pub open spec fn least_faulty_head<Root: Ord>(t: TableV<Root>, i: int) -> Option<int>
    decreases t.heads.len() - i,
{
    if i < 0 || i >= t.heads.len() {
        None
    } else {
        let rest = least_faulty_head(t, i + 1);
        if head_fault(t, i) is Some && (rest is None || address_order(
            t.heads[i].address,
            t.heads[rest->0].address,
        ) <= 0) {
            Some(i)
        } else {
            rest
        }
    }
}

/// The fault of the head with the least table address among the faulty ones.
pub open spec fn heads_fault<Root: Ord>(t: TableV<Root>) -> Option<ErrorV<Root>> {
    match least_faulty_head(t, 0) {
        Some(i) => head_fault(t, i),
        None => None,
    }
}

/// Among the keyed receipts at positions `i..` that have a fault, the one whose
/// key is least (the earliest of equal ones): receipts are checked in key
/// order.
pub open spec fn least_faulty_receipt<Root>(
    t: TableV<Root>,
    kv: Seq<(Seq<u8>, ReceiptV<Root>)>,
    i: int,
) -> Option<int>
    decreases kv.len() - i,
{
    if i < 0 || i >= kv.len() {
        None
    } else {
        let rest = least_faulty_receipt(t, kv, i + 1);
        if keyed_fault(t, kv, i) is Some && (rest is None || bytes_order(kv[i].0, kv[rest->0].0)
            <= 0) {
            Some(i)
        } else {
            rest
        }
    }
}

/// The fault of the keyed receipt with the least key among the faulty ones.
pub open spec fn keyed_receipts_fault<Root>(
    t: TableV<Root>,
    kv: Seq<(Seq<u8>, ReceiptV<Root>)>,
) -> Option<ErrorV<Root>> {
    match least_faulty_receipt(t, kv, 0) {
        Some(i) => keyed_fault(t, kv, i),
        None => None,
    }
}

/// The first fault of a state whose receipts are stored under the keys of
/// `kv`: snapshots in locator order first, then heads in address order, then
/// receipts in key order.
pub open spec fn fault_with_keys<Root: Ord>(
    t: TableV<Root>,
    kv: Seq<(Seq<u8>, ReceiptV<Root>)>,
) -> Option<ErrorV<Root>> {
    if snapshots_fault_from(t, 0) is Some {
        snapshots_fault_from(t, 0)
    } else if heads_fault(t) is Some {
        heads_fault(t)
    } else {
        keyed_receipts_fault(t, kv)
    }
}

/// The first fault of a state, its receipts each under its own key.
pub open spec fn consistency_fault<Root: Ord>(t: TableV<Root>) -> Option<ErrorV<Root>> {
    fault_with_keys(t, stored_receipts(t))
}

/// A state that keeps every stored invariant.
pub open spec fn consistent<Root: Ord>(t: TableV<Root>) -> bool {
    consistency_fault(t) is None
}

/// The least faulty head is a faulty head, and there is none exactly when no
/// head at or after `i` has a fault.
pub proof fn lemma_least_head<Root: Ord>(t: TableV<Root>, i: int)
    requires
        0 <= i,
    ensures
        least_faulty_head(t, i) matches Some(k) ==> i <= k < t.heads.len() && head_fault(t, k)
            is Some,
        least_faulty_head(t, i) is None <==> forall|k: int|
            i <= k < t.heads.len() ==> #[trigger] head_fault(t, k) is None,
    decreases t.heads.len() - i,
{
    if i < t.heads.len() {
        lemma_least_head(t, i + 1);
    }
}

/// The least faulty keyed receipt is a faulty one, and there is none exactly
/// when no keyed receipt at or after `i` has a fault.
pub proof fn lemma_least_receipt<Root>(t: TableV<Root>, kv: Seq<(Seq<u8>, ReceiptV<Root>)>, i: int)
    requires
        0 <= i,
    ensures
        least_faulty_receipt(t, kv, i) matches Some(k) ==> i <= k < kv.len() && keyed_fault(
            t,
            kv,
            k,
        ) is Some,
        least_faulty_receipt(t, kv, i) is None <==> forall|k: int|
            i <= k < kv.len() ==> #[trigger] keyed_fault(t, kv, k) is None,
    decreases kv.len() - i,
{
    if i < kv.len() {
        lemma_least_receipt(t, kv, i + 1);
    }
}

/// A consistent state has no faulty head and no faulty receipt.
pub proof fn lemma_consistent_faults<Root: Ord>(t: TableV<Root>)
    requires
        consistent(t),
    ensures
        forall|k: int| 0 <= k < t.heads.len() ==> #[trigger] head_fault(t, k) is None,
        forall|k: int| 0 <= k < t.receipts.len() ==> #[trigger] receipt_fault(t, k) is None,
{
    lemma_least_head(t, 0);
    lemma_least_receipt(t, stored_receipts(t), 0);
    assert forall|k: int| 0 <= k < t.receipts.len() implies #[trigger] receipt_fault(t, k)
        is None by {
        lemma_receipt_fault_keyed(t, k);
    }
}

/// A state with no faulty snapshot, head or receipt is consistent.
pub proof fn lemma_faults_none<Root: Ord>(t: TableV<Root>)
    requires
        snapshots_fault_from(t, 0) is None,
        forall|k: int| 0 <= k < t.heads.len() ==> #[trigger] head_fault(t, k) is None,
        forall|k: int| 0 <= k < t.receipts.len() ==> #[trigger] receipt_fault(t, k) is None,
    ensures
        consistent(t),
{
    lemma_least_head(t, 0);
    let kv = stored_receipts(t);
    assert forall|k: int| 0 <= k < kv.len() implies #[trigger] keyed_fault(t, kv, k) is None by {
        lemma_receipt_fault_keyed(t, k);
    }
    lemma_least_receipt(t, kv, 0);
}

/// No snapshot at or after `from` has a fault when the search finds none.
pub proof fn lemma_snapshot_sound<Root>(t: TableV<Root>, from: int, i: int)
    requires
        0 <= from <= i < t.snapshots.len(),
        snapshots_fault_from(t, from) is None,
    ensures
        snapshot_fault(t, i) is None,
    decreases i - from,
{
    if from < i {
        lemma_snapshot_sound(t, from + 1, i);
    }
}

/// A state whose receipts pass their checks under the keys of `kv` is
/// consistent: each receipt is stored under its own key.
pub proof fn lemma_keyed_consistent<Root: Ord>(t: TableV<Root>, kv: Seq<(Seq<u8>, ReceiptV<Root>)>)
    requires
        t.receipts == kv.map_values(|r: (Seq<u8>, ReceiptV<Root>)| r.1),
        fault_with_keys(t, kv) is None,
    ensures
        consistent(t),
        kv == stored_receipts(t),
{
    lemma_least_receipt(t, kv, 0);
    assert forall|i: int| 0 <= i < kv.len() implies #[trigger] kv[i].0 == receipt_key(kv[i].1) by {
        assert(keyed_fault(t, kv, i) is None);
    }
    assert(kv =~= stored_receipts(t)) by {
        assert forall|i: int| 0 <= i < kv.len() implies kv[i] == stored_receipts(t)[i] by {
            assert(kv[i].0 == receipt_key(kv[i].1));
            assert(t.receipts[i] == kv[i].1);
        }
    }
}

/// No head of a consistent state has a fault.
pub proof fn lemma_head_sound<Root: Ord>(t: TableV<Root>, i: int)
    requires
        0 <= i < t.heads.len(),
        consistent(t),
    ensures
        head_fault(t, i) is None,
{
    lemma_consistent_faults(t);
}

/// No receipt of a consistent state has a fault.
pub proof fn lemma_receipt_sound<Root: Ord>(t: TableV<Root>, i: int)
    requires
        0 <= i < t.receipts.len(),
        consistent(t),
    ensures
        receipt_fault(t, i) is None,
{
    lemma_consistent_faults(t);
}

/// The first position whose spelling repeats an earlier one.
pub fn first_repeat(names: &[Name]) -> (position: Option<usize>)
    ensures
        match repeat_from(spellings(names@), 0) {
            Some(j) => position matches Some(p) && p == j && j < names@.len(),
            None => position is None,
        },
{
    let ghost ns = spellings(names@);
    proof {
        assert(spelled(names@) =~= ns);
        lemma_seen_empty(ns);
    }
    let mut seen: Vec<usize> = Vec::new();
    let mut j: usize = 0;
    while j < names.len()
        invariant
            ns == spellings(names@),
            spelled(names@) == ns,
            j <= names@.len(),
            seen_covers(ns, seen@, j as int),
            repeat_from(ns, 0) == repeat_from(ns, j as int),
        decreases names@.len() - j,
    {
        if !record_spelling(names, &mut seen, j) {
            return Some(j);
        }
        j = j + 1;
    }
    None
}

impl<Root: Ord + Copy> NameTable<Root> {
    /// Check the snapshot at position `i`.
    fn check_snapshot(&self, i: usize) -> (result: Result<(), NameTableError<Root>>)
        requires
            i < self@.snapshots.len(),
        ensures
            match snapshot_fault(self@, i as int) {
                None => result is Ok,
                Some(e) => result matches Err(x) && x@ == e,
            },
    {
        let snapshot = &self.snapshots[i];
        proof {
            assert(self@.snapshots[i as int] == snapshot@);
            assert(snapshot@.entries == spellings(snapshot.entries@));
        }
        if snapshot.entries.len() > 65536 {
            return Err(NameTableError::SnapshotCapacity { address: snapshot.address.duplicate() });
        }
        let entries = snapshot.entries.as_slice();
        proof {
            assert(entries@ == snapshot.entries@);
        }
        match first_repeat(entries) {
            Some(j) => Err(
                NameTableError::DuplicateSnapshotSpelling {
                    address: snapshot.address.duplicate(),
                    spelling: snapshot.entries[j].duplicate(),
                },
            ),
            None => if snapshot.digest.0 != i as u64 {
                Err(NameTableError::SnapshotIntegrityMismatch { digest: SnapshotDigest(i as u64) })
            } else {
                Ok(())
            },
        }
    }

    /// Check the head at position `i`.
    fn check_head(&self, i: usize) -> (result: Result<(), NameTableError<Root>>)
        requires
            root_laws::<Root>(),
            i < self@.heads.len(),
        ensures
            match head_fault(self@, i as int) {
                None => result is Ok,
                Some(e) => result matches Err(x) && x@ == e,
            },
    {
        let head = &self.heads[i];
        let ghost hv = self@.heads;
        let mut j: usize = 0;
        while j < i
            invariant
                root_laws::<Root>(),
                hv == self@.heads,
                i < hv.len(),
                *head == self.heads@[i as int],
                j <= i,
                forall|k: int| 0 <= k < j ==> hv[k].address != hv[i as int].address,
            decreases i - j,
        {
            proof {
                assert(hv[j as int] == self.heads@[j as int]@);
                assert(hv[i as int] == self.heads@[i as int]@);
            }
            if same_address(&self.heads[j].address, &head.address) {
                return Err(NameTableError::InconsistentTableHead { address: head.address.duplicate() });
            }
            j = j + 1;
        }
        let current = head.current_snapshot.0;
        if current >= self.snapshots.len() as u64 {
            return Err(NameTableError::InconsistentTableHead { address: head.address.duplicate() });
        }
        let snapshot = &self.snapshots[current as usize];
        let cursor_matches = match AllocationCursor::for_entry_count(snapshot.entries.len()) {
            Some(cursor) => cursor.same(head.allocation_cursor),
            None => false,
        };
        if !same_address(&snapshot.address, &head.address) || snapshot.generation.0
            != head.generation.0 || !cursor_matches {
            return Err(NameTableError::InconsistentTableHead { address: head.address.duplicate() });
        }
        let chain = head.address.module_chain.as_slice();
        if chain.len() == 0 {
            return Ok(());
        }
        let local = chain[chain.len() - 1];
        let mut parent_chain = crate::identity::copy_chain(chain);
        parent_chain.pop();
        let parent = TableAddress::new(head.address.root, parent_chain);
        proof {
            assert(parent@ == (hv[i as int].address.0, hv[i as int].address.1.drop_last()));
        }
        match self.current_snapshot(&parent) {
            Err(_) => Err(
                NameTableError::InconsistentTableAncestry { address: head.address.duplicate() },
            ),
            Ok(parent_snapshot) => if parent_snapshot.resolve_local(local).is_none() {
                Err(NameTableError::InconsistentTableAncestry { address: head.address.duplicate() })
            } else {
                Ok(())
            },
        }
    }

    /// Check that every recorded result in `items` still resolves; the items
    /// stand at `offset` in the results `all` of receipt `key`.
    fn check_resolved(
        &self,
        items: &[ResolvedName<Root>],
        key: crate::state::OperationKey,
        Ghost(all): Ghost<Seq<ResolvedV<Root>>>,
        Ghost(offset): Ghost<int>,
    ) -> (result: Result<(), NameTableError<Root>>)
        requires
            root_laws::<Root>(),
            0 <= offset,
            offset + items@.len() <= all.len(),
            forall|k: int| 0 <= k < items@.len() ==> all[offset + k] == #[trigger] items@[k]@,
        ensures
            match result {
                Ok(()) => resolved_fault(self@, all, offset, key@) == resolved_fault(
                    self@,
                    all,
                    offset + items@.len(),
                    key@,
                ),
                Err(e) => resolved_fault(self@, all, offset, key@) == Some(e@),
            },
    {
        let mut k: usize = 0;
        while k < items.len()
            invariant
                root_laws::<Root>(),
                0 <= offset,
                offset + items@.len() <= all.len(),
                forall|m: int| 0 <= m < items@.len() ==> all[offset + m] == #[trigger] items@[m]@,
                k <= items@.len(),
                resolved_fault(self@, all, offset, key@) == resolved_fault(
                    self@,
                    all,
                    offset + k,
                    key@,
                ),
            decreases items@.len() - k,
        {
            let item = &items[k];
            proof {
                assert(all[offset + k] == items@[k as int]@);
            }
            if item.encoded_id.chain().len() == 0 {
                return Err(NameTableError::EmptyStoredEncodedId);
            }
            if self.resolve(&item.encoded_id).is_err() {
                return Err(NameTableError::InconsistentReceipt { operation_key: key });
            }
            k = k + 1;
        }
        Ok(())
    }

    /// Check the receipt at position `i`, stored under `keys[i]`.
    #[verifier::rlimit(40)]
    fn check_keyed_receipt(&self, keys: &[OperationKey], i: usize) -> (result: Result<
        (),
        NameTableError<Root>,
    >)
        requires
            root_laws::<Root>(),
            keys@.len() == self@.receipts.len(),
            i < self@.receipts.len(),
        ensures
            match keyed_fault(self@, pair_keys(keys@, self@.receipts), i as int) {
                None => result is Ok,
                Some(e) => result matches Err(x) && x@ == e,
            },
    {
        let ghost rv = self@.receipts;
        let ghost kv = pair_keys(keys@, rv);
        let receipt = &self.receipts[i];
        proof {
            assert(rv[i as int] == receipt@);
            assert(kv[i as int] == (keys@[i as int]@, rv[i as int]));
        }
        let key = keys[i];
        let mut j: usize = 0;
        while j < i
            invariant
                kv == pair_keys(keys@, rv),
                rv == self@.receipts,
                keys@.len() == rv.len(),
                i < rv.len(),
                key == keys@[i as int],
                j <= i,
                forall|k: int| 0 <= k < j ==> kv[k].0 != key@,
            decreases i - j,
        {
            proof {
                assert(kv[j as int] == (keys@[j as int]@, rv[j as int]));
            }
            if keys[j].same(&key) {
                proof {
                    assert(kv[j as int].0 == kv[i as int].0);
                }
                return Err(NameTableError::InconsistentReceipt { operation_key: key });
            }
            j = j + 1;
        }
        let own = receipt.operation_key();
        match receipt {
            OperationReceipt::Seal(seal) => {
                if !own.same(&key) || seal.resulting_revision.0 > self.revision.0 {
                    return Err(NameTableError::InconsistentReceipt { operation_key: key });
                }
                let ghost all = seal@.declarations + seal@.references;
                let declarations = seal.declarations.as_slice();
                let references = seal.references.as_slice();
                proof {
                    assert(declarations@ == seal.declarations@);
                    assert(references@ == seal.references@);
                    assert forall|k: int| 0 <= k < declarations@.len() implies all[0 + k]
                        == #[trigger] declarations@[k]@ by {
                        assert(seal@.declarations[k] == seal.declarations@[k]@);
                    }
                    assert forall|k: int| 0 <= k < references@.len() implies all[
                        declarations@.len() + k] == #[trigger] references@[k]@ by {
                        assert(seal@.references[k] == seal.references@[k]@);
                    }
                }
                self.check_resolved(declarations, key, Ghost(all), Ghost(0))?;
                self.check_resolved(
                    references,
                    key,
                    Ghost(all),
                    Ghost(declarations@.len() as int),
                )?;
                proof {
                    assert(resolved_fault(self@, all, all.len() as int, key@) is None);
                }
                Ok(())
            },
            OperationReceipt::Rename(rename) => {
                if !own.same(&key) || rename.resulting_revision.0 > self.revision.0
                    || rename.target.chain().len() == 0 {
                    return Err(NameTableError::InconsistentReceipt { operation_key: key });
                }
                let owning = rename.target.owning_table();
                match self.find_head(&owning) {
                    None => Err(NameTableError::InconsistentReceipt { operation_key: key }),
                    Some(h) => {
                        proof {
                            assert(self@.heads[h as int] == self.heads@[h as int]@);
                        }
                        if rename.resulting_generation.0 > self.heads[h].generation.0
                            || self.resolve(&rename.target).is_err() {
                            Err(NameTableError::InconsistentReceipt { operation_key: key })
                        } else {
                            Ok(())
                        }
                    },
                }
            },
        }
    }

    /// Check the heads in address order: the fault of the faulty head with
    /// the least address, if any.
    fn check_heads(&self) -> (result: Result<(), NameTableError<Root>>)
        requires
            root_laws::<Root>(),
        ensures
            match heads_fault(self@) {
                None => result is Ok,
                Some(e) => result matches Err(x) && x@ == e,
            },
    {
        let mut best: Option<(usize, NameTableError<Root>)> = None;
        let mut i: usize = self.heads.len();
        while i > 0
            invariant
                root_laws::<Root>(),
                i <= self@.heads.len(),
                match least_faulty_head(self@, i as int) {
                    None => best is None,
                    Some(b) => best matches Some((bi, e)) && bi == b && b < self@.heads.len()
                        && head_fault(self@, b) == Some(e@),
                },
            decreases i,
        {
            i = i - 1;
            proof {
                lemma_least_head(self@, i + 1);
            }
            match self.check_head(i) {
                Ok(()) => {},
                Err(e) => {
                    let take = match &best {
                        None => true,
                        Some((b, _)) => {
                            proof {
                                assert(self@.heads[i as int] == self.heads@[i as int]@);
                                assert(self@.heads[*b as int] == self.heads@[*b as int]@);
                            }
                            compare_addresses(&self.heads[i].address, &self.heads[*b].address) <= 0
                        },
                    };
                    if take {
                        best = Some((i, e));
                    }
                },
            }
        }
        proof {
            lemma_least_head(self@, 0);
        }
        match best {
            None => Ok(()),
            Some((_, e)) => Err(e),
        }
    }

    /// Check the receipts stored under `keys` in key order: the fault of the
    /// faulty receipt with the least key, if any.
    fn check_receipts(&self, keys: &[OperationKey]) -> (result: Result<(), NameTableError<Root>>)
        requires
            root_laws::<Root>(),
            keys@.len() == self@.receipts.len(),
        ensures
            match keyed_receipts_fault(self@, pair_keys(keys@, self@.receipts)) {
                None => result is Ok,
                Some(e) => result matches Err(x) && x@ == e,
            },
    {
        let ghost kv = pair_keys(keys@, self@.receipts);
        let mut best: Option<(usize, NameTableError<Root>)> = None;
        let mut i: usize = keys.len();
        while i > 0
            invariant
                root_laws::<Root>(),
                kv == pair_keys(keys@, self@.receipts),
                keys@.len() == self@.receipts.len(),
                i <= keys@.len(),
                match least_faulty_receipt(self@, kv, i as int) {
                    None => best is None,
                    Some(b) => best matches Some((bi, e)) && bi == b && b < keys@.len()
                        && keyed_fault(self@, kv, b) == Some(e@),
                },
            decreases i,
        {
            i = i - 1;
            proof {
                lemma_least_receipt(self@, kv, i + 1);
            }
            match self.check_keyed_receipt(keys, i) {
                Ok(()) => {},
                Err(e) => {
                    let take = match &best {
                        None => true,
                        Some((b, _)) => {
                            proof {
                                assert(kv[i as int].0 == keys@[i as int]@);
                                assert(kv[*b as int].0 == keys@[*b as int]@);
                            }
                            keys[i].compare(&keys[*b]) <= 0
                        },
                    };
                    if take {
                        best = Some((i, e));
                    }
                },
            }
        }
        proof {
            lemma_least_receipt(self@, kv, 0);
        }
        match best {
            None => Ok(()),
            Some((_, e)) => Err(e),
        }
    }

    /// Check every stored invariant with the receipts stored under `keys`:
    /// snapshots in locator order, then heads in address order, then receipts
    /// in key order.
    pub(crate) fn validate_with_keys(&self, keys: &[OperationKey]) -> (result: Result<
        (),
        NameTableError<Root>,
    >)
        requires
            root_laws::<Root>(),
            keys@.len() == self@.receipts.len(),
        ensures
            match fault_with_keys(self@, pair_keys(keys@, self@.receipts)) {
                None => result is Ok,
                Some(e) => result matches Err(x) && x@ == e,
            },
    {
        let mut i: usize = 0;
        while i < self.snapshots.len()
            invariant
                i <= self@.snapshots.len(),
                snapshots_fault_from(self@, 0) == snapshots_fault_from(self@, i as int),
            decreases self@.snapshots.len() - i,
        {
            self.check_snapshot(i)?;
            i = i + 1;
        }
        self.check_heads()?;
        self.check_receipts(keys)
    }

    /// Check every stored invariant: snapshots, then heads, then receipts.
    pub(crate) fn validate(&self) -> (result: Result<(), NameTableError<Root>>)
        requires
            root_laws::<Root>(),
        ensures
            match consistency_fault(self@) {
                None => result is Ok,
                Some(e) => result matches Err(x) && x@ == e,
            },
    {
        let ghost rv = self@.receipts;
        let mut keys: Vec<OperationKey> = Vec::new();
        let mut i: usize = 0;
        while i < self.receipts.len()
            invariant
                rv == self@.receipts,
                i <= rv.len(),
                keys@.len() == i,
                forall|k: int| 0 <= k < i ==> (#[trigger] keys@[k])@ == receipt_key(rv[k]),
            decreases rv.len() - i,
        {
            proof {
                assert(rv[i as int] == self.receipts@[i as int]@);
            }
            keys.push(self.receipts[i].operation_key());
            i = i + 1;
        }
        proof {
            assert(pair_keys(keys@, rv) =~= stored_receipts(self@));
        }
        self.validate_with_keys(keys.as_slice())
    }
}

/// Keys paired with the receipts stored under them.
pub open spec fn pair_keys<Root>(keys: Seq<OperationKey>, rs: Seq<ReceiptV<Root>>) -> Seq<
    (Seq<u8>, ReceiptV<Root>),
> {
    Seq::new(rs.len(), |j: int| (keys[j]@, rs[j]))
}

} // verus!
