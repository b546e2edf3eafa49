//! The order in which a state stores its records — heads by table address,
//! receipts by key — and why that order changes no lookup and no check.

use vstd::prelude::*;

use crate::canonical::lemma_project_sign_laws;
use crate::changes::{address_order, compare_addresses, lemma_address_order_sign_laws};
use crate::consistency::{
    consistent, head_fault, lemma_consistent_faults, lemma_faults_none, receipt_fault, receipt_key,
    resolved_fault, snapshot_fault, snapshots_fault_from,
};
use crate::order::{
    order_of, sort_canonical, views,
    CanonicalOrder, bytes_order, insertion_sort, lemma_bytes_order_laws, lemma_distinct_keys_carry,
    lemma_insertion_sort_perm, sign_laws,
};
use crate::root_order::root_laws;
use crate::stage::{receipt_from, receipt_index};
use crate::state::{HeadV, ModuleTableHead, OperationKey, OperationReceipt, ReceiptV, ResolvedV};
use crate::table::{
    head_views, receipt_views, NameTable,
    AddressV, TableV, current_snapshot_spec, head_index, lemma_head_index, lemma_head_index_props,
    resolve_spec,
};

verus! {

broadcast use {
    crate::table::reveal_table_view,
    crate::state::reveal_head_view,
    crate::state::reveal_key_view,
    crate::state::reveal_seal_receipt_view,
    crate::state::reveal_rename_receipt_view,
    vstd::seq_lib::group_to_multiset_ensures,
};

/// Heads in the order of their table addresses.
pub open spec fn head_order<Root: Ord>() -> spec_fn(HeadV<Root>, HeadV<Root>) -> int {
    |a: HeadV<Root>, b: HeadV<Root>| address_order(a.address, b.address)
}

/// Receipts in the order of their keys.
pub open spec fn receipt_order<Root>() -> spec_fn(ReceiptV<Root>, ReceiptV<Root>) -> int {
    |a: ReceiptV<Root>, b: ReceiptV<Root>| bytes_order(receipt_key(a), receipt_key(b))
}

/// Archived receipts in the order of the keys they are stored under.
pub open spec fn keyed_order<Root>() -> spec_fn(
    (Seq<u8>, ReceiptV<Root>),
    (Seq<u8>, ReceiptV<Root>),
) -> int {
    |a: (Seq<u8>, ReceiptV<Root>), b: (Seq<u8>, ReceiptV<Root>)| bytes_order(a.0, b.0)
}

/// A state with its heads put in address order and its receipts in key
/// order.
pub open spec fn arranged<Root: Ord>(t: TableV<Root>) -> TableV<Root> {
    TableV {
        revision: t.revision,
        heads: insertion_sort(t.heads, head_order()),
        snapshots: t.snapshots,
        receipts: insertion_sort(t.receipts, receipt_order()),
    }
}

/// A state whose heads stand in strictly increasing address order and whose
/// receipts stand in strictly increasing key order.
pub open spec fn in_order<Root: Ord>(t: TableV<Root>) -> bool {
    &&& forall|i: int, j: int|
        0 <= i < j < t.heads.len() ==> address_order(t.heads[i].address, t.heads[j].address) < 0
    &&& forall|i: int, j: int|
        0 <= i < j < t.receipts.len() ==> bytes_order(
            receipt_key(t.receipts[i]),
            receipt_key(t.receipts[j]),
        ) < 0
}

/// The head of table `address`, if any.
pub open spec fn head_at<Root>(heads: Seq<HeadV<Root>>, address: AddressV<Root>) -> Option<HeadV<Root>> {
    match head_index(heads, address) {
        Some(i) => Some(heads[i]),
        None => None,
    }
}

impl<Root: Ord + Copy> CanonicalOrder for ModuleTableHead<Root> {
    open spec fn order_holds() -> bool {
        root_laws::<Root>()
    }

    open spec fn order(a: HeadV<Root>, b: HeadV<Root>) -> int {
        address_order(a.address, b.address)
    }

    proof fn lemma_sign_laws() {
        lemma_address_order_sign_laws::<Root>();
        let f = |a: AddressV<Root>, b: AddressV<Root>| address_order(a, b);
        let p = |h: HeadV<Root>| h.address;
        lemma_project_sign_laws(f, p);
        assert((|a: HeadV<Root>, b: HeadV<Root>| Self::order(a, b)) =~= (|x: HeadV<Root>, y: HeadV<Root>|
            f(p(x), p(y))));
    }

    fn compare(&self, other: &Self) -> (result: i8) {
        compare_addresses(&self.address, &other.address)
    }
}

impl<Root> CanonicalOrder for OperationReceipt<Root> {
    open spec fn order_holds() -> bool {
        true
    }

    open spec fn order(a: ReceiptV<Root>, b: ReceiptV<Root>) -> int {
        bytes_order(receipt_key(a), receipt_key(b))
    }

    proof fn lemma_sign_laws() {
        lemma_bytes_order_laws();
        let f = |a: Seq<u8>, b: Seq<u8>| bytes_order(a, b);
        let p = |r: ReceiptV<Root>| receipt_key(r);
        lemma_project_sign_laws(f, p);
        assert((|a: ReceiptV<Root>, b: ReceiptV<Root>| Self::order(a, b)) =~= (|
            x: ReceiptV<Root>,
            y: ReceiptV<Root>,
        | f(p(x), p(y))));
    }

    fn compare(&self, other: &Self) -> (result: i8) {
        let a = self.operation_key();
        let b = other.operation_key();
        a.compare(&b)
    }
}

impl<Root> CanonicalOrder for (OperationKey, OperationReceipt<Root>) {
    open spec fn order_holds() -> bool {
        true
    }

    open spec fn order(a: (Seq<u8>, ReceiptV<Root>), b: (Seq<u8>, ReceiptV<Root>)) -> int {
        bytes_order(a.0, b.0)
    }

    proof fn lemma_sign_laws() {
        lemma_bytes_order_laws();
        let f = |a: Seq<u8>, b: Seq<u8>| bytes_order(a, b);
        let p = |r: (Seq<u8>, ReceiptV<Root>)| r.0;
        lemma_project_sign_laws(f, p);
        assert((|a: (Seq<u8>, ReceiptV<Root>), b: (Seq<u8>, ReceiptV<Root>)| Self::order(a, b))
            =~= (|x: (Seq<u8>, ReceiptV<Root>), y: (Seq<u8>, ReceiptV<Root>)| f(p(x), p(y))));
    }

    fn compare(&self, other: &Self) -> (result: i8) {
        self.0.compare(&other.0)
    }
}

/// Rearranging heads whose tables are distinct keeps the head of every
/// table, so every current snapshot and every resolution.
pub proof fn lemma_same_heads<Root>(t: TableV<Root>, u: TableV<Root>)
    requires
        u.snapshots == t.snapshots,
        u.heads.to_multiset() == t.heads.to_multiset(),
        forall|i: int, j: int|
            0 <= i < j < t.heads.len() ==> t.heads[i].address != t.heads[j].address,
    ensures
        forall|i: int, j: int|
            0 <= i < j < u.heads.len() ==> u.heads[i].address != u.heads[j].address,
        forall|a: AddressV<Root>| #[trigger] head_at(u.heads, a) == head_at(t.heads, a),
        forall|a: AddressV<Root>| #[trigger]
            current_snapshot_spec(u, a) == current_snapshot_spec(t, a),
        forall|id: AddressV<Root>| #[trigger] resolve_spec(u, id) == resolve_spec(t, id),
{
    broadcast use vstd::multiset::group_multiset_axioms;

    let key = |h: HeadV<Root>| h.address;
    lemma_distinct_keys_carry(t.heads, u.heads, key);
    assert forall|i: int, j: int| 0 <= i < j < u.heads.len() implies u.heads[i].address
        != u.heads[j].address by {
        assert(key(u.heads[i]) != key(u.heads[j]));
    }
    assert forall|a: AddressV<Root>| #[trigger] head_at(u.heads, a) == head_at(t.heads, a) by {
        lemma_head_index_props(t.heads, a);
        lemma_head_index_props(u.heads, a);
        if let Some(i) = head_index(t.heads, a) {
            let h = t.heads[i];
            assert(t.heads.to_multiset().count(h) > 0);
            assert(u.heads.contains(h));
            let j = choose|j: int| 0 <= j < u.heads.len() && u.heads[j] == h;
            let k = head_index(u.heads, a)->0;
            if k != j {
                if k < j {
                    assert(key(u.heads[k]) != key(u.heads[j]));
                } else {
                    assert(key(u.heads[j]) != key(u.heads[k]));
                }
            }
        } else if let Some(j) = head_index(u.heads, a) {
            let h = u.heads[j];
            assert(u.heads.to_multiset().count(h) > 0);
            assert(t.heads.contains(h));
        }
    }
    assert forall|a: AddressV<Root>| #[trigger] current_snapshot_spec(u, a)
        == current_snapshot_spec(t, a) by {
        assert(head_at(u.heads, a) == head_at(t.heads, a));
    }
    assert forall|id: AddressV<Root>| #[trigger] resolve_spec(u, id) == resolve_spec(t, id) by {
        assert(current_snapshot_spec(u, (id.0, id.1.drop_last())) == current_snapshot_spec(
            t,
            (id.0, id.1.drop_last()),
        ));
    }
}

proof fn lemma_snapshots_same<Root>(t: TableV<Root>, u: TableV<Root>, i: int)
    requires
        u.snapshots == t.snapshots,
    ensures
        snapshots_fault_from(u, i) == snapshots_fault_from(t, i),
    decreases t.snapshots.len() - i,
{
    if 0 <= i < t.snapshots.len() {
        lemma_snapshots_same(t, u, i + 1);
        assert(snapshot_fault(u, i) == snapshot_fault(t, i));
    }
}

proof fn lemma_resolved_same<Root>(
    t: TableV<Root>,
    u: TableV<Root>,
    items: Seq<ResolvedV<Root>>,
    k: int,
    key: Seq<u8>,
)
    requires
        forall|id: AddressV<Root>| #[trigger] resolve_spec(u, id) == resolve_spec(t, id),
    ensures
        resolved_fault(u, items, k, key) == resolved_fault(t, items, k, key),
    decreases items.len() - k,
{
    if 0 <= k < items.len() {
        lemma_resolved_same(t, u, items, k + 1, key);
        assert(resolve_spec(u, items[k].encoded_id) == resolve_spec(t, items[k].encoded_id));
    }
}

/// Rearranging the heads and receipts of a consistent state keeps it
/// consistent.
pub proof fn lemma_rearranged_consistent<Root: Ord>(t: TableV<Root>, u: TableV<Root>)
    requires
        consistent(t),
        u.revision == t.revision,
        u.snapshots == t.snapshots,
        u.heads.to_multiset() == t.heads.to_multiset(),
        u.receipts.to_multiset() == t.receipts.to_multiset(),
    ensures
        consistent(u),
{
    broadcast use vstd::multiset::group_multiset_axioms;

    lemma_consistent_faults(t);
    assert forall|i: int, j: int| 0 <= i < j < t.heads.len() implies t.heads[i].address
        != t.heads[j].address by {
        assert(head_fault(t, j) is None);
    }
    lemma_same_heads(t, u);
    let key = |r: ReceiptV<Root>| receipt_key(r);
    assert forall|i: int, j: int| 0 <= i < j < t.receipts.len() implies key(t.receipts[i]) != key(
        t.receipts[j],
    ) by {
        assert(receipt_fault(t, j) is None);
    }
    lemma_distinct_keys_carry(t.receipts, u.receipts, key);
    lemma_snapshots_same(t, u, 0);
    assert(snapshots_fault_from(t, 0) is None);
    assert forall|j: int| 0 <= j < u.heads.len() implies #[trigger] head_fault(u, j) is None by {
        let h = u.heads[j];
        assert(u.heads.to_multiset().count(h) > 0);
        assert(t.heads.contains(h));
        let i = choose|i: int| 0 <= i < t.heads.len() && t.heads[i] == h;
        assert(head_fault(t, i) is None);
        if h.address.1.len() > 0 {
            let parent = (h.address.0, h.address.1.drop_last());
            assert(current_snapshot_spec(u, parent) == current_snapshot_spec(t, parent));
        }
    }
    assert forall|j: int| 0 <= j < u.receipts.len() implies #[trigger] receipt_fault(u, j) is None by {
        let r = u.receipts[j];
        assert(u.receipts.to_multiset().count(r) > 0);
        assert(t.receipts.contains(r));
        let i = choose|i: int| 0 <= i < t.receipts.len() && t.receipts[i] == r;
        assert(receipt_fault(t, i) is None);
        assert forall|m: int| 0 <= m < j implies receipt_key(u.receipts[m]) != receipt_key(r) by {
            assert(key(u.receipts[m]) != key(u.receipts[j]));
        }
        match r {
            ReceiptV::Seal(s) => {
                lemma_resolved_same(t, u, s.declarations + s.references, 0, receipt_key(r));
            },
            ReceiptV::Rename(n) => {
                let owner = (n.target.0, n.target.1.drop_last());
                assert(head_at(u.heads, owner) == head_at(t.heads, owner));
                assert(resolve_spec(u, n.target) == resolve_spec(t, n.target));
            },
        }
    }
    lemma_faults_none(u);
}

/// Arranging a state rearranges its heads and receipts and keeps the rest.
pub proof fn lemma_arranged<Root: Ord>(t: TableV<Root>)
    ensures
        arranged(t).revision == t.revision,
        arranged(t).snapshots == t.snapshots,
        arranged(t).heads.to_multiset() == t.heads.to_multiset(),
        arranged(t).receipts.to_multiset() == t.receipts.to_multiset(),
        arranged(t).heads.len() == t.heads.len(),
        arranged(t).receipts.len() == t.receipts.len(),
{
    lemma_insertion_sort_perm(t.heads, head_order::<Root>());
    lemma_insertion_sort_perm(t.receipts, receipt_order::<Root>());
}

/// Arranging a consistent state keeps it consistent and keeps the head of
/// every table, so every current snapshot and every resolution.
pub proof fn lemma_arranged_keeps<Root: Ord>(t: TableV<Root>)
    requires
        consistent(t),
    ensures
        consistent(arranged(t)),
        forall|a: AddressV<Root>| #[trigger]
            head_at(arranged(t).heads, a) == head_at(t.heads, a),
        forall|a: AddressV<Root>| #[trigger]
            current_snapshot_spec(arranged(t), a) == current_snapshot_spec(t, a),
        forall|id: AddressV<Root>| #[trigger] resolve_spec(arranged(t), id) == resolve_spec(t, id),
{
    let u = arranged(t);
    lemma_arranged(t);
    lemma_rearranged_consistent(t, u);
    lemma_consistent_faults(t);
    assert forall|i: int, j: int| 0 <= i < j < t.heads.len() implies t.heads[i].address
        != t.heads[j].address by {
        assert(head_fault(t, j) is None);
    }
    lemma_same_heads(t, u);
}

/// Arranging a consistent state puts it in order.
pub proof fn lemma_arranged_in_order<Root: Ord>(t: TableV<Root>)
    requires
        root_laws::<Root>(),
        consistent(t),
    ensures
        in_order(arranged(t)),
{
    let u = arranged(t);
    lemma_arranged_keeps(t);
    lemma_consistent_faults(u);
    let ho = head_order::<Root>();
    let ro = receipt_order::<Root>();
    assert(sign_laws(ho)) by {
        lemma_address_order_sign_laws::<Root>();
        let f = |a: AddressV<Root>, b: AddressV<Root>| address_order(a, b);
        let p = |h: HeadV<Root>| h.address;
        lemma_project_sign_laws(f, p);
        assert((|x: HeadV<Root>, y: HeadV<Root>| f(p(x), p(y))) =~= ho);
    }
    assert(sign_laws(ro)) by {
        <OperationReceipt<Root> as CanonicalOrder>::lemma_sign_laws();
        assert((|a: ReceiptV<Root>, b: ReceiptV<Root>| <OperationReceipt<Root> as CanonicalOrder>::order(a, b)) =~= ro);
    }
    crate::order::lemma_insertion_sort_sorted(t.heads, ho);
    crate::order::lemma_insertion_sort_sorted(t.receipts, ro);
    assert forall|i: int, j: int| 0 <= i < j < u.heads.len() implies address_order(
        u.heads[i].address,
        u.heads[j].address,
    ) < 0 by {
        assert(crate::order::leq_of(ho)(u.heads[i], u.heads[j]));
        assert(head_fault(u, j) is None);
        crate::changes::lemma_address_order_zero::<Root>(u.heads[i].address, u.heads[j].address);
    }
    lemma_bytes_order_laws();
    assert forall|i: int, j: int| 0 <= i < j < u.receipts.len() implies bytes_order(
        receipt_key(u.receipts[i]),
        receipt_key(u.receipts[j]),
    ) < 0 by {
        assert(crate::order::leq_of(ro)(u.receipts[i], u.receipts[j]));
        assert(receipt_fault(u, j) is None);
        let f = |a: Seq<u8>, b: Seq<u8>| bytes_order(a, b);
        assert(f(receipt_key(u.receipts[i]), receipt_key(u.receipts[j])) == bytes_order(
            receipt_key(u.receipts[i]),
            receipt_key(u.receipts[j]),
        ));
    }
}

/// A consistent state rebuilt with its heads sorted by address and its
/// receipts from archived records sorted by key is in order.
pub proof fn lemma_rebuilt_in_order<Root: Ord>(t: TableV<Root>, kv: Seq<(Seq<u8>, ReceiptV<Root>)>)
    requires
        root_laws::<Root>(),
        consistent(t),
        exists|hs: Seq<HeadV<Root>>| t.heads == insertion_sort(hs, head_order()),
        exists|ks: Seq<(Seq<u8>, ReceiptV<Root>)>| kv == insertion_sort(ks, keyed_order()),
        t.receipts == kv.map_values(|r: (Seq<u8>, ReceiptV<Root>)| r.1),
        kv == crate::consistency::stored_receipts(t),
    ensures
        in_order(t),
{
    let hs = choose|hs: Seq<HeadV<Root>>| t.heads == insertion_sort(hs, head_order());
    let ks = choose|ks: Seq<(Seq<u8>, ReceiptV<Root>)>| kv == insertion_sort(ks, keyed_order());
    lemma_consistent_faults(t);
    let ho = head_order::<Root>();
    let ko = keyed_order::<Root>();
    assert(sign_laws(ho)) by {
        lemma_address_order_sign_laws::<Root>();
        let f = |a: AddressV<Root>, b: AddressV<Root>| address_order(a, b);
        let p = |h: HeadV<Root>| h.address;
        lemma_project_sign_laws(f, p);
        assert((|x: HeadV<Root>, y: HeadV<Root>| f(p(x), p(y))) =~= ho);
    }
    assert(sign_laws(ko)) by {
        lemma_bytes_order_laws();
        let f = |a: Seq<u8>, b: Seq<u8>| bytes_order(a, b);
        let p = |r: (Seq<u8>, ReceiptV<Root>)| r.0;
        lemma_project_sign_laws(f, p);
        assert((|x: (Seq<u8>, ReceiptV<Root>), y: (Seq<u8>, ReceiptV<Root>)| f(p(x), p(y))) =~= ko);
    }
    crate::order::lemma_insertion_sort_sorted(hs, ho);
    crate::order::lemma_insertion_sort_sorted(ks, ko);
    assert forall|i: int, j: int| 0 <= i < j < t.heads.len() implies address_order(
        t.heads[i].address,
        t.heads[j].address,
    ) < 0 by {
        assert(crate::order::leq_of(ho)(t.heads[i], t.heads[j]));
        assert(head_fault(t, j) is None);
        crate::changes::lemma_address_order_zero::<Root>(t.heads[i].address, t.heads[j].address);
    }
    lemma_bytes_order_laws();
    assert forall|i: int, j: int| 0 <= i < j < t.receipts.len() implies bytes_order(
        receipt_key(t.receipts[i]),
        receipt_key(t.receipts[j]),
    ) < 0 by {
        assert(crate::order::leq_of(ko)(kv[i], kv[j]));
        assert(kv[i] == (receipt_key(t.receipts[i]), t.receipts[i]));
        assert(kv[j] == (receipt_key(t.receipts[j]), t.receipts[j]));
        assert(receipt_fault(t, j) is None);
        let f = |a: Seq<u8>, b: Seq<u8>| bytes_order(a, b);
        assert(f(receipt_key(t.receipts[i]), receipt_key(t.receipts[j])) == bytes_order(
            receipt_key(t.receipts[i]),
            receipt_key(t.receipts[j]),
        ));
    }
}

/// What a search for a key among receipts finds.
pub proof fn lemma_receipt_from_props<Root>(s: Seq<ReceiptV<Root>>, key: Seq<u8>, i: int)
    requires
        0 <= i,
    ensures
        receipt_from(s, key, i) matches Some(k) ==> i <= k < s.len() && receipt_key(s[k]) == key,
        receipt_from(s, key, i) is None ==> forall|j: int|
            i <= j < s.len() ==> receipt_key(#[trigger] s[j]) != key,
    decreases s.len() - i,
{
    if i < s.len() {
        lemma_receipt_from_props(s, key, i + 1);
    }
}

/// Among receipts that rearrange `s` and one new receipt `x` whose key no
/// receipt of `s` has, the search for that key finds `x`.
pub proof fn lemma_receipt_found<Root>(p: Seq<ReceiptV<Root>>, s: Seq<ReceiptV<Root>>, x: ReceiptV<Root>)
    requires
        p.to_multiset() == s.push(x).to_multiset(),
        receipt_index(s, receipt_key(x)) is None,
    ensures
        receipt_index(p, receipt_key(x)) matches Some(i) && 0 <= i < p.len() && p[i] == x,
{
    broadcast use vstd::multiset::group_multiset_axioms;

    let key = receipt_key(x);
    lemma_receipt_from_props(s, key, 0);
    lemma_receipt_from_props(p, key, 0);
    assert(s.push(x)[s.len() as int] == x);
    assert(s.push(x).to_multiset().count(x) > 0);
    assert(p.contains(x));
    let j = choose|j: int| 0 <= j < p.len() && p[j] == x;
    assert(receipt_key(p[j]) == key);
    let i = receipt_index(p, key)->0;
    assert(p.to_multiset().count(p[i]) > 0);
    assert(s.push(x).contains(p[i]));
    let m = choose|m: int| 0 <= m < s.push(x).len() && s.push(x)[m] == p[i];
    if m < s.len() {
        assert(s.push(x)[m] == s[m]);
        assert(receipt_key(s[m]) != key);
    }
}

impl<Root: Ord + Copy> NameTable<Root> {
    /// Put the heads in address order and the receipts in key order.
    pub(crate) fn arrange(self) -> (result: Self)
        requires
            root_laws::<Root>(),
        ensures
            result@ == arranged(self@),
    {
        let ghost before = self@;
        let NameTable { revision, heads, snapshots, receipts } = self;
        proof {
            assert(head_views(heads@) =~= views(heads@));
            assert(receipt_views(receipts@) =~= views(receipts@));
            assert(order_of::<ModuleTableHead<Root>>() =~= head_order::<Root>());
            assert(order_of::<OperationReceipt<Root>>() =~= receipt_order::<Root>());
        }
        let heads = sort_canonical(heads);
        let receipts = sort_canonical(receipts);
        let table = NameTable { revision, heads, snapshots, receipts };
        proof {
            assert(head_views(table.heads@) =~= views(table.heads@));
            assert(receipt_views(table.receipts@) =~= views(table.receipts@));
        }
        table
    }
}

} // verus!
