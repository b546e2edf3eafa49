//! Properties of the library as a whole: what a replay returns, what a
//! conflict returns, what every operation keeps, and what a rename preserves.

use vstd::prelude::*;

use crate::canonical::{
    DeclKeyV, canon_decls, canon_each, decl_name_order_fn, canonical_request, decl_key_order, flatten_roots,
    lemma_decl_key_order_laws, lemma_path_order_laws, lemma_root_key_order_laws, path_order,
    root_key_order,
};
use crate::order::{
    CanonicalOrder, insertion_sort, order_of, lemma_distinct_keys_carry, lemma_insertion_sort_sorted,
    lemma_sort_by_same_values, lemma_sorted_unique_distinct, sign_laws,
};
use crate::name::lemma_name_order_at;
use crate::archive::{from_parts_spec, has_repeat};
use crate::consistency::{consistent, receipt_key};
use crate::error::ErrorV;
use crate::arrangement::{arranged, head_at, head_order, in_order, keyed_order, lemma_arranged_in_order, lemma_arranged, lemma_arranged_keeps, lemma_receipt_found};
use crate::rename::{rename_body_spec, rename_staged_spec, stage_rename_spec};
use crate::request::{DeclV, PathV, RenameRequestV, RootDeclV, SealRequestV};
use crate::root_order::root_laws;
use crate::seal::{
    allocate_spec, apply_children_spec, apply_decls_spec, apply_table_spec, ensure_table_spec,
};
use crate::stage::{
    apply_roots_spec, receipt_index, seal_body_spec, seal_staged_spec, stage_seal_spec,
};
use crate::state::{AllocationCursor, ReceiptV, RenameReceiptV, SealReceiptV, cursor_for};
use crate::table::{
    AddressV, TableV, current_snapshot_spec, entry_id, head_index, lemma_head_index,
    lemma_head_index_props, lemma_local_of, lemma_local_of_props, local_of, lookup_spec,
    resolve_in_snapshot_spec, resolve_spec,
};

verus! {

/// `after` keeps the revision, the receipts and every snapshot of `before`,
/// and the table of every head of `before` at the same position.
pub open spec fn grows<Root>(before: TableV<Root>, after: TableV<Root>) -> bool {
    &&& after.revision == before.revision
    &&& after.receipts == before.receipts
    &&& before.snapshots.len() <= after.snapshots.len()
    &&& forall|i: int| 0 <= i < before.snapshots.len() ==> after.snapshots[i] == before.snapshots[i]
    &&& before.heads.len() <= after.heads.len()
    &&& forall|i: int|
        0 <= i < before.heads.len() ==> after.heads[i].address == before.heads[i].address
}

proof fn lemma_grows_trans<Root>(a: TableV<Root>, b: TableV<Root>, c: TableV<Root>)
    requires
        grows(a, b),
        grows(b, c),
    ensures
        grows(a, c),
{
}

proof fn lemma_ensure_grows<Root>(t: TableV<Root>, address: AddressV<Root>, m: crate::state::TableMutability)
    requires
        ensure_table_spec(t, address, m) is Ok,
    ensures
        grows(t, ensure_table_spec(t, address, m)->Ok_0),
{
}

proof fn lemma_apply_table_grows<Root>(t: TableV<Root>, address: AddressV<Root>, names: Seq<Seq<char>>)
    requires
        apply_table_spec(t, address, names) is Ok,
    ensures
        grows(t, apply_table_spec(t, address, names)->Ok_0.0),
{
    lemma_head_index_props(t.heads, address);
}

proof fn lemma_apply_decls_grows<Root>(
    t: TableV<Root>,
    address: AddressV<Root>,
    table: (Root, Seq<Seq<char>>),
    ds: Seq<DeclV>,
)
    requires
        apply_decls_spec(t, address, table, ds) is Ok,
    ensures
        grows(t, apply_decls_spec(t, address, table, ds)->Ok_0.0),
    decreases ds, 1int, 0int,
{
    let (t1, locals) = apply_table_spec(t, address, crate::validation::decl_names(ds))->Ok_0;
    lemma_apply_table_grows(t, address, crate::validation::decl_names(ds));
    lemma_apply_children_grows(t1, address, table, ds, locals, ds.len() as int);
    lemma_grows_trans(
        t,
        t1,
        apply_children_spec(t1, address, table, ds, locals, ds.len() as int)->Ok_0.0,
    );
}

proof fn lemma_apply_children_grows<Root>(
    t: TableV<Root>,
    address: AddressV<Root>,
    table: (Root, Seq<Seq<char>>),
    ds: Seq<DeclV>,
    locals: Seq<u16>,
    n: int,
)
    requires
        apply_children_spec(t, address, table, ds, locals, n) is Ok,
    ensures
        grows(t, apply_children_spec(t, address, table, ds, locals, n)->Ok_0.0),
    decreases ds, 0int, n,
{
    if n <= 0 || n > ds.len() {
    } else {
        lemma_apply_children_grows(t, address, table, ds, locals, n - 1);
        let t1 = apply_children_spec(t, address, table, ds, locals, n - 1)->Ok_0.0;
        match ds[n - 1] {
            DeclV::Member(_) => {},
            DeclV::Module(name, mutability, children) => {
                let child = crate::table::entry_id(address, locals[n - 1] as int);
                lemma_ensure_grows(t1, child, mutability);
                let t2 = ensure_table_spec(t1, child, mutability)->Ok_0;
                lemma_apply_decls_grows(t2, child, (table.0, table.1.push(name)), children);
                let t3 = apply_decls_spec(t2, child, (table.0, table.1.push(name)), children)->Ok_0.0;
                lemma_grows_trans(t, t1, t2);
                lemma_grows_trans(t, t2, t3);
            },
        }
    }
}

pub(crate) proof fn lemma_apply_roots_grows<Root>(t: TableV<Root>, roots: Seq<RootDeclV<Root>>, n: int)
    requires
        apply_roots_spec(t, roots, n) is Ok,
    ensures
        grows(t, apply_roots_spec(t, roots, n)->Ok_0.0),
    decreases n,
{
    if n > 0 {
        lemma_apply_roots_grows(t, roots, n - 1);
        let t1 = apply_roots_spec(t, roots, n - 1)->Ok_0.0;
        let root = roots[n - 1];
        let address = (root.root, Seq::<crate::identity::LocalEncodedId>::empty());
        lemma_ensure_grows(t1, address, root.mutability);
        let t2 = ensure_table_spec(t1, address, root.mutability)->Ok_0;
        lemma_apply_decls_grows(t2, address, (root.root, Seq::empty()), canon_decls(root.declarations));
        let t3 = apply_decls_spec(t2, address, (root.root, Seq::empty()), canon_decls(root.declarations))->Ok_0.0;
        lemma_grows_trans(t, t1, t2);
        lemma_grows_trans(t, t2, t3);
    }
}

/// The outcome of a new seal: its state grows from the base, advances the
/// revision by one and stores the receipt under the request's key.
pub(crate) proof fn lemma_seal_body_shape<Root: Ord + Copy>(t: TableV<Root>, request: SealRequestV<Root>)
    requires
        seal_body_spec(t, request) is Ok,
    ensures
        seal_staged_spec(t, request) is Ok,
        ({
            let (s, r) = seal_staged_spec(t, request)->Ok_0;
            &&& seal_body_spec(t, request) == Ok::<(TableV<Root>, SealReceiptV<Root>), ErrorV<Root>>(
                (arranged(s), r),
            )
            &&& s.receipts == t.receipts.push(ReceiptV::Seal(r))
            &&& s.revision == t.revision + 1
            &&& r.resulting_revision == s.revision
            &&& r.operation_key == request.operation_key
            &&& r.request_digest == canonical_request(request)
            &&& t.snapshots.len() <= s.snapshots.len()
            &&& forall|i: int|
                0 <= i < t.snapshots.len() ==> s.snapshots[i] == t.snapshots[i]
            &&& consistent(s)
        }),
{
    lemma_apply_roots_grows(t, request.roots, request.roots.len() as int);
}

/// Replaying a committed seal: staging the same request again against the
/// state it produced returns the same receipt and leaves that state as it is.
pub proof fn lemma_seal_replay<Root: Ord + Copy>(t: TableV<Root>, request: SealRequestV<Root>)
    requires
        stage_seal_spec(t, request) is Ok,
    ensures
        ({
            let (t2, r) = stage_seal_spec(t, request)->Ok_0;
            stage_seal_spec(t2, request) == Ok::<(TableV<Root>, SealReceiptV<Root>), ErrorV<Root>>(
                (t2, r),
            )
        }),
{
    if receipt_index(t.receipts, request.operation_key) is None {
        lemma_seal_body_shape(t, request);
        let (s, r) = seal_staged_spec(t, request)->Ok_0;
        lemma_arranged(s);
        lemma_receipt_found(arranged(s).receipts, t.receipts, ReceiptV::Seal(r));
    }
}

/// Reusing a committed seal's key with a request whose canonical content
/// differs is refused as a conflict, and refused again on every retry.
pub proof fn lemma_seal_key_conflict<Root: Ord + Copy>(
    t: TableV<Root>,
    request: SealRequestV<Root>,
    other: SealRequestV<Root>,
)
    requires
        stage_seal_spec(t, request) is Ok,
        other.operation_key == request.operation_key,
        canonical_request(other) != canonical_request(request),
    ensures
        stage_seal_spec(stage_seal_spec(t, request)->Ok_0.0, other) == Err::<
            (TableV<Root>, SealReceiptV<Root>),
            ErrorV<Root>,
        >(ErrorV::IdempotencyConflict(request.operation_key)),
{
    if receipt_index(t.receipts, request.operation_key) is None {
        lemma_seal_body_shape(t, request);
        let (s, r) = seal_staged_spec(t, request)->Ok_0;
        lemma_arranged(s);
        lemma_receipt_found(arranged(s).receipts, t.receipts, ReceiptV::Seal(r));
    }
}

/// Every state a seal stages from a consistent state is consistent, and a
/// new seal advances the revision by exactly one while a replay keeps it.
pub proof fn lemma_seal_keeps_consistency<Root: Ord + Copy>(t: TableV<Root>, request: SealRequestV<Root>)
    requires
        consistent(t),
        stage_seal_spec(t, request) is Ok,
    ensures
        ({
            let (t2, r) = stage_seal_spec(t, request)->Ok_0;
            &&& consistent(t2)
            &&& t2.revision == t.revision || t2.revision == t.revision + 1
            &&& t2.revision == t.revision + 1 ==> r.resulting_revision == t2.revision
        }),
{
    if receipt_index(t.receipts, request.operation_key) is None {
        lemma_seal_body_shape(t, request);
        lemma_arranged_keeps(seal_staged_spec(t, request)->Ok_0.0);
    }
}

/// A seal never rewrites history: every snapshot of the base stays at its
/// locator, so every pinned resolution keeps its result.
pub proof fn lemma_seal_keeps_history<Root: Ord + Copy>(
    t: TableV<Root>,
    request: SealRequestV<Root>,
    digest: u64,
    id: AddressV<Root>,
)
    requires
        stage_seal_spec(t, request) is Ok,
        digest < t.snapshots.len(),
    ensures
        resolve_in_snapshot_spec(stage_seal_spec(t, request)->Ok_0.0, digest, id)
            == resolve_in_snapshot_spec(t, digest, id),
{
    if receipt_index(t.receipts, request.operation_key) is None {
        lemma_seal_body_shape(t, request);
    }
}

/// The outcome of a new rename.
pub(crate) proof fn lemma_rename_body_shape<Root: Ord>(t: TableV<Root>, request: RenameRequestV<Root>)
    requires
        rename_body_spec(t, request) is Ok,
    ensures
        rename_staged_spec(t, request) is Ok,
        ({
            let (t2, r) = rename_staged_spec(t, request)->Ok_0;
            let address = (request.target.0, request.target.1.drop_last());
            let h = head_index(t.heads, address)->0;
            &&& rename_body_spec(t, request) == Ok::<(TableV<Root>, RenameReceiptV<Root>), ErrorV<Root>>(
                (arranged(t2), r),
            )
            &&& head_index(t.heads, address) is Some
            &&& 0 <= h < t.heads.len()
            &&& t.heads[h].current < t.snapshots.len()
            &&& t2.receipts == t.receipts.push(ReceiptV::Rename(r))
            &&& t2.revision == t.revision + 1
            &&& r.resulting_revision == t2.revision
            &&& r.operation_key == request.operation_key
            &&& r.target == request.target
            &&& r.new_spelling == request.new_spelling
            &&& r.old_spelling == t.snapshots[t.heads[h].current as int].entries[request.target.1.last()@ as int]
            &&& request.target.1.last()@ < t.snapshots[t.heads[h].current as int].entries.len()
            &&& t2.snapshots.len() == t.snapshots.len() + 1
            &&& forall|i: int|
                0 <= i < t.snapshots.len() ==> t2.snapshots[i] == t.snapshots[i]
            &&& t2.heads == t.heads.update(h, t2.heads[h])
            &&& t2.heads[h].address == address
            &&& t2.heads[h].current == t.snapshots.len()
            &&& t2.snapshots[t.snapshots.len() as int].entries == t.snapshots[t.heads[h].current as int].entries.update(
                request.target.1.last()@ as int,
                request.new_spelling,
            )
            &&& consistent(t2)
        }),
{
    let address = (request.target.0, request.target.1.drop_last());
    lemma_head_index_props(t.heads, address);
}

/// Replaying a committed rename returns the same receipt and leaves the state
/// it produced as it is.
pub proof fn lemma_rename_replay<Root: Ord>(t: TableV<Root>, request: RenameRequestV<Root>)
    requires
        stage_rename_spec(t, request) is Ok,
    ensures
        ({
            let (t2, r) = stage_rename_spec(t, request)->Ok_0;
            stage_rename_spec(t2, request) == Ok::<(TableV<Root>, RenameReceiptV<Root>), ErrorV<Root>>(
                (t2, r),
            )
        }),
{
    if receipt_index(t.receipts, request.operation_key) is None {
        lemma_rename_body_shape(t, request);
        let (s, r) = rename_staged_spec(t, request)->Ok_0;
        lemma_arranged(s);
        lemma_receipt_found(arranged(s).receipts, t.receipts, ReceiptV::Rename(r));
    }
}

/// An operational rename keeps the target's complete identity: afterwards
/// the identity resolves to the new spelling, and the snapshot that was
/// current before still resolves it to the old spelling.
pub proof fn lemma_rename_preserves_identity<Root: Ord>(t: TableV<Root>, request: RenameRequestV<Root>)
    requires
        consistent(t),
        receipt_index(t.receipts, request.operation_key) is None,
        stage_rename_spec(t, request) is Ok,
    ensures
        ({
            let (t2, r) = stage_rename_spec(t, request)->Ok_0;
            let address = (request.target.0, request.target.1.drop_last());
            let before = t.heads[head_index(t.heads, address)->0].current;
            &&& r.target == request.target
            &&& resolve_spec(t2, request.target) == Ok::<Seq<char>, ErrorV<Root>>(
                request.new_spelling,
            )
            &&& resolve_in_snapshot_spec(t2, before, request.target) == Ok::<Seq<char>, ErrorV<Root>>(
                r.old_spelling,
            )
            &&& resolve_spec(t, request.target) == Ok::<Seq<char>, ErrorV<Root>>(r.old_spelling)
            &&& r.new_spelling == request.new_spelling
        }),
{
    lemma_rename_body_shape(t, request);
    let (t2, r) = rename_staged_spec(t, request)->Ok_0;
    lemma_arranged_keeps(t2);
    assert(resolve_spec(arranged(t2), request.target) == resolve_spec(t2, request.target));
    let address = (request.target.0, request.target.1.drop_last());
    let h = head_index(t.heads, address)->0;
    lemma_head_index_props(t.heads, address);
    assert forall|j: int| 0 <= j < h implies t2.heads[j].address != address by {
        assert(t2.heads[j] == t.heads[j]);
    }
    lemma_head_index(t2.heads, address, h);
    crate::consistency::lemma_head_sound(t, h);
    assert(t2.snapshots[t.heads[h].current as int] == t.snapshots[t.heads[h].current as int]);
}

/// An operational rename changes the resolution of its target only: every
/// other identity resolves afterwards exactly as before.
pub proof fn lemma_rename_keeps_other_identities<Root: Ord>(
    t: TableV<Root>,
    request: RenameRequestV<Root>,
    id: AddressV<Root>,
)
    requires
        consistent(t),
        receipt_index(t.receipts, request.operation_key) is None,
        stage_rename_spec(t, request) is Ok,
        request.target.1.len() > 0,
        id.1.len() > 0,
        id != request.target,
    ensures
        resolve_spec(stage_rename_spec(t, request)->Ok_0.0, id) == resolve_spec(t, id),
{
    lemma_rename_body_shape(t, request);
    let (t2, r) = rename_staged_spec(t, request)->Ok_0;
    lemma_arranged_keeps(t2);
    assert(resolve_spec(arranged(t2), id) == resolve_spec(t2, id));
    let address = (request.target.0, request.target.1.drop_last());
    let h = head_index(t.heads, address)->0;
    lemma_head_index_props(t.heads, address);
    crate::consistency::lemma_consistent_faults(t);
    let owner = (id.0, id.1.drop_last());
    lemma_head_index_props(t.heads, owner);
    assert forall|j: int| 0 <= j < t.heads.len() implies #[trigger] t2.heads[j].address
        == t.heads[j].address by {
        if j == h {
            assert(t2.heads[h].address == address);
        } else {
            assert(t2.heads[j] == t.heads[j]);
        }
    }
    if let Some(j) = head_index(t.heads, owner) {
        assert forall|k: int| 0 <= k < j implies t2.heads[k].address != owner by {
            assert(t2.heads[k].address == t.heads[k].address);
        }
        lemma_head_index(t2.heads, owner, j);
        assert(crate::consistency::head_fault(t, j) is None);
        if j != h {
            assert(t2.heads[j] == t.heads[j]);
            assert(t2.snapshots[t.heads[j].current as int] == t.snapshots[t.heads[j].current as int]);
        } else {
            assert(owner == address);
            assert(id.1.last() != request.target.1.last()) by {
                if id.1.last() == request.target.1.last() {
                    assert(id.1 =~= id.1.drop_last().push(id.1.last()));
                    assert(request.target.1 =~= request.target.1.drop_last().push(
                        request.target.1.last(),
                    ));
                }
            }
            crate::identity::reveal_local_view(id.1.last());
            crate::identity::reveal_local_view(request.target.1.last());
            let cur = t.heads[h].current as int;
            let d = t.snapshots.len() as int;
            assert(t2.heads[h].current == d);
            assert(t2.snapshots[d].entries == t.snapshots[cur].entries.update(
                request.target.1.last()@ as int,
                request.new_spelling,
            ));
        }
    } else {
        assert forall|k: int| 0 <= k < t2.heads.len() implies t2.heads[k].address != owner by {
            assert(t2.heads[k].address == t.heads[k].address);
        }
        lemma_head_index_props(t2.heads, owner);
        if head_index(t2.heads, owner) is Some {
            let j = head_index(t2.heads, owner)->0;
            assert(t2.heads[j].address == t.heads[j].address);
        }
    }
}

/// An operational rename publishes exactly one new generation: the owning
/// table's head advances to its previous generation plus one, the receipt
/// records that generation, and every other head stays as it was.
pub proof fn lemma_rename_generation<Root: Ord>(t: TableV<Root>, request: RenameRequestV<Root>)
    requires
        consistent(t),
        receipt_index(t.receipts, request.operation_key) is None,
        stage_rename_spec(t, request) is Ok,
    ensures
        ({
            let (t2, r) = stage_rename_spec(t, request)->Ok_0;
            let address = (request.target.0, request.target.1.drop_last());
            &&& head_at(t.heads, address) is Some
            &&& head_at(t2.heads, address) is Some
            &&& r.resulting_generation == head_at(t.heads, address)->0.generation + 1
            &&& head_at(t2.heads, address)->0.generation == r.resulting_generation
            &&& forall|b: AddressV<Root>|
                b != address ==> #[trigger] head_at(t2.heads, b) == head_at(t.heads, b)
        }),
{
    lemma_rename_body_shape(t, request);
    let (s, r) = rename_staged_spec(t, request)->Ok_0;
    lemma_arranged_keeps(s);
    let address = (request.target.0, request.target.1.drop_last());
    let h = head_index(t.heads, address)->0;
    lemma_head_index_props(t.heads, address);
    crate::consistency::lemma_head_sound(t, h);
    assert forall|j: int| 0 <= j < h implies s.heads[j].address != address by {
        assert(s.heads[j] == t.heads[j]);
    }
    lemma_head_index(s.heads, address, h);
    assert(head_at(arranged(s).heads, address) == head_at(s.heads, address));
    assert forall|b: AddressV<Root>| b != address implies #[trigger] head_at(arranged(s).heads, b)
        == head_at(t.heads, b) by {
        assert(head_at(arranged(s).heads, b) == head_at(s.heads, b));
        assert forall|j: int| 0 <= j < t.heads.len() implies #[trigger] s.heads[j].address
            == t.heads[j].address by {
            if j != h {
                assert(s.heads[j] == t.heads[j]);
            }
        }
        lemma_head_index_props(t.heads, b);
        lemma_head_index_props(s.heads, b);
        if let Some(j) = head_index(t.heads, b) {
            assert forall|k: int| 0 <= k < j implies s.heads[k].address != b by {
                assert(s.heads[k].address == t.heads[k].address);
            }
            assert(s.heads[j].address == t.heads[j].address);
            lemma_head_index(s.heads, b, j);
            assert(s.heads[j] == t.heads[j]);
        } else if let Some(j) = head_index(s.heads, b) {
            assert(s.heads[j].address == t.heads[j].address);
        }
    }
}

/// Every state a rename stages from a consistent state is consistent.
pub proof fn lemma_rename_keeps_consistency<Root: Ord>(t: TableV<Root>, request: RenameRequestV<Root>)
    requires
        consistent(t),
        stage_rename_spec(t, request) is Ok,
    ensures
        consistent(stage_rename_spec(t, request)->Ok_0.0),
{
    if receipt_index(t.receipts, request.operation_key) is None {
        lemma_rename_body_shape(t, request);
        lemma_arranged_keeps(rename_staged_spec(t, request)->Ok_0.0);
    }
}

/// A seal keeps a state's records in order: a new seal stores its heads in
/// address order and its receipts in key order, and a replay keeps the state.
pub proof fn lemma_seal_keeps_order<Root: Ord + Copy>(t: TableV<Root>, request: SealRequestV<Root>)
    requires
        root_laws::<Root>(),
        in_order(t),
        stage_seal_spec(t, request) is Ok,
    ensures
        in_order(stage_seal_spec(t, request)->Ok_0.0),
{
    if receipt_index(t.receipts, request.operation_key) is None {
        lemma_seal_body_shape(t, request);
        lemma_arranged_in_order(seal_staged_spec(t, request)->Ok_0.0);
    }
}

/// A rename keeps a state's records in order.
pub proof fn lemma_rename_keeps_order<Root: Ord>(t: TableV<Root>, request: RenameRequestV<Root>)
    requires
        root_laws::<Root>(),
        in_order(t),
        stage_rename_spec(t, request) is Ok,
    ensures
        in_order(stage_rename_spec(t, request)->Ok_0.0),
{
    if receipt_index(t.receipts, request.operation_key) is None {
        lemma_rename_body_shape(t, request);
        lemma_arranged_in_order(rename_staged_spec(t, request)->Ok_0.0);
    }
}

/// The empty state, the one a new table starts from, keeps every stored
/// invariant.
pub proof fn lemma_empty_consistent<Root: Ord>()
    ensures
        consistent(
            TableV::<Root> {
                revision: 0,
                heads: Seq::empty(),
                snapshots: Seq::empty(),
                receipts: Seq::empty(),
            },
        ),
{
    let t = TableV::<Root> {
        revision: 0,
        heads: Seq::empty(),
        snapshots: Seq::empty(),
        receipts: Seq::empty(),
    };
    crate::consistency::lemma_faults_none(t);
}

/// The root graphs of a request by root and mutability.
pub open spec fn root_keys<Root>(roots: Seq<RootDeclV<Root>>) -> Seq<(Root, crate::state::TableMutability)> {
    roots.map_values(|r: RootDeclV<Root>| (r.root, r.mutability))
}

/// The digest of a seal depends only on which root graphs, flattened
/// declarations and references it holds, not on the order it lists them in
/// (and not on its key).
pub proof fn lemma_digest_ignores_order<Root: Ord>(a: SealRequestV<Root>, b: SealRequestV<Root>)
    requires
        root_laws::<Root>(),
        root_keys(a.roots).to_multiset() == root_keys(b.roots).to_multiset(),
        flatten_roots(a.roots).to_multiset() == flatten_roots(b.roots).to_multiset(),
        a.references.to_multiset() == b.references.to_multiset(),
    ensures
        canonical_request(a) == canonical_request(b),
{
    lemma_root_key_order_laws::<Root>();
    lemma_decl_key_order_laws::<Root>();
    lemma_path_order_laws::<Root>();
    let fr = |x: (Root, crate::state::TableMutability), y: (Root, crate::state::TableMutability)|
        root_key_order(x, y);
    let fd = |x: DeclKeyV<Root>, y: DeclKeyV<Root>| decl_key_order(x, y);
    let fp = |x: PathV<Root>, y: PathV<Root>| path_order(x, y);
    assert(root_keys(a.roots) =~= a.roots.map_values(
        |r: RootDeclV<Root>| (r.root, r.mutability),
    ));
    assert(root_keys(b.roots) =~= b.roots.map_values(
        |r: RootDeclV<Root>| (r.root, r.mutability),
    ));
    lemma_sort_by_same_values(root_keys(a.roots), root_keys(b.roots), fr);
    lemma_sort_by_same_values(flatten_roots(a.roots), flatten_roots(b.roots), fd);
    lemma_sort_by_same_values(a.references, b.references, fp);
}

/// Allocation with a cursor that counts the current entries: the entries
/// only grow, the cursor keeps counting them, and every spelling is
/// allocated a position that holds it; a spelling already present keeps its
/// first position.
pub proof fn lemma_allocation_holds_spellings(
    current: Seq<Seq<char>>,
    names: Seq<Seq<char>>,
    cursor: AllocationCursor,
)
    requires
        cursor_for(current.len()) == Some(cursor),
        allocate_spec(current, names, cursor) is Some,
    ensures
        ({
            let a = allocate_spec(current, names, cursor)->0;
            &&& current.len() <= a.entries.len()
            &&& a.entries.subrange(0, current.len() as int) == current
            &&& cursor_for(a.entries.len()) == Some(a.cursor)
            &&& a.locals.len() == names.len()
            &&& forall|k: int|
                0 <= k < names.len() ==> #[trigger] a.locals[k] < a.entries.len()
                    && a.entries[a.locals[k] as int] == names[k]
            &&& forall|k: int|
                0 <= k < names.len() && #[trigger] local_of(current, names[k]) is Some
                    ==> a.locals[k] == local_of(current, names[k])->0
        }),
    decreases names.len(),
{
    crate::identity::lemma_local_spec_new();
    if names.len() > 0 {
        let prior = names.drop_last();
        lemma_allocation_holds_spellings(current, prior, cursor);
        let b = allocate_spec(current, prior, cursor)->0;
        let a = allocate_spec(current, names, cursor)->0;
        let last = names.last();
        lemma_local_of_props(current, last);
        assert forall|k: int| 0 <= k < prior.len() implies names[k] == #[trigger] prior[k] by {}
        if local_of(current, last) is None {
            assert(a.entries[b.entries.len() as int] == last);
            assert(a.entries.subrange(0, current.len() as int) =~= b.entries.subrange(
                0,
                current.len() as int,
            ));
        } else {
            let p = local_of(current, last)->0;
            assert(b.entries[p as int] == b.entries.subrange(0, current.len() as int)[p as int]);
        }
        assert forall|k: int| 0 <= k < names.len() implies #[trigger] a.locals[k] < a.entries.len()
            && a.entries[a.locals[k] as int] == names[k] by {
            if k < prior.len() {
                assert(a.locals[k] == b.locals[k]);
                assert(b.locals[k] < b.entries.len() && b.entries[b.locals[k] as int] == prior[k]);
            }
        }
        assert forall|k: int|
            0 <= k < names.len() && #[trigger] local_of(current, names[k]) is Some implies a.locals[k]
            == local_of(current, names[k])->0 by {
            if k < prior.len() {
                assert(a.locals[k] == b.locals[k]);
                assert(local_of(current, prior[k]) is Some);
            }
        }
    }
}

/// The identity allocated for each declared spelling of a table resolves to
/// that spelling as soon as the table is applied, when the base table's head,
/// snapshot and cursor agree.
pub proof fn lemma_declared_spellings_resolve<Root>(
    t: TableV<Root>,
    address: AddressV<Root>,
    names: Seq<Seq<char>>,
)
    requires
        current_snapshot_spec(t, address) is Ok,
        ({
            let s = current_snapshot_spec(t, address)->Ok_0;
            let h = head_index(t.heads, address)->0;
            cursor_for(s.entries.len()) == Some(t.heads[h].cursor)
        }),
        apply_table_spec(t, address, names) is Ok,
    ensures
        ({
            let (t2, locals) = apply_table_spec(t, address, names)->Ok_0;
            forall|k: int|
                0 <= k < names.len() ==> resolve_spec(t2, entry_id(address, #[trigger] locals[k] as int))
                    == Ok::<Seq<char>, ErrorV<Root>>(names[k])
        }),
{
    crate::identity::lemma_local_spec_new();
    let s = current_snapshot_spec(t, address)->Ok_0;
    let h = head_index(t.heads, address)->0;
    lemma_head_index_props(t.heads, address);
    lemma_allocation_holds_spellings(s.entries, names, t.heads[h].cursor);
    let a = allocate_spec(s.entries, names, t.heads[h].cursor)->0;
    let (t2, locals) = apply_table_spec(t, address, names)->Ok_0;
    if a.entries.len() != s.entries.len() {
        assert forall|j: int| 0 <= j < h implies t2.heads[j].address != address by {
            assert(t2.heads[j] == t.heads[j]);
        }
        lemma_head_index(t2.heads, address, h);
    } else {
        assert(a.entries =~= s.entries);
    }
    assert forall|k: int| 0 <= k < names.len() implies resolve_spec(
        t2,
        entry_id(address, #[trigger] locals[k] as int),
    ) == Ok::<Seq<char>, ErrorV<Root>>(names[k]) by {
        let id = entry_id(address, locals[k] as int);
        assert(id.1.drop_last() =~= address.1);
        assert(id.1.last()@ == locals[k]);
    }
}

/// The canonical form of a declaration list with distinct spellings does
/// not depend on the order the list is submitted in: lists that hold the
/// same canonical trees have the same canonical form, and so allocate the
/// same identities.
pub proof fn lemma_canon_decls_ignores_order(a: Seq<DeclV>, b: Seq<DeclV>)
    requires
        canon_each(a).to_multiset() == canon_each(b).to_multiset(),
        forall|i: int, j: int| 0 <= i < j < a.len() ==> a[i].name() != a[j].name(),
    ensures
        canon_decls(a) == canon_decls(b),
{
    let f = decl_name_order_fn();
    assert(sign_laws(f)) by {
        <crate::request::Declaration as CanonicalOrder>::lemma_sign_laws();
        assert((|x: DeclV, y: DeclV|
            <crate::request::Declaration as CanonicalOrder>::order(x, y)) =~= f);
    }
    let ca = canon_each(a);
    let cb = canon_each(b);
    crate::canonical::lemma_canon_each_at(a);
    lemma_insertion_sort_sorted(ca, f);
    lemma_insertion_sort_sorted(cb, f);
    let x = insertion_sort(ca, f);
    let y = insertion_sort(cb, f);
    let key = |d: DeclV| d.name();
    assert forall|i: int, j: int| 0 <= i < j < ca.len() implies key(ca[i]) != key(ca[j]) by {
        assert(ca[i] == crate::canonical::canon_decl(a[i]));
        assert(ca[j] == crate::canonical::canon_decl(a[j]));
        match a[i] {
            DeclV::Member(_) => {},
            DeclV::Module(_, _, _) => {},
        }
        match a[j] {
            DeclV::Member(_) => {},
            DeclV::Module(_, _, _) => {},
        }
    }
    lemma_distinct_keys_carry(ca, x, key);
    assert forall|i: int, j: int| 0 <= i < j < x.len() implies f(x[i], x[j]) != 0 by {
        assert(key(x[i]) != key(x[j]));
        lemma_name_order_at(x[i].name(), x[j].name());
    }
    lemma_sorted_unique_distinct(x, y, f);
}

/// Staging depends on each submitted root graph only through its root, its
/// mutability and the canonical form of its declarations.
pub proof fn lemma_roots_apply_canonically<Root>(
    t: TableV<Root>,
    a: Seq<RootDeclV<Root>>,
    b: Seq<RootDeclV<Root>>,
    n: int,
)
    requires
        0 <= n <= a.len(),
        a.len() == b.len(),
        forall|i: int|
            #![trigger a[i]]
            0 <= i < a.len() ==> a[i].root == b[i].root && a[i].mutability == b[i].mutability
                && canon_decls(a[i].declarations) == canon_decls(b[i].declarations),
    ensures
        apply_roots_spec(t, a, n) == apply_roots_spec(t, b, n),
    decreases n,
{
    if n > 0 {
        lemma_roots_apply_canonically(t, a, b, n - 1);
        assert(a[n - 1].root == b[n - 1].root);
    }
}

/// A lookup finds an identity that resolves back to the spelling looked up.
pub proof fn lemma_lookup_then_resolve<Root>(t: TableV<Root>, address: AddressV<Root>, spelling: Seq<char>)
    requires
        lookup_spec(t, address, spelling) matches Ok(Some(_)),
    ensures
        resolve_spec(t, lookup_spec(t, address, spelling)->Ok_0->0) == Ok::<Seq<char>, ErrorV<Root>>(
            spelling,
        ),
{
    crate::identity::lemma_local_spec_new();
    let s = current_snapshot_spec(t, address)->Ok_0;
    lemma_local_of_props(s.entries, spelling);
    let p = local_of(s.entries, spelling)->0;
    let id = entry_id(address, p as int);
    assert(id.1.drop_last() =~= address.1);
    assert(id.1.last()@ == p);
}

/// In a consistent state, resolving an identity and looking its spelling up
/// in the owning table gives the identity back.
pub proof fn lemma_resolve_then_lookup<Root: Ord>(t: TableV<Root>, id: AddressV<Root>)
    requires
        consistent(t),
        id.1.len() > 0,
        resolve_spec(t, id) is Ok,
    ensures
        lookup_spec(t, (id.0, id.1.drop_last()), resolve_spec(t, id)->Ok_0) == Ok::<
            Option<AddressV<Root>>,
            ErrorV<Root>,
        >(Some(id)),
{
    crate::identity::lemma_local_spec_new();
    let address = (id.0, id.1.drop_last());
    lemma_head_index_props(t.heads, address);
    let h = head_index(t.heads, address)->0;
    crate::consistency::lemma_head_sound(t, h);
    let cur = t.heads[h].current as int;
    crate::consistency::lemma_snapshot_sound(t, 0, cur);
    let s = t.snapshots[cur];
    crate::preservation::lemma_distinct_no_repeat(s.entries);
    let l = id.1.last()@ as int;
    let spelling = s.entries[l];
    assert(crate::state::first_position(s.entries, spelling, l));
    lemma_local_of(s.entries, spelling, l);
    assert(entry_id(address, l) =~= id) by {
        assert(id.1 =~= id.1.drop_last().push(id.1.last()));
    }
}

/// Insertion sort leaves a strictly increasing list as it is.
proof fn lemma_insertion_sort_sorted_id<V>(s: Seq<V>, order: spec_fn(V, V) -> int)
    requires
        forall|i: int, j: int| 0 <= i < j < s.len() ==> order(s[i], s[j]) < 0,
    ensures
        insertion_sort(s, order) == s,
    decreases s.len(),
{
    if s.len() > 0 {
        let d = s.drop_last();
        lemma_insertion_sort_sorted_id(d, order);
        if d.len() > 0 {
            assert(order(s[d.len() - 1], s[s.len() - 1]) < 0);
        }
        assert(d.push(s.last()) =~= s);
    }
}

/// Reconstructing a consistent state from its own records — its revision,
/// heads, snapshots, and receipts each under its key — gives the same state
/// back.
pub proof fn lemma_records_rebuild_state<Root: Ord>(t: TableV<Root>)
    requires
        consistent(t),
        in_order(t),
    ensures
        from_parts_spec(
            t.revision,
            t.heads,
            t.snapshots,
            t.receipts.map_values(|r: ReceiptV<Root>| (receipt_key(r), r)),
        ) == Ok::<TableV<Root>, ErrorV<Root>>(t),
{
    let keyed = t.receipts.map_values(|r: ReceiptV<Root>| (receipt_key(r), r));
    let ha = t.heads.map_values(|h: crate::state::HeadV<Root>| h.address);
    let sd = t.snapshots.map_values(|x: crate::state::SnapshotV<Root>| x.digest);
    let rk = keyed.map_values(|r: (Seq<u8>, ReceiptV<Root>)| r.0);
    assert(!has_repeat(ha)) by {
        assert forall|i: int, j: int| 0 <= i < j < ha.len() implies ha[i] != ha[j] by {
            crate::consistency::lemma_head_sound(t, j);
        }
    }
    assert(!has_repeat(sd)) by {
        assert forall|i: int, j: int| 0 <= i < j < sd.len() implies sd[i] != sd[j] by {
            crate::consistency::lemma_snapshot_sound(t, 0, i);
            crate::consistency::lemma_snapshot_sound(t, 0, j);
        }
    }
    assert(!has_repeat(rk)) by {
        assert forall|i: int, j: int| 0 <= i < j < rk.len() implies rk[i] != rk[j] by {
            crate::consistency::lemma_receipt_sound(t, j);
        }
    }
    assert(keyed == crate::consistency::stored_receipts(t));
    let order = order_of::<crate::state::ModuleTableSnapshot<Root>>();
    assert forall|i: int, j: int| 0 <= i < j < t.snapshots.len() implies order(
        t.snapshots[i],
        t.snapshots[j],
    ) < 0 by {
        crate::consistency::lemma_snapshot_sound(t, 0, i);
        crate::consistency::lemma_snapshot_sound(t, 0, j);
    }
    lemma_insertion_sort_sorted_id(t.snapshots, order);
    lemma_insertion_sort_sorted_id(t.heads, head_order::<Root>());
    assert forall|i: int, j: int| 0 <= i < j < keyed.len() implies keyed_order::<Root>()(
        keyed[i],
        keyed[j],
    ) < 0 by {
        assert(keyed[i] == (receipt_key(t.receipts[i]), t.receipts[i]));
        assert(keyed[j] == (receipt_key(t.receipts[j]), t.receipts[j]));
    }
    lemma_insertion_sort_sorted_id(keyed, keyed_order::<Root>());
    assert(keyed.map_values(|r: (Seq<u8>, ReceiptV<Root>)| r.1) =~= t.receipts);
}

/// Declaring a spelling a table already holds gives back the identity it
/// already has: the identity a lookup finds before the seal is the one the
/// table's allocation records.
pub proof fn lemma_redeclared_spelling_keeps_identity<Root>(
    t: TableV<Root>,
    address: AddressV<Root>,
    names: Seq<Seq<char>>,
    k: int,
)
    requires
        crate::preservation::tables_ok(t),
        0 <= k < names.len(),
        lookup_spec(t, address, names[k]) matches Ok(Some(_)),
        apply_table_spec(t, address, names) is Ok,
    ensures
        entry_id(address, apply_table_spec(t, address, names)->Ok_0.1[k] as int) == lookup_spec(
            t,
            address,
            names[k],
        )->Ok_0->0,
{
    let s = current_snapshot_spec(t, address)->Ok_0;
    lemma_head_index_props(t.heads, address);
    let h = head_index(t.heads, address)->0;
    assert(crate::consistency::head_fault(t, h) is None);
    lemma_allocation_holds_spellings(s.entries, names, t.heads[h].cursor);
}

} // verus!
