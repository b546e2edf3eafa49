//! What a new seal records: every identity in its receipt names the table of
//! its path and resolves, in the state the seal produces, to the path's
//! spelling.

use vstd::prelude::*;

use crate::arrangement::arranged;
use crate::canonical::{canon_decls, canonical_request};
use crate::consistency::consistent;
use crate::error::ErrorV;
use crate::preservation::{
    lemma_apply_children_ok, lemma_apply_roots_ok, lemma_apply_table_ok,
    lemma_canon_valid, lemma_consistent_tables, lemma_current_kept, lemma_ensure_ok,
    lemma_seal_check_never_refuses, lemma_valid_decls, lemma_valid_distinct, lemma_valid_roots,
    tables_ok,
};
use crate::reference::{resolve_reference_spec, resolve_refs_spec, walk_one, walk_spec};
use crate::request::{DeclV, PathV, RootDeclV, SealRequestV};
use crate::seal::{
    allocate_spec, apply_children_spec, apply_decls_spec, apply_table_spec, ensure_table_spec,
    table_resolved,
};
use crate::stage::{apply_roots_spec, receipt_index, seal_staged_spec, stage_seal_spec};
use crate::state::ResolvedV;
use crate::table::{
    AddressV, TableV, current_snapshot_spec, entry_id, head_index, lemma_head_index,
    lemma_head_index_props, lemma_local_of_props, local_of, resolve_spec,
};
use crate::validation::{decl_names, validate_decls_from, validate_roots_from};

verus! {

/// A recorded identity names the table of its path, on the path's root with
/// one local per module plus its own, and resolves to the path's spelling.
pub open spec fn item_exact<Root>(t: TableV<Root>, x: ResolvedV<Root>) -> bool {
    &&& x.encoded_id.0 == x.path.root
    &&& x.encoded_id.1.len() == x.path.modules.len() + 1
    &&& resolve_spec(t, x.encoded_id) == Ok::<Seq<char>, ErrorV<Root>>(x.path.spelling)
}

/// Every recorded identity of `items` is exact in `t`.
pub open spec fn records_exact<Root>(t: TableV<Root>, items: Seq<ResolvedV<Root>>) -> bool {
    forall|k: int| 0 <= k < items.len() ==> #[trigger] item_exact(t, items[k])
}

/// `after` resolves every identity that `before` resolves, to the same
/// spelling.
pub open spec fn keeps_resolution<Root>(before: TableV<Root>, after: TableV<Root>) -> bool {
    forall|id: AddressV<Root>| #[trigger]
        resolve_spec(before, id) is Ok ==> resolve_spec(after, id) == resolve_spec(before, id)
}

proof fn lemma_keeps_refl<Root>(t: TableV<Root>)
    ensures
        keeps_resolution(t, t),
{
}

proof fn lemma_keeps_trans<Root>(a: TableV<Root>, b: TableV<Root>, c: TableV<Root>)
    requires
        keeps_resolution(a, b),
        keeps_resolution(b, c),
    ensures
        keeps_resolution(a, c),
{
    assert forall|id: AddressV<Root>| #[trigger] resolve_spec(a, id) is Ok implies resolve_spec(c, id)
        == resolve_spec(a, id) by {
        assert(resolve_spec(b, id) == resolve_spec(a, id));
    }
}

proof fn lemma_exact_kept<Root>(t: TableV<Root>, t2: TableV<Root>, items: Seq<ResolvedV<Root>>)
    requires
        keeps_resolution(t, t2),
        records_exact(t, items),
    ensures
        records_exact(t2, items),
{
    assert forall|k: int| 0 <= k < items.len() implies #[trigger] item_exact(t2, items[k]) by {
        assert(item_exact(t, items[k]));
    }
}

proof fn lemma_exact_concat<Root>(t: TableV<Root>, a: Seq<ResolvedV<Root>>, b: Seq<ResolvedV<Root>>)
    requires
        records_exact(t, a),
        records_exact(t, b),
    ensures
        records_exact(t, a + b),
{
    assert forall|k: int| 0 <= k < (a + b).len() implies #[trigger] item_exact(t, (a + b)[k]) by {
        if k < a.len() {
            assert((a + b)[k] == a[k]);
            assert(item_exact(t, a[k]));
        } else {
            assert((a + b)[k] == b[k - a.len()]);
            assert(item_exact(t, b[k - a.len()]));
        }
    }
}

/// Provisioning a table keeps every resolution.
proof fn lemma_ensure_keeps<Root>(
    t: TableV<Root>,
    address: AddressV<Root>,
    m: crate::state::TableMutability,
)
    requires
        ensure_table_spec(t, address, m) is Ok,
    ensures
        keeps_resolution(t, ensure_table_spec(t, address, m)->Ok_0),
{
    let t2 = ensure_table_spec(t, address, m)->Ok_0;
    if head_index(t.heads, address) is None {
        assert forall|id: AddressV<Root>| #[trigger] resolve_spec(t, id) is Ok implies resolve_spec(
            t2,
            id,
        ) == resolve_spec(t, id) by {
            let o = (id.0, id.1.drop_last());
            lemma_head_index_props(t.heads, o);
            let j = head_index(t.heads, o)->0;
            assert forall|k: int| 0 <= k < j implies t2.heads[k].address != o by {
                assert(t2.heads[k] == t.heads[k]);
            }
            assert(t2.heads[j] == t.heads[j]);
            lemma_head_index(t2.heads, o, j);
            assert(t2.snapshots[t.heads[j].current as int] == t.snapshots[t.heads[j].current as int]);
        }
    }
}

/// Allocating a table's spellings keeps every resolution, and the identity
/// allocated for each spelling resolves to it.
proof fn lemma_apply_table_keeps<Root>(t: TableV<Root>, address: AddressV<Root>, names: Seq<Seq<char>>)
    requires
        tables_ok(t),
        apply_table_spec(t, address, names) is Ok,
    ensures
        ({
            let (t2, locals) = apply_table_spec(t, address, names)->Ok_0;
            &&& keeps_resolution(t, t2)
            &&& forall|k: int|
                0 <= k < names.len() ==> resolve_spec(t2, entry_id(address, #[trigger] locals[k] as int))
                    == Ok::<Seq<char>, ErrorV<Root>>(names[k])
        }),
{
    let s = current_snapshot_spec(t, address)->Ok_0;
    lemma_head_index_props(t.heads, address);
    let h = head_index(t.heads, address)->0;
    assert(crate::consistency::head_fault(t, h) is None);
    crate::laws::lemma_declared_spellings_resolve(t, address, names);
    crate::laws::lemma_allocation_holds_spellings(s.entries, names, t.heads[h].cursor);
    let a = allocate_spec(s.entries, names, t.heads[h].cursor)->0;
    let (t2, locals) = apply_table_spec(t, address, names)->Ok_0;
    if a.entries.len() != s.entries.len() {
        let d = t.snapshots.len() as int;
        assert forall|id: AddressV<Root>| #[trigger] resolve_spec(t, id) is Ok implies resolve_spec(
            t2,
            id,
        ) == resolve_spec(t, id) by {
            let o = (id.0, id.1.drop_last());
            lemma_head_index_props(t.heads, o);
            let j = head_index(t.heads, o)->0;
            assert forall|k: int| 0 <= k < j implies t2.heads[k].address != o by {
                if k == h {
                    assert(t2.heads[k].address == t.heads[k].address);
                } else {
                    assert(t2.heads[k] == t.heads[k]);
                }
            }
            if j == h {
                assert(t2.heads[j].address == t.heads[j].address);
                lemma_head_index(t2.heads, o, j);
                let l = id.1.last()@ as int;
                assert(t2.snapshots[d].entries == a.entries);
                assert(a.entries[l] == a.entries.subrange(0, s.entries.len() as int)[l]);
            } else {
                assert(t2.heads[j] == t.heads[j]);
                lemma_head_index(t2.heads, o, j);
                assert(t2.snapshots[t.heads[j].current as int] == t.snapshots[t.heads[j].current as int]);
            }
        }
    } else {
        assert(t2 == t);
    }
}

/// Applying a valid declaration list to the table of its path keeps every
/// resolution and records exact identities.
pub proof fn lemma_apply_decls_exact<Root>(
    t: TableV<Root>,
    address: AddressV<Root>,
    table: (Root, Seq<Seq<char>>),
    ds: Seq<DeclV>,
)
    requires
        tables_ok(t),
        validate_decls_from(table, ds, 0) is None,
        apply_decls_spec(t, address, table, ds) is Ok,
        address.0 == table.0,
        address.1.len() == table.1.len(),
    ensures
        ({
            let (t2, r) = apply_decls_spec(t, address, table, ds)->Ok_0;
            keeps_resolution(t, t2) && records_exact(t2, r)
        }),
    decreases ds, 1int, 0int,
{
    let names = decl_names(ds);
    lemma_valid_distinct(table, ds);
    lemma_apply_table_ok(t, address, names);
    lemma_apply_table_keeps(t, address, names);
    let (t1, locals) = apply_table_spec(t, address, names)->Ok_0;
    lemma_apply_children_exact(t1, address, table, ds, locals, ds.len() as int);
    let (t2, nested) = apply_children_spec(t1, address, table, ds, locals, ds.len() as int)->Ok_0;
    let own = table_resolved(address, table, names, locals);
    assert(records_exact(t1, own)) by {
        assert forall|k: int| 0 <= k < own.len() implies #[trigger] item_exact(t1, own[k]) by {
            assert(resolve_spec(t1, entry_id(address, locals[k] as int)) == Ok::<
                Seq<char>,
                ErrorV<Root>,
            >(names[k]));
        }
    }
    lemma_exact_kept(t1, t2, own);
    lemma_exact_concat(t2, own, nested);
    lemma_keeps_trans(t, t1, t2);
}

/// Provisioning and applying the module tables declared by the first `n`
/// declarations keeps every resolution and records exact identities.
pub proof fn lemma_apply_children_exact<Root>(
    t: TableV<Root>,
    address: AddressV<Root>,
    table: (Root, Seq<Seq<char>>),
    ds: Seq<DeclV>,
    locals: Seq<u16>,
    n: int,
)
    requires
        tables_ok(t),
        0 <= n <= ds.len(),
        locals.len() == ds.len(),
        current_snapshot_spec(t, address) is Ok,
        forall|k: int|
            0 <= k < ds.len() ==> #[trigger] locals[k] < current_snapshot_spec(
                t,
                address,
            )->Ok_0.entries.len(),
        validate_decls_from(table, ds, 0) is None,
        apply_children_spec(t, address, table, ds, locals, n) is Ok,
        address.0 == table.0,
        address.1.len() == table.1.len(),
    ensures
        ({
            let (t2, r) = apply_children_spec(t, address, table, ds, locals, n)->Ok_0;
            keeps_resolution(t, t2) && records_exact(t2, r)
        }),
    decreases ds, 0int, n,
{
    if n <= 0 {
        lemma_keeps_refl(t);
    } else {
        lemma_apply_children_exact(t, address, table, ds, locals, n - 1);
        lemma_apply_children_ok(t, address, table, ds, locals, n - 1);
        let (t1, r1) = apply_children_spec(t, address, table, ds, locals, n - 1)->Ok_0;
        match ds[n - 1] {
            DeclV::Member(_) => {},
            DeclV::Module(name, mutability, children) => {
                crate::identity::lemma_local_spec_new();
                let child = entry_id(address, locals[n - 1] as int);
                assert(child.1.drop_last() =~= address.1);
                assert(child.1.last()@ == locals[n - 1]);
                lemma_current_kept(t, t1, address);
                assert(locals[n - 1] < current_snapshot_spec(t, address)->Ok_0.entries.len());
                lemma_ensure_ok(t1, child, mutability);
                lemma_ensure_keeps(t1, child, mutability);
                let t2 = ensure_table_spec(t1, child, mutability)->Ok_0;
                lemma_valid_decls(table, ds, 0);
                assert(ds[n - 1] == ds[n - 1]);
                let path = (table.0, table.1.push(name));
                lemma_apply_decls_exact(t2, child, path, children);
                let (t3, r3) = apply_decls_spec(t2, child, path, children)->Ok_0;
                lemma_keeps_trans(t1, t2, t3);
                lemma_keeps_trans(t, t1, t3);
                lemma_exact_kept(t1, t3, r1);
                lemma_exact_concat(t3, r1, r3);
            },
        }
    }
}

/// Applying the first `n` valid root graphs keeps every resolution and
/// records exact identities.
pub proof fn lemma_apply_roots_exact<Root>(t: TableV<Root>, roots: Seq<RootDeclV<Root>>, n: int)
    requires
        tables_ok(t),
        0 <= n <= roots.len(),
        validate_roots_from(roots, 0) is None,
        apply_roots_spec(t, roots, n) is Ok,
    ensures
        ({
            let (t2, r) = apply_roots_spec(t, roots, n)->Ok_0;
            keeps_resolution(t, t2) && records_exact(t2, r)
        }),
    decreases n,
{
    if n <= 0 {
        lemma_keeps_refl(t);
    } else {
        lemma_apply_roots_exact(t, roots, n - 1);
        lemma_apply_roots_ok(t, roots, n - 1);
        let (t1, r1) = apply_roots_spec(t, roots, n - 1)->Ok_0;
        let root = roots[n - 1];
        let address = (root.root, Seq::<crate::identity::LocalEncodedId>::empty());
        lemma_ensure_ok(t1, address, root.mutability);
        lemma_ensure_keeps(t1, address, root.mutability);
        let t2 = ensure_table_spec(t1, address, root.mutability)->Ok_0;
        lemma_valid_roots(roots, 0);
        let path = (root.root, Seq::<Seq<char>>::empty());
        assert(validate_decls_from(path, root.declarations, 0) is None);
        lemma_canon_valid(path, root.declarations);
        lemma_apply_decls_exact(t2, address, path, canon_decls(root.declarations));
        let (t3, r3) = apply_decls_spec(t2, address, path, canon_decls(root.declarations))->Ok_0;
        lemma_keeps_trans(t1, t2, t3);
        lemma_keeps_trans(t, t1, t3);
        lemma_exact_kept(t1, t3, r1);
        lemma_exact_concat(t3, r1, r3);
    }
}

/// A walk of `n` module spellings from a reference's root ends at a table on
/// that root with a chain of `n` locals.
proof fn lemma_walk_shape<Root>(t: TableV<Root>, r: PathV<Root>, n: int)
    requires
        0 <= n,
        walk_spec(t, r, n) is Ok,
    ensures
        walk_spec(t, r, n)->Ok_0.0 == r.root,
        walk_spec(t, r, n)->Ok_0.1.len() == n,
    decreases n,
{
    if n > 0 {
        lemma_walk_shape(t, r, n - 1);
        reveal(walk_one);
    }
}

/// Every resolved reference is exact.
proof fn lemma_refs_exact<Root>(t: TableV<Root>, refs: Seq<PathV<Root>>, n: int)
    requires
        resolve_refs_spec(t, refs, n) is Ok,
    ensures
        records_exact(t, resolve_refs_spec(t, refs, n)->Ok_0),
    decreases n,
{
    if n > 0 {
        lemma_refs_exact(t, refs, n - 1);
        let r = refs[n - 1];
        lemma_walk_shape(t, r, r.modules.len() as int);
        let address = walk_spec(t, r, r.modules.len() as int)->Ok_0;
        let s = current_snapshot_spec(t, address)->Ok_0;
        lemma_local_of_props(s.entries, r.spelling);
        let p = local_of(s.entries, r.spelling)->0;
        crate::identity::lemma_local_spec_new();
        let id = entry_id(address, p as int);
        assert(id.1.drop_last() =~= address.1);
        assert(id.1.last()@ == p);
        let rs = resolve_refs_spec(t, refs, n - 1)->Ok_0;
        let item = ResolvedV { path: r, encoded_id: resolve_reference_spec(t, r)->Ok_0 };
        assert(item.encoded_id == id);
        assert(item_exact(t, item));
        assert forall|k: int| 0 <= k < rs.push(item).len() implies #[trigger] item_exact(
            t,
            rs.push(item)[k],
        ) by {
            if k < rs.len() {
                assert(rs.push(item)[k] == rs[k]);
                assert(item_exact(t, rs[k]));
            }
        }
    }
}

/// Every identity a new seal records, declared or referenced, names the
/// table of its path and resolves in the state the seal produces to the
/// path's spelling.
pub proof fn lemma_seal_records_resolve<Root: Ord + Copy>(t: TableV<Root>, request: SealRequestV<Root>)
    requires
        consistent(t),
        receipt_index(t.receipts, request.operation_key) is None,
        stage_seal_spec(t, request) is Ok,
    ensures
        ({
            let (t2, r) = stage_seal_spec(t, request)->Ok_0;
            records_exact(t2, r.declarations + r.references)
        }),
{
    lemma_seal_check_never_refuses(t, request);
    lemma_consistent_tables(t);
    let roots = request.roots;
    lemma_apply_roots_exact(t, roots, roots.len() as int);
    let (t1, declarations) = apply_roots_spec(t, roots, roots.len() as int)->Ok_0;
    let refs = canonical_request(request).references;
    lemma_refs_exact(t1, refs, refs.len() as int);
    let references = resolve_refs_spec(t1, refs, refs.len() as int)->Ok_0;
    let (t2, r) = seal_staged_spec(t, request)->Ok_0;
    assert(t2.heads == t1.heads && t2.snapshots == t1.snapshots);
    lemma_exact_concat(t1, declarations, references);
    let items = declarations + references;
    assert forall|k: int| 0 <= k < items.len() implies #[trigger] item_exact(t2, items[k]) by {
        assert(item_exact(t1, items[k]));
    }
    crate::arrangement::lemma_arranged_keeps(t2);
    assert forall|k: int| 0 <= k < items.len() implies #[trigger] item_exact(arranged(t2), items[k]) by {
        assert(item_exact(t2, items[k]));
        assert(resolve_spec(arranged(t2), items[k].encoded_id) == resolve_spec(t2, items[k].encoded_id));
    }
}

} // verus!
