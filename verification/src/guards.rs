//! What the operations refuse and what they record, stated over their inputs
//! and results.

use vstd::prelude::*;

use crate::arrangement::{arranged, head_at, lemma_arranged, lemma_arranged_keeps, lemma_receipt_found};
use crate::validation::decl_names;
use crate::canonical::{
    canon_decl, canon_decls, canon_each, decl_name_order_fn, lemma_canon_each_at,
    DeclKeyV, canonical_request, decl_key_order, flatten_decls, flatten_roots, root_key_order,
    lemma_root_key_order_laws,
    lemma_decl_key_order_laws,
};
use crate::error::ErrorV;
use crate::order::{leq_of, lemma_insertion_sort_perm, lemma_leq_total};
use crate::request::{DeclV, PathV, RootDeclV, SealRequestV};
use crate::root_order::root_laws;
use crate::rename::{rename_staged_spec, stage_rename_spec};
use crate::request::RenameRequestV;
use crate::seal::{apply_children_spec, apply_decls_spec, apply_table_spec, ensure_table_spec, table_resolved};
use crate::stage::{apply_roots_spec, receipt_index, seal_staged_spec, stage_seal_spec};
use crate::state::{ReceiptV, RenameReceiptV, ResolvedV, TableMutability};
use crate::table::{
    AddressV, TableV, entry_id, head_index, lemma_head_index, lemma_head_index_props,
    resolve_in_snapshot_spec,
};

verus! {

/// A new rename whose target lies in an immutable table — a root table or a
/// nested module table — is refused with `ImmutableTable` for that table.
pub proof fn lemma_rename_refuses_immutable_table<Root: Ord>(
    t: TableV<Root>,
    request: RenameRequestV<Root>,
)
    requires
        receipt_index(t.receipts, request.operation_key) is None,
        head_at(t.heads, (request.target.0, request.target.1.drop_last())) matches Some(h)
            && h.mutability == TableMutability::Immutable,
    ensures
        stage_rename_spec(t, request) == Err::<(TableV<Root>, RenameReceiptV<Root>), ErrorV<Root>>(
            ErrorV::ImmutableTable((request.target.0, request.target.1.drop_last())),
        ),
{
}

/// A successful rename's owning table — root or nested — is mutable.
pub proof fn lemma_renamed_table_is_mutable<Root: Ord>(
    t: TableV<Root>,
    request: RenameRequestV<Root>,
)
    requires
        receipt_index(t.receipts, request.operation_key) is None,
        stage_rename_spec(t, request) is Ok,
    ensures
        head_at(t.heads, (request.target.0, request.target.1.drop_last())) matches Some(h)
            && h.mutability == TableMutability::Mutable,
{
    match head_at(t.heads, (request.target.0, request.target.1.drop_last())) {
        Some(h) => {
            if h.mutability == TableMutability::Immutable {
                lemma_rename_refuses_immutable_table(t, request);
            }
        },
        None => {},
    }
}

/// A pinned resolution succeeds only against a snapshot of the identity's
/// own table — the same root and the same module chain — and gives that
/// snapshot's entry; against such a snapshot it succeeds whenever the entry
/// exists.
pub proof fn lemma_pinned_resolution_stays_in_its_table<Root>(
    t: TableV<Root>,
    digest: u64,
    id: AddressV<Root>,
)
    ensures
        resolve_in_snapshot_spec(t, digest, id) is Ok ==> {
            &&& digest < t.snapshots.len()
            &&& t.snapshots[digest as int].address.0 == id.0
            &&& t.snapshots[digest as int].address.1 == id.1.drop_last()
            &&& id.1.last()@ < t.snapshots[digest as int].entries.len()
            &&& resolve_in_snapshot_spec(t, digest, id)->Ok_0 == t.snapshots[digest as int].entries[id.1.last()@ as int]
        },
        digest < t.snapshots.len() && t.snapshots[digest as int].address != (id.0, id.1.drop_last())
            ==> resolve_in_snapshot_spec(t, digest, id) is Err,
        digest < t.snapshots.len() && t.snapshots[digest as int].address == (id.0, id.1.drop_last())
            && id.1.last()@ < t.snapshots[digest as int].entries.len() ==> resolve_in_snapshot_spec(
            t,
            digest,
            id,
        ) is Ok,
{
}

/// Provisioning a table that already exists with another mutability — a
/// root table or a nested module table — is refused, naming the existing and
/// the submitted mutability; with the same mutability it changes nothing.
pub proof fn lemma_table_mutability_is_checked<Root>(
    t: TableV<Root>,
    address: AddressV<Root>,
    mutability: TableMutability,
)
    requires
        head_at(t.heads, address) is Some,
    ensures
        head_at(t.heads, address)->0.mutability != mutability ==> ensure_table_spec(
            t,
            address,
            mutability,
        ) == Err::<TableV<Root>, ErrorV<Root>>(
            ErrorV::TableMutabilityMismatch(address, head_at(t.heads, address)->0.mutability, mutability),
        ),
        head_at(t.heads, address)->0.mutability == mutability ==> ensure_table_spec(
            t,
            address,
            mutability,
        ) == Ok::<TableV<Root>, ErrorV<Root>>(t),
{
}

/// Reusing a committed rename's key for a rename with another target or
/// another new spelling is refused as a conflict, and refused again on every
/// retry.
pub proof fn lemma_rename_key_conflict<Root: Ord>(
    t: TableV<Root>,
    request: RenameRequestV<Root>,
    other: RenameRequestV<Root>,
)
    requires
        stage_rename_spec(t, request) is Ok,
        other.operation_key == request.operation_key,
        other.target != request.target || other.new_spelling != request.new_spelling,
    ensures
        stage_rename_spec(stage_rename_spec(t, request)->Ok_0.0, other) == Err::<
            (TableV<Root>, RenameReceiptV<Root>),
            ErrorV<Root>,
        >(ErrorV::IdempotencyConflict(request.operation_key)),
{
    if receipt_index(t.receipts, request.operation_key) is None {
        crate::laws::lemma_rename_body_shape(t, request);
        let (s, r) = rename_staged_spec(t, request)->Ok_0;
        lemma_arranged(s);
        lemma_receipt_found(arranged(s).receipts, t.receipts, ReceiptV::Rename(r));
    }
}

/// Whether the declarations `ds` declare, in the table reached from their
/// own table through the module spellings `path`, a module `name` whose
/// child table has mutability `mutability`.
pub open spec fn module_declared(
    ds: Seq<DeclV>,
    path: Seq<Seq<char>>,
    name: Seq<char>,
    mutability: TableMutability,
) -> bool
    decreases ds,
{
    if ds.len() == 0 {
        false
    } else {
        let here = match ds[0] {
            DeclV::Member(_) => false,
            DeclV::Module(n, m, children) => (path.len() == 0 && n == name && m == mutability) || (
            path.len() > 0 && path[0] == n && module_declared(
                children,
                path.drop_first(),
                name,
                mutability,
            )),
        };
        here || module_declared(ds.drop_first(), path, name, mutability)
    }
}

/// The canonical record of a module declaration.
pub open spec fn module_record<Root>(
    root: Root,
    path: Seq<Seq<char>>,
    name: Seq<char>,
    mutability: TableMutability,
) -> DeclKeyV<Root> {
    DeclKeyV { root, table_path: path, spelling: name, child_mutability: Some(mutability) }
}

proof fn lemma_flatten_has<Root>(
    root: Root,
    base: Seq<Seq<char>>,
    ds: Seq<DeclV>,
    path: Seq<Seq<char>>,
    name: Seq<char>,
    mutability: TableMutability,
)
    requires
        module_declared(ds, path, name, mutability),
    ensures
        flatten_decls(root, base, ds).contains(module_record(root, base + path, name, mutability)),
    decreases ds,
{
    let x = module_record(root, base + path, name, mutability);
    let f = flatten_decls(root, base, ds);
    let record = match ds[0] {
        DeclV::Member(n) => DeclKeyV { root, table_path: base, spelling: n, child_mutability: None },
        DeclV::Module(n, m, _) => DeclKeyV {
            root,
            table_path: base,
            spelling: n,
            child_mutability: Some(m),
        },
    };
    let nested = match ds[0] {
        DeclV::Member(_) => Seq::<DeclKeyV<Root>>::empty(),
        DeclV::Module(n, _, children) => flatten_decls(root, base.push(n), children),
    };
    let rest = flatten_decls(root, base, ds.drop_first());
    assert(f == seq![record] + nested + rest);
    if module_declared(ds.drop_first(), path, name, mutability) {
        lemma_flatten_has(root, base, ds.drop_first(), path, name, mutability);
        let i = choose|i: int| 0 <= i < rest.len() && rest[i] == x;
        assert(f[1 + nested.len() + i] == x);
    } else {
        match ds[0] {
            DeclV::Member(_) => {},
            DeclV::Module(n, m, children) => {
                if path.len() == 0 && n == name && m == mutability {
                    assert(base + path =~= base);
                    assert(f[0] == x);
                } else {
                    lemma_flatten_has(root, base.push(n), children, path.drop_first(), name, mutability);
                    assert(base.push(n) + path.drop_first() =~= base + path);
                    let i = choose|i: int| 0 <= i < nested.len() && nested[i] == x;
                    assert(f[1 + i] == x);
                }
            },
        }
    }
}

proof fn lemma_flatten_from<Root>(
    root: Root,
    base: Seq<Seq<char>>,
    ds: Seq<DeclV>,
    x: DeclKeyV<Root>,
    mutability: TableMutability,
)
    requires
        flatten_decls(root, base, ds).contains(x),
        x.child_mutability == Some(mutability),
    ensures
        x.root == root,
        exists|path: Seq<Seq<char>>|
            x.table_path == base + path && module_declared(ds, path, x.spelling, mutability),
    decreases ds,
{
    let f = flatten_decls(root, base, ds);
    let record = match ds[0] {
        DeclV::Member(n) => DeclKeyV { root, table_path: base, spelling: n, child_mutability: None },
        DeclV::Module(n, m, _) => DeclKeyV {
            root,
            table_path: base,
            spelling: n,
            child_mutability: Some(m),
        },
    };
    let nested = match ds[0] {
        DeclV::Member(_) => Seq::<DeclKeyV<Root>>::empty(),
        DeclV::Module(n, _, children) => flatten_decls(root, base.push(n), children),
    };
    let rest = flatten_decls(root, base, ds.drop_first());
    assert(f == seq![record] + nested + rest);
    let i = choose|i: int| 0 <= i < f.len() && f[i] == x;
    if i == 0 {
        let empty = Seq::<Seq<char>>::empty();
        assert(base + empty =~= base);
        assert(x.table_path == base + empty && module_declared(ds, empty, x.spelling, mutability));
    } else if i < 1 + nested.len() {
        match ds[0] {
            DeclV::Member(_) => {},
            DeclV::Module(n, m, children) => {
                assert(nested[i - 1] == x);
                lemma_flatten_from(root, base.push(n), children, x, mutability);
                let p = choose|p: Seq<Seq<char>>|
                    x.table_path == base.push(n) + p && module_declared(children, p, x.spelling, mutability);
                let q = seq![n] + p;
                assert(q.drop_first() =~= p);
                assert(base + q =~= base.push(n) + p);
                assert(x.table_path == base + q && module_declared(ds, q, x.spelling, mutability));
            },
        }
    } else {
        assert(rest[i - 1 - nested.len()] == x);
        lemma_flatten_from(root, base, ds.drop_first(), x, mutability);
        let p = choose|p: Seq<Seq<char>>|
            x.table_path == base + p && module_declared(ds.drop_first(), p, x.spelling, mutability);
        assert(x.table_path == base + p && module_declared(ds, p, x.spelling, mutability));
    }
}

proof fn lemma_roots_records<Root>(roots: Seq<RootDeclV<Root>>, x: DeclKeyV<Root>)
    ensures
        flatten_roots(roots).contains(x) <==> exists|k: int|
            0 <= k < roots.len() && #[trigger] flatten_decls(
                roots[k].root,
                Seq::empty(),
                roots[k].declarations,
            ).contains(x),
    decreases roots.len(),
{
    if roots.len() > 0 {
        let d = roots.drop_last();
        lemma_roots_records(d, x);
        let a = flatten_roots(d);
        let l = roots.len() - 1;
        let b = flatten_decls(roots[l].root, Seq::empty(), roots[l].declarations);
        assert(flatten_roots(roots) == a + b);
        if flatten_roots(roots).contains(x) {
            let i = choose|i: int| 0 <= i < (a + b).len() && (a + b)[i] == x;
            if i < a.len() {
                assert(a[i] == x);
                let k = choose|k: int|
                    0 <= k < d.len() && #[trigger] flatten_decls(d[k].root, Seq::empty(), d[k].declarations).contains(x);
                assert(d[k] == roots[k]);
                assert(flatten_decls(roots[k].root, Seq::empty(), roots[k].declarations).contains(x));
            } else {
                assert(b[i - a.len()] == x);
                assert(b.contains(x));
            }
        }
        if exists|k: int|
            0 <= k < roots.len() && #[trigger] flatten_decls(
                roots[k].root,
                Seq::empty(),
                roots[k].declarations,
            ).contains(x) {
            let k = choose|k: int|
                0 <= k < roots.len() && #[trigger] flatten_decls(
                    roots[k].root,
                    Seq::empty(),
                    roots[k].declarations,
                ).contains(x);
            if k < l {
                assert(d[k] == roots[k]);
                assert(a.contains(x));
                let i = choose|i: int| 0 <= i < a.len() && a[i] == x;
                assert((a + b)[i] == x);
            } else {
                let i = choose|i: int| 0 <= i < b.len() && b[i] == x;
                assert((a + b)[a.len() + i] == x);
            }
        }
    }
}

proof fn lemma_digest_records<Root: Ord>(request: SealRequestV<Root>, x: DeclKeyV<Root>)
    requires
        root_laws::<Root>(),
    ensures
        canonical_request(request).declarations.contains(x) <==> flatten_roots(request.roots).contains(x),
{
    broadcast use {vstd::multiset::group_multiset_axioms, vstd::seq_lib::group_to_multiset_ensures};

    let f = |a: DeclKeyV<Root>, b: DeclKeyV<Root>| decl_key_order(a, b);
    lemma_decl_key_order_laws::<Root>();
    lemma_leq_total(f);
    let s = flatten_roots(request.roots);
    s.lemma_sort_by_ensures(leq_of(f));
    assert(canonical_request(request).declarations == s.sort_by(leq_of(f)));
    if s.contains(x) {
        assert(s.to_multiset().count(x) > 0);
    }
    if s.sort_by(leq_of(f)).contains(x) {
        assert(s.sort_by(leq_of(f)).to_multiset().count(x) > 0);
    }
}

/// The digest of a seal records every module the request declares, with the
/// mutability declared for its child table: root graph by root graph, at
/// every depth.
pub proof fn lemma_digest_records_module_mutability<Root: Ord>(
    request: SealRequestV<Root>,
    k: int,
    path: Seq<Seq<char>>,
    name: Seq<char>,
    mutability: TableMutability,
)
    requires
        root_laws::<Root>(),
        0 <= k < request.roots.len(),
        module_declared(request.roots[k].declarations, path, name, mutability),
    ensures
        canonical_request(request).declarations.contains(
            module_record(request.roots[k].root, path, name, mutability),
        ),
{
    let x = module_record(request.roots[k].root, path, name, mutability);
    lemma_flatten_has(request.roots[k].root, Seq::empty(), request.roots[k].declarations, path, name, mutability);
    assert(Seq::<Seq<char>>::empty() + path =~= path);
    lemma_roots_records(request.roots, x);
    lemma_digest_records(request, x);
}

/// The digest of a seal records every root graph with the mutability
/// declared for its root table, and nothing else.
pub proof fn lemma_digest_records_root_mutability<Root: Ord>(
    request: SealRequestV<Root>,
    root: Root,
    mutability: TableMutability,
)
    requires
        root_laws::<Root>(),
    ensures
        canonical_request(request).roots.contains((root, mutability)) <==> exists|k: int|
            0 <= k < request.roots.len() && #[trigger] request.roots[k].root == root
                && request.roots[k].mutability == mutability,
{
    broadcast use {vstd::multiset::group_multiset_axioms, vstd::seq_lib::group_to_multiset_ensures};

    let f = |a: (Root, TableMutability), b: (Root, TableMutability)| root_key_order(a, b);
    lemma_root_key_order_laws::<Root>();
    lemma_leq_total(f);
    let s = request.roots.map_values(|r: RootDeclV<Root>| (r.root, r.mutability));
    s.lemma_sort_by_ensures(leq_of(f));
    assert(canonical_request(request).roots == s.sort_by(leq_of(f)));
    let x = (root, mutability);
    if s.sort_by(leq_of(f)).contains(x) {
        assert(s.sort_by(leq_of(f)).to_multiset().count(x) > 0);
        assert(s.contains(x));
        let k = choose|k: int| 0 <= k < s.len() && s[k] == x;
        assert(request.roots[k].root == root && request.roots[k].mutability == mutability);
    }
    if exists|k: int|
        0 <= k < request.roots.len() && #[trigger] request.roots[k].root == root
            && request.roots[k].mutability == mutability {
        let k = choose|k: int|
            0 <= k < request.roots.len() && #[trigger] request.roots[k].root == root
                && request.roots[k].mutability == mutability;
        assert(s[k] == x);
        assert(s.to_multiset().count(x) > 0);
        assert(s.sort_by(leq_of(f)).to_multiset().count(x) > 0);
    }
}

/// Every module record of a seal's digest stands for a module the request
/// declares, with that mutability.
pub proof fn lemma_digest_module_records_are_declared<Root: Ord>(
    request: SealRequestV<Root>,
    x: DeclKeyV<Root>,
    mutability: TableMutability,
)
    requires
        root_laws::<Root>(),
        canonical_request(request).declarations.contains(x),
        x.child_mutability == Some(mutability),
    ensures
        exists|k: int|
            0 <= k < request.roots.len() && request.roots[k].root == x.root && module_declared(
                #[trigger] request.roots[k].declarations,
                x.table_path,
                x.spelling,
                mutability,
            ),
{
    lemma_digest_records(request, x);
    lemma_roots_records(request.roots, x);
    let k = choose|k: int|
        0 <= k < request.roots.len() && #[trigger] flatten_decls(
            request.roots[k].root,
            Seq::empty(),
            request.roots[k].declarations,
        ).contains(x);
    lemma_flatten_from(request.roots[k].root, Seq::empty(), request.roots[k].declarations, x, mutability);
    let p = choose|p: Seq<Seq<char>>|
        x.table_path == Seq::<Seq<char>>::empty() + p && module_declared(
            request.roots[k].declarations,
            p,
            x.spelling,
            mutability,
        );
    assert(Seq::<Seq<char>>::empty() + p =~= p);
}

/// Two seals with equal digests declare the same modules with the same
/// mutabilities: a module declared by one with a mutability is declared by
/// the other, on the same root, at the same path, with that mutability.
pub proof fn lemma_equal_digests_declare_same_mutabilities<Root: Ord>(
    a: SealRequestV<Root>,
    b: SealRequestV<Root>,
    k: int,
    path: Seq<Seq<char>>,
    name: Seq<char>,
    mutability: TableMutability,
)
    requires
        root_laws::<Root>(),
        canonical_request(a) == canonical_request(b),
        0 <= k < a.roots.len(),
        module_declared(a.roots[k].declarations, path, name, mutability),
    ensures
        exists|j: int|
            0 <= j < b.roots.len() && b.roots[j].root == a.roots[k].root && module_declared(
                #[trigger] b.roots[j].declarations,
                path,
                name,
                mutability,
            ),
{
    lemma_digest_records_module_mutability(a, k, path, name, mutability);
    let x = module_record(a.roots[k].root, path, name, mutability);
    lemma_digest_module_records_are_declared(b, x, mutability);
}

/// Whether one declaration declares, in the table reached from its own table
/// through `path`, a module `name` with child mutability `mutability`.
pub open spec fn one_declares(
    d: DeclV,
    path: Seq<Seq<char>>,
    name: Seq<char>,
    mutability: TableMutability,
) -> bool {
    match d {
        DeclV::Member(_) => false,
        DeclV::Module(n, m, children) => (path.len() == 0 && n == name && m == mutability) || (
        path.len() > 0 && path[0] == n && module_declared(
            children,
            path.drop_first(),
            name,
            mutability,
        )),
    }
}

proof fn lemma_declared_at(
    ds: Seq<DeclV>,
    path: Seq<Seq<char>>,
    name: Seq<char>,
    mutability: TableMutability,
)
    ensures
        module_declared(ds, path, name, mutability) <==> exists|i: int|
            0 <= i < ds.len() && #[trigger] one_declares(ds[i], path, name, mutability),
    decreases ds.len(),
{
    if ds.len() > 0 {
        let rest = ds.drop_first();
        lemma_declared_at(rest, path, name, mutability);
        assert(one_declares(ds[0], path, name, mutability) == match ds[0] {
            DeclV::Member(_) => false,
            DeclV::Module(n, m, children) => (path.len() == 0 && n == name && m == mutability) || (
            path.len() > 0 && path[0] == n && module_declared(
                children,
                path.drop_first(),
                name,
                mutability,
            )),
        });
        if module_declared(rest, path, name, mutability) {
            let i = choose|i: int| 0 <= i < rest.len() && #[trigger] one_declares(rest[i], path, name, mutability);
            assert(rest[i] == ds[i + 1]);
        }
        if exists|i: int| 0 <= i < ds.len() && #[trigger] one_declares(ds[i], path, name, mutability) {
            let i = choose|i: int| 0 <= i < ds.len() && #[trigger] one_declares(ds[i], path, name, mutability);
            if i > 0 {
                assert(rest[i - 1] == ds[i]);
            }
        }
    }
}

/// A module declared in a list is declared in the list's canonical form.
proof fn lemma_canon_declared(
    ds: Seq<DeclV>,
    path: Seq<Seq<char>>,
    name: Seq<char>,
    mutability: TableMutability,
)
    requires
        module_declared(ds, path, name, mutability),
    ensures
        module_declared(canon_decls(ds), path, name, mutability),
    decreases ds,
{
    broadcast use {vstd::multiset::group_multiset_axioms, vstd::seq_lib::group_to_multiset_ensures};

    lemma_declared_at(ds, path, name, mutability);
    let i = choose|i: int| 0 <= i < ds.len() && #[trigger] one_declares(ds[i], path, name, mutability);
    lemma_canon_each_at(ds);
    let cd = canon_decl(ds[i]);
    match ds[i] {
        DeclV::Member(_) => {},
        DeclV::Module(n, m, children) => {
            if !(path.len() == 0 && n == name && m == mutability) {
                assert(decreases_to!(ds => ds[i]));
                lemma_canon_declared(children, path.drop_first(), name, mutability);
            }
            assert(cd == DeclV::Module(n, m, canon_decls(children)));
        },
    }
    assert(one_declares(cd, path, name, mutability));
    let each = canon_each(ds);
    assert(each[i] == cd);
    lemma_insertion_sort_perm(each, decl_name_order_fn());
    let sorted = canon_decls(ds);
    assert(each.to_multiset().count(cd) > 0);
    assert(sorted.contains(cd));
    let j = choose|j: int| 0 <= j < sorted.len() && sorted[j] == cd;
    assert(one_declares(sorted[j], path, name, mutability));
    lemma_declared_at(sorted, path, name, mutability);
}

/// Whether some recorded result of `items` names `path` with an identity
/// whose table has a head of mutability `mutability`.
pub open spec fn provisioned<Root>(
    t: TableV<Root>,
    items: Seq<ResolvedV<Root>>,
    path: PathV<Root>,
    mutability: TableMutability,
) -> bool {
    exists|i: int|
        0 <= i < items.len() && items[i].path == path && (#[trigger] head_at(
            t.heads,
            items[i].encoded_id,
        ) matches Some(h) && h.mutability == mutability)
}

/// `after` keeps a head of the same mutability for every table of `before`.
pub open spec fn keeps_kinds<Root>(before: TableV<Root>, after: TableV<Root>) -> bool {
    forall|a: AddressV<Root>|
        #![trigger head_at(after.heads, a)]
        head_at(before.heads, a) is Some ==> head_at(after.heads, a) is Some && head_at(
            after.heads,
            a,
        )->0.mutability == head_at(before.heads, a)->0.mutability
}

proof fn lemma_kinds_trans<Root>(a: TableV<Root>, b: TableV<Root>, c: TableV<Root>)
    requires
        keeps_kinds(a, b),
        keeps_kinds(b, c),
    ensures
        keeps_kinds(a, c),
{
    assert forall|x: AddressV<Root>| #![trigger head_at(c.heads, x)] head_at(a.heads, x) is Some
        implies head_at(c.heads, x) is Some && head_at(c.heads, x)->0.mutability == head_at(
        a.heads,
        x,
    )->0.mutability by {
        assert(head_at(b.heads, x) is Some);
    }
}

proof fn lemma_provisioned_kept<Root>(
    t: TableV<Root>,
    u: TableV<Root>,
    items: Seq<ResolvedV<Root>>,
    extra: Seq<ResolvedV<Root>>,
    path: PathV<Root>,
    mutability: TableMutability,
)
    requires
        keeps_kinds(t, u),
        provisioned(t, items, path, mutability),
    ensures
        provisioned(u, items + extra, path, mutability),
        provisioned(u, extra + items, path, mutability),
{
    let i = choose|i: int|
        0 <= i < items.len() && items[i].path == path && (#[trigger] head_at(
            t.heads,
            items[i].encoded_id,
        ) matches Some(h) && h.mutability == mutability);
    assert(head_at(u.heads, items[i].encoded_id) is Some);
    assert((items + extra)[i] == items[i]);
    assert((extra + items)[extra.len() + i] == items[i]);
}

/// Provisioning a table keeps the mutability of every table and gives the
/// provisioned one the requested mutability.
proof fn lemma_ensure_kinds<Root>(t: TableV<Root>, address: AddressV<Root>, mutability: TableMutability)
    requires
        ensure_table_spec(t, address, mutability) is Ok,
    ensures
        keeps_kinds(t, ensure_table_spec(t, address, mutability)->Ok_0),
        head_at(ensure_table_spec(t, address, mutability)->Ok_0.heads, address) matches Some(h)
            && h.mutability == mutability,
{
    let t2 = ensure_table_spec(t, address, mutability)->Ok_0;
    lemma_head_index_props(t.heads, address);
    if head_index(t.heads, address) is None {
        let n = t.heads.len() as int;
        assert forall|k: int| 0 <= k < n implies t2.heads[k].address != address by {
            assert(t2.heads[k] == t.heads[k]);
        }
        lemma_head_index(t2.heads, address, n);
        assert forall|b: AddressV<Root>| #![trigger head_at(t2.heads, b)] head_at(t.heads, b) is Some
            implies head_at(t2.heads, b) is Some && head_at(t2.heads, b)->0.mutability == head_at(
            t.heads,
            b,
        )->0.mutability by {
            lemma_head_index_props(t.heads, b);
            let j = head_index(t.heads, b)->0;
            assert forall|k: int| 0 <= k < j implies t2.heads[k].address != b by {
                assert(t2.heads[k] == t.heads[k]);
            }
            assert(t2.heads[j] == t.heads[j]);
            lemma_head_index(t2.heads, b, j);
        }
    }
}

/// Allocating a table's spellings keeps the mutability of every table.
proof fn lemma_apply_table_kinds<Root>(t: TableV<Root>, address: AddressV<Root>, names: Seq<Seq<char>>)
    requires
        apply_table_spec(t, address, names) is Ok,
    ensures
        keeps_kinds(t, apply_table_spec(t, address, names)->Ok_0.0),
{
    let t2 = apply_table_spec(t, address, names)->Ok_0.0;
    lemma_head_index_props(t.heads, address);
    let h = head_index(t.heads, address)->0;
    if t2 != t {
        assert forall|k: int| 0 <= k < t.heads.len() implies #[trigger] t2.heads[k].address
            == t.heads[k].address && t2.heads[k].mutability == t.heads[k].mutability by {
            if k != h {
                assert(t2.heads[k] == t.heads[k]);
            }
        }
        assert forall|b: AddressV<Root>| #![trigger head_at(t2.heads, b)] head_at(t.heads, b) is Some
            implies head_at(t2.heads, b) is Some && head_at(t2.heads, b)->0.mutability == head_at(
            t.heads,
            b,
        )->0.mutability by {
            lemma_head_index_props(t.heads, b);
            let j = head_index(t.heads, b)->0;
            assert forall|k: int| 0 <= k < j implies t2.heads[k].address != b by {
                assert(t2.heads[k].address == t.heads[k].address);
            }
            assert(t2.heads[j].address == t.heads[j].address);
            lemma_head_index(t2.heads, b, j);
        }
    }
}

/// Applying a declaration list keeps the mutability of every table and
/// gives every module it declares, at any depth, a table of the declared
/// mutability, recorded under the module's path.
proof fn lemma_apply_decls_kinds<Root>(
    t: TableV<Root>,
    address: AddressV<Root>,
    table: (Root, Seq<Seq<char>>),
    ds: Seq<DeclV>,
)
    requires
        apply_decls_spec(t, address, table, ds) is Ok,
    ensures
        ({
            let (t2, r) = apply_decls_spec(t, address, table, ds)->Ok_0;
            &&& keeps_kinds(t, t2)
            &&& forall|p: Seq<Seq<char>>, n: Seq<char>, m: TableMutability|
                #[trigger] module_declared(ds, p, n, m) ==> provisioned(
                    t2,
                    r,
                    PathV { root: table.0, modules: table.1 + p, spelling: n },
                    m,
                )
        }),
    decreases ds, 1int, 0int,
{
    let names = decl_names(ds);
    lemma_apply_table_kinds(t, address, names);
    let (t1, locals) = apply_table_spec(t, address, names)->Ok_0;
    lemma_apply_children_kinds(t1, address, table, ds, locals, ds.len() as int);
    let (t2, nested) = apply_children_spec(t1, address, table, ds, locals, ds.len() as int)->Ok_0;
    let own = table_resolved(address, table, names, locals);
    let r = own + nested;
    lemma_kinds_trans(t, t1, t2);
    assert forall|p: Seq<Seq<char>>, n: Seq<char>, m: TableMutability|
        #[trigger] module_declared(ds, p, n, m) implies provisioned(
        t2,
        r,
        PathV { root: table.0, modules: table.1 + p, spelling: n },
        m,
    ) by {
        lemma_declared_at(ds, p, n, m);
        let j = choose|j: int| 0 <= j < ds.len() && #[trigger] one_declares(ds[j], p, n, m);
        match ds[j] {
            DeclV::Member(_) => {},
            DeclV::Module(nn, mm, children) => {
                if path_here(p, nn, n, mm, m) {
                    let id = entry_id(address, locals[j] as int);
                    assert(head_at(t2.heads, id) matches Some(h) && h.mutability == mm);
                    assert(r[j] == own[j]);
                    assert(table.1 + p =~= table.1);
                    assert(r[j].path == PathV { root: table.0, modules: table.1 + p, spelling: n });
                    assert(head_at(t2.heads, r[j].encoded_id) matches Some(h) && h.mutability == m);
                } else {
                    let q = p.drop_first();
                    assert(module_declared(ds[j]->Module_2, q, n, m));
                    assert(table.1.push(nn) + q =~= table.1 + p) by {
                        assert(p =~= seq![p[0]] + q);
                    }
                    lemma_provisioned_kept(
                        t2,
                        t2,
                        nested,
                        own,
                        PathV { root: table.0, modules: table.1 + p, spelling: n },
                        m,
                    );
                }
            },
        }
    }
}

/// Whether a path names a module right in the table itself.
pub open spec fn path_here(
    p: Seq<Seq<char>>,
    declared: Seq<char>,
    name: Seq<char>,
    declared_mutability: TableMutability,
    mutability: TableMutability,
) -> bool {
    p.len() == 0 && declared == name && declared_mutability == mutability
}

/// Provisioning and applying the module tables declared by the first `n`
/// declarations keeps the mutability of every table and gives each module
/// table, and every module nested in it, the declared mutability.
proof fn lemma_apply_children_kinds<Root>(
    t: TableV<Root>,
    address: AddressV<Root>,
    table: (Root, Seq<Seq<char>>),
    ds: Seq<DeclV>,
    locals: Seq<u16>,
    n: int,
)
    requires
        0 <= n <= ds.len(),
        apply_children_spec(t, address, table, ds, locals, n) is Ok,
    ensures
        ({
            let (t2, r) = apply_children_spec(t, address, table, ds, locals, n)->Ok_0;
            &&& keeps_kinds(t, t2)
            &&& forall|j: int|
                0 <= j < n && j < ds.len() && ds[j] is Module ==> (#[trigger] head_at(
                    t2.heads,
                    entry_id(address, locals[j] as int),
                ) matches Some(h) && h.mutability == ds[j]->Module_1)
            &&& forall|j: int, p: Seq<Seq<char>>, name: Seq<char>, m: TableMutability|
                0 <= j < n && j < ds.len() && ds[j] is Module && #[trigger] module_declared(
                    ds[j]->Module_2,
                    p,
                    name,
                    m,
                ) ==> provisioned(
                    t2,
                    r,
                    PathV { root: table.0, modules: table.1.push(ds[j]->Module_0) + p, spelling: name },
                    m,
                )
        }),
    decreases ds, 0int, n,
{
    if n > 0 {
        lemma_apply_children_kinds(t, address, table, ds, locals, n - 1);
        let (t1, r1) = apply_children_spec(t, address, table, ds, locals, n - 1)->Ok_0;
        match ds[n - 1] {
            DeclV::Member(_) => {},
            DeclV::Module(name, mutability, children) => {
                let child = entry_id(address, locals[n - 1] as int);
                lemma_ensure_kinds(t1, child, mutability);
                let t2 = ensure_table_spec(t1, child, mutability)->Ok_0;
                let path = (table.0, table.1.push(name));
                lemma_apply_decls_kinds(t2, child, path, children);
                let (t3, r3) = apply_decls_spec(t2, child, path, children)->Ok_0;
                lemma_kinds_trans(t1, t2, t3);
                lemma_kinds_trans(t, t1, t3);
                assert forall|j: int|
                    0 <= j < n && j < ds.len() && ds[j] is Module implies (#[trigger] head_at(
                    t3.heads,
                    entry_id(address, locals[j] as int),
                ) matches Some(h) && h.mutability == ds[j]->Module_1) by {
                    let id = entry_id(address, locals[j] as int);
                    if j < n - 1 {
                        assert(head_at(t1.heads, id) matches Some(h) && h.mutability == ds[j]->Module_1);
                    }
                    assert(head_at(t3.heads, id) is Some);
                }
                assert forall|j: int, p: Seq<Seq<char>>, nm: Seq<char>, m: TableMutability|
                    0 <= j < n && j < ds.len() && ds[j] is Module && #[trigger] module_declared(
                    ds[j]->Module_2,
                    p,
                    nm,
                    m,
                ) implies provisioned(
                    t3,
                    r1 + r3,
                    PathV { root: table.0, modules: table.1.push(ds[j]->Module_0) + p, spelling: nm },
                    m,
                ) by {
                    let pv = PathV {
                        root: table.0,
                        modules: table.1.push(ds[j]->Module_0) + p,
                        spelling: nm,
                    };
                    if j < n - 1 {
                        assert(provisioned(t1, r1, pv, m));
                        lemma_provisioned_kept(t1, t3, r1, r3, pv, m);
                    } else {
                        assert(provisioned(t3, r3, pv, m));
                        lemma_provisioned_kept(t3, t3, r3, r1, pv, m);
                    }
                }
            },
        }
    }
}

/// Applying the first `n` root graphs keeps the mutability of every table,
/// gives each root table its declared mutability, and each module declared in
/// a root graph's canonical form a table of the declared mutability.
proof fn lemma_apply_roots_kinds<Root>(t: TableV<Root>, roots: Seq<RootDeclV<Root>>, n: int)
    requires
        0 <= n <= roots.len(),
        apply_roots_spec(t, roots, n) is Ok,
    ensures
        ({
            let (t2, r) = apply_roots_spec(t, roots, n)->Ok_0;
            &&& keeps_kinds(t, t2)
            &&& forall|k: int|
                0 <= k < n ==> (#[trigger] head_at(t2.heads, (roots[k].root, Seq::empty()))
                    matches Some(h) && h.mutability == roots[k].mutability)
            &&& forall|k: int, p: Seq<Seq<char>>, name: Seq<char>, m: TableMutability|
                0 <= k < n && #[trigger] module_declared(
                    canon_decls(roots[k].declarations),
                    p,
                    name,
                    m,
                ) ==> provisioned(t2, r, PathV { root: roots[k].root, modules: p, spelling: name }, m)
        }),
    decreases n,
{
    if n > 0 {
        lemma_apply_roots_kinds(t, roots, n - 1);
        let (t1, r1) = apply_roots_spec(t, roots, n - 1)->Ok_0;
        let root = roots[n - 1];
        let address = (root.root, Seq::<crate::identity::LocalEncodedId>::empty());
        lemma_ensure_kinds(t1, address, root.mutability);
        let t2 = ensure_table_spec(t1, address, root.mutability)->Ok_0;
        let path = (root.root, Seq::<Seq<char>>::empty());
        let ds = canon_decls(root.declarations);
        lemma_apply_decls_kinds(t2, address, path, ds);
        let (t3, r3) = apply_decls_spec(t2, address, path, ds)->Ok_0;
        lemma_kinds_trans(t1, t2, t3);
        lemma_kinds_trans(t, t1, t3);
        assert forall|k: int| 0 <= k < n implies (#[trigger] head_at(
            t3.heads,
            (roots[k].root, Seq::empty()),
        ) matches Some(h) && h.mutability == roots[k].mutability) by {
            let a = (roots[k].root, Seq::<crate::identity::LocalEncodedId>::empty());
            if k < n - 1 {
                assert(head_at(t1.heads, a) matches Some(h) && h.mutability == roots[k].mutability);
            }
            assert(head_at(t3.heads, a) is Some);
        }
        assert forall|k: int, p: Seq<Seq<char>>, name: Seq<char>, m: TableMutability|
            0 <= k < n && #[trigger] module_declared(
            canon_decls(roots[k].declarations),
            p,
            name,
            m,
        ) implies provisioned(
            t3,
            r1 + r3,
            PathV { root: roots[k].root, modules: p, spelling: name },
            m,
        ) by {
            let pv = PathV { root: roots[k].root, modules: p, spelling: name };
            if k < n - 1 {
                assert(provisioned(t1, r1, pv, m));
                lemma_provisioned_kept(t1, t3, r1, r3, pv, m);
            } else {
                assert(Seq::<Seq<char>>::empty() + p =~= p);
                assert(provisioned(t3, r3, pv, m));
                lemma_provisioned_kept(t3, t3, r3, r1, pv, m);
            }
        }
    }
}

/// A new seal provisions every table it declares with the declared
/// mutability — each root table, and each module table at any depth, whose
/// declaration is recorded in the receipt under its path — or it is refused:
/// a table that already exists with another mutability is never accepted.
pub proof fn lemma_seal_provisions_declared_mutabilities<Root: Ord + Copy>(
    t: TableV<Root>,
    request: SealRequestV<Root>,
)
    requires
        receipt_index(t.receipts, request.operation_key) is None,
        stage_seal_spec(t, request) is Ok,
    ensures
        ({
            let (t2, r) = stage_seal_spec(t, request)->Ok_0;
            &&& forall|k: int|
                0 <= k < request.roots.len() ==> (#[trigger] head_at(
                    t2.heads,
                    (request.roots[k].root, Seq::empty()),
                ) matches Some(h) && h.mutability == request.roots[k].mutability)
            &&& forall|k: int, p: Seq<Seq<char>>, name: Seq<char>, m: TableMutability|
                0 <= k < request.roots.len() && #[trigger] module_declared(
                    request.roots[k].declarations,
                    p,
                    name,
                    m,
                ) ==> provisioned(
                    t2,
                    r.declarations,
                    PathV { root: request.roots[k].root, modules: p, spelling: name },
                    m,
                )
        }),
{
    crate::laws::lemma_seal_body_shape(t, request);
    let (s, r) = seal_staged_spec(t, request)->Ok_0;
    let roots = request.roots;
    lemma_apply_roots_kinds(t, roots, roots.len() as int);
    let (t1, declarations) = apply_roots_spec(t, roots, roots.len() as int)->Ok_0;
    assert(s.heads == t1.heads);
    assert(r.declarations == declarations);
    lemma_arranged_keeps(s);
    let t2 = arranged(s);
    assert forall|k: int| 0 <= k < roots.len() implies (#[trigger] head_at(
        t2.heads,
        (roots[k].root, Seq::empty()),
    ) matches Some(h) && h.mutability == roots[k].mutability) by {
        let a = (roots[k].root, Seq::<crate::identity::LocalEncodedId>::empty());
        assert(head_at(t2.heads, a) == head_at(s.heads, a));
        assert(head_at(t1.heads, a) matches Some(h) && h.mutability == roots[k].mutability);
    }
    assert forall|k: int, p: Seq<Seq<char>>, name: Seq<char>, m: TableMutability|
        0 <= k < roots.len() && #[trigger] module_declared(roots[k].declarations, p, name, m)
        implies provisioned(
        t2,
        declarations,
        PathV { root: roots[k].root, modules: p, spelling: name },
        m,
    ) by {
        let pv = PathV { root: roots[k].root, modules: p, spelling: name };
        lemma_canon_declared(roots[k].declarations, p, name, m);
        assert(provisioned(t1, declarations, pv, m));
        let i = choose|i: int|
            0 <= i < declarations.len() && declarations[i].path == pv && (#[trigger] head_at(
                t1.heads,
                declarations[i].encoded_id,
            ) matches Some(h) && h.mutability == m);
        assert(head_at(t2.heads, declarations[i].encoded_id) == head_at(
            s.heads,
            declarations[i].encoded_id,
        ));
    }
}

} // verus!
