//! Why the final consistency check of a staged operation never refuses a
//! state staged from a consistent one: every step keeps each snapshot and
//! head free of faults, and only lets tables grow.

use vstd::prelude::*;

use crate::canonical::{canon_decl, canon_decls, canon_each, decl_name_order_fn, lemma_canon_each_at};
use crate::consistency::{head_fault, repeat_from, snapshot_fault};
use crate::order::{CanonicalOrder, insertion_sort, lemma_distinct_keys_carry, lemma_insertion_sort_sorted, sign_laws};
use crate::arrangement::arranged;
use crate::error::ErrorV;
use crate::canonical::canonical_request;
use crate::consistency::{
    consistent, lemma_consistent_faults, lemma_faults_none, receipt_fault, receipt_key,
    resolved_fault, snapshots_fault_from,
};
use crate::reference::{resolve_reference_spec, resolve_refs_spec, walk_spec};
use crate::rename::{rename_body_spec, rename_staged_spec, stage_rename_spec};
use crate::request::{DeclV, PathV, RenameRequestV, RootDeclV, SealRequestV};
use crate::stage::{
    apply_roots_spec, receipt_from, receipt_index, seal_body_spec, seal_staged_spec,
    stage_seal_spec,
};
use crate::state::{ReceiptV, RenameReceiptV, SealReceiptV};
use crate::validation::validate_roots_from;
use crate::validation::{decl_names, validate_decls_from};
use crate::seal::{
    allocate_spec, apply_children_spec, apply_decls_spec, apply_table_spec, ensure_table_spec,
    table_resolved,
};
use crate::state::ResolvedV;
use crate::state::{AllocationCursor, cursor_for};
use crate::table::{
    AddressV, TableV, current_snapshot_spec, head_index, lemma_head_index, lemma_head_index_props,
    lemma_local_of_props, local_of, resolve_spec,
};

verus! {

/// No two positions of a list of spellings hold the same spelling.
pub open spec fn distinct(ns: Seq<Seq<char>>) -> bool {
    forall|i: int, j: int| 0 <= i < j < ns.len() ==> ns[i] != ns[j]
}

proof fn lemma_repeat_from_none(ns: Seq<Seq<char>>, j: int)
    requires
        0 <= j,
    ensures
        repeat_from(ns, j) is None <==> forall|k: int, i: int|
            j <= k < ns.len() && 0 <= i < k ==> ns[i] != ns[k],
    decreases ns.len() - j,
{
    if j < ns.len() {
        lemma_repeat_from_none(ns, j + 1);
        if ns.subrange(0, j).contains(ns[j]) {
            let i = choose|i: int| 0 <= i < j && ns.subrange(0, j)[i] == ns[j];
            assert(ns[i] == ns[j]);
        } else {
            assert forall|i: int| 0 <= i < j implies ns[i] != ns[j] by {
                assert(ns.subrange(0, j)[i] == ns[i]);
            }
        }
    }
}

/// A list has no repeated spelling exactly when its spellings are distinct.
pub proof fn lemma_distinct_no_repeat(ns: Seq<Seq<char>>)
    ensures
        distinct(ns) <==> repeat_from(ns, 0) is None,
{
    lemma_repeat_from_none(ns, 0);
}

/// Every snapshot and every head of the state is free of faults.
pub open spec fn tables_ok<Root>(t: TableV<Root>) -> bool {
    &&& forall|i: int| 0 <= i < t.snapshots.len() ==> #[trigger] snapshot_fault(t, i) is None
    &&& forall|i: int| 0 <= i < t.heads.len() ==> #[trigger] head_fault(t, i) is None
}

/// The entries of the current snapshot of the head at position `i`.
pub open spec fn head_entries<Root>(t: TableV<Root>, i: int) -> Seq<Seq<char>> {
    t.snapshots[t.heads[i].current as int].entries
}

/// `after` keeps every snapshot of `before` and every head at its position
/// and address, and no head's current snapshot loses entries or generations.
pub open spec fn advances<Root>(before: TableV<Root>, after: TableV<Root>) -> bool {
    &&& before.snapshots.len() <= after.snapshots.len()
    &&& forall|i: int|
        0 <= i < before.snapshots.len() ==> #[trigger] after.snapshots[i] == before.snapshots[i]
    &&& before.heads.len() <= after.heads.len()
    &&& forall|i: int|
        0 <= i < before.heads.len() ==> #[trigger] after.heads[i].address == before.heads[i].address
    &&& forall|i: int|
        0 <= i < before.heads.len() && before.heads[i].current < before.snapshots.len()
            ==> #[trigger] head_advanced(before, after, i)
}

/// The head at position `i` still points at a snapshot, with at least the
/// generation and the entries it had.
pub open spec fn head_advanced<Root>(before: TableV<Root>, after: TableV<Root>, i: int) -> bool {
    &&& after.heads[i].current < after.snapshots.len()
    &&& after.heads[i].generation >= before.heads[i].generation
    &&& head_entries(after, i).len() >= head_entries(before, i).len()
}

pub proof fn lemma_advances_trans<Root>(a: TableV<Root>, b: TableV<Root>, c: TableV<Root>)
    requires
        advances(a, b),
        advances(b, c),
    ensures
        advances(a, c),
{
    assert forall|i: int|
        0 <= i < a.heads.len() && a.heads[i].current < a.snapshots.len() implies #[trigger] head_advanced(a, c, i) by {
        assert(head_advanced(a, b, i));
        assert(head_advanced(b, c, i));
    }
    assert forall|i: int| 0 <= i < a.snapshots.len() implies #[trigger] c.snapshots[i]
        == a.snapshots[i] by {
        assert(b.snapshots[i] == a.snapshots[i]);
    }
    assert forall|i: int| 0 <= i < a.heads.len() implies #[trigger] c.heads[i].address
        == a.heads[i].address by {
        assert(b.heads[i].address == a.heads[i].address);
    }
}

/// The first head of a table keeps its position while heads keep their
/// addresses.
pub proof fn lemma_head_index_kept<Root>(
    before: Seq<crate::state::HeadV<Root>>,
    after: Seq<crate::state::HeadV<Root>>,
    address: AddressV<Root>,
)
    requires
        head_index(before, address) is Some,
        before.len() <= after.len(),
        forall|i: int| 0 <= i < before.len() ==> #[trigger] after[i].address == before[i].address,
    ensures
        head_index(after, address) == head_index(before, address),
{
    lemma_head_index_props(before, address);
    let h = head_index(before, address)->0;
    assert(after[h].address == before[h].address);
    assert forall|j: int| 0 <= j < h implies after[j].address != address by {
        assert(after[j].address == before[j].address);
    }
    lemma_head_index(after, address, h);
}

/// A table's current snapshot survives an advance, with at least as many
/// entries.
pub proof fn lemma_current_kept<Root>(before: TableV<Root>, after: TableV<Root>, address: AddressV<Root>)
    requires
        advances(before, after),
        current_snapshot_spec(before, address) is Ok,
    ensures
        current_snapshot_spec(after, address) is Ok,
        current_snapshot_spec(after, address)->Ok_0.entries.len() >= current_snapshot_spec(
            before,
            address,
        )->Ok_0.entries.len(),
        head_index(after.heads, address) == head_index(before.heads, address),
{
    lemma_head_index_kept(before.heads, after.heads, address);
    lemma_head_index_props(before.heads, address);
    let h = head_index(before.heads, address)->0;
    assert(head_advanced(before, after, h));
}

/// An identity that resolves keeps resolving after an advance.
pub proof fn lemma_resolve_kept<Root>(before: TableV<Root>, after: TableV<Root>, id: AddressV<Root>)
    requires
        advances(before, after),
        resolve_spec(before, id) is Ok,
    ensures
        resolve_spec(after, id) is Ok,
{
    lemma_current_kept(before, after, (id.0, id.1.drop_last()));
}

/// A head that an advance leaves as it was keeps being free of faults.
pub proof fn lemma_head_kept<Root>(before: TableV<Root>, after: TableV<Root>, j: int)
    requires
        advances(before, after),
        0 <= j < before.heads.len(),
        after.heads[j] == before.heads[j],
        head_fault(before, j) is None,
    ensures
        head_fault(after, j) is None,
{
    let h = before.heads[j];
    assert forall|k: int| 0 <= k < j implies after.heads[k].address != h.address by {
        assert(after.heads[k].address == before.heads[k].address);
    }
    assert(after.snapshots[h.current as int] == before.snapshots[h.current as int]);
    if h.address.1.len() > 0 {
        lemma_current_kept(before, after, (h.address.0, h.address.1.drop_last()));
    }
}

/// Allocating distinct spellings against distinct entries keeps the entries
/// distinct; every appended entry is one of the allocated spellings.
pub proof fn lemma_allocation_distinct(
    current: Seq<Seq<char>>,
    names: Seq<Seq<char>>,
    cursor: AllocationCursor,
)
    requires
        cursor_for(current.len()) == Some(cursor),
        distinct(current),
        distinct(names),
        allocate_spec(current, names, cursor) is Some,
    ensures
        distinct(allocate_spec(current, names, cursor)->0.entries),
        forall|m: int|
            current.len() <= m < allocate_spec(current, names, cursor)->0.entries.len()
                ==> exists|k: int|
                0 <= k < names.len() && #[trigger] allocate_spec(current, names, cursor)->0.entries[m]
                    == names[k],
    decreases names.len(),
{
    crate::laws::lemma_allocation_holds_spellings(current, names, cursor);
    if names.len() > 0 {
        let prior = names.drop_last();
        assert forall|i: int, j: int| 0 <= i < j < prior.len() implies prior[i] != prior[j] by {
            assert(prior[i] == names[i] && prior[j] == names[j]);
        }
        lemma_allocation_distinct(current, prior, cursor);
        crate::laws::lemma_allocation_holds_spellings(current, prior, cursor);
        let b = allocate_spec(current, prior, cursor)->0;
        let a = allocate_spec(current, names, cursor)->0;
        let last = names.last();
        if local_of(current, last) is None {
            assert forall|m: int| 0 <= m < b.entries.len() implies b.entries[m] != last by {
                if m < current.len() {
                    assert(b.entries[m] == b.entries.subrange(0, current.len() as int)[m]);
                    if b.entries[m] == last {
                        crate::table::lemma_local_of_found(current, last, m);
                    }
                } else {
                    let k = choose|k: int| 0 <= k < prior.len() && #[trigger] b.entries[m] == prior[k];
                    assert(prior[k] == names[k]);
                }
            }
            assert(a.entries == b.entries.push(last));
            assert forall|i: int, j: int| 0 <= i < j < a.entries.len() implies a.entries[i]
                != a.entries[j] by {
                if j == b.entries.len() {
                    assert(a.entries[i] == b.entries[i]);
                } else {
                    assert(a.entries[i] == b.entries[i] && a.entries[j] == b.entries[j]);
                }
            }
            assert forall|m: int| current.len() <= m < a.entries.len() implies exists|k: int|
                0 <= k < names.len() && #[trigger] a.entries[m] == names[k] by {
                if m == b.entries.len() {
                    assert(a.entries[m] == names[names.len() - 1]);
                } else {
                    let k = choose|k: int| 0 <= k < prior.len() && #[trigger] b.entries[m] == prior[k];
                    assert(a.entries[m] == names[k]);
                }
            }
        } else {
            assert forall|m: int| current.len() <= m < a.entries.len() implies exists|k: int|
                0 <= k < names.len() && #[trigger] a.entries[m] == names[k] by {
                let k = choose|k: int| 0 <= k < prior.len() && #[trigger] b.entries[m] == prior[k];
                assert(a.entries[m] == names[k]);
            }
        }
    }
}

/// The identity of an allocated entry resolves.
pub proof fn lemma_entry_resolves<Root>(t: TableV<Root>, address: AddressV<Root>, l: u16)
    requires
        current_snapshot_spec(t, address) is Ok,
        l < current_snapshot_spec(t, address)->Ok_0.entries.len(),
    ensures
        resolve_spec(t, crate::table::entry_id(address, l as int)) is Ok,
{
    crate::identity::lemma_local_spec_new();
    let id = crate::table::entry_id(address, l as int);
    assert(id.1.drop_last() =~= address.1);
    assert(id.1.last()@ == l);
}

/// Provisioning a table whose owning entry is allocated keeps every
/// snapshot and head free of faults.
pub proof fn lemma_ensure_ok<Root>(t: TableV<Root>, address: AddressV<Root>, m: crate::state::TableMutability)
    requires
        tables_ok(t),
        ensure_table_spec(t, address, m) is Ok,
        address.1.len() > 0 ==> {
            let parent = (address.0, address.1.drop_last());
            &&& current_snapshot_spec(t, parent) is Ok
            &&& address.1.last()@ < current_snapshot_spec(t, parent)->Ok_0.entries.len()
        },
    ensures
        tables_ok(ensure_table_spec(t, address, m)->Ok_0),
        advances(t, ensure_table_spec(t, address, m)->Ok_0),
        current_snapshot_spec(ensure_table_spec(t, address, m)->Ok_0, address) is Ok,
{
    let t2 = ensure_table_spec(t, address, m)->Ok_0;
    lemma_head_index_props(t.heads, address);
    if head_index(t.heads, address) is Some {
        let h = head_index(t.heads, address)->0;
        assert(head_fault(t, h) is None);
    } else {
        let d = t.snapshots.len() as int;
        let hn = t.heads.len() as int;
        assert(advances(t, t2));
        assert forall|i: int| 0 <= i < t2.snapshots.len() implies #[trigger] snapshot_fault(t2, i)
            is None by {
            if i < d {
                assert(t2.snapshots[i] == t.snapshots[i]);
                assert(snapshot_fault(t, i) is None);
            } else {
                lemma_distinct_no_repeat(Seq::<Seq<char>>::empty());
            }
        }
        assert forall|j: int| 0 <= j < t2.heads.len() implies #[trigger] head_fault(t2, j) is None by {
            if j < hn {
                assert(head_fault(t, j) is None);
                lemma_head_kept(t, t2, j);
            } else {
                crate::identity::lemma_local_spec_new();
                assert forall|k: int| 0 <= k < j implies t2.heads[k].address != t2.heads[j].address by {
                    assert(t2.heads[k] == t.heads[k]);
                }
                if address.1.len() > 0 {
                    lemma_current_kept(t, t2, (address.0, address.1.drop_last()));
                }
            }
        }
        lemma_head_index(t2.heads, address, hn);
    }
}

/// Allocating a distinct list of spellings keeps every snapshot and head
/// free of faults, and each allocated local stays inside the table.
pub proof fn lemma_apply_table_ok<Root>(t: TableV<Root>, address: AddressV<Root>, names: Seq<Seq<char>>)
    requires
        tables_ok(t),
        distinct(names),
        apply_table_spec(t, address, names) is Ok,
    ensures
        ({
            let (t2, locals) = apply_table_spec(t, address, names)->Ok_0;
            &&& tables_ok(t2)
            &&& advances(t, t2)
            &&& current_snapshot_spec(t2, address) is Ok
            &&& locals.len() == names.len()
            &&& forall|k: int|
                0 <= k < names.len() ==> #[trigger] locals[k] < current_snapshot_spec(
                    t2,
                    address,
                )->Ok_0.entries.len()
        }),
{
    let s = current_snapshot_spec(t, address)->Ok_0;
    lemma_head_index_props(t.heads, address);
    let h = head_index(t.heads, address)->0;
    assert(head_fault(t, h) is None);
    let cursor = t.heads[h].cursor;
    assert(snapshot_fault(t, t.heads[h].current as int) is None);
    lemma_distinct_no_repeat(s.entries);
    crate::laws::lemma_allocation_holds_spellings(s.entries, names, cursor);
    lemma_allocation_distinct(s.entries, names, cursor);
    let a = allocate_spec(s.entries, names, cursor)->0;
    let (t2, locals) = apply_table_spec(t, address, names)->Ok_0;
    if a.entries.len() != s.entries.len() {
        let d = t.snapshots.len() as int;
        assert(advances(t, t2)) by {
            assert forall|i: int|
                0 <= i < t.heads.len() && t.heads[i].current < t.snapshots.len() implies #[trigger] head_advanced(t, t2, i) by {
                if i != h {
                    assert(t2.heads[i] == t.heads[i]);
                    assert(t2.snapshots[t.heads[i].current as int] == t.snapshots[t.heads[i].current as int]);
                }
            }
        }
        assert forall|i: int| 0 <= i < t2.snapshots.len() implies #[trigger] snapshot_fault(t2, i)
            is None by {
            if i < d {
                assert(t2.snapshots[i] == t.snapshots[i]);
                assert(snapshot_fault(t, i) is None);
            } else {
                lemma_distinct_no_repeat(a.entries);
            }
        }
        assert forall|j: int| 0 <= j < t2.heads.len() implies #[trigger] head_fault(t2, j) is None by {
            if j != h {
                assert(head_fault(t, j) is None);
                assert(t2.heads[j] == t.heads[j]);
                lemma_head_kept(t, t2, j);
            } else {
                assert forall|k: int| 0 <= k < j implies t2.heads[k].address != t2.heads[j].address by {
                    assert(t2.heads[k] == t.heads[k]);
                }
                if address.1.len() > 0 {
                    lemma_current_kept(t, t2, (address.0, address.1.drop_last()));
                }
            }
        }
        lemma_head_index_kept(t.heads, t2.heads, address);
    } else {
        assert(t2 == t);
    }
}

/// What a successful check of the declarations `ds[i..]` establishes: no
/// spelling repeats an earlier one, and every module's list passes too.
pub proof fn lemma_valid_decls<Root>(p: (Root, Seq<Seq<char>>), ds: Seq<DeclV>, i: int)
    requires
        0 <= i,
        validate_decls_from(p, ds, i) is None,
    ensures
        forall|k: int|
            #![trigger ds[k]]
            i <= k < ds.len() ==> !decl_names(ds.subrange(0, k)).contains(ds[k].name()) && (
            ds[k] matches DeclV::Module(n, _, c) ==> validate_decls_from((p.0, p.1.push(n)), c, 0)
                is None),
    decreases ds.len() - i,
{
    if i < ds.len() {
        lemma_valid_decls(p, ds, i + 1);
    }
}

/// The converse: lists whose every position passes are valid.
pub proof fn lemma_valid_decls_back<Root>(p: (Root, Seq<Seq<char>>), ds: Seq<DeclV>, i: int)
    requires
        0 <= i,
        forall|k: int|
            #![trigger ds[k]]
            i <= k < ds.len() ==> !decl_names(ds.subrange(0, k)).contains(ds[k].name()) && (
            ds[k] matches DeclV::Module(n, _, c) ==> validate_decls_from((p.0, p.1.push(n)), c, 0)
                is None),
    ensures
        validate_decls_from(p, ds, i) is None,
    decreases ds.len() - i,
{
    if i < ds.len() {
        lemma_valid_decls_back(p, ds, i + 1);
        assert(ds[i] == ds[i]);
    }
}

/// Valid declarations have distinct spellings.
pub proof fn lemma_valid_distinct<Root>(p: (Root, Seq<Seq<char>>), ds: Seq<DeclV>)
    requires
        validate_decls_from(p, ds, 0) is None,
    ensures
        distinct(decl_names(ds)),
{
    lemma_valid_decls(p, ds, 0);
    assert forall|i: int, j: int| 0 <= i < j < decl_names(ds).len() implies decl_names(ds)[i]
        != decl_names(ds)[j] by {
        assert(ds[j] == ds[j]);
        assert(decl_names(ds.subrange(0, j))[i] == ds[i].name());
    }
}

/// Putting valid declarations into canonical order keeps them valid.
pub proof fn lemma_canon_valid<Root>(p: (Root, Seq<Seq<char>>), ds: Seq<DeclV>)
    requires
        validate_decls_from(p, ds, 0) is None,
    ensures
        validate_decls_from(p, canon_decls(ds), 0) is None,
    decreases ds,
{
    broadcast use vstd::seq_lib::group_to_multiset_ensures;

    let f = decl_name_order_fn();
    assert(sign_laws(f)) by {
        <crate::request::Declaration as CanonicalOrder>::lemma_sign_laws();
        assert((|x: DeclV, y: DeclV|
            <crate::request::Declaration as CanonicalOrder>::order(x, y)) =~= f);
    }
    let c = canon_each(ds);
    let x = canon_decls(ds);
    lemma_canon_each_at(ds);
    lemma_valid_decls(p, ds, 0);
    lemma_valid_distinct(p, ds);
    lemma_insertion_sort_sorted(c, f);
    assert(x == insertion_sort(c, f));
    let key = |d: DeclV| d.name();
    assert forall|i: int, j: int| 0 <= i < j < c.len() implies key(c[i]) != key(c[j]) by {
        assert(c[i] == canon_decl(ds[i]) && c[j] == canon_decl(ds[j]));
        assert(decl_names(ds)[i] != decl_names(ds)[j]);
        match ds[i] {
            DeclV::Member(_) => {},
            DeclV::Module(_, _, _) => {},
        }
        match ds[j] {
            DeclV::Member(_) => {},
            DeclV::Module(_, _, _) => {},
        }
    }
    lemma_distinct_keys_carry(c, x, key);
    assert forall|k: int|
        #![trigger x[k]]
        0 <= k < x.len() implies !decl_names(x.subrange(0, k)).contains(x[k].name()) && (
        x[k] matches DeclV::Module(n, _, ch) ==> validate_decls_from((p.0, p.1.push(n)), ch, 0)
            is None) by {
        assert forall|m: int| 0 <= m < k implies decl_names(x.subrange(0, k))[m] != x[k].name() by {
            assert(key(x[m]) != key(x[k]));
        }
        assert(x.to_multiset().count(x[k]) > 0);
        assert(c.contains(x[k]));
        let j = choose|j: int| 0 <= j < c.len() && c[j] == x[k];
        assert(c[j] == canon_decl(ds[j]));
        assert(ds[j] == ds[j]);
        match ds[j] {
            DeclV::Member(_) => {},
            DeclV::Module(n, _, ch) => {
                assert(decreases_to!(ds => ds[j]));
                lemma_canon_valid((p.0, p.1.push(n)), ch);
            },
        }
    }
    lemma_valid_decls_back(p, x, 0);
}

/// Every recorded identity is a non-empty chain that resolves.
pub open spec fn all_resolve<Root>(t: TableV<Root>, items: Seq<ResolvedV<Root>>) -> bool {
    forall|k: int|
        0 <= k < items.len() ==> (#[trigger] items[k]).encoded_id.1.len() > 0 && resolve_spec(
            t,
            items[k].encoded_id,
        ) is Ok
}

/// Recorded identities keep resolving after an advance.
pub proof fn lemma_all_resolve_kept<Root>(t: TableV<Root>, t2: TableV<Root>, items: Seq<ResolvedV<Root>>)
    requires
        advances(t, t2),
        all_resolve(t, items),
    ensures
        all_resolve(t2, items),
{
    assert forall|k: int| 0 <= k < items.len() implies (#[trigger] items[k]).encoded_id.1.len() > 0
        && resolve_spec(t2, items[k].encoded_id) is Ok by {
        lemma_resolve_kept(t, t2, items[k].encoded_id);
    }
}

proof fn lemma_all_resolve_concat<Root>(t: TableV<Root>, a: Seq<ResolvedV<Root>>, b: Seq<ResolvedV<Root>>)
    requires
        all_resolve(t, a),
        all_resolve(t, b),
    ensures
        all_resolve(t, a + b),
{
    assert forall|k: int| 0 <= k < (a + b).len() implies (#[trigger] (a + b)[k]).encoded_id.1.len()
        > 0 && resolve_spec(t, (a + b)[k].encoded_id) is Ok by {
        if k < a.len() {
            assert((a + b)[k] == a[k]);
        } else {
            assert((a + b)[k] == b[k - a.len()]);
        }
    }
}

/// A state with the same heads and snapshots advances as far.
proof fn lemma_advances_same_tables<Root>(t: TableV<Root>, a: TableV<Root>, b: TableV<Root>)
    requires
        advances(t, a),
        b.heads == a.heads,
        b.snapshots == a.snapshots,
    ensures
        advances(t, b),
{
    assert forall|i: int|
        0 <= i < t.heads.len() && t.heads[i].current < t.snapshots.len() implies #[trigger] head_advanced(t, b, i) by {
        assert(head_advanced(t, a, i));
        assert(head_entries(b, i) == head_entries(a, i));
    }
    assert(t.snapshots.len() <= b.snapshots.len());
    assert forall|i: int| 0 <= i < t.snapshots.len() implies #[trigger] b.snapshots[i]
        == t.snapshots[i] by {
        assert(a.snapshots[i] == t.snapshots[i]);
    }
    assert(t.heads.len() <= b.heads.len());
    assert forall|i: int| 0 <= i < t.heads.len() implies #[trigger] b.heads[i].address
        == t.heads[i].address by {
        assert(a.heads[i].address == t.heads[i].address);
    }
}

proof fn lemma_advances_refl<Root>(t: TableV<Root>)
    ensures
        advances(t, t),
{
}

/// Applying a valid declaration list keeps every snapshot and head free of
/// faults, and every identity it records resolves.
pub proof fn lemma_apply_decls_ok<Root>(
    t: TableV<Root>,
    address: AddressV<Root>,
    table: (Root, Seq<Seq<char>>),
    ds: Seq<DeclV>,
)
    requires
        tables_ok(t),
        validate_decls_from(table, ds, 0) is None,
        apply_decls_spec(t, address, table, ds) is Ok,
    ensures
        ({
            let (t2, r) = apply_decls_spec(t, address, table, ds)->Ok_0;
            tables_ok(t2) && advances(t, t2) && all_resolve(t2, r)
        }),
    decreases ds, 1int, 0int,
{
    let names = decl_names(ds);
    lemma_valid_distinct(table, ds);
    lemma_apply_table_ok(t, address, names);
    let (t1, locals) = apply_table_spec(t, address, names)->Ok_0;
    lemma_apply_children_ok(t1, address, table, ds, locals, ds.len() as int);
    let (t2, nested) = apply_children_spec(t1, address, table, ds, locals, ds.len() as int)->Ok_0;
    let own = table_resolved(address, table, names, locals);
    assert(all_resolve(t1, own)) by {
        assert forall|k: int| 0 <= k < own.len() implies (#[trigger] own[k]).encoded_id.1.len() > 0
            && resolve_spec(t1, own[k].encoded_id) is Ok by {
            lemma_entry_resolves(t1, address, locals[k]);
        }
    }
    lemma_all_resolve_kept(t1, t2, own);
    lemma_all_resolve_concat(t2, own, nested);
    lemma_advances_trans(t, t1, t2);
}

/// Provisioning and applying the module tables declared by the first `n`
/// declarations keeps every snapshot and head free of faults.
pub proof fn lemma_apply_children_ok<Root>(
    t: TableV<Root>,
    address: AddressV<Root>,
    table: (Root, Seq<Seq<char>>),
    ds: Seq<DeclV>,
    locals: Seq<u16>,
    n: int,
)
    requires
        tables_ok(t),
        0 <= n <= ds.len(),
        locals.len() == ds.len(),
        current_snapshot_spec(t, address) is Ok,
        forall|k: int|
            0 <= k < ds.len() ==> #[trigger] locals[k] < current_snapshot_spec(
                t,
                address,
            )->Ok_0.entries.len(),
        validate_decls_from(table, ds, 0) is None,
        apply_children_spec(t, address, table, ds, locals, n) is Ok,
    ensures
        ({
            let (t2, r) = apply_children_spec(t, address, table, ds, locals, n)->Ok_0;
            tables_ok(t2) && advances(t, t2) && all_resolve(t2, r)
        }),
    decreases ds, 0int, n,
{
    if n <= 0 {
        lemma_advances_refl(t);
    } else {
        lemma_apply_children_ok(t, address, table, ds, locals, n - 1);
        let (t1, r1) = apply_children_spec(t, address, table, ds, locals, n - 1)->Ok_0;
        match ds[n - 1] {
            DeclV::Member(_) => {},
            DeclV::Module(name, mutability, children) => {
                crate::identity::lemma_local_spec_new();
                let child = crate::table::entry_id(address, locals[n - 1] as int);
                assert(child.1.drop_last() =~= address.1);
                assert(child.1.last()@ == locals[n - 1]);
                lemma_current_kept(t, t1, address);
                assert(locals[n - 1] < current_snapshot_spec(t, address)->Ok_0.entries.len());
                lemma_ensure_ok(t1, child, mutability);
                let t2 = ensure_table_spec(t1, child, mutability)->Ok_0;
                lemma_valid_decls(table, ds, 0);
                assert(ds[n - 1] == ds[n - 1]);
                let path = (table.0, table.1.push(name));
                lemma_apply_decls_ok(t2, child, path, children);
                let (t3, r3) = apply_decls_spec(t2, child, path, children)->Ok_0;
                lemma_advances_trans(t1, t2, t3);
                lemma_advances_trans(t, t1, t3);
                lemma_all_resolve_kept(t1, t3, r1);
                lemma_all_resolve_concat(t3, r1, r3);
            },
        }
    }
}

/// A successful check of the root graphs `roots[i..]` checks each one's
/// declarations.
pub(crate) proof fn lemma_valid_roots<Root>(roots: Seq<RootDeclV<Root>>, i: int)
    requires
        0 <= i,
        validate_roots_from(roots, i) is None,
    ensures
        forall|k: int|
            i <= k < roots.len() ==> validate_decls_from(
                (#[trigger] roots[k].root, Seq::<Seq<char>>::empty()),
                roots[k].declarations,
                0,
            ) is None,
    decreases roots.len() - i,
{
    if i < roots.len() {
        lemma_valid_roots(roots, i + 1);
    }
}

/// Applying the first `n` valid root graphs keeps every snapshot and head
/// free of faults, and every identity they record resolves.
pub proof fn lemma_apply_roots_ok<Root>(t: TableV<Root>, roots: Seq<RootDeclV<Root>>, n: int)
    requires
        tables_ok(t),
        0 <= n <= roots.len(),
        validate_roots_from(roots, 0) is None,
        apply_roots_spec(t, roots, n) is Ok,
    ensures
        ({
            let (t2, r) = apply_roots_spec(t, roots, n)->Ok_0;
            tables_ok(t2) && advances(t, t2) && all_resolve(t2, r)
        }),
    decreases n,
{
    if n <= 0 {
        lemma_advances_refl(t);
    } else {
        lemma_apply_roots_ok(t, roots, n - 1);
        let (t1, r1) = apply_roots_spec(t, roots, n - 1)->Ok_0;
        let root = roots[n - 1];
        let address = (root.root, Seq::<crate::identity::LocalEncodedId>::empty());
        lemma_ensure_ok(t1, address, root.mutability);
        let t2 = ensure_table_spec(t1, address, root.mutability)->Ok_0;
        lemma_valid_roots(roots, 0);
        let path = (root.root, Seq::<Seq<char>>::empty());
        assert(validate_decls_from(path, root.declarations, 0) is None);
        lemma_canon_valid(path, root.declarations);
        lemma_apply_decls_ok(t2, address, path, canon_decls(root.declarations));
        let (t3, r3) = apply_decls_spec(t2, address, path, canon_decls(root.declarations))->Ok_0;
        lemma_advances_trans(t1, t2, t3);
        lemma_advances_trans(t, t1, t3);
        lemma_all_resolve_kept(t1, t3, r1);
        lemma_all_resolve_concat(t3, r1, r3);
    }
}

/// Every resolved reference is a non-empty chain that resolves.
pub proof fn lemma_refs_resolve<Root>(t: TableV<Root>, refs: Seq<PathV<Root>>, n: int)
    requires
        resolve_refs_spec(t, refs, n) is Ok,
    ensures
        all_resolve(t, resolve_refs_spec(t, refs, n)->Ok_0),
    decreases n,
{
    if n > 0 {
        lemma_refs_resolve(t, refs, n - 1);
        let r = refs[n - 1];
        let address = walk_spec(t, r, r.modules.len() as int)->Ok_0;
        let s = current_snapshot_spec(t, address)->Ok_0;
        lemma_local_of_props(s.entries, r.spelling);
        let p = local_of(s.entries, r.spelling)->0;
        lemma_entry_resolves(t, address, p);
        let rs = resolve_refs_spec(t, refs, n - 1)->Ok_0;
        let item = ResolvedV { path: r, encoded_id: resolve_reference_spec(t, r)->Ok_0 };
        assert forall|k: int| 0 <= k < rs.push(item).len() implies (#[trigger] rs.push(
            item,
        )[k]).encoded_id.1.len() > 0 && resolve_spec(t, rs.push(item)[k].encoded_id) is Ok by {
            if k < rs.len() {
                assert(rs.push(item)[k] == rs[k]);
            }
        }
    }
}

/// The recorded results of a receipt check out exactly when they all resolve.
proof fn lemma_resolved_fault_none<Root>(
    t: TableV<Root>,
    items: Seq<ResolvedV<Root>>,
    k: int,
    key: Seq<u8>,
)
    requires
        0 <= k,
    ensures
        resolved_fault(t, items, k, key) is None <==> forall|m: int|
            k <= m < items.len() ==> (#[trigger] items[m]).encoded_id.1.len() > 0 && resolve_spec(
                t,
                items[m].encoded_id,
            ) is Ok,
    decreases items.len() - k,
{
    if k < items.len() {
        lemma_resolved_fault_none(t, items, k + 1, key);
    }
}

/// A receipt search that finds nothing means no receipt has the key.
proof fn lemma_receipt_absent<Root>(s: Seq<ReceiptV<Root>>, key: Seq<u8>, i: int)
    requires
        0 <= i,
        receipt_from(s, key, i) is None,
    ensures
        forall|j: int| i <= j < s.len() ==> receipt_key(#[trigger] s[j]) != key,
    decreases s.len() - i,
{
    if i < s.len() {
        lemma_receipt_absent(s, key, i + 1);
    }
}

/// A receipt of a consistent state stays free of faults when the tables
/// advance, the revision does not go back and earlier receipts stay.
proof fn lemma_receipt_kept<Root>(t: TableV<Root>, t2: TableV<Root>, i: int)
    requires
        tables_ok(t),
        advances(t, t2),
        t2.revision >= t.revision,
        0 <= i < t.receipts.len(),
        t.receipts.len() <= t2.receipts.len(),
        forall|j: int| 0 <= j < t.receipts.len() ==> #[trigger] t2.receipts[j] == t.receipts[j],
        receipt_fault(t, i) is None,
    ensures
        receipt_fault(t2, i) is None,
{
    let r = t.receipts[i];
    let key = receipt_key(r);
    assert forall|j: int| 0 <= j < i implies receipt_key(t2.receipts[j]) != key by {
        assert(t2.receipts[j] == t.receipts[j]);
    }
    assert(t2.receipts[i] == r);
    match r {
        ReceiptV::Seal(seal) => {
            let items = seal.declarations + seal.references;
            lemma_resolved_fault_none(t, items, 0, key);
            lemma_resolved_fault_none(t2, items, 0, key);
            assert forall|m: int| 0 <= m < items.len() implies (#[trigger] items[m]).encoded_id.1.len()
                > 0 && resolve_spec(t2, items[m].encoded_id) is Ok by {
                lemma_resolve_kept(t, t2, items[m].encoded_id);
            }
        },
        ReceiptV::Rename(rename) => {
            let owner = (rename.target.0, rename.target.1.drop_last());
            lemma_head_index_props(t.heads, owner);
            let h = head_index(t.heads, owner)->0;
            assert(head_fault(t, h) is None);
            lemma_head_index_kept(t.heads, t2.heads, owner);
            assert(head_advanced(t, t2, h));
            lemma_resolve_kept(t, t2, rename.target);
        },
    }
}

/// From no fault at any position to no fault found.
proof fn lemma_faults_back<Root: Ord>(t: TableV<Root>)
    requires
        forall|i: int| 0 <= i < t.snapshots.len() ==> #[trigger] snapshot_fault(t, i) is None,
        forall|i: int| 0 <= i < t.heads.len() ==> #[trigger] head_fault(t, i) is None,
        forall|i: int| 0 <= i < t.receipts.len() ==> #[trigger] receipt_fault(t, i) is None,
    ensures
        consistent(t),
{
    lemma_snapshots_back(t, 0);
    lemma_faults_none(t);
}

proof fn lemma_snapshots_back<Root>(t: TableV<Root>, i: int)
    requires
        0 <= i,
        forall|k: int| 0 <= k < t.snapshots.len() ==> #[trigger] snapshot_fault(t, k) is None,
    ensures
        snapshots_fault_from(t, i) is None,
    decreases t.snapshots.len() - i,
{
    if i < t.snapshots.len() {
        lemma_snapshots_back(t, i + 1);
    }
}

/// A consistent state's tables are free of faults.
pub(crate) proof fn lemma_consistent_tables<Root: Ord>(t: TableV<Root>)
    requires
        consistent(t),
    ensures
        tables_ok(t),
        forall|i: int| 0 <= i < t.receipts.len() ==> #[trigger] receipt_fault(t, i) is None,
{
    assert forall|i: int| 0 <= i < t.snapshots.len() implies #[trigger] snapshot_fault(t, i)
        is None by {
        crate::consistency::lemma_snapshot_sound(t, 0, i);
    }
    lemma_consistent_faults(t);
}

/// A new seal staged from a consistent state is never refused by its final
/// consistency check: once the request validates, its tables and references
/// resolve and the revision can advance, the seal succeeds.
pub proof fn lemma_seal_check_never_refuses<Root: Ord + Copy>(
    t: TableV<Root>,
    request: SealRequestV<Root>,
)
    requires
        consistent(t),
        receipt_index(t.receipts, request.operation_key) is None,
        seal_staged_spec(t, request) is Ok,
    ensures
        consistent(seal_staged_spec(t, request)->Ok_0.0),
        seal_body_spec(t, request) == Ok::<(TableV<Root>, SealReceiptV<Root>), ErrorV<Root>>(
            (arranged(seal_staged_spec(t, request)->Ok_0.0), seal_staged_spec(t, request)->Ok_0.1),
        ),
        stage_seal_spec(t, request) == seal_body_spec(t, request),
{
    lemma_consistent_tables(t);
    let roots = request.roots;
    let (t1, declarations) = apply_roots_spec(t, roots, roots.len() as int)->Ok_0;
    lemma_apply_roots_ok(t, roots, roots.len() as int);
    crate::laws::lemma_apply_roots_grows(t, roots, roots.len() as int);
    let refs = canonical_request(request).references;
    lemma_refs_resolve(t1, refs, refs.len() as int);
    let references = resolve_refs_spec(t1, refs, refs.len() as int)->Ok_0;
    let (t2, receipt) = seal_staged_spec(t, request)->Ok_0;
    assert(t2.heads == t1.heads && t2.snapshots == t1.snapshots);
    assert(advances(t, t1));
    assert(tables_ok(t1));
    lemma_advances_same_tables(t, t1, t2);
    let items = declarations + references;
    lemma_all_resolve_concat(t1, declarations, references);
    assert forall|i: int| 0 <= i < t2.snapshots.len() implies #[trigger] snapshot_fault(t2, i)
        is None by {
        assert(snapshot_fault(t1, i) is None);
    }
    assert forall|i: int| 0 <= i < t2.heads.len() implies #[trigger] head_fault(t2, i) is None by {
        assert(head_fault(t1, i) is None);
    }
    let key = request.operation_key;
    lemma_receipt_absent(t.receipts, key, 0);
    assert forall|i: int| 0 <= i < t2.receipts.len() implies #[trigger] receipt_fault(t2, i)
        is None by {
        if i < t.receipts.len() {
            lemma_receipt_kept(t, t2, i);
        } else {
            assert(t2.receipts[i] == ReceiptV::Seal(receipt));
            assert forall|j: int| 0 <= j < i implies receipt_key(t2.receipts[j]) != key by {
                assert(t2.receipts[j] == t.receipts[j]);
            }
            lemma_resolved_fault_none(t2, items, 0, key);
            assert forall|m: int| 0 <= m < items.len() implies (#[trigger] items[m]).encoded_id.1.len()
                > 0 && resolve_spec(t2, items[m].encoded_id) is Ok by {
                assert(resolve_spec(t2, items[m].encoded_id) == resolve_spec(t1, items[m].encoded_id));
            }
        }
    }
    lemma_faults_back(t2);
}

/// A new rename staged from a consistent state is never refused by its
/// final consistency check: once the target table exists and is mutable, the
/// target is allocated, the new spelling is free and the counters can
/// advance, the rename succeeds.
pub proof fn lemma_rename_check_never_refuses<Root: Ord>(t: TableV<Root>, request: RenameRequestV<Root>)
    requires
        consistent(t),
        request.target.1.len() > 0,
        receipt_index(t.receipts, request.operation_key) is None,
        rename_staged_spec(t, request) is Ok,
    ensures
        consistent(rename_staged_spec(t, request)->Ok_0.0),
        rename_body_spec(t, request) == Ok::<(TableV<Root>, RenameReceiptV<Root>), ErrorV<Root>>(
            (
                arranged(rename_staged_spec(t, request)->Ok_0.0),
                rename_staged_spec(t, request)->Ok_0.1,
            ),
        ),
        stage_rename_spec(t, request) == rename_body_spec(t, request),
{
    lemma_consistent_tables(t);
    let address = (request.target.0, request.target.1.drop_last());
    lemma_head_index_props(t.heads, address);
    let h = head_index(t.heads, address)->0;
    assert(head_fault(t, h) is None);
    let cur = t.heads[h].current as int;
    let s = t.snapshots[cur];
    assert(snapshot_fault(t, cur) is None);
    lemma_distinct_no_repeat(s.entries);
    let local = request.target.1.last()@ as int;
    let new = request.new_spelling;
    let (t2, r) = rename_staged_spec(t, request)->Ok_0;
    let d = t.snapshots.len() as int;
    let e2 = s.entries.update(local, new);
    lemma_local_of_props(s.entries, new);
    assert(distinct(e2)) by {
        assert forall|i: int, j: int| 0 <= i < j < e2.len() implies e2[i] != e2[j] by {
            if i == local || j == local {
                let other = if i == local { j } else { i };
                if s.entries[other] == new {
                    if local_of(s.entries, new) is None {
                        crate::table::lemma_local_of_found(s.entries, new, other);
                    } else {
                        assert(s.entries[local] == new);
                    }
                }
            }
        }
    }
    assert(advances(t, t2)) by {
        assert forall|i: int|
            0 <= i < t.heads.len() && t.heads[i].current < t.snapshots.len() implies #[trigger] head_advanced(t, t2, i) by {
            if i != h {
                assert(t2.heads[i] == t.heads[i]);
                assert(t2.snapshots[t.heads[i].current as int] == t.snapshots[t.heads[i].current as int]);
            }
        }
    }
    assert forall|i: int| 0 <= i < t2.snapshots.len() implies #[trigger] snapshot_fault(t2, i)
        is None by {
        if i < d {
            assert(t2.snapshots[i] == t.snapshots[i]);
            assert(snapshot_fault(t, i) is None);
        } else {
            lemma_distinct_no_repeat(e2);
        }
    }
    assert forall|j: int| 0 <= j < t2.heads.len() implies #[trigger] head_fault(t2, j) is None by {
        if j != h {
            assert(head_fault(t, j) is None);
            assert(t2.heads[j] == t.heads[j]);
            lemma_head_kept(t, t2, j);
        } else {
            assert forall|k: int| 0 <= k < j implies t2.heads[k].address != t2.heads[j].address by {
                assert(t2.heads[k] == t.heads[k]);
            }
            if address.1.len() > 0 {
                lemma_current_kept(t, t2, (address.0, address.1.drop_last()));
            }
        }
    }
    lemma_head_index_kept(t.heads, t2.heads, address);
    let key = request.operation_key;
    lemma_receipt_absent(t.receipts, key, 0);
    assert forall|i: int| 0 <= i < t2.receipts.len() implies #[trigger] receipt_fault(t2, i)
        is None by {
        if i < t.receipts.len() {
            lemma_receipt_kept(t, t2, i);
        } else {
            assert(t2.receipts[i] == ReceiptV::Rename(r));
            assert forall|j: int| 0 <= j < i implies receipt_key(t2.receipts[j]) != key by {
                assert(t2.receipts[j] == t.receipts[j]);
            }
        }
    }
    lemma_faults_back(t2);
}

} // verus!
