//! The table changes a seal reports: every table whose head it created or
//! advanced, with the resulting generation and snapshot, in address order.

use vstd::prelude::*;

use crate::canonical::{lemma_project_sign_laws, lemma_then_sign_laws, then_order};
use crate::identity::{LocalEncodedId, TableAddress};
use crate::order::{
    CanonicalOrder, int_order, insertion_sort, lemma_lex_sign_laws, lex_order, order_laws, order_of,
    sign_laws,
    sort_canonical, views,
};
use crate::root_order::{compare_roots, lemma_root_order_laws, root_laws, root_order, root_order_fn};
use crate::state::{TableChange, TableChangeV, change_views};
use crate::table::{AddressV, NameTable, TableV};

verus! {

broadcast use {
    crate::identity::reveal_local_view,
    crate::identity::reveal_address_view,
    crate::state::reveal_head_view,
    crate::state::reveal_change_view,
    crate::state::reveal_generation_view,
    crate::state::reveal_digest_view,
    crate::table::reveal_table_view,
};

/// Order on table-local IDs by their integers.
pub open spec fn local_order(a: LocalEncodedId, b: LocalEncodedId) -> int {
    int_order(a@ as int, b@ as int)
}

/// Local-ID order as a spec closure.
pub open spec fn local_order_fn() -> spec_fn(LocalEncodedId, LocalEncodedId) -> int {
    |a: LocalEncodedId, b: LocalEncodedId| local_order(a, b)
}

/// Order on table addresses: root, then the module chain lexicographically.
pub open spec fn address_order<Root: Ord>(a: AddressV<Root>, b: AddressV<Root>) -> int {
    then_order(root_order(a.0, b.0), lex_order(a.1, b.1, local_order_fn()))
}

pub proof fn lemma_address_order_sign_laws<Root: Ord>()
    requires
        root_laws::<Root>(),
    ensures
        sign_laws(|a: AddressV<Root>, b: AddressV<Root>| address_order(a, b)),
{
    lemma_root_order_laws::<Root>();
    assert(sign_laws(local_order_fn()));
    lemma_lex_sign_laws(local_order_fn());
    let r = root_order_fn::<Root>();
    let c = |a: Seq<LocalEncodedId>, b: Seq<LocalEncodedId>| lex_order(a, b, local_order_fn());
    let pr = |x: AddressV<Root>| x.0;
    let pc = |x: AddressV<Root>| x.1;
    lemma_project_sign_laws(r, pr);
    lemma_project_sign_laws(c, pc);
    let fr = |x: AddressV<Root>, y: AddressV<Root>| r(pr(x), pr(y));
    let fc = |x: AddressV<Root>, y: AddressV<Root>| c(pc(x), pc(y));
    lemma_then_sign_laws(fr, fc);
    let whole = |x: AddressV<Root>, y: AddressV<Root>| then_order(fr(x, y), fc(x, y));
    assert(whole =~= (|a: AddressV<Root>, b: AddressV<Root>| address_order(a, b)));
}

/// Only equal table addresses compare equal.
pub proof fn lemma_address_order_zero<Root: Ord>(a: AddressV<Root>, b: AddressV<Root>)
    requires
        root_laws::<Root>(),
    ensures
        address_order(a, b) == 0 <==> a == b,
{
    lemma_root_order_laws::<Root>();
    assert(root_order_fn::<Root>()(a.0, b.0) == root_order(a.0, b.0));
    let f = local_order_fn();
    assert(order_laws(f)) by {
        assert forall|x: LocalEncodedId, y: LocalEncodedId| #![trigger f(x, y)] f(x, y) == 0 <==> x
            == y by {
            if f(x, y) == 0 {
                assert(x.0 == y.0);
            }
        }
    }
    crate::order::lemma_lex_zero(a.1, b.1, f);
}

/// Compare two module chains lexicographically by local ID.
fn compare_chains(a: &[LocalEncodedId], b: &[LocalEncodedId]) -> (result: i8)
    ensures
        result == lex_order(a@, b@, local_order_fn()),
{
    let ghost f = local_order_fn();
    proof {
        assert(a@.skip(0) =~= a@);
        assert(b@.skip(0) =~= b@);
    }
    let mut i: usize = 0;
    while i < a.len() && i < b.len()
        invariant
            f == local_order_fn(),
            i <= a@.len(),
            i <= b@.len(),
            lex_order(a@, b@, f) == lex_order(a@.skip(i as int), b@.skip(i as int), f),
        decreases a@.len() - i,
    {
        let x = a[i].value();
        let y = b[i].value();
        assert(a@.skip(i as int)[0] == a@[i as int]);
        assert(b@.skip(i as int)[0] == b@[i as int]);
        assert(f(a@[i as int], b@[i as int]) == int_order(x as int, y as int));
        if x < y {
            return -1;
        }
        if x > y {
            return 1;
        }
        assert(a@.skip(i as int).drop_first() =~= a@.skip(i + 1));
        assert(b@.skip(i as int).drop_first() =~= b@.skip(i + 1));
        i = i + 1;
    }
    assert(a@.skip(i as int).len() == 0 || b@.skip(i as int).len() == 0);
    if i < b.len() {
        -1
    } else if i < a.len() {
        1
    } else {
        0
    }
}

/// Compare two table addresses by address order.
pub fn compare_addresses<Root: Ord>(a: &TableAddress<Root>, b: &TableAddress<Root>) -> (result:
    i8)
    requires
        root_laws::<Root>(),
    ensures
        result == address_order(a@, b@),
{
    let r = compare_roots(&a.root, &b.root);
    if r != 0 {
        return r;
    }
    compare_chains(a.module_chain.as_slice(), b.module_chain.as_slice())
}

impl<Root: Ord + Copy> CanonicalOrder for TableChange<Root> {
    open spec fn order_holds() -> bool {
        root_laws::<Root>()
    }

    open spec fn order(a: TableChangeV<Root>, b: TableChangeV<Root>) -> int {
        address_order(a.address, b.address)
    }

    proof fn lemma_sign_laws() {
        lemma_address_order_sign_laws::<Root>();
        let f = |a: AddressV<Root>, b: AddressV<Root>| address_order(a, b);
        let p = |c: TableChangeV<Root>| c.address;
        lemma_project_sign_laws(f, p);
        assert((|a: TableChangeV<Root>, b: TableChangeV<Root>| Self::order(a, b)) =~= (|
            x: TableChangeV<Root>,
            y: TableChangeV<Root>,
        | f(p(x), p(y))));
    }

    fn compare(&self, other: &Self) -> (result: i8) {
        compare_addresses(&self.address, &other.address)
    }
}

/// Whether the head at position `i` of `after` is new since `before`, or
/// points at another snapshot.
pub open spec fn head_changed<Root>(before: TableV<Root>, after: TableV<Root>, i: int) -> bool {
    i >= before.heads.len() || after.heads[i].current != before.heads[i].current
}

/// The changes among the first `n` heads of `after`, in head order.
pub open spec fn changes_upto<Root>(before: TableV<Root>, after: TableV<Root>, n: int) -> Seq<
    TableChangeV<Root>,
>
    decreases n,
{
    if n <= 0 {
        Seq::empty()
    } else {
        let prior = changes_upto(before, after, n - 1);
        if head_changed(before, after, n - 1) {
            prior.push(
                TableChangeV {
                    address: after.heads[n - 1].address,
                    generation: after.heads[n - 1].generation,
                    snapshot: after.heads[n - 1].current,
                },
            )
        } else {
            prior
        }
    }
}

/// Every table created or advanced from `before` to `after`, in address order.
pub open spec fn changed_tables_spec<Root: Ord + Copy>(
    before: TableV<Root>,
    after: TableV<Root>,
) -> Seq<TableChangeV<Root>> {
    insertion_sort(changes_upto(before, after, after.heads.len() as int), order_of::<TableChange<Root>>())
}

impl<Root: Ord + Copy> NameTable<Root> {
    /// The tables this state created or advanced relative to `before`.
    pub(crate) fn changes_since(&self, before: &NameTable<Root>) -> (changes: Vec<TableChange<Root>>)
        requires
            root_laws::<Root>(),
        ensures
            change_views(changes@) == changed_tables_spec(before@, self@),
    {
        let ghost bv = before@;
        let ghost av = self@;
        let mut changes: Vec<TableChange<Root>> = Vec::new();
        let mut i: usize = 0;
        proof {
            assert(views(changes@) =~= Seq::<TableChangeV<Root>>::empty());
        }
        while i < self.heads.len()
            invariant
                bv == before@,
                av == self@,
                i <= self@.heads.len(),
                views(changes@) == changes_upto(bv, av, i as int),
            decreases self@.heads.len() - i,
        {
            let head = &self.heads[i];
            proof {
                assert(av.heads[i as int] == head@);
                if i < before@.heads.len() {
                    assert(bv.heads[i as int] == before.heads@[i as int]@);
                }
            }
            let changed = i >= before.heads.len() || head.current_snapshot.0
                != before.heads[i].current_snapshot.0;
            if changed {
                let ghost prior = views(changes@);
                let change = TableChange {
                    address: head.address.duplicate(),
                    generation: head.generation,
                    snapshot: head.current_snapshot,
                };
                changes.push(change);
                proof {
                    assert(views(changes@) =~= prior.push(change@));
                }
            }
            i = i + 1;
        }
        let ghost unsorted = views(changes@);
        let sorted = sort_canonical(changes);
        proof {
            assert(change_views(sorted@) =~= views(sorted@));
        }
        sorted
    }
}

} // verus!
