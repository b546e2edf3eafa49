//! The laws a root selector's `Eq` and `Ord` must obey, and comparisons of
//! root selectors under them.

use vstd::laws_cmp::*;
use vstd::laws_eq::*;
use vstd::prelude::*;
use vstd::std_specs::cmp::{OrdSpec, PartialEqSpec, PartialOrdSpec};

use crate::order::order_laws;
use core::cmp::Ordering;

verus! {

/// A root selector whose `==` is structural equality and whose `Ord` is a total order.
pub open spec fn root_laws<Root: Ord>() -> bool {
    &&& obeys_cmp::<Root>()
    &&& obeys_concrete_eq::<Root>()
}

/// The three-way order of root selectors given by their `Ord`.
pub open spec fn root_order<Root: Ord>(a: Root, b: Root) -> int {
    match a.cmp_spec(&b) {
        Ordering::Less => -1,
        Ordering::Equal => 0,
        Ordering::Greater => 1,
    }
}

/// Root order as a spec closure.
pub open spec fn root_order_fn<Root: Ord>() -> spec_fn(Root, Root) -> int {
    |a: Root, b: Root| root_order(a, b)
}

pub proof fn lemma_root_order_laws<Root: Ord>()
    requires
        root_laws::<Root>(),
    ensures
        order_laws(root_order_fn::<Root>()),
{
    reveal(obeys_eq_spec_properties);
    reveal(obeys_partial_cmp_spec_properties);
    reveal(obeys_cmp_partial_ord);
    reveal(obeys_cmp_ord);
    reveal(obeys_concrete_eq);
    let f = root_order_fn::<Root>();
    assert forall|a: Root, b: Root| #![trigger f(a, b)] f(a, b) == -f(b, a) && -1 <= f(a, b) <= 1
        && (f(a, b) == 0 <==> a == b) by {
        assert(a.partial_cmp_spec(&b) == Some(a.cmp_spec(&b)));
        assert(b.partial_cmp_spec(&a) == Some(b.cmp_spec(&a)));
        assert(a.eq_spec(&b) <==> a == b);
    }
    assert forall|a: Root, b: Root, c: Root|
        #![trigger f(a, b), f(b, c)]
        f(a, b) <= 0 && f(b, c) <= 0 implies f(a, c) <= 0 by {
        assert(a.partial_cmp_spec(&b) == Some(a.cmp_spec(&b)));
        assert(b.partial_cmp_spec(&c) == Some(b.cmp_spec(&c)));
        assert(a.partial_cmp_spec(&c) == Some(a.cmp_spec(&c)));
        assert(a.eq_spec(&b) <==> a == b);
        assert(b.eq_spec(&c) <==> b == c);
        assert(a.eq_spec(&c) <==> a == c);
    }
}

/// Compare two root selectors by their `Ord`.
pub fn compare_roots<Root: Ord>(a: &Root, b: &Root) -> (result: i8)
    requires
        root_laws::<Root>(),
    ensures
        result == root_order(*a, *b),
{
    proof {
        reveal(obeys_cmp_ord);
    }
    match a.cmp(b) {
        Ordering::Less => -1,
        Ordering::Equal => 0,
        Ordering::Greater => 1,
    }
}

/// Whether two root selectors are equal.
pub fn same_root<Root: Ord>(a: &Root, b: &Root) -> (result: bool)
    requires
        root_laws::<Root>(),
    ensures
        result == (*a == *b),
{
    proof {
        reveal(obeys_concrete_eq);
    }
    *a == *b
}

} // verus!
