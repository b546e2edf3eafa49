//! Canonical total orders and the sort used to put requests, declarations,
//! references and table changes into canonical order.

use vstd::prelude::*;
use vstd::relations::*;
use vstd::seq_lib::*;

verus! {

broadcast use vstd::seq_lib::group_to_multiset_ensures;

/// A three-way comparison, with `-1`, `0` and `1` for less, equal and greater.
pub open spec fn sign_laws<A>(order: spec_fn(A, A) -> int) -> bool {
    &&& forall|a: A, b: A| #![trigger order(a, b)] -1 <= order(a, b) <= 1
    &&& forall|a: A, b: A| #![trigger order(a, b)] order(a, b) == -order(b, a)
    &&& forall|a: A, b: A, c: A|
        #![trigger order(a, b), order(b, c)]
        order(a, b) <= 0 && order(b, c) <= 0 ==> order(a, c) <= 0
}

/// A three-way comparison that is a total order: only equal values compare equal.
pub open spec fn order_laws<A>(order: spec_fn(A, A) -> int) -> bool {
    &&& sign_laws(order)
    &&& forall|a: A, b: A| #![trigger order(a, b)] order(a, b) == 0 <==> a == b
}

/// The `<=` relation of a three-way comparison.
pub open spec fn leq_of<A>(order: spec_fn(A, A) -> int) -> spec_fn(A, A) -> bool {
    |a: A, b: A| order(a, b) <= 0
}

/// Byte order on one integer.
pub open spec fn int_order(a: int, b: int) -> int {
    if a < b {
        -1
    } else if a > b {
        1
    } else {
        0
    }
}

/// Lexicographic extension of an element order to sequences.
pub open spec fn lex_order<A>(a: Seq<A>, b: Seq<A>, order: spec_fn(A, A) -> int) -> int
    decreases a.len(),
{
    if a.len() == 0 {
        if b.len() == 0 {
            0
        } else {
            -1
        }
    } else if b.len() == 0 {
        1
    } else if order(a[0], b[0]) != 0 {
        order(a[0], b[0])
    } else {
        lex_order(a.drop_first(), b.drop_first(), order)
    }
}

pub proof fn lemma_lex_antisym<A>(a: Seq<A>, b: Seq<A>, order: spec_fn(A, A) -> int)
    requires
        sign_laws(order),
    ensures
        lex_order(a, b, order) == -lex_order(b, a, order),
        -1 <= lex_order(a, b, order) <= 1,
    decreases a.len(),
{
    if a.len() > 0 && b.len() > 0 && order(a[0], b[0]) == 0 {
        assert(order(b[0], a[0]) == 0);
        lemma_lex_antisym(a.drop_first(), b.drop_first(), order);
    } else if a.len() > 0 && b.len() > 0 {
        assert(order(b[0], a[0]) == -order(a[0], b[0]));
    }
}

pub proof fn lemma_lex_trans<A>(a: Seq<A>, b: Seq<A>, c: Seq<A>, order: spec_fn(A, A) -> int)
    requires
        sign_laws(order),
        lex_order(a, b, order) <= 0,
        lex_order(b, c, order) <= 0,
    ensures
        lex_order(a, c, order) <= 0,
    decreases a.len(),
{
    if a.len() == 0 {
    } else if b.len() == 0 {
    } else if c.len() == 0 {
    } else {
        let ab = order(a[0], b[0]);
        let bc = order(b[0], c[0]);
        assert(order(a[0], b[0]) <= 0 && order(b[0], c[0]) <= 0 ==> order(a[0], c[0]) <= 0);
        if ab == 0 && bc == 0 {
            assert(order(b[0], a[0]) == 0);
            assert(order(c[0], b[0]) == 0);
            assert(order(a[0], c[0]) <= 0);
            assert(order(c[0], b[0]) <= 0 && order(b[0], a[0]) <= 0 ==> order(c[0], a[0]) <= 0);
            assert(order(a[0], c[0]) == 0);
            lemma_lex_trans(a.drop_first(), b.drop_first(), c.drop_first(), order);
        } else {
            assert(order(a[0], c[0]) <= 0);
            if order(a[0], c[0]) == 0 {
                // a[0] ~ c[0]; then b[0] sits between two equivalent elements
                assert(order(c[0], a[0]) == 0);
                assert(order(b[0], c[0]) <= 0 && order(c[0], a[0]) <= 0 ==> order(b[0], a[0])
                    <= 0);
                assert(order(b[0], a[0]) == -order(a[0], b[0]));
                assert(order(c[0], a[0]) <= 0 && order(a[0], b[0]) <= 0 ==> order(c[0], b[0])
                    <= 0);
                assert(order(c[0], b[0]) == -order(b[0], c[0]));
                assert(false);
            }
        }
    }
}

pub proof fn lemma_lex_zero<A>(a: Seq<A>, b: Seq<A>, order: spec_fn(A, A) -> int)
    requires
        order_laws(order),
    ensures
        lex_order(a, b, order) == 0 <==> a == b,
    decreases a.len(),
{
    if a.len() > 0 && b.len() > 0 {
        lemma_lex_zero(a.drop_first(), b.drop_first(), order);
        assert(order(a[0], b[0]) == 0 <==> a[0] == b[0]);
        if a[0] == b[0] && a.drop_first() == b.drop_first() {
            assert(a =~= seq![a[0]] + a.drop_first());
            assert(b =~= seq![b[0]] + b.drop_first());
        }
        if a == b {
            assert(a[0] == b[0]);
            assert(a.drop_first() == b.drop_first());
        }
    } else if a.len() > 0 || b.len() > 0 {
        assert(a.len() != b.len());
    } else {
        assert(a =~= b);
    }
}

pub proof fn lemma_lex_sign_laws<A>(order: spec_fn(A, A) -> int)
    requires
        sign_laws(order),
    ensures
        sign_laws(|a: Seq<A>, b: Seq<A>| lex_order(a, b, order)),
{
    assert forall|a: Seq<A>, b: Seq<A>|
        lex_order(a, b, order) == -lex_order(b, a, order) && -1 <= lex_order(a, b, order)
            <= 1 by {
        lemma_lex_antisym(a, b, order);
    }
    assert forall|a: Seq<A>, b: Seq<A>, c: Seq<A>|
        lex_order(a, b, order) <= 0 && lex_order(b, c, order) <= 0 implies lex_order(
        a,
        c,
        order,
    ) <= 0 by {
        lemma_lex_trans(a, b, c, order);
    }
}

pub proof fn lemma_lex_order_laws<A>(order: spec_fn(A, A) -> int)
    requires
        order_laws(order),
    ensures
        order_laws(|a: Seq<A>, b: Seq<A>| lex_order(a, b, order)),
{
    lemma_lex_sign_laws(order);
    assert forall|a: Seq<A>, b: Seq<A>| lex_order(a, b, order) == 0 <==> a == b by {
        lemma_lex_zero(a, b, order);
    }
}

/// Byte order on `u8`.
pub open spec fn byte_order(a: u8, b: u8) -> int {
    int_order(a as int, b as int)
}

/// Byte order as a spec closure.
pub open spec fn byte_order_fn() -> spec_fn(u8, u8) -> int {
    |x: u8, y: u8| byte_order(x, y)
}

/// Lexicographic byte order on byte strings.
pub open spec fn bytes_order(a: Seq<u8>, b: Seq<u8>) -> int {
    lex_order(a, b, byte_order_fn())
}

pub proof fn lemma_bytes_order_laws()
    ensures
        order_laws(|a: Seq<u8>, b: Seq<u8>| bytes_order(a, b)),
{
    let f = byte_order_fn();
    assert(order_laws(f));
    lemma_lex_order_laws(f);
    assert((|a: Seq<u8>, b: Seq<u8>| bytes_order(a, b)) =~= (|a: Seq<u8>, b: Seq<u8>| lex_order(
        a,
        b,
        f,
    )));
}

/// Compare two byte strings in lexicographic byte order.
pub fn compare_bytes(a: &[u8], b: &[u8]) -> (result: i8)
    ensures
        result == bytes_order(a@, b@),
{
    let ghost f = byte_order_fn();
    proof {
        assert(a@.skip(0) =~= a@);
        assert(b@.skip(0) =~= b@);
    }
    let mut i: usize = 0;
    while i < a.len() && i < b.len()
        invariant
            f == byte_order_fn(),
            i <= a@.len(),
            i <= b@.len(),
            bytes_order(a@, b@) == lex_order(a@.skip(i as int), b@.skip(i as int), f),
        decreases a@.len() - i,
    {
        let x = a[i];
        let y = b[i];
        assert(a@.skip(i as int)[0] == x);
        assert(b@.skip(i as int)[0] == y);
        assert(f(x, y) == byte_order(x, y));
        if x < y {
            return -1;
        }
        if x > y {
            return 1;
        }
        assert(a@.skip(i as int).drop_first() =~= a@.skip(i + 1));
        assert(b@.skip(i as int).drop_first() =~= b@.skip(i + 1));
        i = i + 1;
    }
    assert(a@.skip(i as int).len() == 0 || b@.skip(i as int).len() == 0);
    if i < b.len() {
        -1
    } else if i < a.len() {
        1
    } else {
        0
    }
}

/// Sorted sequences with the same elements, in which no two distinct
/// positions hold equivalent elements, are equal.
pub proof fn lemma_sorted_unique_distinct<A>(x: Seq<A>, y: Seq<A>, order: spec_fn(A, A) -> int)
    requires
        sign_laws(order),
        sorted_by(x, leq_of(order)),
        sorted_by(y, leq_of(order)),
        x.to_multiset() == y.to_multiset(),
        forall|i: int, j: int| 0 <= i < j < x.len() ==> order(x[i], x[j]) != 0,
    ensures
        x == y,
    decreases x.len(),
{
    broadcast use vstd::multiset::group_multiset_axioms;

    if x.len() == 0 || y.len() == 0 {
        assert(x.to_multiset().len() == x.len());
        assert(y.to_multiset().len() == y.len());
        assert(x =~= y);
    } else {
        assert(x.to_multiset().count(x[0]) > 0);
        assert(y.to_multiset().count(x[0]) > 0);
        assert(y.contains(x[0]));
        assert(x.to_multiset().count(y[0]) > 0);
        assert(x.contains(y[0]));
        let i = choose|i: int| 0 <= i < x.len() && x[i] == y[0];
        let k = choose|k: int| 0 <= k < y.len() && y[k] == x[0];
        assert(leq_of(order)(x[0], x[i]));
        assert(leq_of(order)(y[0], y[k]));
        assert(order(x[0], y[0]) <= 0);
        assert(order(y[0], x[0]) <= 0);
        assert(order(x[0], x[i]) == 0);
        assert(i == 0);
        assert(x.drop_first() =~= x.remove(0));
        assert(y.drop_first() =~= y.remove(0));
        assert(x.remove(0).to_multiset() == x.to_multiset().remove(x[0]));
        assert(y.remove(0).to_multiset() == y.to_multiset().remove(y[0]));
        assert forall|a: int, b: int| 0 <= a < b < x.drop_first().len() implies #[trigger] leq_of(
            order,
        )(x.drop_first()[a], x.drop_first()[b]) by {
            assert(leq_of(order)(x[a + 1], x[b + 1]));
        }
        assert forall|a: int, b: int| 0 <= a < b < y.drop_first().len() implies #[trigger] leq_of(
            order,
        )(y.drop_first()[a], y.drop_first()[b]) by {
            assert(leq_of(order)(y[a + 1], y[b + 1]));
        }
        assert forall|a: int, b: int| 0 <= a < b < x.drop_first().len() implies order(
            x.drop_first()[a],
            x.drop_first()[b],
        ) != 0 by {
            assert(order(x[a + 1], x[b + 1]) != 0);
        }
        lemma_sorted_unique_distinct(x.drop_first(), y.drop_first(), order);
        assert(x[0] == y[0]);
        assert forall|m: int| 0 <= m < x.len() implies x[m] == y[m] by {
            if m > 0 {
                assert(x[m] == x.drop_first()[m - 1]);
                assert(y[m] == y.drop_first()[m - 1]);
            }
        }
        assert(x =~= y);
    }
}

/// A type with a canonical three-way order on its view.
pub trait CanonicalOrder: View + Sized {
    /// The conditions under which the order obeys its laws (for example, the
    /// laws of a root selector's `Ord`).
    spec fn order_holds() -> bool;

    /// The three-way order on views.
    spec fn order(a: Self::V, b: Self::V) -> int;

    proof fn lemma_sign_laws()
        requires
            Self::order_holds(),
        ensures
            sign_laws(|a: Self::V, b: Self::V| Self::order(a, b)),
    ;

    /// Compare two values by the canonical order.
    fn compare(&self, other: &Self) -> (result: i8)
        requires
            Self::order_holds(),
        ensures
            result == Self::order(self@, other@),
    ;
}

/// The views of a sequence of values.
pub open spec fn views<T: View>(s: Seq<T>) -> Seq<T::V> {
    s.map_values(|x: T| x@)
}

/// The three-way order of a canonically ordered type, as a spec closure.
pub open spec fn order_of<T: CanonicalOrder>() -> spec_fn(T::V, T::V) -> int {
    |a: T::V, b: T::V| T::order(a, b)
}

/// Insert `x` into `s` after every trailing element that is not greater than it.
pub open spec fn insert_by<V>(s: Seq<V>, x: V, order: spec_fn(V, V) -> int) -> Seq<V>
    decreases s.len(),
{
    if s.len() == 0 || order(s.last(), x) <= 0 {
        s.push(x)
    } else {
        insert_by(s.drop_last(), x, order).push(s.last())
    }
}

/// Insertion sort, in order of the input: the canonical arrangement under a
/// three-way order, defined even where distinct values compare equal.
pub open spec fn insertion_sort<V>(s: Seq<V>, order: spec_fn(V, V) -> int) -> Seq<V>
    decreases s.len(),
{
    if s.len() == 0 {
        s
    } else {
        insert_by(insertion_sort(s.drop_last(), order), s.last(), order)
    }
}

pub proof fn lemma_insert_by_position<V>(s: Seq<V>, x: V, order: spec_fn(V, V) -> int, p: int)
    requires
        0 <= p <= s.len(),
        p == 0 || order(s[p - 1], x) <= 0,
        forall|k: int| p <= k < s.len() ==> order(s[k], x) > 0,
    ensures
        insert_by(s, x, order) == s.insert(p, x),
    decreases s.len(),
{
    if s.len() == 0 {
        assert(s.insert(p, x) =~= s.push(x));
    } else if order(s.last(), x) <= 0 {
        assert(p == s.len());
        assert(s.insert(p, x) =~= s.push(x));
    } else {
        assert(p < s.len());
        lemma_insert_by_position(s.drop_last(), x, order, p);
        assert(s.drop_last().insert(p, x).push(s.last()) =~= s.insert(p, x));
    }
}

/// Sort values into canonical order (stable insertion sort).
pub fn sort_canonical<T: CanonicalOrder>(items: Vec<T>) -> (sorted: Vec<T>)
    requires
        T::order_holds(),
    ensures
        sorted_by(views(sorted@), leq_of(order_of::<T>())),
        views(sorted@).to_multiset() == views(items@).to_multiset(),
        views(sorted@) == insertion_sort(views(items@), order_of::<T>()),
{
    proof {
        T::lemma_sign_laws();
        assert(order_of::<T>() =~= (|a: T::V, b: T::V| T::order(a, b)));
    }
    let ghost order = order_of::<T>();
    let mut items = items;
    let ghost input = views(items@);
    // Reverse the input so that popping yields the input order.
    let mut pending: Vec<T> = Vec::new();
    while items.len() > 0
        invariant
            views(items@) + views(pending@).reverse() == input,
        decreases items@.len(),
    {
        let ghost before_items = items@;
        let ghost before_pending = pending@;
        let x = items.pop().unwrap();
        pending.push(x);
        proof {
            assert(views(before_items) =~= views(items@).push(x@));
            assert(views(pending@) =~= views(before_pending).push(x@));
            assert(views(pending@).reverse() =~= seq![x@] + views(before_pending).reverse());
            assert(views(items@) + views(pending@).reverse() =~= views(before_items) + views(
                before_pending,
            ).reverse());
        }
    }
    proof {
        assert(views(items@) =~= Seq::<T::V>::empty());
        assert(views(pending@).reverse() =~= input);
    }
    let mut sorted: Vec<T> = Vec::new();
    let ghost mut done: Seq<T::V> = Seq::empty();
    while pending.len() > 0
        invariant
            T::order_holds(),
            sign_laws(order),
            order == order_of::<T>(),
            done + views(pending@).reverse() == input,
            sorted_by(views(sorted@), leq_of(order)),
            views(sorted@).to_multiset() == done.to_multiset(),
            views(sorted@) == insertion_sort(done, order),
        decreases pending@.len(),
    {
        let ghost before_pending = pending@;
        let ghost before_sorted = views(sorted@);
        let x = pending.pop().unwrap();
        proof {
            assert(views(before_pending) =~= views(pending@).push(x@));
            assert(views(before_pending).reverse() =~= seq![x@] + views(pending@).reverse());
        }
        // Find the insertion point from the back: after every element <= x.
        let mut pos: usize = sorted.len();
        while pos > 0 && sorted[pos - 1].compare(&x) > 0
            invariant
                T::order_holds(),
                sign_laws(order),
                order == order_of::<T>(),
                pos <= sorted@.len(),
                views(sorted@) == before_sorted,
                forall|k: int| pos <= k < sorted@.len() ==> order(sorted@[k]@, x@) > 0,
            decreases pos,
        {
            pos = pos - 1;
        }
        proof {
            let s = views(sorted@);
            // every element before pos is <= x
            assert forall|k: int| 0 <= k < pos implies order(s[k], x@) <= 0 by {
                if pos > 0 {
                    assert(s[pos - 1] == sorted@[pos - 1]@);
                    assert(order(sorted@[pos - 1]@, x@) <= 0);
                    if k < pos - 1 {
                        assert(leq_of(order)(s[k], s[pos - 1]));
                        assert(order(s[k], s[pos - 1]) <= 0 && order(s[pos - 1], x@) <= 0 ==> order(
                            s[k],
                            x@,
                        ) <= 0);
                    }
                }
            }
        }
        sorted.insert(pos, x);
        proof {
            let s = before_sorted;
            let t = views(sorted@);
            assert(t =~= s.insert(pos as int, x@));
            assert forall|a: int, b: int| 0 <= a < b < t.len() implies #[trigger] leq_of(order)(
                t[a],
                t[b],
            ) by {
                if b < pos {
                    assert(leq_of(order)(s[a], s[b]));
                } else if b == pos {
                    assert(order(s[a], x@) <= 0);
                } else if a < pos {
                    assert(leq_of(order)(s[a], s[b - 1]));
                    assert(order(s[b - 1], x@) > 0);
                } else if a == pos {
                    assert(order(s[b - 1], x@) > 0);
                    assert(order(x@, s[b - 1]) == -order(s[b - 1], x@));
                } else {
                    assert(leq_of(order)(s[a - 1], s[b - 1]));
                }
            }
            assert(s.insert(pos as int, x@).to_multiset() == s.to_multiset().insert(x@)) by {
                to_multiset_insert(s, pos as int, x@);
            }
            assert((done.push(x@)).to_multiset() == done.to_multiset().insert(x@));
            lemma_insert_by_position(s, x@, order, pos as int);
            assert(done.push(x@).drop_last() =~= done);
            assert(done.push(x@) + views(pending@).reverse() =~= done + views(
                before_pending,
            ).reverse());
            done = done.push(x@);
        }
    }
    proof {
        assert(views(pending@).reverse() =~= Seq::<T::V>::empty());
        assert(done =~= input);
    }
    sorted
}

/// Whether two lists hold equal values, position by position, decided by a
/// total canonical order.
pub fn same_sequence<T: CanonicalOrder>(a: &[T], b: &[T]) -> (same: bool)
    requires
        T::order_holds(),
        order_laws(order_of::<T>()),
    ensures
        same == (views(a@) == views(b@)),
{
    if a.len() != b.len() {
        proof {
            assert(views(a@).len() != views(b@).len());
        }
        return false;
    }
    let mut i: usize = 0;
    while i < a.len()
        invariant
            T::order_holds(),
            order_laws(order_of::<T>()),
            a@.len() == b@.len(),
            i <= a@.len(),
            forall|k: int| 0 <= k < i ==> a@[k]@ == b@[k]@,
        decreases a@.len() - i,
    {
        let c = a[i].compare(&b[i]);
        proof {
            assert(order_of::<T>()(a@[i as int]@, b@[i as int]@) == T::order(a@[i as int]@, b@[i as int]@));
        }
        if c != 0 {
            proof {
                assert(views(a@)[i as int] != views(b@)[i as int]);
            }
            return false;
        }
        i = i + 1;
    }
    proof {
        assert(views(a@) =~= views(b@));
    }
    true
}

/// The `<=` of a total three-way order is a total ordering.
pub proof fn lemma_leq_total<V>(order: spec_fn(V, V) -> int)
    requires
        order_laws(order),
    ensures
        total_ordering(leq_of(order)),
{
    assert forall|a: V, b: V| #[trigger] leq_of(order)(a, b) || #[trigger] leq_of(order)(b, a) by {
        assert(order(a, b) == -order(b, a));
    }
    assert forall|a: V, b: V|
        #[trigger] leq_of(order)(a, b) && #[trigger] leq_of(order)(b, a) implies a == b by {
        assert(order(a, b) == -order(b, a));
    }
    assert forall|a: V, b: V, c: V|
        #[trigger] leq_of(order)(a, b) && #[trigger] leq_of(order)(b, c) implies leq_of(order)(
        a,
        c,
    ) by {
        assert(order(a, b) <= 0 && order(b, c) <= 0 ==> order(a, c) <= 0);
    }
    assert forall|a: V| #[trigger] leq_of(order)(a, a) by {
        assert(order(a, a) == 0);
    }
}

/// A canonically sorted sequence under a total order is exactly `sort_by`.
pub proof fn lemma_sorted_is_sort_by<V>(x: Seq<V>, s: Seq<V>, order: spec_fn(V, V) -> int)
    requires
        order_laws(order),
        sorted_by(x, leq_of(order)),
        x.to_multiset() == s.to_multiset(),
    ensures
        x == s.sort_by(leq_of(order)),
{
    lemma_leq_total(order);
    s.lemma_sort_by_ensures(leq_of(order));
    lemma_sorted_unique(x, s.sort_by(leq_of(order)), leq_of(order));
}

/// Lists holding the same values sort to the same list under a total order.
pub proof fn lemma_sort_by_same_values<V>(x: Seq<V>, y: Seq<V>, order: spec_fn(V, V) -> int)
    requires
        order_laws(order),
        x.to_multiset() == y.to_multiset(),
    ensures
        x.sort_by(leq_of(order)) == y.sort_by(leq_of(order)),
{
    lemma_leq_total(order);
    x.lemma_sort_by_ensures(leq_of(order));
    lemma_sorted_is_sort_by(x.sort_by(leq_of(order)), y, order);
}

/// Inserting into a sorted list keeps it sorted and adds the value.
pub proof fn lemma_insert_by_sorted<V>(s: Seq<V>, x: V, order: spec_fn(V, V) -> int)
    requires
        sign_laws(order),
        sorted_by(s, leq_of(order)),
    ensures
        sorted_by(insert_by(s, x, order), leq_of(order)),
        insert_by(s, x, order).to_multiset() == s.to_multiset().insert(x),
    decreases s.len(),
{
    broadcast use vstd::multiset::group_multiset_axioms;

    if s.len() == 0 || order(s.last(), x) <= 0 {
        let r = s.push(x);
        assert forall|a: int, b: int| 0 <= a < b < r.len() implies #[trigger] leq_of(order)(
            r[a],
            r[b],
        ) by {
            if b == s.len() {
                if a < s.len() - 1 {
                    assert(leq_of(order)(s[a], s[s.len() - 1]));
                    assert(order(s[a], s.last()) <= 0 && order(s.last(), x) <= 0 ==> order(s[a], x)
                        <= 0);
                }
            } else {
                assert(leq_of(order)(s[a], s[b]));
            }
        }
    } else {
        let d = s.drop_last();
        assert forall|a: int, b: int| 0 <= a < b < d.len() implies #[trigger] leq_of(order)(
            d[a],
            d[b],
        ) by {
            assert(leq_of(order)(s[a], s[b]));
        }
        lemma_insert_by_sorted(d, x, order);
        let r = insert_by(d, x, order);
        assert(s =~= d.push(s.last()));
        assert forall|i: int| 0 <= i < r.len() implies order(r[i], s.last()) <= 0 by {
            assert(r.to_multiset().count(r[i]) > 0);
            if r[i] != x {
                assert(d.to_multiset().count(r[i]) > 0);
                assert(d.contains(r[i]));
                let k = choose|k: int| 0 <= k < d.len() && d[k] == r[i];
                assert(leq_of(order)(s[k], s[s.len() - 1]));
            } else {
                assert(order(s.last(), x) == -order(x, s.last()));
            }
        }
        let t = r.push(s.last());
        assert forall|a: int, b: int| 0 <= a < b < t.len() implies #[trigger] leq_of(order)(
            t[a],
            t[b],
        ) by {
            if b == r.len() {
                assert(order(r[a], s.last()) <= 0);
            } else {
                assert(leq_of(order)(r[a], r[b]));
            }
        }
        assert(t.to_multiset() =~= s.to_multiset().insert(x)) by {
            assert(d.push(s.last()).to_multiset() == d.to_multiset().insert(s.last()));
        }
    }
}

/// Insertion sort yields a sorted list holding the same values.
pub proof fn lemma_insertion_sort_sorted<V>(s: Seq<V>, order: spec_fn(V, V) -> int)
    requires
        sign_laws(order),
    ensures
        sorted_by(insertion_sort(s, order), leq_of(order)),
        insertion_sort(s, order).to_multiset() == s.to_multiset(),
    decreases s.len(),
{
    if s.len() > 0 {
        lemma_insertion_sort_sorted(s.drop_last(), order);
        lemma_insert_by_sorted(insertion_sort(s.drop_last(), order), s.last(), order);
        assert(s =~= s.drop_last().push(s.last()));
    }
}

/// Inserting a value adds it and keeps every other value, whatever the order.
pub proof fn lemma_insert_by_perm<V>(s: Seq<V>, x: V, order: spec_fn(V, V) -> int)
    ensures
        insert_by(s, x, order).to_multiset() == s.to_multiset().insert(x),
        insert_by(s, x, order).len() == s.len() + 1,
    decreases s.len(),
{
    broadcast use vstd::multiset::group_multiset_axioms;

    if s.len() > 0 && order(s.last(), x) > 0 {
        let d = s.drop_last();
        lemma_insert_by_perm(d, x, order);
        assert(s =~= d.push(s.last()));
        assert(s.to_multiset() == d.to_multiset().insert(s.last()));
        assert(insert_by(d, x, order).push(s.last()).to_multiset() == insert_by(d, x, order).to_multiset().insert(s.last()));
        assert(insert_by(s, x, order).to_multiset() =~= s.to_multiset().insert(x));
    }
}

/// Insertion sort rearranges a list: it holds the same values, whatever the
/// order.
pub proof fn lemma_insertion_sort_perm<V>(s: Seq<V>, order: spec_fn(V, V) -> int)
    ensures
        insertion_sort(s, order).to_multiset() == s.to_multiset(),
        insertion_sort(s, order).len() == s.len(),
    decreases s.len(),
{
    broadcast use vstd::multiset::group_multiset_axioms;

    if s.len() > 0 {
        lemma_insertion_sort_perm(s.drop_last(), order);
        lemma_insert_by_perm(insertion_sort(s.drop_last(), order), s.last(), order);
        assert(s =~= s.drop_last().push(s.last()));
        assert(s.to_multiset() == s.drop_last().to_multiset().insert(s.last()));
    }
}

/// A list holding the same values as a list whose keys are distinct has
/// distinct keys too.
pub proof fn lemma_distinct_keys_carry<A, K>(c: Seq<A>, x: Seq<A>, key: spec_fn(A) -> K)
    requires
        c.to_multiset() == x.to_multiset(),
        forall|i: int, j: int| 0 <= i < j < c.len() ==> key(c[i]) != key(c[j]),
    ensures
        forall|i: int, j: int| 0 <= i < j < x.len() ==> key(x[i]) != key(x[j]),
    decreases x.len(),
{
    broadcast use vstd::multiset::group_multiset_axioms;

    if x.len() > 0 {
        let v = x.last();
        let xs = x.drop_last();
        assert(x =~= xs.push(v));
        assert(x.to_multiset().count(v) > 0);
        assert(c.contains(v));
        let p = choose|p: int| 0 <= p < c.len() && c[p] == v;
        let cs = c.remove(p);
        assert(cs.to_multiset() == c.to_multiset().remove(v));
        assert(xs.to_multiset() =~= x.to_multiset().remove(v));
        assert forall|i: int, j: int| 0 <= i < j < cs.len() implies key(cs[i]) != key(cs[j]) by {
            let ii = if i < p { i } else { i + 1 };
            let jj = if j < p { j } else { j + 1 };
            assert(cs[i] == c[ii] && cs[j] == c[jj]);
        }
        lemma_distinct_keys_carry(cs, xs, key);
        assert forall|i: int, j: int| 0 <= i < j < x.len() implies key(x[i]) != key(x[j]) by {
            if j == x.len() - 1 {
                assert(xs.to_multiset().count(xs[i]) > 0);
                assert(cs.contains(xs[i]));
                let q = choose|q: int| 0 <= q < cs.len() && cs[q] == xs[i];
                let qq = if q < p { q } else { q + 1 };
                assert(cs[q] == c[qq]);
                assert(qq != p);
                if qq < p {
                    assert(key(c[qq]) != key(c[p]));
                } else {
                    assert(key(c[p]) != key(c[qq]));
                }
            } else {
                assert(x[i] == xs[i] && x[j] == xs[j]);
            }
        }
    }
}

} // verus!
