//! Detecting repeated spellings in a list: a set of the positions seen so
//! far, kept in strictly increasing spelling order and searched by bisection.

use vstd::prelude::*;

use crate::name::{Name, lemma_name_order_at, lemma_name_order_trans, name_order};
use crate::request::Declaration;

verus! {

/// A value that carries one exact spelling.
pub trait Spelled {
    spec fn spelling_of(&self) -> Seq<char>;

    fn spelling(&self) -> (name: &Name)
        ensures
            name@ == self.spelling_of(),
    ;
}

impl Spelled for Name {
    open spec fn spelling_of(&self) -> Seq<char> {
        self@
    }

    fn spelling(&self) -> (name: &Name) {
        self
    }
}

impl Spelled for Declaration {
    open spec fn spelling_of(&self) -> Seq<char> {
        self@.name()
    }

    fn spelling(&self) -> (name: &Name) {
        self.name()
    }
}

/// The spellings of a list, in order.
pub open spec fn spelled<T: Spelled>(items: Seq<T>) -> Seq<Seq<char>> {
    items.map_values(|x: T| x.spelling_of())
}

/// Spellings in strictly increasing order.
pub open spec fn strictly_sorted(ns: Seq<Seq<char>>) -> bool {
    forall|a: int, b: int| 0 <= a < b < ns.len() ==> #[trigger] name_order(ns[a], ns[b]) < 0
}

/// The spellings at the positions in `seen`.
pub open spec fn seen_names(ns: Seq<Seq<char>>, seen: Seq<usize>) -> Seq<Seq<char>> {
    seen.map_values(|k: usize| ns[k as int])
}

/// `seen` holds positions of `ns` in strictly increasing spelling order.
pub open spec fn seen_sorted(ns: Seq<Seq<char>>, seen: Seq<usize>) -> bool {
    &&& forall|k: int| 0 <= k < seen.len() ==> seen[k] < ns.len()
    &&& strictly_sorted(seen_names(ns, seen))
}

/// `seen` is sorted, holds only positions before `i`, and holds a position
/// with the spelling of every position before `i`.
pub open spec fn seen_covers(ns: Seq<Seq<char>>, seen: Seq<usize>, i: int) -> bool {
    &&& seen_sorted(ns, seen)
    &&& forall|k: int| 0 <= k < seen.len() ==> seen[k] < i
    &&& forall|j: int|
        #![trigger ns[j]]
        0 <= j < i ==> exists|k: int| 0 <= k < seen.len() && #[trigger] ns[seen[k] as int] == ns[j]
}

/// Inserting a spelling between its smaller and larger neighbours keeps
/// the spellings strictly sorted.
proof fn lemma_strict_insert(ns: Seq<Seq<char>>, x: Seq<char>, p: int)
    requires
        strictly_sorted(ns),
        0 <= p <= ns.len(),
        forall|k: int| 0 <= k < p ==> name_order(ns[k], x) < 0,
        forall|k: int| p <= k < ns.len() ==> name_order(ns[k], x) > 0,
    ensures
        strictly_sorted(ns.insert(p, x)),
{
    let t = ns.insert(p, x);
    assert forall|a: int, b: int| 0 <= a < b < t.len() implies #[trigger] name_order(t[a], t[b])
        < 0 by {
        if b < p {
            assert(name_order(ns[a], ns[b]) < 0);
        } else if b == p {
        } else if a < p {
            assert(name_order(ns[a], x) < 0);
            assert(name_order(ns[b - 1], x) > 0);
            lemma_name_order_at(x, ns[b - 1]);
            lemma_name_order_trans(ns[a], x, ns[b - 1]);
            lemma_name_order_at(ns[a], ns[b - 1]);
            if ns[a] == ns[b - 1] {
                assert(name_order(ns[a], x) < 0);
            }
        } else if a == p {
            lemma_name_order_at(x, ns[b - 1]);
        } else {
            assert(name_order(ns[a - 1], ns[b - 1]) < 0);
        }
    }
}

/// Find the first position in `seen` whose spelling is not below `name`.
fn lower_bound<T: Spelled>(items: &[T], seen: &Vec<usize>, name: &Name) -> (position: usize)
    requires
        seen_sorted(spelled(items@), seen@),
    ensures
        position <= seen@.len(),
        forall|k: int|
            0 <= k < position ==> name_order(spelled(items@)[seen@[k] as int], name@) < 0,
        forall|k: int|
            position <= k < seen@.len() ==> name_order(spelled(items@)[seen@[k] as int], name@)
                >= 0,
{
    let ghost ns = spelled(items@);
    let mut lo: usize = 0;
    let mut hi: usize = seen.len();
    while lo < hi
        invariant
            ns == spelled(items@),
            seen_sorted(ns, seen@),
            lo <= hi <= seen@.len(),
            forall|k: int| 0 <= k < lo ==> name_order(ns[seen@[k] as int], name@) < 0,
            forall|k: int| hi <= k < seen@.len() ==> name_order(ns[seen@[k] as int], name@) >= 0,
        decreases hi - lo,
    {
        let mid = lo + (hi - lo) / 2;
        let index = seen[mid];
        let c = items[index].spelling().compare(name);
        let ghost b = ns[seen@[mid as int] as int];
        let ghost sn = seen_names(ns, seen@);
        if c < 0 {
            proof {
                assert forall|k: int| 0 <= k <= mid implies name_order(ns[seen@[k] as int], name@)
                    < 0 by {
                    if k < mid {
                        let a = ns[seen@[k] as int];
                        assert(sn[k] == a && sn[mid as int] == b);
                        assert(name_order(sn[k], sn[mid as int]) < 0);
                        lemma_name_order_trans(a, b, name@);
                        lemma_name_order_at(a, name@);
                        lemma_name_order_at(a, b);
                    }
                }
            }
            lo = mid + 1;
        } else {
            proof {
                assert forall|k: int| mid <= k < seen@.len() implies name_order(
                    ns[seen@[k] as int],
                    name@,
                ) >= 0 by {
                    if k > mid {
                        let q = ns[seen@[k] as int];
                        assert(sn[k] == q && sn[mid as int] == b);
                        assert(name_order(sn[mid as int], sn[k]) < 0);
                        lemma_name_order_at(b, q);
                        lemma_name_order_at(b, name@);
                        lemma_name_order_at(q, name@);
                        if name_order(q, name@) < 0 {
                            lemma_name_order_trans(name@, b, q);
                        }
                    }
                }
            }
            hi = mid;
        }
    }
    lo
}

/// What the membership test on `seen` decides.
proof fn lemma_duplicate_check(
    ns: Seq<Seq<char>>,
    seen: Seq<usize>,
    i: int,
    position: int,
    duplicate: bool,
)
    requires
        0 <= i < ns.len(),
        seen_covers(ns, seen, i),
        0 <= position <= seen.len(),
        forall|k: int| 0 <= k < position ==> name_order(ns[seen[k] as int], ns[i]) < 0,
        forall|k: int| position <= k < seen.len() ==> name_order(ns[seen[k] as int], ns[i]) >= 0,
        duplicate == (position < seen.len() && ns[seen[position] as int] == ns[i]),
    ensures
        duplicate == ns.subrange(0, i).contains(ns[i]),
{
    let x = ns[i];
    let prefix = ns.subrange(0, i);
    if duplicate {
        let j = seen[position] as int;
        assert(prefix[j] == x);
    } else {
        assert forall|j: int| 0 <= j < i implies ns[j] != x by {
            let k = choose|k: int| 0 <= k < seen.len() && #[trigger] ns[seen[k] as int] == ns[j];
            if ns[j] == x {
                lemma_name_order_at(x, x);
                if k > position {
                    let p = ns[seen[position] as int];
                    let sn = seen_names(ns, seen);
                    assert(sn[position] == p && sn[k] == x);
                    assert(name_order(sn[position], sn[k]) < 0);
                    lemma_name_order_at(p, x);
                    lemma_name_order_at(x, p);
                }
            }
        }
        assert forall|m: int| 0 <= m < prefix.len() implies prefix[m] != x by {
            assert(prefix[m] == ns[m]);
        }
    }
}

/// Elements of a sequence after one insertion.
proof fn lemma_insert_index<A>(s: Seq<A>, p: int, x: A)
    requires
        0 <= p <= s.len(),
    ensures
        s.insert(p, x).len() == s.len() + 1,
        forall|k: int| 0 <= k < p ==> #[trigger] s.insert(p, x)[k] == s[k],
        s.insert(p, x)[p] == x,
        forall|k: int| p < k <= s.len() ==> #[trigger] s.insert(p, x)[k] == s[k - 1],
{
}

/// Inserting a fresh spelling at its lower bound keeps `seen` strictly sorted
/// and covering the prefix.
proof fn lemma_seen_insert(ns: Seq<Seq<char>>, before: Seq<usize>, i: int, position: int)
    requires
        0 <= i < ns.len(),
        i <= usize::MAX,
        seen_covers(ns, before, i),
        0 <= position <= before.len(),
        forall|k: int| 0 <= k < position ==> name_order(ns[before[k] as int], ns[i]) < 0,
        forall|k: int| position <= k < before.len() ==> name_order(ns[before[k] as int], ns[i]) >= 0,
        !ns.subrange(0, i).contains(ns[i]),
    ensures
        seen_covers(ns, before.insert(position, i as usize), i + 1),
{
    let x = ns[i];
    let seen = before.insert(position, i as usize);
    lemma_insert_index(before, position, i as usize);
    assert forall|k: int| position <= k < before.len() implies name_order(ns[before[k] as int], x)
        > 0 by {
        let q = ns[before[k] as int];
        lemma_name_order_at(q, x);
        if q == x {
            let jj = before[k] as int;
            assert(ns.subrange(0, i)[jj] == q);
        }
    }
    assert(seen_sorted(ns, seen)) by {
        let names_before = seen_names(ns, before);
        let names_after = seen_names(ns, seen);
        assert(names_after =~= names_before.insert(position, x));
        lemma_strict_insert(names_before, x, position);
    }
    assert forall|j: int| #![trigger ns[j]] 0 <= j < i + 1 implies exists|k: int|
        0 <= k < seen.len() && #[trigger] ns[seen[k] as int] == ns[j] by {
        if j == i {
            assert(seen[position] == i);
        } else {
            let k = choose|k: int| 0 <= k < before.len() && #[trigger] ns[before[k] as int] == ns[j];
            if k < position {
                assert(seen[k] == before[k]);
            } else {
                assert(seen[k + 1] == before[k]);
            }
        }
    }
}

/// Record the spelling at position `i` unless an earlier position has it.
pub fn record_spelling<T: Spelled>(items: &[T], seen: &mut Vec<usize>, i: usize) -> (fresh: bool)
    requires
        i < items@.len(),
        seen_covers(spelled(items@), old(seen)@, i as int),
    ensures
        fresh == !spelled(items@).subrange(0, i as int).contains(spelled(items@)[i as int]),
        fresh ==> seen_covers(spelled(items@), final(seen)@, i + 1),
{
    let ghost ns = spelled(items@);
    let name = items[i].spelling();
    let position = lower_bound(items, seen, name);
    let duplicate = if position < seen.len() {
        items[seen[position]].spelling().same(name)
    } else {
        false
    };
    proof {
        lemma_duplicate_check(ns, seen@, i as int, position as int, duplicate);
    }
    if duplicate {
        return false;
    }
    let ghost before = seen@;
    seen.insert(position, i);
    proof {
        assert(seen@ =~= before.insert(position as int, i));
        lemma_seen_insert(ns, before, i as int, position as int);
    }
    true
}

/// An empty set of positions covers the empty prefix.
pub proof fn lemma_seen_empty(ns: Seq<Seq<char>>)
    ensures
        seen_covers(ns, Seq::empty(), 0),
{
    assert(seen_names(ns, Seq::empty()) =~= Seq::<Seq<char>>::empty());
}

} // verus!
