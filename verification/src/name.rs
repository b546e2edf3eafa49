//! Exact spelling data stored by one module table.

use vstd::prelude::*;
use vstd::utf8::*;

use crate::order::{bytes_order, compare_bytes, lemma_bytes_order_laws, order_laws};

verus! {

/// One exact, case-sensitive spelling.
///
/// A name table performs no casing, normalization, derivation, or semantic
/// interpretation. Those operations belong to textual projection.
#[derive(Clone, Debug, PartialEq, Eq, Hash, PartialOrd, Ord)]
pub struct Name(pub(crate) String);

impl View for Name {
    type V = Seq<char>;

    closed spec fn view(&self) -> Seq<char> {
        self.0@
    }
}

pub(crate) broadcast proof fn reveal_name_view(name: Name)
    ensures
        #[trigger] name@ == name.0@,
{
}

/// The order in which spellings are allocated and canonically sorted: the
/// lexicographic order of their UTF-8 bytes.
#[verifier::opaque]
pub open spec fn name_order(a: Seq<char>, b: Seq<char>) -> int {
    bytes_order(encode_utf8(a), encode_utf8(b))
}

/// Name order as a spec closure.
pub open spec fn name_order_fn() -> spec_fn(Seq<char>, Seq<char>) -> int {
    |a: Seq<char>, b: Seq<char>| name_order(a, b)
}

pub proof fn lemma_name_order_laws()
    ensures
        order_laws(name_order_fn()),
{
    reveal(name_order);
    lemma_bytes_order_laws();
    let f = name_order_fn();
    let g = |a: Seq<u8>, b: Seq<u8>| bytes_order(a, b);
    assert forall|a: Seq<char>, b: Seq<char>| #![trigger f(a, b)] f(a, b) == -f(b, a) && -1 <= f(
        a,
        b,
    ) <= 1 && (f(a, b) == 0 <==> a == b) by {
        assert(g(encode_utf8(a), encode_utf8(b)) == f(a, b));
        assert(g(encode_utf8(b), encode_utf8(a)) == f(b, a));
        encode_utf8_decode_utf8(a);
        encode_utf8_decode_utf8(b);
    }
    assert forall|a: Seq<char>, b: Seq<char>, c: Seq<char>|
        #![trigger f(a, b), f(b, c)]
        f(a, b) <= 0 && f(b, c) <= 0 implies f(a, c) <= 0 by {
        assert(g(encode_utf8(a), encode_utf8(b)) == f(a, b));
        assert(g(encode_utf8(b), encode_utf8(c)) == f(b, c));
        assert(g(encode_utf8(a), encode_utf8(c)) == f(a, c));
    }
}

/// Sign laws of the name order at two spellings.
pub proof fn lemma_name_order_at(a: Seq<char>, b: Seq<char>)
    ensures
        name_order(a, b) == -name_order(b, a),
        -1 <= name_order(a, b) <= 1,
        name_order(a, b) == 0 <==> a == b,
{
    lemma_name_order_laws();
    assert(name_order_fn()(a, b) == name_order(a, b));
    assert(name_order_fn()(b, a) == name_order(b, a));
}

/// Transitivity of the name order.
pub proof fn lemma_name_order_trans(a: Seq<char>, b: Seq<char>, c: Seq<char>)
    requires
        name_order(a, b) <= 0,
        name_order(b, c) <= 0,
    ensures
        name_order(a, c) <= 0,
{
    lemma_name_order_laws();
    assert(name_order_fn()(a, b) == name_order(a, b));
    assert(name_order_fn()(b, c) == name_order(b, c));
    assert(name_order_fn()(a, c) == name_order(a, c));
}

impl Name {
    /// Construct an exact spelling.
    pub fn new(value: &str) -> (name: Self)
        ensures
            name@ == value@,
    {
        Name(value.to_owned())
    }

    /// The exact spelling as UTF-8 text.
    pub fn as_str(&self) -> (text: &str)
        ensures
            text@ == self@,
    {
        self.0.as_str()
    }

    /// The exact UTF-8 bytes used by canonical allocation ordering.
    pub fn as_bytes(&self) -> (bytes: &[u8])
        ensures
            bytes@ == encode_utf8(self@),
    {
        self.0.as_str().as_bytes()
    }

    /// An exact copy of this spelling.
    pub(crate) fn duplicate(&self) -> (copy: Self)
        ensures
            copy@ == self@,
    {
        Name(self.0.clone())
    }

    /// Whether two spellings are exactly equal.
    pub fn same(&self, other: &Name) -> (same: bool)
        ensures
            same == (self@ == other@),
    {
        self.0 == other.0
    }

    /// Compare two spellings in allocation order.
    pub fn compare(&self, other: &Name) -> (result: i8)
        ensures
            result == name_order(self@, other@),
    {
        reveal(name_order);
        compare_bytes(self.as_bytes(), other.as_bytes())
    }
}

/// The spelling whose text is exactly `text`.
pub closed spec fn name_of(text: Seq<char>) -> Name {
    choose|name: Name| name@ == text
}

impl<'a> From<&'a str> for Name {
    /// The exact spelling `value`; the same as `Name::new(value)`.
    fn from(value: &'a str) -> (name: Name)
        ensures
            name@ == value@,
    {
        Name::new(value)
    }
}

impl<'a> vstd::std_specs::convert::FromSpecImpl<&'a str> for Name {
    open spec fn obeys_from_spec() -> bool {
        false
    }

    open spec fn from_spec(value: &'a str) -> Name {
        name_of(value@)
    }
}

impl From<String> for Name {
    /// The exact spelling held by `value`.
    fn from(value: String) -> (name: Name)
        ensures
            name@ == value@,
    {
        Name(value)
    }
}

impl vstd::std_specs::convert::FromSpecImpl<String> for Name {
    open spec fn obeys_from_spec() -> bool {
        false
    }

    open spec fn from_spec(value: String) -> Name {
        name_of(value@)
    }
}

} // verus!
