//! Root-fronted nested encoded identities.

use vstd::prelude::*;

use crate::error::EmptyEncodedId;

verus! {

/// One table-local encoded ID.
#[derive(Clone, Copy, Debug, PartialEq, Eq, Hash, PartialOrd, Ord)]
pub struct LocalEncodedId(pub(crate) u16);

impl View for LocalEncodedId {
    type V = u16;

    closed spec fn view(&self) -> u16 {
        self.0
    }
}

pub(crate) broadcast proof fn reveal_local_view(local: LocalEncodedId)
    ensures
        #[trigger] local@ == local.0,
{
}

impl LocalEncodedId {
    /// The local ID holding `value`.
    pub closed spec fn spec_new(value: u16) -> LocalEncodedId {
        LocalEncodedId(value)
    }
}

/// A local ID is determined by its integer.
pub proof fn lemma_local_spec_new()
    ensures
        forall|value: u16| #[trigger] LocalEncodedId::spec_new(value)@ == value,
        forall|local: LocalEncodedId| #[trigger] LocalEncodedId::spec_new(local@) == local,
{
}

impl LocalEncodedId {
    /// Construct a local encoded ID from its complete `u16` range.
    pub fn new(value: u16) -> (id: Self)
        ensures
            id@ == value,
    {
        LocalEncodedId(value)
    }

    /// The table-local integer.
    pub fn value(self) -> (value: u16)
        ensures
            value == self@,
    {
        self.0
    }
}

/// The structural address of one module-owned table.
///
/// An empty module chain addresses the root table selected by `root`. A
/// non-empty chain addresses the child table owned by that complete encoded ID.
#[derive(Clone, Debug, PartialEq, Eq, Hash, PartialOrd, Ord)]
pub struct TableAddress<Root> {
    pub(crate) root: Root,
    pub(crate) module_chain: Vec<LocalEncodedId>,
}

impl<Root> View for TableAddress<Root> {
    type V = (Root, Seq<LocalEncodedId>);

    closed spec fn view(&self) -> (Root, Seq<LocalEncodedId>) {
        (self.root, self.module_chain@)
    }
}

pub(crate) broadcast proof fn reveal_address_view<Root>(address: TableAddress<Root>)
    ensures
        #[trigger] address@ == (address.root, address.module_chain@),
{
}

/// Copy a chain of local IDs element by element.
pub(crate) fn copy_chain(chain: &[LocalEncodedId]) -> (copy: Vec<LocalEncodedId>)
    ensures
        copy@ == chain@,
{
    let mut copy: Vec<LocalEncodedId> = Vec::with_capacity(chain.len());
    let mut i: usize = 0;
    while i < chain.len()
        invariant
            i <= chain@.len(),
            copy@ == chain@.subrange(0, i as int),
        decreases chain@.len() - i,
    {
        copy.push(chain[i]);
        i = i + 1;
    }
    proof {
        assert(chain@.subrange(0, chain@.len() as int) == chain@);
    }
    copy
}

impl<Root> TableAddress<Root> {
    /// Address a root table.
    pub fn root(root: Root) -> (address: Self)
        ensures
            address@ == (root, Seq::<LocalEncodedId>::empty()),
    {
        TableAddress { root, module_chain: Vec::new() }
    }

    /// Construct an address from a root and zero or more owning-module IDs.
    pub fn new(root: Root, module_chain: Vec<LocalEncodedId>) -> (address: Self)
        ensures
            address@ == (root, module_chain@),
    {
        TableAddress { root, module_chain }
    }

    /// The root-table selector.
    pub fn root_variant(&self) -> (root: &Root)
        ensures
            *root == self@.0,
    {
        &self.root
    }

    /// The zero-or-more owning-module chain.
    pub fn module_chain(&self) -> (chain: &[LocalEncodedId])
        ensures
            chain@ == self@.1,
    {
        self.module_chain.as_slice()
    }

    /// Whether this is a root table.
    pub fn is_root(&self) -> (root: bool)
        ensures
            root == (self@.1.len() == 0),
    {
        self.module_chain.len() == 0
    }
}

impl<Root: Copy> TableAddress<Root> {
    /// An exact copy of this address.
    pub(crate) fn duplicate(&self) -> (copy: Self)
        ensures
            copy@ == self@,
    {
        TableAddress { root: self.root, module_chain: copy_chain(self.module_chain.as_slice()) }
    }

    /// Address the child table structurally owned by `local` in this table.
    pub fn child(&self, local: LocalEncodedId) -> (child: Self)
        ensures
            child@ == (self@.0, self@.1.push(local)),
    {
        let mut module_chain = copy_chain(self.module_chain.as_slice());
        module_chain.push(local);
        TableAddress { root: self.root, module_chain }
    }

    /// The encoded ID of one entry in this table.
    pub fn entry(&self, local: LocalEncodedId) -> (id: EncodedId<Root>)
        ensures
            id@ == (self@.0, self@.1.push(local)),
    {
        let mut chain = copy_chain(self.module_chain.as_slice());
        chain.push(local);
        EncodedId { root: self.root, chain }
    }
}

/// A durable root-fronted, non-empty encoded-ID chain.
#[derive(Debug, PartialEq, Eq, Hash, PartialOrd, Ord)]
pub struct EncodedId<Root> {
    pub(crate) root: Root,
    pub(crate) chain: Vec<LocalEncodedId>,
}

impl<Root> View for EncodedId<Root> {
    type V = (Root, Seq<LocalEncodedId>);

    closed spec fn view(&self) -> (Root, Seq<LocalEncodedId>) {
        (self.root, self.chain@)
    }
}

pub(crate) broadcast proof fn reveal_id_view<Root>(id: EncodedId<Root>)
    ensures
        #[trigger] id@ == (id.root, id.chain@),
{
}

impl<Root> EncodedId<Root> {
    #[verifier::type_invariant]
    pub(crate) closed spec fn non_empty(self) -> bool {
        self.chain@.len() > 0
    }

    /// Construct a durable identity, rejecting the empty chain reserved for a
    /// table address.
    pub fn new(root: Root, chain: Vec<LocalEncodedId>) -> (result: Result<Self, EmptyEncodedId>)
        ensures
            chain@.len() == 0 <==> result is Err,
            result matches Ok(id) ==> id@ == (root, chain@),
    {
        if chain.len() == 0 {
            return Err(EmptyEncodedId);
        }
        Ok(EncodedId { root, chain })
    }

    /// The root-table selector.
    pub fn root_variant(&self) -> (root: &Root)
        ensures
            *root == self@.0,
    {
        &self.root
    }

    /// The complete non-empty chain.
    pub fn chain(&self) -> (chain: &[LocalEncodedId])
        ensures
            chain@ == self@.1,
            chain@.len() > 0,
    {
        proof {
            use_type_invariant(self);
        }
        self.chain.as_slice()
    }

    /// The final table-local ID.
    pub fn local(&self) -> (local: LocalEncodedId)
        ensures
            local == self@.1.last(),
    {
        proof {
            use_type_invariant(self);
        }
        self.chain[self.chain.len() - 1]
    }
}

impl<Root: Copy> EncodedId<Root> {
    /// An exact copy of this identity.
    pub(crate) fn duplicate(&self) -> (copy: Self)
        ensures
            copy@ == self@,
    {
        proof {
            use_type_invariant(self);
        }
        EncodedId { root: self.root, chain: copy_chain(self.chain.as_slice()) }
    }

    /// The table containing the final entry.
    pub fn owning_table(&self) -> (address: TableAddress<Root>)
        ensures
            address@ == (self@.0, self@.1.drop_last()),
    {
        proof {
            use_type_invariant(self);
        }
        let mut module_chain = copy_chain(self.chain.as_slice());
        module_chain.pop();
        TableAddress::new(self.root, module_chain)
    }

    /// The child table structurally owned by this identity.
    pub fn child_table(&self) -> (address: TableAddress<Root>)
        ensures
            address@ == (self@.0, self@.1),
    {
        TableAddress::new(self.root, copy_chain(self.chain.as_slice()))
    }
}

impl<Root: Clone> Clone for EncodedId<Root> {
    fn clone(&self) -> (copy: Self)
        ensures
            copy@.1 == self@.1,
    {
        proof {
            use_type_invariant(self);
        }
        EncodedId { root: self.root.clone(), chain: copy_chain(self.chain.as_slice()) }
    }
}

} // verus!
