//! Lookup-only resolution of textual references through module tables.

use vstd::prelude::*;

use crate::error::{ErrorV, NameTableError};
use crate::identity::{EncodedId, TableAddress};
use crate::request::{NameReference, PathV};
use crate::root_order::root_laws;
use crate::state::{ResolvedName, ResolvedV, resolved_views, spellings};
use crate::table::{AddressV, NameTable, TableV, head_index, lookup_spec};

verus! {

broadcast use {
    crate::identity::reveal_address_view,
    crate::identity::reveal_id_view,
    crate::request::reveal_module_path_view,
    crate::request::reveal_name_path_view,
    crate::request::reveal_reference_view,
};

/// One step of a reference walk: the child table of module `spelling` in
/// table `address`.
#[verifier::opaque]
pub open spec fn walk_one<Root>(
    t: TableV<Root>,
    address: AddressV<Root>,
    spelling: Seq<char>,
    r: PathV<Root>,
) -> Result<AddressV<Root>, ErrorV<Root>> {
    match lookup_spec(t, address, spelling) {
        Err(e) => Err(e),
        Ok(None) => Err(ErrorV::UnresolvedReference(r)),
        Ok(Some(id)) => if head_index(t.heads, id) is None {
            Err(ErrorV::UnresolvedReference(r))
        } else {
            Ok(id)
        },
    }
}

/// The table reached by following the first `n` module spellings of a
/// reference from its root table.
pub open spec fn walk_spec<Root>(t: TableV<Root>, r: PathV<Root>, n: int) -> Result<
    AddressV<Root>,
    ErrorV<Root>,
>
    decreases n,
{
    if n <= 0 {
        Ok((r.root, Seq::empty()))
    } else {
        match walk_spec(t, r, n - 1) {
            Err(e) => Err(e),
            Ok(address) => walk_one(t, address, r.modules[n - 1], r),
        }
    }
}

/// A failure of a shorter walk is the failure of a longer one.
pub proof fn lemma_walk_error<Root>(t: TableV<Root>, r: PathV<Root>, k: int, n: int)
    requires
        0 < k <= n,
        walk_spec(t, r, k) is Err,
    ensures
        walk_spec(t, r, n) == walk_spec(t, r, k),
    decreases n - k,
{
    if n > k {
        lemma_walk_error(t, r, k, n - 1);
    }
}

/// The identity a lookup-only reference resolves to, without allocating.
pub open spec fn resolve_reference_spec<Root>(t: TableV<Root>, r: PathV<Root>) -> Result<
    AddressV<Root>,
    ErrorV<Root>,
> {
    match walk_spec(t, r, r.modules.len() as int) {
        Err(e) => Err(e),
        Ok(address) => match lookup_spec(t, address, r.spelling) {
            Err(e) => Err(e),
            Ok(None) => Err(ErrorV::UnresolvedReference(r)),
            Ok(Some(id)) => Ok(id),
        },
    }
}

/// The results of the first `n` references, in order.
pub open spec fn resolve_refs_spec<Root>(t: TableV<Root>, refs: Seq<PathV<Root>>, n: int) -> Result<
    Seq<ResolvedV<Root>>,
    ErrorV<Root>,
>
    decreases n,
{
    if n <= 0 {
        Ok(Seq::empty())
    } else {
        match resolve_refs_spec(t, refs, n - 1) {
            Err(e) => Err(e),
            Ok(rs) => match resolve_reference_spec(t, refs[n - 1]) {
                Err(e) => Err(e),
                Ok(id) => Ok(rs.push(ResolvedV { path: refs[n - 1], encoded_id: id })),
            },
        }
    }
}

/// A failure among the first `k` references is the failure of the first `n`.
pub proof fn lemma_refs_error<Root>(t: TableV<Root>, refs: Seq<PathV<Root>>, k: int, n: int)
    requires
        0 < k <= n,
        resolve_refs_spec(t, refs, k) is Err,
    ensures
        resolve_refs_spec(t, refs, n) == resolve_refs_spec(t, refs, k),
    decreases n - k,
{
    if n > k {
        lemma_refs_error(t, refs, k, n - 1);
    }
}

impl<Root: Ord + Copy> NameTable<Root> {
    /// Follow one module spelling of a reference to its child table.
    fn walk_step(
        &self,
        address: &TableAddress<Root>,
        spelling: &crate::name::Name,
        reference: &NameReference<Root>,
    ) -> (result: Result<TableAddress<Root>, NameTableError<Root>>)
        requires
            root_laws::<Root>(),
        ensures
            match walk_one(self@, address@, spelling@, reference@) {
                Ok(a) => result matches Ok(r) && r@ == a,
                Err(e) => result matches Err(x) && x@ == e,
            },
    {
        proof {
            reveal(walk_one);
        }
        let module_id = match self.lookup(address, spelling)? {
            Some(id) => id,
            None => {
                return Err(NameTableError::UnresolvedReference { reference: reference.duplicate() });
            },
        };
        let child = module_id.child_table();
        if self.find_head(&child).is_none() {
            return Err(NameTableError::UnresolvedReference { reference: reference.duplicate() });
        }
        Ok(child)
    }

    /// Resolve one lookup-only reference through the staged tables.
    pub(crate) fn resolve_reference(&self, reference: &NameReference<Root>) -> (result: Result<
        EncodedId<Root>,
        NameTableError<Root>,
    >)
        requires
            root_laws::<Root>(),
        ensures
            match resolve_reference_spec(self@, reference@) {
                Ok(id) => result matches Ok(r) && r@ == id,
                Err(e) => result matches Err(x) && x@ == e,
            },
    {
        let ghost rv = reference@;
        let mut address = TableAddress::root(reference.0.table.root);
        let mut i: usize = 0;
        while i < reference.0.table.modules.len()
            invariant
                root_laws::<Root>(),
                rv == reference@,
                rv.modules.len() == reference.0.table.modules@.len(),
                i <= rv.modules.len(),
                walk_spec(self@, rv, i as int) == Ok::<AddressV<Root>, ErrorV<Root>>(address@),
            decreases reference.0.table.modules@.len() - i,
        {
            proof {
                assert(rv.modules[i as int] == reference.0.table.modules@[i as int]@);
            }
            match self.walk_step(&address, &reference.0.table.modules[i], reference) {
                Ok(next) => {
                    address = next;
                },
                Err(e) => {
                    proof {
                        lemma_walk_error(self@, rv, i + 1, rv.modules.len() as int);
                    }
                    return Err(e);
                },
            }
            i = i + 1;
        }
        match self.lookup(&address, &reference.0.spelling)? {
            Some(id) => Ok(id),
            None => Err(NameTableError::UnresolvedReference { reference: reference.duplicate() }),
        }
    }

    /// Resolve every reference, in order, appending the results.
    pub(crate) fn resolve_references(
        &self,
        references: &[NameReference<Root>],
        resolved: &mut Vec<ResolvedName<Root>>,
    ) -> (result: Result<(), NameTableError<Root>>)
        requires
            root_laws::<Root>(),
        ensures
            match resolve_refs_spec(
                self@,
                crate::request::reference_views(references@),
                references@.len() as int,
            ) {
                Ok(rs) => result is Ok && resolved_views(final(resolved)@) == resolved_views(
                    old(resolved)@,
                ) + rs,
                Err(e) => result matches Err(x) && x@ == e,
            },
    {
        let ghost refs = crate::request::reference_views(references@);
        let ghost r0 = resolved_views(resolved@);
        let ghost mut done: Seq<ResolvedV<Root>> = Seq::empty();
        proof {
            assert(resolved_views(resolved@) =~= r0 + done);
        }
        let mut i: usize = 0;
        while i < references.len()
            invariant
                root_laws::<Root>(),
                refs == crate::request::reference_views(references@),
                i <= references@.len(),
                r0 == resolved_views(old(resolved)@),
                resolve_refs_spec(self@, refs, i as int) == Ok::<Seq<ResolvedV<Root>>, ErrorV<Root>>(
                    done,
                ),
                resolved_views(resolved@) == r0 + done,
            decreases references@.len() - i,
        {
            let encoded_id = match self.resolve_reference(&references[i]) {
                Ok(id) => id,
                Err(e) => {
                    proof {
                        lemma_refs_error(self@, refs, i + 1, refs.len() as int);
                    }
                    return Err(e);
                },
            };
            let item = ResolvedName { path: references[i].0.duplicate(), encoded_id: encoded_id };
            proof {
                crate::state::reveal_resolved_view(item);
            }
            let ghost before = resolved_views(resolved@);
            resolved.push(item);
            proof {
                assert(refs[i as int] == references@[i as int]@);
                assert(references@[i as int]@ == references@[i as int].0@);
                assert(item.path@ == references@[i as int].0@);
                assert(item@ == ResolvedV { path: refs[i as int], encoded_id: encoded_id@ });
                assert(resolved_views(resolved@) =~= before.push(item@));
                assert(r0 + done.push(item@) =~= (r0 + done).push(item@));
                done = done.push(item@);
            }
            i = i + 1;
        }
        Ok(())
    }
}

} // verus!
