//! Staging and committing a seal: idempotent replay, validation, table
//! provisioning and allocation, reference resolution and the receipt.

use vstd::prelude::*;

use crate::canonical::{
    RequestDigest, canon_decls, canonical_declarations, canonical_request,
    canonical_seal,
};
use crate::arrangement::{arranged, in_order};
use crate::changes::changed_tables_spec;
use crate::consistency::{consistency_fault, consistent, receipt_key};
use crate::duplicate::ExactCopy;
use crate::error::{ErrorV, NameTableError};
use crate::identity::{LocalEncodedId, TableAddress};
use crate::name::Name;
use crate::reference::resolve_refs_spec;
use crate::request::{ModulePath, RootDeclV, RootDeclaration, SealRequest, SealRequestV, root_decl_views};
use crate::root_order::root_laws;
use crate::seal::{apply_decls_spec, ensure_table_spec};
use crate::state::{
    OperationKey, OperationReceipt, ReceiptV, ResolvedName, ResolvedV, SealReceipt, SealReceiptV,
    resolved_views, spellings,
};
use crate::table::{NameTable, TableV, receipt_views};
use crate::transaction::{StagedSeal, StagedSealV};
use crate::validation::{validate_request, validate_roots_from};

verus! {

broadcast use {
    crate::identity::reveal_address_view,
    crate::state::reveal_revision_view,
    crate::state::reveal_key_view,
    crate::state::reveal_seal_receipt_view,
    crate::request::reveal_root_decl_view,
    crate::request::reveal_seal_request_view,
    crate::request::reveal_module_path_view,
    crate::canonical::reveal_request_digest_view,
    crate::table::reveal_table_view,
};

/// The first position at or after `i` of a receipt stored under `key`.
pub open spec fn receipt_from<Root>(receipts: Seq<ReceiptV<Root>>, key: Seq<u8>, i: int) -> Option<
    int,
>
    decreases receipts.len() - i,
{
    if i < 0 || i >= receipts.len() {
        None
    } else if receipt_key(receipts[i]) == key {
        Some(i)
    } else {
        receipt_from(receipts, key, i + 1)
    }
}

/// The position of the receipt stored under `key`, if any.
pub open spec fn receipt_index<Root>(receipts: Seq<ReceiptV<Root>>, key: Seq<u8>) -> Option<int> {
    receipt_from(receipts, key, 0)
}

/// Apply the first `n` submitted root graphs, in submission order: provision
/// each root table, then apply its declarations in canonical order.
pub open spec fn apply_roots_spec<Root>(t: TableV<Root>, roots: Seq<RootDeclV<Root>>, n: int) -> Result<
    (TableV<Root>, Seq<ResolvedV<Root>>),
    ErrorV<Root>,
>
    decreases n,
{
    if n <= 0 {
        Ok((t, Seq::empty()))
    } else {
        match apply_roots_spec(t, roots, n - 1) {
            Err(e) => Err(e),
            Ok((t1, r1)) => {
                let root = roots[n - 1];
                let address = (root.root, Seq::<LocalEncodedId>::empty());
                match ensure_table_spec(t1, address, root.mutability) {
                    Err(e) => Err(e),
                    Ok(t2) => match apply_decls_spec(
                        t2,
                        address,
                        (root.root, Seq::empty()),
                        canon_decls(root.declarations),
                    ) {
                        Err(e) => Err(e),
                        Ok((t3, r3)) => Ok((t3, r1 + r3)),
                    },
                }
            },
        }
    }
}

/// A failure among the first `k` roots is the failure of the first `n`.
pub proof fn lemma_roots_error<Root>(t: TableV<Root>, roots: Seq<RootDeclV<Root>>, k: int, n: int)
    requires
        0 < k <= n,
        apply_roots_spec(t, roots, k) is Err,
    ensures
        apply_roots_spec(t, roots, n) == apply_roots_spec(t, roots, k),
    decreases n - k,
{
    if n > k {
        lemma_roots_error(t, roots, k, n - 1);
    }
}

/// The state and receipt a new seal stages before its final check: validate
/// the request, apply every root graph, resolve the references in canonical
/// order, advance the revision and record the receipt.
pub open spec fn seal_staged_spec<Root: Ord + Copy>(t: TableV<Root>, request: SealRequestV<Root>) -> Result<
    (TableV<Root>, SealReceiptV<Root>),
    ErrorV<Root>,
> {
    let digest = canonical_request(request);
    match validate_roots_from(request.roots, 0) {
        Some(e) => Err(e),
        None => match apply_roots_spec(t, request.roots, request.roots.len() as int) {
            Err(e) => Err(e),
            Ok((t1, declarations)) => match resolve_refs_spec(
                t1,
                digest.references,
                digest.references.len() as int,
            ) {
                Err(e) => Err(e),
                Ok(references) => if t1.revision >= u64::MAX {
                    Err(ErrorV::StateRevisionExhausted)
                } else {
                    let revision = (t1.revision + 1) as u64;
                    let receipt = SealReceiptV {
                        operation_key: request.operation_key,
                        request_digest: digest,
                        changed_tables: changed_tables_spec(t, t1),
                        declarations,
                        references,
                        resulting_revision: revision,
                    };
                    Ok(
                        (
                            TableV {
                                revision,
                                heads: t1.heads,
                                snapshots: t1.snapshots,
                                receipts: t1.receipts.push(ReceiptV::Seal(receipt)),
                            },
                            receipt,
                        ),
                    )
                },
            },
        },
    }
}

/// A new seal: the staged state, refused when it is not consistent, with its
/// heads in address order and its receipts in key order.
pub open spec fn seal_body_spec<Root: Ord + Copy>(t: TableV<Root>, request: SealRequestV<Root>) -> Result<
    (TableV<Root>, SealReceiptV<Root>),
    ErrorV<Root>,
> {
    match seal_staged_spec(t, request) {
        Err(e) => Err(e),
        Ok((t2, receipt)) => match consistency_fault(t2) {
            Some(e) => Err(e),
            None => Ok((arranged(t2), receipt)),
        },
    }
}

/// Staging a seal: a key already used by an identical seal replays its
/// receipt against the unchanged state; a key used otherwise is a conflict;
/// a new key stages the seal.
pub open spec fn stage_seal_spec<Root: Ord + Copy>(
    t: TableV<Root>,
    request: SealRequestV<Root>,
) -> Result<(TableV<Root>, SealReceiptV<Root>), ErrorV<Root>> {
    match receipt_index(t.receipts, request.operation_key) {
        Some(i) => match t.receipts[i] {
            ReceiptV::Seal(r) => if r.request_digest == canonical_request(request) {
                Ok((t, r))
            } else {
                Err(ErrorV::IdempotencyConflict(request.operation_key))
            },
            ReceiptV::Rename(_) => Err(ErrorV::IdempotencyConflict(request.operation_key)),
        },
        None => seal_body_spec(t, request),
    }
}

impl<Root: Ord + Copy> NameTable<Root> {
    /// The position of the receipt stored under `key`.
    pub(crate) fn find_receipt(&self, key: OperationKey) -> (index: Option<usize>)
        ensures
            match receipt_index(self@.receipts, key@) {
                Some(i) => index matches Some(k) && k == i && i < self@.receipts.len(),
                None => index is None,
            },
    {
        let ghost rv = self@.receipts;
        let mut i: usize = 0;
        while i < self.receipts.len()
            invariant
                rv == self@.receipts,
                i <= rv.len(),
                receipt_index(rv, key@) == receipt_from(rv, key@, i as int),
            decreases rv.len() - i,
        {
            proof {
                assert(rv[i as int] == self.receipts@[i as int]@);
            }
            if self.receipts[i].operation_key().same(&key) {
                return Some(i);
            }
            i = i + 1;
        }
        None
    }

    /// Apply every submitted root graph in submission order.
    fn apply_roots(
        &mut self,
        roots: &[RootDeclaration<Root>],
        resolved: &mut Vec<ResolvedName<Root>>,
    ) -> (result: Result<(), NameTableError<Root>>)
        requires
            root_laws::<Root>(),
        ensures
            match apply_roots_spec(old(self)@, root_decl_views(roots@), roots@.len() as int) {
                Ok((t, r)) => result is Ok && final(self)@ == t && resolved_views(final(resolved)@)
                    == resolved_views(old(resolved)@) + r,
                Err(e) => result matches Err(x) && x@ == e,
            },
    {
        let ghost rv = root_decl_views(roots@);
        let ghost r0 = resolved_views(resolved@);
        let ghost mut done: Seq<ResolvedV<Root>> = Seq::empty();
        proof {
            assert(resolved_views(resolved@) =~= r0 + done);
        }
        let mut i: usize = 0;
        while i < roots.len()
            invariant
                root_laws::<Root>(),
                rv == root_decl_views(roots@),
                i <= roots@.len(),
                r0 == resolved_views(old(resolved)@),
                apply_roots_spec(old(self)@, rv, i as int) == Ok::<
                    (TableV<Root>, Seq<ResolvedV<Root>>),
                    ErrorV<Root>,
                >((self@, done)),
                resolved_views(resolved@) == r0 + done,
            decreases roots@.len() - i,
        {
            let root = &roots[i];
            proof {
                assert(rv[i as int] == root@);
            }
            let address = TableAddress::root(root.root);
            let ghost start = self@;
            match self.ensure_table(&address, root.mutability) {
                Ok(()) => {},
                Err(e) => {
                    proof {
                        lemma_roots_error(old(self)@, rv, i + 1, rv.len() as int);
                    }
                    return Err(e);
                },
            }
            let canonical = canonical_declarations(root.declarations.as_slice());
            let empty: Vec<Name> = Vec::new();
            let table_path = ModulePath::new(root.root, empty);
            proof {
                assert(spellings(empty@) =~= Seq::<Seq<char>>::empty());
            }
            let ghost before = resolved_views(resolved@);
            match self.apply_declarations(&address, &table_path, canonical.as_slice(), resolved) {
                Ok(()) => {},
                Err(e) => {
                    proof {
                        lemma_roots_error(old(self)@, rv, i + 1, rv.len() as int);
                    }
                    return Err(e);
                },
            }
            proof {
                let t2 = ensure_table_spec(start, address@, root.mutability)->Ok_0;
                let r3 = apply_decls_spec(
                    t2,
                    address@,
                    (root.root, Seq::empty()),
                    canon_decls(rv[i as int].declarations),
                )->Ok_0.1;
                assert(table_path@ == (root.root, Seq::<Seq<char>>::empty()));
                assert(resolved_views(resolved@) == before + r3);
                assert(r0 + (done + r3) =~= r0 + done + r3);
                done = done + r3;
            }
            i = i + 1;
        }
        Ok(())
    }

    /// Compute the digest of a seal's canonical graph.
    ///
    /// Root graphs, declarations in each table, nested modules and references
    /// are sorted canonically. The operation key is deliberately excluded.
    pub fn request_digest(&self, request: &SealRequest<Root>) -> (result: Result<
        RequestDigest<Root>,
        NameTableError<Root>,
    >)
        requires
            root_laws::<Root>(),
        ensures
            result matches Ok(d) && d@ == canonical_request(request@),
    {
        Ok(canonical_seal(request))
    }

    /// Purely stage one atomic nested seal. Dropping or rolling back the
    /// returned value cannot mutate `self`.
    #[verifier::rlimit(60)]
    pub fn stage_seal(&self, request: SealRequest<Root>) -> (result: Result<
        StagedSeal<Root>,
        NameTableError<Root>,
    >)
        requires
            root_laws::<Root>(),
        ensures
            match stage_seal_spec(self@, request@) {
                Ok((t, r)) => result matches Ok(staged) && staged@ == (StagedSealV {
                    base: self@.revision,
                    state: t,
                    receipt: r,
                }),
                Err(e) => result matches Err(x) && x@ == e,
            },
    {
        let request_digest = canonical_seal(&request);
        let key = request.operation_key;
        if let Some(i) = self.find_receipt(key) {
            proof {
                assert(self@.receipts[i as int] == self.receipts@[i as int]@);
            }
            return match &self.receipts[i] {
                OperationReceipt::Seal(receipt) => {
                    if receipt.request_digest.same(&request_digest) {
                        Ok(StagedSeal::new(self.revision, self.exact_copy(), receipt.exact_copy()))
                    } else {
                        Err(NameTableError::IdempotencyConflict { operation_key: key })
                    }
                },
                OperationReceipt::Rename(_) => Err(
                    NameTableError::IdempotencyConflict { operation_key: key },
                ),
            };
        }
        validate_request(&request)?;
        let mut staged = self.exact_copy();
        let mut declarations: Vec<ResolvedName<Root>> = Vec::new();
        proof {
            assert(resolved_views(declarations@) =~= Seq::<ResolvedV<Root>>::empty());
        }
        staged.apply_roots(request.roots.as_slice(), &mut declarations)?;
        let ghost applied = staged@;
        let mut references: Vec<ResolvedName<Root>> = Vec::new();
        proof {
            assert(resolved_views(references@) =~= Seq::<ResolvedV<Root>>::empty());
            assert(crate::request::reference_views(request_digest.references@)
                =~= request_digest@.references);
        }
        staged.resolve_references(request_digest.references.as_slice(), &mut references)?;
        let resulting_revision = match staged.revision.next() {
            Some(revision) => revision,
            None => return Err(NameTableError::StateRevisionExhausted),
        };
        let changed_tables = staged.changes_since(self);
        staged.revision = resulting_revision;
        let receipt = SealReceipt {
            operation_key: key,
            request_digest,
            changed_tables,
            declarations,
            references,
            resulting_revision,
        };
        let stored = OperationReceipt::Seal(receipt.exact_copy());
        let ghost before_receipts = staged.receipts@;
        staged.receipts.push(stored);
        proof {
            assert(receipt_views(staged.receipts@) =~= receipt_views(before_receipts).push(
                stored@,
            ));
        }
        staged.validate()?;
        let staged = staged.arrange();
        Ok(StagedSeal::new(self.revision, staged, receipt))
    }

    /// Stage and commit one atomic nested seal. A failure leaves the state
    /// unchanged.
    pub fn seal(&mut self, request: SealRequest<Root>) -> (result: Result<
        SealReceipt<Root>,
        NameTableError<Root>,
    >)
        requires
            root_laws::<Root>(),
        ensures
            match stage_seal_spec(old(self)@, request@) {
                Ok((t, r)) => result matches Ok(x) && x@ == r && final(self)@ == t,
                Err(e) => result matches Err(x) && x@ == e && *final(self) == *old(self),
            },
            consistent(old(self)@) ==> consistent(final(self)@),
            in_order(old(self)@) ==> in_order(final(self)@),
    {
        proof {
            if consistent(self@) && stage_seal_spec(self@, request@) is Ok {
                crate::laws::lemma_seal_keeps_consistency(self@, request@);
            }
            if in_order(self@) && stage_seal_spec(self@, request@) is Ok {
                crate::laws::lemma_seal_keeps_order(self@, request@);
            }
        }
        let staged = self.stage_seal(request)?;
        staged.commit(self)
    }
}

} // verus!
