//! Staging and committing an identity-preserving operational rename.

use vstd::prelude::*;

use crate::arrangement::{arranged, in_order};
use crate::consistency::{consistency_fault, consistent};
use crate::duplicate::ExactCopy;
use crate::error::{ErrorV, NameTableError};
use crate::request::{RenameRequest, RenameRequestV};
use crate::root_order::root_laws;
use crate::seal::history_full;
use crate::stage::receipt_index;
use crate::state::{
    HeadV, ModuleTableHead, ModuleTableSnapshot, OperationReceipt, ReceiptV, RenameReceipt,
    RenameReceiptV, SnapshotV, TableMutability, copy_names, same_mutability, spellings,
};
use crate::table::{
    NameTable, TableV, current_snapshot_spec, head_index, head_views, local_of, receipt_views,
    same_address, snapshot_views,
};
use crate::transaction::{StagedRename, StagedRenameV};

verus! {

broadcast use {
    crate::identity::reveal_local_view,
    crate::identity::reveal_address_view,
    crate::identity::reveal_id_view,
    crate::state::reveal_head_view,
    crate::state::reveal_snapshot_view,
    crate::state::reveal_revision_view,
    crate::state::reveal_digest_view,
    crate::state::reveal_generation_view,
    crate::state::reveal_key_view,
    crate::state::reveal_rename_receipt_view,
    crate::request::reveal_rename_request_view,
    crate::name::reveal_name_view,
    crate::table::reveal_table_view,
};

/// The state and receipt a new rename stages before its final check: the
/// owning table must exist and be mutable, the target entry must be
/// allocated, and no other entry of the table may hold the new spelling. The
/// table's next generation replaces the one spelling; the target's identity
/// is unchanged.
pub open spec fn rename_staged_spec<Root>(t: TableV<Root>, request: RenameRequestV<Root>) -> Result<
    (TableV<Root>, RenameReceiptV<Root>),
    ErrorV<Root>,
> {
    let address = (request.target.0, request.target.1.drop_last());
    match head_index(t.heads, address) {
        None => Err(ErrorV::UnknownTable(address)),
        Some(h) => if t.heads[h].mutability == TableMutability::Immutable {
            Err(ErrorV::ImmutableTable(address))
        } else {
            match current_snapshot_spec(t, address) {
                Err(e) => Err(e),
                Ok(s) => {
                    let local = request.target.1.last()@ as int;
                    if local >= s.entries.len() {
                        Err(ErrorV::UnknownEncodedId(request.target))
                    } else if local_of(s.entries, request.new_spelling) is Some && local_of(
                        s.entries,
                        request.new_spelling,
                    )->0 != local {
                        Err(
                            ErrorV::SpellingCollision(
                                address,
                                request.new_spelling,
                                local_of(s.entries, request.new_spelling)->0,
                            ),
                        )
                    } else if s.generation >= u64::MAX || history_full(t) {
                        Err(ErrorV::TableGenerationExhausted(address))
                    } else if t.revision >= u64::MAX {
                        Err(ErrorV::StateRevisionExhausted)
                    } else {
                        let d = t.snapshots.len() as u64;
                        let g = (s.generation + 1) as u64;
                        let revision = (t.revision + 1) as u64;
                        let receipt = RenameReceiptV {
                            operation_key: request.operation_key,
                            target: request.target,
                            old_spelling: s.entries[local],
                            new_spelling: request.new_spelling,
                            resulting_generation: g,
                            resulting_revision: revision,
                        };
                        let t2 = TableV {
                            revision,
                            heads: t.heads.update(
                                h,
                                HeadV {
                                    address: t.heads[h].address,
                                    mutability: t.heads[h].mutability,
                                    generation: g,
                                    cursor: t.heads[h].cursor,
                                    current: d,
                                },
                            ),
                            snapshots: t.snapshots.push(
                                SnapshotV {
                                    address,
                                    generation: g,
                                    entries: s.entries.update(local, request.new_spelling),
                                    digest: d,
                                },
                            ),
                            receipts: t.receipts.push(ReceiptV::Rename(receipt)),
                        };
                        Ok((t2, receipt))
                    }
                },
            }
        },
    }
}

/// A new rename: the staged state, refused when it is not consistent, with
/// its heads in address order and its receipts in key order.
pub open spec fn rename_body_spec<Root: Ord>(t: TableV<Root>, request: RenameRequestV<Root>) -> Result<
    (TableV<Root>, RenameReceiptV<Root>),
    ErrorV<Root>,
> {
    match rename_staged_spec(t, request) {
        Err(e) => Err(e),
        Ok((t2, receipt)) => match consistency_fault(t2) {
            Some(e) => Err(e),
            None => Ok((arranged(t2), receipt)),
        },
    }
}

/// Staging a rename: a key already used by the same rename replays its
/// receipt against the unchanged state; a key used otherwise is a conflict;
/// a new key stages the rename.
pub open spec fn stage_rename_spec<Root: Ord>(t: TableV<Root>, request: RenameRequestV<Root>) -> Result<
    (TableV<Root>, RenameReceiptV<Root>),
    ErrorV<Root>,
> {
    match receipt_index(t.receipts, request.operation_key) {
        Some(i) => match t.receipts[i] {
            ReceiptV::Rename(r) => if r.target == request.target && r.new_spelling
                == request.new_spelling {
                Ok((t, r))
            } else {
                Err(ErrorV::IdempotencyConflict(request.operation_key))
            },
            ReceiptV::Seal(_) => Err(ErrorV::IdempotencyConflict(request.operation_key)),
        },
        None => rename_body_spec(t, request),
    }
}

impl<Root: Ord + Copy> NameTable<Root> {
    /// Purely stage one identity-preserving operational rename.
    #[verifier::rlimit(60)]
    pub fn stage_rename(&self, request: RenameRequest<Root>) -> (result: Result<
        StagedRename<Root>,
        NameTableError<Root>,
    >)
        requires
            root_laws::<Root>(),
        ensures
            match stage_rename_spec(self@, request@) {
                Ok((t, r)) => result matches Ok(staged) && staged@ == (StagedRenameV {
                    base: self@.revision,
                    state: t,
                    receipt: r,
                }),
                Err(e) => result matches Err(x) && x@ == e,
            },
    {
        let key = request.operation_key;
        if let Some(i) = self.find_receipt(key) {
            proof {
                assert(self@.receipts[i as int] == self.receipts@[i as int]@);
            }
            return match &self.receipts[i] {
                OperationReceipt::Rename(receipt) => {
                    if same_address(&receipt.target.child_table(), &request.target.child_table())
                        && receipt.new_spelling.same(&request.new_spelling) {
                        Ok(StagedRename::new(self.revision, self.exact_copy(), receipt.exact_copy()))
                    } else {
                        Err(NameTableError::IdempotencyConflict { operation_key: key })
                    }
                },
                OperationReceipt::Seal(_) => Err(
                    NameTableError::IdempotencyConflict { operation_key: key },
                ),
            };
        }
        let address = request.target.owning_table();
        // Mutability is intentionally checked before target entry lookup.
        let h = match self.find_head(&address) {
            Some(h) => h,
            None => return Err(NameTableError::UnknownTable { address }),
        };
        proof {
            assert(self@.heads[h as int] == self.heads@[h as int]@);
        }
        if same_mutability(self.heads[h].mutability, TableMutability::Immutable) {
            return Err(NameTableError::ImmutableTable { address });
        }
        let (_, p) = self.locate(&address)?;
        let current = &self.snapshots[p];
        proof {
            assert(self@.snapshots[p as int] == current@);
        }
        let local = request.target.local();
        let old_spelling = match current.resolve_local(local) {
            Some(name) => name.duplicate(),
            None => {
                return Err(
                    NameTableError::UnknownEncodedId { encoded_id: request.target.duplicate() },
                )
            },
        };
        if let Some(existing) = current.lookup_local(&request.new_spelling) {
            proof {
                crate::table::lemma_local_of(current@.entries, request.new_spelling@, existing@ as int);
            }
            if existing.value() != local.value() {
                return Err(
                    NameTableError::SpellingCollision {
                        address,
                        spelling: request.new_spelling.duplicate(),
                        existing,
                    },
                );
            }
        } else {
            proof {
                crate::table::lemma_local_of_none(current@.entries, request.new_spelling@);
            }
        }
        let generation = match current.generation.next() {
            Some(g) => g,
            None => return Err(NameTableError::TableGenerationExhausted { address }),
        };
        let len = self.snapshots.len();
        if !((len as u64) < u64::MAX) {
            return Err(NameTableError::TableGenerationExhausted { address });
        }
        let resulting_revision = match self.revision.next() {
            Some(revision) => revision,
            None => return Err(NameTableError::StateRevisionExhausted),
        };
        let digest = crate::state::SnapshotDigest(len as u64);
        let mut entries = copy_names(current.entries.as_slice());
        let ghost before_entries = spellings(entries@);
        entries.set(local.value() as usize, request.new_spelling.duplicate());
        proof {
            assert(spellings(entries@) =~= before_entries.update(
                local@ as int,
                request.new_spelling@,
            ));
        }
        let snapshot = ModuleTableSnapshot {
            address: address.duplicate(),
            generation,
            entries,
            digest,
        };
        let head = ModuleTableHead {
            address: self.heads[h].address.duplicate(),
            mutability: self.heads[h].mutability,
            generation,
            allocation_cursor: self.heads[h].allocation_cursor,
            current_snapshot: digest,
        };
        let receipt = RenameReceipt {
            operation_key: key,
            target: request.target.duplicate(),
            old_spelling,
            new_spelling: request.new_spelling.duplicate(),
            resulting_generation: generation,
            resulting_revision,
        };
        let stored = OperationReceipt::Rename(receipt.exact_copy());
        let mut staged = self.exact_copy();
        let ghost base = staged;
        staged.snapshots.push(snapshot);
        staged.heads.set(h, head);
        staged.revision = resulting_revision;
        staged.receipts.push(stored);
        proof {
            assert(head_views(staged.heads@) =~= head_views(base.heads@).update(h as int, head@));
            assert(snapshot_views(staged.snapshots@) =~= snapshot_views(base.snapshots@).push(
                snapshot@,
            ));
            assert(receipt_views(staged.receipts@) =~= receipt_views(base.receipts@).push(
                stored@,
            ));
        }
        staged.validate()?;
        let staged = staged.arrange();
        Ok(StagedRename::new(self.revision, staged, receipt))
    }

    /// Stage and commit one identity-preserving operational rename. A
    /// failure leaves the state unchanged.
    pub fn rename(&mut self, request: RenameRequest<Root>) -> (result: Result<
        RenameReceipt<Root>,
        NameTableError<Root>,
    >)
        requires
            root_laws::<Root>(),
        ensures
            match stage_rename_spec(old(self)@, request@) {
                Ok((t, r)) => result matches Ok(x) && x@ == r && final(self)@ == t,
                Err(e) => result matches Err(x) && x@ == e && *final(self) == *old(self),
            },
            consistent(old(self)@) ==> consistent(final(self)@),
            in_order(old(self)@) ==> in_order(final(self)@),
    {
        proof {
            if consistent(self@) && stage_rename_spec(self@, request@) is Ok {
                crate::laws::lemma_rename_keeps_consistency(self@, request@);
            }
            if in_order(self@) && stage_rename_spec(self@, request@) is Ok {
                crate::laws::lemma_rename_keeps_order(self@, request@);
            }
        }
        let staged = self.stage_rename(request)?;
        staged.commit(self)
    }
}

} // verus!
