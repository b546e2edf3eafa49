//! Exact copies of stored records, so that a staged state starts as a copy
//! of its base with the same view.

use vstd::prelude::*;

use crate::canonical::{CanonicalDeclaration, CanonicalRoot, RequestDigest};
use crate::identity::EncodedId;
use crate::order::views;
use crate::request::NameReference;
use crate::state::{
    ModuleTableHead, ModuleTableSnapshot, OperationReceipt, RenameReceipt, ResolvedName,
    SealReceipt, TableChange, copy_names,
};
use crate::table::{NameTable, head_views, receipt_views, snapshot_views};

verus! {

broadcast use {
    crate::identity::reveal_address_view,
    crate::identity::reveal_id_view,
    crate::state::reveal_resolved_view,
    crate::state::reveal_change_view,
    crate::state::reveal_seal_receipt_view,
    crate::state::reveal_rename_receipt_view,
    crate::state::reveal_key_view,
    crate::state::reveal_revision_view,
    crate::state::reveal_generation_view,
    crate::state::reveal_digest_view,
    crate::canonical::reveal_root_key_view,
    crate::canonical::reveal_decl_key_view,
    crate::canonical::reveal_request_digest_view,
    crate::table::reveal_table_view,
};

/// A record that can be copied exactly.
pub trait ExactCopy: View + Sized {
    fn exact_copy(&self) -> (copy: Self)
        ensures
            copy@ == self@,
    ;
}

/// Copy every record of a list exactly.
pub fn copy_all<T: ExactCopy>(items: &[T]) -> (copy: Vec<T>)
    ensures
        views(copy@) == views(items@),
{
    let mut copy: Vec<T> = Vec::with_capacity(items.len());
    let mut i: usize = 0;
    while i < items.len()
        invariant
            i <= items@.len(),
            views(copy@) == views(items@.subrange(0, i as int)),
        decreases items@.len() - i,
    {
        let ghost before = views(copy@);
        let item = items[i].exact_copy();
        copy.push(item);
        proof {
            assert(views(copy@) =~= before.push(item@));
            assert(views(items@.subrange(0, i + 1)) =~= views(items@.subrange(0, i as int)).push(
                items@[i as int]@,
            ));
        }
        i = i + 1;
    }
    proof {
        assert(items@.subrange(0, items@.len() as int) =~= items@);
    }
    copy
}

impl<Root: Copy> ExactCopy for ModuleTableHead<Root> {
    fn exact_copy(&self) -> (copy: Self) {
        self.duplicate()
    }
}

impl<Root: Copy> ExactCopy for ModuleTableSnapshot<Root> {
    fn exact_copy(&self) -> (copy: Self) {
        self.duplicate()
    }
}

impl<Root: Copy> ExactCopy for NameReference<Root> {
    fn exact_copy(&self) -> (copy: Self) {
        self.duplicate()
    }
}

impl<Root: Copy> ExactCopy for EncodedId<Root> {
    fn exact_copy(&self) -> (copy: Self) {
        self.duplicate()
    }
}

impl<Root: Copy> ExactCopy for CanonicalRoot<Root> {
    fn exact_copy(&self) -> (copy: Self) {
        CanonicalRoot { root: self.root, mutability: self.mutability }
    }
}

impl<Root: Copy> ExactCopy for CanonicalDeclaration<Root> {
    fn exact_copy(&self) -> (copy: Self) {
        CanonicalDeclaration {
            root: self.root,
            table_path: copy_names(self.table_path.as_slice()),
            spelling: self.spelling.duplicate(),
            child_mutability: self.child_mutability,
        }
    }
}

impl<Root: Copy> ExactCopy for RequestDigest<Root> {
    fn exact_copy(&self) -> (copy: Self) {
        RequestDigest {
            roots: copy_all(self.roots.as_slice()),
            declarations: copy_all(self.declarations.as_slice()),
            references: copy_all(self.references.as_slice()),
        }
    }
}

impl<Root: Copy> ExactCopy for TableChange<Root> {
    fn exact_copy(&self) -> (copy: Self) {
        TableChange {
            address: self.address.duplicate(),
            generation: self.generation,
            snapshot: self.snapshot,
        }
    }
}

impl<Root: Copy> ExactCopy for ResolvedName<Root> {
    fn exact_copy(&self) -> (copy: Self) {
        ResolvedName { path: self.path.duplicate(), encoded_id: self.encoded_id.duplicate() }
    }
}

impl<Root: Copy> ExactCopy for SealReceipt<Root> {
    fn exact_copy(&self) -> (copy: Self) {
        let changed_tables = copy_all(self.changed_tables.as_slice());
        let declarations = copy_all(self.declarations.as_slice());
        let references = copy_all(self.references.as_slice());
        let copy = SealReceipt {
            operation_key: self.operation_key,
            request_digest: self.request_digest.exact_copy(),
            changed_tables,
            declarations,
            references,
            resulting_revision: self.resulting_revision,
        };
        proof {
            assert(crate::state::change_views(copy.changed_tables@) =~= views(
                copy.changed_tables@,
            ));
            assert(crate::state::change_views(self.changed_tables@) =~= views(
                self.changed_tables@,
            ));
            assert(crate::state::resolved_views(copy.declarations@) =~= views(
                copy.declarations@,
            ));
            assert(crate::state::resolved_views(self.declarations@) =~= views(
                self.declarations@,
            ));
            assert(crate::state::resolved_views(copy.references@) =~= views(copy.references@));
            assert(crate::state::resolved_views(self.references@) =~= views(self.references@));
        }
        copy
    }
}

impl<Root: Copy> ExactCopy for RenameReceipt<Root> {
    fn exact_copy(&self) -> (copy: Self) {
        RenameReceipt {
            operation_key: self.operation_key,
            target: self.target.duplicate(),
            old_spelling: self.old_spelling.duplicate(),
            new_spelling: self.new_spelling.duplicate(),
            resulting_generation: self.resulting_generation,
            resulting_revision: self.resulting_revision,
        }
    }
}

impl<Root: Copy> ExactCopy for OperationReceipt<Root> {
    fn exact_copy(&self) -> (copy: Self) {
        match self {
            OperationReceipt::Seal(receipt) => OperationReceipt::Seal(receipt.exact_copy()),
            OperationReceipt::Rename(receipt) => OperationReceipt::Rename(receipt.exact_copy()),
        }
    }
}

impl<Root: Copy> ExactCopy for NameTable<Root> {
    fn exact_copy(&self) -> (copy: Self) {
        let copy = NameTable {
            revision: self.revision,
            heads: copy_all(self.heads.as_slice()),
            snapshots: copy_all(self.snapshots.as_slice()),
            receipts: copy_all(self.receipts.as_slice()),
        };
        proof {
            assert(head_views(copy.heads@) =~= views(copy.heads@));
            assert(head_views(self.heads@) =~= views(self.heads@));
            assert(snapshot_views(copy.snapshots@) =~= views(copy.snapshots@));
            assert(snapshot_views(self.snapshots@) =~= views(self.snapshots@));
            assert(receipt_views(copy.receipts@) =~= views(copy.receipts@));
            assert(receipt_views(self.receipts@) =~= views(self.receipts@));
        }
        copy
    }
}

} // verus!
