//! Pure staged operations with explicit commit and effect-free rollback.

use vstd::prelude::*;

use crate::error::{ErrorV, NameTableError};
use crate::state::{RenameReceipt, RenameReceiptV, SealReceipt, SealReceiptV, StateRevision};
use crate::table::{NameTable, TableV};

verus! {

broadcast use {
    crate::state::reveal_revision_view,
    crate::table::reveal_table_view,
};

/// The view of a staged seal: the revision it was staged against, the
/// complete resulting state and the receipt.
pub struct StagedSealV<Root> {
    pub base: u64,
    pub state: TableV<Root>,
    pub receipt: SealReceiptV<Root>,
}

/// A fully validated seal staged against one base revision.
pub struct StagedSeal<Root> {
    base_revision: StateRevision,
    state: NameTable<Root>,
    receipt: SealReceipt<Root>,
}

impl<Root> View for StagedSeal<Root> {
    type V = StagedSealV<Root>;

    closed spec fn view(&self) -> StagedSealV<Root> {
        StagedSealV { base: self.base_revision@, state: self.state@, receipt: self.receipt@ }
    }
}

impl<Root> StagedSeal<Root> {
    pub(crate) fn new(
        base_revision: StateRevision,
        state: NameTable<Root>,
        receipt: SealReceipt<Root>,
    ) -> (staged: Self)
        ensures
            staged@ == (StagedSealV { base: base_revision@, state: state@, receipt: receipt@ }),
    {
        StagedSeal { base_revision, state, receipt }
    }

    /// The successful receipt before commit.
    pub fn receipt(&self) -> (receipt: &SealReceipt<Root>)
        ensures
            receipt@ == self@.receipt,
    {
        &self.receipt
    }

    /// Commit only if the target still has the staged base revision.
    pub fn commit(self, target: &mut NameTable<Root>) -> (result: Result<
        SealReceipt<Root>,
        NameTableError<Root>,
    >)
        ensures
            old(target)@.revision == self@.base ==> (result matches Ok(r) && r@ == self@.receipt
                && final(target)@ == self@.state),
            old(target)@.revision != self@.base ==> (result matches Err(e) && e@
                == ErrorV::<Root>::StaleStage(self@.base, old(target)@.revision) && *final(target)
                == *old(target)),
    {
        if target.revision.0 != self.base_revision.0 {
            return Err(
                NameTableError::StaleStage { expected: self.base_revision, actual: target.revision },
            );
        }
        *target = self.state;
        Ok(self.receipt)
    }

    /// Discard the staged state without touching its base.
    pub fn rollback(self) {
    }
}

/// The view of a staged rename.
pub struct StagedRenameV<Root> {
    pub base: u64,
    pub state: TableV<Root>,
    pub receipt: RenameReceiptV<Root>,
}

/// A fully validated operational rename staged against one base revision.
pub struct StagedRename<Root> {
    base_revision: StateRevision,
    state: NameTable<Root>,
    receipt: RenameReceipt<Root>,
}

impl<Root> View for StagedRename<Root> {
    type V = StagedRenameV<Root>;

    closed spec fn view(&self) -> StagedRenameV<Root> {
        StagedRenameV { base: self.base_revision@, state: self.state@, receipt: self.receipt@ }
    }
}

impl<Root> StagedRename<Root> {
    pub(crate) fn new(
        base_revision: StateRevision,
        state: NameTable<Root>,
        receipt: RenameReceipt<Root>,
    ) -> (staged: Self)
        ensures
            staged@ == (StagedRenameV { base: base_revision@, state: state@, receipt: receipt@ }),
    {
        StagedRename { base_revision, state, receipt }
    }

    /// The successful receipt before commit.
    pub fn receipt(&self) -> (receipt: &RenameReceipt<Root>)
        ensures
            receipt@ == self@.receipt,
    {
        &self.receipt
    }

    /// Commit only if the target still has the staged base revision.
    pub fn commit(self, target: &mut NameTable<Root>) -> (result: Result<
        RenameReceipt<Root>,
        NameTableError<Root>,
    >)
        ensures
            old(target)@.revision == self@.base ==> (result matches Ok(r) && r@ == self@.receipt
                && final(target)@ == self@.state),
            old(target)@.revision != self@.base ==> (result matches Err(e) && e@
                == ErrorV::<Root>::StaleStage(self@.base, old(target)@.revision) && *final(target)
                == *old(target)),
    {
        if target.revision.0 != self.base_revision.0 {
            return Err(
                NameTableError::StaleStage { expected: self.base_revision, actual: target.revision },
            );
        }
        *target = self.state;
        Ok(self.receipt)
    }

    /// Discard the staged state without touching its base.
    pub fn rollback(self) {
    }
}

} // verus!
