//! Contract failures signalled by compiled code.
//!
//! Compiled code reports a failed contract assertion by recording
//! `(kind, function-name index, clause index)` and returning a sentinel; the
//! VM then takes the recorded error. Kinds: 0 requires, 1 ensures,
//! 2 invariant. The embedding program keeps one cell per thread.
use vstd::prelude::*;

verus! {

/// The value compiled code returns after recording a contract failure.
pub const CONTRACT_FAIL_SENTINEL: u64 = 0xFFFF_FFFF_FFFF_FFFF;

/// The slot a contract failure is recorded in until the VM takes it.
pub struct JitContractCell {
    slot: Option<(u8, u16, u16)>,
}

impl JitContractCell {
    /// What the cell holds.
    pub closed spec fn contents(&self) -> Option<(u8, u16, u16)> {
        self.slot
    }

    /// An empty cell.
    pub fn new() -> (c: JitContractCell)
        ensures
            c.contents() is None,
    {
        JitContractCell { slot: None }
    }

    /// Records a failure, overwriting any earlier one; each field is
    /// truncated to its width. Returns the sentinel.
    pub fn record(&mut self, kind: u64, fn_name_idx: u64, clause_idx: u64) -> (r: u64)
        ensures
            r == CONTRACT_FAIL_SENTINEL,
            final(self).contents() == Some((kind as u8, fn_name_idx as u16, clause_idx as u16)),
    {
        self.slot = Some((kind as u8, fn_name_idx as u16, clause_idx as u16));
        CONTRACT_FAIL_SENTINEL
    }
}

/// Takes the recorded failure out of the cell, leaving it empty.
pub fn take_jit_contract_error(cell: &mut JitContractCell) -> (r: Option<(u8, u16, u16)>)
    ensures
        r == old(cell).contents(),
        final(cell).contents() is None,
{
    let r = cell.slot;
    cell.slot = None;
    r
}

} // verus!
