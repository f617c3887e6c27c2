//! Asking for the next model to be written to a file.
use vstd::prelude::*;

verus! {

/// Where the next model goes, if anywhere.
#[derive(Debug)]
pub struct ExportSlot {
    pub target: Option<String>,
}

/// Asks for the next model to be written.
pub fn request(slot: &mut ExportSlot, path: String)
    ensures
        final(slot).target == Some(path),
{
    slot.target = Some(path);
}

/// Takes what was asked for, so that only one model is written.
pub fn take(slot: &mut ExportSlot) -> (r: Option<String>)
    ensures
        r == old(slot).target,
        final(slot).target is None,
{
    slot.target.take()
}

} // verus!
