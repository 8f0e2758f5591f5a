//! The ways in which a memory operation can be refused.

use vstd::prelude::*;

verus! {

/// Why a memory operation was refused.
#[derive(Clone, Copy, Debug, PartialEq, Eq, Structural)]
pub enum MemError {
    /// An address that has to start a page does not.
    InvalidAlignment,
    /// A permission set that is empty or names unknown bits.
    InvalidPermissions,
    /// The requested pages intersect a memory area that already exists.
    Overlap,
    /// A page that has to be mapped (and accessible) is not.
    NotMapped,
    /// No free physical frame is left.
    OutOfMemory,
    /// The page already has an entry in the page table.
    AlreadyMapped,
}

} // verus!
