//! Access rights attached to a mapped page.

use vstd::prelude::*;
use crate::error::MemError;

verus! {

/// Bit that grants read access in a permission bit-set.
pub const PERM_READ: usize = 1;

/// Bit that grants write access in a permission bit-set.
pub const PERM_WRITE: usize = 2;

/// Bit that grants execute access in a permission bit-set.
pub const PERM_EXEC: usize = 4;

/// All bits that a permission bit-set may hold.
pub const PERM_MASK: usize = 7;

/// The rights that a page table entry grants.
#[derive(Clone, Copy, Debug, PartialEq, Eq, Structural)]
pub struct Permissions {
    pub read: bool,
    pub write: bool,
    pub execute: bool,
    /// Whether code running on behalf of the task may touch the page at all.
    pub user: bool,
}

/// Whether `bits` is a permission bit-set that a mapping request may carry:
/// at least one of read, write, execute, and nothing else.
pub open spec fn valid_perm_bits(bits: usize) -> bool {
    bits != 0 && bits & !PERM_MASK == 0
}

/// The rights of a user mapping requested with the bit-set `bits`.
pub open spec fn perms_of_bits(bits: usize) -> Permissions {
    Permissions {
        read: bits & PERM_READ != 0,
        write: bits & PERM_WRITE != 0,
        execute: bits & PERM_EXEC != 0,
        user: true,
    }
}

impl Permissions {
    /// Decodes the bit-set of a mapping request into the rights of a user
    /// page. An empty set and a set with unknown bits are both refused.
    pub fn from_bits(bits: usize) -> (r: Result<Permissions, MemError>)
        ensures
            r is Ok <==> 1 <= bits <= 7,
            valid_perm_bits(bits) ==> r == Ok::<Permissions, MemError>(perms_of_bits(bits)),
            !valid_perm_bits(bits) ==> r == Err::<Permissions, MemError>(
                MemError::InvalidPermissions,
            ),
    {
        proof {
            lemma_valid_perm_bits(bits);
        }
        if bits == 0 || bits & !PERM_MASK != 0 {
            Err(MemError::InvalidPermissions)
        } else {
            Ok(
                Permissions {
                    read: bits & PERM_READ != 0,
                    write: bits & PERM_WRITE != 0,
                    execute: bits & PERM_EXEC != 0,
                    user: true,
                },
            )
        }
    }

    /// Whether these rights let user code write the page.
    pub open spec fn user_writable(self) -> bool {
        self.user && self.write
    }

    /// Whether these rights let user code read the page.
    pub open spec fn user_readable(self) -> bool {
        self.user && self.read
    }
}

/// A valid permission bit-set is one of the seven values from 1 to 7.
pub proof fn lemma_valid_perm_bits(bits: usize)
    ensures
        valid_perm_bits(bits) <==> 1 <= bits <= 7,
{
    assert((bits != 0 && bits & !7usize == 0) <==> (1 <= bits && bits <= 7)) by (bit_vector);
}

} // verus!
