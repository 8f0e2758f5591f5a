//! The page table of one address space: which virtual page is backed by
//! which physical frame, and with what rights.

use vstd::prelude::*;
use vstd::std_specs::hash::group_hash_axioms;
use std::collections::HashMap;
use crate::error::MemError;
use crate::permissions::Permissions;

verus! {

broadcast use group_hash_axioms;

/// What the page table records for a mapped page. An entry exists exactly
/// while its page is mapped: being in the table is being valid.
#[derive(Clone, Copy, Debug, PartialEq, Eq, Structural)]
pub struct PageTableEntry {
    pub frame: usize,
    pub perms: Permissions,
}

/// A map from virtual page number to entry.
pub struct PageTable {
    entries: HashMap<usize, PageTableEntry>,
}

impl View for PageTable {
    type V = Map<usize, PageTableEntry>;

    closed spec fn view(&self) -> Map<usize, PageTableEntry> {
        self.entries@
    }
}

impl PageTable {
    /// A table in which no page is mapped.
    pub fn new() -> (t: PageTable)
        ensures
            t@ == Map::<usize, PageTableEntry>::empty(),
    {
        PageTable { entries: HashMap::new() }
    }

    /// Maps page `vpn` to `frame` with the rights `perms`. A page that is
    /// already mapped is left as it is and reported.
    pub fn map(&mut self, vpn: usize, frame: usize, perms: Permissions) -> (r: Result<
        (),
        MemError,
    >)
        ensures
            r is Ok <==> !old(self)@.contains_key(vpn),
            match r {
                Ok(_) => final(self)@ == old(self)@.insert(vpn, PageTableEntry { frame, perms }),
                Err(e) => e == MemError::AlreadyMapped && final(self)@ == old(self)@,
            },
    {
        if self.entries.contains_key(&vpn) {
            Err(MemError::AlreadyMapped)
        } else {
            self.entries.insert(vpn, PageTableEntry { frame, perms });
            Ok(())
        }
    }

    /// Removes the entry of page `vpn`. The frame it named is not released:
    /// that is up to the memory area that owns it.
    pub fn unmap(&mut self, vpn: usize) -> (r: Result<(), MemError>)
        ensures
            r is Ok <==> old(self)@.contains_key(vpn),
            r is Err ==> r == Err::<(), MemError>(MemError::NotMapped),
            final(self)@ == old(self)@.remove(vpn),
    {
        match self.entries.remove(&vpn) {
            Some(_) => Ok(()),
            None => Err(MemError::NotMapped),
        }
    }

    /// Looks page `vpn` up: its frame and rights if it is mapped.
    pub fn translate(&self, vpn: usize) -> (r: Option<(usize, Permissions)>)
        ensures
            r == (if self@.contains_key(vpn) {
                Some((self@[vpn].frame, self@[vpn].perms))
            } else {
                None
            }),
    {
        match self.entries.get(&vpn) {
            Some(e) => Some((e.frame, e.perms)),
            None => None,
        }
    }
}

} // verus!
