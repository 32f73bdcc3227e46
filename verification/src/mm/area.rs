//! Regions of an address space.
use crate::config::{PAGE_SIZE, TRAMPOLINE, TRAP_CONTEXT};
use vstd::prelude::*;

verus! {

/// What a mapping allows: read, write, execute, and access from user mode.
#[derive(Clone, Copy, Debug, PartialEq, Eq, Structural)]
pub struct MapPermission {
    pub r: bool,
    pub w: bool,
    pub x: bool,
    pub u: bool,
}

/// What stands behind the pages of a region.
#[derive(Clone, Copy, Debug, PartialEq, Eq, Structural)]
pub enum MapType {
    /// Kernel memory, mapped without frames of its own.
    Identical,
    /// Anonymous frames owned by the region.
    Framed,
    /// Frames owned by the region and filled from a file: page `i` of the
    /// region holds the bytes of `file` from `offset + i * PAGE_SIZE` on.
    FileBacked { file: usize, offset: usize, len: usize, flags: usize },
}

/// A region: the virtual pages from `start_vpn` up to, not including,
/// `end_vpn`, all with one permission and one kind of backing.
#[derive(Clone, Copy, Debug, PartialEq, Eq, Structural)]
pub struct MapArea {
    pub start_vpn: usize,
    pub end_vpn: usize,
    pub map_type: MapType,
    pub map_perm: MapPermission,
}

/// The number of the page that holds address `va`.
pub open spec fn vpn_of(va: usize) -> usize {
    va / 4096
}

/// The number of the first page that starts at or after address `va`.
pub open spec fn vpn_ceil_of(va: usize) -> usize {
    if va % 4096 == 0 {
        va / 4096
    } else {
        (va / 4096 + 1) as usize
    }
}

/// The number of the page that holds address `va`.
pub fn vpn_floor(va: usize) -> (vpn: usize)
    ensures
        vpn == vpn_of(va),
{
    va / PAGE_SIZE
}

/// The number of the first page that starts at or after address `va`.
pub fn vpn_ceil(va: usize) -> (vpn: usize)
    ensures
        vpn == vpn_ceil_of(va),
{
    if va % PAGE_SIZE == 0 {
        va / PAGE_SIZE
    } else {
        va / PAGE_SIZE + 1
    }
}

impl MapPermission {
    /// The permission of the trampoline page: read and execute, kernel only.
    pub open spec fn trampoline() -> Self {
        MapPermission { r: true, w: false, x: true, u: false }
    }

    /// The permission of the trap-context page: read and write, kernel only.
    pub open spec fn trap_context() -> Self {
        MapPermission { r: true, w: true, x: false, u: false }
    }

    /// The permission of user data: read and write from user mode.
    pub open spec fn user_data() -> Self {
        MapPermission { r: true, w: true, x: false, u: true }
    }
}

impl MapArea {
    /// Whether page `vpn` lies in the region.
    pub open spec fn contains(self, vpn: usize) -> bool {
        self.start_vpn <= vpn < self.end_vpn
    }

    /// Whether the region shares a page with the pages from `start` up to `end`.
    pub open spec fn overlaps(self, start: usize, end: usize) -> bool {
        self.start_vpn < end && start < self.end_vpn
    }

    /// The region of the trampoline page.
    pub open spec fn trampoline() -> Self {
        MapArea {
            start_vpn: (usize::MAX / 4096) as usize,
            end_vpn: (usize::MAX / 4096 + 1) as usize,
            map_type: MapType::Identical,
            map_perm: MapPermission::trampoline(),
        }
    }

    /// The region of the trap-context page.
    pub open spec fn trap_context() -> Self {
        MapArea {
            start_vpn: (usize::MAX / 4096 - 1) as usize,
            end_vpn: (usize::MAX / 4096) as usize,
            map_type: MapType::Framed,
            map_perm: MapPermission::trap_context(),
        }
    }

    /// The region of the trampoline page: one page at `TRAMPOLINE`.
    pub fn new_trampoline() -> (a: Self)
        ensures
            a == Self::trampoline(),
            a.start_vpn == vpn_of(TRAMPOLINE),
    {
        MapArea {
            start_vpn: TRAMPOLINE / PAGE_SIZE,
            end_vpn: TRAMPOLINE / PAGE_SIZE + 1,
            map_type: MapType::Identical,
            map_perm: MapPermission { r: true, w: false, x: true, u: false },
        }
    }

    /// The region of the trap-context page: one page at `TRAP_CONTEXT`.
    pub fn new_trap_context() -> (a: Self)
        ensures
            a == Self::trap_context(),
            a.start_vpn == vpn_of(TRAP_CONTEXT),
    {
        MapArea {
            start_vpn: TRAP_CONTEXT / PAGE_SIZE,
            end_vpn: TRAP_CONTEXT / PAGE_SIZE + 1,
            map_type: MapType::Framed,
            map_perm: MapPermission { r: true, w: true, x: false, u: false },
        }
    }
}

} // verus!
