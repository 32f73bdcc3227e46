//! The protection and flag words of `mmap`.
use crate::mm::area::MapPermission;
use vstd::prelude::*;

verus! {

/// Pages may be read.
pub const PROT_READ: usize = 1;

/// Pages may be written.
pub const PROT_WRITE: usize = 2;

/// Pages may be executed.
pub const PROT_EXEC: usize = 4;

/// Every bit a protection word may hold.
pub const PROT_ALL: usize = 7;

/// Changes are shared.
pub const MAP_SHARED: usize = 0x01;

/// Changes are private.
pub const MAP_PRIVATE: usize = 0x02;

/// The mapping must be placed at the address given.
pub const MAP_FIXED: usize = 0x10;

/// The mapping is not backed by a file.
pub const MAP_ANONYMOUS: usize = 0x20;

/// Every bit a flag word may hold.
pub const MAP_ALL: usize = 0x33;

/// The protection of a mapping, as `mmap` receives it.
#[derive(Clone, Copy, Debug, PartialEq, Eq, Structural)]
pub struct MmapProts {
    pub bits: usize,
}

/// The flags of a mapping, as `mmap` receives them.
#[derive(Clone, Copy, Debug, PartialEq, Eq, Structural)]
pub struct MmapFlags {
    pub bits: usize,
}

impl MmapProts {
    /// The protection with exactly these bits, if each of them is one of
    /// read, write and execute.
    pub fn from_bits(bits: usize) -> (r: Option<Self>)
        ensures
            r is Some <==> bits <= 7,
            r matches Some(p) ==> p.bits == bits,
    {
        if bits <= PROT_ALL {
            Some(MmapProts { bits })
        } else {
            None
        }
    }

    /// The permission of a user mapping with this protection.
    pub open spec fn permission(self) -> MapPermission {
        MapPermission {
            r: self.bits % 2 == 1,
            w: (self.bits / 2) % 2 == 1,
            x: (self.bits / 4) % 2 == 1,
            u: true,
        }
    }

    /// The permission of a user mapping with this protection.
    pub fn to_permission(&self) -> (p: MapPermission)
        ensures
            p == self.permission(),
    {
        MapPermission {
            r: self.bits % 2 == 1,
            w: (self.bits / 2) % 2 == 1,
            x: (self.bits / 4) % 2 == 1,
            u: true,
        }
    }
}

impl MmapFlags {
    /// The flags with exactly these bits, if each of them is one of shared,
    /// private, fixed and anonymous.
    pub fn from_bits(bits: usize) -> (r: Option<Self>)
        ensures
            r is Some <==> Self::valid_bits(bits),
            r matches Some(f) ==> f.bits == bits,
    {
        if bits < 64 && (bits / 4) % 4 == 0 {
            Some(MmapFlags { bits })
        } else {
            None
        }
    }

    /// Whether `bits` holds no bit but those of shared (1), private (2),
    /// fixed (16) and anonymous (32).
    pub open spec fn valid_bits(bits: usize) -> bool {
        bits < 64 && (bits / 4) % 4 == 0
    }

    /// Whether the mapping is not backed by a file.
    pub open spec fn anonymous(self) -> bool {
        (self.bits / 32) % 2 == 1
    }

    /// Whether the mapping is not backed by a file.
    pub fn is_anonymous(&self) -> (r: bool)
        ensures
            r == self.anonymous(),
    {
        (self.bits / 32) % 2 == 1
    }
}

} // verus!
