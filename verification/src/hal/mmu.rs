//! Address and frame types, mapping flags, and the frame-provider
//! callback of the memory management unit interface.
use vstd::prelude::*;

verus! {

/// Page size used by the MMU: 4 KiB.
pub const PAGE_SIZE: usize = 4096;

/// Bit of the `WRITE` mapping flag: the mapping is writable.
pub const WRITE_BIT: u32 = 1;
/// Bit of the `EXECUTE` mapping flag: the mapping is executable.
pub const EXECUTE_BIT: u32 = 2;
/// Bit of the `USER` mapping flag: the mapping is accessible from user mode.
pub const USER_BIT: u32 = 4;
/// Bit of the `DEVICE` mapping flag: the mapping targets device memory.
pub const DEVICE_BIT: u32 = 8;
/// Bit of the `GLOBAL` mapping flag: the mapping is not scoped to an ASID.
pub const GLOBAL_BIT: u32 = 16;

/// A virtual address.
#[derive(Copy, Clone, Debug, Default, PartialEq, Eq, Structural, PartialOrd, Ord, Hash)]
pub struct VirtAddr(pub usize);

/// A physical address.
#[derive(Copy, Clone, Debug, Default, PartialEq, Eq, Structural, PartialOrd, Ord, Hash)]
pub struct PhysAddr(pub usize);

/// A [`PAGE_SIZE`]-aligned physical address: the unit of physical memory
/// the MMU works with. It can only be built through
/// [`PhysFrame::from_aligned`], which checks the alignment.
#[derive(Copy, Clone, Debug, PartialEq, Eq, Structural, PartialOrd, Ord, Hash)]
pub struct PhysFrame(PhysAddr);

impl PhysFrame {
    /// The frame's base address.
    pub closed spec fn base(self) -> usize {
        self.0.0
    }

    /// A frame's base address is page-aligned.
    pub closed spec fn aligned(self) -> bool {
        self.0.0 % PAGE_SIZE == 0
    }

    /// Construct a frame from a page-aligned physical address; `None` when
    /// `addr` is not aligned to [`PAGE_SIZE`].
    pub fn from_aligned(addr: PhysAddr) -> (r: Option<PhysFrame>)
        ensures
            r is Some <==> addr.0 % PAGE_SIZE == 0,
            r matches Some(f) ==> f.base() == addr.0 && f.aligned(),
    {
        if addr.0 % PAGE_SIZE == 0 {
            Some(PhysFrame(addr))
        } else {
            None
        }
    }

    /// The physical address at the base of this frame.
    pub fn addr(self) -> (r: PhysAddr)
        ensures
            r.0 == self.base(),
    {
        self.0
    }

    /// The frame's base address as a raw `usize`.
    pub fn as_usize(self) -> (r: usize)
        ensures
            r == self.base(),
    {
        self.0.0
    }
}

/// Access and attribute flags for a mapping. Read permission is implicit.
#[derive(Copy, Clone, Debug, Default, PartialEq, Eq, Structural)]
pub struct MappingFlags(u32);

impl MappingFlags {
    /// The raw bit pattern.
    pub closed spec fn bits(self) -> u32 {
        self.0
    }

    /// Every flag of `other` is set in `self`.
    pub open spec fn includes(self, other: MappingFlags) -> bool {
        self.bits() & other.bits() == other.bits()
    }

    /// No flags set: kernel-only, read-only, normal-cached, non-global.
    pub fn empty() -> (r: MappingFlags)
        ensures
            r.bits() == 0,
    {
        MappingFlags(0)
    }

    /// The `WRITE` flag alone.
    pub fn write() -> (r: MappingFlags)
        ensures
            r.bits() == WRITE_BIT,
    {
        MappingFlags(WRITE_BIT)
    }

    /// The `EXECUTE` flag alone.
    pub fn execute() -> (r: MappingFlags)
        ensures
            r.bits() == EXECUTE_BIT,
    {
        MappingFlags(EXECUTE_BIT)
    }

    /// The `USER` flag alone.
    pub fn user() -> (r: MappingFlags)
        ensures
            r.bits() == USER_BIT,
    {
        MappingFlags(USER_BIT)
    }

    /// The `DEVICE` flag alone.
    pub fn device() -> (r: MappingFlags)
        ensures
            r.bits() == DEVICE_BIT,
    {
        MappingFlags(DEVICE_BIT)
    }

    /// The `GLOBAL` flag alone.
    pub fn global() -> (r: MappingFlags)
        ensures
            r.bits() == GLOBAL_BIT,
    {
        MappingFlags(GLOBAL_BIT)
    }

    /// Construct a flag set from raw bits, kept as given.
    pub fn from_raw(bits: u32) -> (r: MappingFlags)
        ensures
            r.bits() == bits,
    {
        MappingFlags(bits)
    }

    /// Return the raw bit pattern.
    pub fn raw(self) -> (r: u32)
        ensures
            r == self.bits(),
    {
        self.0
    }

    /// Return `true` if every flag in `other` is set in `self`.
    pub fn contains(self, other: MappingFlags) -> (r: bool)
        ensures
            r == self.includes(other),
    {
        (self.0 & other.0) == other.0
    }

    /// Return the bitwise union of two flag sets.
    pub fn union(self, other: MappingFlags) -> (r: MappingFlags)
        ensures
            r.bits() == self.bits() | other.bits(),
    {
        MappingFlags(self.0 | other.0)
    }

    /// Return the bitwise intersection of two flag sets.
    pub fn intersection(self, other: MappingFlags) -> (r: MappingFlags)
        ensures
            r.bits() == self.bits() & other.bits(),
    {
        MappingFlags(self.0 & other.0)
    }

    /// Return `self` with every flag in `other` cleared.
    pub fn difference(self, other: MappingFlags) -> (r: MappingFlags)
        ensures
            r.bits() == self.bits() & !other.bits(),
    {
        MappingFlags(self.0 & !other.0)
    }

    /// Return `true` if no flags are set.
    pub fn is_empty(self) -> (r: bool)
        ensures
            r == (self.bits() == 0),
    {
        self.0 == 0
    }
}

/// The flag set holding the bits of both arguments.
pub closed spec fn flags_union(a: MappingFlags, b: MappingFlags) -> MappingFlags {
    MappingFlags(a.0 | b.0)
}

/// The flag set holding the bits common to both arguments.
pub closed spec fn flags_intersection(a: MappingFlags, b: MappingFlags) -> MappingFlags {
    MappingFlags(a.0 & b.0)
}

impl core::ops::BitOr for MappingFlags {
    type Output = MappingFlags;

    fn bitor(self, rhs: MappingFlags) -> (r: MappingFlags)
        ensures
            r.bits() == self.bits() | rhs.bits(),
    {
        self.union(rhs)
    }
}

impl vstd::std_specs::ops::BitOrSpecImpl for MappingFlags {
    open spec fn obeys_bitor_spec() -> bool {
        true
    }

    open spec fn bitor_req(self, rhs: MappingFlags) -> bool {
        true
    }

    open spec fn bitor_spec(self, rhs: MappingFlags) -> MappingFlags {
        flags_union(self, rhs)
    }
}

impl core::ops::BitAnd for MappingFlags {
    type Output = MappingFlags;

    fn bitand(self, rhs: MappingFlags) -> (r: MappingFlags)
        ensures
            r.bits() == self.bits() & rhs.bits(),
    {
        self.intersection(rhs)
    }
}

impl vstd::std_specs::ops::BitAndSpecImpl for MappingFlags {
    open spec fn obeys_bitand_spec() -> bool {
        true
    }

    open spec fn bitand_req(self, rhs: MappingFlags) -> bool {
        true
    }

    open spec fn bitand_spec(self, rhs: MappingFlags) -> MappingFlags {
        flags_intersection(self, rhs)
    }
}

impl core::ops::BitOrAssign for MappingFlags {
    fn bitor_assign(&mut self, rhs: MappingFlags)
        ensures
            final(self).bits() == old(self).bits() | rhs.bits(),
    {
        *self = self.union(rhs);
    }
}

/// A flag set is its bits: two sets with the same bits are equal.
pub proof fn lemma_bits_determine_flags(a: MappingFlags, b: MappingFlags)
    requires
        a.bits() == b.bits(),
    ensures
        a == b,
{
}

/// The union includes both operands; the intersection is included in
/// both; the difference keeps no flag of the removed set.
pub proof fn lemma_flag_set_operations(
    a: MappingFlags,
    b: MappingFlags,
    u: MappingFlags,
    i: MappingFlags,
    d: MappingFlags,
)
    requires
        u.bits() == a.bits() | b.bits(),
        i.bits() == a.bits() & b.bits(),
        d.bits() == a.bits() & !b.bits(),
    ensures
        u.includes(a),
        u.includes(b),
        a.includes(i),
        b.includes(i),
        a.includes(d),
        d.bits() & b.bits() == 0,
{
    let (x, y) = (a.bits(), b.bits());
    assert((x | y) & x == x) by (bit_vector);
    assert((x | y) & y == y) by (bit_vector);
    assert(x & (x & y) == x & y) by (bit_vector);
    assert(y & (x & y) == x & y) by (bit_vector);
    assert(x & (x & !y) == x & !y) by (bit_vector);
    assert((x & !y) & y == 0) by (bit_vector);
}

/// Error returned by MMU operations.
#[non_exhaustive]
#[derive(Copy, Clone, Debug, PartialEq, Eq, Structural)]
pub enum MmuError {
    /// The target virtual address is already mapped in this address space.
    AlreadyMapped,
    /// The target virtual address is not mapped in this address space.
    NotMapped,
    /// The provided address is not aligned as the operation requires.
    MisalignedAddress,
    /// A frame could not be obtained from the supplied [`FrameProvider`].
    OutOfFrames,
    /// The requested [`MappingFlags`] are invalid for this operation.
    InvalidFlags,
}

/// Source of zero-initialised frames for intermediate translation tables.
pub trait FrameProvider {
    /// Allocate a zero-initialised frame, or `None` when none is left.
    fn alloc_frame(&mut self) -> Option<PhysFrame>;
}

} // verus!
