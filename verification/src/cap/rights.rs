//! Rights bitfield carried by every capability.
//!
//! Rights are narrowing-only: the table operations that produce a new
//! capability from an existing one may drop rights but never add them.
use vstd::prelude::*;

verus! {

/// Bit of the `DUPLICATE` right: the bearer may `cap_copy` the capability.
pub const DUPLICATE_BIT: u32 = 1;
/// Bit of the `DERIVE` right: the bearer may `cap_derive` a child.
pub const DERIVE_BIT: u32 = 2;
/// Bit of the `REVOKE` right: the bearer may `cap_revoke` its subtree.
pub const REVOKE_BIT: u32 = 4;
/// Bit of the `TRANSFER` right: the bearer may move the capability in an IPC message.
pub const TRANSFER_BIT: u32 = 8;
/// Bit of the `SEND` right on an endpoint.
pub const SEND_BIT: u32 = 16;
/// Bit of the `RECV` right on an endpoint.
pub const RECV_BIT: u32 = 32;
/// Bit of the `NOTIFY` right on a notification.
pub const NOTIFY_BIT: u32 = 64;
/// Union of every bit defined by this version of the rights bitfield.
pub const KNOWN_BITS: u32 = 127;

/// A set of rights a capability confers.
///
/// Only bits inside [`KNOWN_BITS`] are ever set: every constructor either
/// names a known right or masks its input.
#[derive(Copy, Clone, Debug, Default, PartialEq, Eq, Structural)]
pub struct CapRights(u32);

/// `a` holds every bit of `b`.
pub open spec fn bits_include(a: u32, b: u32) -> bool {
    a & b == b
}

impl CapRights {
    /// The raw bit pattern.
    pub closed spec fn bits(self) -> u32 {
        self.0
    }

    /// Every flag of `other` is set in `self`.
    pub open spec fn includes(self, other: CapRights) -> bool {
        bits_include(self.bits(), other.bits())
    }

    /// No bit outside [`KNOWN_BITS`] is set.
    pub open spec fn is_known(self) -> bool {
        self.bits() & !KNOWN_BITS == 0
    }

    /// No rights.
    pub fn empty() -> (r: CapRights)
        ensures
            r.bits() == 0,
    {
        CapRights(0)
    }

    /// The `DUPLICATE` right alone.
    pub fn duplicate() -> (r: CapRights)
        ensures
            r.bits() == DUPLICATE_BIT,
    {
        CapRights(DUPLICATE_BIT)
    }

    /// The `DERIVE` right alone.
    pub fn derive() -> (r: CapRights)
        ensures
            r.bits() == DERIVE_BIT,
    {
        CapRights(DERIVE_BIT)
    }

    /// The `REVOKE` right alone.
    pub fn revoke() -> (r: CapRights)
        ensures
            r.bits() == REVOKE_BIT,
    {
        CapRights(REVOKE_BIT)
    }

    /// The `TRANSFER` right alone.
    pub fn transfer() -> (r: CapRights)
        ensures
            r.bits() == TRANSFER_BIT,
    {
        CapRights(TRANSFER_BIT)
    }

    /// The `SEND` right alone.
    pub fn send() -> (r: CapRights)
        ensures
            r.bits() == SEND_BIT,
    {
        CapRights(SEND_BIT)
    }

    /// The `RECV` right alone.
    pub fn recv() -> (r: CapRights)
        ensures
            r.bits() == RECV_BIT,
    {
        CapRights(RECV_BIT)
    }

    /// The `NOTIFY` right alone.
    pub fn notify() -> (r: CapRights)
        ensures
            r.bits() == NOTIFY_BIT,
    {
        CapRights(NOTIFY_BIT)
    }

    /// Every right defined by this version of the bitfield.
    pub fn known() -> (r: CapRights)
        ensures
            r.bits() == KNOWN_BITS,
    {
        CapRights(KNOWN_BITS)
    }

    /// Build a rights set from raw bits, silently dropping every bit
    /// outside [`KNOWN_BITS`].
    pub fn from_raw(bits: u32) -> (r: CapRights)
        ensures
            r.bits() == bits & KNOWN_BITS,
    {
        CapRights(bits & KNOWN_BITS)
    }

    /// Return the raw bit pattern.
    pub fn raw(self) -> (r: u32)
        ensures
            r == self.bits(),
    {
        self.0
    }

    /// Return `true` if every flag in `other` is set in `self`.
    pub fn contains(self, other: CapRights) -> (r: bool)
        ensures
            r == self.includes(other),
    {
        (self.0 & other.0) == other.0
    }

    /// Return the bitwise union of two rights sets.
    pub fn union(self, other: CapRights) -> (r: CapRights)
        ensures
            r.bits() == self.bits() | other.bits(),
    {
        CapRights(self.0 | other.0)
    }

    /// Return the bitwise intersection of two rights sets.
    pub fn intersection(self, other: CapRights) -> (r: CapRights)
        ensures
            r.bits() == self.bits() & other.bits(),
    {
        CapRights(self.0 & other.0)
    }

    /// Return `self` with every flag in `other` cleared.
    pub fn difference(self, other: CapRights) -> (r: CapRights)
        ensures
            r.bits() == self.bits() & !other.bits(),
    {
        CapRights(self.0 & !other.0)
    }

    /// Return `true` if no flags are set.
    pub fn is_empty(self) -> (r: bool)
        ensures
            r == (self.bits() == 0),
    {
        self.0 == 0
    }
}

impl core::ops::BitOr for CapRights {
    type Output = CapRights;

    fn bitor(self, rhs: CapRights) -> (r: CapRights)
        ensures
            r.bits() == self.bits() | rhs.bits(),
    {
        self.union(rhs)
    }
}

impl vstd::std_specs::ops::BitOrSpecImpl for CapRights {
    open spec fn obeys_bitor_spec() -> bool {
        true
    }

    open spec fn bitor_req(self, rhs: CapRights) -> bool {
        true
    }

    open spec fn bitor_spec(self, rhs: CapRights) -> CapRights {
        rhs_union(self, rhs)
    }
}

impl core::ops::BitAnd for CapRights {
    type Output = CapRights;

    fn bitand(self, rhs: CapRights) -> (r: CapRights)
        ensures
            r.bits() == self.bits() & rhs.bits(),
    {
        self.intersection(rhs)
    }
}

impl vstd::std_specs::ops::BitAndSpecImpl for CapRights {
    open spec fn obeys_bitand_spec() -> bool {
        true
    }

    open spec fn bitand_req(self, rhs: CapRights) -> bool {
        true
    }

    open spec fn bitand_spec(self, rhs: CapRights) -> CapRights {
        rhs_intersection(self, rhs)
    }
}

impl core::ops::BitOrAssign for CapRights {
    fn bitor_assign(&mut self, rhs: CapRights)
        ensures
            final(self).bits() == old(self).bits() | rhs.bits(),
    {
        *self = self.union(rhs);
    }
}

/// The rights set holding the bits common to both arguments.
pub closed spec fn rhs_intersection(a: CapRights, b: CapRights) -> CapRights {
    CapRights(a.0 & b.0)
}

/// The rights set holding the bits of both arguments.
pub closed spec fn rhs_union(a: CapRights, b: CapRights) -> CapRights {
    CapRights(a.0 | b.0)
}

/// A rights set is its bits: two sets with the same bits are equal.
pub proof fn lemma_bits_determine_rights(a: CapRights, b: CapRights)
    requires
        a.bits() == b.bits(),
    ensures
        a == b,
{
}

/// Every rights set includes itself.
pub proof fn lemma_includes_reflexive(a: CapRights)
    ensures
        a.includes(a),
{
    let x = a.bits();
    assert(x & x == x) by (bit_vector);
}

/// Inclusion is transitive: narrowing twice is narrowing.
pub proof fn lemma_includes_transitive(a: CapRights, b: CapRights, c: CapRights)
    requires
        a.includes(b),
        b.includes(c),
    ensures
        a.includes(c),
{
    let (x, y, z) = (a.bits(), b.bits(), c.bits());
    assert(x & y == y && y & z == z ==> x & z == z) by (bit_vector);
}

/// The union includes both operands; the intersection is included in
/// both; the difference keeps no bit of the removed set.
pub proof fn lemma_set_operations(a: CapRights, b: CapRights, u: CapRights, i: CapRights, d: CapRights)
    requires
        u.bits() == a.bits() | b.bits(),
        i.bits() == a.bits() & b.bits(),
        d.bits() == a.bits() & !b.bits(),
    ensures
        u.includes(a),
        u.includes(b),
        a.includes(i),
        b.includes(i),
        a.includes(d),
        d.bits() & b.bits() == 0,
{
    let (x, y) = (a.bits(), b.bits());
    assert((x | y) & x == x) by (bit_vector);
    assert((x | y) & y == y) by (bit_vector);
    assert(x & (x & y) == x & y) by (bit_vector);
    assert(y & (x & y) == x & y) by (bit_vector);
    assert(x & (x & !y) == x & !y) by (bit_vector);
    assert((x & !y) & y == 0) by (bit_vector);
}

/// `from_raw` admits no reserved bit: whatever the raw input, the result
/// is a known rights set, and a right it holds is a known right.
pub proof fn lemma_from_raw_is_known(raw: u32, r: CapRights, other: CapRights)
    requires
        r.bits() == raw & KNOWN_BITS,
    ensures
        r.is_known(),
        r.includes(other) ==> other.is_known(),
{
    let (x, y) = (r.bits(), other.bits());
    assert(raw & 127u32 & !127u32 == 0) by (bit_vector);
    assert(x & !127u32 == 0 && x & y == y ==> y & !127u32 == 0) by (bit_vector);
}

} // verus!
