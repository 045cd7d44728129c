//! The protection flags of `mmap` and their translation into map permissions.
use vstd::prelude::*;
use crate::mm::memory_set::MapPermission;

verus! {

/// The protection flags a user passes to `mmap`: read, write, execute.
#[derive(Clone, Copy, PartialEq, Eq, Structural, Debug)]
pub struct ProtFlags {
    bits: u8,
}

impl View for ProtFlags {
    type V = u8;

    closed spec fn view(&self) -> u8 {
        self.bits
    }
}

/// Bit of the readable flag.
pub const PROT_R: u8 = 1;
/// Bit of the writable flag.
pub const PROT_W: u8 = 2;
/// Bit of the executable flag.
pub const PROT_X: u8 = 4;

impl ProtFlags {
    /// The flag set with these bits, or `None` when a bit names no flag.
    pub fn from_bits(bits: u8) -> (r: Option<ProtFlags>)
        ensures
            bits < 8 ==> (r matches Some(f) && f@ == bits),
            bits >= 8 ==> r.is_none(),
    {
        proof {
            assert(bits & !7u8 == 0 <==> bits < 8) by (bit_vector);
        }
        if bits & !7 == 0 {
            Some(ProtFlags { bits })
        } else {
            None
        }
    }

    /// All three flags.
    pub fn all() -> (r: ProtFlags)
        ensures
            r@ == 7,
    {
        ProtFlags { bits: 7 }
    }

    /// The bits of the flag set.
    pub fn bits(&self) -> (r: u8)
        ensures
            r == self@,
    {
        self.bits
    }

    /// Whether every flag of `other` is set here.
    pub fn contains(&self, other: ProtFlags) -> (r: bool)
        ensures
            r == (self@ & other@ == other@),
    {
        (self.bits & other.bits) == other.bits
    }

    /// Whether no flag is set.
    pub fn is_empty(&self) -> (r: bool)
        ensures
            r == (self@ == 0),
    {
        self.bits == 0
    }
}

/// Parses the protection argument of `mmap`; `None` when it has a bit that
/// names none of the read, write and execute flags.
pub fn parse_prot_flags(prot: usize) -> (r: Option<ProtFlags>)
    ensures
        prot < 8 ==> (r matches Some(f) && f@ == prot),
        prot >= 8 ==> r.is_none(),
{
    if prot >= 8 {
        return None;
    }
    match ProtFlags::from_bits(prot as u8) {
        Some(flags) => {
            proof {
                let b = flags@;
                assert(b < 8 ==> 7u8 & b == b) by (bit_vector);
            }
            if ProtFlags::all().contains(flags) {
                Some(flags)
            } else {
                None
            }
        },
        None => None,
    }
}

/// The map permission for protection flags: user-accessible, plus read,
/// write and execute as the flags say.
pub open spec fn permission_of_prot(p: u8) -> u8 {
    (16u8 | (if p & 1 != 0 { 2u8 } else { 0u8 }) | (if p & 2 != 0 { 4u8 } else { 0u8 }) | (if p & 4 != 0 { 8u8 } else { 0u8 })) as u8
}

/// Setting the permission bits one flag after another gives
/// `permission_of_prot`.
proof fn lemma_permission_bits(p: u8)
    ensures
        ({
            let v1 = 16u8;
            let v2 = if p & 1u8 == 1u8 { v1 | 2u8 } else { v1 };
            let v3 = if p & 2u8 == 2u8 { v2 | 4u8 } else { v2 };
            let v4 = if p & 4u8 == 4u8 { v3 | 8u8 } else { v3 };
            v4 == permission_of_prot(p) & 30u8
        }),
{
    assert({
        let v1 = 16u8;
        let v2 = if p & 1u8 == 1u8 { v1 | 2u8 } else { v1 };
        let v3 = if p & 2u8 == 2u8 { v2 | 4u8 } else { v2 };
        let v4 = if p & 4u8 == 4u8 { v3 | 8u8 } else { v3 };
        let a: u8 = if p & 1u8 != 0 { 2u8 } else { 0u8 };
        let b: u8 = if p & 2u8 != 0 { 4u8 } else { 0u8 };
        let c: u8 = if p & 4u8 != 0 { 8u8 } else { 0u8 };
        v4 == (16u8 | a | b | c) & 30u8
    }) by (bit_vector);
}

impl From<ProtFlags> for MapPermission {
    /// Always user-accessible; readable, writable and executable as the flags say.
    fn from(flags: ProtFlags) -> (r: MapPermission) {
        let mut permission = MapPermission::U();
        if flags.contains(ProtFlags { bits: PROT_R }) {
            permission = permission.union(MapPermission::R());
        }
        if flags.contains(ProtFlags { bits: PROT_W }) {
            permission = permission.union(MapPermission::W());
        }
        if flags.contains(ProtFlags { bits: PROT_X }) {
            permission = permission.union(MapPermission::X());
        }
        proof {
            lemma_permission_bits(flags@);
            MapPermission::lemma_from_bits_spec(permission, permission_of_prot(flags@));
        }
        permission
    }
}

impl vstd::std_specs::convert::FromSpecImpl<ProtFlags> for MapPermission {
    open spec fn obeys_from_spec() -> bool {
        true
    }

    open spec fn from_spec(flags: ProtFlags) -> MapPermission {
        MapPermission::from_bits_spec(permission_of_prot(flags@))
    }
}

} // verus!
