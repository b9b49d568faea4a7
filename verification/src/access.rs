//! Device types and access masks, encoded to match the kernel's
//! BPF device-cgroup constants.

use vstd::prelude::*;

verus! {

/// Access bit granted by `Access::MKNOD`.
pub const ACCESS_MKNOD: u32 = 1;
/// Access bit granted by `Access::READ`.
pub const ACCESS_READ: u32 = 2;
/// Access bit granted by `Access::WRITE`.
pub const ACCESS_WRITE: u32 = 4;

/// Kind of a device node. The numerical encoding (`bpf_const`) matches the
/// kernel's `BPF_DEVCG_DEV_BLOCK` / `BPF_DEVCG_DEV_CHAR` constants.
#[derive(Debug, Clone, Copy, PartialEq, Eq, Structural)]
pub enum DeviceType {
    Block,
    Character,
}

impl DeviceType {
    /// The `BPF_DEVCG_DEV_*` constant for this device type.
    pub fn bpf_const(&self) -> (r: u32)
        ensures
            r == self.as_bpf(),
    {
        match self {
            DeviceType::Block => 1,
            DeviceType::Character => 2,
        }
    }

    /// The `BPF_DEVCG_DEV_*` constant, as a spec-level value.
    pub open spec fn as_bpf(self) -> u32 {
        match self {
            DeviceType::Block => 1,
            DeviceType::Character => 2,
        }
    }
}

/// A set of device-access permissions: any union of `READ`, `WRITE` and
/// `MKNOD`. The empty mask means "denied".
#[derive(Debug, Clone, Copy, PartialEq, Eq, Structural)]
pub struct Access {
    pub bits: u32,
}

/// Whether `bits` only uses the three defined access bits.
pub open spec fn valid_access_bits(bits: u32) -> bool {
    bits & 7 == bits
}

impl Access {
    /// The invariant every `Access` value satisfies: only the three defined
    /// bits are ever set.
    pub open spec fn wf(self) -> bool {
        valid_access_bits(self.bits)
    }

    /// The raw bit pattern, as a spec-level value.
    pub open spec fn spec_bits(self) -> u32 {
        self.bits
    }

    /// The empty mask: all access denied.
    pub fn empty() -> (r: Access)
        ensures
            r.spec_bits() == 0,
            r.wf(),
    {
        proof {
            assert(0u32 & 7 == 0) by (bit_vector);
        }
        Access { bits: 0 }
    }

    /// All three permissions.
    pub fn all() -> (r: Access)
        ensures
            r.spec_bits() == 7,
            r.wf(),
    {
        proof {
            assert(7u32 & 7 == 7) by (bit_vector);
        }
        Access { bits: 7 }
    }

    /// The mask with exactly the `MKNOD` bit.
    pub fn mknod() -> (r: Access)
        ensures
            r.spec_bits() == ACCESS_MKNOD,
            r.wf(),
    {
        proof {
            assert(1u32 & 7 == 1) by (bit_vector);
        }
        Access { bits: ACCESS_MKNOD }
    }

    /// The mask with exactly the `READ` bit.
    pub fn read() -> (r: Access)
        ensures
            r.spec_bits() == ACCESS_READ,
            r.wf(),
    {
        proof {
            assert(2u32 & 7 == 2) by (bit_vector);
        }
        Access { bits: ACCESS_READ }
    }

    /// The mask with exactly the `WRITE` bit.
    pub fn write() -> (r: Access)
        ensures
            r.spec_bits() == ACCESS_WRITE,
            r.wf(),
    {
        proof {
            assert(4u32 & 7 == 4) by (bit_vector);
        }
        Access { bits: ACCESS_WRITE }
    }

    /// Build a mask from its raw bits, keeping only the defined ones.
    pub fn from_bits_truncate(bits: u32) -> (r: Access)
        ensures
            r.spec_bits() == bits & 7,
            r.wf(),
    {
        proof {
            assert((bits & 7) & 7 == bits & 7) by (bit_vector);
        }
        Access { bits: bits & 7 }
    }

    /// The raw bit pattern.
    pub fn bits(&self) -> (r: u32)
        ensures
            r == self.spec_bits(),
    {
        self.bits
    }

    /// Whether no access is granted.
    pub fn is_empty(&self) -> (r: bool)
        ensures
            r == (self.spec_bits() == 0),
    {
        self.bits == 0
    }

    /// Whether every bit of `other` is also set in `self`.
    pub fn contains(&self, other: Access) -> (r: bool)
        ensures
            r == (self.spec_bits() & other.spec_bits() == other.spec_bits()),
    {
        self.bits & other.bits == other.bits
    }

    /// The union of two masks.
    pub fn union(&self, other: Access) -> (r: Access)
        requires
            self.wf(),
            other.wf(),
        ensures
            r.spec_bits() == self.spec_bits() | other.spec_bits(),
            r.wf(),
    {
        proof {
            let a = self.bits;
            let b = other.bits;
            assert(a & 7 == a && b & 7 == b ==> (a | b) & 7 == (a | b)) by (bit_vector);
        }
        Access { bits: self.bits | other.bits }
    }
}

} // verus!
