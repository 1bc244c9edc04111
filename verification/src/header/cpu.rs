use crate::error::Error;
use vstd::prelude::*;

verus! {

/// The subtypes of the 32-bit x86 family.
#[derive(Debug, Clone, Copy, PartialEq, Eq, Structural)]
pub enum CpuSubTypeX86 {
    All,
}

/// The subtypes of the 64-bit x86 family.
#[allow(non_camel_case_types)]
#[derive(Debug, Clone, Copy, PartialEq, Eq, Structural)]
pub enum CpuSubTypeX86_64 {
    All,
}

/// A cpu family together with one of the subtypes of that family.
#[derive(Debug, Clone, Copy, PartialEq, Eq, Structural)]
pub enum CpuType {
    X86(CpuSubTypeX86),
    X86_64(CpuSubTypeX86_64),
}

impl CpuSubTypeX86 {
    /// The number of this subtype.
    pub open spec fn spec_to_i32(self) -> i32 {
        match self {
            CpuSubTypeX86::All => 0x3,
        }
    }

    /// The subtype with number `n`, if the family has one.
    pub open spec fn spec_from_i32(n: i32) -> Option<CpuSubTypeX86> {
        if n == 0x3 {
            Some(CpuSubTypeX86::All)
        } else {
            None
        }
    }

    pub fn from_i32(n: i32) -> (res: Option<CpuSubTypeX86>)
        ensures
            res == CpuSubTypeX86::spec_from_i32(n),
    {
        if n == 0x3 {
            Some(CpuSubTypeX86::All)
        } else {
            None
        }
    }

    #[verifier::when_used_as_spec(spec_to_i32)]
    pub fn to_i32(self) -> (n: i32)
        ensures
            n == self.spec_to_i32(),
    {
        match self {
            CpuSubTypeX86::All => 0x3,
        }
    }
}

impl CpuSubTypeX86_64 {
    /// The number of this subtype.
    pub open spec fn spec_to_i32(self) -> i32 {
        match self {
            CpuSubTypeX86_64::All => 0x3,
        }
    }

    /// The subtype with number `n`, if the family has one.
    pub open spec fn spec_from_i32(n: i32) -> Option<CpuSubTypeX86_64> {
        if n == 0x3 {
            Some(CpuSubTypeX86_64::All)
        } else {
            None
        }
    }

    pub fn from_i32(n: i32) -> (res: Option<CpuSubTypeX86_64>)
        ensures
            res == CpuSubTypeX86_64::spec_from_i32(n),
    {
        if n == 0x3 {
            Some(CpuSubTypeX86_64::All)
        } else {
            None
        }
    }

    #[verifier::when_used_as_spec(spec_to_i32)]
    pub fn to_i32(self) -> (n: i32)
        ensures
            n == self.spec_to_i32(),
    {
        match self {
            CpuSubTypeX86_64::All => 0x3,
        }
    }
}

impl CpuType {
    /// The bit that marks the 64-bit variant of a family.
    pub const CPU_ARCH_ABI64: i32 = 0x0100_0000;

    /// The number of the 32-bit x86 family.
    pub const CPU_TYPE_X86: i32 = 0x7;

    /// The number of the 64-bit x86 family: that of the 32-bit family with
    /// the 64-bit mark.
    pub const CPU_TYPE_X86_64: i32 = 0x0100_0007;

    /// The numbers of the family and of the subtype.
    pub open spec fn spec_to_i32_i32(&self) -> (i32, i32) {
        match *self {
            CpuType::X86(sub) => (CpuType::CPU_TYPE_X86, sub.spec_to_i32()),
            CpuType::X86_64(sub) => (CpuType::CPU_TYPE_X86_64, sub.spec_to_i32()),
        }
    }

    /// The cpu type whose family has number `cpu_type_n` and whose subtype
    /// has, in that family, number `cpu_subtype_n`, if there is one.
    pub open spec fn spec_from_i32_i32(cpu_type_n: i32, cpu_subtype_n: i32) -> Option<CpuType> {
        if cpu_type_n == CpuType::CPU_TYPE_X86 {
            match CpuSubTypeX86::spec_from_i32(cpu_subtype_n) {
                Some(sub) => Some(CpuType::X86(sub)),
                None => None,
            }
        } else if cpu_type_n == CpuType::CPU_TYPE_X86_64 {
            match CpuSubTypeX86_64::spec_from_i32(cpu_subtype_n) {
                Some(sub) => Some(CpuType::X86_64(sub)),
                None => None,
            }
        } else {
            None
        }
    }

    pub fn from_i32_i32(cpu_type_n: i32, cpu_subtype_n: i32) -> (res: Result<CpuType, Error>)
        ensures
            res is Ok <==> CpuType::spec_from_i32_i32(cpu_type_n, cpu_subtype_n) is Some,
            res matches Ok(cpu) ==> CpuType::spec_from_i32_i32(cpu_type_n, cpu_subtype_n) == Some(
                cpu,
            ),
            res matches Err(err) ==> err == Error::UnsupportedCpuIdentity,
    {
        if cpu_type_n == Self::CPU_TYPE_X86 {
            match CpuSubTypeX86::from_i32(cpu_subtype_n) {
                Some(sub) => Ok(CpuType::X86(sub)),
                None => Err(Error::UnsupportedCpuIdentity),
            }
        } else if cpu_type_n == Self::CPU_TYPE_X86_64 {
            match CpuSubTypeX86_64::from_i32(cpu_subtype_n) {
                Some(sub) => Ok(CpuType::X86_64(sub)),
                None => Err(Error::UnsupportedCpuIdentity),
            }
        } else {
            Err(Error::UnsupportedCpuIdentity)
        }
    }

    #[verifier::when_used_as_spec(spec_to_i32_i32)]
    pub fn to_i32_i32(&self) -> (pair: (i32, i32))
        ensures
            pair == self.spec_to_i32_i32(),
    {
        match self {
            CpuType::X86(sub) => (Self::CPU_TYPE_X86, sub.to_i32()),
            CpuType::X86_64(sub) => (Self::CPU_TYPE_X86_64, sub.to_i32()),
        }
    }
}

/// The 64-bit x86 family is the 32-bit one with the 64-bit mark set.
pub proof fn lemma_x86_64_is_marked_x86()
    ensures
        CpuType::CPU_TYPE_X86_64 == CpuType::CPU_TYPE_X86 | CpuType::CPU_ARCH_ABI64,
{
    assert(0x0100_0007i32 == 0x7i32 | 0x0100_0000i32) by (bit_vector);
}

/// Decoding the numbers of a cpu type gives that cpu type.
pub proof fn lemma_cpu_type_to_from(cpu: CpuType)
    ensures
        CpuType::spec_from_i32_i32(cpu.spec_to_i32_i32().0, cpu.spec_to_i32_i32().1) == Some(cpu),
{
}

/// A pair of numbers that decodes is the pair that the decoded cpu type
/// encodes to.
pub proof fn lemma_cpu_type_from_to(cpu_type_n: i32, cpu_subtype_n: i32)
    ensures
        CpuType::spec_from_i32_i32(cpu_type_n, cpu_subtype_n) matches Some(cpu)
            ==> cpu.spec_to_i32_i32() == (cpu_type_n, cpu_subtype_n),
{
}

} // verus!
