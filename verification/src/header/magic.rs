use crate::error::Error;
use crate::io::Endian;
use vstd::prelude::*;

verus! {

/// The number that opens a Mach-O file. Read in the host's byte order, it
/// tells the width, the kind and the byte order of what follows.
#[derive(Debug, Clone, Copy, PartialEq, Eq, Structural)]
pub enum Magic {
    /// 64-bit, in the byte order of the host.
    Magic64,
    /// 64-bit, in the byte order opposite to the host's.
    Cigam64,
    /// 32-bit, in the byte order of the host.
    Magic,
    /// 32-bit, in the byte order opposite to the host's.
    Cigam,
    /// Several architectures, in the byte order of the host.
    FatMagic,
    /// Several architectures, in the byte order opposite to the host's.
    FatCigam,
}

impl Magic {
    /// The number of this magic.
    pub open spec fn spec_to_u32(&self) -> u32 {
        match *self {
            Magic::Magic64 => 0xfeedfacf,
            Magic::Cigam64 => 0xcffaedfe,
            Magic::Magic => 0xfeedface,
            Magic::Cigam => 0xcefaedfe,
            Magic::FatMagic => 0xcafebabe,
            Magic::FatCigam => 0xbebafeca,
        }
    }

    /// The magic with number `n`, if there is one.
    pub open spec fn spec_from_u32(n: u32) -> Option<Magic> {
        if n == 0xfeedfacf {
            Some(Magic::Magic64)
        } else if n == 0xcffaedfe {
            Some(Magic::Cigam64)
        } else if n == 0xfeedface {
            Some(Magic::Magic)
        } else if n == 0xcefaedfe {
            Some(Magic::Cigam)
        } else if n == 0xcafebabe {
            Some(Magic::FatMagic)
        } else if n == 0xbebafeca {
            Some(Magic::FatCigam)
        } else {
            None
        }
    }

    /// Whether what follows is in the byte order opposite to the host's.
    pub open spec fn spec_is_swapped(&self) -> bool {
        *self == Magic::Cigam64 || *self == Magic::Cigam || *self == Magic::FatCigam
    }

    /// Whether a 64-bit header follows.
    pub open spec fn spec_is_64(&self) -> bool {
        *self == Magic::Magic64 || *self == Magic::Cigam64
    }

    /// Whether a fat header follows.
    pub open spec fn spec_is_fat(&self) -> bool {
        *self == Magic::FatMagic || *self == Magic::FatCigam
    }

    /// The byte order of what follows, on a host of byte order `host`.
    pub open spec fn spec_endian(&self, host: Endian) -> Endian {
        if self.spec_is_swapped() {
            host.spec_reverse()
        } else {
            host
        }
    }

    pub fn from_u32_checked(n: u32) -> (res: Option<Magic>)
        ensures
            res == Magic::spec_from_u32(n),
    {
        if n == 0xfeedfacf {
            Some(Magic::Magic64)
        } else if n == 0xcffaedfe {
            Some(Magic::Cigam64)
        } else if n == 0xfeedface {
            Some(Magic::Magic)
        } else if n == 0xcefaedfe {
            Some(Magic::Cigam)
        } else if n == 0xcafebabe {
            Some(Magic::FatMagic)
        } else if n == 0xbebafeca {
            Some(Magic::FatCigam)
        } else {
            None
        }
    }

    pub fn from_u32(n: u32) -> (res: Result<Magic, Error>)
        ensures
            res is Ok <==> Magic::spec_from_u32(n) is Some,
            res matches Ok(magic) ==> Magic::spec_from_u32(n) == Some(magic),
            res matches Err(err) ==> err == Error::UnknownMagic,
    {
        match Magic::from_u32_checked(n) {
            Some(magic) => Ok(magic),
            None => Err(Error::UnknownMagic),
        }
    }

    #[verifier::when_used_as_spec(spec_to_u32)]
    pub fn to_u32(&self) -> (n: u32)
        ensures
            n == self.spec_to_u32(),
    {
        match self {
            Magic::Magic64 => 0xfeedfacf,
            Magic::Cigam64 => 0xcffaedfe,
            Magic::Magic => 0xfeedface,
            Magic::Cigam => 0xcefaedfe,
            Magic::FatMagic => 0xcafebabe,
            Magic::FatCigam => 0xbebafeca,
        }
    }

    /// The byte order of what follows this magic, on a host of byte order
    /// `host`.
    #[verifier::when_used_as_spec(spec_endian)]
    pub fn endian_on(&self, host: Endian) -> (endian: Endian)
        ensures
            endian == self.spec_endian(host),
    {
        match self {
            Magic::Magic64 | Magic::Magic | Magic::FatMagic => host,
            Magic::Cigam64 | Magic::Cigam | Magic::FatCigam => host.reverse(),
        }
    }

    /// The byte order of what follows this magic, on this machine.
    pub fn endian(&self) -> (endian: Endian)
        ensures
            endian == self.spec_endian(Endian::Little) || endian == self.spec_endian(Endian::Big),
    {
        self.endian_on(Endian::native())
    }
}

/// The number of a magic names that magic and no other.
pub proof fn lemma_magic_to_from(magic: Magic)
    ensures
        Magic::spec_from_u32(magic.spec_to_u32()) == Some(magic),
{
}

/// A magic that was found for a number has that number.
pub proof fn lemma_magic_from_to(n: u32)
    ensures
        Magic::spec_from_u32(n) matches Some(magic) ==> magic.spec_to_u32() == n,
{
}

} // verus!
