//! The header of a Mach-O file, thin or fat.

pub mod cpu;
pub mod fat;
pub mod file_type;
pub mod flags;
pub mod header64;
pub mod magic;

pub use self::cpu::{CpuSubTypeX86, CpuSubTypeX86_64, CpuType};
pub use self::fat::{FatArch, FatHeader};
pub use self::file_type::FileType;
pub use self::flags::{Flag, Flags};
pub use self::header64::Header64;
pub use self::magic::Magic;

use crate::error::Error;
use crate::io::{read_u32_in, u32_at, Endian};
use vstd::prelude::*;

verus! {

/// The header that a file starts with: that of one architecture, or the
/// table of the architectures that the file holds.
#[derive(Debug, Clone, PartialEq, Eq)]
pub enum Header {
    Mach(Header64),
    Fat(FatHeader),
}

impl Header {
    /// The magic that the header starts with.
    pub open spec fn spec_magic(&self) -> Magic {
        match self {
            Header::Mach(mach_header) => mach_header.magic,
            Header::Fat(fat_header) => fat_header.magic,
        }
    }

    /// The bytes of the header, as a machine of byte order `e` writes them.
    pub open spec fn spec_bytes(&self, e: Endian) -> Seq<u8> {
        match self {
            Header::Mach(mach_header) => mach_header.spec_bytes(e),
            Header::Fat(fat_header) => fat_header.spec_bytes(),
        }
    }

    /// The number of bytes of the header.
    pub open spec fn spec_len(&self) -> nat {
        match self {
            Header::Mach(_) => 32,
            Header::Fat(fat_header) => fat_header.spec_len(),
        }
    }

    /// Why `b` does not start with a header, read on a host of byte order
    /// `host`; `None` if it does.
    pub open spec fn parse_error(b: Seq<u8>, host: Endian) -> Option<Error> {
        if b.len() < 4 {
            Some(Error::TruncatedInput)
        } else {
            match Magic::spec_from_u32(u32_at(b, 0, host)) {
                None => Some(Error::UnknownMagic),
                Some(magic) => if magic.spec_is_64() {
                    Header64::fields_error(b.skip(4), magic.spec_endian(host))
                } else if magic.spec_is_fat() {
                    FatHeader::fields_error(b.skip(4))
                } else {
                    Some(Error::UnsupportedMagic)
                },
            }
        }
    }

    /// Whether this is the header that `b` starts with, read on a host of
    /// byte order `host`.
    pub open spec fn parsed_from(&self, b: Seq<u8>, host: Endian) -> bool {
        match self {
            Header::Mach(mach_header) => mach_header.magic.spec_is_64() && mach_header.parsed_from(
                b,
                host,
            ),
            Header::Fat(fat_header) => fat_header.magic.spec_is_fat() && fat_header.parsed_from(
                b,
                host,
            ),
        }
    }

    /// What reading a header from `b` on a host of byte order `host` comes
    /// to: `res` is what is returned and `rest` the input left.
    pub open spec fn decoded_on(
        b: Seq<u8>,
        host: Endian,
        res: Result<Header, Error>,
        rest: Seq<u8>,
    ) -> bool {
        &&& res is Ok <==> Header::parse_error(b, host) is None
        &&& res matches Ok(header) ==> header.parsed_from(b, host) && header.spec_len() <= b.len()
            && rest == b.skip(header.spec_len() as int)
        &&& res matches Err(err) ==> Header::parse_error(b, host) == Some(err) && rest == b
    }

    pub fn magic(&self) -> (magic: Magic)
        ensures
            magic == self.spec_magic(),
    {
        match self {
            Header::Mach(mach_header) => mach_header.magic,
            Header::Fat(fat_header) => fat_header.magic,
        }
    }

    /// Reads the header that the input starts with, on this machine.
    pub fn read_from(read: &mut &[u8]) -> (res: Result<Header, Error>)
        ensures
            Header::decoded_on(old(read)@, Endian::Little, res, final(read)@) || Header::decoded_on(
                old(read)@,
                Endian::Big,
                res,
                final(read)@,
            ),
    {
        Header::read_from_on(read, Endian::native())
    }

    /// Reads the header that the input starts with, as a host of byte order
    /// `host` reads it.
    pub fn read_from_on(read: &mut &[u8], host: Endian) -> (res: Result<Header, Error>)
        ensures
            Header::decoded_on(old(read)@, host, res, final(read)@),
    {
        let mut cur: &[u8] = *read;
        let magic_n = read_u32_in(&mut cur, host)?;
        let magic = Magic::from_u32(magic_n)?;
        let header = match magic {
            Magic::Magic64 | Magic::Cigam64 => Header::Mach(
                Header64::read_after_magic(&mut cur, magic, host)?,
            ),
            Magic::Magic | Magic::Cigam => {
                return Err(Error::UnsupportedMagic);
            },
            Magic::FatMagic | Magic::FatCigam => Header::Fat(
                FatHeader::read_after_magic(&mut cur, magic)?,
            ),
        };
        proof {
            assert(cur@ =~= old(read)@.skip(header.spec_len() as int));
        }
        *read = cur;
        Ok(header)
    }

    /// Appends the bytes of the header, as this machine writes them.
    pub fn write_into(&self, out: &mut Vec<u8>)
        ensures
            final(out)@ == old(out)@ + self.spec_bytes(Endian::Little) || final(out)@ == old(out)@
                + self.spec_bytes(Endian::Big),
    {
        self.write_into_in(out, Endian::native())
    }

    /// Appends the bytes of the header, as a machine of byte order `endian`
    /// writes them.
    pub fn write_into_in(&self, out: &mut Vec<u8>, endian: Endian)
        ensures
            final(out)@ == old(out)@ + self.spec_bytes(endian),
    {
        match self {
            Header::Mach(mach_header) => mach_header.write_into_in(out, endian),
            Header::Fat(fat_header) => fat_header.write_into(out),
        }
    }
}

/// A fat header has the same bytes on a host of either byte order: its
/// words are written most significant byte first whatever the host.
pub proof fn lemma_fat_header_bytes_same_on_every_host(header: Header)
    requires
        header is Fat,
    ensures
        header.spec_bytes(Endian::Little) == header.spec_bytes(Endian::Big),
{
}

/// What follows the magic of a fat header is read alike on a host of either
/// byte order: whether bytes that start with a fat magic hold a header, why
/// not, and which entries they hold, does not depend on the host once the
/// magic is read.
pub proof fn lemma_fat_header_read_same_on_every_host(header: FatHeader, b: Seq<u8>, c: Seq<u8>)
    requires
        b.len() >= 4,
        c.len() >= 4,
        b.skip(4) == c.skip(4),
        Magic::spec_from_u32(u32_at(b, 0, Endian::Little)) == Some(header.magic),
        Magic::spec_from_u32(u32_at(c, 0, Endian::Big)) == Some(header.magic),
        header.magic.spec_is_fat(),
    ensures
        Header::parse_error(b, Endian::Little) == Header::parse_error(c, Endian::Big),
        Header::Fat(header).parsed_from(b, Endian::Little) == Header::Fat(header).parsed_from(
            c,
            Endian::Big,
        ),
{
}

/// A header that was read is written back, in the host's byte order, as the
/// bytes it was read from, where the host's byte order is the one that the
/// words after the magic are in: for a 64-bit header, where the magic is not
/// a swapped one; for a fat header, on a host that puts the most significant
/// byte first.
pub proof fn lemma_header_decode_then_encode(header: Header, b: Seq<u8>, host: Endian)
    requires
        Header::parse_error(b, host) is None,
        header.parsed_from(b, host),
        header is Mach ==> !header.spec_magic().spec_is_swapped(),
        header is Fat ==> host == Endian::Big,
    ensures
        header.spec_len() <= b.len(),
        header.spec_bytes(host) == b.take(header.spec_len() as int),
{
    match header {
        Header::Mach(mach_header) => {
            self::header64::lemma_header64_decode_then_encode(mach_header, b, host);
        },
        Header::Fat(fat_header) => {
            self::fat::lemma_fat_header_decode_then_encode(fat_header, b, host);
        },
    }
}

/// Bytes that start with the bytes of a header are read, on a host of the
/// byte order they were written in, as that header: for a 64-bit header,
/// where it has the magic of the host's own order and its flags come lowest
/// bit first, none of them twice; for a fat header, where it has a fat magic
/// and no more entries than 32 bits can count, on a host that puts the most
/// significant byte first.
pub proof fn lemma_header_encode_then_decode(header: Header, b: Seq<u8>, host: Endian)
    requires
        header matches Header::Mach(mach_header) ==> mach_header.magic == Magic::Magic64
            && Flags::spec_ascending(mach_header.flags@),
        header matches Header::Fat(fat_header) ==> fat_header.magic.spec_is_fat() && host
            == Endian::Big && fat_header.fat_archs@.len() <= u32::MAX,
        b.len() >= header.spec_len(),
        b.take(header.spec_len() as int) == header.spec_bytes(host),
    ensures
        Header::parse_error(b, host) is None,
        header.parsed_from(b, host),
{
    match header {
        Header::Mach(mach_header) => {
            self::header64::lemma_header64_encode_then_decode(mach_header, b, host);
        },
        Header::Fat(fat_header) => {
            self::fat::lemma_fat_header_encode_then_decode(fat_header, b);
        },
    }
}

} // verus!
