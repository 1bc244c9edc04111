use crate::error::Error;
use crate::header::cpu::CpuType;
use crate::header::file_type::FileType;
use crate::header::flags::Flags;
use crate::header::magic::Magic;
use crate::io::{
    i32_at, i32_bytes, read_i32_in, read_u32_in, u32_at, u32_bytes, write_i32_in, write_u32_in,
    Endian,
};
use vstd::prelude::*;

verus! {

/// The header of a 64-bit Mach-O file: eight words.
#[derive(Debug, Clone, PartialEq, Eq)]
pub struct Header64 {
    pub magic: Magic,
    pub cpu_type: CpuType,
    pub file_type: FileType,
    pub n_cmds: u32,
    pub size_of_cmds: u32,
    pub flags: Flags,
    pub reserved: u32,
}

impl Header64 {
    /// The number of bytes of the header.
    pub const SIZE: u32 = 0x20;

    /// The bytes of the header, as a machine of byte order `e` writes them.
    pub open spec fn spec_bytes(&self, e: Endian) -> Seq<u8> {
        u32_bytes(self.magic.spec_to_u32(), e) + i32_bytes(self.cpu_type.spec_to_i32_i32().0, e)
            + i32_bytes(self.cpu_type.spec_to_i32_i32().1, e) + u32_bytes(
            self.file_type.spec_to_u32(),
            e,
        ) + u32_bytes(self.n_cmds, e) + u32_bytes(self.size_of_cmds, e) + u32_bytes(
            Flags::spec_mask(self.flags@),
            e,
        ) + u32_bytes(self.reserved, e)
    }

    /// Why `b` does not hold, in byte order `e`, the seven words that follow
    /// the magic; `None` if it does.
    pub open spec fn fields_error(b: Seq<u8>, e: Endian) -> Option<Error> {
        if b.len() < 8 {
            Some(Error::TruncatedInput)
        } else if CpuType::spec_from_i32_i32(i32_at(b, 0, e), i32_at(b, 4, e)) is None {
            Some(Error::UnsupportedCpuIdentity)
        } else if b.len() < 12 {
            Some(Error::TruncatedInput)
        } else if FileType::spec_from_u32(u32_at(b, 8, e)) is None {
            Some(Error::UnsupportedFileKind)
        } else if b.len() < 24 {
            Some(Error::TruncatedInput)
        } else if !Flags::spec_all_named(u32_at(b, 20, e)) {
            Some(Error::UnknownFlagBit)
        } else if b.len() < 28 {
            Some(Error::TruncatedInput)
        } else {
            None
        }
    }

    /// Whether this header has the magic `magic` and the seven words that
    /// `b` starts with, in byte order `e`.
    pub open spec fn fields_parsed_from(&self, b: Seq<u8>, magic: Magic, e: Endian) -> bool {
        &&& self.magic == magic
        &&& Some(self.cpu_type) == CpuType::spec_from_i32_i32(i32_at(b, 0, e), i32_at(b, 4, e))
        &&& Some(self.file_type) == FileType::spec_from_u32(u32_at(b, 8, e))
        &&& self.n_cmds == u32_at(b, 12, e)
        &&& self.size_of_cmds == u32_at(b, 16, e)
        &&& self.flags@ == Flags::spec_from_u32(u32_at(b, 20, e))
        &&& self.reserved == u32_at(b, 24, e)
    }

    /// Why `b` does not start with a 64-bit header, read on a host of byte
    /// order `host`; `None` if it does.
    pub open spec fn parse_error(b: Seq<u8>, host: Endian) -> Option<Error> {
        if b.len() < 4 {
            Some(Error::TruncatedInput)
        } else {
            match Magic::spec_from_u32(u32_at(b, 0, host)) {
                None => Some(Error::UnknownMagic),
                Some(magic) => if magic.spec_is_64() {
                    Header64::fields_error(b.skip(4), magic.spec_endian(host))
                } else {
                    Some(Error::UnsupportedMagic)
                },
            }
        }
    }

    /// Whether this is the 64-bit header that `b` starts with, read on a
    /// host of byte order `host`: the magic in the host's order, the rest in
    /// the order that the magic tells.
    pub open spec fn parsed_from(&self, b: Seq<u8>, host: Endian) -> bool {
        &&& Magic::spec_from_u32(u32_at(b, 0, host)) == Some(self.magic)
        &&& self.fields_parsed_from(b.skip(4), self.magic, self.magic.spec_endian(host))
    }

    /// What reading a 64-bit header from `b` on a host of byte order `host`
    /// comes to: `res` is what is returned and `rest` the input left.
    pub open spec fn decoded_on(
        b: Seq<u8>,
        host: Endian,
        res: Result<Header64, Error>,
        rest: Seq<u8>,
    ) -> bool {
        &&& res is Ok <==> Header64::parse_error(b, host) is None
        &&& res matches Ok(header) ==> header.parsed_from(b, host) && rest == b.skip(32)
        &&& res matches Err(err) ==> Header64::parse_error(b, host) == Some(err) && rest == b
    }

    /// Reads the 64-bit header that the input starts with, on this machine.
    pub fn read_from(read: &mut &[u8]) -> (res: Result<Header64, Error>)
        ensures
            Header64::decoded_on(old(read)@, Endian::Little, res, final(read)@)
                || Header64::decoded_on(old(read)@, Endian::Big, res, final(read)@),
    {
        Header64::read_from_on(read, Endian::native())
    }

    /// Reads the 64-bit header that the input starts with, as a host of byte
    /// order `host` reads it.
    pub fn read_from_on(read: &mut &[u8], host: Endian) -> (res: Result<Header64, Error>)
        ensures
            Header64::decoded_on(old(read)@, host, res, final(read)@),
    {
        let mut cur: &[u8] = *read;
        let magic_n = read_u32_in(&mut cur, host)?;
        let magic = Magic::from_u32(magic_n)?;
        match magic {
            Magic::Magic64 | Magic::Cigam64 => {},
            _ => {
                return Err(Error::UnsupportedMagic);
            },
        }
        let header = Header64::read_after_magic(&mut cur, magic, host)?;
        proof {
            assert(cur@ =~= old(read)@.skip(32));
        }
        *read = cur;
        Ok(header)
    }

    /// Reads the seven words that follow the magic of a 64-bit header.
    pub fn read_after_magic(read: &mut &[u8], magic: Magic, host: Endian) -> (res: Result<
        Header64,
        Error,
    >)
        requires
            magic.spec_is_64(),
        ensures
            res is Ok <==> Header64::fields_error(old(read)@, magic.spec_endian(host)) is None,
            res matches Ok(header) ==> header.fields_parsed_from(
                old(read)@,
                magic,
                magic.spec_endian(host),
            ) && final(read)@ == old(read)@.skip(28),
            res matches Err(err) ==> Header64::fields_error(old(read)@, magic.spec_endian(host))
                == Some(err) && final(read)@ == old(read)@,
    {
        let endian = magic.endian_on(host);
        let mut cur: &[u8] = *read;

        let cpu_type_n = read_i32_in(&mut cur, endian)?;
        let cpu_subtype_n = read_i32_in(&mut cur, endian)?;
        let cpu_type = CpuType::from_i32_i32(cpu_type_n, cpu_subtype_n)?;

        let file_type_n = read_u32_in(&mut cur, endian)?;
        let file_type = FileType::from_u32(file_type_n)?;

        let n_cmds = read_u32_in(&mut cur, endian)?;

        let size_of_cmds = read_u32_in(&mut cur, endian)?;

        let flags_n = read_u32_in(&mut cur, endian)?;
        let flags = Flags::from_u32(flags_n)?;

        let reserved = read_u32_in(&mut cur, endian)?;

        *read = cur;
        Ok(Header64 { magic, cpu_type, file_type, n_cmds, size_of_cmds, flags, reserved })
    }

    /// Appends the bytes of the header, as this machine writes them.
    pub fn write_into(&self, out: &mut Vec<u8>)
        ensures
            final(out)@ == old(out)@ + self.spec_bytes(Endian::Little) || final(out)@ == old(out)@
                + self.spec_bytes(Endian::Big),
    {
        self.write_into_in(out, Endian::native())
    }

    /// Appends the bytes of the header, as a machine of byte order `endian`
    /// writes them.
    pub fn write_into_in(&self, out: &mut Vec<u8>, endian: Endian)
        ensures
            final(out)@ == old(out)@ + self.spec_bytes(endian),
    {
        write_u32_in(out, self.magic.to_u32(), endian);
        let (cpu_type_n, cpu_subtype_n) = self.cpu_type.to_i32_i32();
        write_i32_in(out, cpu_type_n, endian);
        write_i32_in(out, cpu_subtype_n, endian);
        write_u32_in(out, self.file_type.to_u32(), endian);
        write_u32_in(out, self.n_cmds, endian);
        write_u32_in(out, self.size_of_cmds, endian);
        write_u32_in(out, self.flags.to_u32(), endian);
        write_u32_in(out, self.reserved, endian);
    }

    /// The byte order of what follows the header, on this machine.
    pub fn endian(&self) -> (endian: Endian)
        ensures
            endian == self.magic.spec_endian(Endian::Little) || endian == self.magic.spec_endian(
                Endian::Big,
            ),
    {
        self.magic.endian()
    }

    /// The byte order of what follows the header, on a host of byte order
    /// `host`.
    pub fn endian_on(&self, host: Endian) -> (endian: Endian)
        ensures
            endian == self.magic.spec_endian(host),
    {
        self.magic.endian_on(host)
    }
}


/// A 64-bit header that was read from bytes in the host's own order is
/// written back, on that host, as the bytes it was read from.
///
/// A header whose magic announces the opposite order is left out: it is
/// read in that order and written in the host's.
pub proof fn lemma_header64_decode_then_encode(header: Header64, b: Seq<u8>, host: Endian)
    requires
        Header64::parse_error(b, host) is None,
        header.parsed_from(b, host),
        !header.magic.spec_is_swapped(),
    ensures
        b.len() >= 32,
        header.spec_bytes(host) == b.take(32),
{
    let mask = u32_at(b, 24, host);
    crate::header::magic::lemma_magic_from_to(u32_at(b, 0, host));
    crate::header::cpu::lemma_cpu_type_from_to(i32_at(b, 4, host), i32_at(b, 8, host));
    crate::header::file_type::lemma_file_type_from_to(u32_at(b, 12, host));
    crate::header::flags::lemma_flags_decode_then_encode(mask);
    crate::io::lemma_u32_read_then_written(b, 0, host);
    crate::io::lemma_i32_read_then_written(b, 4, host);
    crate::io::lemma_i32_read_then_written(b, 8, host);
    crate::io::lemma_u32_read_then_written(b, 12, host);
    crate::io::lemma_u32_read_then_written(b, 16, host);
    crate::io::lemma_u32_read_then_written(b, 20, host);
    crate::io::lemma_u32_read_then_written(b, 24, host);
    crate::io::lemma_u32_read_then_written(b, 28, host);
}

/// The bytes of a 64-bit header are thirty-two.
pub proof fn lemma_header64_bytes_len(header: Header64, e: Endian)
    ensures
        header.spec_bytes(e).len() == 32,
{
    crate::io::lemma_u32_written_then_read(header.magic.spec_to_u32(), e);
    crate::io::lemma_i32_written_then_read(header.cpu_type.spec_to_i32_i32().0, e);
    crate::io::lemma_i32_written_then_read(header.cpu_type.spec_to_i32_i32().1, e);
    crate::io::lemma_u32_written_then_read(header.file_type.spec_to_u32(), e);
    crate::io::lemma_u32_written_then_read(header.n_cmds, e);
    crate::io::lemma_u32_written_then_read(header.size_of_cmds, e);
    crate::io::lemma_u32_written_then_read(Flags::spec_mask(header.flags@), e);
    crate::io::lemma_u32_written_then_read(header.reserved, e);
}

/// Bytes that start with the bytes of a 64-bit header with the magic of the
/// host's own order, whose flags come lowest bit first and none of them
/// twice, are read, on a host of the order they were written in, as a header
/// with the same fields and the same flags.
///
/// A header with a swapped magic is left out: it is written in the host's
/// order and then read in the other. So are flags in another order, or with
/// one of them twice: they come back lowest bit first and once.
pub proof fn lemma_header64_encode_then_decode(header: Header64, b: Seq<u8>, host: Endian)
    requires
        header.magic == Magic::Magic64,
        Flags::spec_ascending(header.flags@),
        b.len() >= 32,
        b.take(32) == header.spec_bytes(host),
    ensures
        Header64::parse_error(b, host) is None,
        header.parsed_from(b, host),
{
    let cpu = header.cpu_type.spec_to_i32_i32();
    let mask = Flags::spec_mask(header.flags@);
    let rest = b.skip(4);
    crate::io::lemma_u32_written_then_read(header.magic.spec_to_u32(), host);
    crate::io::lemma_i32_written_then_read(cpu.0, host);
    crate::io::lemma_i32_written_then_read(cpu.1, host);
    crate::io::lemma_u32_written_then_read(header.file_type.spec_to_u32(), host);
    crate::io::lemma_u32_written_then_read(header.n_cmds, host);
    crate::io::lemma_u32_written_then_read(header.size_of_cmds, host);
    crate::io::lemma_u32_written_then_read(mask, host);
    crate::io::lemma_u32_written_then_read(header.reserved, host);
    crate::header::cpu::lemma_cpu_type_to_from(header.cpu_type);
    crate::header::file_type::lemma_file_type_to_from(header.file_type);
    crate::header::flags::lemma_flags_encode_then_decode(header.flags@);
    assert(b.subrange(0, 4) =~= u32_bytes(header.magic.spec_to_u32(), host));
    crate::io::lemma_u32_at_its_bytes(b, 0, header.magic.spec_to_u32(), host);
    assert(rest.subrange(0, 4) =~= i32_bytes(cpu.0, host)) by {
        assert(b.take(32).subrange(4, 8) =~= rest.subrange(0, 4));
    }
    crate::io::lemma_i32_at_its_bytes(rest, 0, cpu.0, host);
    assert(rest.subrange(4, 8) =~= i32_bytes(cpu.1, host)) by {
        assert(b.take(32).subrange(8, 12) =~= rest.subrange(4, 8));
    }
    crate::io::lemma_i32_at_its_bytes(rest, 4, cpu.1, host);
    assert(rest.subrange(8, 12) =~= u32_bytes(header.file_type.spec_to_u32(), host)) by {
        assert(b.take(32).subrange(12, 16) =~= rest.subrange(8, 12));
    }
    crate::io::lemma_u32_at_its_bytes(rest, 8, header.file_type.spec_to_u32(), host);
    assert(rest.subrange(12, 16) =~= u32_bytes(header.n_cmds, host)) by {
        assert(b.take(32).subrange(16, 20) =~= rest.subrange(12, 16));
    }
    crate::io::lemma_u32_at_its_bytes(rest, 12, header.n_cmds, host);
    assert(rest.subrange(16, 20) =~= u32_bytes(header.size_of_cmds, host)) by {
        assert(b.take(32).subrange(20, 24) =~= rest.subrange(16, 20));
    }
    crate::io::lemma_u32_at_its_bytes(rest, 16, header.size_of_cmds, host);
    assert(rest.subrange(20, 24) =~= u32_bytes(mask, host)) by {
        assert(b.take(32).subrange(24, 28) =~= rest.subrange(20, 24));
    }
    crate::io::lemma_u32_at_its_bytes(rest, 20, mask, host);
    assert(rest.subrange(24, 28) =~= u32_bytes(header.reserved, host)) by {
        assert(b.take(32).subrange(28, 32) =~= rest.subrange(24, 28));
    }
    crate::io::lemma_u32_at_its_bytes(rest, 24, header.reserved, host);
}

/// Two 64-bit headers that are read from the same bytes have the same
/// fields and the same flags.
pub proof fn lemma_header64_decoded_once(one: Header64, other: Header64, b: Seq<u8>, host: Endian)
    requires
        one.parsed_from(b, host),
        other.parsed_from(b, host),
    ensures
        one.magic == other.magic,
        one.cpu_type == other.cpu_type,
        one.file_type == other.file_type,
        one.n_cmds == other.n_cmds,
        one.size_of_cmds == other.size_of_cmds,
        one.flags@ == other.flags@,
        one.reserved == other.reserved,
{
}

} // verus!
