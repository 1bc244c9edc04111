use crate::error::Error;
use crate::io::{
    lemma_u32_read_then_written, lemma_u64_read_then_written, read_u64_in, u32_at, u32_bytes,
    u64_at, u64_bytes, write_u32_in, write_u64_in, Endian,
};
use crate::load_command::prefix::{prefix_error, read_prefix};
use vstd::prelude::*;

verus! {

/// The load command that holds the version of the sources that the file was
/// built from.
#[derive(Debug, Clone, Copy, PartialEq, Eq, Structural)]
pub struct SourceVersionCommand {
    pub cmd: u32,
    pub cmdsize: u32,
    pub version: Version,
}

impl SourceVersionCommand {
    pub const TYPE: u32 = 0x2a;

    pub const SIZE: u32 = 0x10;

    /// Whether the command declares the kind and the size of a source version
    /// command.
    pub open spec fn spec_wf(&self) -> bool {
        self.cmd == SourceVersionCommand::TYPE && self.cmdsize == SourceVersionCommand::SIZE
    }

    /// The bytes of the command in byte order `e`.
    pub open spec fn spec_bytes(&self, e: Endian) -> Seq<u8> {
        u32_bytes(self.cmd, e) + u32_bytes(self.cmdsize, e) + u64_bytes(self.version.0, e)
    }

    /// Why `b` does not start with a source version command in byte order
    /// `e`; `None` if it does.
    pub open spec fn parse_error(b: Seq<u8>, e: Endian) -> Option<Error> {
        if prefix_error(b, e, SourceVersionCommand::TYPE, Some(SourceVersionCommand::SIZE))
            is Some {
            prefix_error(b, e, SourceVersionCommand::TYPE, Some(SourceVersionCommand::SIZE))
        } else if b.len() < 16 {
            Some(Error::TruncatedInput)
        } else {
            None
        }
    }

    /// Whether this is the source version command that `b` starts with in
    /// byte order `e`.
    pub open spec fn parsed_from(&self, b: Seq<u8>, e: Endian) -> bool {
        &&& self.cmd == u32_at(b, 0, e)
        &&& self.cmdsize == u32_at(b, 4, e)
        &&& self.version.0 == u64_at(b, 8, e)
    }

    /// Reads the source version command that the input starts with.
    pub fn read_from_in(read: &mut &[u8], endian: Endian) -> (res: Result<
        SourceVersionCommand,
        Error,
    >)
        ensures
            res is Ok <==> SourceVersionCommand::parse_error(old(read)@, endian) is None,
            res matches Ok(command) ==> command.parsed_from(old(read)@, endian) && final(read)@
                == old(read)@.skip(16),
            res matches Err(err) ==> SourceVersionCommand::parse_error(old(read)@, endian) == Some(
                err,
            ) && final(read)@ == old(read)@,
    {
        let mut cur: &[u8] = *read;
        let (cmd, cmdsize) = read_prefix(&mut cur, endian, Self::TYPE, Some(Self::SIZE))?;
        let version = Version(read_u64_in(&mut cur, endian)?);
        *read = cur;
        Ok(SourceVersionCommand { cmd, cmdsize, version })
    }

    /// Appends the bytes of the command, as this machine writes them.
    pub fn write_into(&self, out: &mut Vec<u8>)
        ensures
            final(out)@ == old(out)@ + self.spec_bytes(Endian::Little) || final(out)@ == old(out)@
                + self.spec_bytes(Endian::Big),
    {
        self.write_into_in(out, Endian::native())
    }

    /// Appends the bytes of the command in byte order `endian`.
    pub fn write_into_in(&self, out: &mut Vec<u8>, endian: Endian)
        ensures
            final(out)@ == old(out)@ + self.spec_bytes(endian),
    {
        write_u32_in(out, self.cmd, endian);
        write_u32_in(out, self.cmdsize, endian);
        write_u64_in(out, self.version.0, endian);
    }
}

/// A.B.C.D.E packed as a24.b10.c10.d10.e10
///
/// The accessors give each part where it lies in the word: they mask and do
/// not shift.
#[derive(Debug, Clone, Copy, PartialEq, Eq, Structural)]
pub struct Version(pub u64);

impl Version {
    /// 40 ~ 64bit
    pub fn a(&self) -> (part: u64)
        ensures
            part == self.0 & 0xFFFF_FF00_0000_0000,
    {
        self.0 & 0xFFFF_FF00_0000_0000
    }

    /// 30 ~ 39bit
    pub fn b(&self) -> (part: u64)
        ensures
            part == self.0 & 0x0000_00FF_C000_0000,
    {
        self.0 & 0x0000_00FF_C000_0000
    }

    /// 20 ~ 29bit
    pub fn c(&self) -> (part: u64)
        ensures
            part == self.0 & 0x0000_0000_3FF0_0000,
    {
        self.0 & 0x0000_0000_3FF0_0000
    }

    /// 10 ~ 19bit
    pub fn d(&self) -> (part: u64)
        ensures
            part == self.0 & 0x0000_0000_000F_FC00,
    {
        self.0 & 0x0000_0000_000F_FC00
    }

    /// 0 ~ 9bit
    pub fn e(&self) -> (part: u64)
        ensures
            part == self.0 & 0x0000_0000_0000_03FF,
    {
        self.0 & 0x0000_0000_0000_03FF
    }
}

/// The five parts of a version share no bit and, put together, are the
/// whole word.
pub proof fn lemma_version_parts(v: u64)
    ensures
        (v & 0xFFFF_FF00_0000_0000) | (v & 0x0000_00FF_C000_0000) | (v & 0x0000_0000_3FF0_0000) | (v
            & 0x0000_0000_000F_FC00) | (v & 0x0000_0000_0000_03FF) == v,
        (v & 0xFFFF_FF00_0000_0000) & (v & 0x0000_00FF_C000_0000) == 0,
        ((v & 0xFFFF_FF00_0000_0000) | (v & 0x0000_00FF_C000_0000)) & (v & 0x0000_0000_3FF0_0000)
            == 0,
        ((v & 0xFFFF_FF00_0000_0000) | (v & 0x0000_00FF_C000_0000) | (v & 0x0000_0000_3FF0_0000))
            & (v & 0x0000_0000_000F_FC00) == 0,
        ((v & 0xFFFF_FF00_0000_0000) | (v & 0x0000_00FF_C000_0000) | (v & 0x0000_0000_3FF0_0000)
            | (v & 0x0000_0000_000F_FC00)) & (v & 0x0000_0000_0000_03FF) == 0,
{
    assert((v & 0xFFFF_FF00_0000_0000) | (v & 0x0000_00FF_C000_0000) | (v & 0x0000_0000_3FF0_0000)
        | (v & 0x0000_0000_000F_FC00) | (v & 0x0000_0000_0000_03FF) == v) by (bit_vector);
    assert((v & 0xFFFF_FF00_0000_0000) & (v & 0x0000_00FF_C000_0000) == 0) by (bit_vector);
    assert(((v & 0xFFFF_FF00_0000_0000) | (v & 0x0000_00FF_C000_0000)) & (v
        & 0x0000_0000_3FF0_0000) == 0) by (bit_vector);
    assert(((v & 0xFFFF_FF00_0000_0000) | (v & 0x0000_00FF_C000_0000) | (v
        & 0x0000_0000_3FF0_0000)) & (v & 0x0000_0000_000F_FC00) == 0) by (bit_vector);
    assert(((v & 0xFFFF_FF00_0000_0000) | (v & 0x0000_00FF_C000_0000) | (v & 0x0000_0000_3FF0_0000)
        | (v & 0x0000_0000_000F_FC00)) & (v & 0x0000_0000_0000_03FF) == 0) by (bit_vector);
}

/// A source version command is written back, in the byte order it was read
/// in, as the bytes it was read from.
pub proof fn lemma_source_version_decode_then_encode(
    command: SourceVersionCommand,
    b: Seq<u8>,
    e: Endian,
)
    requires
        SourceVersionCommand::parse_error(b, e) is None,
        command.parsed_from(b, e),
    ensures
        b.len() >= 16,
        command.spec_bytes(e) == b.take(16),
{
    lemma_u32_read_then_written(b, 0, e);
    lemma_u32_read_then_written(b, 4, e);
    lemma_u64_read_then_written(b, 8, e);
}

/// Bytes that start with the bytes of a source version command which
/// declares its own kind and size are read, in the byte order they were
/// written in, as that command.
pub proof fn lemma_source_version_encode_then_decode(
    command: SourceVersionCommand,
    b: Seq<u8>,
    e: Endian,
)
    requires
        command.spec_wf(),
        b.len() >= 16,
        b.take(16) == command.spec_bytes(e),
    ensures
        SourceVersionCommand::parse_error(b, e) is None,
        command.parsed_from(b, e),
{
    crate::io::lemma_u32_written_then_read(command.cmd, e);
    crate::io::lemma_u32_written_then_read(command.cmdsize, e);
    crate::io::lemma_u64_written_then_read(command.version.0, e);
    assert(b.subrange(0, 4) =~= u32_bytes(command.cmd, e));
    crate::io::lemma_u32_at_its_bytes(b, 0, command.cmd, e);
    assert(b.subrange(4, 8) =~= u32_bytes(command.cmdsize, e)) by {
        assert(b.take(16).subrange(4, 8) =~= b.subrange(4, 8));
    }
    crate::io::lemma_u32_at_its_bytes(b, 4, command.cmdsize, e);
    assert(b.subrange(8, 16) =~= u64_bytes(command.version.0, e)) by {
        assert(b.take(16).subrange(8, 16) =~= b.subrange(8, 16));
    }
    crate::io::lemma_u64_at_its_bytes(b, 8, command.version.0, e);
}

} // verus!
