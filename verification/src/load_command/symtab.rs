use crate::error::Error;
use crate::io::{
    lemma_u32_at_its_bytes, lemma_u32_read_then_written, lemma_u32_written_then_read, read_u32_in,
    u32_at, u32_bytes, write_u32_in, Endian,
};
use crate::load_command::prefix::{prefix_error, read_prefix};
use vstd::prelude::*;

verus! {

/// The load command that tells where the symbol table and the string table
/// lie in the file. It holds neither.
#[derive(Debug, Clone, Copy, PartialEq, Eq, Structural)]
pub struct SymtabCommand {
    pub cmd: u32,
    pub cmdsize: u32,
    pub symoff: u32,
    pub nsyms: u32,
    pub stroff: u32,
    pub strsize: u32,
}

impl SymtabCommand {
    pub const TYPE: u32 = 0x2;

    pub const SIZE: u32 = 0x18;

    /// Whether the command declares the kind and the size of a symtab
    /// command.
    pub open spec fn spec_wf(&self) -> bool {
        self.cmd == SymtabCommand::TYPE && self.cmdsize == SymtabCommand::SIZE
    }

    /// The bytes of the command in byte order `e`.
    pub open spec fn spec_bytes(&self, e: Endian) -> Seq<u8> {
        u32_bytes(self.cmd, e) + u32_bytes(self.cmdsize, e) + u32_bytes(self.symoff, e)
            + u32_bytes(self.nsyms, e) + u32_bytes(self.stroff, e) + u32_bytes(self.strsize, e)
    }

    /// Why `b` does not start with a symtab command in byte order `e`;
    /// `None` if it does.
    pub open spec fn parse_error(b: Seq<u8>, e: Endian) -> Option<Error> {
        if prefix_error(b, e, SymtabCommand::TYPE, Some(SymtabCommand::SIZE)) is Some {
            prefix_error(b, e, SymtabCommand::TYPE, Some(SymtabCommand::SIZE))
        } else if b.len() < 24 {
            Some(Error::TruncatedInput)
        } else {
            None
        }
    }

    /// Whether this is the symtab command that `b` starts with in byte
    /// order `e`.
    pub open spec fn parsed_from(&self, b: Seq<u8>, e: Endian) -> bool {
        &&& self.cmd == u32_at(b, 0, e)
        &&& self.cmdsize == u32_at(b, 4, e)
        &&& self.symoff == u32_at(b, 8, e)
        &&& self.nsyms == u32_at(b, 12, e)
        &&& self.stroff == u32_at(b, 16, e)
        &&& self.strsize == u32_at(b, 20, e)
    }

    /// Reads the symtab command that the input starts with.
    pub fn read_from_in(read: &mut &[u8], endian: Endian) -> (res: Result<SymtabCommand, Error>)
        ensures
            res is Ok <==> SymtabCommand::parse_error(old(read)@, endian) is None,
            res matches Ok(command) ==> command.parsed_from(old(read)@, endian) && final(read)@
                == old(read)@.skip(24),
            res matches Err(err) ==> SymtabCommand::parse_error(old(read)@, endian) == Some(err)
                && final(read)@ == old(read)@,
    {
        let mut cur: &[u8] = *read;
        let (cmd, cmdsize) = read_prefix(&mut cur, endian, Self::TYPE, Some(Self::SIZE))?;
        let symoff = read_u32_in(&mut cur, endian)?;
        let nsyms = read_u32_in(&mut cur, endian)?;
        let stroff = read_u32_in(&mut cur, endian)?;
        let strsize = read_u32_in(&mut cur, endian)?;
        *read = cur;
        Ok(SymtabCommand { cmd, cmdsize, symoff, nsyms, stroff, strsize })
    }

    /// Appends the bytes of the command, as this machine writes them.
    pub fn write_into(&self, out: &mut Vec<u8>)
        ensures
            final(out)@ == old(out)@ + self.spec_bytes(Endian::Little) || final(out)@ == old(out)@
                + self.spec_bytes(Endian::Big),
    {
        self.write_into_in(out, Endian::native())
    }

    /// Appends the bytes of the command in byte order `endian`.
    pub fn write_into_in(&self, out: &mut Vec<u8>, endian: Endian)
        ensures
            final(out)@ == old(out)@ + self.spec_bytes(endian),
    {
        write_u32_in(out, self.cmd, endian);
        write_u32_in(out, self.cmdsize, endian);
        write_u32_in(out, self.symoff, endian);
        write_u32_in(out, self.nsyms, endian);
        write_u32_in(out, self.stroff, endian);
        write_u32_in(out, self.strsize, endian);
    }
}

/// A symtab command is written back, in the byte order it was read in, as
/// the bytes it was read from.
pub proof fn lemma_symtab_decode_then_encode(command: SymtabCommand, b: Seq<u8>, e: Endian)
    requires
        SymtabCommand::parse_error(b, e) is None,
        command.parsed_from(b, e),
    ensures
        b.len() >= 24,
        command.spec_bytes(e) == b.take(24),
{
    lemma_u32_read_then_written(b, 0, e);
    lemma_u32_read_then_written(b, 4, e);
    lemma_u32_read_then_written(b, 8, e);
    lemma_u32_read_then_written(b, 12, e);
    lemma_u32_read_then_written(b, 16, e);
    lemma_u32_read_then_written(b, 20, e);
}

/// Bytes that start with the bytes of a symtab command which declares its
/// own kind and size are read, in the byte order they were written in, as
/// that command.
pub proof fn lemma_symtab_encode_then_decode(command: SymtabCommand, b: Seq<u8>, e: Endian)
    requires
        command.spec_wf(),
        b.len() >= 24,
        b.take(24) == command.spec_bytes(e),
    ensures
        SymtabCommand::parse_error(b, e) is None,
        command.parsed_from(b, e),
{
    lemma_u32_written_then_read(command.cmd, e);
    lemma_u32_written_then_read(command.cmdsize, e);
    lemma_u32_written_then_read(command.symoff, e);
    lemma_u32_written_then_read(command.nsyms, e);
    lemma_u32_written_then_read(command.stroff, e);
    lemma_u32_written_then_read(command.strsize, e);
    assert(b.subrange(0, 4) =~= u32_bytes(command.cmd, e));
    lemma_u32_at_its_bytes(b, 0, command.cmd, e);
    assert(b.subrange(4, 8) =~= u32_bytes(command.cmdsize, e)) by {
        assert(b.take(24).subrange(4, 8) =~= b.subrange(4, 8));
    }
    lemma_u32_at_its_bytes(b, 4, command.cmdsize, e);
    assert(b.subrange(8, 12) =~= u32_bytes(command.symoff, e)) by {
        assert(b.take(24).subrange(8, 12) =~= b.subrange(8, 12));
    }
    lemma_u32_at_its_bytes(b, 8, command.symoff, e);
    assert(b.subrange(12, 16) =~= u32_bytes(command.nsyms, e)) by {
        assert(b.take(24).subrange(12, 16) =~= b.subrange(12, 16));
    }
    lemma_u32_at_its_bytes(b, 12, command.nsyms, e);
    assert(b.subrange(16, 20) =~= u32_bytes(command.stroff, e)) by {
        assert(b.take(24).subrange(16, 20) =~= b.subrange(16, 20));
    }
    lemma_u32_at_its_bytes(b, 16, command.stroff, e);
    assert(b.subrange(20, 24) =~= u32_bytes(command.strsize, e)) by {
        assert(b.take(24).subrange(20, 24) =~= b.subrange(20, 24));
    }
    lemma_u32_at_its_bytes(b, 20, command.strsize, e);
}

} // verus!
