use crate::error::Error;
use crate::io::{
    lemma_u32s_at_their_bytes, lemma_u32s_read_then_written, read_u32s_in, u32_at, u32s_bytes,
    write_u32s_in, Endian,
};
use crate::load_command::prefix::{prefix_error, read_prefix};
use vstd::prelude::*;

verus! {

/// The load command that divides the symbol table into local, defined
/// external and undefined symbols, and tells where the tables of the dynamic
/// linker lie in the file.
#[derive(Debug, Clone, Copy, PartialEq, Eq, Structural)]
pub struct DysymtabCommand {
    pub cmd: u32,
    pub cmdsize: u32,
    pub ilocalsym: u32,
    pub nlocalsym: u32,
    pub iextdefsym: u32,
    pub nextdefsym: u32,
    pub iundefsym: u32,
    pub nundefsym: u32,
    pub tocoff: u32,
    pub ntoc: u32,
    pub modtaboff: u32,
    pub nmodtab: u32,
    pub extrefsymoff: u32,
    pub nextrefsyms: u32,
    pub indirectsymoff: u32,
    pub nindirectsyms: u32,
    pub extreloff: u32,
    pub nextrel: u32,
    pub locreloff: u32,
    pub nlocrel: u32,
}

impl DysymtabCommand {
    pub const TYPE: u32 = 0xb;

    pub const SIZE: u32 = 0x50;

    /// Whether the command declares the kind and the size of a dysymtab
    /// command.
    pub open spec fn spec_wf(&self) -> bool {
        self.cmd == DysymtabCommand::TYPE && self.cmdsize == DysymtabCommand::SIZE
    }

    /// The twenty words of the command, in the order in which they are
    /// written.
    pub open spec fn spec_words(&self) -> Seq<u32> {
        seq![
            self.cmd,
            self.cmdsize,
            self.ilocalsym,
            self.nlocalsym,
            self.iextdefsym,
            self.nextdefsym,
            self.iundefsym,
            self.nundefsym,
            self.tocoff,
            self.ntoc,
            self.modtaboff,
            self.nmodtab,
            self.extrefsymoff,
            self.nextrefsyms,
            self.indirectsymoff,
            self.nindirectsyms,
            self.extreloff,
            self.nextrel,
            self.locreloff,
            self.nlocrel,
        ]
    }

    /// The bytes of the command in byte order `e`.
    pub open spec fn spec_bytes(&self, e: Endian) -> Seq<u8> {
        u32s_bytes(self.spec_words(), e)
    }

    /// Why `b` does not start with a dysymtab command in byte order `e`;
    /// `None` if it does.
    pub open spec fn parse_error(b: Seq<u8>, e: Endian) -> Option<Error> {
        if prefix_error(b, e, DysymtabCommand::TYPE, Some(DysymtabCommand::SIZE)) is Some {
            prefix_error(b, e, DysymtabCommand::TYPE, Some(DysymtabCommand::SIZE))
        } else if b.len() < 80 {
            Some(Error::TruncatedInput)
        } else {
            None
        }
    }

    /// Whether this is the dysymtab command that `b` starts with in byte
    /// order `e`.
    pub open spec fn parsed_from(&self, b: Seq<u8>, e: Endian) -> bool {
        &&& self.cmd == u32_at(b, 0, e)
        &&& self.cmdsize == u32_at(b, 4, e)
        &&& self.ilocalsym == u32_at(b, 8, e)
        &&& self.nlocalsym == u32_at(b, 12, e)
        &&& self.iextdefsym == u32_at(b, 16, e)
        &&& self.nextdefsym == u32_at(b, 20, e)
        &&& self.iundefsym == u32_at(b, 24, e)
        &&& self.nundefsym == u32_at(b, 28, e)
        &&& self.tocoff == u32_at(b, 32, e)
        &&& self.ntoc == u32_at(b, 36, e)
        &&& self.modtaboff == u32_at(b, 40, e)
        &&& self.nmodtab == u32_at(b, 44, e)
        &&& self.extrefsymoff == u32_at(b, 48, e)
        &&& self.nextrefsyms == u32_at(b, 52, e)
        &&& self.indirectsymoff == u32_at(b, 56, e)
        &&& self.nindirectsyms == u32_at(b, 60, e)
        &&& self.extreloff == u32_at(b, 64, e)
        &&& self.nextrel == u32_at(b, 68, e)
        &&& self.locreloff == u32_at(b, 72, e)
        &&& self.nlocrel == u32_at(b, 76, e)
    }

    /// Reads the dysymtab command that the input starts with.
    pub fn read_from_in(read: &mut &[u8], endian: Endian) -> (res: Result<DysymtabCommand, Error>)
        ensures
            res is Ok <==> DysymtabCommand::parse_error(old(read)@, endian) is None,
            res matches Ok(command) ==> command.parsed_from(old(read)@, endian) && final(read)@
                == old(read)@.skip(80),
            res matches Err(err) ==> DysymtabCommand::parse_error(old(read)@, endian) == Some(err)
                && final(read)@ == old(read)@,
    {
        let mut cur: &[u8] = *read;
        let (cmd, cmdsize) = read_prefix(&mut cur, endian, Self::TYPE, Some(Self::SIZE))?;
        let ws = read_u32s_in(&mut cur, 18, endian)?;
        *read = cur;
        Ok(DysymtabCommand {
            cmd,
            cmdsize,
            ilocalsym: ws[0],
            nlocalsym: ws[1],
            iextdefsym: ws[2],
            nextdefsym: ws[3],
            iundefsym: ws[4],
            nundefsym: ws[5],
            tocoff: ws[6],
            ntoc: ws[7],
            modtaboff: ws[8],
            nmodtab: ws[9],
            extrefsymoff: ws[10],
            nextrefsyms: ws[11],
            indirectsymoff: ws[12],
            nindirectsyms: ws[13],
            extreloff: ws[14],
            nextrel: ws[15],
            locreloff: ws[16],
            nlocrel: ws[17],
        })
    }

    /// Appends the bytes of the command, as this machine writes them.
    pub fn write_into(&self, out: &mut Vec<u8>)
        ensures
            final(out)@ == old(out)@ + self.spec_bytes(Endian::Little) || final(out)@ == old(out)@
                + self.spec_bytes(Endian::Big),
    {
        self.write_into_in(out, Endian::native())
    }

    /// Appends the bytes of the command in byte order `endian`.
    pub fn write_into_in(&self, out: &mut Vec<u8>, endian: Endian)
        ensures
            final(out)@ == old(out)@ + self.spec_bytes(endian),
    {
        let words: [u32; 20] = [
            self.cmd,
            self.cmdsize,
            self.ilocalsym,
            self.nlocalsym,
            self.iextdefsym,
            self.nextdefsym,
            self.iundefsym,
            self.nundefsym,
            self.tocoff,
            self.ntoc,
            self.modtaboff,
            self.nmodtab,
            self.extrefsymoff,
            self.nextrefsyms,
            self.indirectsymoff,
            self.nindirectsyms,
            self.extreloff,
            self.nextrel,
            self.locreloff,
            self.nlocrel,
        ];
        write_u32s_in(out, words.as_slice(), endian);
    }
}

/// A dysymtab command is written back, in the byte order it was read in, as
/// the bytes it was read from.
pub proof fn lemma_dysymtab_decode_then_encode(command: DysymtabCommand, b: Seq<u8>, e: Endian)
    requires
        DysymtabCommand::parse_error(b, e) is None,
        command.parsed_from(b, e),
    ensures
        b.len() >= 80,
        command.spec_bytes(e) == b.take(80),
{
    lemma_u32s_read_then_written(b, 0, command.spec_words(), e);
}

/// Bytes that start with the bytes of a dysymtab command which declares its
/// own kind and size are read, in the byte order they were written in, as
/// that command.
pub proof fn lemma_dysymtab_encode_then_decode(command: DysymtabCommand, b: Seq<u8>, e: Endian)
    requires
        command.spec_wf(),
        b.len() >= 80,
        b.take(80) == command.spec_bytes(e),
    ensures
        DysymtabCommand::parse_error(b, e) is None,
        command.parsed_from(b, e),
{
    let words = command.spec_words();
    lemma_u32s_at_their_bytes(b, 0, words, e);
}

} // verus!
