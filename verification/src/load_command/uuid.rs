use crate::error::Error;
use crate::io::{read_bytes16, u32_at, u32_bytes, write_u32_in, Endian};
use crate::load_command::prefix::{prefix_error, read_prefix};
use vstd::prelude::*;

verus! {

/// The load command that holds the 128-bit identifier of the file.
#[derive(Debug, Clone, PartialEq, Eq)]
pub struct UuidCommand {
    pub cmd: u32,
    pub cmdsize: u32,
    pub uuid: [u8; 16],
}

impl UuidCommand {
    pub const TYPE: u32 = 0x1b;

    pub const SIZE: u32 = 0x18;

    /// Whether the command declares the kind and the size of a uuid
    /// command.
    pub open spec fn spec_wf(&self) -> bool {
        self.cmd == UuidCommand::TYPE && self.cmdsize == UuidCommand::SIZE
    }

    /// The bytes of the command in byte order `e`.
    pub open spec fn spec_bytes(&self, e: Endian) -> Seq<u8> {
        u32_bytes(self.cmd, e) + u32_bytes(self.cmdsize, e) + self.uuid@
    }

    /// Why `b` does not start with a uuid command in byte order `e`; `None`
    /// if it does.
    pub open spec fn parse_error(b: Seq<u8>, e: Endian) -> Option<Error> {
        if prefix_error(b, e, UuidCommand::TYPE, Some(UuidCommand::SIZE)) is Some {
            prefix_error(b, e, UuidCommand::TYPE, Some(UuidCommand::SIZE))
        } else if b.len() < 24 {
            Some(Error::TruncatedInput)
        } else {
            None
        }
    }

    /// Whether this is the uuid command that `b` starts with in byte order
    /// `e`.
    pub open spec fn parsed_from(&self, b: Seq<u8>, e: Endian) -> bool {
        &&& self.cmd == u32_at(b, 0, e)
        &&& self.cmdsize == u32_at(b, 4, e)
        &&& self.uuid@ == b.subrange(8, 24)
    }

    /// Reads the uuid command that the input starts with.
    pub fn read_from_in(read: &mut &[u8], endian: Endian) -> (res: Result<UuidCommand, Error>)
        ensures
            res is Ok <==> UuidCommand::parse_error(old(read)@, endian) is None,
            res matches Ok(command) ==> command.parsed_from(old(read)@, endian) && final(read)@
                == old(read)@.skip(24),
            res matches Err(err) ==> UuidCommand::parse_error(old(read)@, endian) == Some(err)
                && final(read)@ == old(read)@,
    {
        let mut cur: &[u8] = *read;
        let (cmd, cmdsize) = read_prefix(&mut cur, endian, Self::TYPE, Some(Self::SIZE))?;
        let uuid = read_bytes16(&mut cur)?;
        proof {
            assert(uuid@ =~= old(read)@.subrange(8, 24));
        }
        *read = cur;
        Ok(UuidCommand { cmd, cmdsize, uuid })
    }

    /// Appends the bytes of the command, as this machine writes them.
    pub fn write_into(&self, out: &mut Vec<u8>)
        ensures
            final(out)@ == old(out)@ + self.spec_bytes(Endian::Little) || final(out)@ == old(out)@
                + self.spec_bytes(Endian::Big),
    {
        self.write_into_in(out, Endian::native())
    }

    /// Appends the bytes of the command in byte order `endian`.
    pub fn write_into_in(&self, out: &mut Vec<u8>, endian: Endian)
        ensures
            final(out)@ == old(out)@ + self.spec_bytes(endian),
    {
        write_u32_in(out, self.cmd, endian);
        write_u32_in(out, self.cmdsize, endian);
        out.extend_from_slice(self.uuid.as_slice());
    }
}

/// A uuid command is written back, in the byte order it was read in, as the
/// bytes it was read from.
pub proof fn lemma_uuid_decode_then_encode(command: UuidCommand, b: Seq<u8>, e: Endian)
    requires
        UuidCommand::parse_error(b, e) is None,
        command.parsed_from(b, e),
    ensures
        b.len() >= 24,
        command.spec_bytes(e) == b.take(24),
{
    crate::io::lemma_u32_read_then_written(b, 0, e);
    crate::io::lemma_u32_read_then_written(b, 4, e);
}

/// Bytes that start with the bytes of a uuid command which declares its own
/// kind and size are read, in the byte order they were written in, as that
/// command.
pub proof fn lemma_uuid_encode_then_decode(command: UuidCommand, b: Seq<u8>, e: Endian)
    requires
        command.spec_wf(),
        b.len() >= 24,
        b.take(24) == command.spec_bytes(e),
    ensures
        UuidCommand::parse_error(b, e) is None,
        command.parsed_from(b, e),
{
    crate::io::lemma_u32_written_then_read(command.cmd, e);
    crate::io::lemma_u32_written_then_read(command.cmdsize, e);
    assert(b.subrange(0, 4) =~= u32_bytes(command.cmd, e));
    crate::io::lemma_u32_at_its_bytes(b, 0, command.cmd, e);
    assert(b.subrange(4, 8) =~= u32_bytes(command.cmdsize, e)) by {
        assert(b.take(24).subrange(4, 8) =~= b.subrange(4, 8));
    }
    crate::io::lemma_u32_at_its_bytes(b, 4, command.cmdsize, e);
    assert(b.subrange(8, 24) =~= command.uuid@) by {
        assert(b.take(24).subrange(8, 24) =~= b.subrange(8, 24));
    }
}

} // verus!
