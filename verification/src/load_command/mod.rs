//! The load commands that follow the header of a Mach-O file.

pub mod build_version;
pub mod dysymtab;
pub mod prefix;
pub mod section_flags;
pub mod segment64;
pub mod source_version;
pub mod symtab;
pub mod unix_thread;
pub mod uuid;

pub use self::build_version::{BuildToolVersion, BuildVersionCommand};
pub use self::dysymtab::DysymtabCommand;
pub use self::segment64::{Section64, SegmentCommand64};
pub use self::source_version::SourceVersionCommand;
pub use self::symtab::SymtabCommand;
pub use self::unix_thread::UnixThreadCommand;
pub use self::uuid::UuidCommand;

use crate::error::Error;
use crate::io::{read_bytes, read_u32_in, u32_at, Endian};
use vstd::prelude::*;

verus! {

/// One load command: one of the kinds that are read field by field, or the
/// kind and the bytes of one that is not.
#[derive(Debug, Clone, PartialEq, Eq)]
pub enum LoadCommand {
    Segment64(SegmentCommand64, Vec<Section64>),
    Symtab(SymtabCommand),
    UnixThread(UnixThreadCommand),
    Dysymtab(DysymtabCommand),
    Uuid(UuidCommand),
    BuildVersion(BuildVersionCommand, Vec<BuildToolVersion>),
    SourceVersion(SourceVersionCommand),
    /// The kind of the command, and the bytes that follow its kind and its
    /// size.
    Unsupported(u32, Vec<u8>),
}

impl LoadCommand {
    /// Whether commands of kind `tag` are read field by field.
    pub open spec fn spec_is_known(tag: u32) -> bool {
        ||| tag == SegmentCommand64::TYPE
        ||| tag == SymtabCommand::TYPE
        ||| tag == UnixThreadCommand::TYPE
        ||| tag == DysymtabCommand::TYPE
        ||| tag == UuidCommand::TYPE
        ||| tag == BuildVersionCommand::TYPE
        ||| tag == SourceVersionCommand::TYPE
    }

    /// The kind that the command holds.
    pub open spec fn spec_cmd(&self) -> u32 {
        match self {
            LoadCommand::Segment64(cmd, _) => cmd.cmd,
            LoadCommand::Symtab(cmd) => cmd.cmd,
            LoadCommand::UnixThread(cmd) => cmd.cmd,
            LoadCommand::Dysymtab(cmd) => cmd.cmd,
            LoadCommand::Uuid(cmd) => cmd.cmd,
            LoadCommand::BuildVersion(cmd, _) => cmd.cmd,
            LoadCommand::SourceVersion(cmd) => cmd.cmd,
            LoadCommand::Unsupported(cmd, _) => *cmd,
        }
    }

    /// The size that the command declares; for a command that is held as
    /// bytes, the size that it declared when it was read.
    pub open spec fn spec_cmd_size(&self) -> int {
        match self {
            LoadCommand::Segment64(cmd, _) => cmd.cmdsize as int,
            LoadCommand::Symtab(cmd) => cmd.cmdsize as int,
            LoadCommand::UnixThread(cmd) => cmd.cmdsize as int,
            LoadCommand::Dysymtab(cmd) => cmd.cmdsize as int,
            LoadCommand::Uuid(cmd) => cmd.cmdsize as int,
            LoadCommand::BuildVersion(cmd, _) => cmd.cmdsize as int,
            LoadCommand::SourceVersion(cmd) => cmd.cmdsize as int,
            LoadCommand::Unsupported(_, data) => data@.len() as int + 8,
        }
    }

    /// Whether the command is as a command is that was read: it declares
    /// the kind, and where the kind has one size, the size, of what it
    /// holds; it holds as many sections, or tool versions, as it announces;
    /// and what it holds is itself as it is when read. A command that is
    /// held as bytes is of none of the kinds that are read field by field,
    /// and holds no more bytes than a size of 32 bits can declare.
    pub open spec fn spec_wf(&self) -> bool {
        match self {
            LoadCommand::Segment64(cmd, sections) => {
                &&& cmd.spec_wf()
                &&& sections@.len() == cmd.nsects
                &&& forall|i: int| 0 <= i < sections@.len() ==> (#[trigger] sections@[i]).spec_wf()
            },
            LoadCommand::Symtab(cmd) => cmd.spec_wf(),
            LoadCommand::UnixThread(cmd) => cmd.cmd == UnixThreadCommand::TYPE && cmd.spec_wf(),
            LoadCommand::Dysymtab(cmd) => cmd.spec_wf(),
            LoadCommand::Uuid(cmd) => cmd.spec_wf(),
            LoadCommand::BuildVersion(cmd, tools) => cmd.spec_wf() && tools@.len() == cmd.ntools,
            LoadCommand::SourceVersion(cmd) => cmd.spec_wf(),
            LoadCommand::Unsupported(cmd, data) => !LoadCommand::spec_is_known(*cmd) && data@.len()
                + 8 <= u32::MAX,
        }
    }

    /// Whether the command can be written: whether it is of a kind that is
    /// read field by field.
    pub open spec fn spec_writable(&self) -> bool {
        !(self is Unsupported)
    }

    /// The bytes of the command in byte order `e`, where it can be written.
    pub open spec fn spec_bytes(&self, e: Endian) -> Seq<u8> {
        match self {
            LoadCommand::Segment64(cmd, sections) => cmd.spec_bytes(e) + Section64::all_bytes(
                sections@,
                e,
            ),
            LoadCommand::Symtab(cmd) => cmd.spec_bytes(e),
            LoadCommand::UnixThread(cmd) => cmd.spec_bytes(e),
            LoadCommand::Dysymtab(cmd) => cmd.spec_bytes(e),
            LoadCommand::Uuid(cmd) => cmd.spec_bytes(e),
            LoadCommand::BuildVersion(cmd, tools) => cmd.spec_bytes(e)
                + BuildToolVersion::all_bytes(tools@, e),
            LoadCommand::SourceVersion(cmd) => cmd.spec_bytes(e),
            LoadCommand::Unsupported(_, _) => Seq::empty(),
        }
    }

    /// The number of bytes that the command takes in a file.
    pub open spec fn spec_len(&self) -> nat {
        match self {
            LoadCommand::Segment64(_, sections) => 72 + 80 * sections@.len(),
            LoadCommand::Symtab(_) => 24,
            LoadCommand::UnixThread(cmd) => cmd.spec_len(),
            LoadCommand::Dysymtab(_) => 80,
            LoadCommand::Uuid(_) => 24,
            LoadCommand::BuildVersion(_, tools) => 24 + 8 * tools@.len(),
            LoadCommand::SourceVersion(_) => 16,
            LoadCommand::Unsupported(_, data) => 8 + data@.len(),
        }
    }

    /// Why `b` does not start with a command of a kind that is not read
    /// field by field: with a kind, a size of at least the eight bytes of
    /// these two, and as many bytes as the size tells; `None` if it does.
    pub open spec fn unsupported_error(b: Seq<u8>, e: Endian) -> Option<Error> {
        if b.len() < 8 {
            Some(Error::TruncatedInput)
        } else if u32_at(b, 4, e) < 8 {
            Some(Error::SizeMismatch { expected: 8, actual: u32_at(b, 4, e) })
        } else if b.len() < u32_at(b, 4, e) {
            Some(Error::TruncatedInput)
        } else {
            None
        }
    }

    /// Why `b` does not start with a load command in byte order `e`: the
    /// error of the kind that its first word tells; `None` if it does.
    pub open spec fn parse_error(b: Seq<u8>, e: Endian) -> Option<Error> {
        if b.len() < 4 {
            Some(Error::TruncatedInput)
        } else {
            let tag = u32_at(b, 0, e);
            if tag == SegmentCommand64::TYPE {
                if SegmentCommand64::parse_error(b, e) is Some {
                    SegmentCommand64::parse_error(b, e)
                } else {
                    Section64::all_error(b.skip(72), u32_at(b, 64, e) as nat, e)
                }
            } else if tag == SymtabCommand::TYPE {
                SymtabCommand::parse_error(b, e)
            } else if tag == UnixThreadCommand::TYPE {
                UnixThreadCommand::parse_error(b, e)
            } else if tag == DysymtabCommand::TYPE {
                DysymtabCommand::parse_error(b, e)
            } else if tag == UuidCommand::TYPE {
                UuidCommand::parse_error(b, e)
            } else if tag == BuildVersionCommand::TYPE {
                if BuildVersionCommand::parse_error(b, e) is Some {
                    BuildVersionCommand::parse_error(b, e)
                } else {
                    BuildToolVersion::all_error(b.skip(24), u32_at(b, 20, e) as nat, e)
                }
            } else if tag == SourceVersionCommand::TYPE {
                SourceVersionCommand::parse_error(b, e)
            } else {
                LoadCommand::unsupported_error(b, e)
            }
        }
    }

    /// Whether this is the load command that `b` starts with in byte order
    /// `e`: of the kind that the first word of `b` tells, with the fields,
    /// and the sections or tool versions, that `b` holds; or, for a kind
    /// that is not read field by field, with the bytes that follow the size.
    pub open spec fn parsed_from(&self, b: Seq<u8>, e: Endian) -> bool {
        match self {
            LoadCommand::Segment64(cmd, sections) => {
                &&& u32_at(b, 0, e) == SegmentCommand64::TYPE
                &&& cmd.parsed_from(b, e)
                &&& sections@.len() == cmd.nsects
                &&& Section64::all_parsed_from(sections@, b.skip(72), e)
            },
            LoadCommand::Symtab(cmd) => u32_at(b, 0, e) == SymtabCommand::TYPE && cmd.parsed_from(
                b,
                e,
            ),
            LoadCommand::UnixThread(cmd) => u32_at(b, 0, e) == UnixThreadCommand::TYPE
                && cmd.parsed_from(b, e),
            LoadCommand::Dysymtab(cmd) => u32_at(b, 0, e) == DysymtabCommand::TYPE
                && cmd.parsed_from(b, e),
            LoadCommand::Uuid(cmd) => u32_at(b, 0, e) == UuidCommand::TYPE && cmd.parsed_from(b, e),
            LoadCommand::BuildVersion(cmd, tools) => {
                &&& u32_at(b, 0, e) == BuildVersionCommand::TYPE
                &&& cmd.parsed_from(b, e)
                &&& tools@.len() == cmd.ntools
                &&& BuildToolVersion::all_parsed_from(tools@, b.skip(24), e)
            },
            LoadCommand::SourceVersion(cmd) => u32_at(b, 0, e) == SourceVersionCommand::TYPE
                && cmd.parsed_from(b, e),
            LoadCommand::Unsupported(cmd, data) => {
                &&& !LoadCommand::spec_is_known(u32_at(b, 0, e))
                &&& *cmd == u32_at(b, 0, e)
                &&& data@ == b.subrange(8, u32_at(b, 4, e) as int)
            },
        }
    }

    pub fn cmd(&self) -> (cmd: u32)
        ensures
            cmd == self.spec_cmd(),
    {
        match self {
            LoadCommand::Segment64(cmd, _) => cmd.cmd,
            LoadCommand::Symtab(cmd) => cmd.cmd,
            LoadCommand::UnixThread(cmd) => cmd.cmd,
            LoadCommand::Dysymtab(cmd) => cmd.cmd,
            LoadCommand::Uuid(cmd) => cmd.cmd,
            LoadCommand::BuildVersion(cmd, _) => cmd.cmd,
            LoadCommand::SourceVersion(cmd) => cmd.cmd,
            LoadCommand::Unsupported(cmd, _) => *cmd,
        }
    }

    pub fn cmd_size(&self) -> (cmd_size: u32)
        requires
            self.spec_cmd_size() <= u32::MAX,
        ensures
            cmd_size == self.spec_cmd_size(),
    {
        match self {
            LoadCommand::Segment64(cmd, _) => cmd.cmdsize,
            LoadCommand::Symtab(cmd) => cmd.cmdsize,
            LoadCommand::UnixThread(cmd) => cmd.cmdsize,
            LoadCommand::Dysymtab(cmd) => cmd.cmdsize,
            LoadCommand::Uuid(cmd) => cmd.cmdsize,
            LoadCommand::BuildVersion(cmd, _) => cmd.cmdsize,
            LoadCommand::SourceVersion(cmd) => cmd.cmdsize,
            LoadCommand::Unsupported(_, data) => data.len() as u32 + 8,
        }
    }

    /// Reads the load command that the input starts with: looks at its kind,
    /// and reads it as that kind is read.
    pub fn read_from_in(read: &mut &[u8], endian: Endian) -> (res: Result<LoadCommand, Error>)
        ensures
            res is Ok <==> LoadCommand::parse_error(old(read)@, endian) is None,
            res matches Ok(command) ==> command.parsed_from(old(read)@, endian) && command.spec_wf()
                && command.spec_len() <= old(read)@.len() && final(read)@ == old(read)@.skip(
                command.spec_len() as int,
            ),
            res matches Err(err) ==> LoadCommand::parse_error(old(read)@, endian) == Some(err)
                && final(read)@ == old(read)@,
    {
        let mut cur: &[u8] = *read;
        let mut peek: &[u8] = *read;
        let cmd = read_u32_in(&mut peek, endian)?;

        let command = if cmd == SegmentCommand64::TYPE {
            let cmd = SegmentCommand64::read_from_in(&mut cur, endian)?;
            let sections = Section64::read_all_from_in(&mut cur, cmd.nsects, endian)?;
            LoadCommand::Segment64(cmd, sections)
        } else if cmd == SymtabCommand::TYPE {
            let cmd = SymtabCommand::read_from_in(&mut cur, endian)?;
            LoadCommand::Symtab(cmd)
        } else if cmd == UnixThreadCommand::TYPE {
            let cmd = UnixThreadCommand::read_from_in(&mut cur, endian)?;
            LoadCommand::UnixThread(cmd)
        } else if cmd == DysymtabCommand::TYPE {
            let cmd = DysymtabCommand::read_from_in(&mut cur, endian)?;
            LoadCommand::Dysymtab(cmd)
        } else if cmd == UuidCommand::TYPE {
            let cmd = UuidCommand::read_from_in(&mut cur, endian)?;
            LoadCommand::Uuid(cmd)
        } else if cmd == BuildVersionCommand::TYPE {
            let cmd = BuildVersionCommand::read_from_in(&mut cur, endian)?;
            let tools = BuildToolVersion::read_all_from_in(&mut cur, cmd.ntools, endian)?;
            LoadCommand::BuildVersion(cmd, tools)
        } else if cmd == SourceVersionCommand::TYPE {
            let cmd = SourceVersionCommand::read_from_in(&mut cur, endian)?;
            LoadCommand::SourceVersion(cmd)
        } else {
            let _cmd = read_u32_in(&mut cur, endian)?;
            let cmdsize = read_u32_in(&mut cur, endian)?;
            if cmdsize < 8 {
                return Err(Error::SizeMismatch { expected: 8, actual: cmdsize });
            }
            let len = cmdsize - 8;
            if (cur.len() as u64) < len as u64 {
                return Err(Error::TruncatedInput);
            }
            let data = read_bytes(&mut cur, len as usize)?;
            proof {
                assert(data@ =~= old(read)@.subrange(8, cmdsize as int));
            }
            LoadCommand::Unsupported(cmd, data)
        };
        proof {
            assert(cur@ =~= old(read)@.skip(command.spec_len() as int));
            lemma_load_command_decoded_is_wf(command, old(read)@, endian);
        }
        *read = cur;
        Ok(command)
    }

    /// Appends the bytes of the command, as this machine writes them. A
    /// command that is held as bytes is refused.
    pub fn write_into(&self, out: &mut Vec<u8>) -> (res: Result<(), Error>)
        ensures
            res is Ok <==> self.spec_writable(),
            res is Ok ==> final(out)@ == old(out)@ + self.spec_bytes(Endian::Little) || final(out)@
                == old(out)@ + self.spec_bytes(Endian::Big),
            res matches Err(err) ==> err == Error::UnwritableUnknownCommand
                && final(out)@ == old(out)@,
    {
        self.write_into_in(out, Endian::native())
    }

    /// Appends the bytes of the command in byte order `endian`. A command
    /// that is held as bytes is refused.
    pub fn write_into_in(&self, out: &mut Vec<u8>, endian: Endian) -> (res: Result<(), Error>)
        ensures
            res is Ok <==> self.spec_writable(),
            res is Ok ==> final(out)@ == old(out)@ + self.spec_bytes(endian),
            res matches Err(err) ==> err == Error::UnwritableUnknownCommand
                && final(out)@ == old(out)@,
    {
        match self {
            LoadCommand::Segment64(cmd, sections) => {
                cmd.write_into_in(out, endian);
                Section64::write_all_into_in(sections.as_slice(), out, endian);
                proof {
                    assert(out@ =~= old(out)@ + self.spec_bytes(endian));
                }
            },
            LoadCommand::Symtab(cmd) => {
                cmd.write_into_in(out, endian);
            },
            LoadCommand::UnixThread(cmd) => {
                cmd.write_into_in(out, endian);
            },
            LoadCommand::Dysymtab(cmd) => {
                cmd.write_into_in(out, endian);
            },
            LoadCommand::Uuid(cmd) => {
                cmd.write_into_in(out, endian);
            },
            LoadCommand::BuildVersion(cmd, tools) => {
                cmd.write_into_in(out, endian);
                BuildToolVersion::write_all_into_in(tools.as_slice(), out, endian);
                proof {
                    assert(out@ =~= old(out)@ + self.spec_bytes(endian));
                }
            },
            LoadCommand::SourceVersion(cmd) => {
                cmd.write_into_in(out, endian);
            },
            LoadCommand::Unsupported(_, _) => {
                return Err(Error::UnwritableUnknownCommand);
            },
        }
        Ok(())
    }
}

/// The number of sections of the segment commands among the first `n` of
/// `cmds`.
pub open spec fn spec_count_sects(cmds: Seq<LoadCommand>, n: nat) -> nat
    decreases n,
{
    if n == 0 {
        0
    } else {
        spec_count_sects(cmds, (n - 1) as nat) + match cmds[n - 1] {
            LoadCommand::Segment64(_, sections) => sections@.len(),
            _ => 0,
        }
    }
}

/// The number of sections that come before those of the command at
/// `seg_idx`: sections are numbered through all the segments of a file.
pub fn count_prev_sects(cmds: &[LoadCommand], seg_idx: usize) -> (n: usize)
    requires
        seg_idx <= cmds@.len(),
        spec_count_sects(cmds@, seg_idx as nat) <= usize::MAX,
    ensures
        n == spec_count_sects(cmds@, seg_idx as nat),
{
    let mut n: usize = 0;

    for i in 0..seg_idx
        invariant
            seg_idx <= cmds@.len(),
            n == spec_count_sects(cmds@, i as nat),
            spec_count_sects(cmds@, seg_idx as nat) <= usize::MAX,
    {
        proof {
            lemma_count_sects_grows(cmds@, (i + 1) as nat, seg_idx as nat);
        }
        if let LoadCommand::Segment64(_, sects) = &cmds[i] {
            n += sects.len();
        }
    }

    n
}

/// The count of sections among the first commands does not go down as more
/// commands are taken.
pub proof fn lemma_count_sects_grows(cmds: Seq<LoadCommand>, m: nat, n: nat)
    requires
        m <= n,
    ensures
        spec_count_sects(cmds, m) <= spec_count_sects(cmds, n),
    decreases n,
{
    if m < n {
        lemma_count_sects_grows(cmds, m, (n - 1) as nat);
    }
}

/// A load command that was read is of a kind that can be written unless its
/// kind is none of those that are read field by field; and then it is
/// written back, in the byte order it was read in, as the bytes it was read
/// from. For a segment these are the bytes of the command and of as many
/// sections as it announces.
pub proof fn lemma_load_command_decode_then_encode(command: LoadCommand, b: Seq<u8>, e: Endian)
    requires
        LoadCommand::parse_error(b, e) is None,
        command.parsed_from(b, e),
    ensures
        command.spec_writable() <==> LoadCommand::spec_is_known(u32_at(b, 0, e)),
        command.spec_len() <= b.len(),
        command.spec_writable() ==> command.spec_bytes(e) == b.take(command.spec_len() as int),
        command matches LoadCommand::Segment64(cmd, sections) ==> command.spec_len() == 72 + 80
            * u32_at(b, 64, e),
{
    match command {
        LoadCommand::Segment64(cmd, sections) => {
            self::segment64::lemma_segment_and_sections_decode_then_encode(cmd, sections@, b, e);
        },
        LoadCommand::Symtab(cmd) => {
            self::symtab::lemma_symtab_decode_then_encode(cmd, b, e);
        },
        LoadCommand::UnixThread(cmd) => {
            self::unix_thread::lemma_unix_thread_decode_then_encode(cmd, b, e);
        },
        LoadCommand::Dysymtab(cmd) => {
            self::dysymtab::lemma_dysymtab_decode_then_encode(cmd, b, e);
        },
        LoadCommand::Uuid(cmd) => {
            self::uuid::lemma_uuid_decode_then_encode(cmd, b, e);
        },
        LoadCommand::BuildVersion(cmd, tools) => {
            self::build_version::lemma_build_version_and_tools_decode_then_encode(
                cmd,
                tools@,
                b,
                e,
            );
        },
        LoadCommand::SourceVersion(cmd) => {
            self::source_version::lemma_source_version_decode_then_encode(cmd, b, e);
        },
        LoadCommand::Unsupported(_, data) => {},
    }
}

/// Bytes that start with a kind that is not read field by field, then a
/// size of at least eight, then the rest of as many bytes as the size tells,
/// are read as a command. What is read holds the kind and the bytes after
/// the size, eight fewer than the size tells, and cannot be written.
pub proof fn lemma_unsupported_is_read_and_not_written(command: LoadCommand, b: Seq<u8>, e: Endian)
    requires
        b.len() >= 8,
        !LoadCommand::spec_is_known(u32_at(b, 0, e)),
        u32_at(b, 4, e) >= 8,
        b.len() >= u32_at(b, 4, e),
    ensures
        LoadCommand::parse_error(b, e) is None,
        command.parsed_from(b, e) ==> !command.spec_writable() && command
            == LoadCommand::Unsupported(
            u32_at(b, 0, e),
            command->Unsupported_1,
        ) && command->Unsupported_1@ == b.subrange(8, u32_at(b, 4, e) as int)
            && command->Unsupported_1@.len() == u32_at(b, 4, e) - 8,
{
}

/// A load command that was read is well formed.
pub proof fn lemma_load_command_decoded_is_wf(command: LoadCommand, b: Seq<u8>, e: Endian)
    requires
        LoadCommand::parse_error(b, e) is None,
        command.parsed_from(b, e),
    ensures
        command.spec_wf(),
{
    match command {
        LoadCommand::Segment64(cmd, sections) => {
            assert forall|i: int| 0 <= i < sections@.len() implies (
            #[trigger] sections@[i]).spec_wf() by {
                assert(sections@[i].parsed_from(b.skip(72).skip(80 * i), e));
                self::section_flags::lemma_section_flags_decoded_is_wf(
                    sections@[i].flags,
                    u32_at(b.skip(72).skip(80 * i), 64, e),
                );
            }
        },
        LoadCommand::UnixThread(cmd) => {},
        _ => {},
    }
}

/// Bytes that start with the bytes of a well-formed load command of a kind
/// that can be written are read, in the byte order they were written in, as
/// that command.
pub proof fn lemma_load_command_encode_then_decode(command: LoadCommand, b: Seq<u8>, e: Endian)
    requires
        command.spec_wf(),
        command.spec_writable(),
        b.len() >= command.spec_len(),
        b.take(command.spec_len() as int) == command.spec_bytes(e),
    ensures
        LoadCommand::parse_error(b, e) is None,
        command.parsed_from(b, e),
{
    match command {
        LoadCommand::Segment64(cmd, sections) => {
            self::segment64::lemma_segment_and_sections_encode_then_decode(cmd, sections@, b, e);
        },
        LoadCommand::Symtab(cmd) => {
            self::symtab::lemma_symtab_encode_then_decode(cmd, b, e);
        },
        LoadCommand::UnixThread(cmd) => {
            self::unix_thread::lemma_unix_thread_encode_then_decode(cmd, b, e);
        },
        LoadCommand::Dysymtab(cmd) => {
            self::dysymtab::lemma_dysymtab_encode_then_decode(cmd, b, e);
        },
        LoadCommand::Uuid(cmd) => {
            self::uuid::lemma_uuid_encode_then_decode(cmd, b, e);
        },
        LoadCommand::BuildVersion(cmd, tools) => {
            self::build_version::lemma_build_version_and_tools_encode_then_decode(
                cmd,
                tools@,
                b,
                e,
            );
        },
        LoadCommand::SourceVersion(cmd) => {
            self::source_version::lemma_source_version_encode_then_decode(cmd, b, e);
        },
        LoadCommand::Unsupported(_, _) => {},
    }
}

} // verus!
