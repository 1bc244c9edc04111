use crate::error::Error;
use crate::io::{
    lemma_u32_at_its_bytes, lemma_u32_read_then_written, lemma_u32_written_then_read,
    lemma_u64s_read_then_written, read_bytes, read_u32_in, read_u64s_in, u32_at, u32_bytes, u64_at,
    u64s_bytes, write_u32_in, write_u64s_in, Endian,
};
use vstd::prelude::*;

verus! {

/// The load command that holds the registers that the main thread of a
/// process starts with: the flavor of the state, its size in 32-bit words,
/// and the state.
#[derive(Debug, Clone, PartialEq, Eq)]
pub struct UnixThreadCommand {
    pub cmd: u32,
    pub cmdsize: u32,
    pub flavor: Flavor,
    /// The size of the state in 32-bit words.
    pub count: u32,
    pub state: ThreadState,
}

/// Which machine a thread state is for.
#[derive(Debug, Clone, PartialEq, Eq)]
pub enum Flavor {
    ThreadStateX86_64,
    Unknown(u32),
}

/// The registers of a thread: those of an x86_64, or the bytes of a state
/// that is not known.
#[derive(Debug, Clone, PartialEq, Eq)]
pub enum ThreadState {
    X86_64(StateX86_64),
    Unknown(Vec<u8>),
}

/// The registers of an x86_64, in the order in which they are written.
#[derive(Debug, Clone, PartialEq, Eq)]
pub struct StateX86_64 {
    pub __rax: u64,
    pub __rbx: u64,
    pub __rcx: u64,
    pub __rdx: u64,
    pub __rdi: u64,
    pub __rsi: u64,
    pub __rbp: u64,
    pub __rsp: u64,
    pub __r8: u64,
    pub __r9: u64,
    pub __r10: u64,
    pub __r11: u64,
    pub __r12: u64,
    pub __r13: u64,
    pub __r14: u64,
    pub __r15: u64,
    pub __rip: u64,
    pub __rflags: u64,
    pub __cs: u64,
    pub __fs: u64,
    pub __gs: u64,
}

impl Flavor {
    /// The number of the flavor.
    pub open spec fn spec_to_u32(&self) -> u32 {
        match self {
            Flavor::ThreadStateX86_64 => 4,
            Flavor::Unknown(n) => *n,
        }
    }

    /// The flavor with number `n`.
    pub open spec fn spec_from_u32(n: u32) -> Flavor {
        if n == 4 {
            Flavor::ThreadStateX86_64
        } else {
            Flavor::Unknown(n)
        }
    }

    /// Reads the flavor that the input starts with.
    pub fn read_from_in(read: &mut &[u8], endian: Endian) -> (res: Result<Flavor, Error>)
        ensures
            res is Ok <==> old(read)@.len() >= 4,
            res matches Ok(flavor) ==> flavor == Flavor::spec_from_u32(
                u32_at(old(read)@, 0, endian),
            ) && final(read)@ == old(read)@.skip(4),
            res matches Err(err) ==> err == Error::TruncatedInput && final(read)@ == old(read)@,
    {
        match read_u32_in(read, endian)? {
            4 => Ok(Flavor::ThreadStateX86_64),
            n => Ok(Flavor::Unknown(n)),
        }
    }

    /// Appends the number of the flavor, as this machine writes it.
    pub fn write_into(&self, out: &mut Vec<u8>)
        ensures
            final(out)@ == old(out)@ + u32_bytes(self.spec_to_u32(), Endian::Little)
                || final(out)@ == old(out)@ + u32_bytes(self.spec_to_u32(), Endian::Big),
    {
        self.write_into_in(out, Endian::native())
    }

    /// Appends the number of the flavor in byte order `endian`.
    pub fn write_into_in(&self, out: &mut Vec<u8>, endian: Endian)
        ensures
            final(out)@ == old(out)@ + u32_bytes(self.spec_to_u32(), endian),
    {
        match self {
            Flavor::ThreadStateX86_64 => write_u32_in(out, 4, endian),
            Flavor::Unknown(n) => write_u32_in(out, *n, endian),
        }
    }
}

impl StateX86_64 {
    /// The number of bytes of the state.
    pub const SIZE: u32 = 168;

    /// The twenty-one registers, in the order in which they are written.
    pub open spec fn spec_words(&self) -> Seq<u64> {
        seq![
            self.__rax,
            self.__rbx,
            self.__rcx,
            self.__rdx,
            self.__rdi,
            self.__rsi,
            self.__rbp,
            self.__rsp,
            self.__r8,
            self.__r9,
            self.__r10,
            self.__r11,
            self.__r12,
            self.__r13,
            self.__r14,
            self.__r15,
            self.__rip,
            self.__rflags,
            self.__cs,
            self.__fs,
            self.__gs,
        ]
    }

    /// The bytes of the state in byte order `e`.
    pub open spec fn spec_bytes(&self, e: Endian) -> Seq<u8> {
        u64s_bytes(self.spec_words(), e)
    }

    /// Whether these are the registers that `b` starts with in byte order
    /// `e`.
    pub open spec fn parsed_from(&self, b: Seq<u8>, e: Endian) -> bool {
        forall|i: int| 0 <= i < 21 ==> #[trigger] self.spec_words()[i] == u64_at(b, 8 * i, e)
    }

    /// Reads the registers that the input starts with.
    pub fn read_from_in(read: &mut &[u8], endian: Endian) -> (res: Result<StateX86_64, Error>)
        ensures
            res is Ok <==> old(read)@.len() >= 168,
            res matches Ok(state) ==> state.parsed_from(old(read)@, endian)
                && final(read)@ == old(read)@.skip(168),
            res matches Err(err) ==> err == Error::TruncatedInput && final(read)@ == old(read)@,
    {
        let ws = read_u64s_in(read, 21, endian)?;
        let state = StateX86_64 {
            __rax: ws[0],
            __rbx: ws[1],
            __rcx: ws[2],
            __rdx: ws[3],
            __rdi: ws[4],
            __rsi: ws[5],
            __rbp: ws[6],
            __rsp: ws[7],
            __r8: ws[8],
            __r9: ws[9],
            __r10: ws[10],
            __r11: ws[11],
            __r12: ws[12],
            __r13: ws[13],
            __r14: ws[14],
            __r15: ws[15],
            __rip: ws[16],
            __rflags: ws[17],
            __cs: ws[18],
            __fs: ws[19],
            __gs: ws[20],
        };
        proof {
            assert(state.spec_words() =~= ws@);
        }
        Ok(state)
    }

    /// Appends the bytes of the state, as this machine writes them.
    pub fn write_into(&self, out: &mut Vec<u8>)
        ensures
            final(out)@ == old(out)@ + self.spec_bytes(Endian::Little) || final(out)@ == old(out)@
                + self.spec_bytes(Endian::Big),
    {
        self.write_into_in(out, Endian::native())
    }

    /// Appends the bytes of the state in byte order `endian`.
    pub fn write_into_in(&self, out: &mut Vec<u8>, endian: Endian)
        ensures
            final(out)@ == old(out)@ + self.spec_bytes(endian),
    {
        let words: [u64; 21] = [
            self.__rax,
            self.__rbx,
            self.__rcx,
            self.__rdx,
            self.__rdi,
            self.__rsi,
            self.__rbp,
            self.__rsp,
            self.__r8,
            self.__r9,
            self.__r10,
            self.__r11,
            self.__r12,
            self.__r13,
            self.__r14,
            self.__r15,
            self.__rip,
            self.__rflags,
            self.__cs,
            self.__fs,
            self.__gs,
        ];
        write_u64s_in(out, words.as_slice(), endian);
    }
}

impl ThreadState {
    /// The bytes of the state in byte order `e`.
    pub open spec fn spec_bytes(&self, e: Endian) -> Seq<u8> {
        match self {
            ThreadState::X86_64(state) => state.spec_bytes(e),
            ThreadState::Unknown(state) => state@,
        }
    }

    /// The number of bytes of the state.
    pub open spec fn spec_len(&self) -> nat {
        match self {
            ThreadState::X86_64(_) => 168,
            ThreadState::Unknown(state) => state@.len(),
        }
    }
}

impl UnixThreadCommand {
    pub const TYPE: u32 = 0x5;

    /// Whether the state of the command is of the flavor and of the size
    /// that the command tells: the registers of an x86_64 under that flavor,
    /// and under any other, which is not held as the number of that one,
    /// four bytes for each word that the command announces.
    pub open spec fn spec_wf(&self) -> bool {
        match self.state {
            ThreadState::X86_64(_) => self.flavor == Flavor::ThreadStateX86_64,
            ThreadState::Unknown(state) => self.flavor matches Flavor::Unknown(n) && n != 4
                && state@.len() == 4 * self.count,
        }
    }

    /// The bytes of the command in byte order `e`.
    pub open spec fn spec_bytes(&self, e: Endian) -> Seq<u8> {
        u32_bytes(self.cmd, e) + u32_bytes(self.cmdsize, e) + u32_bytes(
            self.flavor.spec_to_u32(),
            e,
        ) + u32_bytes(self.count, e) + self.state.spec_bytes(e)
    }

    /// The number of bytes of the command.
    pub open spec fn spec_len(&self) -> nat {
        16 + self.state.spec_len()
    }

    /// The number of bytes that the state of a command takes whose flavor
    /// has number `flavor_n` and whose state is announced as `count` words:
    /// for an x86_64, that of its registers, whatever is announced.
    pub open spec fn state_len(flavor_n: u32, count: u32) -> nat {
        if flavor_n == 4 {
            168
        } else {
            4 * (count as nat)
        }
    }

    /// Why `b` does not start with a thread command in byte order `e`;
    /// `None` if it does. Neither the kind nor the size of the command is
    /// held against anything.
    pub open spec fn parse_error(b: Seq<u8>, e: Endian) -> Option<Error> {
        if b.len() < 16 {
            Some(Error::TruncatedInput)
        } else if b.len() < 16 + UnixThreadCommand::state_len(u32_at(b, 8, e), u32_at(b, 12, e)) {
            Some(Error::TruncatedInput)
        } else {
            None
        }
    }

    /// Whether this is the thread command that `b` starts with in byte order
    /// `e`.
    pub open spec fn parsed_from(&self, b: Seq<u8>, e: Endian) -> bool {
        &&& self.cmd == u32_at(b, 0, e)
        &&& self.cmdsize == u32_at(b, 4, e)
        &&& self.flavor == Flavor::spec_from_u32(u32_at(b, 8, e))
        &&& self.count == u32_at(b, 12, e)
        &&& match self.state {
            ThreadState::X86_64(state) => self.flavor == Flavor::ThreadStateX86_64
                && state.parsed_from(b.skip(16), e),
            ThreadState::Unknown(state) => self.flavor != Flavor::ThreadStateX86_64 && state@
                == b.subrange(16, 16 + 4 * self.count),
        }
    }

    /// Reads the thread command that the input starts with.
    pub fn read_from_in(read: &mut &[u8], endian: Endian) -> (res: Result<
        UnixThreadCommand,
        Error,
    >)
        ensures
            res is Ok <==> UnixThreadCommand::parse_error(old(read)@, endian) is None,
            res matches Ok(command) ==> command.parsed_from(old(read)@, endian)
                && command.spec_len() <= old(read)@.len() && final(read)@ == old(read)@.skip(
                command.spec_len() as int,
            ),
            res matches Err(err) ==> UnixThreadCommand::parse_error(old(read)@, endian) == Some(
                err,
            ) && final(read)@ == old(read)@,
    {
        let mut cur: &[u8] = *read;
        let cmd = read_u32_in(&mut cur, endian)?;
        let cmdsize = read_u32_in(&mut cur, endian)?;
        let flavor = Flavor::read_from_in(&mut cur, endian)?;
        let count = read_u32_in(&mut cur, endian)?;

        let state = match flavor {
            Flavor::ThreadStateX86_64 => {
                let state = StateX86_64::read_from_in(&mut cur, endian)?;
                ThreadState::X86_64(state)
            },
            Flavor::Unknown(_) => {
                let len = count as u64 * 4;
                if (cur.len() as u64) < len {
                    return Err(Error::TruncatedInput);
                }
                let state = read_bytes(&mut cur, len as usize)?;
                proof {
                    assert(state@ =~= old(read)@.subrange(16, 16 + 4 * count));
                }
                ThreadState::Unknown(state)
            },
        };
        let command = UnixThreadCommand { cmd, cmdsize, flavor, count, state };
        *read = cur;
        Ok(command)
    }

    /// Appends the bytes of the command, as this machine writes them.
    pub fn write_into(&self, out: &mut Vec<u8>)
        ensures
            final(out)@ == old(out)@ + self.spec_bytes(Endian::Little) || final(out)@ == old(out)@
                + self.spec_bytes(Endian::Big),
    {
        self.write_into_in(out, Endian::native())
    }

    /// Appends the bytes of the command in byte order `endian`.
    pub fn write_into_in(&self, out: &mut Vec<u8>, endian: Endian)
        ensures
            final(out)@ == old(out)@ + self.spec_bytes(endian),
    {
        write_u32_in(out, self.cmd, endian);
        write_u32_in(out, self.cmdsize, endian);
        self.flavor.write_into_in(out, endian);
        write_u32_in(out, self.count, endian);

        match &self.state {
            ThreadState::X86_64(state) => state.write_into_in(out, endian),
            ThreadState::Unknown(state) => out.extend_from_slice(state.as_slice()),
        }
        proof {
            assert(out@ =~= old(out)@ + self.spec_bytes(endian));
        }
    }
}

/// The registers of an x86_64 are written back, in the byte order they were
/// read in, as the bytes they were read from.
pub proof fn lemma_state_x86_64_decode_then_encode(state: StateX86_64, b: Seq<u8>, e: Endian)
    requires
        b.len() >= 168,
        state.parsed_from(b, e),
    ensures
        state.spec_bytes(e) == b.take(168),
{
    lemma_u64s_read_then_written(b, 0, state.spec_words(), e);
}

/// A thread command is written back, in the byte order it was read in, as
/// the bytes it was read from. For a state that is not known these are the
/// bytes as they stood, four for each word that the command announces.
pub proof fn lemma_unix_thread_decode_then_encode(command: UnixThreadCommand, b: Seq<u8>, e: Endian)
    requires
        UnixThreadCommand::parse_error(b, e) is None,
        command.parsed_from(b, e),
    ensures
        command.spec_len() == 16 + UnixThreadCommand::state_len(u32_at(b, 8, e), u32_at(b, 12, e)),
        command.spec_len() <= b.len(),
        command.spec_bytes(e) == b.take(command.spec_len() as int),
{
    lemma_u32_read_then_written(b, 0, e);
    lemma_u32_read_then_written(b, 4, e);
    lemma_u32_read_then_written(b, 8, e);
    lemma_u32_read_then_written(b, 12, e);
    match command.state {
        ThreadState::X86_64(state) => {
            lemma_state_x86_64_decode_then_encode(state, b.skip(16), e);
        },
        ThreadState::Unknown(state) => {},
    }
}

/// Bytes that start with the bytes of the registers of an x86_64 are read,
/// in the byte order they were written in, as those registers.
pub proof fn lemma_state_x86_64_encode_then_decode(state: StateX86_64, b: Seq<u8>, e: Endian)
    requires
        b.len() >= 168,
        b.take(168) == state.spec_bytes(e),
    ensures
        state.parsed_from(b, e),
{
    crate::io::lemma_u64s_bytes_len(state.spec_words(), e);
    crate::io::lemma_u64s_at_their_bytes(b, 0, state.spec_words(), e);
}

/// Bytes that start with the bytes of a thread command whose state is of
/// the flavor and the size that the command tells are read, in the byte
/// order they were written in, as that command.
pub proof fn lemma_unix_thread_encode_then_decode(command: UnixThreadCommand, b: Seq<u8>, e: Endian)
    requires
        command.spec_wf(),
        b.len() >= command.spec_len(),
        b.take(command.spec_len() as int) == command.spec_bytes(e),
    ensures
        UnixThreadCommand::parse_error(b, e) is None,
        command.parsed_from(b, e),
{
    let len = command.spec_len() as int;
    let flavor_n = command.flavor.spec_to_u32();
    lemma_u32_written_then_read(command.cmd, e);
    lemma_u32_written_then_read(command.cmdsize, e);
    lemma_u32_written_then_read(flavor_n, e);
    lemma_u32_written_then_read(command.count, e);
    match command.state {
        ThreadState::X86_64(state) => {
            crate::io::lemma_u64s_bytes_len(state.spec_words(), e);
        },
        ThreadState::Unknown(state) => {},
    }
    assert(b.subrange(0, 4) =~= u32_bytes(command.cmd, e));
    lemma_u32_at_its_bytes(b, 0, command.cmd, e);
    assert(b.subrange(4, 8) =~= u32_bytes(command.cmdsize, e)) by {
        assert(b.take(len).subrange(4, 8) =~= b.subrange(4, 8));
    }
    lemma_u32_at_its_bytes(b, 4, command.cmdsize, e);
    assert(b.subrange(8, 12) =~= u32_bytes(flavor_n, e)) by {
        assert(b.take(len).subrange(8, 12) =~= b.subrange(8, 12));
    }
    lemma_u32_at_its_bytes(b, 8, flavor_n, e);
    assert(b.subrange(12, 16) =~= u32_bytes(command.count, e)) by {
        assert(b.take(len).subrange(12, 16) =~= b.subrange(12, 16));
    }
    lemma_u32_at_its_bytes(b, 12, command.count, e);
    match command.state {
        ThreadState::X86_64(state) => {
            assert(b.skip(16).take(168) =~= state.spec_bytes(e)) by {
                assert(b.take(len).subrange(16, 184) =~= b.skip(16).take(168));
            }
            lemma_state_x86_64_encode_then_decode(state, b.skip(16), e);
        },
        ThreadState::Unknown(state) => {
            assert(b.subrange(16, 16 + 4 * command.count) =~= state@) by {
                assert(b.take(len).subrange(16, len) =~= b.subrange(16, len));
            }
        },
    }
}

} // verus!
