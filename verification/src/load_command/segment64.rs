use crate::error::Error;
use crate::io::{
    i32_at, i32_bytes, lemma_i32_read_then_written, lemma_u32_read_then_written,
    lemma_u32s_read_then_written, lemma_u64s_read_then_written, read_bytes16, read_i32_in,
    read_u32_in, read_u32s_in, read_u64s_in, u32_at, u32_bytes, u32s_bytes, u64_at, u64s_bytes,
    write_i32_in, write_u32_in, write_u32s_in, write_u64s_in, Endian,
};
use crate::load_command::prefix::{prefix_error, read_prefix};
use crate::load_command::section_flags::{
    lemma_section_flags_decode_then_encode, lemma_section_flags_encode_then_decode,
};
use vstd::prelude::*;

pub use crate::load_command::section_flags::{SectionAttr, SectionAttrs, SectionFlags, SectionType};

verus! {

/// One section of a segment.
#[derive(Debug, Clone, PartialEq, Eq)]
pub struct Section64 {
    /// The name of the section, filled up with zero bytes.
    pub sectname: [u8; 16],
    /// The name of the segment that the section belongs to, filled up with
    /// zero bytes.
    pub segname: [u8; 16],
    pub addr: u64,
    pub size: u64,
    /// Where the section starts in the file.
    pub offset: u32,
    /// The power of two that the address of the section is a multiple of.
    pub align: u32,
    /// Where the relocation entries of the section start in the file.
    pub reloff: u32,
    pub nreloc: u32,
    pub flags: SectionFlags,
    pub reserved1: u32,
    pub reserved2: u32,
    pub reserved3: u32,
}

/// The load command that maps a part of the file into memory. Its sections
/// follow it.
#[derive(Debug, Clone, PartialEq, Eq)]
pub struct SegmentCommand64 {
    pub cmd: u32,
    /// The size of the command and of the sections that follow it.
    pub cmdsize: u32,
    /// The name of the segment, filled up with zero bytes.
    pub segname: [u8; 16],
    pub vmaddr: u64,
    pub vmsize: u64,
    pub fileoff: u64,
    pub filesize: u64,
    pub maxprot: i32,
    pub initprot: i32,
    /// How many sections follow.
    pub nsects: u32,
    pub flags: u32,
}

/// How many bytes of `name` come before its first zero byte: the length of
/// the text that a name of sixteen bytes holds.
pub fn name_len(name: &[u8; 16]) -> (len: usize)
    ensures
        len <= 16,
        forall|i: int| 0 <= i < len ==> name@[i] != 0,
        len < 16 ==> name@[len as int] == 0,
{
    let mut len: usize = 0;
    while len < 16 && name[len] != 0
        invariant
            len <= 16,
            forall|i: int| 0 <= i < len ==> name@[i] != 0,
        decreases 16 - len,
    {
        len += 1;
    }
    len
}

impl Section64 {
    /// The number of bytes of a section.
    pub const SIZE: u32 = 0x50;

    /// Whether the attributes of the section come lowest bit first, none of
    /// them twice: as they are read.
    pub open spec fn spec_wf(&self) -> bool {
        self.flags.spec_wf()
    }

    /// The bytes of the section in byte order `e`.
    pub open spec fn spec_bytes(&self, e: Endian) -> Seq<u8> {
        self.sectname@ + self.segname@ + u64s_bytes(seq![self.addr, self.size], e) + u32s_bytes(
            seq![
                self.offset,
                self.align,
                self.reloff,
                self.nreloc,
                self.flags.spec_to_u32(),
                self.reserved1,
                self.reserved2,
                self.reserved3,
            ],
            e,
        )
    }

    /// Why `b` does not start with a section in byte order `e`; `None` if it
    /// does.
    pub open spec fn parse_error(b: Seq<u8>, e: Endian) -> Option<Error> {
        if b.len() < 68 {
            Some(Error::TruncatedInput)
        } else if SectionFlags::parse_error(u32_at(b, 64, e)) is Some {
            SectionFlags::parse_error(u32_at(b, 64, e))
        } else if b.len() < 80 {
            Some(Error::TruncatedInput)
        } else {
            None
        }
    }

    /// Whether this is the section that `b` starts with in byte order `e`.
    pub open spec fn parsed_from(&self, b: Seq<u8>, e: Endian) -> bool {
        &&& self.sectname@ == b.subrange(0, 16)
        &&& self.segname@ == b.subrange(16, 32)
        &&& self.addr == u64_at(b, 32, e)
        &&& self.size == u64_at(b, 40, e)
        &&& self.offset == u32_at(b, 48, e)
        &&& self.align == u32_at(b, 52, e)
        &&& self.reloff == u32_at(b, 56, e)
        &&& self.nreloc == u32_at(b, 60, e)
        &&& self.flags.parsed_from(u32_at(b, 64, e))
        &&& self.reserved1 == u32_at(b, 68, e)
        &&& self.reserved2 == u32_at(b, 72, e)
        &&& self.reserved3 == u32_at(b, 76, e)
    }

    /// The bytes of `sections` in byte order `e`, one section after the
    /// other.
    pub open spec fn all_bytes(sections: Seq<Section64>, e: Endian) -> Seq<u8>
        decreases sections.len(),
    {
        if sections.len() == 0 {
            Seq::empty()
        } else {
            Section64::all_bytes(sections.drop_last(), e) + sections.last().spec_bytes(e)
        }
    }

    /// Why `b` does not start with `n` sections in byte order `e`: the error
    /// of the first that has one; `None` if there is none.
    pub open spec fn all_error(b: Seq<u8>, n: nat, e: Endian) -> Option<Error>
        decreases n,
    {
        if n == 0 {
            None
        } else {
            match Section64::parse_error(b, e) {
                Some(err) => Some(err),
                None => Section64::all_error(b.skip(80), (n - 1) as nat, e),
            }
        }
    }

    /// Whether `sections` are the sections that `b` starts with in byte
    /// order `e`.
    pub open spec fn all_parsed_from(sections: Seq<Section64>, b: Seq<u8>, e: Endian) -> bool {
        forall|i: int|
            0 <= i < sections.len() ==> (#[trigger] sections[i]).parsed_from(b.skip(80 * i), e)
    }

    /// Reads the section that the input starts with.
    pub fn read_from_in(read: &mut &[u8], endian: Endian) -> (res: Result<Section64, Error>)
        ensures
            res is Ok <==> Section64::parse_error(old(read)@, endian) is None,
            res matches Ok(section) ==> section.parsed_from(old(read)@, endian) && final(read)@
                == old(read)@.skip(80),
            res matches Err(err) ==> Section64::parse_error(old(read)@, endian) == Some(err)
                && final(read)@ == old(read)@,
    {
        let mut cur: &[u8] = *read;
        let sectname = read_bytes16(&mut cur)?;
        let segname = read_bytes16(&mut cur)?;
        proof {
            assert(segname@ =~= old(read)@.subrange(16, 32));
        }
        let longs = read_u64s_in(&mut cur, 2, endian)?;
        let words = read_u32s_in(&mut cur, 5, endian)?;
        let flags = SectionFlags::from_u32(words[4])?;
        let reserved = read_u32s_in(&mut cur, 3, endian)?;
        *read = cur;
        Ok(
            Section64 {
                sectname,
                segname,
                addr: longs[0],
                size: longs[1],
                offset: words[0],
                align: words[1],
                reloff: words[2],
                nreloc: words[3],
                flags,
                reserved1: reserved[0],
                reserved2: reserved[1],
                reserved3: reserved[2],
            },
        )
    }

    /// Reads the `count` sections that the input starts with.
    pub fn read_all_from_in(read: &mut &[u8], count: u32, endian: Endian) -> (res: Result<
        Vec<Section64>,
        Error,
    >)
        ensures
            res is Ok <==> Section64::all_error(old(read)@, count as nat, endian) is None,
            res matches Ok(sections) ==> sections@.len() == count && Section64::all_parsed_from(
                sections@,
                old(read)@,
                endian,
            ) && 80 * count <= old(read)@.len() && final(read)@ == old(read)@.skip(80 * count),
            res matches Err(err) ==> Section64::all_error(old(read)@, count as nat, endian) == Some(
                err,
            ) && final(read)@ == old(read)@,
    {
        let mut cur: &[u8] = *read;
        let mut sections: Vec<Section64> = Vec::new();
        let mut i: u32 = 0;
        while i < count
            invariant
                i <= count,
                80 * i <= old(read)@.len(),
                cur@ == old(read)@.skip(80 * i),
                sections@.len() == i,
                Section64::all_parsed_from(sections@, old(read)@, endian),
                Section64::all_error(old(read)@, count as nat, endian) == Section64::all_error(
                    cur@,
                    (count - i) as nat,
                    endian,
                ),
            decreases count - i,
        {
            let section = Section64::read_from_in(&mut cur, endian)?;
            sections.push(section);
            i += 1;
        }
        *read = cur;
        Ok(sections)
    }

    /// Appends the bytes of the section, as this machine writes them.
    pub fn write_into(&self, out: &mut Vec<u8>)
        ensures
            final(out)@ == old(out)@ + self.spec_bytes(Endian::Little) || final(out)@ == old(out)@
                + self.spec_bytes(Endian::Big),
    {
        self.write_into_in(out, Endian::native())
    }

    /// Appends the bytes of the section in byte order `endian`.
    pub fn write_into_in(&self, out: &mut Vec<u8>, endian: Endian)
        ensures
            final(out)@ == old(out)@ + self.spec_bytes(endian),
    {
        out.extend_from_slice(self.sectname.as_slice());
        out.extend_from_slice(self.segname.as_slice());
        let longs: [u64; 2] = [self.addr, self.size];
        write_u64s_in(out, longs.as_slice(), endian);
        let flags_n = self.flags.to_u32();
        let words: [u32; 8] = [
            self.offset,
            self.align,
            self.reloff,
            self.nreloc,
            flags_n,
            self.reserved1,
            self.reserved2,
            self.reserved3,
        ];
        write_u32s_in(out, words.as_slice(), endian);
    }

    /// Appends the bytes of `sections` in byte order `endian`, one section
    /// after the other.
    pub fn write_all_into_in(sections: &[Section64], out: &mut Vec<u8>, endian: Endian)
        ensures
            final(out)@ == old(out)@ + Section64::all_bytes(sections@, endian),
    {
        for i in 0..sections.len()
            invariant
                out@ == old(out)@ + Section64::all_bytes(sections@.take(i as int), endian),
        {
            sections[i].write_into_in(out, endian);
            proof {
                assert(sections@.take(i + 1).drop_last() == sections@.take(i as int));
            }
        }
        proof {
            assert(sections@.take(sections@.len() as int) == sections@);
        }
    }
}

impl SegmentCommand64 {
    pub const TYPE: u32 = 0x19;

    /// The number of bytes of the command without the sections.
    pub const SIZE: u32 = 0x48;

    /// Whether the command declares the kind of a segment command.
    pub open spec fn spec_wf(&self) -> bool {
        self.cmd == SegmentCommand64::TYPE
    }

    /// The bytes of the command in byte order `e`.
    pub open spec fn spec_bytes(&self, e: Endian) -> Seq<u8> {
        u32_bytes(self.cmd, e) + u32_bytes(self.cmdsize, e) + self.segname@ + u64s_bytes(
            seq![self.vmaddr, self.vmsize, self.fileoff, self.filesize],
            e,
        ) + i32_bytes(self.maxprot, e) + i32_bytes(self.initprot, e) + u32_bytes(self.nsects, e)
            + u32_bytes(self.flags, e)
    }

    /// Why `b` does not start with a segment command in byte order `e`;
    /// `None` if it does. The size that the command declares is not held
    /// against anything: it counts the sections too.
    pub open spec fn parse_error(b: Seq<u8>, e: Endian) -> Option<Error> {
        if prefix_error(b, e, SegmentCommand64::TYPE, None) is Some {
            prefix_error(b, e, SegmentCommand64::TYPE, None)
        } else if b.len() < 72 {
            Some(Error::TruncatedInput)
        } else {
            None
        }
    }

    /// Whether this is the segment command that `b` starts with in byte
    /// order `e`.
    pub open spec fn parsed_from(&self, b: Seq<u8>, e: Endian) -> bool {
        &&& self.cmd == u32_at(b, 0, e)
        &&& self.cmdsize == u32_at(b, 4, e)
        &&& self.segname@ == b.subrange(8, 24)
        &&& self.vmaddr == u64_at(b, 24, e)
        &&& self.vmsize == u64_at(b, 32, e)
        &&& self.fileoff == u64_at(b, 40, e)
        &&& self.filesize == u64_at(b, 48, e)
        &&& self.maxprot == i32_at(b, 56, e)
        &&& self.initprot == i32_at(b, 60, e)
        &&& self.nsects == u32_at(b, 64, e)
        &&& self.flags == u32_at(b, 68, e)
    }

    /// Reads the segment command that the input starts with, without the
    /// sections that follow it.
    pub fn read_from_in(read: &mut &[u8], endian: Endian) -> (res: Result<SegmentCommand64, Error>)
        ensures
            res is Ok <==> SegmentCommand64::parse_error(old(read)@, endian) is None,
            res matches Ok(command) ==> command.parsed_from(old(read)@, endian) && final(read)@
                == old(read)@.skip(72),
            res matches Err(err) ==> SegmentCommand64::parse_error(old(read)@, endian) == Some(err)
                && final(read)@ == old(read)@,
    {
        let mut cur: &[u8] = *read;
        let (cmd, cmdsize) = read_prefix(&mut cur, endian, Self::TYPE, None)?;
        let segname = read_bytes16(&mut cur)?;
        proof {
            assert(segname@ =~= old(read)@.subrange(8, 24));
        }
        let longs = read_u64s_in(&mut cur, 4, endian)?;
        let maxprot = read_i32_in(&mut cur, endian)?;
        let initprot = read_i32_in(&mut cur, endian)?;
        let nsects = read_u32_in(&mut cur, endian)?;
        let flags = read_u32_in(&mut cur, endian)?;
        *read = cur;
        Ok(
            SegmentCommand64 {
                cmd,
                cmdsize,
                segname,
                vmaddr: longs[0],
                vmsize: longs[1],
                fileoff: longs[2],
                filesize: longs[3],
                maxprot,
                initprot,
                nsects,
                flags,
            },
        )
    }

    /// Appends the bytes of the command, as this machine writes them.
    pub fn write_into(&self, out: &mut Vec<u8>)
        ensures
            final(out)@ == old(out)@ + self.spec_bytes(Endian::Little) || final(out)@ == old(out)@
                + self.spec_bytes(Endian::Big),
    {
        self.write_into_in(out, Endian::native())
    }

    /// Appends the bytes of the command in byte order `endian`.
    pub fn write_into_in(&self, out: &mut Vec<u8>, endian: Endian)
        ensures
            final(out)@ == old(out)@ + self.spec_bytes(endian),
    {
        write_u32_in(out, self.cmd, endian);
        write_u32_in(out, self.cmdsize, endian);
        out.extend_from_slice(self.segname.as_slice());
        let longs: [u64; 4] = [self.vmaddr, self.vmsize, self.fileoff, self.filesize];
        write_u64s_in(out, longs.as_slice(), endian);
        write_i32_in(out, self.maxprot, endian);
        write_i32_in(out, self.initprot, endian);
        write_u32_in(out, self.nsects, endian);
        write_u32_in(out, self.flags, endian);
    }
}

/// A section is written back, in the byte order it was read in, as the bytes
/// it was read from.
pub proof fn lemma_section_decode_then_encode(section: Section64, b: Seq<u8>, e: Endian)
    requires
        Section64::parse_error(b, e) is None,
        section.parsed_from(b, e),
    ensures
        b.len() >= 80,
        section.spec_bytes(e) == b.take(80),
{
    lemma_section_flags_decode_then_encode(section.flags, u32_at(b, 64, e));
    lemma_u64s_read_then_written(b, 32, seq![section.addr, section.size], e);
    lemma_u32s_read_then_written(
        b,
        48,
        seq![
            section.offset,
            section.align,
            section.reloff,
            section.nreloc,
            section.flags.spec_to_u32(),
            section.reserved1,
            section.reserved2,
            section.reserved3,
        ],
        e,
    );
}

/// No one of `n` sections that `b` starts with has an error only if `b`
/// holds all their bytes and each of them, where it lies, has none.
pub proof fn lemma_sections_error_none(b: Seq<u8>, n: nat, e: Endian)
    requires
        Section64::all_error(b, n, e) is None,
    ensures
        80 * n <= b.len(),
        forall|i: int| 0 <= i < n ==> Section64::parse_error(#[trigger] b.skip(80 * i), e) is None,
    decreases n,
{
    if n > 0 {
        lemma_sections_error_none(b.skip(80), (n - 1) as nat, e);
        assert forall|i: int| 0 <= i < n implies Section64::parse_error(
            #[trigger] b.skip(80 * i),
            e,
        ) is None by {
            if i == 0 {
            } else {
                assert(b.skip(80).skip(80 * (i - 1)) =~= b.skip(80 * i));
            }
        }
    }
}

/// Sections are written back, in the byte order they were read in, as the
/// bytes they were read from.
pub proof fn lemma_sections_decode_then_encode(sections: Seq<Section64>, b: Seq<u8>, e: Endian)
    requires
        Section64::all_error(b, sections.len(), e) is None,
        Section64::all_parsed_from(sections, b, e),
    ensures
        80 * sections.len() <= b.len(),
        Section64::all_bytes(sections, e) == b.take(80 * sections.len() as int),
    decreases sections.len(),
{
    lemma_sections_error_none(b, sections.len(), e);
    if sections.len() == 0 {
    } else {
        let n = sections.len() - 1;
        let front = sections.drop_last();
        assert(Section64::all_parsed_from(front, b, e)) by {
            assert forall|i: int| 0 <= i < front.len() implies (#[trigger] front[i]).parsed_from(
                b.skip(80 * i),
                e,
            ) by {
            }
        }
        lemma_sections_error_front(b, sections.len(), n as nat, e);
        lemma_sections_decode_then_encode(front, b, e);
        lemma_section_decode_then_encode(sections.last(), b.skip(80 * n), e);
        crate::io::lemma_take_then_more(b, 80 * n, 80);
    }
}

/// Where none of `n` sections has an error, none of the first `m` of them
/// has one.
pub proof fn lemma_sections_error_front(b: Seq<u8>, n: nat, m: nat, e: Endian)
    requires
        m <= n,
        Section64::all_error(b, n, e) is None,
    ensures
        Section64::all_error(b, m, e) is None,
    decreases m,
{
    if m > 0 {
        lemma_sections_error_front(b.skip(80), (n - 1) as nat, (m - 1) as nat, e);
    }
}

/// A segment command is written back, in the byte order it was read in, as
/// the bytes it was read from.
pub proof fn lemma_segment_decode_then_encode(command: SegmentCommand64, b: Seq<u8>, e: Endian)
    requires
        SegmentCommand64::parse_error(b, e) is None,
        command.parsed_from(b, e),
    ensures
        b.len() >= 72,
        command.spec_bytes(e) == b.take(72),
{
    lemma_u32_read_then_written(b, 0, e);
    lemma_u32_read_then_written(b, 4, e);
    lemma_u64s_read_then_written(
        b,
        24,
        seq![command.vmaddr, command.vmsize, command.fileoff, command.filesize],
        e,
    );
    lemma_i32_read_then_written(b, 56, e);
    lemma_i32_read_then_written(b, 60, e);
    lemma_u32_read_then_written(b, 64, e);
    lemma_u32_read_then_written(b, 68, e);
}

/// Bytes that start with the bytes of a section whose attributes come
/// lowest bit first, none of them twice, are read, in the byte order they
/// were written in, as that section.
pub proof fn lemma_section_encode_then_decode(section: Section64, b: Seq<u8>, e: Endian)
    requires
        section.spec_wf(),
        b.len() >= 80,
        b.take(80) == section.spec_bytes(e),
    ensures
        Section64::parse_error(b, e) is None,
        section.parsed_from(b, e),
{
    let longs = seq![section.addr, section.size];
    let words = seq![
        section.offset,
        section.align,
        section.reloff,
        section.nreloc,
        section.flags.spec_to_u32(),
        section.reserved1,
        section.reserved2,
        section.reserved3,
    ];
    crate::io::lemma_u64s_bytes_len(longs, e);
    crate::io::lemma_u32s_bytes_len(words, e);
    assert(b.subrange(0, 16) =~= section.sectname@);
    assert(b.subrange(16, 32) =~= section.segname@) by {
        assert(b.take(80).subrange(16, 32) =~= b.subrange(16, 32));
    }
    assert(b.subrange(32, 48) =~= u64s_bytes(longs, e)) by {
        assert(b.take(80).subrange(32, 48) =~= b.subrange(32, 48));
    }
    assert(b.subrange(48, 80) =~= u32s_bytes(words, e)) by {
        assert(b.take(80).subrange(48, 80) =~= b.subrange(48, 80));
    }
    crate::io::lemma_u64s_at_their_bytes(b, 32, longs, e);
    crate::io::lemma_u32s_at_their_bytes(b, 48, words, e);
    lemma_section_flags_encode_then_decode(section.flags);
}

/// The bytes of sections are eighty for each of them, and each of them has
/// its own bytes in its place.
pub proof fn lemma_sections_bytes(sections: Seq<Section64>, e: Endian)
    ensures
        Section64::all_bytes(sections, e).len() == 80 * sections.len(),
        forall|i: int|
            0 <= i < sections.len() ==> Section64::all_bytes(sections, e).subrange(
                80 * i,
                80 * i + 80,
            ) == (#[trigger] sections[i]).spec_bytes(e),
    decreases sections.len(),
{
    if sections.len() > 0 {
        let n = sections.len() - 1;
        let front = sections.drop_last();
        let last = sections.last();
        let all = Section64::all_bytes(sections, e);
        lemma_sections_bytes(front, e);
        crate::io::lemma_u64s_bytes_len(seq![last.addr, last.size], e);
        crate::io::lemma_u32s_bytes_len(
            seq![
                last.offset,
                last.align,
                last.reloff,
                last.nreloc,
                last.flags.spec_to_u32(),
                last.reserved1,
                last.reserved2,
                last.reserved3,
            ],
            e,
        );
        assert forall|i: int| 0 <= i < sections.len() implies all.subrange(80 * i, 80 * i + 80)
            == (#[trigger] sections[i]).spec_bytes(e) by {
            if i < n {
                assert(front[i] == sections[i]);
            } else {
            }
        }
    }
}

/// Where `b` holds the bytes of `n` sections and each of them, where it
/// lies, has no error, none of the `n` has one.
pub proof fn lemma_sections_error_each(b: Seq<u8>, n: nat, e: Endian)
    requires
        80 * n <= b.len(),
        forall|i: int| 0 <= i < n ==> Section64::parse_error(#[trigger] b.skip(80 * i), e) is None,
    ensures
        Section64::all_error(b, n, e) is None,
    decreases n,
{
    if n > 0 {
        assert(b.skip(80 * 0int) =~= b);
        assert forall|i: int| 0 <= i < n - 1 implies Section64::parse_error(
            #[trigger] b.skip(80).skip(80 * i),
            e,
        ) is None by {
            assert(b.skip(80).skip(80 * i) =~= b.skip(80 * (i + 1)));
        }
        lemma_sections_error_each(b.skip(80), (n - 1) as nat, e);
    }
}

/// Bytes that start with the bytes of sections whose attributes come lowest
/// bit first, none of them twice, are read, in the byte order they were
/// written in, as those sections.
pub proof fn lemma_sections_encode_then_decode(sections: Seq<Section64>, b: Seq<u8>, e: Endian)
    requires
        forall|i: int| 0 <= i < sections.len() ==> (#[trigger] sections[i]).spec_wf(),
        b.len() >= 80 * sections.len(),
        b.take(80 * sections.len() as int) == Section64::all_bytes(sections, e),
    ensures
        Section64::all_error(b, sections.len(), e) is None,
        Section64::all_parsed_from(sections, b, e),
{
    lemma_sections_bytes(sections, e);
    assert forall|i: int| 0 <= i < sections.len() implies Section64::parse_error(
        #[trigger] b.skip(80 * i),
        e,
    ) is None && sections[i].parsed_from(b.skip(80 * i), e) by {
        assert(b.skip(80 * i).take(80) =~= b.take(80 * sections.len() as int).subrange(
            80 * i,
            80 * i + 80,
        ));
        lemma_section_encode_then_decode(sections[i], b.skip(80 * i), e);
    }
    lemma_sections_error_each(b, sections.len(), e);
}

/// Bytes that start with the bytes of a segment command which declares its
/// own kind are read, in the byte order they were written in, as that
/// command.
pub proof fn lemma_segment_encode_then_decode(command: SegmentCommand64, b: Seq<u8>, e: Endian)
    requires
        command.spec_wf(),
        b.len() >= 72,
        b.take(72) == command.spec_bytes(e),
    ensures
        SegmentCommand64::parse_error(b, e) is None,
        command.parsed_from(b, e),
{
    let longs = seq![command.vmaddr, command.vmsize, command.fileoff, command.filesize];
    crate::io::lemma_u64s_bytes_len(longs, e);
    crate::io::lemma_u32_written_then_read(command.cmd, e);
    crate::io::lemma_u32_written_then_read(command.cmdsize, e);
    crate::io::lemma_i32_written_then_read(command.maxprot, e);
    crate::io::lemma_i32_written_then_read(command.initprot, e);
    crate::io::lemma_u32_written_then_read(command.nsects, e);
    crate::io::lemma_u32_written_then_read(command.flags, e);
    assert(b.subrange(0, 4) =~= u32_bytes(command.cmd, e));
    crate::io::lemma_u32_at_its_bytes(b, 0, command.cmd, e);
    assert(b.subrange(4, 8) =~= u32_bytes(command.cmdsize, e)) by {
        assert(b.take(72).subrange(4, 8) =~= b.subrange(4, 8));
    }
    crate::io::lemma_u32_at_its_bytes(b, 4, command.cmdsize, e);
    assert(b.subrange(8, 24) =~= command.segname@) by {
        assert(b.take(72).subrange(8, 24) =~= b.subrange(8, 24));
    }
    assert(b.subrange(24, 56) =~= u64s_bytes(longs, e)) by {
        assert(b.take(72).subrange(24, 56) =~= b.subrange(24, 56));
    }
    crate::io::lemma_u64s_at_their_bytes(b, 24, longs, e);
    assert(b.subrange(56, 60) =~= i32_bytes(command.maxprot, e)) by {
        assert(b.take(72).subrange(56, 60) =~= b.subrange(56, 60));
    }
    crate::io::lemma_i32_at_its_bytes(b, 56, command.maxprot, e);
    assert(b.subrange(60, 64) =~= i32_bytes(command.initprot, e)) by {
        assert(b.take(72).subrange(60, 64) =~= b.subrange(60, 64));
    }
    crate::io::lemma_i32_at_its_bytes(b, 60, command.initprot, e);
    assert(b.subrange(64, 68) =~= u32_bytes(command.nsects, e)) by {
        assert(b.take(72).subrange(64, 68) =~= b.subrange(64, 68));
    }
    crate::io::lemma_u32_at_its_bytes(b, 64, command.nsects, e);
    assert(b.subrange(68, 72) =~= u32_bytes(command.flags, e)) by {
        assert(b.take(72).subrange(68, 72) =~= b.subrange(68, 72));
    }
    crate::io::lemma_u32_at_its_bytes(b, 68, command.flags, e);
}

/// The bytes of a segment command are seventy-two.
pub proof fn lemma_segment_bytes_len(command: SegmentCommand64, e: Endian)
    ensures
        command.spec_bytes(e).len() == 72,
{
    crate::io::lemma_u64s_bytes_len(
        seq![command.vmaddr, command.vmsize, command.fileoff, command.filesize],
        e,
    );
    crate::io::lemma_u32_written_then_read(command.cmd, e);
    crate::io::lemma_u32_written_then_read(command.cmdsize, e);
    crate::io::lemma_i32_written_then_read(command.maxprot, e);
    crate::io::lemma_i32_written_then_read(command.initprot, e);
    crate::io::lemma_u32_written_then_read(command.nsects, e);
    crate::io::lemma_u32_written_then_read(command.flags, e);
}

/// A segment command and its sections are written back, in the byte order
/// they were read in, as the bytes they were read from.
pub proof fn lemma_segment_and_sections_decode_then_encode(
    command: SegmentCommand64,
    sections: Seq<Section64>,
    b: Seq<u8>,
    e: Endian,
)
    requires
        SegmentCommand64::parse_error(b, e) is None,
        command.parsed_from(b, e),
        Section64::all_error(b.skip(72), sections.len(), e) is None,
        Section64::all_parsed_from(sections, b.skip(72), e),
    ensures
        72 + 80 * sections.len() <= b.len(),
        command.spec_bytes(e) + Section64::all_bytes(sections, e) == b.take(
            72 + 80 * sections.len() as int,
        ),
{
    lemma_segment_decode_then_encode(command, b, e);
    lemma_sections_decode_then_encode(sections, b.skip(72), e);
}

/// Bytes that start with the bytes of a segment command which declares its
/// own kind and the number of its sections, and of its sections, whose
/// attributes come lowest bit first, none of them twice, are read, in the
/// byte order they were written in, as that command and those sections.
pub proof fn lemma_segment_and_sections_encode_then_decode(
    command: SegmentCommand64,
    sections: Seq<Section64>,
    b: Seq<u8>,
    e: Endian,
)
    requires
        command.spec_wf(),
        forall|i: int| 0 <= i < sections.len() ==> (#[trigger] sections[i]).spec_wf(),
        b.len() >= 72 + 80 * sections.len(),
        b.take(72 + 80 * sections.len() as int) == command.spec_bytes(e) + Section64::all_bytes(
            sections,
            e,
        ),
    ensures
        SegmentCommand64::parse_error(b, e) is None,
        command.parsed_from(b, e),
        Section64::all_error(b.skip(72), sections.len(), e) is None,
        Section64::all_parsed_from(sections, b.skip(72), e),
{
    let len = 72 + 80 * sections.len() as int;
    lemma_segment_bytes_len(command, e);
    lemma_sections_bytes(sections, e);
    assert(b.take(72) =~= command.spec_bytes(e));
    assert(b.skip(72).take(80 * sections.len() as int) =~= Section64::all_bytes(sections, e)) by {
        assert(b.take(len).subrange(72, len) =~= b.skip(72).take(80 * sections.len() as int));
    }
    lemma_segment_encode_then_decode(command, b, e);
    lemma_sections_encode_then_decode(sections, b.skip(72), e);
}

} // verus!
