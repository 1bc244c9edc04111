use crate::error::Error;
use crate::header::cpu::CpuType;
use crate::header::magic::Magic;
use crate::io::{
    i32_at, i32_bytes, read_i32_in, read_u32_in, u32_at, u32_bytes, write_i32_in, write_u32_in,
    Endian,
};
use vstd::prelude::*;

verus! {

/// One entry of a fat header: where in the file the code for one cpu lies.
#[derive(Debug, Clone, Copy, PartialEq, Eq, Structural)]
pub struct FatArch {
    /// The cpu that the code is for.
    pub cpu_type: CpuType,
    /// Where the code starts in the file.
    pub offset: u32,
    /// How many bytes the code takes.
    pub size: u32,
    /// The power of two that `offset` is a multiple of.
    pub align: u32,
}

impl FatArch {
    /// The number of bytes of an entry.
    pub const SIZE: u32 = 20;

    /// The bytes of the entry: five words, most significant byte first.
    pub open spec fn spec_bytes(&self) -> Seq<u8> {
        i32_bytes(self.cpu_type.spec_to_i32_i32().0, Endian::Big) + i32_bytes(
            self.cpu_type.spec_to_i32_i32().1,
            Endian::Big,
        ) + u32_bytes(self.offset, Endian::Big) + u32_bytes(self.size, Endian::Big) + u32_bytes(
            self.align,
            Endian::Big,
        )
    }

    /// Why `b` does not start with an entry; `None` if it does.
    pub open spec fn parse_error(b: Seq<u8>) -> Option<Error> {
        if b.len() < 8 {
            Some(Error::TruncatedInput)
        } else if CpuType::spec_from_i32_i32(i32_at(b, 0, Endian::Big), i32_at(b, 4, Endian::Big))
            is None {
            Some(Error::UnsupportedCpuIdentity)
        } else if b.len() < 20 {
            Some(Error::TruncatedInput)
        } else {
            None
        }
    }

    /// Whether this is the entry that `b` starts with.
    pub open spec fn parsed_from(&self, b: Seq<u8>) -> bool {
        &&& Some(self.cpu_type) == CpuType::spec_from_i32_i32(
            i32_at(b, 0, Endian::Big),
            i32_at(b, 4, Endian::Big),
        )
        &&& self.offset == u32_at(b, 8, Endian::Big)
        &&& self.size == u32_at(b, 12, Endian::Big)
        &&& self.align == u32_at(b, 16, Endian::Big)
    }

    /// Reads the entry that the input starts with.
    pub fn read_from(read: &mut &[u8]) -> (res: Result<FatArch, Error>)
        ensures
            res is Ok <==> FatArch::parse_error(old(read)@) is None,
            res matches Ok(fat_arch) ==> fat_arch.parsed_from(old(read)@)
                && final(read)@ == old(read)@.skip(20),
            res matches Err(err) ==> FatArch::parse_error(old(read)@) == Some(err) && final(read)@
                == old(read)@,
    {
        let mut cur: &[u8] = *read;
        let cpu_type_n = read_i32_in(&mut cur, Endian::Big)?;
        let cpu_subtype_n = read_i32_in(&mut cur, Endian::Big)?;
        let cpu_type = CpuType::from_i32_i32(cpu_type_n, cpu_subtype_n)?;
        let offset = read_u32_in(&mut cur, Endian::Big)?;
        let size = read_u32_in(&mut cur, Endian::Big)?;
        let align = read_u32_in(&mut cur, Endian::Big)?;
        proof {
            assert(cur@ =~= old(read)@.skip(20));
        }
        *read = cur;
        Ok(FatArch { cpu_type, offset, size, align })
    }

    /// Appends the bytes of the entry.
    pub fn write_into(&self, out: &mut Vec<u8>)
        ensures
            final(out)@ == old(out)@ + self.spec_bytes(),
    {
        let (cpu_type_n, cpu_subtype_n) = self.cpu_type.to_i32_i32();
        write_i32_in(out, cpu_type_n, Endian::Big);
        write_i32_in(out, cpu_subtype_n, Endian::Big);
        write_u32_in(out, self.offset, Endian::Big);
        write_u32_in(out, self.size, Endian::Big);
        write_u32_in(out, self.align, Endian::Big);
    }
}

/// The header of a file that holds code for several cpus. Whatever the host
/// and whatever the magic, its words are written most significant byte
/// first.
#[derive(Debug, Clone, PartialEq, Eq)]
pub struct FatHeader {
    pub magic: Magic,
    pub fat_archs: Vec<FatArch>,
}

impl FatHeader {
    /// The bytes of `fat_archs`, one entry after the other.
    pub open spec fn archs_bytes(fat_archs: Seq<FatArch>) -> Seq<u8>
        decreases fat_archs.len(),
    {
        if fat_archs.len() == 0 {
            Seq::empty()
        } else {
            FatHeader::archs_bytes(fat_archs.drop_last()) + fat_archs.last().spec_bytes()
        }
    }

    /// Why `b` does not start with `n` entries: the error of the first entry
    /// that has one; `None` if there is none.
    pub open spec fn archs_error(b: Seq<u8>, n: nat) -> Option<Error>
        decreases n,
    {
        if n == 0 {
            None
        } else {
            match FatArch::parse_error(b) {
                Some(err) => Some(err),
                None => FatHeader::archs_error(b.skip(20), (n - 1) as nat),
            }
        }
    }

    /// Whether `fat_archs` are the entries that `b` starts with.
    pub open spec fn archs_parsed_from(fat_archs: Seq<FatArch>, b: Seq<u8>) -> bool {
        forall|i: int|
            0 <= i < fat_archs.len() ==> (#[trigger] fat_archs[i]).parsed_from(b.skip(20 * i))
    }

    /// The bytes of the header.
    pub open spec fn spec_bytes(&self) -> Seq<u8> {
        u32_bytes(self.magic.spec_to_u32(), Endian::Big) + u32_bytes(
            self.fat_archs@.len() as u32,
            Endian::Big,
        ) + FatHeader::archs_bytes(self.fat_archs@)
    }

    /// The number of bytes of the header.
    pub open spec fn spec_len(&self) -> nat {
        8 + 20 * self.fat_archs@.len()
    }

    /// Why `b` does not hold what follows the magic of a fat header: the
    /// number of entries and the entries; `None` if it does.
    pub open spec fn fields_error(b: Seq<u8>) -> Option<Error> {
        if b.len() < 4 {
            Some(Error::TruncatedInput)
        } else {
            FatHeader::archs_error(b.skip(4), u32_at(b, 0, Endian::Big) as nat)
        }
    }

    /// Whether this header has the magic `magic` and the entries that `b`
    /// announces and holds.
    pub open spec fn fields_parsed_from(&self, b: Seq<u8>, magic: Magic) -> bool {
        &&& self.magic == magic
        &&& self.fat_archs@.len() == u32_at(b, 0, Endian::Big)
        &&& FatHeader::archs_parsed_from(self.fat_archs@, b.skip(4))
    }

    /// Why `b` does not start with a fat header, read on a host of byte
    /// order `host`; `None` if it does.
    pub open spec fn parse_error(b: Seq<u8>, host: Endian) -> Option<Error> {
        if b.len() < 4 {
            Some(Error::TruncatedInput)
        } else {
            match Magic::spec_from_u32(u32_at(b, 0, host)) {
                None => Some(Error::UnknownMagic),
                Some(magic) => if magic.spec_is_fat() {
                    FatHeader::fields_error(b.skip(4))
                } else {
                    Some(Error::UnsupportedMagic)
                },
            }
        }
    }

    /// Whether this is the fat header that `b` starts with, read on a host
    /// of byte order `host`: the magic in the host's order, the rest most
    /// significant byte first.
    pub open spec fn parsed_from(&self, b: Seq<u8>, host: Endian) -> bool {
        &&& Magic::spec_from_u32(u32_at(b, 0, host)) == Some(self.magic)
        &&& self.fields_parsed_from(b.skip(4), self.magic)
    }

    /// What reading a fat header from `b` on a host of byte order `host`
    /// comes to: `res` is what is returned and `rest` the input left.
    pub open spec fn decoded_on(
        b: Seq<u8>,
        host: Endian,
        res: Result<FatHeader, Error>,
        rest: Seq<u8>,
    ) -> bool {
        &&& res is Ok <==> FatHeader::parse_error(b, host) is None
        &&& res matches Ok(header) ==> header.parsed_from(b, host) && header.spec_len() <= b.len()
            && rest == b.skip(header.spec_len() as int)
        &&& res matches Err(err) ==> FatHeader::parse_error(b, host) == Some(err) && rest == b
    }

    /// Reads the fat header that the input starts with, on this machine.
    pub fn read_from(read: &mut &[u8]) -> (res: Result<FatHeader, Error>)
        ensures
            FatHeader::decoded_on(old(read)@, Endian::Little, res, final(read)@)
                || FatHeader::decoded_on(old(read)@, Endian::Big, res, final(read)@),
    {
        FatHeader::read_from_on(read, Endian::native())
    }

    /// Reads the fat header that the input starts with, as a host of byte
    /// order `host` reads it.
    pub fn read_from_on(read: &mut &[u8], host: Endian) -> (res: Result<FatHeader, Error>)
        ensures
            FatHeader::decoded_on(old(read)@, host, res, final(read)@),
    {
        let mut cur: &[u8] = *read;
        let magic_n = read_u32_in(&mut cur, host)?;
        let magic = Magic::from_u32(magic_n)?;
        match magic {
            Magic::FatMagic | Magic::FatCigam => {},
            _ => {
                return Err(Error::UnsupportedMagic);
            },
        }
        let header = FatHeader::read_after_magic(&mut cur, magic)?;
        proof {
            assert(cur@ =~= old(read)@.skip(header.spec_len() as int));
        }
        *read = cur;
        Ok(header)
    }

    /// Reads what follows the magic of a fat header: the number of entries,
    /// then the entries.
    pub fn read_after_magic(read: &mut &[u8], magic: Magic) -> (res: Result<FatHeader, Error>)
        requires
            magic.spec_is_fat(),
        ensures
            res is Ok <==> FatHeader::fields_error(old(read)@) is None,
            res matches Ok(header) ==> header.fields_parsed_from(old(read)@, magic)
                && header.spec_len() - 4 <= old(read)@.len() && final(read)@ == old(read)@.skip(
                header.spec_len() - 4,
            ),
            res matches Err(err) ==> FatHeader::fields_error(old(read)@) == Some(err)
                && final(read)@ == old(read)@,
    {
        let mut cur: &[u8] = *read;
        let n_fat_archs = read_u32_in(&mut cur, Endian::Big)?;
        let ghost entries = cur@;

        let mut fat_archs: Vec<FatArch> = Vec::new();
        let mut i: u32 = 0;
        while i < n_fat_archs
            invariant
                i <= n_fat_archs,
                old(read)@.len() >= 4,
                n_fat_archs == u32_at(old(read)@, 0, Endian::Big),
                entries == old(read)@.skip(4),
                20 * i <= entries.len(),
                cur@ == entries.skip(20 * i),
                fat_archs@.len() == i,
                FatHeader::archs_parsed_from(fat_archs@, entries),
                FatHeader::archs_error(entries, n_fat_archs as nat) == FatHeader::archs_error(
                    cur@,
                    (n_fat_archs - i) as nat,
                ),
            decreases n_fat_archs - i,
        {
            let fat_arch = FatArch::read_from(&mut cur)?;
            fat_archs.push(fat_arch);
            proof {
                assert(cur@ =~= entries.skip(20 * (i + 1)));
            }
            i += 1;
        }
        proof {
            assert(cur@ =~= old(read)@.skip(4 + 20 * n_fat_archs));
        }
        *read = cur;
        Ok(FatHeader { magic, fat_archs })
    }

    /// Appends the bytes of the header. They are the same on every machine.
    pub fn write_into(&self, out: &mut Vec<u8>)
        ensures
            final(out)@ == old(out)@ + self.spec_bytes(),
    {
        write_u32_in(out, self.magic.to_u32(), Endian::Big);
        write_u32_in(out, self.fat_archs.len() as u32, Endian::Big);
        let ghost start = out@;

        for i in 0..self.fat_archs.len()
            invariant
                out@ == start + FatHeader::archs_bytes(self.fat_archs@.take(i as int)),
        {
            self.fat_archs[i].write_into(out);
            proof {
                assert(self.fat_archs@.take(i + 1).drop_last() == self.fat_archs@.take(i as int));
            }
        }
        proof {
            assert(self.fat_archs@.take(self.fat_archs@.len() as int) == self.fat_archs@);
            assert(out@ =~= old(out)@ + self.spec_bytes());
        }
    }
}

/// An entry of a fat header is written back as the bytes it was read from.
pub proof fn lemma_fat_arch_decode_then_encode(fat_arch: FatArch, b: Seq<u8>)
    requires
        FatArch::parse_error(b) is None,
        fat_arch.parsed_from(b),
    ensures
        b.len() >= 20,
        fat_arch.spec_bytes() == b.take(20),
{
    crate::header::cpu::lemma_cpu_type_from_to(
        i32_at(b, 0, Endian::Big),
        i32_at(b, 4, Endian::Big),
    );
    crate::io::lemma_i32_read_then_written(b, 0, Endian::Big);
    crate::io::lemma_i32_read_then_written(b, 4, Endian::Big);
    crate::io::lemma_u32_read_then_written(b, 8, Endian::Big);
    crate::io::lemma_u32_read_then_written(b, 12, Endian::Big);
    crate::io::lemma_u32_read_then_written(b, 16, Endian::Big);
}

/// No one of `n` entries that `b` starts with has an error only if `b` holds
/// all their bytes and each of them, where it lies, has none.
pub proof fn lemma_fat_archs_error_none(b: Seq<u8>, n: nat)
    requires
        FatHeader::archs_error(b, n) is None,
    ensures
        20 * n <= b.len(),
        forall|i: int| 0 <= i < n ==> FatArch::parse_error(#[trigger] b.skip(20 * i)) is None,
    decreases n,
{
    if n > 0 {
        lemma_fat_archs_error_none(b.skip(20), (n - 1) as nat);
        assert forall|i: int| 0 <= i < n implies FatArch::parse_error(#[trigger] b.skip(20 * i))
            is None by {
            if i == 0 {
            } else {
                assert(b.skip(20).skip(20 * (i - 1)) =~= b.skip(20 * i));
            }
        }
    }
}

/// Where none of `n` entries has an error, none of the first `m` of them has
/// one.
pub proof fn lemma_fat_archs_error_front(b: Seq<u8>, n: nat, m: nat)
    requires
        m <= n,
        FatHeader::archs_error(b, n) is None,
    ensures
        FatHeader::archs_error(b, m) is None,
    decreases m,
{
    if m > 0 {
        lemma_fat_archs_error_front(b.skip(20), (n - 1) as nat, (m - 1) as nat);
    }
}

/// The entries of a fat header are written back as the bytes they were read
/// from.
pub proof fn lemma_fat_archs_decode_then_encode(fat_archs: Seq<FatArch>, b: Seq<u8>)
    requires
        FatHeader::archs_error(b, fat_archs.len()) is None,
        FatHeader::archs_parsed_from(fat_archs, b),
    ensures
        20 * fat_archs.len() <= b.len(),
        FatHeader::archs_bytes(fat_archs) == b.take(20 * fat_archs.len() as int),
    decreases fat_archs.len(),
{
    lemma_fat_archs_error_none(b, fat_archs.len());
    if fat_archs.len() == 0 {
        assert(FatHeader::archs_bytes(fat_archs) =~= b.take(0));
    } else {
        let n = fat_archs.len() - 1;
        let front = fat_archs.drop_last();
        assert(FatHeader::archs_parsed_from(front, b)) by {
            assert forall|i: int| 0 <= i < front.len() implies (#[trigger] front[i]).parsed_from(
                b.skip(20 * i),
            ) by {
            }
        }
        lemma_fat_archs_error_front(b, fat_archs.len(), n as nat);
        lemma_fat_archs_decode_then_encode(front, b);
        lemma_fat_arch_decode_then_encode(fat_archs.last(), b.skip(20 * n));
        crate::io::lemma_take_then_more(b, 20 * n, 20);
    }
}

/// What follows the magic of a fat header, the number of entries and the
/// entries, is written back as the bytes it was read from, on every host.
/// The magic itself is read in the host's byte order and written most
/// significant byte first, so it comes back as it stood only on a host of
/// that order.
pub proof fn lemma_fat_header_decode_then_encode(header: FatHeader, b: Seq<u8>, host: Endian)
    requires
        FatHeader::parse_error(b, host) is None,
        header.parsed_from(b, host),
    ensures
        header.spec_len() <= b.len(),
        header.spec_bytes().skip(4) == b.subrange(4, header.spec_len() as int),
        host == Endian::Big ==> header.spec_bytes() == b.take(header.spec_len() as int),
{
    let n = header.fat_archs@.len() as int;
    let magic_bytes = u32_bytes(header.magic.spec_to_u32(), Endian::Big);
    let count_bytes = u32_bytes(header.fat_archs@.len() as u32, Endian::Big);
    let archs_bytes = FatHeader::archs_bytes(header.fat_archs@);
    crate::io::lemma_u32_written_then_read(header.magic.spec_to_u32(), Endian::Big);
    crate::io::lemma_u32_read_then_written(b, 4, Endian::Big);
    assert(u32_at(b.skip(4), 0, Endian::Big) == u32_at(b, 4, Endian::Big));
    assert(count_bytes == b.skip(4).take(4)) by {
        assert(b.subrange(4, 8) =~= b.skip(4).take(4));
    }
    lemma_fat_archs_decode_then_encode(header.fat_archs@, b.skip(4).skip(4));
    crate::io::lemma_take_then_more(b.skip(4), 4, 20 * n);
    assert(header.spec_bytes().skip(4) == count_bytes + archs_bytes) by {
        assert((magic_bytes + count_bytes + archs_bytes).skip(4) =~= count_bytes + archs_bytes);
    }
    assert(b.skip(4).take(4 + 20 * n) == b.subrange(4, header.spec_len() as int)) by {
        assert(b.skip(4).take(4 + 20 * n) =~= b.subrange(4, 8 + 20 * n));
    }
    if host == Endian::Big {
        crate::header::magic::lemma_magic_from_to(u32_at(b, 0, host));
        crate::io::lemma_u32_read_then_written(b, 0, host);
        assert(magic_bytes == b.take(4)) by {
            assert(b.subrange(0, 4) =~= b.take(4));
        }
        crate::io::lemma_take_then_more(b, 4, 4 + 20 * n);
        assert(header.spec_bytes() == magic_bytes + (count_bytes + archs_bytes)) by {
            assert(magic_bytes + count_bytes + archs_bytes =~= magic_bytes + (count_bytes
                + archs_bytes));
        }
    }
}

/// Bytes that start with the bytes of an entry of a fat header are read as
/// that entry.
pub proof fn lemma_fat_arch_encode_then_decode(fat_arch: FatArch, b: Seq<u8>)
    requires
        b.len() >= 20,
        b.take(20) == fat_arch.spec_bytes(),
    ensures
        FatArch::parse_error(b) is None,
        fat_arch.parsed_from(b),
{
    let cpu = fat_arch.cpu_type.spec_to_i32_i32();
    crate::header::cpu::lemma_cpu_type_to_from(fat_arch.cpu_type);
    crate::io::lemma_i32_written_then_read(cpu.0, Endian::Big);
    crate::io::lemma_i32_written_then_read(cpu.1, Endian::Big);
    crate::io::lemma_u32_written_then_read(fat_arch.offset, Endian::Big);
    crate::io::lemma_u32_written_then_read(fat_arch.size, Endian::Big);
    crate::io::lemma_u32_written_then_read(fat_arch.align, Endian::Big);
    assert(b.subrange(0, 4) =~= i32_bytes(cpu.0, Endian::Big));
    crate::io::lemma_i32_at_its_bytes(b, 0, cpu.0, Endian::Big);
    assert(b.subrange(4, 8) =~= i32_bytes(cpu.1, Endian::Big)) by {
        assert(b.take(20).subrange(4, 8) =~= b.subrange(4, 8));
    }
    crate::io::lemma_i32_at_its_bytes(b, 4, cpu.1, Endian::Big);
    assert(b.subrange(8, 12) =~= u32_bytes(fat_arch.offset, Endian::Big)) by {
        assert(b.take(20).subrange(8, 12) =~= b.subrange(8, 12));
    }
    crate::io::lemma_u32_at_its_bytes(b, 8, fat_arch.offset, Endian::Big);
    assert(b.subrange(12, 16) =~= u32_bytes(fat_arch.size, Endian::Big)) by {
        assert(b.take(20).subrange(12, 16) =~= b.subrange(12, 16));
    }
    crate::io::lemma_u32_at_its_bytes(b, 12, fat_arch.size, Endian::Big);
    assert(b.subrange(16, 20) =~= u32_bytes(fat_arch.align, Endian::Big)) by {
        assert(b.take(20).subrange(16, 20) =~= b.subrange(16, 20));
    }
    crate::io::lemma_u32_at_its_bytes(b, 16, fat_arch.align, Endian::Big);
}

/// The bytes of entries are twenty for each of them, and each of them has
/// its own bytes in its place.
pub proof fn lemma_fat_archs_bytes(fat_archs: Seq<FatArch>)
    ensures
        FatHeader::archs_bytes(fat_archs).len() == 20 * fat_archs.len(),
        forall|i: int|
            0 <= i < fat_archs.len() ==> FatHeader::archs_bytes(fat_archs).subrange(
                20 * i,
                20 * i + 20,
            ) == (#[trigger] fat_archs[i]).spec_bytes(),
    decreases fat_archs.len(),
{
    if fat_archs.len() > 0 {
        let n = fat_archs.len() - 1;
        let front = fat_archs.drop_last();
        let last = fat_archs.last();
        let all = FatHeader::archs_bytes(fat_archs);
        lemma_fat_archs_bytes(front);
        crate::io::lemma_i32_written_then_read(last.cpu_type.spec_to_i32_i32().0, Endian::Big);
        crate::io::lemma_i32_written_then_read(last.cpu_type.spec_to_i32_i32().1, Endian::Big);
        crate::io::lemma_u32_written_then_read(last.offset, Endian::Big);
        crate::io::lemma_u32_written_then_read(last.size, Endian::Big);
        crate::io::lemma_u32_written_then_read(last.align, Endian::Big);
        assert forall|i: int| 0 <= i < fat_archs.len() implies all.subrange(20 * i, 20 * i + 20)
            == (#[trigger] fat_archs[i]).spec_bytes() by {
            if i < n {
                assert(front[i] == fat_archs[i]);
            } else {
            }
        }
    }
}

/// Where `b` holds the bytes of `n` entries and each of them, where it lies,
/// has no error, none of the `n` has one.
pub proof fn lemma_fat_archs_error_each(b: Seq<u8>, n: nat)
    requires
        20 * n <= b.len(),
        forall|i: int| 0 <= i < n ==> FatArch::parse_error(#[trigger] b.skip(20 * i)) is None,
    ensures
        FatHeader::archs_error(b, n) is None,
    decreases n,
{
    if n > 0 {
        assert(b.skip(20 * 0int) =~= b);
        assert forall|i: int| 0 <= i < n - 1 implies FatArch::parse_error(
            #[trigger] b.skip(20).skip(20 * i),
        ) is None by {
            assert(b.skip(20).skip(20 * i) =~= b.skip(20 * (i + 1)));
        }
        lemma_fat_archs_error_each(b.skip(20), (n - 1) as nat);
    }
}

/// Bytes that start with the bytes of entries of a fat header are read as
/// those entries.
pub proof fn lemma_fat_archs_encode_then_decode(fat_archs: Seq<FatArch>, b: Seq<u8>)
    requires
        b.len() >= 20 * fat_archs.len(),
        b.take(20 * fat_archs.len() as int) == FatHeader::archs_bytes(fat_archs),
    ensures
        FatHeader::archs_error(b, fat_archs.len()) is None,
        FatHeader::archs_parsed_from(fat_archs, b),
{
    lemma_fat_archs_bytes(fat_archs);
    assert forall|i: int| 0 <= i < fat_archs.len() implies FatArch::parse_error(
        #[trigger] b.skip(20 * i),
    ) is None && fat_archs[i].parsed_from(b.skip(20 * i)) by {
        assert(b.skip(20 * i).take(20) =~= b.take(20 * fat_archs.len() as int).subrange(
            20 * i,
            20 * i + 20,
        ));
        lemma_fat_arch_encode_then_decode(fat_archs[i], b.skip(20 * i));
    }
    lemma_fat_archs_error_each(b, fat_archs.len());
}

/// Bytes that start with the bytes of a fat header of no more entries than
/// 32 bits can count hold, after the magic, the number of the entries and
/// the entries of that header, on every host; and on a host that puts the
/// most significant byte first, they are read as that header. On the other
/// host the magic, which was written most significant byte first, is read
/// as the swapped one.
pub proof fn lemma_fat_header_encode_then_decode(header: FatHeader, b: Seq<u8>)
    requires
        header.fat_archs@.len() <= u32::MAX,
        b.len() >= header.spec_len(),
        b.take(header.spec_len() as int) == header.spec_bytes(),
    ensures
        FatHeader::fields_error(b.skip(4)) is None,
        header.fields_parsed_from(b.skip(4), header.magic),
        header.magic.spec_is_fat() ==> FatHeader::parse_error(b, Endian::Big) is None
            && header.parsed_from(b, Endian::Big),
{
    let len = header.spec_len() as int;
    let n = header.fat_archs@.len();
    let rest = b.skip(4);
    crate::header::magic::lemma_magic_to_from(header.magic);
    crate::io::lemma_u32_written_then_read(header.magic.spec_to_u32(), Endian::Big);
    crate::io::lemma_u32_written_then_read(n as u32, Endian::Big);
    lemma_fat_archs_bytes(header.fat_archs@);
    assert(b.subrange(0, 4) =~= u32_bytes(header.magic.spec_to_u32(), Endian::Big));
    crate::io::lemma_u32_at_its_bytes(b, 0, header.magic.spec_to_u32(), Endian::Big);
    assert(rest.subrange(0, 4) =~= u32_bytes(n as u32, Endian::Big)) by {
        assert(b.take(len).subrange(4, 8) =~= rest.subrange(0, 4));
    }
    crate::io::lemma_u32_at_its_bytes(rest, 0, n as u32, Endian::Big);
    assert(rest.skip(4).take(20 * n as int) =~= FatHeader::archs_bytes(header.fat_archs@)) by {
        assert(b.take(len).subrange(8, len) =~= rest.skip(4).take(20 * n as int));
    }
    lemma_fat_archs_encode_then_decode(header.fat_archs@, rest.skip(4));
}

} // verus!
