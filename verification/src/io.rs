//! Fixed-width integers under an explicit byte order.

use crate::error::Error;
use byteorder::{BigEndian, ByteOrder, LittleEndian, NativeEndian};
use vstd::prelude::*;
use vstd::slice::{slice_subrange, slice_to_vec};

verus! {

/// A byte order.
#[derive(Debug, Clone, Copy, PartialEq, Eq, Structural)]
pub enum Endian {
    Little,
    Big,
}

impl Endian {
    /// The other byte order.
    pub open spec fn spec_reverse(self) -> Endian {
        match self {
            Endian::Little => Endian::Big,
            Endian::Big => Endian::Little,
        }
    }

    /// The other byte order.
    #[verifier::when_used_as_spec(spec_reverse)]
    pub fn reverse(self) -> (r: Endian)
        ensures
            r == self.spec_reverse(),
    {
        match self {
            Endian::Little => Endian::Big,
            Endian::Big => Endian::Little,
        }
    }

    /// The byte order of the machine this code runs on.
    ///
    /// Nothing is promised of the result: which order comes back depends on
    /// the target. It is the order that `from_probe` finds for what the
    /// machine reads from the two bytes of the probe.
    pub fn native() -> Endian {
        let probe: [u8; 2] = [1, 0];
        let n = native_read_u16(probe.as_slice());
        let endian = Endian::from_probe(n);
        proof {
            assert(probe@ =~= Endian::spec_probe());
            lemma_probe_tells_the_order(Endian::Little);
            lemma_probe_tells_the_order(Endian::Big);
            assert(u16_at(probe@, 0, endian) == n);
        }
        endian
    }

    /// The two bytes that a machine reads to find its byte order: as a
    /// 16-bit integer they are 1 least significant byte first, and 256 most
    /// significant byte first.
    pub open spec fn spec_probe() -> Seq<u8> {
        seq![1u8, 0u8]
    }

    /// The byte order of a machine that reads the probe as `n`.
    pub open spec fn spec_from_probe(n: u16) -> Endian {
        if n == 1 {
            Endian::Little
        } else {
            Endian::Big
        }
    }

    /// The byte order of a machine that reads the probe as `n`.
    #[verifier::when_used_as_spec(spec_from_probe)]
    pub fn from_probe(n: u16) -> (endian: Endian)
        ensures
            endian == Endian::spec_from_probe(n),
    {
        if n == 1 {
            Endian::Little
        } else {
            Endian::Big
        }
    }
}

/// A machine that reads the probe in one of the two byte orders is found to
/// be of that order.
pub proof fn lemma_probe_tells_the_order(e: Endian)
    ensures
        Endian::spec_from_probe(u16_at(Endian::spec_probe(), 0, e)) == e,
{
    assert(u16_le(1, 0) == 1 && u16_le(0, 1) == 256) by (bit_vector);
}

/// The 16-bit integer whose bytes are, least significant first, `b0 b1`.
pub open spec fn u16_le(b0: u8, b1: u8) -> u16 {
    (b0 as u16) | (b1 as u16) << 8
}

/// The 32-bit integer whose bytes are, least significant first, `b0 .. b3`.
pub open spec fn u32_le(b0: u8, b1: u8, b2: u8, b3: u8) -> u32 {
    (b0 as u32) | (b1 as u32) << 8 | (b2 as u32) << 16 | (b3 as u32) << 24
}

/// The 64-bit integer whose bytes are, least significant first, `b0 .. b7`.
pub open spec fn u64_le(b0: u8, b1: u8, b2: u8, b3: u8, b4: u8, b5: u8, b6: u8, b7: u8) -> u64 {
    (b0 as u64) | (b1 as u64) << 8 | (b2 as u64) << 16 | (b3 as u64) << 24 | (b4 as u64) << 32 | (
    b5 as u64) << 40 | (b6 as u64) << 48 | (b7 as u64) << 56
}

/// The 16-bit integer that the two bytes of `b` from index `at` hold in order `e`.
pub open spec fn u16_at(b: Seq<u8>, at: int, e: Endian) -> u16
    recommends
        0 <= at,
        at + 2 <= b.len(),
{
    match e {
        Endian::Little => u16_le(b[at], b[at + 1]),
        Endian::Big => u16_le(b[at + 1], b[at]),
    }
}

/// The 32-bit integer that the four bytes of `b` from index `at` hold in order `e`.
pub open spec fn u32_at(b: Seq<u8>, at: int, e: Endian) -> u32
    recommends
        0 <= at,
        at + 4 <= b.len(),
{
    match e {
        Endian::Little => u32_le(b[at], b[at + 1], b[at + 2], b[at + 3]),
        Endian::Big => u32_le(b[at + 3], b[at + 2], b[at + 1], b[at]),
    }
}

/// The signed 32-bit integer that the four bytes of `b` from index `at` hold
/// in order `e`, in two's complement.
pub open spec fn i32_at(b: Seq<u8>, at: int, e: Endian) -> i32
    recommends
        0 <= at,
        at + 4 <= b.len(),
{
    u32_at(b, at, e) as i32
}

/// The 64-bit integer that the eight bytes of `b` from index `at` hold in order `e`.
pub open spec fn u64_at(b: Seq<u8>, at: int, e: Endian) -> u64
    recommends
        0 <= at,
        at + 8 <= b.len(),
{
    match e {
        Endian::Little => u64_le(
            b[at],
            b[at + 1],
            b[at + 2],
            b[at + 3],
            b[at + 4],
            b[at + 5],
            b[at + 6],
            b[at + 7],
        ),
        Endian::Big => u64_le(
            b[at + 7],
            b[at + 6],
            b[at + 5],
            b[at + 4],
            b[at + 3],
            b[at + 2],
            b[at + 1],
            b[at],
        ),
    }
}

/// Byte `i` of `n`, counted from the least significant.
pub open spec fn byte_of(n: u64, i: u64) -> u8 {
    ((n >> (8 * i)) & 0xff) as u8
}

/// The two bytes of `n` in order `e`.
pub open spec fn u16_bytes(n: u16, e: Endian) -> Seq<u8> {
    let w = n as u64;
    match e {
        Endian::Little => seq![byte_of(w, 0), byte_of(w, 1)],
        Endian::Big => seq![byte_of(w, 1), byte_of(w, 0)],
    }
}

/// The four bytes of `n` in order `e`.
pub open spec fn u32_bytes(n: u32, e: Endian) -> Seq<u8> {
    let w = n as u64;
    match e {
        Endian::Little => seq![byte_of(w, 0), byte_of(w, 1), byte_of(w, 2), byte_of(w, 3)],
        Endian::Big => seq![byte_of(w, 3), byte_of(w, 2), byte_of(w, 1), byte_of(w, 0)],
    }
}

/// The four bytes of `n`, in two's complement, in order `e`.
pub open spec fn i32_bytes(n: i32, e: Endian) -> Seq<u8> {
    u32_bytes(n as u32, e)
}

/// The eight bytes of `n` in order `e`.
pub open spec fn u64_bytes(n: u64, e: Endian) -> Seq<u8> {
    match e {
        Endian::Little => seq![
            byte_of(n, 0),
            byte_of(n, 1),
            byte_of(n, 2),
            byte_of(n, 3),
            byte_of(n, 4),
            byte_of(n, 5),
            byte_of(n, 6),
            byte_of(n, 7),
        ],
        Endian::Big => seq![
            byte_of(n, 7),
            byte_of(n, 6),
            byte_of(n, 5),
            byte_of(n, 4),
            byte_of(n, 3),
            byte_of(n, 2),
            byte_of(n, 1),
            byte_of(n, 0),
        ],
    }
}

proof fn lemma_u16_le_parts(n: u16)
    ensures
        u16_le(byte_of(n as u64, 0), byte_of(n as u64, 1)) == n,
{
    assert(u16_le(byte_of(n as u64, 0), byte_of(n as u64, 1)) == n) by (bit_vector);
}

proof fn lemma_u16_le_bytes(b0: u8, b1: u8)
    ensures
        byte_of(u16_le(b0, b1) as u64, 0) == b0,
        byte_of(u16_le(b0, b1) as u64, 1) == b1,
{
    assert(byte_of(u16_le(b0, b1) as u64, 0) == b0 && byte_of(u16_le(b0, b1) as u64, 1) == b1)
        by (bit_vector);
}

proof fn lemma_u32_le_parts(n: u32)
    ensures
        u32_le(byte_of(n as u64, 0), byte_of(n as u64, 1), byte_of(n as u64, 2), byte_of(n as u64, 3))
            == n,
{
    assert(u32_le(
        byte_of(n as u64, 0),
        byte_of(n as u64, 1),
        byte_of(n as u64, 2),
        byte_of(n as u64, 3),
    ) == n) by (bit_vector);
}

proof fn lemma_u32_le_bytes(b0: u8, b1: u8, b2: u8, b3: u8)
    ensures
        byte_of(u32_le(b0, b1, b2, b3) as u64, 0) == b0,
        byte_of(u32_le(b0, b1, b2, b3) as u64, 1) == b1,
        byte_of(u32_le(b0, b1, b2, b3) as u64, 2) == b2,
        byte_of(u32_le(b0, b1, b2, b3) as u64, 3) == b3,
{
    assert(byte_of(u32_le(b0, b1, b2, b3) as u64, 0) == b0 && byte_of(
        u32_le(b0, b1, b2, b3) as u64,
        1,
    ) == b1 && byte_of(u32_le(b0, b1, b2, b3) as u64, 2) == b2 && byte_of(
        u32_le(b0, b1, b2, b3) as u64,
        3,
    ) == b3) by (bit_vector);
}

proof fn lemma_u64_le_parts(n: u64)
    ensures
        u64_le(
            byte_of(n, 0),
            byte_of(n, 1),
            byte_of(n, 2),
            byte_of(n, 3),
            byte_of(n, 4),
            byte_of(n, 5),
            byte_of(n, 6),
            byte_of(n, 7),
        ) == n,
{
    assert(u64_le(
        byte_of(n, 0),
        byte_of(n, 1),
        byte_of(n, 2),
        byte_of(n, 3),
        byte_of(n, 4),
        byte_of(n, 5),
        byte_of(n, 6),
        byte_of(n, 7),
    ) == n) by (bit_vector);
}

proof fn lemma_u64_le_bytes(b0: u8, b1: u8, b2: u8, b3: u8, b4: u8, b5: u8, b6: u8, b7: u8)
    ensures
        ({
            let n = u64_le(b0, b1, b2, b3, b4, b5, b6, b7);
            &&& byte_of(n, 0) == b0
            &&& byte_of(n, 1) == b1
            &&& byte_of(n, 2) == b2
            &&& byte_of(n, 3) == b3
            &&& byte_of(n, 4) == b4
            &&& byte_of(n, 5) == b5
            &&& byte_of(n, 6) == b6
            &&& byte_of(n, 7) == b7
        }),
{
    assert({
        let n = u64_le(b0, b1, b2, b3, b4, b5, b6, b7);
        &&& byte_of(n, 0) == b0
        &&& byte_of(n, 1) == b1
        &&& byte_of(n, 2) == b2
        &&& byte_of(n, 3) == b3
        &&& byte_of(n, 4) == b4
        &&& byte_of(n, 5) == b5
        &&& byte_of(n, 6) == b6
        &&& byte_of(n, 7) == b7
    }) by (bit_vector);
}

/// Reading back the bytes of a 16-bit integer, in the order they were
/// written in, gives the integer.
pub proof fn lemma_u16_written_then_read(n: u16, e: Endian)
    ensures
        u16_bytes(n, e).len() == 2,
        u16_at(u16_bytes(n, e), 0, e) == n,
{
    lemma_u16_le_parts(n);
}

/// Writing the 16-bit integer that two bytes hold gives those two bytes.
pub proof fn lemma_u16_read_then_written(b: Seq<u8>, at: int, e: Endian)
    requires
        0 <= at,
        at + 2 <= b.len(),
    ensures
        u16_bytes(u16_at(b, at, e), e) == b.subrange(at, at + 2),
{
    lemma_u16_le_bytes(b[at], b[at + 1]);
    lemma_u16_le_bytes(b[at + 1], b[at]);
}

/// Reading back the bytes of a 32-bit integer, in the order they were
/// written in, gives the integer.
pub proof fn lemma_u32_written_then_read(n: u32, e: Endian)
    ensures
        u32_bytes(n, e).len() == 4,
        u32_at(u32_bytes(n, e), 0, e) == n,
{
    lemma_u32_le_parts(n);
}

/// Writing the 32-bit integer that four bytes hold gives those four bytes.
pub proof fn lemma_u32_read_then_written(b: Seq<u8>, at: int, e: Endian)
    requires
        0 <= at,
        at + 4 <= b.len(),
    ensures
        u32_bytes(u32_at(b, at, e), e) == b.subrange(at, at + 4),
{
    lemma_u32_le_bytes(b[at], b[at + 1], b[at + 2], b[at + 3]);
    lemma_u32_le_bytes(b[at + 3], b[at + 2], b[at + 1], b[at]);
}

/// Reading back the bytes of a signed 32-bit integer gives the integer.
pub proof fn lemma_i32_written_then_read(n: i32, e: Endian)
    ensures
        i32_bytes(n, e).len() == 4,
        i32_at(i32_bytes(n, e), 0, e) == n,
{
    lemma_u32_written_then_read(n as u32, e);
    assert((n as u32) as i32 == n) by (bit_vector);
}

/// Writing the signed 32-bit integer that four bytes hold gives those bytes.
pub proof fn lemma_i32_read_then_written(b: Seq<u8>, at: int, e: Endian)
    requires
        0 <= at,
        at + 4 <= b.len(),
    ensures
        i32_bytes(i32_at(b, at, e), e) == b.subrange(at, at + 4),
{
    let u = u32_at(b, at, e);
    assert((u as i32) as u32 == u) by (bit_vector);
    lemma_u32_read_then_written(b, at, e);
}

/// Reading back the bytes of a 64-bit integer, in the order they were
/// written in, gives the integer.
pub proof fn lemma_u64_written_then_read(n: u64, e: Endian)
    ensures
        u64_bytes(n, e).len() == 8,
        u64_at(u64_bytes(n, e), 0, e) == n,
{
    lemma_u64_le_parts(n);
}

/// Writing the 64-bit integer that eight bytes hold gives those eight bytes.
pub proof fn lemma_u64_read_then_written(b: Seq<u8>, at: int, e: Endian)
    requires
        0 <= at,
        at + 8 <= b.len(),
    ensures
        u64_bytes(u64_at(b, at, e), e) == b.subrange(at, at + 8),
{
    lemma_u64_le_bytes(
        b[at],
        b[at + 1],
        b[at + 2],
        b[at + 3],
        b[at + 4],
        b[at + 5],
        b[at + 6],
        b[at + 7],
    );
    lemma_u64_le_bytes(
        b[at + 7],
        b[at + 6],
        b[at + 5],
        b[at + 4],
        b[at + 3],
        b[at + 2],
        b[at + 1],
        b[at],
    );
}

/// The bytes of the 32-bit integers `ws`, one after the other, each in
/// order `e`.
pub open spec fn u32s_bytes(ws: Seq<u32>, e: Endian) -> Seq<u8>
    decreases ws.len(),
{
    if ws.len() == 0 {
        Seq::empty()
    } else {
        u32s_bytes(ws.drop_last(), e) + u32_bytes(ws.last(), e)
    }
}

/// The bytes of the 64-bit integers `ws`, one after the other, each in
/// order `e`.
pub open spec fn u64s_bytes(ws: Seq<u64>, e: Endian) -> Seq<u8>
    decreases ws.len(),
{
    if ws.len() == 0 {
        Seq::empty()
    } else {
        u64s_bytes(ws.drop_last(), e) + u64_bytes(ws.last(), e)
    }
}

/// Writing the 32-bit integers that a run of bytes holds gives those bytes.
pub proof fn lemma_u32s_read_then_written(b: Seq<u8>, at: int, ws: Seq<u32>, e: Endian)
    requires
        0 <= at,
        at + 4 * ws.len() <= b.len(),
        forall|i: int| 0 <= i < ws.len() ==> ws[i] == u32_at(b, at + 4 * i, e),
    ensures
        u32s_bytes(ws, e) == b.subrange(at, at + 4 * ws.len()),
    decreases ws.len(),
{
    if ws.len() == 0 {
    } else {
        let n = ws.len() - 1;
        lemma_u32s_read_then_written(b, at, ws.drop_last(), e);
        lemma_u32_read_then_written(b, at + 4 * n, e);
    }
}

/// Writing the 64-bit integers that a run of bytes holds gives those bytes.
pub proof fn lemma_u64s_read_then_written(b: Seq<u8>, at: int, ws: Seq<u64>, e: Endian)
    requires
        0 <= at,
        at + 8 * ws.len() <= b.len(),
        forall|i: int| 0 <= i < ws.len() ==> ws[i] == u64_at(b, at + 8 * i, e),
    ensures
        u64s_bytes(ws, e) == b.subrange(at, at + 8 * ws.len()),
    decreases ws.len(),
{
    if ws.len() == 0 {
    } else {
        let n = ws.len() - 1;
        lemma_u64s_read_then_written(b, at, ws.drop_last(), e);
        lemma_u64_read_then_written(b, at + 8 * n, e);
    }
}

/// Bytes that hold, from index `at`, the bytes of a 16-bit integer hold that
/// integer there.
pub proof fn lemma_u16_at_its_bytes(b: Seq<u8>, at: int, n: u16, e: Endian)
    requires
        0 <= at,
        at + 2 <= b.len(),
        b.subrange(at, at + 2) == u16_bytes(n, e),
    ensures
        u16_at(b, at, e) == n,
{
    lemma_u16_written_then_read(n, e);
}

/// Bytes that hold, from index `at`, the bytes of a 32-bit integer hold that
/// integer there.
pub proof fn lemma_u32_at_its_bytes(b: Seq<u8>, at: int, n: u32, e: Endian)
    requires
        0 <= at,
        at + 4 <= b.len(),
        b.subrange(at, at + 4) == u32_bytes(n, e),
    ensures
        u32_at(b, at, e) == n,
{
    lemma_u32_written_then_read(n, e);
}

/// Bytes that hold, from index `at`, the bytes of a signed 32-bit integer
/// hold that integer there.
pub proof fn lemma_i32_at_its_bytes(b: Seq<u8>, at: int, n: i32, e: Endian)
    requires
        0 <= at,
        at + 4 <= b.len(),
        b.subrange(at, at + 4) == i32_bytes(n, e),
    ensures
        i32_at(b, at, e) == n,
{
    lemma_u32_at_its_bytes(b, at, n as u32, e);
    assert((n as u32) as i32 == n) by (bit_vector);
}

/// Bytes that hold, from index `at`, the bytes of a 64-bit integer hold that
/// integer there.
pub proof fn lemma_u64_at_its_bytes(b: Seq<u8>, at: int, n: u64, e: Endian)
    requires
        0 <= at,
        at + 8 <= b.len(),
        b.subrange(at, at + 8) == u64_bytes(n, e),
    ensures
        u64_at(b, at, e) == n,
{
    lemma_u64_written_then_read(n, e);
}

/// The bytes of `ws` are four for each of them.
pub proof fn lemma_u32s_bytes_len(ws: Seq<u32>, e: Endian)
    ensures
        u32s_bytes(ws, e).len() == 4 * ws.len(),
    decreases ws.len(),
{
    if ws.len() > 0 {
        lemma_u32s_bytes_len(ws.drop_last(), e);
    }
}

/// The bytes of `ws` are eight for each of them.
pub proof fn lemma_u64s_bytes_len(ws: Seq<u64>, e: Endian)
    ensures
        u64s_bytes(ws, e).len() == 8 * ws.len(),
    decreases ws.len(),
{
    if ws.len() > 0 {
        lemma_u64s_bytes_len(ws.drop_last(), e);
    }
}

/// Bytes that hold, from index `at`, the bytes of the 32-bit integers `ws`
/// hold each of them in its place.
pub proof fn lemma_u32s_at_their_bytes(b: Seq<u8>, at: int, ws: Seq<u32>, e: Endian)
    requires
        0 <= at,
        at + 4 * ws.len() <= b.len(),
        b.subrange(at, at + 4 * ws.len()) == u32s_bytes(ws, e),
    ensures
        forall|i: int| 0 <= i < ws.len() ==> u32_at(b, at + 4 * i, e) == #[trigger] ws[i],
    decreases ws.len(),
{
    if ws.len() > 0 {
        let n = ws.len() - 1;
        let front = ws.drop_last();
        lemma_u32s_bytes_len(front, e);
        assert(b.subrange(at, at + 4 * n) =~= u32s_bytes(front, e));
        assert(b.subrange(at + 4 * n, at + 4 * n + 4) =~= u32_bytes(ws.last(), e)) by {
            assert(b.subrange(at, at + 4 * ws.len()).subrange(4 * n, 4 * n + 4) =~= b.subrange(
                at + 4 * n,
                at + 4 * n + 4,
            ));
        }
        lemma_u32s_at_their_bytes(b, at, front, e);
        lemma_u32_at_its_bytes(b, at + 4 * n, ws.last(), e);
        assert forall|i: int| 0 <= i < ws.len() implies u32_at(b, at + 4 * i, e)
            == #[trigger] ws[i] by {
            if i < n {
                assert(front[i] == ws[i]);
            }
        }
    }
}

/// Bytes that hold, from index `at`, the bytes of the 64-bit integers `ws`
/// hold each of them in its place.
pub proof fn lemma_u64s_at_their_bytes(b: Seq<u8>, at: int, ws: Seq<u64>, e: Endian)
    requires
        0 <= at,
        at + 8 * ws.len() <= b.len(),
        b.subrange(at, at + 8 * ws.len()) == u64s_bytes(ws, e),
    ensures
        forall|i: int| 0 <= i < ws.len() ==> u64_at(b, at + 8 * i, e) == #[trigger] ws[i],
    decreases ws.len(),
{
    if ws.len() > 0 {
        let n = ws.len() - 1;
        let front = ws.drop_last();
        lemma_u64s_bytes_len(front, e);
        assert(b.subrange(at, at + 8 * n) =~= u64s_bytes(front, e));
        assert(b.subrange(at + 8 * n, at + 8 * n + 8) =~= u64_bytes(ws.last(), e)) by {
            assert(b.subrange(at, at + 8 * ws.len()).subrange(8 * n, 8 * n + 8) =~= b.subrange(
                at + 8 * n,
                at + 8 * n + 8,
            ));
        }
        lemma_u64s_at_their_bytes(b, at, front, e);
        lemma_u64_at_its_bytes(b, at + 8 * n, ws.last(), e);
        assert forall|i: int| 0 <= i < ws.len() implies u64_at(b, at + 8 * i, e)
            == #[trigger] ws[i] by {
            if i < n {
                assert(front[i] == ws[i]);
            }
        }
    }
}

/// The first `m` of some bytes, then the first `k` of those that follow,
/// are the first `m + k` of them.
pub proof fn lemma_take_then_more(b: Seq<u8>, m: int, k: int)
    requires
        0 <= m,
        0 <= k,
        m + k <= b.len(),
    ensures
        b.take(m) + b.skip(m).take(k) == b.take(m + k),
{
}

/// `byteorder::NativeEndian::read_u16`: the first two bytes of `buf` as an
/// integer in the byte order of the target, which is one of the two orders.
#[verifier::external_body]
fn native_read_u16(buf: &[u8]) -> (n: u16)
    requires
        buf@.len() >= 2,
    ensures
        n == u16_at(buf@, 0, Endian::Little) || n == u16_at(buf@, 0, Endian::Big),
{
    NativeEndian::read_u16(buf)
}

/// `byteorder::LittleEndian::read_u16`: the first two bytes of `buf`, least
/// significant first.
#[verifier::external_body]
fn le_read_u16(buf: &[u8]) -> (n: u16)
    requires
        buf@.len() >= 2,
    ensures
        n == u16_at(buf@, 0, Endian::Little),
{
    LittleEndian::read_u16(buf)
}

/// `byteorder::BigEndian::read_u16`: the first two bytes of `buf`, most
/// significant first.
#[verifier::external_body]
fn be_read_u16(buf: &[u8]) -> (n: u16)
    requires
        buf@.len() >= 2,
    ensures
        n == u16_at(buf@, 0, Endian::Big),
{
    BigEndian::read_u16(buf)
}

/// `byteorder::LittleEndian::read_u32`: the first four bytes of `buf`, least
/// significant first.
#[verifier::external_body]
fn le_read_u32(buf: &[u8]) -> (n: u32)
    requires
        buf@.len() >= 4,
    ensures
        n == u32_at(buf@, 0, Endian::Little),
{
    LittleEndian::read_u32(buf)
}

/// `byteorder::BigEndian::read_u32`: the first four bytes of `buf`, most
/// significant first.
#[verifier::external_body]
fn be_read_u32(buf: &[u8]) -> (n: u32)
    requires
        buf@.len() >= 4,
    ensures
        n == u32_at(buf@, 0, Endian::Big),
{
    BigEndian::read_u32(buf)
}

/// `byteorder::LittleEndian::read_u64`: the first eight bytes of `buf`, least
/// significant first.
#[verifier::external_body]
fn le_read_u64(buf: &[u8]) -> (n: u64)
    requires
        buf@.len() >= 8,
    ensures
        n == u64_at(buf@, 0, Endian::Little),
{
    LittleEndian::read_u64(buf)
}

/// `byteorder::BigEndian::read_u64`: the first eight bytes of `buf`, most
/// significant first.
#[verifier::external_body]
fn be_read_u64(buf: &[u8]) -> (n: u64)
    requires
        buf@.len() >= 8,
    ensures
        n == u64_at(buf@, 0, Endian::Big),
{
    BigEndian::read_u64(buf)
}

/// `byteorder::LittleEndian::write_u16` into a buffer of two bytes: the bytes
/// of `n`, least significant first.
#[verifier::external_body]
fn le_write_u16(n: u16) -> (buf: [u8; 2])
    ensures
        buf@ == u16_bytes(n, Endian::Little),
{
    let mut buf = [0u8; 2];
    LittleEndian::write_u16(&mut buf, n);
    buf
}

/// `byteorder::BigEndian::write_u16` into a buffer of two bytes: the bytes of
/// `n`, most significant first.
#[verifier::external_body]
fn be_write_u16(n: u16) -> (buf: [u8; 2])
    ensures
        buf@ == u16_bytes(n, Endian::Big),
{
    let mut buf = [0u8; 2];
    BigEndian::write_u16(&mut buf, n);
    buf
}

/// `byteorder::LittleEndian::write_u32` into a buffer of four bytes: the
/// bytes of `n`, least significant first.
#[verifier::external_body]
fn le_write_u32(n: u32) -> (buf: [u8; 4])
    ensures
        buf@ == u32_bytes(n, Endian::Little),
{
    let mut buf = [0u8; 4];
    LittleEndian::write_u32(&mut buf, n);
    buf
}

/// `byteorder::BigEndian::write_u32` into a buffer of four bytes: the bytes
/// of `n`, most significant first.
#[verifier::external_body]
fn be_write_u32(n: u32) -> (buf: [u8; 4])
    ensures
        buf@ == u32_bytes(n, Endian::Big),
{
    let mut buf = [0u8; 4];
    BigEndian::write_u32(&mut buf, n);
    buf
}

/// `byteorder::LittleEndian::write_u64` into a buffer of eight bytes: the
/// bytes of `n`, least significant first.
#[verifier::external_body]
fn le_write_u64(n: u64) -> (buf: [u8; 8])
    ensures
        buf@ == u64_bytes(n, Endian::Little),
{
    let mut buf = [0u8; 8];
    LittleEndian::write_u64(&mut buf, n);
    buf
}

/// `byteorder::BigEndian::write_u64` into a buffer of eight bytes: the bytes
/// of `n`, most significant first.
#[verifier::external_body]
fn be_write_u64(n: u64) -> (buf: [u8; 8])
    ensures
        buf@ == u64_bytes(n, Endian::Big),
{
    let mut buf = [0u8; 8];
    BigEndian::write_u64(&mut buf, n);
    buf
}

/// Takes a 16-bit integer in order `endian` off the front of the input.
pub fn read_u16_in(read: &mut &[u8], endian: Endian) -> (res: Result<u16, Error>)
    ensures
        res is Ok <==> old(read)@.len() >= 2,
        res matches Ok(n) ==> n == u16_at(old(read)@, 0, endian)
            && final(read)@ == old(read)@.skip(2),
        res matches Err(err) ==> err == Error::TruncatedInput && final(read)@ == old(read)@,
{
    let buf: &[u8] = *read;
    if buf.len() < 2 {
        return Err(Error::TruncatedInput);
    }
    let n = match endian {
        Endian::Little => le_read_u16(buf),
        Endian::Big => be_read_u16(buf),
    };
    *read = slice_subrange(buf, 2, buf.len());
    Ok(n)
}

/// Takes a 32-bit integer in order `endian` off the front of the input.
pub fn read_u32_in(read: &mut &[u8], endian: Endian) -> (res: Result<u32, Error>)
    ensures
        res is Ok <==> old(read)@.len() >= 4,
        res matches Ok(n) ==> n == u32_at(old(read)@, 0, endian)
            && final(read)@ == old(read)@.skip(4),
        res matches Err(err) ==> err == Error::TruncatedInput && final(read)@ == old(read)@,
{
    let buf: &[u8] = *read;
    if buf.len() < 4 {
        return Err(Error::TruncatedInput);
    }
    let n = match endian {
        Endian::Little => le_read_u32(buf),
        Endian::Big => be_read_u32(buf),
    };
    *read = slice_subrange(buf, 4, buf.len());
    Ok(n)
}

/// Takes a signed 32-bit integer in order `endian` off the front of the input.
pub fn read_i32_in(read: &mut &[u8], endian: Endian) -> (res: Result<i32, Error>)
    ensures
        res is Ok <==> old(read)@.len() >= 4,
        res matches Ok(n) ==> n == i32_at(old(read)@, 0, endian)
            && final(read)@ == old(read)@.skip(4),
        res matches Err(err) ==> err == Error::TruncatedInput && final(read)@ == old(read)@,
{
    let n = read_u32_in(read, endian)?;
    Ok(n as i32)
}

/// Takes a 64-bit integer in order `endian` off the front of the input.
pub fn read_u64_in(read: &mut &[u8], endian: Endian) -> (res: Result<u64, Error>)
    ensures
        res is Ok <==> old(read)@.len() >= 8,
        res matches Ok(n) ==> n == u64_at(old(read)@, 0, endian)
            && final(read)@ == old(read)@.skip(8),
        res matches Err(err) ==> err == Error::TruncatedInput && final(read)@ == old(read)@,
{
    let buf: &[u8] = *read;
    if buf.len() < 8 {
        return Err(Error::TruncatedInput);
    }
    let n = match endian {
        Endian::Little => le_read_u64(buf),
        Endian::Big => be_read_u64(buf),
    };
    *read = slice_subrange(buf, 8, buf.len());
    Ok(n)
}

/// Takes `len` bytes off the front of the input.
pub fn read_bytes(read: &mut &[u8], len: usize) -> (res: Result<Vec<u8>, Error>)
    ensures
        res is Ok <==> old(read)@.len() >= len,
        res matches Ok(bytes) ==> bytes@ == old(read)@.take(len as int)
            && final(read)@ == old(read)@.skip(len as int),
        res matches Err(err) ==> err == Error::TruncatedInput && final(read)@ == old(read)@,
{
    let buf: &[u8] = *read;
    if buf.len() < len {
        return Err(Error::TruncatedInput);
    }
    let bytes = slice_to_vec(slice_subrange(buf, 0, len));
    *read = slice_subrange(buf, len, buf.len());
    Ok(bytes)
}

/// Takes sixteen bytes off the front of the input.
pub fn read_bytes16(read: &mut &[u8]) -> (res: Result<[u8; 16], Error>)
    ensures
        res is Ok <==> old(read)@.len() >= 16,
        res matches Ok(bytes) ==> bytes@ == old(read)@.take(16) && final(read)@ == old(read)@.skip(
            16,
        ),
        res matches Err(err) ==> err == Error::TruncatedInput && final(read)@ == old(read)@,
{
    let buf: &[u8] = *read;
    if buf.len() < 16 {
        return Err(Error::TruncatedInput);
    }
    let bytes: [u8; 16] = [
        buf[0],
        buf[1],
        buf[2],
        buf[3],
        buf[4],
        buf[5],
        buf[6],
        buf[7],
        buf[8],
        buf[9],
        buf[10],
        buf[11],
        buf[12],
        buf[13],
        buf[14],
        buf[15],
    ];
    *read = slice_subrange(buf, 16, buf.len());
    Ok(bytes)
}

/// Takes `count` 32-bit integers, each in order `endian`, off the front of
/// the input.
pub fn read_u32s_in(read: &mut &[u8], count: usize, endian: Endian) -> (res: Result<
    Vec<u32>,
    Error,
>)
    ensures
        res is Ok <==> old(read)@.len() >= 4 * count,
        res matches Ok(ws) ==> ws@.len() == count && (forall|i: int|
            0 <= i < count ==> ws@[i] == u32_at(old(read)@, 4 * i, endian))
                && final(read)@ == old(read)@.skip(4 * count),
        res matches Err(err) ==> err == Error::TruncatedInput && final(read)@ == old(read)@,
{
    let mut cur: &[u8] = *read;
    if cur.len() / 4 < count {
        return Err(Error::TruncatedInput);
    }
    let mut ws: Vec<u32> = Vec::new();
    for i in 0..count
        invariant
            4 * count <= old(read)@.len(),
            cur@ == old(read)@.skip(4 * i),
            ws@.len() == i,
            forall|j: int| 0 <= j < i ==> ws@[j] == u32_at(old(read)@, 4 * j, endian),
    {
        match read_u32_in(&mut cur, endian) {
            Ok(n) => ws.push(n),
            Err(err) => {
                return Err(err);
            },
        }
    }
    *read = cur;
    Ok(ws)
}

/// Takes `count` 64-bit integers, each in order `endian`, off the front of
/// the input.
pub fn read_u64s_in(read: &mut &[u8], count: usize, endian: Endian) -> (res: Result<
    Vec<u64>,
    Error,
>)
    ensures
        res is Ok <==> old(read)@.len() >= 8 * count,
        res matches Ok(ws) ==> ws@.len() == count && (forall|i: int|
            0 <= i < count ==> ws@[i] == u64_at(old(read)@, 8 * i, endian))
                && final(read)@ == old(read)@.skip(8 * count),
        res matches Err(err) ==> err == Error::TruncatedInput && final(read)@ == old(read)@,
{
    let mut cur: &[u8] = *read;
    if cur.len() / 8 < count {
        return Err(Error::TruncatedInput);
    }
    let mut ws: Vec<u64> = Vec::new();
    for i in 0..count
        invariant
            8 * count <= old(read)@.len(),
            cur@ == old(read)@.skip(8 * i),
            ws@.len() == i,
            forall|j: int| 0 <= j < i ==> ws@[j] == u64_at(old(read)@, 8 * j, endian),
    {
        match read_u64_in(&mut cur, endian) {
            Ok(n) => ws.push(n),
            Err(err) => {
                return Err(err);
            },
        }
    }
    *read = cur;
    Ok(ws)
}

/// Appends the two bytes of `n` in order `endian`.
pub fn write_u16_in(out: &mut Vec<u8>, n: u16, endian: Endian)
    ensures
        final(out)@ == old(out)@ + u16_bytes(n, endian),
{
    let buf = match endian {
        Endian::Little => le_write_u16(n),
        Endian::Big => be_write_u16(n),
    };
    out.extend_from_slice(buf.as_slice());
}

/// Appends the four bytes of `n` in order `endian`.
pub fn write_u32_in(out: &mut Vec<u8>, n: u32, endian: Endian)
    ensures
        final(out)@ == old(out)@ + u32_bytes(n, endian),
{
    let buf = match endian {
        Endian::Little => le_write_u32(n),
        Endian::Big => be_write_u32(n),
    };
    out.extend_from_slice(buf.as_slice());
}

/// Appends the four bytes of `n`, in two's complement, in order `endian`.
pub fn write_i32_in(out: &mut Vec<u8>, n: i32, endian: Endian)
    ensures
        final(out)@ == old(out)@ + i32_bytes(n, endian),
{
    write_u32_in(out, n as u32, endian);
}

/// Appends the eight bytes of `n` in order `endian`.
pub fn write_u64_in(out: &mut Vec<u8>, n: u64, endian: Endian)
    ensures
        final(out)@ == old(out)@ + u64_bytes(n, endian),
{
    let buf = match endian {
        Endian::Little => le_write_u64(n),
        Endian::Big => be_write_u64(n),
    };
    out.extend_from_slice(buf.as_slice());
}

/// Appends the bytes of the 32-bit integers `ws`, each in order `endian`.
pub fn write_u32s_in(out: &mut Vec<u8>, ws: &[u32], endian: Endian)
    ensures
        final(out)@ == old(out)@ + u32s_bytes(ws@, endian),
{
    for i in 0..ws.len()
        invariant
            out@ == old(out)@ + u32s_bytes(ws@.take(i as int), endian),
    {
        write_u32_in(out, ws[i], endian);
        proof {
            assert(ws@.take(i + 1).drop_last() == ws@.take(i as int));
        }
    }
    proof {
        assert(ws@.take(ws@.len() as int) == ws@);
    }
}

/// Appends the bytes of the 64-bit integers `ws`, each in order `endian`.
pub fn write_u64s_in(out: &mut Vec<u8>, ws: &[u64], endian: Endian)
    ensures
        final(out)@ == old(out)@ + u64s_bytes(ws@, endian),
{
    for i in 0..ws.len()
        invariant
            out@ == old(out)@ + u64s_bytes(ws@.take(i as int), endian),
    {
        write_u64_in(out, ws[i], endian);
        proof {
            assert(ws@.take(i + 1).drop_last() == ws@.take(i as int));
        }
    }
    proof {
        assert(ws@.take(ws@.len() as int) == ws@);
    }
}

} // verus!
