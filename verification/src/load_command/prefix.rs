use crate::error::Error;
use crate::io::{read_u32_in, u32_at, Endian};
use vstd::prelude::*;

verus! {

/// Why `b` does not start with the two words that open a load command of
/// kind `tag` and, where `size` is given, of that size; `None` if it does.
pub open spec fn prefix_error(b: Seq<u8>, e: Endian, tag: u32, size: Option<u32>) -> Option<
    Error,
> {
    if b.len() < 4 {
        Some(Error::TruncatedInput)
    } else if u32_at(b, 0, e) != tag {
        Some(Error::UnexpectedCommand { expected: tag, actual: u32_at(b, 0, e) })
    } else if b.len() < 8 {
        Some(Error::TruncatedInput)
    } else if size is Some && u32_at(b, 4, e) != size->0 {
        Some(Error::SizeMismatch { expected: size->0, actual: u32_at(b, 4, e) })
    } else {
        None
    }
}

/// Reads the two words that open a load command, its kind and its size, and
/// holds them against `tag` and, where it is given, `size`.
pub fn read_prefix(read: &mut &[u8], endian: Endian, tag: u32, size: Option<u32>) -> (res: Result<
    (u32, u32),
    Error,
>)
    ensures
        res is Ok <==> prefix_error(old(read)@, endian, tag, size) is None,
        res matches Ok(words) ==> words.0 == u32_at(old(read)@, 0, endian) && words.1 == u32_at(
            old(read)@,
            4,
            endian,
        ) && final(read)@ == old(read)@.skip(8),
        res matches Err(err) ==> prefix_error(old(read)@, endian, tag, size) == Some(err)
            && final(read)@ == old(read)@,
{
    let mut cur: &[u8] = *read;
    let cmd = read_u32_in(&mut cur, endian)?;
    if cmd != tag {
        return Err(Error::UnexpectedCommand { expected: tag, actual: cmd });
    }
    let cmdsize = read_u32_in(&mut cur, endian)?;
    match size {
        Some(size) => {
            if cmdsize != size {
                return Err(Error::SizeMismatch { expected: size, actual: cmdsize });
            }
        },
        None => {},
    }
    *read = cur;
    Ok((cmd, cmdsize))
}

} // verus!
