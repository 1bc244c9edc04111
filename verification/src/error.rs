use vstd::prelude::*;

verus! {

/// Why a record could not be decoded or encoded.
#[derive(Debug, Clone, Copy, PartialEq, Eq, Structural)]
pub enum Error {
    /// The input ended inside a field.
    TruncatedInput,
    /// The first four bytes are no magic number of the format.
    UnknownMagic,
    /// The magic number is known, but announces a header of another shape
    /// than the one asked for.
    UnsupportedMagic,
    /// The (cpu type, cpu subtype) pair is not in the table.
    UnsupportedCpuIdentity,
    /// The file type is not in the table.
    UnsupportedFileKind,
    /// A bit is set that has no name.
    UnknownFlagBit,
    /// The size a record declares is not the size its kind has.
    SizeMismatch { expected: u32, actual: u32 },
    /// A record decoder was handed a record of another kind.
    UnexpectedCommand { expected: u32, actual: u32 },
    /// The section type is not in the table.
    UnsupportedSectionType,
    /// The platform of a build version command is not in the table.
    UnsupportedPlatform,
    /// The tool of a build tool version is not in the table.
    UnsupportedTool,
    /// A load command of a kind that is only carried as raw bytes cannot be
    /// written.
    UnwritableUnknownCommand,
}

} // verus!
