use crate::error::Error;
use vstd::prelude::*;

verus! {

/// What kind of file a Mach-O file is.
#[derive(Debug, Clone, Copy, PartialEq, Eq, Structural)]
pub enum FileType {
    Object,
    Execute,
    FVMLib,
    Core,
    Preload,
    Dylib,
    Dylinker,
    Bundle,
    Dsym,
}

impl FileType {
    /// The number of this file type.
    pub open spec fn spec_to_u32(self) -> u32 {
        match self {
            FileType::Object => 0x1,
            FileType::Execute => 0x2,
            FileType::FVMLib => 0x3,
            FileType::Core => 0x4,
            FileType::Preload => 0x5,
            FileType::Dylib => 0x6,
            FileType::Dylinker => 0x7,
            FileType::Bundle => 0x8,
            FileType::Dsym => 0xA,
        }
    }

    /// The file type with number `n`, if there is one.
    pub open spec fn spec_from_u32(n: u32) -> Option<FileType> {
        if n == 0x1 {
            Some(FileType::Object)
        } else if n == 0x2 {
            Some(FileType::Execute)
        } else if n == 0x3 {
            Some(FileType::FVMLib)
        } else if n == 0x4 {
            Some(FileType::Core)
        } else if n == 0x5 {
            Some(FileType::Preload)
        } else if n == 0x6 {
            Some(FileType::Dylib)
        } else if n == 0x7 {
            Some(FileType::Dylinker)
        } else if n == 0x8 {
            Some(FileType::Bundle)
        } else if n == 0xA {
            Some(FileType::Dsym)
        } else {
            None
        }
    }

    pub fn from_u32(n: u32) -> (res: Result<FileType, Error>)
        ensures
            res is Ok <==> FileType::spec_from_u32(n) is Some,
            res matches Ok(file_type) ==> FileType::spec_from_u32(n) == Some(file_type),
            res matches Err(err) ==> err == Error::UnsupportedFileKind,
    {
        match n {
            0x1 => Ok(FileType::Object),
            0x2 => Ok(FileType::Execute),
            0x3 => Ok(FileType::FVMLib),
            0x4 => Ok(FileType::Core),
            0x5 => Ok(FileType::Preload),
            0x6 => Ok(FileType::Dylib),
            0x7 => Ok(FileType::Dylinker),
            0x8 => Ok(FileType::Bundle),
            0xA => Ok(FileType::Dsym),
            _ => Err(Error::UnsupportedFileKind),
        }
    }

    #[verifier::when_used_as_spec(spec_to_u32)]
    pub fn to_u32(self) -> (n: u32)
        ensures
            n == self.spec_to_u32(),
    {
        match self {
            FileType::Object => 0x1,
            FileType::Execute => 0x2,
            FileType::FVMLib => 0x3,
            FileType::Core => 0x4,
            FileType::Preload => 0x5,
            FileType::Dylib => 0x6,
            FileType::Dylinker => 0x7,
            FileType::Bundle => 0x8,
            FileType::Dsym => 0xA,
        }
    }
}

/// The number of a file type names that file type and no other.
pub proof fn lemma_file_type_to_from(file_type: FileType)
    ensures
        FileType::spec_from_u32(file_type.spec_to_u32()) == Some(file_type),
{
}

/// A file type that was found for a number has that number.
pub proof fn lemma_file_type_from_to(n: u32)
    ensures
        FileType::spec_from_u32(n) matches Some(file_type) ==> file_type.spec_to_u32() == n,
{
}

} // verus!
