use atom_macho::error::Error;
use atom_macho::io::Endian;
use atom_macho::load_command::build_version::{Platform, Tool, Version};
use atom_macho::load_command::segment64::{
    name_len, SectionAttr, SectionAttrs, SectionFlags, SectionType,
};
use atom_macho::load_command::source_version;
use atom_macho::load_command::unix_thread::{Flavor, StateX86_64, ThreadState};
use atom_macho::load_command::{
    count_prev_sects, BuildToolVersion, BuildVersionCommand, DysymtabCommand, LoadCommand,
    Section64, SegmentCommand64, SourceVersionCommand, SymtabCommand, UnixThreadCommand,
    UuidCommand,
};

fn words_le(words: &[u32]) -> Vec<u8> {
    let mut bytes = Vec::new();
    for word in words {
        bytes.extend_from_slice(&word.to_le_bytes());
    }
    bytes
}

fn words_be(words: &[u32]) -> Vec<u8> {
    let mut bytes = Vec::new();
    for word in words {
        bytes.extend_from_slice(&word.to_be_bytes());
    }
    bytes
}

fn symtab() -> SymtabCommand {
    SymtabCommand {
        cmd: 0x2,
        cmdsize: 0x18,
        symoff: 0x1000,
        nsyms: 7,
        stroff: 0x1070,
        strsize: 0x58,
    }
}

fn uuid() -> UuidCommand {
    UuidCommand {
        cmd: 0x1b,
        cmdsize: 0x18,
        uuid: [
            0x10, 0x11, 0x12, 0x13, 0x14, 0x15, 0x16, 0x17, 0x18, 0x19, 0x1a, 0x1b, 0x1c, 0x1d,
            0x1e, 0x1f,
        ],
    }
}

fn uuid_le() -> Vec<u8> {
    let mut bytes = words_le(&[0x1b, 0x18]);
    bytes.extend_from_slice(&uuid().uuid);
    bytes
}

fn text_segment() -> SegmentCommand64 {
    SegmentCommand64 {
        cmd: 0x19,
        cmdsize: 72 + 2 * 80,
        segname: *b"__TEXT\0\0\0\0\0\0\0\0\0\0",
        vmaddr: 0x1_0000_0000,
        vmsize: 0x4000,
        fileoff: 0,
        filesize: 0x4000,
        maxprot: 5,
        initprot: 5,
        nsects: 2,
        flags: 0,
    }
}

fn text_segment_le() -> Vec<u8> {
    let mut bytes = words_le(&[0x19, 232]);
    bytes.extend_from_slice(b"__TEXT\0\0\0\0\0\0\0\0\0\0");
    bytes.extend_from_slice(&0x1_0000_0000u64.to_le_bytes());
    bytes.extend_from_slice(&0x4000u64.to_le_bytes());
    bytes.extend_from_slice(&0u64.to_le_bytes());
    bytes.extend_from_slice(&0x4000u64.to_le_bytes());
    bytes.extend_from_slice(&words_le(&[5, 5, 2, 0]));
    bytes
}

fn attrs(list: &[SectionAttr]) -> SectionAttrs {
    let mut attrs = SectionAttrs::new();
    for attr in list {
        attrs.push(*attr);
    }
    attrs
}

fn text_section() -> Section64 {
    Section64 {
        sectname: *b"__text\0\0\0\0\0\0\0\0\0\0",
        segname: *b"__TEXT\0\0\0\0\0\0\0\0\0\0",
        addr: 0x1_0000_3f80,
        size: 0x2a,
        offset: 0x3f80,
        align: 4,
        reloff: 0,
        nreloc: 0,
        flags: SectionFlags(
            attrs(&[SectionAttr::SomeInstructions, SectionAttr::PureInstructions]),
            SectionType::Regular,
        ),
        reserved1: 0,
        reserved2: 0,
        reserved3: 0,
    }
}

fn text_section_le() -> Vec<u8> {
    let mut bytes = Vec::new();
    bytes.extend_from_slice(b"__text\0\0\0\0\0\0\0\0\0\0");
    bytes.extend_from_slice(b"__TEXT\0\0\0\0\0\0\0\0\0\0");
    bytes.extend_from_slice(&0x1_0000_3f80u64.to_le_bytes());
    bytes.extend_from_slice(&0x2au64.to_le_bytes());
    bytes.extend_from_slice(&words_le(&[0x3f80, 4, 0, 0, 0x80000400, 0, 0, 0]));
    bytes
}

fn cstring_section() -> Section64 {
    Section64 {
        sectname: *b"__cstring\0\0\0\0\0\0\0",
        segname: *b"__TEXT\0\0\0\0\0\0\0\0\0\0",
        addr: 0x1_0000_3faa,
        size: 0xe,
        offset: 0x3faa,
        align: 0,
        reloff: 0x5000,
        nreloc: 3,
        flags: SectionFlags(attrs(&[]), SectionType::CstringLiterals),
        reserved1: 1,
        reserved2: 2,
        reserved3: 3,
    }
}

fn cstring_section_le() -> Vec<u8> {
    let mut bytes = Vec::new();
    bytes.extend_from_slice(b"__cstring\0\0\0\0\0\0\0");
    bytes.extend_from_slice(b"__TEXT\0\0\0\0\0\0\0\0\0\0");
    bytes.extend_from_slice(&0x1_0000_3faau64.to_le_bytes());
    bytes.extend_from_slice(&0xeu64.to_le_bytes());
    bytes.extend_from_slice(&words_le(&[0x3faa, 0, 0x5000, 3, 0x2, 1, 2, 3]));
    bytes
}

fn registers() -> StateX86_64 {
    StateX86_64 {
        __rax: 1,
        __rbx: 2,
        __rcx: 3,
        __rdx: 4,
        __rdi: 5,
        __rsi: 6,
        __rbp: 7,
        __rsp: 8,
        __r8: 9,
        __r9: 10,
        __r10: 11,
        __r11: 12,
        __r12: 13,
        __r13: 14,
        __r14: 15,
        __r15: 16,
        __rip: 0x1_0000_3f80,
        __rflags: 18,
        __cs: 19,
        __fs: 20,
        __gs: 21,
    }
}

fn registers_le() -> Vec<u8> {
    let mut bytes = Vec::new();
    for n in 1u64..=16 {
        bytes.extend_from_slice(&n.to_le_bytes());
    }
    bytes.extend_from_slice(&0x1_0000_3f80u64.to_le_bytes());
    for n in 18u64..=21 {
        bytes.extend_from_slice(&n.to_le_bytes());
    }
    bytes
}

#[test]
fn uuid_command_is_read_and_written() {
    let bytes = uuid_le();
    assert_eq!(bytes.len(), UuidCommand::SIZE as usize);
    let mut read = bytes.as_slice();
    assert_eq!(UuidCommand::read_from_in(&mut read, Endian::Little), Ok(uuid()));
    assert!(read.is_empty());

    let mut out = Vec::new();
    uuid().write_into_in(&mut out, Endian::Little);
    assert_eq!(out, bytes);

    let mut out = Vec::new();
    uuid().write_into_in(&mut out, Endian::Big);
    assert_eq!(&out[..8], &[0, 0, 0, 0x1b, 0, 0, 0, 0x18]);
    assert_eq!(&out[8..], &uuid().uuid);

    let mut read = out.as_slice();
    assert_eq!(UuidCommand::read_from_in(&mut read, Endian::Big), Ok(uuid()));
}

#[test]
fn uuid_command_of_another_size_is_refused() {
    let mut bytes = uuid_le();
    bytes[4] = 0x19;
    bytes.push(0);
    let mut read = bytes.as_slice();
    assert_eq!(
        UuidCommand::read_from_in(&mut read, Endian::Little),
        Err(Error::SizeMismatch {
            expected: 24,
            actual: 25
        })
    );
    assert_eq!(read, bytes.as_slice());

    let mut read = bytes.as_slice();
    assert_eq!(
        LoadCommand::read_from_in(&mut read, Endian::Little),
        Err(Error::SizeMismatch {
            expected: 24,
            actual: 25
        })
    );
}

#[test]
fn uuid_command_of_another_kind_is_refused() {
    let mut bytes = uuid_le();
    bytes[0] = 0x2;
    let mut read = bytes.as_slice();
    assert_eq!(
        UuidCommand::read_from_in(&mut read, Endian::Little),
        Err(Error::UnexpectedCommand {
            expected: 0x1b,
            actual: 0x2
        })
    );
    assert_eq!(read, bytes.as_slice());
}

#[test]
fn uuid_command_cut_short() {
    let bytes = uuid_le();
    for len in 0..24 {
        let mut read = &bytes[..len];
        assert_eq!(
            UuidCommand::read_from_in(&mut read, Endian::Little),
            Err(Error::TruncatedInput)
        );
        assert_eq!(read.len(), len);
    }
}

#[test]
fn symtab_command_is_read_and_written() {
    let bytes = words_le(&[0x2, 0x18, 0x1000, 7, 0x1070, 0x58]);
    assert_eq!(bytes.len(), SymtabCommand::SIZE as usize);
    let mut read = bytes.as_slice();
    assert_eq!(SymtabCommand::read_from_in(&mut read, Endian::Little), Ok(symtab()));
    assert!(read.is_empty());

    let mut out = Vec::new();
    symtab().write_into_in(&mut out, Endian::Little);
    assert_eq!(out, bytes);

    let bytes = words_be(&[0x2, 0x18, 0x1000, 7, 0x1070, 0x58]);
    let mut read = bytes.as_slice();
    assert_eq!(SymtabCommand::read_from_in(&mut read, Endian::Big), Ok(symtab()));
    let mut out = Vec::new();
    symtab().write_into_in(&mut out, Endian::Big);
    assert_eq!(out, bytes);

    let mut out = Vec::new();
    symtab().write_into(&mut out);
    let mut read = out.as_slice();
    assert_eq!(SymtabCommand::read_from_in(&mut read, Endian::native()), Ok(symtab()));
}

#[test]
fn symtab_command_that_is_wrong() {
    let bytes = words_le(&[0x2, 0x20, 0x1000, 7, 0x1070, 0x58, 0, 0]);
    let mut read = bytes.as_slice();
    assert_eq!(
        SymtabCommand::read_from_in(&mut read, Endian::Little),
        Err(Error::SizeMismatch {
            expected: 0x18,
            actual: 0x20
        })
    );

    let bytes = words_le(&[0xb, 0x18, 0x1000, 7, 0x1070, 0x58]);
    let mut read = bytes.as_slice();
    assert_eq!(
        SymtabCommand::read_from_in(&mut read, Endian::Little),
        Err(Error::UnexpectedCommand {
            expected: 0x2,
            actual: 0xb
        })
    );

    let bytes = words_le(&[0x2, 0x18, 0x1000, 7, 0x1070]);
    let mut read = bytes.as_slice();
    assert_eq!(
        SymtabCommand::read_from_in(&mut read, Endian::Little),
        Err(Error::TruncatedInput)
    );
    assert_eq!(read, bytes.as_slice());

    let bytes = words_le(&[0x2, 0x18, 0x1000, 7, 0x1070, 0x58]);
    let mut read = bytes.as_slice();
    assert_eq!(
        SymtabCommand::read_from_in(&mut read, Endian::Big),
        Err(Error::UnexpectedCommand {
            expected: 0x2,
            actual: 0x02000000
        })
    );
}

#[test]
fn dysymtab_command_is_read_and_written() {
    let words: Vec<u32> = vec![
        0xb, 0x50, 1, 2, 3, 4, 5, 6, 7, 8, 9, 10, 11, 12, 13, 14, 15, 16, 17, 18,
    ];
    let command = DysymtabCommand {
        cmd: 0xb,
        cmdsize: 0x50,
        ilocalsym: 1,
        nlocalsym: 2,
        iextdefsym: 3,
        nextdefsym: 4,
        iundefsym: 5,
        nundefsym: 6,
        tocoff: 7,
        ntoc: 8,
        modtaboff: 9,
        nmodtab: 10,
        extrefsymoff: 11,
        nextrefsyms: 12,
        indirectsymoff: 13,
        nindirectsyms: 14,
        extreloff: 15,
        nextrel: 16,
        locreloff: 17,
        nlocrel: 18,
    };
    assert_eq!(DysymtabCommand::SIZE, 80);

    for (endian, bytes) in [(Endian::Little, words_le(&words)), (Endian::Big, words_be(&words))] {
        let mut read = bytes.as_slice();
        assert_eq!(DysymtabCommand::read_from_in(&mut read, endian), Ok(command));
        assert!(read.is_empty());

        let mut out = Vec::new();
        command.write_into_in(&mut out, endian);
        assert_eq!(out, bytes);

        let mut read = &bytes[..79];
        assert_eq!(
            DysymtabCommand::read_from_in(&mut read, endian),
            Err(Error::TruncatedInput)
        );
        assert_eq!(read.len(), 79);
    }

    let mut wrong = words.clone();
    wrong[1] = 0x4c;
    let bytes = words_le(&wrong);
    let mut read = bytes.as_slice();
    assert_eq!(
        DysymtabCommand::read_from_in(&mut read, Endian::Little),
        Err(Error::SizeMismatch {
            expected: 0x50,
            actual: 0x4c
        })
    );
}

#[test]
fn source_version_command_is_read_and_written() {
    let mut bytes = words_le(&[0x2a, 0x10]);
    bytes.extend_from_slice(&0x0000_0a00_0040_0c05u64.to_le_bytes());
    let command = SourceVersionCommand {
        cmd: 0x2a,
        cmdsize: 0x10,
        version: source_version::Version(0x0000_0a00_0040_0c05),
    };
    assert_eq!(bytes.len(), SourceVersionCommand::SIZE as usize);

    let mut read = bytes.as_slice();
    assert_eq!(SourceVersionCommand::read_from_in(&mut read, Endian::Little), Ok(command));
    assert!(read.is_empty());

    let mut out = Vec::new();
    command.write_into_in(&mut out, Endian::Little);
    assert_eq!(out, bytes);

    let mut out = Vec::new();
    command.write_into_in(&mut out, Endian::Big);
    assert_eq!(
        out,
        vec![0, 0, 0, 0x2a, 0, 0, 0, 0x10, 0, 0, 0x0a, 0, 0, 0x40, 0x0c, 0x05]
    );

    bytes[4] = 0x18;
    let mut read = bytes.as_slice();
    assert_eq!(
        SourceVersionCommand::read_from_in(&mut read, Endian::Little),
        Err(Error::SizeMismatch {
            expected: 0x10,
            actual: 0x18
        })
    );
}

#[test]
fn version_parts_are_masked_and_not_shifted() {
    let version = source_version::Version(0x0000_0a00_0040_0c05);
    assert_eq!(version.a(), 0x0000_0a00_0000_0000);
    assert_eq!(version.b(), 0);
    assert_eq!(version.c(), 0x0040_0000);
    assert_eq!(version.d(), 0x0c00);
    assert_eq!(version.e(), 0x5);

    let version = source_version::Version(u64::MAX);
    assert_eq!(version.a(), 0xffff_ff00_0000_0000);
    assert_eq!(version.b(), 0x0000_00ff_c000_0000);
    assert_eq!(version.c(), 0x0000_0000_3ff0_0000);
    assert_eq!(version.d(), 0x0000_0000_000f_fc00);
    assert_eq!(version.e(), 0x0000_0000_0000_03ff);
    assert_eq!(
        version.a() | version.b() | version.c() | version.d() | version.e(),
        u64::MAX
    );

    let version = source_version::Version((1 << 40) | (2 << 30) | (3 << 20) | (4 << 10) | 5);
    assert_eq!(version.a(), 1 << 40);
    assert_eq!(version.b(), 2 << 30);
    assert_eq!(version.c(), 3 << 20);
    assert_eq!(version.d(), 4 << 10);
    assert_eq!(version.e(), 5);
}

#[test]
fn thread_state_that_is_not_known_comes_back_unchanged() {
    let mut bytes = words_le(&[0x5, 28, 99, 3]);
    let payload = [0xde, 0xad, 0xbe, 0xef, 0x01, 0x02, 0x03, 0x04, 0xff, 0x00, 0xff, 0x00];
    bytes.extend_from_slice(&payload);
    bytes.extend_from_slice(&[0x77, 0x77]);

    let mut read = bytes.as_slice();
    let command = UnixThreadCommand::read_from_in(&mut read, Endian::Little).unwrap();
    assert_eq!(read, &[0x77, 0x77][..]);
    assert_eq!(
        command,
        UnixThreadCommand {
            cmd: 0x5,
            cmdsize: 28,
            flavor: Flavor::Unknown(99),
            count: 3,
            state: ThreadState::Unknown(payload.to_vec()),
        }
    );

    let mut out = Vec::new();
    command.write_into_in(&mut out, Endian::Little);
    assert_eq!(out, &bytes[..28]);
    assert_eq!(&out[16..], &payload);

    let mut out = Vec::new();
    command.write_into_in(&mut out, Endian::Big);
    assert_eq!(&out[..16], words_be(&[0x5, 28, 99, 3]).as_slice());
    assert_eq!(&out[16..], &payload);
}

#[test]
fn thread_state_of_an_x86_64() {
    let mut bytes = words_le(&[0x5, 184, 4, 42]);
    bytes.extend_from_slice(&registers_le());
    assert_eq!(bytes.len(), 184);

    let mut read = bytes.as_slice();
    let command = UnixThreadCommand::read_from_in(&mut read, Endian::Little).unwrap();
    assert!(read.is_empty());
    assert_eq!(
        command,
        UnixThreadCommand {
            cmd: 0x5,
            cmdsize: 184,
            flavor: Flavor::ThreadStateX86_64,
            count: 42,
            state: ThreadState::X86_64(registers()),
        }
    );

    let mut out = Vec::new();
    command.write_into_in(&mut out, Endian::Little);
    assert_eq!(out, bytes);
}

#[test]
fn thread_state_of_an_x86_64_is_read_whatever_the_count() {
    let mut bytes = words_le(&[0x5, 184, 4, 0]);
    bytes.extend_from_slice(&registers_le());
    let mut read = bytes.as_slice();
    let command = UnixThreadCommand::read_from_in(&mut read, Endian::Little).unwrap();
    assert_eq!(command.count, 0);
    assert_eq!(command.state, ThreadState::X86_64(registers()));
    assert!(read.is_empty());
}

#[test]
fn thread_command_checks_neither_kind_nor_size() {
    let bytes = words_le(&[0x1234, 1, 7, 0]);
    let mut read = bytes.as_slice();
    assert_eq!(
        UnixThreadCommand::read_from_in(&mut read, Endian::Little),
        Ok(UnixThreadCommand {
            cmd: 0x1234,
            cmdsize: 1,
            flavor: Flavor::Unknown(7),
            count: 0,
            state: ThreadState::Unknown(vec![]),
        })
    );
    assert!(read.is_empty());
}

#[test]
fn thread_command_cut_short() {
    let mut bytes = words_le(&[0x5, 28, 99, 3]);
    bytes.extend_from_slice(&[0u8; 11]);
    for len in 0..bytes.len() {
        let mut read = &bytes[..len];
        assert_eq!(
            UnixThreadCommand::read_from_in(&mut read, Endian::Little),
            Err(Error::TruncatedInput)
        );
        assert_eq!(read.len(), len);
    }

    let mut bytes = words_le(&[0x5, 184, 4, 42]);
    bytes.extend_from_slice(&registers_le()[..167]);
    let mut read = bytes.as_slice();
    assert_eq!(
        UnixThreadCommand::read_from_in(&mut read, Endian::Little),
        Err(Error::TruncatedInput)
    );
    assert_eq!(read, bytes.as_slice());

    let bytes = words_le(&[0x5, 28, 99, u32::MAX]);
    let mut read = bytes.as_slice();
    assert_eq!(
        UnixThreadCommand::read_from_in(&mut read, Endian::Little),
        Err(Error::TruncatedInput)
    );
}

#[test]
fn flavor_numbers() {
    let bytes = words_le(&[4, 5, 0]);
    let mut read = bytes.as_slice();
    assert_eq!(Flavor::read_from_in(&mut read, Endian::Little), Ok(Flavor::ThreadStateX86_64));
    assert_eq!(Flavor::read_from_in(&mut read, Endian::Little), Ok(Flavor::Unknown(5)));
    assert_eq!(Flavor::read_from_in(&mut read, Endian::Little), Ok(Flavor::Unknown(0)));
    assert_eq!(Flavor::read_from_in(&mut read, Endian::Little), Err(Error::TruncatedInput));

    let mut read = &bytes[..4];
    assert_eq!(
        Flavor::read_from_in(&mut read, Endian::Big),
        Ok(Flavor::Unknown(0x04000000))
    );

    let mut out = Vec::new();
    Flavor::ThreadStateX86_64.write_into_in(&mut out, Endian::Little);
    Flavor::Unknown(5).write_into_in(&mut out, Endian::Big);
    Flavor::Unknown(4).write_into_in(&mut out, Endian::Big);
    assert_eq!(out, vec![4, 0, 0, 0, 0, 0, 0, 5, 0, 0, 0, 4]);

    let mut out = Vec::new();
    Flavor::Unknown(0x0102).write_into(&mut out);
    let mut read = out.as_slice();
    assert_eq!(Flavor::read_from_in(&mut read, Endian::native()), Ok(Flavor::Unknown(0x0102)));
}

#[test]
fn registers_are_read_and_written_in_order() {
    let bytes = registers_le();
    assert_eq!(bytes.len(), StateX86_64::SIZE as usize);
    let mut read = bytes.as_slice();
    assert_eq!(StateX86_64::read_from_in(&mut read, Endian::Little), Ok(registers()));
    assert!(read.is_empty());

    let mut out = Vec::new();
    registers().write_into_in(&mut out, Endian::Little);
    assert_eq!(out, bytes);

    let mut out = Vec::new();
    registers().write_into_in(&mut out, Endian::Big);
    assert_eq!(&out[..8], &[0, 0, 0, 0, 0, 0, 0, 1]);
    assert_eq!(&out[128..136], &[0, 0, 0, 1, 0, 0, 0x3f, 0x80]);
    assert_eq!(&out[160..], &[0, 0, 0, 0, 0, 0, 0, 21]);
    let mut read = out.as_slice();
    assert_eq!(StateX86_64::read_from_in(&mut read, Endian::Big), Ok(registers()));

    let mut read = &bytes[..167];
    assert_eq!(
        StateX86_64::read_from_in(&mut read, Endian::Little),
        Err(Error::TruncatedInput)
    );
    assert_eq!(read.len(), 167);
}

#[test]
fn build_version_with_two_tools() {
    let bytes = words_le(&[0x32, 40, 1, 0x000a0f06, 0x000b0300, 2, 3, 0x0262_0000, 1, 0x0c00]);
    let mut read = bytes.as_slice();
    let command = LoadCommand::read_from_in(&mut read, Endian::Little).unwrap();
    assert!(read.is_empty());
    assert_eq!(
        command,
        LoadCommand::BuildVersion(
            BuildVersionCommand {
                cmd: 0x32,
                cmdsize: 40,
                platform: Platform::MacOS,
                minos: Version {
                    major: 10,
                    minor: 15,
                    release: 6
                },
                sdk: Version {
                    major: 11,
                    minor: 3,
                    release: 0
                },
                ntools: 2,
            },
            vec![
                BuildToolVersion {
                    tool: Tool::LD,
                    version: 0x0262_0000
                },
                BuildToolVersion {
                    tool: Tool::Clang,
                    version: 0x0c00
                },
            ]
        )
    );
    assert_eq!(command.cmd(), 0x32);
    assert_eq!(command.cmd_size(), 40);

    let mut out = Vec::new();
    assert_eq!(command.write_into_in(&mut out, Endian::Little), Ok(()));
    assert_eq!(out, bytes);

    let mut out = Vec::new();
    assert_eq!(command.write_into_in(&mut out, Endian::Big), Ok(()));
    assert_eq!(
        out,
        words_be(&[0x32, 40, 1, 0x000a0f06, 0x000b0300, 2, 3, 0x0262_0000, 1, 0x0c00])
    );
}

#[test]
fn build_version_that_is_wrong() {
    let bytes = words_le(&[0x32, 24, 11, 0, 0, 0]);
    let mut read = bytes.as_slice();
    assert_eq!(
        BuildVersionCommand::read_from_in(&mut read, Endian::Little),
        Err(Error::UnsupportedPlatform)
    );
    assert_eq!(read, bytes.as_slice());

    let bytes = words_le(&[0x32, 24, 0, 0, 0, 0]);
    let mut read = bytes.as_slice();
    assert_eq!(
        LoadCommand::read_from_in(&mut read, Endian::Little),
        Err(Error::UnsupportedPlatform)
    );

    let bytes = words_le(&[0x32, 32, 2, 0, 0, 1, 4, 0]);
    let mut read = bytes.as_slice();
    assert_eq!(
        LoadCommand::read_from_in(&mut read, Endian::Little),
        Err(Error::UnsupportedTool)
    );
    assert_eq!(read, bytes.as_slice());

    let bytes = words_le(&[0x32, 32, 2, 0, 0, 2, 1, 0]);
    let mut read = bytes.as_slice();
    assert_eq!(
        LoadCommand::read_from_in(&mut read, Endian::Little),
        Err(Error::TruncatedInput)
    );
    assert_eq!(read, bytes.as_slice());

    let bytes = words_le(&[0x2a, 24, 2, 0, 0, 0]);
    let mut read = bytes.as_slice();
    assert_eq!(
        BuildVersionCommand::read_from_in(&mut read, Endian::Little),
        Err(Error::UnexpectedCommand {
            expected: 0x32,
            actual: 0x2a
        })
    );

    let bytes = words_le(&[0x32, 24, 2, 0, 0]);
    let mut read = bytes.as_slice();
    assert_eq!(
        BuildVersionCommand::read_from_in(&mut read, Endian::Little),
        Err(Error::TruncatedInput)
    );
}

#[test]
fn build_version_does_not_check_its_size() {
    let bytes = words_le(&[0x32, 9999, 2, 0, 0, 0]);
    let mut read = bytes.as_slice();
    let command = BuildVersionCommand::read_from_in(&mut read, Endian::Little).unwrap();
    assert_eq!(command.cmdsize, 9999);
    assert_eq!(command.platform, Platform::IOS);
    assert_eq!(BuildVersionCommand::SIZE, 24);
}

#[test]
fn platform_and_tool_numbers() {
    let platforms = [
        (Platform::MacOS, 1u32),
        (Platform::IOS, 2),
        (Platform::TvOS, 3),
        (Platform::WatchOS, 4),
        (Platform::BridgeOS, 5),
        (Platform::MacCatalyst, 6),
        (Platform::IOSSimulator, 7),
        (Platform::TvOSSimulator, 8),
        (Platform::WatchOSSimulator, 9),
        (Platform::DriverKit, 10),
    ];
    for (platform, n) in platforms {
        assert_eq!(platform.to_u32(), n);
        assert_eq!(Platform::from_u32(n), Ok(platform));
    }
    assert_eq!(Platform::from_u32(0), Err(Error::UnsupportedPlatform));
    assert_eq!(Platform::from_u32(11), Err(Error::UnsupportedPlatform));

    let tools = [(Tool::Clang, 1u32), (Tool::Swift, 2), (Tool::LD, 3)];
    for (tool, n) in tools {
        assert_eq!(tool.to_u32(), n);
        assert_eq!(Tool::from_u32(n), Ok(tool));
    }
    assert_eq!(Tool::from_u32(0), Err(Error::UnsupportedTool));
    assert_eq!(Tool::from_u32(4), Err(Error::UnsupportedTool));
}

#[test]
fn packed_version_of_three_parts() {
    let version = Version::from_u32(0x000a0f06);
    assert_eq!(
        version,
        Version {
            major: 10,
            minor: 15,
            release: 6
        }
    );
    assert_eq!(version.to_u32(), 0x000a0f06);

    let version = Version {
        major: 0xffff,
        minor: 0,
        release: 0xff,
    };
    assert_eq!(version.to_u32(), 0xffff00ff);
    assert_eq!(Version::from_u32(0xffff00ff), version);
    assert_eq!(Version::from_u32(0x12345678).to_u32(), 0x12345678);
    assert_eq!(
        Version::from_u32(0x12345678),
        Version {
            major: 0x1234,
            minor: 0x56,
            release: 0x78
        }
    );
}

#[test]
fn build_tool_version_is_two_words() {
    let bytes = words_be(&[2, 0x0102, 0xffff]);
    let mut read = bytes.as_slice();
    let tool = BuildToolVersion::read_from_in(&mut read, Endian::Big).unwrap();
    assert_eq!(
        tool,
        BuildToolVersion {
            tool: Tool::Swift,
            version: 0x0102
        }
    );
    assert_eq!(read.len(), 4);
    assert_eq!(BuildToolVersion::SIZE, 8);

    let mut out = Vec::new();
    tool.write_into_in(&mut out, Endian::Big);
    assert_eq!(out, &bytes[..8]);

    let mut out = Vec::new();
    BuildToolVersion::write_all_into_in(&[tool, tool], &mut out, Endian::Little);
    assert_eq!(out, words_le(&[2, 0x0102, 2, 0x0102]));

    let mut read = out.as_slice();
    assert_eq!(
        BuildToolVersion::read_all_from_in(&mut read, 2, Endian::Little),
        Ok(vec![tool, tool])
    );
    assert!(read.is_empty());

    let mut read = out.as_slice();
    assert_eq!(
        BuildToolVersion::read_all_from_in(&mut read, 3, Endian::Little),
        Err(Error::TruncatedInput)
    );
    assert_eq!(read.len(), 16);

    let mut read = out.as_slice();
    assert_eq!(BuildToolVersion::read_all_from_in(&mut read, 0, Endian::Little), Ok(vec![]));
    assert_eq!(read.len(), 16);
}

#[test]
fn segment_with_two_sections_takes_the_header_and_the_sections() {
    let mut bytes = text_segment_le();
    assert_eq!(bytes.len(), SegmentCommand64::SIZE as usize);
    bytes.extend_from_slice(&text_section_le());
    assert_eq!(bytes.len(), 72 + Section64::SIZE as usize);
    bytes.extend_from_slice(&cstring_section_le());
    assert_eq!(bytes.len(), 72 + 2 * 80);
    bytes.extend_from_slice(&uuid_le());

    let mut read = bytes.as_slice();
    let command = LoadCommand::read_from_in(&mut read, Endian::Little).unwrap();
    assert_eq!(read, uuid_le().as_slice());
    assert_eq!(bytes.len() - read.len(), 72 + 2 * 80);

    let mut text = text_section();
    text.flags = SectionFlags(
        attrs(&[SectionAttr::SomeInstructions, SectionAttr::PureInstructions]),
        SectionType::Regular,
    );
    assert_eq!(
        command,
        LoadCommand::Segment64(text_segment(), vec![text, cstring_section()])
    );
    assert_eq!(command.cmd(), 0x19);
    assert_eq!(command.cmd_size(), 232);

    let mut out = Vec::new();
    assert_eq!(command.write_into_in(&mut out, Endian::Little), Ok(()));
    assert_eq!(out, &bytes[..232]);

    assert_eq!(LoadCommand::read_from_in(&mut read, Endian::Little), Ok(LoadCommand::Uuid(uuid())));
    assert!(read.is_empty());
}

#[test]
fn segment_without_sections() {
    let mut bytes = text_segment_le();
    bytes[64] = 0;
    bytes.push(0xab);
    let mut read = bytes.as_slice();
    let command = LoadCommand::read_from_in(&mut read, Endian::Little).unwrap();
    assert_eq!(read, &[0xab][..]);
    let mut segment = text_segment();
    segment.nsects = 0;
    assert_eq!(command, LoadCommand::Segment64(segment, vec![]));

    let mut out = Vec::new();
    assert_eq!(command.write_into_in(&mut out, Endian::Little), Ok(()));
    assert_eq!(out, &bytes[..72]);
}

#[test]
fn segment_in_the_other_order() {
    let command = LoadCommand::Segment64(text_segment(), vec![text_section(), cstring_section()]);
    let mut out = Vec::new();
    assert_eq!(command.write_into_in(&mut out, Endian::Big), Ok(()));
    assert_eq!(out.len(), 232);
    assert_eq!(&out[..8], &[0, 0, 0, 0x19, 0, 0, 0, 232]);
    assert_eq!(&out[8..24], b"__TEXT\0\0\0\0\0\0\0\0\0\0");
    assert_eq!(&out[24..32], &[0, 0, 0, 1, 0, 0, 0, 0]);
    assert_eq!(&out[56..64], &[0, 0, 0, 5, 0, 0, 0, 5]);
    assert_eq!(&out[72 + 64..72 + 68], &[0x80, 0, 0x04, 0]);

    let mut read = out.as_slice();
    assert_eq!(LoadCommand::read_from_in(&mut read, Endian::Big), Ok(command));
    assert!(read.is_empty());
}

#[test]
fn segment_that_is_wrong() {
    let mut good = text_segment_le();
    good.extend_from_slice(&text_section_le());
    good.extend_from_slice(&cstring_section_le());

    for len in 0..good.len() {
        let mut read = &good[..len];
        assert_eq!(
            LoadCommand::read_from_in(&mut read, Endian::Little),
            Err(Error::TruncatedInput)
        );
        assert_eq!(read.len(), len);
    }

    let mut bytes = good.clone();
    bytes[72 + 80 + 64] = 0x0a;
    let mut read = bytes.as_slice();
    assert_eq!(
        LoadCommand::read_from_in(&mut read, Endian::Little),
        Err(Error::UnsupportedSectionType)
    );
    assert_eq!(read, bytes.as_slice());

    let mut bytes = good.clone();
    bytes[72 + 65] = 0x08;
    let mut read = bytes.as_slice();
    assert_eq!(
        LoadCommand::read_from_in(&mut read, Endian::Little),
        Err(Error::UnknownFlagBit)
    );
    assert_eq!(read, bytes.as_slice());

    let mut bytes = good.clone();
    bytes[72 + 65] = 0x08;
    bytes[72 + 64] = 0x0a;
    let mut read = bytes.as_slice();
    assert_eq!(
        LoadCommand::read_from_in(&mut read, Endian::Little),
        Err(Error::UnknownFlagBit)
    );

    let mut read = &good[..];
    assert_eq!(
        SymtabCommand::read_from_in(&mut read, Endian::Little),
        Err(Error::UnexpectedCommand {
            expected: 0x2,
            actual: 0x19
        })
    );

    let symtab_bytes = words_le(&[0x2, 0x18, 0x1000, 7, 0x1070, 0x58]);
    let mut read = symtab_bytes.as_slice();
    assert_eq!(
        SegmentCommand64::read_from_in(&mut read, Endian::Little),
        Err(Error::UnexpectedCommand {
            expected: 0x19,
            actual: 0x2
        })
    );
}

#[test]
fn segment_header_alone() {
    let bytes = text_segment_le();
    let mut read = bytes.as_slice();
    assert_eq!(
        SegmentCommand64::read_from_in(&mut read, Endian::Little),
        Ok(text_segment())
    );
    assert!(read.is_empty());

    let mut out = Vec::new();
    text_segment().write_into_in(&mut out, Endian::Little);
    assert_eq!(out, bytes);

    let mut segment = text_segment();
    segment.maxprot = -1;
    segment.initprot = i32::MIN;
    let mut out = Vec::new();
    segment.write_into_in(&mut out, Endian::Little);
    assert_eq!(&out[56..64], &[0xff, 0xff, 0xff, 0xff, 0, 0, 0, 0x80]);
    let mut read = out.as_slice();
    assert_eq!(SegmentCommand64::read_from_in(&mut read, Endian::Little), Ok(segment));
}

#[test]
fn section_alone() {
    let bytes = cstring_section_le();
    let mut read = bytes.as_slice();
    assert_eq!(Section64::read_from_in(&mut read, Endian::Little), Ok(cstring_section()));
    assert!(read.is_empty());

    let mut out = Vec::new();
    cstring_section().write_into_in(&mut out, Endian::Little);
    assert_eq!(out, bytes);

    let mut out = Vec::new();
    text_section().write_into_in(&mut out, Endian::Little);
    assert_eq!(out, text_section_le());

    let mut out = Vec::new();
    Section64::write_all_into_in(
        &[cstring_section(), text_section()],
        &mut out,
        Endian::Little,
    );
    assert_eq!(&out[..80], cstring_section_le().as_slice());
    assert_eq!(&out[80..], text_section_le().as_slice());

    let mut read = out.as_slice();
    let sections = Section64::read_all_from_in(&mut read, 2, Endian::Little).unwrap();
    assert_eq!(sections.len(), 2);
    assert_eq!(sections[0], cstring_section());
    assert_eq!(sections[1].sectname, text_section().sectname);
    assert!(read.is_empty());
}

#[test]
fn section_attributes_come_lowest_bit_first() {
    let attrs = SectionAttrs::from_u32(0x80000400).unwrap();
    assert_eq!(
        attrs.iter().copied().collect::<Vec<SectionAttr>>(),
        vec![SectionAttr::SomeInstructions, SectionAttr::PureInstructions]
    );
    assert_eq!(attrs.to_u32(), 0x80000400);
    assert!(!attrs.is_empty());

    let all = 0x80000000 | 0x40000000 | 0x20000000 | 0x08000000 | 0x02000000 | 0x700;
    let attrs = SectionAttrs::from_u32(all).unwrap();
    assert_eq!(
        attrs.iter().copied().collect::<Vec<SectionAttr>>(),
        vec![
            SectionAttr::LocReloc,
            SectionAttr::ExtReloc,
            SectionAttr::SomeInstructions,
            SectionAttr::Debug,
            SectionAttr::LiveSupport,
            SectionAttr::StripStaticSyms,
            SectionAttr::NoToc,
            SectionAttr::PureInstructions,
        ]
    );
    assert_eq!(attrs.to_u32(), all);

    assert!(SectionAttrs::from_u32(0).unwrap().is_empty());
    assert_eq!(SectionAttrs::from_u32(0).unwrap(), SectionAttrs::new());
    for mask in [0x1u32, 0x80, 0x800, 0x10000000, 0x04000000, 0x80000401, u32::MAX] {
        assert_eq!(SectionAttrs::from_u32(mask), Err(Error::UnknownFlagBit));
    }
}

#[test]
fn section_attribute_and_type_numbers() {
    let attrs = [
        (SectionAttr::PureInstructions, 0x80000000u32),
        (SectionAttr::NoToc, 0x40000000),
        (SectionAttr::StripStaticSyms, 0x20000000),
        (SectionAttr::LiveSupport, 0x08000000),
        (SectionAttr::Debug, 0x02000000),
        (SectionAttr::SomeInstructions, 0x00000400),
        (SectionAttr::ExtReloc, 0x00000200),
        (SectionAttr::LocReloc, 0x00000100),
    ];
    for (attr, n) in attrs {
        assert_eq!(attr.to_u32(), n);
        assert_eq!(SectionAttr::from_u32(n), Ok(attr));
    }
    assert_eq!(SectionAttr::from_u32(0), Err(Error::UnknownFlagBit));
    assert_eq!(SectionAttr::from_u32(0x10000000), Err(Error::UnknownFlagBit));
    assert_eq!(SectionAttr::from_u32(0x300), Err(Error::UnknownFlagBit));

    let types = [
        (SectionType::Regular, 0x0u32),
        (SectionType::Zerofill, 0x1),
        (SectionType::CstringLiterals, 0x2),
        (SectionType::FourByteLiterals, 0x3),
        (SectionType::EightByteLiterals, 0x4),
        (SectionType::LiteralPointers, 0x5),
        (SectionType::Coalesced, 0xb),
    ];
    for (section_type, n) in types {
        assert_eq!(section_type.to_u32(), n);
        assert_eq!(SectionType::from_u32(n), Ok(section_type));
    }
    for n in [0x6u32, 0xa, 0xc, 0xff, 0x100] {
        assert_eq!(SectionType::from_u32(n), Err(Error::UnsupportedSectionType));
    }
    assert_eq!(SectionFlags::ATTRIBUTES_MASK | SectionFlags::TYPE_MASK, u32::MAX);
    assert_eq!(SectionFlags::ATTRIBUTES_MASK & SectionFlags::TYPE_MASK, 0);
}

#[test]
fn section_flags_word_is_taken_apart_and_put_together() {
    let flags = SectionFlags::from_u32(0x80000400).unwrap();
    assert_eq!(
        flags,
        SectionFlags(
            attrs(&[SectionAttr::SomeInstructions, SectionAttr::PureInstructions]),
            SectionType::Regular
        )
    );
    assert_eq!(flags.to_u32(), 0x80000400);

    let flags = SectionFlags::from_u32(0x0200010b).unwrap();
    assert_eq!(
        flags,
        SectionFlags(
            attrs(&[SectionAttr::LocReloc, SectionAttr::Debug]),
            SectionType::Coalesced
        )
    );
    assert_eq!(flags.to_u32(), 0x0200010b);

    assert_eq!(
        SectionFlags::from_u32(0).unwrap(),
        SectionFlags(attrs(&[]), SectionType::Regular)
    );
    assert_eq!(
        SectionFlags(attrs(&[SectionAttr::NoToc]), SectionType::Zerofill).to_u32(),
        0x40000001
    );

    assert_eq!(SectionFlags::from_u32(0x0000080b), Err(Error::UnknownFlagBit));
    assert_eq!(SectionFlags::from_u32(0x00000806), Err(Error::UnknownFlagBit));
    assert_eq!(SectionFlags::from_u32(0x00000406), Err(Error::UnsupportedSectionType));
    assert_eq!(SectionFlags::from_u32(0x000000ff), Err(Error::UnsupportedSectionType));
}

#[test]
fn section_flags_are_attributes_and_type_together() {
    let mut section = cstring_section();
    section.flags = SectionFlags(
        attrs(&[SectionAttr::Debug, SectionAttr::LocReloc, SectionAttr::Debug]),
        SectionType::Coalesced,
    );
    let mut out = Vec::new();
    section.write_into_in(&mut out, Endian::Big);
    assert_eq!(&out[64..68], &[0x02, 0x00, 0x01, 0x0b]);

    let mut read = out.as_slice();
    let back = Section64::read_from_in(&mut read, Endian::Big).unwrap();
    assert_eq!(
        back.flags,
        SectionFlags(
            attrs(&[SectionAttr::LocReloc, SectionAttr::Debug]),
            SectionType::Coalesced
        )
    );
}

#[test]
fn name_len_stops_at_the_first_zero() {
    assert_eq!(name_len(b"__TEXT\0\0\0\0\0\0\0\0\0\0"), 6);
    assert_eq!(name_len(b"\0\0\0\0\0\0\0\0\0\0\0\0\0\0\0\0"), 0);
    assert_eq!(name_len(b"__objc_methname\0"), 15);
    assert_eq!(name_len(b"sixteen_letters_"), 16);
    assert_eq!(name_len(b"ab\0cd\0\0\0\0\0\0\0\0\0\0\0"), 2);
}

#[test]
fn a_command_of_a_kind_that_is_not_known_is_kept_as_bytes() {
    let mut bytes = words_le(&[0x26, 16, 0x11223344, 0x55667788]);
    bytes.extend_from_slice(&[0xee; 3]);
    let mut read = bytes.as_slice();
    let command = LoadCommand::read_from_in(&mut read, Endian::Little).unwrap();
    assert_eq!(read, &[0xee; 3][..]);
    assert_eq!(
        command,
        LoadCommand::Unsupported(0x26, vec![0x44, 0x33, 0x22, 0x11, 0x88, 0x77, 0x66, 0x55])
    );
    assert_eq!(command.cmd(), 0x26);
    assert_eq!(command.cmd_size(), 16);

    let mut out = vec![1u8, 2];
    assert_eq!(
        command.write_into_in(&mut out, Endian::Little),
        Err(Error::UnwritableUnknownCommand)
    );
    assert_eq!(out, vec![1, 2]);
    assert_eq!(command.write_into(&mut out), Err(Error::UnwritableUnknownCommand));
    assert_eq!(out, vec![1, 2]);
}

#[test]
fn a_command_that_is_not_known_may_hold_nothing() {
    let bytes = words_be(&[0x8000_0022, 8, 0x19]);
    let mut read = bytes.as_slice();
    let command = LoadCommand::read_from_in(&mut read, Endian::Big).unwrap();
    assert_eq!(command, LoadCommand::Unsupported(0x8000_0022, vec![]));
    assert_eq!(read.len(), 4);
    assert_eq!(command.cmd_size(), 8);
}

#[test]
fn a_command_that_is_not_known_and_is_wrong() {
    for size in 0..8u32 {
        let bytes = words_le(&[0x26, size, 0, 0]);
        let mut read = bytes.as_slice();
        assert_eq!(
            LoadCommand::read_from_in(&mut read, Endian::Little),
            Err(Error::SizeMismatch {
                expected: 8,
                actual: size
            })
        );
        assert_eq!(read, bytes.as_slice());
    }

    let bytes = words_le(&[0x26, 17, 0, 0]);
    let mut read = bytes.as_slice();
    assert_eq!(
        LoadCommand::read_from_in(&mut read, Endian::Little),
        Err(Error::TruncatedInput)
    );
    assert_eq!(read, bytes.as_slice());

    let bytes = words_le(&[0x26, u32::MAX]);
    let mut read = bytes.as_slice();
    assert_eq!(
        LoadCommand::read_from_in(&mut read, Endian::Little),
        Err(Error::TruncatedInput)
    );

    let bytes = words_le(&[0x26]);
    let mut read = bytes.as_slice();
    assert_eq!(
        LoadCommand::read_from_in(&mut read, Endian::Little),
        Err(Error::TruncatedInput)
    );

    let mut read = &bytes[..3];
    assert_eq!(
        LoadCommand::read_from_in(&mut read, Endian::Little),
        Err(Error::TruncatedInput)
    );
    assert_eq!(read.len(), 3);
}

#[test]
fn each_kind_is_read_by_its_own_reader() {
    let mut bytes = Vec::new();
    bytes.extend_from_slice(&words_le(&[0x2, 0x18, 0x1000, 7, 0x1070, 0x58]));
    bytes.extend_from_slice(&words_le(&[0x5, 184, 4, 42]));
    bytes.extend_from_slice(&registers_le());
    let dysymtab: Vec<u32> = vec![0xb, 0x50, 0, 0, 0, 0, 0, 0, 0, 0, 0, 0, 0, 0, 0, 0, 0, 0, 0, 9];
    bytes.extend_from_slice(&words_le(&dysymtab));
    bytes.extend_from_slice(&uuid_le());
    bytes.extend_from_slice(&words_le(&[0x2a, 0x10, 7, 0]));
    bytes.extend_from_slice(&words_le(&[0x80000028, 8]));

    let mut read = bytes.as_slice();
    let mut commands = Vec::new();
    while !read.is_empty() {
        commands.push(LoadCommand::read_from_in(&mut read, Endian::Little).unwrap());
    }
    assert_eq!(commands.len(), 6);
    assert_eq!(commands[0], LoadCommand::Symtab(symtab()));
    assert!(matches!(commands[1], LoadCommand::UnixThread(_)));
    assert!(matches!(commands[2], LoadCommand::Dysymtab(command) if command.nlocrel == 9));
    assert_eq!(commands[3], LoadCommand::Uuid(uuid()));
    assert_eq!(
        commands[4],
        LoadCommand::SourceVersion(SourceVersionCommand {
            cmd: 0x2a,
            cmdsize: 0x10,
            version: source_version::Version(7),
        })
    );
    assert_eq!(commands[5], LoadCommand::Unsupported(0x80000028, vec![]));

    let kinds: Vec<u32> = commands.iter().map(|command| command.cmd()).collect();
    assert_eq!(kinds, vec![0x2, 0x5, 0xb, 0x1b, 0x2a, 0x80000028]);
    let sizes: Vec<u32> = commands.iter().map(|command| command.cmd_size()).collect();
    assert_eq!(sizes, vec![0x18, 184, 0x50, 0x18, 0x10, 8]);

    let mut out = Vec::new();
    for command in &commands[..5] {
        assert_eq!(command.write_into_in(&mut out, Endian::Little), Ok(()));
    }
    assert_eq!(out, &bytes[..bytes.len() - 8]);
}

#[test]
fn commands_are_written_in_the_order_of_this_machine() {
    let command = LoadCommand::Symtab(symtab());
    let mut native = Vec::new();
    assert_eq!(command.write_into(&mut native), Ok(()));
    let mut explicit = Vec::new();
    assert_eq!(command.write_into_in(&mut explicit, Endian::native()), Ok(()));
    assert_eq!(native, explicit);

    let mut native = Vec::new();
    uuid().write_into(&mut native);
    text_segment().write_into(&mut native);
    text_section().write_into(&mut native);
    registers().write_into(&mut native);
    let mut explicit = Vec::new();
    uuid().write_into_in(&mut explicit, Endian::native());
    text_segment().write_into_in(&mut explicit, Endian::native());
    text_section().write_into_in(&mut explicit, Endian::native());
    registers().write_into_in(&mut explicit, Endian::native());
    assert_eq!(native, explicit);
}

#[test]
fn sections_are_counted_through_the_segments() {
    let commands = vec![
        LoadCommand::Segment64(text_segment(), vec![text_section(), cstring_section()]),
        LoadCommand::Symtab(symtab()),
        LoadCommand::Segment64(text_segment(), vec![]),
        LoadCommand::Segment64(text_segment(), vec![cstring_section()]),
        LoadCommand::Uuid(uuid()),
    ];
    assert_eq!(count_prev_sects(&commands, 0), 0);
    assert_eq!(count_prev_sects(&commands, 1), 2);
    assert_eq!(count_prev_sects(&commands, 2), 2);
    assert_eq!(count_prev_sects(&commands, 3), 2);
    assert_eq!(count_prev_sects(&commands, 4), 3);
    assert_eq!(count_prev_sects(&commands, 5), 3);
    assert_eq!(count_prev_sects(&[], 0), 0);
}
