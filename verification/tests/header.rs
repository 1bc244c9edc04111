use atom_macho::error::Error;
use atom_macho::header::{
    CpuSubTypeX86, CpuSubTypeX86_64, CpuType, FatArch, FatHeader, FileType, Flag, Flags, Header,
    Header64, Magic,
};
use atom_macho::io::Endian;

fn object_header() -> Header64 {
    Header64 {
        magic: Magic::Magic64,
        cpu_type: CpuType::X86_64(CpuSubTypeX86_64::All),
        file_type: FileType::Object,
        n_cmds: 2,
        size_of_cmds: 42,
        flags: Flags::new(),
        reserved: 0,
    }
}

fn object_header_le() -> Vec<u8> {
    vec![
        0xcf, 0xfa, 0xed, 0xfe, // magic
        0x07, 0x00, 0x00, 0x01, // cpu type
        0x03, 0x00, 0x00, 0x00, // cpu subtype
        0x01, 0x00, 0x00, 0x00, // file type
        0x02, 0x00, 0x00, 0x00, // n_cmds
        0x2a, 0x00, 0x00, 0x00, // size_of_cmds
        0x00, 0x00, 0x00, 0x00, // flags
        0x00, 0x00, 0x00, 0x00, // reserved
    ]
}

fn object_header_be() -> Vec<u8> {
    vec![
        0xfe, 0xed, 0xfa, 0xcf, // magic
        0x01, 0x00, 0x00, 0x07, // cpu type
        0x00, 0x00, 0x00, 0x03, // cpu subtype
        0x00, 0x00, 0x00, 0x01, // file type
        0x00, 0x00, 0x00, 0x02, // n_cmds
        0x00, 0x00, 0x00, 0x2a, // size_of_cmds
        0x00, 0x00, 0x00, 0x00, // flags
        0x00, 0x00, 0x00, 0x00, // reserved
    ]
}

fn executable_header_le() -> Vec<u8> {
    vec![
        0xcf, 0xfa, 0xed, 0xfe, // magic
        0x07, 0x00, 0x00, 0x01, // cpu type
        0x03, 0x00, 0x00, 0x00, // cpu subtype
        0x02, 0x00, 0x00, 0x00, // file type
        0x10, 0x00, 0x00, 0x00, // n_cmds
        0x58, 0x05, 0x00, 0x00, // size_of_cmds
        0x85, 0x00, 0x20, 0x00, // flags
        0x00, 0x00, 0x00, 0x00, // reserved
    ]
}

fn two_archs() -> Vec<FatArch> {
    vec![
        FatArch {
            cpu_type: CpuType::X86(CpuSubTypeX86::All),
            offset: 0x1000,
            size: 0x2345,
            align: 12,
        },
        FatArch {
            cpu_type: CpuType::X86_64(CpuSubTypeX86_64::All),
            offset: 0x4000,
            size: 0x6789,
            align: 12,
        },
    ]
}

fn two_archs_bytes() -> Vec<u8> {
    vec![
        0x00, 0x00, 0x00, 0x02, // number of entries
        0x00, 0x00, 0x00, 0x07, 0x00, 0x00, 0x00, 0x03, // x86
        0x00, 0x00, 0x10, 0x00, 0x00, 0x00, 0x23, 0x45, 0x00, 0x00, 0x00, 0x0c, //
        0x01, 0x00, 0x00, 0x07, 0x00, 0x00, 0x00, 0x03, // x86_64
        0x00, 0x00, 0x40, 0x00, 0x00, 0x00, 0x67, 0x89, 0x00, 0x00, 0x00, 0x0c,
    ]
}

#[test]
fn write_and_read_header64() {
    let header = Header64 {
        magic: Magic::Magic64,
        cpu_type: CpuType::X86_64(CpuSubTypeX86_64::All),
        file_type: FileType::Object,
        n_cmds: 2,
        size_of_cmds: 42,
        flags: Flags::new(),
        reserved: 0,
    };

    let mut buf = Vec::new();

    header.write_into(&mut buf);

    assert_eq!(buf.len(), Header64::SIZE as usize);

    let read = Header64::read_from(&mut buf.as_slice()).unwrap();
    assert_eq!(read, header);
}

#[test]
fn header64_bytes_in_each_order() {
    let header = object_header();

    let mut buf = Vec::new();
    header.write_into_in(&mut buf, Endian::Little);
    assert_eq!(buf, object_header_le());

    let mut buf = Vec::new();
    header.write_into_in(&mut buf, Endian::Big);
    assert_eq!(buf, object_header_be());

    let mut buf = Vec::new();
    header.write_into(&mut buf);
    let native = match Endian::native() {
        Endian::Little => object_header_le(),
        Endian::Big => object_header_be(),
    };
    assert_eq!(buf, native);
}

#[test]
fn header64_is_appended_to_what_is_there() {
    let mut buf = vec![1u8, 2, 3];
    object_header().write_into_in(&mut buf, Endian::Little);
    assert_eq!(buf.len(), 35);
    assert_eq!(&buf[..3], &[1, 2, 3]);
    assert_eq!(&buf[3..], object_header_le().as_slice());
}

#[test]
fn header64_read_on_each_host() {
    let le = object_header_le();
    let mut read = le.as_slice();
    assert_eq!(Header64::read_from_on(&mut read, Endian::Little), Ok(object_header()));
    assert!(read.is_empty());

    let be = object_header_be();
    let mut read = be.as_slice();
    assert_eq!(Header64::read_from_on(&mut read, Endian::Big), Ok(object_header()));
    assert!(read.is_empty());
}

#[test]
fn header64_of_the_other_order_is_read_swapped() {
    let mut swapped = object_header();
    swapped.magic = Magic::Cigam64;

    let be = object_header_be();
    let mut read = be.as_slice();
    assert_eq!(Header64::read_from_on(&mut read, Endian::Little), Ok(swapped.clone()));
    assert!(read.is_empty());

    let le = object_header_le();
    let mut read = le.as_slice();
    assert_eq!(Header64::read_from_on(&mut read, Endian::Big), Ok(swapped.clone()));

    assert_eq!(swapped.endian_on(Endian::Little), Endian::Big);
    assert_eq!(swapped.endian_on(Endian::Big), Endian::Little);
    assert_eq!(swapped.endian(), Endian::native().reverse());
    assert_eq!(object_header().endian_on(Endian::Little), Endian::Little);
    assert_eq!(object_header().endian(), Endian::native());
}

#[test]
fn header64_read_then_written_is_the_same_bytes() {
    let bytes = executable_header_le();
    let mut read = bytes.as_slice();
    let header = Header64::read_from_on(&mut read, Endian::Little).unwrap();
    assert_eq!(header.magic, Magic::Magic64);
    assert_eq!(header.cpu_type, CpuType::X86_64(CpuSubTypeX86_64::All));
    assert_eq!(header.file_type, FileType::Execute);
    assert_eq!(header.n_cmds, 16);
    assert_eq!(header.size_of_cmds, 0x558);
    assert_eq!(
        header.flags.iter().copied().collect::<Vec<Flag>>(),
        vec![Flag::NoUndefs, Flag::DyldLink, Flag::TwoLevel, Flag::Pie]
    );
    assert_eq!(header.reserved, 0);

    let mut out = Vec::new();
    header.write_into_in(&mut out, Endian::Little);
    assert_eq!(out, bytes);
}

#[test]
fn header64_leaves_what_follows() {
    let mut bytes = object_header_le();
    bytes.extend_from_slice(&[0x19, 0, 0, 0]);
    let mut read = bytes.as_slice();
    assert!(Header64::read_from_on(&mut read, Endian::Little).is_ok());
    assert_eq!(read, &[0x19, 0, 0, 0][..]);
}

#[test]
fn header64_refuses_what_it_does_not_know() {
    let good = object_header_le();

    for len in 0..32 {
        let mut read = &good[..len];
        assert_eq!(
            Header64::read_from_on(&mut read, Endian::Little),
            Err(Error::TruncatedInput)
        );
        assert_eq!(read, &good[..len]);
    }

    let mut bytes = good.clone();
    bytes[0] = 0xce;
    let mut read = bytes.as_slice();
    assert_eq!(
        Header64::read_from_on(&mut read, Endian::Little),
        Err(Error::UnsupportedMagic)
    );
    assert_eq!(read, bytes.as_slice());

    let mut bytes = good.clone();
    bytes[..4].copy_from_slice(&[0xbe, 0xba, 0xfe, 0xca]);
    let mut read = bytes.as_slice();
    assert_eq!(
        Header64::read_from_on(&mut read, Endian::Little),
        Err(Error::UnsupportedMagic)
    );

    let mut bytes = good.clone();
    bytes[..4].copy_from_slice(&[0, 0, 0, 0]);
    let mut read = bytes.as_slice();
    assert_eq!(
        Header64::read_from_on(&mut read, Endian::Little),
        Err(Error::UnknownMagic)
    );
    assert_eq!(read, bytes.as_slice());

    let mut bytes = good.clone();
    bytes[4] = 0x0c;
    let mut read = bytes.as_slice();
    assert_eq!(
        Header64::read_from_on(&mut read, Endian::Little),
        Err(Error::UnsupportedCpuIdentity)
    );
    assert_eq!(read, bytes.as_slice());

    let mut bytes = good.clone();
    bytes[8] = 0x04;
    let mut read = bytes.as_slice();
    assert_eq!(
        Header64::read_from_on(&mut read, Endian::Little),
        Err(Error::UnsupportedCpuIdentity)
    );

    let mut bytes = good.clone();
    bytes[12] = 0x09;
    let mut read = bytes.as_slice();
    assert_eq!(
        Header64::read_from_on(&mut read, Endian::Little),
        Err(Error::UnsupportedFileKind)
    );
    assert_eq!(read, bytes.as_slice());

    let mut bytes = good.clone();
    bytes[24] = 0x40;
    let mut read = bytes.as_slice();
    assert_eq!(
        Header64::read_from_on(&mut read, Endian::Little),
        Err(Error::UnknownFlagBit)
    );
    assert_eq!(read, bytes.as_slice());
}

#[test]
fn header64_reports_the_first_thing_that_is_wrong() {
    let mut bytes = object_header_le();
    bytes[4] = 0x0c;
    bytes[12] = 0x09;
    bytes[24] = 0x40;
    let mut read = &bytes[..];
    assert_eq!(
        Header64::read_from_on(&mut read, Endian::Little),
        Err(Error::UnsupportedCpuIdentity)
    );

    let mut read = &bytes[..11];
    assert_eq!(
        Header64::read_from_on(&mut read, Endian::Little),
        Err(Error::TruncatedInput)
    );

    let mut read = &bytes[..12];
    assert_eq!(
        Header64::read_from_on(&mut read, Endian::Little),
        Err(Error::UnsupportedCpuIdentity)
    );

    bytes[4] = 0x07;
    let mut read = &bytes[..16];
    assert_eq!(
        Header64::read_from_on(&mut read, Endian::Little),
        Err(Error::UnsupportedFileKind)
    );

    bytes[12] = 0x01;
    let mut read = &bytes[..28];
    assert_eq!(
        Header64::read_from_on(&mut read, Endian::Little),
        Err(Error::UnknownFlagBit)
    );
}

#[test]
fn read_after_magic_reads_the_seven_words() {
    let bytes = object_header_le();
    let mut read = &bytes[4..];
    assert_eq!(
        Header64::read_after_magic(&mut read, Magic::Magic64, Endian::Little),
        Ok(object_header())
    );
    assert!(read.is_empty());

    let bytes = object_header_be();
    let mut read = &bytes[4..];
    let header = Header64::read_after_magic(&mut read, Magic::Cigam64, Endian::Little).unwrap();
    assert_eq!(header.magic, Magic::Cigam64);
    assert_eq!(header.n_cmds, 2);
    assert_eq!(header.size_of_cmds, 42);
}

#[test]
fn magic_numbers() {
    let table = [
        (Magic::Magic64, 0xfeedfacfu32),
        (Magic::Cigam64, 0xcffaedfe),
        (Magic::Magic, 0xfeedface),
        (Magic::Cigam, 0xcefaedfe),
        (Magic::FatMagic, 0xcafebabe),
        (Magic::FatCigam, 0xbebafeca),
    ];
    for (magic, n) in table {
        assert_eq!(magic.to_u32(), n);
        assert_eq!(Magic::from_u32_checked(n), Some(magic));
        assert_eq!(Magic::from_u32(n), Ok(magic));
        assert_eq!(Magic::from_u32(n.swap_bytes()).map(|m| m.to_u32()), Ok(n.swap_bytes()));
    }
    assert_eq!(Magic::from_u32_checked(0), None);
    assert_eq!(Magic::from_u32_checked(0xfeedfad0), None);
    assert_eq!(Magic::from_u32(0xfeedfacd), Err(Error::UnknownMagic));
    assert_eq!(Magic::from_u32(0xffffffff), Err(Error::UnknownMagic));
}

#[test]
fn magic_tells_the_byte_order() {
    for host in [Endian::Little, Endian::Big] {
        assert_eq!(Magic::Magic64.endian_on(host), host);
        assert_eq!(Magic::Magic.endian_on(host), host);
        assert_eq!(Magic::FatMagic.endian_on(host), host);
        assert_eq!(Magic::Cigam64.endian_on(host), host.reverse());
        assert_eq!(Magic::Cigam.endian_on(host), host.reverse());
        assert_eq!(Magic::FatCigam.endian_on(host), host.reverse());
    }
    assert_eq!(Magic::Magic64.endian(), Endian::native());
    assert_eq!(Magic::FatCigam.endian(), Endian::native().reverse());
}

#[test]
fn cpu_type_numbers() {
    assert_eq!(CpuType::from_i32_i32(7, 3), Ok(CpuType::X86(CpuSubTypeX86::All)));
    assert_eq!(
        CpuType::from_i32_i32(0x01000007, 3),
        Ok(CpuType::X86_64(CpuSubTypeX86_64::All))
    );
    assert_eq!(CpuType::X86(CpuSubTypeX86::All).to_i32_i32(), (7, 3));
    assert_eq!(CpuType::X86_64(CpuSubTypeX86_64::All).to_i32_i32(), (0x01000007, 3));
    assert_eq!(CpuType::CPU_TYPE_X86_64, CpuType::CPU_TYPE_X86 | CpuType::CPU_ARCH_ABI64);

    for (cpu_type_n, cpu_subtype_n) in [(7, 3), (0x01000007, 3)] {
        let cpu = CpuType::from_i32_i32(cpu_type_n, cpu_subtype_n).unwrap();
        assert_eq!(cpu.to_i32_i32(), (cpu_type_n, cpu_subtype_n));
    }

    assert_eq!(CpuSubTypeX86::from_i32(3), Some(CpuSubTypeX86::All));
    assert_eq!(CpuSubTypeX86::from_i32(4), None);
    assert_eq!(CpuSubTypeX86::All.to_i32(), 3);
    assert_eq!(CpuSubTypeX86_64::from_i32(3), Some(CpuSubTypeX86_64::All));
    assert_eq!(CpuSubTypeX86_64::from_i32(8), None);
    assert_eq!(CpuSubTypeX86_64::All.to_i32(), 3);
}

#[test]
fn cpu_type_outside_the_table() {
    for (cpu_type_n, cpu_subtype_n) in [
        (7, 4),
        (7, 0),
        (0x01000007, 8),
        (0x01000007, -2147483645),
        (12, 0),
        (0x0100000c, 0),
        (0, 3),
        (-1, -1),
    ] {
        assert_eq!(
            CpuType::from_i32_i32(cpu_type_n, cpu_subtype_n),
            Err(Error::UnsupportedCpuIdentity)
        );
    }
}

#[test]
fn file_type_numbers() {
    let table = [
        (FileType::Object, 0x1u32),
        (FileType::Execute, 0x2),
        (FileType::FVMLib, 0x3),
        (FileType::Core, 0x4),
        (FileType::Preload, 0x5),
        (FileType::Dylib, 0x6),
        (FileType::Dylinker, 0x7),
        (FileType::Bundle, 0x8),
        (FileType::Dsym, 0xa),
    ];
    for (file_type, n) in table {
        assert_eq!(file_type.to_u32(), n);
        assert_eq!(FileType::from_u32(n), Ok(file_type));
    }
    for n in [0u32, 0x9, 0xb, 0x100, u32::MAX] {
        assert_eq!(FileType::from_u32(n), Err(Error::UnsupportedFileKind));
    }
}

#[test]
fn fat_header_bytes_do_not_depend_on_the_host() {
    let header = FatHeader {
        magic: Magic::FatMagic,
        fat_archs: two_archs(),
    };
    let mut expected = vec![0xca, 0xfe, 0xba, 0xbe];
    expected.extend_from_slice(&two_archs_bytes());

    let mut plain = Vec::new();
    header.write_into(&mut plain);
    assert_eq!(plain, expected);
    assert_eq!(plain.len(), 48);

    let header = Header::Fat(header);
    let mut on_little = Vec::new();
    header.write_into_in(&mut on_little, Endian::Little);
    let mut on_big = Vec::new();
    header.write_into_in(&mut on_big, Endian::Big);
    let mut on_this = Vec::new();
    header.write_into(&mut on_this);
    assert_eq!(on_little, expected);
    assert_eq!(on_big, expected);
    assert_eq!(on_this, expected);
}

#[test]
fn fat_header_entries_are_read_alike_on_each_host() {
    let mut bytes = vec![0xca, 0xfe, 0xba, 0xbe];
    bytes.extend_from_slice(&two_archs_bytes());
    bytes.push(0x55);

    let mut read = bytes.as_slice();
    let on_big = FatHeader::read_from_on(&mut read, Endian::Big).unwrap();
    assert_eq!(read, &[0x55][..]);
    assert_eq!(on_big.magic, Magic::FatMagic);
    assert_eq!(on_big.fat_archs, two_archs());

    let mut read = bytes.as_slice();
    let on_little = FatHeader::read_from_on(&mut read, Endian::Little).unwrap();
    assert_eq!(read, &[0x55][..]);
    assert_eq!(on_little.magic, Magic::FatCigam);
    assert_eq!(on_little.fat_archs, two_archs());

    let mut read = bytes.as_slice();
    let on_this = FatHeader::read_from(&mut read).unwrap();
    assert_eq!(on_this.fat_archs, two_archs());

    let mut out = Vec::new();
    on_big.write_into(&mut out);
    assert_eq!(out, &bytes[..48]);

    let mut out = Vec::new();
    on_little.write_into(&mut out);
    assert_eq!(&out[..4], &[0xbe, 0xba, 0xfe, 0xca]);
    assert_eq!(&out[4..], &bytes[4..48]);
}

#[test]
fn fat_header_after_magic() {
    let bytes = two_archs_bytes();
    let mut read = bytes.as_slice();
    assert_eq!(
        FatHeader::read_after_magic(&mut read, Magic::FatCigam),
        Ok(FatHeader {
            magic: Magic::FatCigam,
            fat_archs: two_archs(),
        })
    );
    assert!(read.is_empty());

    let none = [0u8, 0, 0, 0, 9];
    let mut read = &none[..];
    assert_eq!(
        FatHeader::read_after_magic(&mut read, Magic::FatMagic),
        Ok(FatHeader {
            magic: Magic::FatMagic,
            fat_archs: vec![],
        })
    );
    assert_eq!(read, &[9][..]);
}

#[test]
fn fat_header_refuses_what_it_does_not_know() {
    let mut good = vec![0xca, 0xfe, 0xba, 0xbe];
    good.extend_from_slice(&two_archs_bytes());

    for len in 0..48 {
        let mut read = &good[..len];
        assert_eq!(
            FatHeader::read_from_on(&mut read, Endian::Big),
            Err(Error::TruncatedInput)
        );
        assert_eq!(read, &good[..len]);
    }

    let mut bytes = good.clone();
    bytes[31] = 0x0c;
    let mut read = bytes.as_slice();
    assert_eq!(
        FatHeader::read_from_on(&mut read, Endian::Big),
        Err(Error::UnsupportedCpuIdentity)
    );
    assert_eq!(read, bytes.as_slice());

    let mut read = &bytes[..36];
    assert_eq!(
        FatHeader::read_from_on(&mut read, Endian::Big),
        Err(Error::UnsupportedCpuIdentity)
    );

    let mut bytes = good.clone();
    bytes[..4].copy_from_slice(&[0xfe, 0xed, 0xfa, 0xcf]);
    let mut read = bytes.as_slice();
    assert_eq!(
        FatHeader::read_from_on(&mut read, Endian::Big),
        Err(Error::UnsupportedMagic)
    );

    let mut bytes = good.clone();
    bytes[0] = 0;
    let mut read = bytes.as_slice();
    assert_eq!(FatHeader::read_from_on(&mut read, Endian::Big), Err(Error::UnknownMagic));

    let mut bytes = good.clone();
    bytes[4..8].copy_from_slice(&[0xff, 0xff, 0xff, 0xff]);
    let mut read = bytes.as_slice();
    assert_eq!(
        FatHeader::read_from_on(&mut read, Endian::Big),
        Err(Error::TruncatedInput)
    );
    assert_eq!(read, bytes.as_slice());
}

#[test]
fn fat_arch_is_five_words() {
    let arch = two_archs()[1];
    let mut out = vec![7u8];
    arch.write_into(&mut out);
    assert_eq!(out.len(), 1 + FatArch::SIZE as usize);
    assert_eq!(&out[1..], &two_archs_bytes()[24..]);

    let mut read = &out[1..];
    assert_eq!(FatArch::read_from(&mut read), Ok(arch));
    assert!(read.is_empty());

    let mut read = &out[1..20];
    assert_eq!(FatArch::read_from(&mut read), Err(Error::TruncatedInput));
    assert_eq!(read.len(), 19);
}

#[test]
fn header_is_read_as_its_magic_tells() {
    let bytes = object_header_le();
    let mut read = bytes.as_slice();
    let header = Header::read_from_on(&mut read, Endian::Little).unwrap();
    assert_eq!(header, Header::Mach(object_header()));
    assert_eq!(header.magic(), Magic::Magic64);
    assert!(read.is_empty());

    let mut bytes = vec![0xca, 0xfe, 0xba, 0xbe];
    bytes.extend_from_slice(&two_archs_bytes());
    let mut read = bytes.as_slice();
    let header = Header::read_from_on(&mut read, Endian::Little).unwrap();
    assert_eq!(
        header,
        Header::Fat(FatHeader {
            magic: Magic::FatCigam,
            fat_archs: two_archs(),
        })
    );
    assert_eq!(header.magic(), Magic::FatCigam);
    assert!(read.is_empty());

    let mut read = bytes.as_slice();
    let header = Header::read_from(&mut read).unwrap();
    assert!(matches!(header, Header::Fat(_)));
    assert!(read.is_empty());
}

#[test]
fn header_refuses_what_it_does_not_know() {
    let thin32 = [0xceu8, 0xfa, 0xed, 0xfe, 0, 0, 0, 0];
    let mut read = &thin32[..];
    assert_eq!(Header::read_from_on(&mut read, Endian::Little), Err(Error::UnsupportedMagic));
    assert_eq!(read, &thin32[..]);
    let mut read = &thin32[..];
    assert_eq!(Header::read_from_on(&mut read, Endian::Big), Err(Error::UnsupportedMagic));

    let unknown = [1u8, 2, 3, 4, 5];
    let mut read = &unknown[..];
    assert_eq!(Header::read_from_on(&mut read, Endian::Little), Err(Error::UnknownMagic));
    assert_eq!(read, &unknown[..]);
    let mut read = &unknown[..];
    assert_eq!(Header::read_from(&mut read), Err(Error::UnknownMagic));

    let mut read = &unknown[..3];
    assert_eq!(Header::read_from_on(&mut read, Endian::Little), Err(Error::TruncatedInput));

    let mut bytes = object_header_le();
    bytes[12] = 0;
    let mut read = bytes.as_slice();
    assert_eq!(
        Header::read_from_on(&mut read, Endian::Little),
        Err(Error::UnsupportedFileKind)
    );
    assert_eq!(read, bytes.as_slice());
}

#[test]
fn header_is_written_as_its_kind_is() {
    let mut out = Vec::new();
    Header::Mach(object_header()).write_into_in(&mut out, Endian::Big);
    assert_eq!(out, object_header_be());

    let mut out = Vec::new();
    Header::Mach(object_header()).write_into(&mut out);
    let mut read = out.as_slice();
    assert_eq!(Header::read_from(&mut read), Ok(Header::Mach(object_header())));
}
