use atom_macho::error::Error;
use atom_macho::header::{Flag, Flags};

fn listed(flags: &Flags) -> Vec<Flag> {
    flags.iter().copied().collect()
}

#[test]
fn flag_bits() {
    let table = [
        (Flag::NoUndefs, 0x000001u32),
        (Flag::IncrLink, 0x000002),
        (Flag::DyldLink, 0x000004),
        (Flag::BindAtLoad, 0x000008),
        (Flag::PreBound, 0x000010),
        (Flag::SplitSegs, 0x000020),
        (Flag::TwoLevel, 0x000080),
        (Flag::ForceFlat, 0x000100),
        (Flag::NoMultiDefs, 0x000200),
        (Flag::NoFixPreBinding, 0x000400),
        (Flag::PreBindable, 0x000800),
        (Flag::AllModsBound, 0x001000),
        (Flag::SubsectionsViaSymbols, 0x002000),
        (Flag::Canonical, 0x004000),
        (Flag::Pie, 0x200000),
        (Flag::HasTlvDescriptors, 0x800000),
    ];
    for (flag, n) in table {
        assert_eq!(flag.to_u32(), n);
        assert_eq!(Flag::from_u32(n), Ok(flag));
    }
}

#[test]
fn flag_of_no_bit_or_of_several() {
    for n in [0u32, 0x40, 0x8000, 0x100000, 0x400000, 0x1000000, 0x80000000, 3, 0x200001] {
        assert_eq!(Flag::from_u32(n), Err(Error::UnknownFlagBit));
    }
}

#[test]
fn no_bits_no_flags() {
    let flags = Flags::from_u32(0).unwrap();
    assert!(flags.is_empty());
    assert_eq!(flags, Flags::new());
    assert_eq!(flags.to_u32(), 0);
    assert_eq!(flags.iter().next(), None);
    assert_eq!(Flags::new().to_u32(), 0);
}

#[test]
fn flags_come_lowest_bit_first() {
    let flags = Flags::from_u32(0x200085).unwrap();
    assert!(!flags.is_empty());
    assert_eq!(
        listed(&flags),
        vec![Flag::NoUndefs, Flag::DyldLink, Flag::TwoLevel, Flag::Pie]
    );

    let flags = Flags::from_u32(0x800000 | 0x2000 | 0x1).unwrap();
    assert_eq!(
        listed(&flags),
        vec![Flag::NoUndefs, Flag::SubsectionsViaSymbols, Flag::HasTlvDescriptors]
    );
}

#[test]
fn every_named_bit_at_once() {
    let all = 0x00a07fbf;
    let flags = Flags::from_u32(all).unwrap();
    assert_eq!(listed(&flags).len(), 16);
    assert_eq!(flags.to_u32(), all);
    let bits: Vec<u32> = flags.iter().map(|flag| flag.to_u32()).collect();
    let mut sorted = bits.clone();
    sorted.sort();
    assert_eq!(bits, sorted);
}

#[test]
fn a_bit_without_a_name_fails_the_whole() {
    for mask in [0x40u32, 0x41, 0x8000, 0x200085 | 0x400000, 0x80000000, u32::MAX, 0x00a07fbf | 0x40] {
        assert_eq!(Flags::from_u32(mask), Err(Error::UnknownFlagBit));
    }
}

#[test]
fn mask_read_then_written_is_the_mask() {
    for mask in [0u32, 0x1, 0x85, 0x200085, 0x00a07fbf, 0x804000, 0x3f] {
        assert_eq!(Flags::from_u32(mask).unwrap().to_u32(), mask);
    }
}

#[test]
fn flags_written_then_read_are_the_flags() {
    let mut flags = Flags::new();
    flags.push(Flag::IncrLink);
    flags.push(Flag::ForceFlat);
    flags.push(Flag::Pie);
    assert_eq!(flags.to_u32(), 0x200102);
    assert_eq!(Flags::from_u32(flags.to_u32()), Ok(flags));
}

#[test]
fn the_order_of_the_flags_does_not_change_the_mask() {
    let mut up = Flags::new();
    up.push(Flag::NoUndefs);
    up.push(Flag::TwoLevel);
    up.push(Flag::Pie);

    let mut down = Flags::new();
    down.push(Flag::Pie);
    down.push(Flag::TwoLevel);
    down.push(Flag::NoUndefs);
    down.push(Flag::TwoLevel);

    assert_eq!(up.to_u32(), 0x200081);
    assert_eq!(down.to_u32(), 0x200081);
    assert_ne!(up, down);
    assert_eq!(listed(&down), vec![Flag::Pie, Flag::TwoLevel, Flag::NoUndefs, Flag::TwoLevel]);
    assert_eq!(Flags::from_u32(down.to_u32()), Ok(up));
}

#[test]
fn push_adds_at_the_end() {
    let mut flags = Flags::new();
    assert!(flags.is_empty());
    flags.push(Flag::Canonical);
    assert!(!flags.is_empty());
    assert_eq!(listed(&flags), vec![Flag::Canonical]);
    flags.push(Flag::NoUndefs);
    assert_eq!(listed(&flags), vec![Flag::Canonical, Flag::NoUndefs]);
    let mut it = flags.iter();
    assert_eq!(it.next(), Some(&Flag::Canonical));
    assert_eq!(it.next(), Some(&Flag::NoUndefs));
    assert_eq!(it.next(), None);
}
