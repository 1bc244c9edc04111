use crate::bits::{
    bit_at, bits_below, lemma_below_bit_none_from, lemma_bit_added_on_top, lemma_bit_at_is_one_bit,
    lemma_bits_below_step, lemma_bits_below_zero, lemma_no_bits, lemma_none_from_bit_at,
    lemma_or_none_from, lemma_or_zero, none_from,
};
use crate::error::Error;
use vstd::prelude::*;

verus! {

/// One named bit of the flags word of a header.
#[derive(Debug, Clone, Copy, PartialEq, Eq, Structural)]
pub enum Flag {
    NoUndefs,
    IncrLink,
    DyldLink,
    BindAtLoad,
    PreBound,
    SplitSegs,
    TwoLevel,
    ForceFlat,
    NoMultiDefs,
    NoFixPreBinding,
    PreBindable,
    AllModsBound,
    SubsectionsViaSymbols,
    Canonical,
    Pie,
    HasTlvDescriptors,
}

impl Flag {
    /// The bit of this flag.
    pub open spec fn spec_to_u32(self) -> u32 {
        match self {
            Flag::NoUndefs => 0x000001,
            Flag::IncrLink => 0x000002,
            Flag::DyldLink => 0x000004,
            Flag::BindAtLoad => 0x000008,
            Flag::PreBound => 0x000010,
            Flag::SplitSegs => 0x000020,
            Flag::TwoLevel => 0x000080,
            Flag::ForceFlat => 0x000100,
            Flag::NoMultiDefs => 0x000200,
            Flag::NoFixPreBinding => 0x000400,
            Flag::PreBindable => 0x000800,
            Flag::AllModsBound => 0x001000,
            Flag::SubsectionsViaSymbols => 0x002000,
            Flag::Canonical => 0x004000,
            Flag::Pie => 0x200000,
            Flag::HasTlvDescriptors => 0x800000,
        }
    }

    /// The position of the bit of this flag.
    pub open spec fn spec_position(self) -> u32 {
        match self {
            Flag::NoUndefs => 0,
            Flag::IncrLink => 1,
            Flag::DyldLink => 2,
            Flag::BindAtLoad => 3,
            Flag::PreBound => 4,
            Flag::SplitSegs => 5,
            Flag::TwoLevel => 7,
            Flag::ForceFlat => 8,
            Flag::NoMultiDefs => 9,
            Flag::NoFixPreBinding => 10,
            Flag::PreBindable => 11,
            Flag::AllModsBound => 12,
            Flag::SubsectionsViaSymbols => 13,
            Flag::Canonical => 14,
            Flag::Pie => 21,
            Flag::HasTlvDescriptors => 23,
        }
    }

    /// The flag whose bit is `n`, if there is one.
    pub open spec fn spec_from_u32(n: u32) -> Option<Flag> {
        if n == 0x000001 {
            Some(Flag::NoUndefs)
        } else if n == 0x000002 {
            Some(Flag::IncrLink)
        } else if n == 0x000004 {
            Some(Flag::DyldLink)
        } else if n == 0x000008 {
            Some(Flag::BindAtLoad)
        } else if n == 0x000010 {
            Some(Flag::PreBound)
        } else if n == 0x000020 {
            Some(Flag::SplitSegs)
        } else if n == 0x000080 {
            Some(Flag::TwoLevel)
        } else if n == 0x000100 {
            Some(Flag::ForceFlat)
        } else if n == 0x000200 {
            Some(Flag::NoMultiDefs)
        } else if n == 0x000400 {
            Some(Flag::NoFixPreBinding)
        } else if n == 0x000800 {
            Some(Flag::PreBindable)
        } else if n == 0x001000 {
            Some(Flag::AllModsBound)
        } else if n == 0x002000 {
            Some(Flag::SubsectionsViaSymbols)
        } else if n == 0x004000 {
            Some(Flag::Canonical)
        } else if n == 0x200000 {
            Some(Flag::Pie)
        } else if n == 0x800000 {
            Some(Flag::HasTlvDescriptors)
        } else {
            None
        }
    }

    pub fn from_u32(n: u32) -> (res: Result<Flag, Error>)
        ensures
            res is Ok <==> Flag::spec_from_u32(n) is Some,
            res matches Ok(flag) ==> Flag::spec_from_u32(n) == Some(flag),
            res matches Err(err) ==> err == Error::UnknownFlagBit,
    {
        match n {
            0x000001 => Ok(Flag::NoUndefs),
            0x000002 => Ok(Flag::IncrLink),
            0x000004 => Ok(Flag::DyldLink),
            0x000008 => Ok(Flag::BindAtLoad),
            0x000010 => Ok(Flag::PreBound),
            0x000020 => Ok(Flag::SplitSegs),
            0x000080 => Ok(Flag::TwoLevel),
            0x000100 => Ok(Flag::ForceFlat),
            0x000200 => Ok(Flag::NoMultiDefs),
            0x000400 => Ok(Flag::NoFixPreBinding),
            0x000800 => Ok(Flag::PreBindable),
            0x001000 => Ok(Flag::AllModsBound),
            0x002000 => Ok(Flag::SubsectionsViaSymbols),
            0x004000 => Ok(Flag::Canonical),
            0x200000 => Ok(Flag::Pie),
            0x800000 => Ok(Flag::HasTlvDescriptors),
            _ => Err(Error::UnknownFlagBit),
        }
    }

    #[verifier::when_used_as_spec(spec_to_u32)]
    pub fn to_u32(self) -> (n: u32)
        ensures
            n == self.spec_to_u32(),
    {
        match self {
            Flag::NoUndefs => 0x000001,
            Flag::IncrLink => 0x000002,
            Flag::DyldLink => 0x000004,
            Flag::BindAtLoad => 0x000008,
            Flag::PreBound => 0x000010,
            Flag::SplitSegs => 0x000020,
            Flag::TwoLevel => 0x000080,
            Flag::ForceFlat => 0x000100,
            Flag::NoMultiDefs => 0x000200,
            Flag::NoFixPreBinding => 0x000400,
            Flag::PreBindable => 0x000800,
            Flag::AllModsBound => 0x001000,
            Flag::SubsectionsViaSymbols => 0x002000,
            Flag::Canonical => 0x004000,
            Flag::Pie => 0x200000,
            Flag::HasTlvDescriptors => 0x800000,
        }
    }
}

/// The flags of a header, in the order in which they were put in.
#[derive(Debug, Clone, PartialEq, Eq)]
pub struct Flags {
    flags: Vec<Flag>,
}

impl View for Flags {
    type V = Seq<Flag>;

    closed spec fn view(&self) -> Seq<Flag> {
        self.flags@
    }
}

impl Flags {
    /// Whether every bit that is set in `mask` is the bit of a flag.
    pub open spec fn spec_all_named(mask: u32) -> bool {
        forall|i: u32|
            i < 32 && bit_at(mask, i) != 0 ==> Flag::spec_from_u32(#[trigger] bit_at(mask, i))
                is Some
    }

    /// The flags whose bits are set in `mask` at the positions below `n`,
    /// lowest bit first.
    pub open spec fn spec_below(mask: u32, n: u32) -> Seq<Flag>
        decreases n,
    {
        if n == 0 {
            Seq::empty()
        } else {
            let lower = Flags::spec_below(mask, (n - 1) as u32);
            match Flag::spec_from_u32(bit_at(mask, (n - 1) as u32)) {
                Some(flag) => lower.push(flag),
                None => lower,
            }
        }
    }

    /// The flags whose bits are set in `mask`, lowest bit first.
    pub open spec fn spec_from_u32(mask: u32) -> Seq<Flag> {
        Flags::spec_below(mask, 32)
    }

    /// Whether `flags` come lowest bit first and none of them twice.
    pub open spec fn spec_ascending(flags: Seq<Flag>) -> bool {
        forall|i: int, j: int|
            0 <= i < j < flags.len() ==> flags[i].spec_to_u32() < flags[j].spec_to_u32()
    }

    /// The bits of all of `flags` together.
    pub open spec fn spec_mask(flags: Seq<Flag>) -> u32
        decreases flags.len(),
    {
        if flags.len() == 0 {
            0
        } else {
            Flags::spec_mask(flags.drop_last()) | flags.last().spec_to_u32()
        }
    }

    pub fn new() -> (flags: Flags)
        ensures
            flags@ == Seq::<Flag>::empty(),
    {
        Flags { flags: Vec::new() }
    }

    pub fn push(&mut self, flag: Flag)
        ensures
            final(self)@ == old(self)@.push(flag),
    {
        self.flags.push(flag);
    }

    pub fn is_empty(&self) -> (empty: bool)
        ensures
            empty == (self@.len() == 0),
    {
        self.flags.is_empty()
    }

    /// The flags one after the other, in the order in which they were put in.
    pub fn iter(&self) -> (it: std::slice::Iter<'_, Flag>)
        ensures
            vstd::std_specs::slice::into_iter_elts(it) == self@,
    {
        self.flags.iter()
    }

    /// Names the bits of `mask`, from the lowest to the highest. A bit
    /// without a name fails the whole.
    pub fn from_u32(flags_n: u32) -> (res: Result<Flags, Error>)
        ensures
            res is Ok <==> Flags::spec_all_named(flags_n),
            res matches Ok(flags) ==> flags@ == Flags::spec_from_u32(flags_n),
            res matches Err(err) ==> err == Error::UnknownFlagBit,
    {
        let mut flags = Flags::new();
        for i in 0..32u32
            invariant
                flags@ == Flags::spec_below(flags_n, i),
                forall|j: u32|
                    j < i && bit_at(flags_n, j) != 0 ==> Flag::spec_from_u32(
                        #[trigger] bit_at(flags_n, j),
                    ) is Some,
        {
            let flag_n = flags_n & (1u32 << i);
            if flag_n != 0 {
                match Flag::from_u32(flag_n) {
                    Ok(flag) => flags.push(flag),
                    Err(err) => {
                        assert(Flag::spec_from_u32(bit_at(flags_n, i)) is None);
                        return Err(err);
                    },
                }
            }
        }
        Ok(flags)
    }

    /// The bits of all the flags together.
    pub fn to_u32(&self) -> (flags_n: u32)
        ensures
            flags_n == Flags::spec_mask(self@),
    {
        let mut flag_n = 0u32;
        for i in 0..self.flags.len()
            invariant
                flag_n == Flags::spec_mask(self@.take(i as int)),
        {
            assert(self@.take(i + 1).drop_last() == self@.take(i as int));
            flag_n |= self.flags[i].to_u32();
        }
        assert(self@.take(self@.len() as int) == self@);
        flag_n
    }
}

/// A flag that was found for a bit has that bit.
pub proof fn lemma_flag_from_to(n: u32)
    ensures
        Flag::spec_from_u32(n) matches Some(flag) ==> flag.spec_to_u32() == n,
{
}

/// The bit of a flag names that flag and no other.
pub proof fn lemma_flag_to_from(flag: Flag)
    ensures
        Flag::spec_from_u32(flag.spec_to_u32()) == Some(flag),
{
}

/// The flags found below position `n` in a mask whose bits all have names
/// have, together, the bits of the mask below `n`.
pub proof fn lemma_flags_below_mask(mask: u32, n: u32)
    requires
        n <= 32,
        Flags::spec_all_named(mask),
    ensures
        Flags::spec_mask(Flags::spec_below(mask, n)) == bits_below(mask, n),
    decreases n,
{
    if n == 0 {
        lemma_bits_below_zero(mask);
    } else {
        let i = (n - 1) as u32;
        let lower = Flags::spec_below(mask, i);
        lemma_flags_below_mask(mask, i);
        lemma_bits_below_step(mask, i);
        match Flag::spec_from_u32(bit_at(mask, i)) {
            Some(flag) => {
                assert(lower.push(flag).drop_last() == lower);
            },
            None => {
                lemma_or_zero(bits_below(mask, i));
            },
        }
    }
}

/// Decoding a mask whose bits all have names, then encoding the flags, gives
/// the mask again.
pub proof fn lemma_flags_decode_then_encode(mask: u32)
    requires
        Flags::spec_all_named(mask),
    ensures
        Flags::spec_mask(Flags::spec_from_u32(mask)) == mask,
{
    lemma_flags_below_mask(mask, 32);
}

/// The bit of a flag is the one bit at the position of the flag.
pub proof fn lemma_flag_is_one_bit(flag: Flag)
    ensures
        flag.spec_position() < 32,
        flag.spec_to_u32() == 1u32 << flag.spec_position(),
{
    assert(1u32 << 0u32 == 0x000001 && 1u32 << 1u32 == 0x000002 && 1u32 << 2u32 == 0x000004 && 1u32
        << 3u32 == 0x000008 && 1u32 << 4u32 == 0x000010 && 1u32 << 5u32 == 0x000020 && 1u32 << 7u32
        == 0x000080 && 1u32 << 8u32 == 0x000100 && 1u32 << 9u32 == 0x000200 && 1u32 << 10u32
        == 0x000400 && 1u32 << 11u32 == 0x000800 && 1u32 << 12u32 == 0x001000 && 1u32 << 13u32
        == 0x002000 && 1u32 << 14u32 == 0x004000 && 1u32 << 21u32 == 0x200000 && 1u32 << 23u32
        == 0x800000) by (bit_vector);
}

/// Flags that all lie below position `k` have, together, no bit at `k` or
/// above.
pub proof fn lemma_flags_mask_none_from(flags: Seq<Flag>, k: u32)
    requires
        k < 32,
        forall|i: int| 0 <= i < flags.len() ==> flags[i].spec_to_u32() < (1u32 << k),
    ensures
        none_from(Flags::spec_mask(flags), k),
    decreases flags.len(),
{
    if flags.len() == 0 {
        lemma_no_bits(k, 0);
    } else {
        lemma_flags_mask_none_from(flags.drop_last(), k);
        lemma_below_bit_none_from(flags.last().spec_to_u32(), k);
        lemma_or_none_from(Flags::spec_mask(flags.drop_last()), flags.last().spec_to_u32(), k);
    }
}

/// Two masks with the same bits below position `n` hold the same flags
/// below `n`.
pub proof fn lemma_flags_below_same_bits(mask: u32, other: u32, n: u32)
    requires
        n <= 32,
        forall|i: u32| i < n ==> bit_at(mask, i) == bit_at(other, i),
    ensures
        Flags::spec_below(mask, n) == Flags::spec_below(other, n),
    decreases n,
{
    if n > 0 {
        lemma_flags_below_same_bits(mask, other, (n - 1) as u32);
    }
}

/// A mask without a bit from position `k` up to `n` holds below `n` the
/// flags that it holds below `k`.
pub proof fn lemma_flags_below_no_more_bits(mask: u32, k: u32, n: u32)
    requires
        k <= n <= 32,
        forall|i: u32| k <= i < n ==> bit_at(mask, i) == 0,
    ensures
        Flags::spec_below(mask, n) == Flags::spec_below(mask, k),
    decreases n,
{
    if n > k {
        lemma_flags_below_no_more_bits(mask, k, (n - 1) as u32);
    }
}

/// Encoding flags that come lowest bit first, none of them twice, then
/// decoding the mask, gives the flags again. Flags in another order, or with
/// one of them twice, do not come back as they were: they come back lowest
/// bit first and once.
pub proof fn lemma_flags_encode_then_decode(flags: Seq<Flag>)
    requires
        Flags::spec_ascending(flags),
    ensures
        Flags::spec_all_named(Flags::spec_mask(flags)),
        Flags::spec_from_u32(Flags::spec_mask(flags)) == flags,
    decreases flags.len(),
{
    let mask = Flags::spec_mask(flags);
    if flags.len() == 0 {
        assert forall|i: u32| i < 32 implies #[trigger] bit_at(mask, i) == 0 by {
            lemma_no_bits(0, i);
        }
        lemma_flags_below_no_more_bits(mask, 0, 32);
    } else {
        let lower = flags.drop_last();
        let last = flags.last();
        let lower_mask = Flags::spec_mask(lower);
        let k = last.spec_position();
        lemma_flag_is_one_bit(last);
        lemma_flag_to_from(last);
        lemma_flags_encode_then_decode(lower);
        assert forall|i: int| 0 <= i < lower.len() implies lower[i].spec_to_u32() < (1u32
            << k) by {
        }
        lemma_flags_mask_none_from(lower, k);
        assert forall|i: u32| i < 32 implies (i < k ==> #[trigger] bit_at(mask, i) == bit_at(
            lower_mask,
            i,
        )) && (i == k ==> bit_at(mask, i) == last.spec_to_u32()) && (i > k ==> bit_at(mask, i)
            == 0) by {
            lemma_bit_added_on_top(lower_mask, k, i);
        }
        assert forall|i: u32| k <= i < 32 implies #[trigger] bit_at(lower_mask, i) == 0 by {
            lemma_none_from_bit_at(lower_mask, k, i);
        }
        lemma_flags_below_same_bits(mask, lower_mask, k);
        lemma_flags_below_no_more_bits(lower_mask, k, 32);
        lemma_flags_below_no_more_bits(mask, (k + 1) as u32, 32);
    }
}

/// The flags found below position `n` come lowest bit first, none of them
/// twice, and each of them has its bit below `n`.
pub proof fn lemma_flags_below_ascending(mask: u32, n: u32)
    requires
        n <= 32,
    ensures
        Flags::spec_ascending(Flags::spec_below(mask, n)),
        forall|i: int|
            0 <= i < Flags::spec_below(mask, n).len() ==> (#[trigger] Flags::spec_below(
                mask,
                n,
            )[i]).spec_position() < n,
    decreases n,
{
    if n > 0 {
        let k = (n - 1) as u32;
        let lower = Flags::spec_below(mask, k);
        lemma_flags_below_ascending(mask, k);
        match Flag::spec_from_u32(bit_at(mask, k)) {
            Some(flag) => {
                lemma_flag_is_one_bit(flag);
                lemma_bit_at_is_one_bit(mask, k, k);
                if flag.spec_position() < k {
                    lemma_bit_at_is_one_bit(mask, k, flag.spec_position());
                } else {
                    lemma_bit_at_is_one_bit(mask, flag.spec_position(), k);
                }
                let all = lower.push(flag);
                assert forall|i: int, j: int| 0 <= i < j < all.len() implies all[i].spec_to_u32()
                    < all[j].spec_to_u32() by {
                    if j == lower.len() {
                        lemma_flag_is_one_bit(lower[i]);
                        lemma_bit_at_is_one_bit(mask, k, lower[i].spec_position());
                    }
                }
            },
            None => {},
        }
    }
}

/// Decoding gives the flags lowest bit first, none of them twice.
pub proof fn lemma_flags_decoded_ascending(mask: u32)
    ensures
        Flags::spec_ascending(Flags::spec_from_u32(mask)),
{
    lemma_flags_below_ascending(mask, 32);
}

/// A bit is set in the mask of flags exactly if one of them has its bit
/// there.
pub proof fn lemma_flags_mask_bit(flags: Seq<Flag>, i: u32)
    requires
        i < 32,
    ensures
        bit_at(Flags::spec_mask(flags), i) != 0 <==> exists|j: int|
            0 <= j < flags.len() && (#[trigger] flags[j]).spec_position() == i,
    decreases flags.len(),
{
    if flags.len() == 0 {
        lemma_no_bits(0, i);
    } else {
        let lower = flags.drop_last();
        let last = flags.last();
        lemma_flags_mask_bit(lower, i);
        lemma_flag_is_one_bit(last);
        crate::bits::lemma_bit_at_or(Flags::spec_mask(lower), last.spec_to_u32(), i);
        crate::bits::lemma_bit_at_one_bit(last.spec_position(), i);
        if bit_at(Flags::spec_mask(flags), i) != 0 {
            if bit_at(Flags::spec_mask(lower), i) != 0 {
                let j = choose|j: int|
                    0 <= j < lower.len() && (#[trigger] lower[j]).spec_position() == i;
            } else {
            }
        }
        if exists|j: int| 0 <= j < flags.len() && (#[trigger] flags[j]).spec_position() == i {
            let j = choose|j: int| 0 <= j < flags.len() && (#[trigger] flags[j]).spec_position()
                == i;
            if j < lower.len() {
                assert(lower[j] == flags[j]);
            }
        }
    }
}

/// The mask of flags depends on which flags there are, not on their order
/// nor on how often one of them is there: flags that are the same as a set
/// have the same mask.
pub proof fn lemma_flags_mask_same_set(flags: Seq<Flag>, others: Seq<Flag>)
    requires
        forall|flag: Flag| flags.contains(flag) <==> others.contains(flag),
    ensures
        Flags::spec_mask(flags) == Flags::spec_mask(others),
{
    let mask = Flags::spec_mask(flags);
    let other = Flags::spec_mask(others);
    assert forall|i: u32| i < 32 implies bit_at(mask, i) == bit_at(other, i) by {
        lemma_flags_mask_bit(flags, i);
        lemma_flags_mask_bit(others, i);
        lemma_bit_at_is_one_bit(mask, i, i);
        lemma_bit_at_is_one_bit(other, i, i);
        if bit_at(mask, i) != 0 {
            let j = choose|j: int| 0 <= j < flags.len() && (#[trigger] flags[j]).spec_position()
                == i;
            assert(flags.contains(flags[j]));
            let k = choose|k: int| 0 <= k < others.len() && others[k] == flags[j];
        }
        if bit_at(other, i) != 0 {
            let j = choose|j: int| 0 <= j < others.len() && (#[trigger] others[j]).spec_position()
                == i;
            assert(others.contains(others[j]));
            let k = choose|k: int| 0 <= k < flags.len() && flags[k] == others[j];
        }
    }
    crate::bits::lemma_same_bits_same_mask(mask, other);
}

} // verus!
