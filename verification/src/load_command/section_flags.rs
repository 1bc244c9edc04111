use crate::bits::{
    bit_at, bits_below, lemma_below_bit_none_from, lemma_bit_added_on_top, lemma_bit_at_is_one_bit,
    lemma_bits_below_step, lemma_bits_below_zero, lemma_no_bits, lemma_none_from_bit_at,
    lemma_or_none_from, lemma_or_zero, none_from,
};
use crate::error::Error;
use vstd::prelude::*;

verus! {

/// What a section holds.
#[derive(Debug, Clone, Copy, PartialEq, Eq, Structural)]
pub enum SectionType {
    Regular,
    Zerofill,
    CstringLiterals,
    FourByteLiterals,
    EightByteLiterals,
    LiteralPointers,
    Coalesced,
}

/// One named bit of the attributes of a section.
#[derive(Debug, Clone, Copy, PartialEq, Eq, Structural)]
pub enum SectionAttr {
    PureInstructions,
    NoToc,
    StripStaticSyms,
    LiveSupport,
    Debug,
    SomeInstructions,
    ExtReloc,
    LocReloc,
}

/// The attributes of a section, in the order in which they were put in.
#[derive(Debug, Clone, PartialEq, Eq)]
pub struct SectionAttrs {
    attrs: Vec<SectionAttr>,
}

/// The flags word of a section: the attributes, from its upper three bytes,
/// and the type, from its lowest byte.
#[derive(Debug, Clone, PartialEq, Eq)]
pub struct SectionFlags(pub SectionAttrs, pub SectionType);

impl SectionFlags {
    /// The part of a flags word that holds the attributes.
    pub const ATTRIBUTES_MASK: u32 = 0xffff_ff00;

    /// The part of a flags word that holds the type.
    pub const TYPE_MASK: u32 = 0x0000_00ff;

    /// The flags word: the bits of the attributes and the number of the
    /// type.
    pub open spec fn spec_to_u32(&self) -> u32 {
        SectionAttrs::spec_mask(self.0@) | self.1.spec_to_u32()
    }

    /// Why `n` is no flags word; `None` if it is one.
    pub open spec fn parse_error(n: u32) -> Option<Error> {
        if !SectionAttrs::spec_all_named(n & SectionFlags::ATTRIBUTES_MASK) {
            Some(Error::UnknownFlagBit)
        } else if SectionType::spec_from_u32(n & SectionFlags::TYPE_MASK) is None {
            Some(Error::UnsupportedSectionType)
        } else {
            None
        }
    }

    /// Whether these are the attributes and the type that the flags word `n`
    /// holds.
    pub open spec fn parsed_from(&self, n: u32) -> bool {
        &&& self.0@ == SectionAttrs::spec_from_u32(n & SectionFlags::ATTRIBUTES_MASK)
        &&& Some(self.1) == SectionType::spec_from_u32(n & SectionFlags::TYPE_MASK)
    }

    /// Whether the attributes come lowest bit first, none of them twice: as
    /// they are read.
    pub open spec fn spec_wf(&self) -> bool {
        SectionAttrs::spec_ascending(self.0@)
    }

    /// Takes a flags word apart: the attributes from its upper three bytes,
    /// the type from its lowest.
    pub fn from_u32(n: u32) -> (res: Result<SectionFlags, Error>)
        ensures
            res is Ok <==> SectionFlags::parse_error(n) is None,
            res matches Ok(flags) ==> flags.parsed_from(n),
            res matches Err(err) ==> SectionFlags::parse_error(n) == Some(err),
    {
        let attrs = SectionAttrs::from_u32(n & Self::ATTRIBUTES_MASK)?;
        let section_type = SectionType::from_u32(n & Self::TYPE_MASK)?;
        Ok(SectionFlags(attrs, section_type))
    }

    /// Puts the flags word together.
    pub fn to_u32(&self) -> (n: u32)
        ensures
            n == self.spec_to_u32(),
    {
        self.0.to_u32() | self.1.to_u32()
    }
}

impl SectionType {
    /// The number of the type.
    pub open spec fn spec_to_u32(self) -> u32 {
        match self {
            SectionType::Regular => 0x0,
            SectionType::Zerofill => 0x1,
            SectionType::CstringLiterals => 0x2,
            SectionType::FourByteLiterals => 0x3,
            SectionType::EightByteLiterals => 0x4,
            SectionType::LiteralPointers => 0x5,
            SectionType::Coalesced => 0xb,
        }
    }

    /// The type with number `n`, if there is one.
    pub open spec fn spec_from_u32(n: u32) -> Option<SectionType> {
        if n == 0x0 {
            Some(SectionType::Regular)
        } else if n == 0x1 {
            Some(SectionType::Zerofill)
        } else if n == 0x2 {
            Some(SectionType::CstringLiterals)
        } else if n == 0x3 {
            Some(SectionType::FourByteLiterals)
        } else if n == 0x4 {
            Some(SectionType::EightByteLiterals)
        } else if n == 0x5 {
            Some(SectionType::LiteralPointers)
        } else if n == 0xb {
            Some(SectionType::Coalesced)
        } else {
            None
        }
    }

    pub fn from_u32(n: u32) -> (res: Result<SectionType, Error>)
        ensures
            res is Ok <==> SectionType::spec_from_u32(n) is Some,
            res matches Ok(section_type) ==> SectionType::spec_from_u32(n) == Some(section_type),
            res matches Err(err) ==> err == Error::UnsupportedSectionType,
    {
        match n {
            0x0 => Ok(SectionType::Regular),
            0x1 => Ok(SectionType::Zerofill),
            0x2 => Ok(SectionType::CstringLiterals),
            0x3 => Ok(SectionType::FourByteLiterals),
            0x4 => Ok(SectionType::EightByteLiterals),
            0x5 => Ok(SectionType::LiteralPointers),
            0xb => Ok(SectionType::Coalesced),
            _ => Err(Error::UnsupportedSectionType),
        }
    }

    #[verifier::when_used_as_spec(spec_to_u32)]
    pub fn to_u32(self) -> (n: u32)
        ensures
            n == self.spec_to_u32(),
    {
        match self {
            SectionType::Regular => 0x0,
            SectionType::Zerofill => 0x1,
            SectionType::CstringLiterals => 0x2,
            SectionType::FourByteLiterals => 0x3,
            SectionType::EightByteLiterals => 0x4,
            SectionType::LiteralPointers => 0x5,
            SectionType::Coalesced => 0xb,
        }
    }
}

impl SectionAttr {
    /// The bit of this attribute.
    pub open spec fn spec_to_u32(self) -> u32 {
        match self {
            SectionAttr::PureInstructions => 0x80000000,
            SectionAttr::NoToc => 0x40000000,
            SectionAttr::StripStaticSyms => 0x20000000,
            SectionAttr::LiveSupport => 0x08000000,
            SectionAttr::Debug => 0x02000000,
            SectionAttr::SomeInstructions => 0x00000400,
            SectionAttr::ExtReloc => 0x00000200,
            SectionAttr::LocReloc => 0x00000100,
        }
    }

    /// The position of the bit of this attribute.
    pub open spec fn spec_position(self) -> u32 {
        match self {
            SectionAttr::PureInstructions => 31,
            SectionAttr::NoToc => 30,
            SectionAttr::StripStaticSyms => 29,
            SectionAttr::LiveSupport => 27,
            SectionAttr::Debug => 25,
            SectionAttr::SomeInstructions => 10,
            SectionAttr::ExtReloc => 9,
            SectionAttr::LocReloc => 8,
        }
    }

    /// The attribute whose bit is `n`, if there is one.
    pub open spec fn spec_from_u32(n: u32) -> Option<SectionAttr> {
        if n == 0x80000000 {
            Some(SectionAttr::PureInstructions)
        } else if n == 0x40000000 {
            Some(SectionAttr::NoToc)
        } else if n == 0x20000000 {
            Some(SectionAttr::StripStaticSyms)
        } else if n == 0x08000000 {
            Some(SectionAttr::LiveSupport)
        } else if n == 0x02000000 {
            Some(SectionAttr::Debug)
        } else if n == 0x00000400 {
            Some(SectionAttr::SomeInstructions)
        } else if n == 0x00000200 {
            Some(SectionAttr::ExtReloc)
        } else if n == 0x00000100 {
            Some(SectionAttr::LocReloc)
        } else {
            None
        }
    }

    pub fn from_u32(n: u32) -> (res: Result<SectionAttr, Error>)
        ensures
            res is Ok <==> SectionAttr::spec_from_u32(n) is Some,
            res matches Ok(attr) ==> SectionAttr::spec_from_u32(n) == Some(attr),
            res matches Err(err) ==> err == Error::UnknownFlagBit,
    {
        match n {
            0x80000000 => Ok(SectionAttr::PureInstructions),
            0x40000000 => Ok(SectionAttr::NoToc),
            0x20000000 => Ok(SectionAttr::StripStaticSyms),
            0x08000000 => Ok(SectionAttr::LiveSupport),
            0x02000000 => Ok(SectionAttr::Debug),
            0x00000400 => Ok(SectionAttr::SomeInstructions),
            0x00000200 => Ok(SectionAttr::ExtReloc),
            0x00000100 => Ok(SectionAttr::LocReloc),
            _ => Err(Error::UnknownFlagBit),
        }
    }

    #[verifier::when_used_as_spec(spec_to_u32)]
    pub fn to_u32(self) -> (n: u32)
        ensures
            n == self.spec_to_u32(),
    {
        match self {
            SectionAttr::PureInstructions => 0x80000000,
            SectionAttr::NoToc => 0x40000000,
            SectionAttr::StripStaticSyms => 0x20000000,
            SectionAttr::LiveSupport => 0x08000000,
            SectionAttr::Debug => 0x02000000,
            SectionAttr::SomeInstructions => 0x00000400,
            SectionAttr::ExtReloc => 0x00000200,
            SectionAttr::LocReloc => 0x00000100,
        }
    }
}

impl View for SectionAttrs {
    type V = Seq<SectionAttr>;

    closed spec fn view(&self) -> Seq<SectionAttr> {
        self.attrs@
    }
}

impl SectionAttrs {
    /// Whether every bit that is set in `mask` is the bit of an attribute.
    pub open spec fn spec_all_named(mask: u32) -> bool {
        forall|i: u32|
            i < 32 && bit_at(mask, i) != 0 ==> SectionAttr::spec_from_u32(
                #[trigger] bit_at(mask, i),
            ) is Some
    }

    /// The attributes whose bits are set in `mask` at the positions below
    /// `n`, lowest bit first.
    pub open spec fn spec_below(mask: u32, n: u32) -> Seq<SectionAttr>
        decreases n,
    {
        if n == 0 {
            Seq::empty()
        } else {
            let lower = SectionAttrs::spec_below(mask, (n - 1) as u32);
            match SectionAttr::spec_from_u32(bit_at(mask, (n - 1) as u32)) {
                Some(attr) => lower.push(attr),
                None => lower,
            }
        }
    }

    /// The attributes whose bits are set in `mask`, lowest bit first.
    pub open spec fn spec_from_u32(mask: u32) -> Seq<SectionAttr> {
        SectionAttrs::spec_below(mask, 32)
    }

    /// Whether `attrs` come lowest bit first and none of them twice.
    pub open spec fn spec_ascending(attrs: Seq<SectionAttr>) -> bool {
        forall|i: int, j: int|
            0 <= i < j < attrs.len() ==> attrs[i].spec_to_u32() < attrs[j].spec_to_u32()
    }

    /// The bits of all of `attrs` together.
    pub open spec fn spec_mask(attrs: Seq<SectionAttr>) -> u32
        decreases attrs.len(),
    {
        if attrs.len() == 0 {
            0
        } else {
            SectionAttrs::spec_mask(attrs.drop_last()) | attrs.last().spec_to_u32()
        }
    }

    pub fn new() -> (attrs: SectionAttrs)
        ensures
            attrs@ == Seq::<SectionAttr>::empty(),
    {
        SectionAttrs { attrs: Vec::new() }
    }

    pub fn push(&mut self, attr: SectionAttr)
        ensures
            final(self)@ == old(self)@.push(attr),
    {
        self.attrs.push(attr);
    }

    pub fn is_empty(&self) -> (empty: bool)
        ensures
            empty == (self@.len() == 0),
    {
        self.attrs.is_empty()
    }

    /// The attributes one after the other, in the order in which they were
    /// put in.
    pub fn iter(&self) -> (it: std::slice::Iter<'_, SectionAttr>)
        ensures
            vstd::std_specs::slice::into_iter_elts(it) == self@,
    {
        self.attrs.iter()
    }

    /// Names the bits of `mask`, from the lowest to the highest. A bit
    /// without a name fails the whole.
    pub fn from_u32(mask: u32) -> (res: Result<SectionAttrs, Error>)
        ensures
            res is Ok <==> SectionAttrs::spec_all_named(mask),
            res matches Ok(attrs) ==> attrs@ == SectionAttrs::spec_from_u32(mask),
            res matches Err(err) ==> err == Error::UnknownFlagBit,
    {
        let mut attrs = SectionAttrs::new();
        for i in 0..32u32
            invariant
                attrs@ == SectionAttrs::spec_below(mask, i),
                forall|j: u32|
                    j < i && bit_at(mask, j) != 0 ==> SectionAttr::spec_from_u32(
                        #[trigger] bit_at(mask, j),
                    ) is Some,
        {
            let attr_n = mask & (1u32 << i);
            if attr_n != 0 {
                match SectionAttr::from_u32(attr_n) {
                    Ok(attr) => attrs.push(attr),
                    Err(err) => {
                        assert(SectionAttr::spec_from_u32(bit_at(mask, i)) is None);
                        return Err(err);
                    },
                }
            }
        }
        Ok(attrs)
    }

    /// The bits of all the attributes together.
    pub fn to_u32(&self) -> (mask: u32)
        ensures
            mask == SectionAttrs::spec_mask(self@),
    {
        let mut mask = 0u32;
        for i in 0..self.attrs.len()
            invariant
                mask == SectionAttrs::spec_mask(self@.take(i as int)),
        {
            assert(self@.take(i + 1).drop_last() == self@.take(i as int));
            mask |= self.attrs[i].to_u32();
        }
        assert(self@.take(self@.len() as int) == self@);
        mask
    }
}

/// A section type that was found for a number has that number.
pub proof fn lemma_section_type_from_to(n: u32)
    ensures
        SectionType::spec_from_u32(n) matches Some(section_type) ==> section_type.spec_to_u32()
            == n,
{
}

/// The number of a section type names that type and no other.
pub proof fn lemma_section_type_to_from(section_type: SectionType)
    ensures
        SectionType::spec_from_u32(section_type.spec_to_u32()) == Some(section_type),
{
}

/// An attribute that was found for a bit has that bit.
pub proof fn lemma_section_attr_from_to(n: u32)
    ensures
        SectionAttr::spec_from_u32(n) matches Some(attr) ==> attr.spec_to_u32() == n,
{
}

/// The bit of an attribute names that attribute and no other.
pub proof fn lemma_section_attr_to_from(attr: SectionAttr)
    ensures
        SectionAttr::spec_from_u32(attr.spec_to_u32()) == Some(attr),
{
}

/// The attributes found below position `n` in a mask whose bits all have
/// names have, together, the bits of the mask below `n`.
pub proof fn lemma_section_attrs_below_mask(mask: u32, n: u32)
    requires
        n <= 32,
        SectionAttrs::spec_all_named(mask),
    ensures
        SectionAttrs::spec_mask(SectionAttrs::spec_below(mask, n)) == bits_below(mask, n),
    decreases n,
{
    if n == 0 {
        lemma_bits_below_zero(mask);
    } else {
        let i = (n - 1) as u32;
        let lower = SectionAttrs::spec_below(mask, i);
        lemma_section_attrs_below_mask(mask, i);
        lemma_bits_below_step(mask, i);
        match SectionAttr::spec_from_u32(bit_at(mask, i)) {
            Some(attr) => {
                assert(lower.push(attr).drop_last() == lower);
            },
            None => {
                lemma_or_zero(bits_below(mask, i));
            },
        }
    }
}

/// Decoding a mask whose bits all have names, then encoding the attributes,
/// gives the mask again.
pub proof fn lemma_section_attrs_decode_then_encode(mask: u32)
    requires
        SectionAttrs::spec_all_named(mask),
    ensures
        SectionAttrs::spec_mask(SectionAttrs::spec_from_u32(mask)) == mask,
{
    lemma_section_attrs_below_mask(mask, 32);
}

/// The bit of an attribute is the one bit at the position of the attribute.
pub proof fn lemma_section_attr_is_one_bit(attr: SectionAttr)
    ensures
        attr.spec_position() < 32,
        attr.spec_to_u32() == 1u32 << attr.spec_position(),
{
    assert(1u32 << 31u32 == 0x80000000 && 1u32 << 30u32 == 0x40000000 && 1u32 << 29u32
        == 0x20000000 && 1u32 << 27u32 == 0x08000000 && 1u32 << 25u32 == 0x02000000 && 1u32
        << 10u32 == 0x00000400 && 1u32 << 9u32 == 0x00000200 && 1u32 << 8u32 == 0x00000100)
        by (bit_vector);
}

/// Attributes that all lie below position `k` have, together, no bit at `k` or
/// above.
pub proof fn lemma_section_attrs_mask_none_from(attrs: Seq<SectionAttr>, k: u32)
    requires
        k < 32,
        forall|i: int| 0 <= i < attrs.len() ==> attrs[i].spec_to_u32() < (1u32 << k),
    ensures
        none_from(SectionAttrs::spec_mask(attrs), k),
    decreases attrs.len(),
{
    if attrs.len() == 0 {
        lemma_no_bits(k, 0);
    } else {
        lemma_section_attrs_mask_none_from(attrs.drop_last(), k);
        lemma_below_bit_none_from(attrs.last().spec_to_u32(), k);
        lemma_or_none_from(SectionAttrs::spec_mask(attrs.drop_last()), attrs.last().spec_to_u32(), k);
    }
}

/// Two masks with the same bits below position `n` hold the same attributes
/// below `n`.
pub proof fn lemma_section_attrs_below_same_bits(mask: u32, other: u32, n: u32)
    requires
        n <= 32,
        forall|i: u32| i < n ==> bit_at(mask, i) == bit_at(other, i),
    ensures
        SectionAttrs::spec_below(mask, n) == SectionAttrs::spec_below(other, n),
    decreases n,
{
    if n > 0 {
        lemma_section_attrs_below_same_bits(mask, other, (n - 1) as u32);
    }
}

/// A mask without a bit from position `k` up to `n` holds below `n` the
/// attributes that it holds below `k`.
pub proof fn lemma_section_attrs_below_no_more_bits(mask: u32, k: u32, n: u32)
    requires
        k <= n <= 32,
        forall|i: u32| k <= i < n ==> bit_at(mask, i) == 0,
    ensures
        SectionAttrs::spec_below(mask, n) == SectionAttrs::spec_below(mask, k),
    decreases n,
{
    if n > k {
        lemma_section_attrs_below_no_more_bits(mask, k, (n - 1) as u32);
    }
}

/// Encoding attributes that come lowest bit first, none of them twice, then
/// decoding the mask, gives the attributes again. Attributes in another
/// order, or with one of them twice, do not come back as they were: they
/// come back lowest bit first and once.
pub proof fn lemma_section_attrs_encode_then_decode(attrs: Seq<SectionAttr>)
    requires
        SectionAttrs::spec_ascending(attrs),
    ensures
        SectionAttrs::spec_all_named(SectionAttrs::spec_mask(attrs)),
        SectionAttrs::spec_from_u32(SectionAttrs::spec_mask(attrs)) == attrs,
    decreases attrs.len(),
{
    let mask = SectionAttrs::spec_mask(attrs);
    if attrs.len() == 0 {
        assert forall|i: u32| i < 32 implies #[trigger] bit_at(mask, i) == 0 by {
            lemma_no_bits(0, i);
        }
        lemma_section_attrs_below_no_more_bits(mask, 0, 32);
    } else {
        let lower = attrs.drop_last();
        let last = attrs.last();
        let lower_mask = SectionAttrs::spec_mask(lower);
        let k = last.spec_position();
        lemma_section_attr_is_one_bit(last);
        lemma_section_attr_to_from(last);
        lemma_section_attrs_encode_then_decode(lower);
        assert forall|i: int| 0 <= i < lower.len() implies lower[i].spec_to_u32() < (1u32
            << k) by {
        }
        lemma_section_attrs_mask_none_from(lower, k);
        assert forall|i: u32| i < 32 implies (i < k ==> #[trigger] bit_at(mask, i) == bit_at(
            lower_mask,
            i,
        )) && (i == k ==> bit_at(mask, i) == last.spec_to_u32()) && (i > k ==> bit_at(mask, i)
            == 0) by {
            lemma_bit_added_on_top(lower_mask, k, i);
        }
        assert forall|i: u32| k <= i < 32 implies #[trigger] bit_at(lower_mask, i) == 0 by {
            lemma_none_from_bit_at(lower_mask, k, i);
        }
        lemma_section_attrs_below_same_bits(mask, lower_mask, k);
        lemma_section_attrs_below_no_more_bits(lower_mask, k, 32);
        lemma_section_attrs_below_no_more_bits(mask, (k + 1) as u32, 32);
    }
}

/// The attributes found below position `n` come lowest bit first, none of them
/// twice, and each of them has its bit below `n`.
pub proof fn lemma_section_attrs_below_ascending(mask: u32, n: u32)
    requires
        n <= 32,
    ensures
        SectionAttrs::spec_ascending(SectionAttrs::spec_below(mask, n)),
        forall|i: int|
            0 <= i < SectionAttrs::spec_below(mask, n).len()
                ==> (#[trigger] SectionAttrs::spec_below(
                mask,
                n,
            )[i]).spec_position() < n,
    decreases n,
{
    if n > 0 {
        let k = (n - 1) as u32;
        let lower = SectionAttrs::spec_below(mask, k);
        lemma_section_attrs_below_ascending(mask, k);
        match SectionAttr::spec_from_u32(bit_at(mask, k)) {
            Some(attr) => {
                lemma_section_attr_is_one_bit(attr);
                lemma_bit_at_is_one_bit(mask, k, k);
                if attr.spec_position() < k {
                    lemma_bit_at_is_one_bit(mask, k, attr.spec_position());
                } else {
                    lemma_bit_at_is_one_bit(mask, attr.spec_position(), k);
                }
                let all = lower.push(attr);
                assert forall|i: int, j: int| 0 <= i < j < all.len() implies all[i].spec_to_u32()
                    < all[j].spec_to_u32() by {
                    if j == lower.len() {
                        lemma_section_attr_is_one_bit(lower[i]);
                        lemma_bit_at_is_one_bit(mask, k, lower[i].spec_position());
                    }
                }
            },
            None => {},
        }
    }
}

/// Decoding gives the attributes lowest bit first, none of them twice.
pub proof fn lemma_section_attrs_decoded_ascending(mask: u32)
    ensures
        SectionAttrs::spec_ascending(SectionAttrs::spec_from_u32(mask)),
{
    lemma_section_attrs_below_ascending(mask, 32);
}

/// Attributes have, together, no bit in the lowest byte of a flags word,
/// where the type of a section lies.
pub proof fn lemma_section_attrs_mask_leaves_type(attrs: Seq<SectionAttr>)
    ensures
        SectionAttrs::spec_mask(attrs) & SectionFlags::TYPE_MASK == 0,
    decreases attrs.len(),
{
    if attrs.len() == 0 {
        assert(0u32 & 0x0000_00ffu32 == 0) by (bit_vector);
    } else {
        let lower = SectionAttrs::spec_mask(attrs.drop_last());
        let last = attrs.last().spec_to_u32();
        let k = attrs.last().spec_position();
        lemma_section_attrs_mask_leaves_type(attrs.drop_last());
        lemma_section_attr_is_one_bit(attrs.last());
        assert((lower | last) & 0x0000_00ffu32 == 0) by (bit_vector)
            requires
                lower & 0x0000_00ffu32 == 0,
                last == 1u32 << k,
                8 <= k < 32,
        ;
    }
}

/// A flags word made of attributes and a type gives back, part by part, the
/// bits of the attributes and the number of the type.
pub proof fn lemma_section_flags_parts(attrs: Seq<SectionAttr>, section_type: SectionType)
    ensures
        (SectionAttrs::spec_mask(attrs) | section_type.spec_to_u32())
            & SectionFlags::ATTRIBUTES_MASK == SectionAttrs::spec_mask(attrs),
        (SectionAttrs::spec_mask(attrs) | section_type.spec_to_u32()) & SectionFlags::TYPE_MASK
            == section_type.spec_to_u32(),
{
    let mask = SectionAttrs::spec_mask(attrs);
    let n = section_type.spec_to_u32();
    lemma_section_attrs_mask_leaves_type(attrs);
    assert((mask | n) & 0xffff_ff00u32 == mask && (mask | n) & 0x0000_00ffu32 == n) by (bit_vector)
        requires
            mask & 0x0000_00ffu32 == 0,
            n < 256,
    ;
}

/// Attributes and a type that were taken from a flags word are put together
/// as that word.
pub proof fn lemma_section_flags_decode_then_encode(flags: SectionFlags, n: u32)
    requires
        SectionFlags::parse_error(n) is None,
        flags.parsed_from(n),
    ensures
        flags.spec_to_u32() == n,
{
    lemma_section_attrs_decode_then_encode(n & SectionFlags::ATTRIBUTES_MASK);
    lemma_section_type_from_to(n & SectionFlags::TYPE_MASK);
    assert((n & 0xffff_ff00) | (n & 0x0000_00ff) == n) by (bit_vector);
}

/// The flags word of attributes that come lowest bit first, none of them
/// twice, and of a type is taken apart as those attributes and that type.
pub proof fn lemma_section_flags_encode_then_decode(flags: SectionFlags)
    requires
        flags.spec_wf(),
    ensures
        SectionFlags::parse_error(flags.spec_to_u32()) is None,
        flags.parsed_from(flags.spec_to_u32()),
{
    lemma_section_flags_parts(flags.0@, flags.1);
    lemma_section_attrs_encode_then_decode(flags.0@);
    lemma_section_type_to_from(flags.1);
}

/// Attributes and a type that were taken from a flags word are well formed.
pub proof fn lemma_section_flags_decoded_is_wf(flags: SectionFlags, n: u32)
    requires
        flags.parsed_from(n),
    ensures
        flags.spec_wf(),
{
    lemma_section_attrs_decoded_ascending(n & SectionFlags::ATTRIBUTES_MASK);
}

/// A bit is set in the mask of attributes exactly if one of them has its bit
/// there.
pub proof fn lemma_section_attrs_mask_bit(attrs: Seq<SectionAttr>, i: u32)
    requires
        i < 32,
    ensures
        bit_at(SectionAttrs::spec_mask(attrs), i) != 0 <==> exists|j: int|
            0 <= j < attrs.len() && (#[trigger] attrs[j]).spec_position() == i,
    decreases attrs.len(),
{
    if attrs.len() == 0 {
        lemma_no_bits(0, i);
    } else {
        let lower = attrs.drop_last();
        let last = attrs.last();
        lemma_section_attrs_mask_bit(lower, i);
        lemma_section_attr_is_one_bit(last);
        crate::bits::lemma_bit_at_or(SectionAttrs::spec_mask(lower), last.spec_to_u32(), i);
        crate::bits::lemma_bit_at_one_bit(last.spec_position(), i);
        if bit_at(SectionAttrs::spec_mask(attrs), i) != 0 {
            if bit_at(SectionAttrs::spec_mask(lower), i) != 0 {
                let j = choose|j: int|
                    0 <= j < lower.len() && (#[trigger] lower[j]).spec_position() == i;
            } else {
            }
        }
        if exists|j: int| 0 <= j < attrs.len() && (#[trigger] attrs[j]).spec_position() == i {
            let j = choose|j: int| 0 <= j < attrs.len() && (#[trigger] attrs[j]).spec_position()
                == i;
            if j < lower.len() {
                assert(lower[j] == attrs[j]);
            }
        }
    }
}

/// The mask of attributes depends on which attributes there are, not on
/// their order nor on how often one of them is there: attributes that are
/// the same as a set have the same mask.
pub proof fn lemma_section_attrs_mask_same_set(attrs: Seq<SectionAttr>, others: Seq<SectionAttr>)
    requires
        forall|attr: SectionAttr| attrs.contains(attr) <==> others.contains(attr),
    ensures
        SectionAttrs::spec_mask(attrs) == SectionAttrs::spec_mask(others),
{
    let mask = SectionAttrs::spec_mask(attrs);
    let other = SectionAttrs::spec_mask(others);
    assert forall|i: u32| i < 32 implies bit_at(mask, i) == bit_at(other, i) by {
        lemma_section_attrs_mask_bit(attrs, i);
        lemma_section_attrs_mask_bit(others, i);
        lemma_bit_at_is_one_bit(mask, i, i);
        lemma_bit_at_is_one_bit(other, i, i);
        if bit_at(mask, i) != 0 {
            let j = choose|j: int| 0 <= j < attrs.len() && (#[trigger] attrs[j]).spec_position()
                == i;
            assert(attrs.contains(attrs[j]));
            let k = choose|k: int| 0 <= k < others.len() && others[k] == attrs[j];
        }
        if bit_at(other, i) != 0 {
            let j = choose|j: int| 0 <= j < others.len() && (#[trigger] others[j]).spec_position()
                == i;
            assert(others.contains(others[j]));
            let k = choose|k: int| 0 <= k < attrs.len() && attrs[k] == others[j];
        }
    }
    crate::bits::lemma_same_bits_same_mask(mask, other);
}

} // verus!
