//! Modifier flags of a span: a set of markdown properties kept as bits.
use vstd::prelude::*;

verus! {

/// Modifier flags for spans.
///
/// Similar to a terminal style modifier, but closer to the original markdown: each bit
/// records one markdown property (emphasis, part of a link, a list marker, ...).
#[derive(Debug, Default, Clone, Copy, PartialEq, Eq, Structural)]
pub struct Modifier {
    pub bits: u32,
}

impl Modifier {
    pub const EMPHASIS: u32 = 1 << 0;
    pub const STRONG_EMPHASIS: u32 = 1 << 1;
    pub const CODE: u32 = 1 << 2;
    pub const LINK: u32 = 1 << 3;
    pub const BARE_LINK: u32 = 1 << 4;
    pub const LINK_DESCRIPTION: u32 = 1 << 5;
    pub const LINK_DESCRIPTION_WRAPPER: u32 = 1 << 6;
    pub const LINK_URL: u32 = 1 << 7;
    pub const LINK_URL_WRAPPER: u32 = 1 << 8;
    pub const IMAGE: u32 = 1 << 9;
    pub const NEW_LINE: u32 = 1 << 10;
    pub const BLOCKQUOTE_BAR: u32 = 1 << 11;
    pub const LIST_MARKER: u32 = 1 << 12;
    pub const TABLE_BORDER: u32 = 1 << 13;
    pub const HORIZONTAL_RULE: u32 = 1 << 14;
    pub const EMPHASIS_WRAPPER: u32 = 1 << 15;
    pub const STRONG_EMPHASIS_WRAPPER: u32 = 1 << 16;
    pub const CODE_WRAPPER: u32 = 1 << 17;
    pub const STRIKETHROUGH: u32 = 1 << 18;
    pub const STRIKETHROUGH_WRAPPER: u32 = 1 << 19;

    /// All flags of `bits` are set.
    pub open spec fn has(self, bits: u32) -> bool {
        self.bits & bits == bits
    }

    /// Some flag of `bits` is set.
    pub open spec fn meets(self, bits: u32) -> bool {
        self.bits & bits != 0
    }

    /// A URL part of a link that is left out when URLs are hidden: a link URL or its
    /// parentheses, unless it belongs to a bare link or an image.
    pub open spec fn is_hideable_url(self) -> bool {
        &&& self.meets(Self::LINK_URL | Self::LINK_URL_WRAPPER)
        &&& !self.has(Self::BARE_LINK)
        &&& !self.has(Self::IMAGE)
    }

    /// Whether this is a URL part of a link that is left out when URLs are hidden.
    pub fn hideable_url(self) -> (b: bool)
        ensures
            b == self.is_hideable_url(),
    {
        self.intersects(Self::LINK_URL | Self::LINK_URL_WRAPPER) && !self.contains(Self::BARE_LINK)
            && !self.contains(Self::IMAGE)
    }

    /// The modifier with no flag set.
    pub fn empty() -> (m: Modifier)
        ensures
            m.bits == 0,
    {
        Modifier { bits: 0 }
    }

    /// The modifier with exactly the flags of `bits` set.
    pub fn new(bits: u32) -> (m: Modifier)
        ensures
            m.bits == bits,
    {
        Modifier { bits }
    }

    /// Whether all the flags of `bits` are set.
    pub fn contains(self, bits: u32) -> (b: bool)
        ensures
            b == self.has(bits),
    {
        self.bits & bits == bits
    }

    /// Whether any flag of `bits` is set.
    pub fn intersects(self, bits: u32) -> (b: bool)
        ensures
            b == self.meets(bits),
    {
        self.bits & bits != 0
    }

    /// These flags together with the flags of `bits`.
    pub fn union(self, bits: u32) -> (m: Modifier)
        ensures
            m.bits == self.bits | bits,
    {
        Modifier { bits: self.bits | bits }
    }

    /// These flags without the flags of `bits`.
    pub fn difference(self, bits: u32) -> (m: Modifier)
        ensures
            m.bits == self.bits & !bits,
    {
        Modifier { bits: self.bits & !bits }
    }

    /// Clear the flags of `bits`.
    pub fn remove(&mut self, bits: u32)
        ensures
            final(self).bits == old(self).bits & !bits,
    {
        self.bits = self.bits & !bits;
    }

    /// Set the flags of `bits`.
    pub fn insert(&mut self, bits: u32)
        ensures
            final(self).bits == old(self).bits | bits,
    {
        self.bits = self.bits | bits;
    }

    /// Whether no flag is set.
    pub fn is_empty(self) -> (b: bool)
        ensures
            b == (self.bits == 0),
    {
        self.bits == 0
    }
}


/// Flags that are set are then held, and flags that are cleared are then not met; setting
/// or clearing flags leaves the other flags as they were.
pub proof fn set_and_clear_flags(m: Modifier, bits: u32, other: u32)
    requires
        bits & other == 0,
    ensures
        (Modifier { bits: m.bits | bits }).has(bits),
        bits != 0 ==> !(Modifier { bits: m.bits & !bits }).meets(bits),
        (Modifier { bits: m.bits | bits }).has(other) == m.has(other),
        (Modifier { bits: m.bits & !bits }).has(other) == m.has(other),
{
    let x = m.bits;
    assert((x | bits) & bits == bits) by (bit_vector);
    assert(bits != 0 ==> (x & !bits) & bits == 0) by (bit_vector);
    assert(bits & other == 0 ==> (((x | bits) & other == other) == (x & other == other))) by (bit_vector);
    assert(bits & other == 0 ==> (((x & !bits) & other == other) == (x & other == other))) by (bit_vector);
}

} // verus!
