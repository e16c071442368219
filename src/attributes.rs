//! Text attributes (SGR codes) and sets of them.

use vstd::prelude::*;

verus! {

/// One text attribute, by its SGR code.
#[derive(Clone, Copy, Debug, PartialEq, Eq, Structural, Hash)]
pub enum Attribute {
    Reset,
    Bold,
    Dimmed,
    Italic,
    Underlined,
    Striked,
    SlowBlink,
    RapidBlink,
    Reversed,
    NotBoldOrDimmed,
    NotItalic,
    NotUnderlined,
    NotStriked,
    NotBlinking,
    NotReversed,
}

/// The position of an attribute in a set's mask; Reset has none.
pub open spec fn index_of(a: Attribute) -> u32 {
    match a {
        Attribute::Reset => 0,
        Attribute::Bold => 0,
        Attribute::Dimmed => 1,
        Attribute::Italic => 2,
        Attribute::Underlined => 3,
        Attribute::Striked => 4,
        Attribute::SlowBlink => 5,
        Attribute::RapidBlink => 6,
        Attribute::Reversed => 7,
        Attribute::NotBoldOrDimmed => 8,
        Attribute::NotItalic => 9,
        Attribute::NotUnderlined => 10,
        Attribute::NotStriked => 11,
        Attribute::NotReversed => 12,
        Attribute::NotBlinking => 13,
    }
}

/// The mask bit of an attribute; Reset has none.
pub open spec fn bit_of(a: Attribute) -> u32 {
    if a is Reset {
        0
    } else {
        1u32 << index_of(a)
    }
}

/// The SGR code of an attribute.
pub open spec fn sgr_code(a: Attribute) -> u8 {
    match a {
        Attribute::Reset => 0,
        Attribute::Bold => 1,
        Attribute::Dimmed => 2,
        Attribute::Italic => 3,
        Attribute::Underlined => 4,
        Attribute::Striked => 9,
        Attribute::SlowBlink => 5,
        Attribute::RapidBlink => 6,
        Attribute::Reversed => 7,
        Attribute::NotBoldOrDimmed => 22,
        Attribute::NotItalic => 23,
        Attribute::NotUnderlined => 24,
        Attribute::NotStriked => 29,
        Attribute::NotBlinking => 25,
        Attribute::NotReversed => 27,
    }
}

/// The attributes in the order a set lists them.
pub open spec fn listing() -> Seq<Attribute> {
    seq![
        Attribute::Bold,
        Attribute::Dimmed,
        Attribute::Italic,
        Attribute::Underlined,
        Attribute::Striked,
        Attribute::SlowBlink,
        Attribute::RapidBlink,
        Attribute::Reversed,
        Attribute::NotBoldOrDimmed,
        Attribute::NotItalic,
        Attribute::NotUnderlined,
        Attribute::NotStriked,
        Attribute::NotReversed,
        Attribute::NotBlinking,
    ]
}

impl Attribute {
    /// The SGR code of the attribute.
    pub fn code(&self) -> (r: u8)
        ensures
            r == sgr_code(*self),
    {
        match self {
            Attribute::Reset => 0,
            Attribute::Bold => 1,
            Attribute::Dimmed => 2,
            Attribute::Italic => 3,
            Attribute::Underlined => 4,
            Attribute::Striked => 9,
            Attribute::SlowBlink => 5,
            Attribute::RapidBlink => 6,
            Attribute::Reversed => 7,
            Attribute::NotBoldOrDimmed => 22,
            Attribute::NotItalic => 23,
            Attribute::NotUnderlined => 24,
            Attribute::NotStriked => 29,
            Attribute::NotBlinking => 25,
            Attribute::NotReversed => 27,
        }
    }

    pub fn index(&self) -> (r: u32)
        ensures
            r == index_of(*self),
            r < 14,
    {
        match self {
            Attribute::Reset => 0,
            Attribute::Bold => 0,
            Attribute::Dimmed => 1,
            Attribute::Italic => 2,
            Attribute::Underlined => 3,
            Attribute::Striked => 4,
            Attribute::SlowBlink => 5,
            Attribute::RapidBlink => 6,
            Attribute::Reversed => 7,
            Attribute::NotBoldOrDimmed => 8,
            Attribute::NotItalic => 9,
            Attribute::NotUnderlined => 10,
            Attribute::NotStriked => 11,
            Attribute::NotReversed => 12,
            Attribute::NotBlinking => 13,
        }
    }

    pub fn bits(&self) -> (r: u32)
        ensures
            r == bit_of(*self),
    {
        if matches!(self, Attribute::Reset) {
            0
        } else {
            1u32 << self.index()
        }
    }
}

/// A set of attributes, one mask bit each.
#[derive(Clone, Copy, Debug, PartialEq, Eq, Structural, Hash)]
pub struct AttributeSet {
    pub mask: u32,
}

/// Whether the mask holds the attribute's bit.
pub open spec fn holds(mask: u32, a: Attribute) -> bool {
    bit_of(a) & mask != 0
}

impl View for AttributeSet {
    type V = Set<Attribute>;

    open spec fn view(&self) -> Set<Attribute> {
        Set::new(|a: Attribute| holds(self.mask, a))
    }
}

proof fn lemma_bit_or(m: u32, n: u32, i: u32)
    requires
        i < 32,
    ensures
        ((1u32 << i) & (m | n) != 0) == ((1u32 << i) & m != 0 || (1u32 << i) & n != 0),
        ((1u32 << i) & (m & n) != 0) == ((1u32 << i) & m != 0 && (1u32 << i) & n != 0),
        ((1u32 << i) & (m ^ n) != 0) == (((1u32 << i) & m != 0) != ((1u32 << i) & n != 0)),
        ((1u32 << i) & (m & !n) != 0) == ((1u32 << i) & m != 0 && (1u32 << i) & n == 0),
        (1u32 << i) & 0u32 == 0,
{
    assert(((1u32 << i) & (m | n) != 0) == ((1u32 << i) & m != 0 || (1u32 << i) & n != 0)) by (bit_vector)
        requires i < 32;
    assert(((1u32 << i) & (m & n) != 0) == ((1u32 << i) & m != 0 && (1u32 << i) & n != 0)) by (bit_vector)
        requires i < 32;
    assert(((1u32 << i) & (m ^ n) != 0) == (((1u32 << i) & m != 0) != ((1u32 << i) & n != 0))) by (bit_vector)
        requires i < 32;
    assert(((1u32 << i) & (m & !n) != 0) == ((1u32 << i) & m != 0 && (1u32 << i) & n == 0)) by (bit_vector)
        requires i < 32;
    assert((1u32 << i) & 0u32 == 0) by (bit_vector);
}

proof fn lemma_single_bit(i: u32, j: u32)
    requires
        i < 32,
        j < 32,
    ensures
        ((1u32 << i) & (1u32 << j) != 0) == (i == j),
        (1u32 << i) != 0,
{
    assert(((1u32 << i) & (1u32 << j) != 0) == (i == j)) by (bit_vector)
        requires i < 32 && j < 32;
    assert((1u32 << i) != 0) by (bit_vector)
        requires i < 32;
}

/// Two attributes other than Reset share a bit only when they are the same.
proof fn lemma_attribute_bits(a: Attribute, b: Attribute)
    ensures
        (bit_of(a) & bit_of(b) != 0) == (!(a is Reset) && a == b),
{
    if !(a is Reset) && !(b is Reset) {
        lemma_single_bit(index_of(a), index_of(b));
    } else {
        lemma_bit_or(0, 0, 0);
        if !(a is Reset) {
            lemma_bit_or(0, 0, index_of(a));
        }
        assert(bit_of(a) & 0u32 == 0) by (bit_vector);
        assert(0u32 & bit_of(b) == 0) by (bit_vector);
    }
}

impl AttributeSet {
    pub fn new() -> (r: Self)
        ensures
            r.mask == 0,
            r@ == Set::<Attribute>::empty(),
    {
        let r = AttributeSet { mask: 0 };
        proof {
            assert forall|a: Attribute| !holds(0, a) by {
                assert(bit_of(a) & 0u32 == 0) by (bit_vector);
            }
            assert(r@ =~= Set::<Attribute>::empty());
        }
        r
    }

    pub fn is_empty(&self) -> (r: bool)
        ensures
            r == (self.mask == 0),
    {
        self.mask == 0
    }

    pub fn reset(&mut self)
        ensures
            final(self).mask == 0,
    {
        self.mask = 0;
    }

    pub fn insert(&mut self, attribute: Attribute)
        ensures
            final(self).mask == old(self).mask | bit_of(attribute),
            !(attribute is Reset) ==> final(self)@ == old(self)@.insert(attribute),
            attribute is Reset ==> final(self)@ == old(self)@,
    {
        let m = self.mask;
        self.mask = m | attribute.bits();
        proof {
            lemma_insert_view(m, attribute);
        }
    }

    pub fn remove(&mut self, attribute: Attribute)
        ensures
            final(self).mask == old(self).mask & !bit_of(attribute),
            final(self)@ == old(self)@.remove(attribute),
    {
        let m = self.mask;
        self.mask = m & !attribute.bits();
        proof {
            assert forall|a: Attribute| holds(m & !bit_of(attribute), a) == (holds(m, a) && a != attribute) by {
                if !(a is Reset) {
                    lemma_bit_or(m, bit_of(attribute), index_of(a));
                    lemma_attribute_bits(a, attribute);
                } else {
                    assert(0u32 & (m & !bit_of(attribute)) == 0) by (bit_vector);
                    assert(0u32 & m == 0) by (bit_vector);
                }
            }
            assert(self@ =~= old(self)@.remove(attribute));
        }
    }

    pub fn extend(&mut self, other: AttributeSet)
        ensures
            final(self).mask == old(self).mask | other.mask,
            final(self)@ == old(self)@.union(other@),
    {
        let m = self.mask;
        self.mask = m | other.mask;
        proof {
            lemma_union_view(m, other.mask);
            assert(self@ =~= old(self)@.union(other@));
        }
    }

    pub fn contains(&self, attribute: &Attribute) -> (r: bool)
        ensures
            r == self@.contains(*attribute),
            r == holds(self.mask, *attribute),
    {
        (attribute.bits() & self.mask) != 0
    }

    pub fn intersection(&self, other: &AttributeSet) -> (r: AttributeSet)
        ensures
            r.mask == self.mask & other.mask,
            r@ == self@.intersect(other@),
    {
        let r = AttributeSet { mask: self.mask & other.mask };
        proof {
            assert forall|a: Attribute| holds(self.mask & other.mask, a) == (holds(self.mask, a) && holds(other.mask, a)) by {
                if !(a is Reset) {
                    lemma_bit_or(self.mask, other.mask, index_of(a));
                } else {
                    let x = self.mask;
                    let y = other.mask;
                    assert(0u32 & (x & y) == 0) by (bit_vector);
                    assert(0u32 & x == 0) by (bit_vector);
                }
            }
            assert(r@ =~= self@.intersect(other@));
        }
        r
    }

    pub fn union(&self, other: &AttributeSet) -> (r: AttributeSet)
        ensures
            r.mask == self.mask | other.mask,
            r@ == self@.union(other@),
    {
        let r = AttributeSet { mask: self.mask | other.mask };
        proof {
            lemma_union_view(self.mask, other.mask);
            assert(r@ =~= self@.union(other@));
        }
        r
    }

    /// The attributes that are in exactly one of the two sets.
    pub fn difference(&self, other: &AttributeSet) -> (r: AttributeSet)
        ensures
            r.mask == self.mask ^ other.mask,
            r@ == self@.difference(other@).union(other@.difference(self@)),
    {
        let r = AttributeSet { mask: self.mask ^ other.mask };
        proof {
            assert forall|a: Attribute| holds(self.mask ^ other.mask, a) == (holds(self.mask, a) != holds(other.mask, a)) by {
                if !(a is Reset) {
                    lemma_bit_or(self.mask, other.mask, index_of(a));
                } else {
                    let x = self.mask;
                    let y = other.mask;
                    assert(0u32 & (x ^ y) == 0) by (bit_vector);
                    assert(0u32 & x == 0) by (bit_vector);
                    assert(0u32 & y == 0) by (bit_vector);
                }
            }
            assert(r@ =~= self@.difference(other@).union(other@.difference(self@)));
        }
        r
    }

    /// The attributes of the set, in the order of `listing`.
    pub fn iter(&self) -> (r: Vec<Attribute>)
        ensures
            r@ == listing().filter(|a: Attribute| self@.contains(a)),
    {
        let all = vec![
            Attribute::Bold,
            Attribute::Dimmed,
            Attribute::Italic,
            Attribute::Underlined,
            Attribute::Striked,
            Attribute::SlowBlink,
            Attribute::RapidBlink,
            Attribute::Reversed,
            Attribute::NotBoldOrDimmed,
            Attribute::NotItalic,
            Attribute::NotUnderlined,
            Attribute::NotStriked,
            Attribute::NotReversed,
            Attribute::NotBlinking,
        ];
        assert(all@ =~= listing());
        let ghost keep = |a: Attribute| self@.contains(a);
        let mut r: Vec<Attribute> = Vec::new();
        let mut i: usize = 0;
        while i < all.len()
            invariant
                all@ == listing(),
                i <= all@.len(),
                keep == (|a: Attribute| self@.contains(a)),
                r@ == all@.subrange(0, i as int).filter(keep),
            decreases all@.len() - i,
        {
            proof {
                assert(all@.subrange(0, i + 1).drop_last() =~= all@.subrange(0, i as int));
                reveal(Seq::filter);
            }
            if self.contains(&all[i]) {
                r.push(all[i]);
            }
            i = i + 1;
        }
        assert(all@.subrange(0, all@.len() as int) =~= all@);
        r
    }
}

proof fn lemma_insert_view(m: u32, x: Attribute)
    ensures
        !(x is Reset) ==> Set::new(|a: Attribute| holds(m | bit_of(x), a)) == Set::new(
            |a: Attribute| holds(m, a),
        ).insert(x),
        x is Reset ==> Set::new(|a: Attribute| holds(m | bit_of(x), a)) == Set::new(
            |a: Attribute| holds(m, a),
        ),
{
    let b = bit_of(x);
    assert forall|a: Attribute| holds(m | b, a) == (holds(m, a) || (!(x is Reset) && a == x)) by {
        if !(a is Reset) {
            lemma_bit_or(m, b, index_of(a));
        } else {
            assert(0u32 & (m | b) == 0) by (bit_vector);
            assert(0u32 & m == 0) by (bit_vector);
        }
        lemma_attribute_bits(a, x);
    }
    if x is Reset {
        assert(Set::new(|a: Attribute| holds(m | b, a)) =~= Set::new(|a: Attribute| holds(m, a)));
    } else {
        let s1 = Set::new(|a: Attribute| holds(m | b, a));
        let s0 = Set::new(|a: Attribute| holds(m, a));
        assert forall|a: Attribute| s1.contains(a) == s0.insert(x).contains(a) by {
            assert(s1.contains(a) == holds(m | b, a));
            assert(s0.contains(a) == holds(m, a));
        }
        assert(s1 =~= s0.insert(x));
    }
}

proof fn lemma_union_view(x: u32, y: u32)
    ensures
        forall|a: Attribute| holds(x | y, a) == (holds(x, a) || holds(y, a)),
{
    assert forall|a: Attribute| holds(x | y, a) == (holds(x, a) || holds(y, a)) by {
        if !(a is Reset) {
            lemma_bit_or(x, y, index_of(a));
        } else {
            assert(0u32 & (x | y) == 0) by (bit_vector);
            assert(0u32 & x == 0) by (bit_vector);
            assert(0u32 & y == 0) by (bit_vector);
        }
    }
}

impl From<Attribute> for AttributeSet {
    fn from(value: Attribute) -> (r: Self) {
        let mut r = AttributeSet::new();
        r.insert(value);
        proof {
            let b = bit_of(value);
            assert(0u32 | b == b) by (bit_vector);
        }
        r
    }
}

impl vstd::std_specs::convert::FromSpecImpl<Attribute> for AttributeSet {
    open spec fn obeys_from_spec() -> bool {
        true
    }

    open spec fn from_spec(value: Attribute) -> AttributeSet {
        AttributeSet { mask: bit_of(value) }
    }
}

} // verus!
