//! Tags: the class and number that identify the type of an encoded value.

use vstd::prelude::*;

verus! {

/// The class of a tag. The classes are ordered as they are declared.
#[derive(Clone, Copy, Debug, PartialEq, Eq, PartialOrd, Ord, Hash, Structural)]
pub enum Class {
    Universal,
    Application,
    ContextSpecific,
    Private,
}

impl Class {
    /// The position of the class in the order of classes.
    pub open spec fn rank(self) -> int {
        match self {
            Class::Universal => 0,
            Class::Application => 1,
            Class::ContextSpecific => 2,
            Class::Private => 3,
        }
    }

    /// Computes `rank`.
    pub fn index(self) -> (r: u8)
        ensures
            r == self.rank(),
    {
        match self {
            Class::Universal => 0,
            Class::Application => 1,
            Class::ContextSpecific => 2,
            Class::Private => 3,
        }
    }
}

/// A class and a number. Tags are ordered by class first, then by number.
#[derive(Clone, Copy, Debug, PartialEq, Eq, PartialOrd, Ord, Hash, Structural)]
pub struct Tag {
    pub class: Class,
    pub value: u32,
}

/// The number of the tag of what has no type of its own.
pub const EOC: u32 = 0;

/// The number of the universal tag of booleans.
pub const BOOL: u32 = 1;

/// The number of the universal tag of integers.
pub const INTEGER: u32 = 2;

/// The number of the universal tag of bit strings.
pub const BIT_STRING: u32 = 3;

/// The number of the universal tag of octet strings.
pub const OCTET_STRING: u32 = 4;

/// The number of the universal tag of the value without content.
pub const NULL: u32 = 5;

/// The number of the universal tag of object identifiers.
pub const OBJECT_IDENTIFIER: u32 = 6;

/// The number of the universal tag of the choices of an enumeration.
pub const ENUMERATED: u32 = 10;

/// The number of the universal tag of texts.
pub const UTF8_STRING: u32 = 12;

/// The number of the universal tag of sequences.
pub const SEQUENCE: u32 = 16;

/// The number of the universal tag of sets.
pub const SET: u32 = 17;

/// The number of the universal tag of times to the minute.
pub const UTC_TIME: u32 = 23;

/// The number of the universal tag of times to the thousandth of a second.
pub const GENERALIZED_TIME: u32 = 24;

impl Tag {
    /// The tag of `class` with the number `value`.
    pub fn new(class: Class, value: u32) -> (t: Tag)
        ensures
            t == (Tag { class, value }),
    {
        Tag { class, value }
    }

    /// The universal tag with the number `value`.
    pub open spec fn universal(value: u32) -> Tag {
        Tag { class: Class::Universal, value }
    }

    /// Computes `universal`.
    pub fn new_universal(value: u32) -> (t: Tag)
        ensures
            t == Tag::universal(value),
    {
        Tag { class: Class::Universal, value }
    }

    /// The integer by which tags are ordered: the class counts first, the
    /// number second.
    pub open spec fn key(self) -> int {
        self.class.rank() * 0x1_0000_0000 + self.value
    }

    /// Computes `key`.
    pub fn sort_key(&self) -> (k: u64)
        ensures
            k == self.key(),
    {
        let rank: u64 = match self.class {
            Class::Universal => 0,
            Class::Application => 1,
            Class::ContextSpecific => 2,
            Class::Private => 3,
        };
        let number: u64 = self.value.into();
        rank * 0x1_0000_0000 + number
    }

    /// Whether `self` comes strictly before `other`.
    pub open spec fn precedes(self, other: Tag) -> bool {
        self.class.rank() < other.class.rank() || (self.class == other.class && self.value
            < other.value)
    }

    /// Computes `precedes`.
    pub fn is_before(&self, other: &Tag) -> (b: bool)
        ensures
            b == self.precedes(*other),
    {
        let a = self.class.index();
        let b = other.class.index();
        a < b || (a == b && self.value < other.value)
    }

    /// Whether the two tags are the same.
    pub fn same(&self, other: &Tag) -> (b: bool)
        ensures
            b == (*self == *other),
    {
        self.class.index() == other.class.index() && self.value == other.value
    }
}

/// The key orders tags as `precedes` does, and tells them apart.
pub proof fn lemma_key_orders(a: Tag, b: Tag)
    ensures
        a.precedes(b) <==> a.key() < b.key(),
        a == b <==> a.key() == b.key(),
{
}

/// The order of tags is total: of two tags one precedes the other or they
/// are the same, and never two of these at once.
pub proof fn lemma_order_total(a: Tag, b: Tag)
    ensures
        a.precedes(b) || b.precedes(a) || a == b,
        !(a.precedes(b) && b.precedes(a)),
        !(a.precedes(b) && a == b),
{
}

/// The order of tags is transitive.
pub proof fn lemma_order_transitive(a: Tag, b: Tag, c: Tag)
    requires
        a.precedes(b),
        b.precedes(c),
    ensures
        a.precedes(c),
{
}

} // verus!
