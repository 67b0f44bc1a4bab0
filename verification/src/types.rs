//! The types of values beyond the machine's own: what has a tag, and the
//! values that are carried undecoded.

use crate::bits::BitString;
use crate::integer::Integer;
use crate::oid::ObjectIdentifier;
use crate::set_of::SetOf;
use crate::tag_map::{Open, TagMap};
use crate::tag::{self, Tag};
use vstd::prelude::*;

verus! {

/// The tag that a type has where nothing else is said.
pub trait AsnType {
    spec fn tag_spec() -> Tag;

    /// Computes `tag_spec`.
    fn tag() -> (t: Tag)
        ensures
            t == Self::tag_spec(),
    ;
}

impl AsnType for () {
    open spec fn tag_spec() -> Tag {
        Tag::universal(tag::NULL)
    }

    fn tag() -> (t: Tag) {
        Tag::new_universal(tag::NULL)
    }
}

impl AsnType for bool {
    open spec fn tag_spec() -> Tag {
        Tag::universal(tag::BOOL)
    }

    fn tag() -> (t: Tag) {
        Tag::new_universal(tag::BOOL)
    }
}

impl<T: AsnType> AsnType for Option<T> {
    open spec fn tag_spec() -> Tag {
        T::tag_spec()
    }

    fn tag() -> (t: Tag) {
        T::tag()
    }
}

impl<T> AsnType for Vec<T> {
    open spec fn tag_spec() -> Tag {
        Tag::universal(tag::SEQUENCE)
    }

    fn tag() -> (t: Tag) {
        Tag::new_universal(tag::SEQUENCE)
    }
}

impl AsnType for Integer {
    open spec fn tag_spec() -> Tag {
        Tag::universal(tag::INTEGER)
    }

    fn tag() -> (t: Tag) {
        Tag::new_universal(tag::INTEGER)
    }
}
impl AsnType for i8 {
    open spec fn tag_spec() -> Tag {
        Tag::universal(tag::INTEGER)
    }

    fn tag() -> (t: Tag) {
        Tag::new_universal(tag::INTEGER)
    }
}

impl AsnType for i16 {
    open spec fn tag_spec() -> Tag {
        Tag::universal(tag::INTEGER)
    }

    fn tag() -> (t: Tag) {
        Tag::new_universal(tag::INTEGER)
    }
}

impl AsnType for i32 {
    open spec fn tag_spec() -> Tag {
        Tag::universal(tag::INTEGER)
    }

    fn tag() -> (t: Tag) {
        Tag::new_universal(tag::INTEGER)
    }
}

impl AsnType for i64 {
    open spec fn tag_spec() -> Tag {
        Tag::universal(tag::INTEGER)
    }

    fn tag() -> (t: Tag) {
        Tag::new_universal(tag::INTEGER)
    }
}

impl AsnType for i128 {
    open spec fn tag_spec() -> Tag {
        Tag::universal(tag::INTEGER)
    }

    fn tag() -> (t: Tag) {
        Tag::new_universal(tag::INTEGER)
    }
}

impl AsnType for isize {
    open spec fn tag_spec() -> Tag {
        Tag::universal(tag::INTEGER)
    }

    fn tag() -> (t: Tag) {
        Tag::new_universal(tag::INTEGER)
    }
}

impl AsnType for u8 {
    open spec fn tag_spec() -> Tag {
        Tag::universal(tag::INTEGER)
    }

    fn tag() -> (t: Tag) {
        Tag::new_universal(tag::INTEGER)
    }
}

impl AsnType for u16 {
    open spec fn tag_spec() -> Tag {
        Tag::universal(tag::INTEGER)
    }

    fn tag() -> (t: Tag) {
        Tag::new_universal(tag::INTEGER)
    }
}

impl AsnType for u32 {
    open spec fn tag_spec() -> Tag {
        Tag::universal(tag::INTEGER)
    }

    fn tag() -> (t: Tag) {
        Tag::new_universal(tag::INTEGER)
    }
}

impl AsnType for u64 {
    open spec fn tag_spec() -> Tag {
        Tag::universal(tag::INTEGER)
    }

    fn tag() -> (t: Tag) {
        Tag::new_universal(tag::INTEGER)
    }
}

impl AsnType for u128 {
    open spec fn tag_spec() -> Tag {
        Tag::universal(tag::INTEGER)
    }

    fn tag() -> (t: Tag) {
        Tag::new_universal(tag::INTEGER)
    }
}

impl AsnType for usize {
    open spec fn tag_spec() -> Tag {
        Tag::universal(tag::INTEGER)
    }

    fn tag() -> (t: Tag) {
        Tag::new_universal(tag::INTEGER)
    }
}

impl DeepView for Tag {
    type V = Tag;

    open spec fn deep_view(&self) -> Tag {
        *self
    }
}

/// A value of a type that the reader does not know: the octets that hold it.
#[derive(Debug)]
pub struct Any {
    pub contents: Vec<u8>,
}

impl DeepView for Any {
    type V = Seq<u8>;

    open spec fn deep_view(&self) -> Seq<u8> {
        self.contents@
    }
}

impl Any {
    /// The value that `contents` holds.
    pub fn new(contents: Vec<u8>) -> (r: Any)
        ensures
            r.contents@ == contents@,
    {
        Any { contents }
    }
}

/// An octet string.
#[derive(Debug)]
pub struct OctetString {
    pub bytes: Vec<u8>,
}

impl DeepView for OctetString {
    type V = Seq<u8>;

    open spec fn deep_view(&self) -> Seq<u8> {
        self.bytes@
    }
}

impl OctetString {
    /// The octet string of `bytes`.
    pub fn from(bytes: Vec<u8>) -> (r: OctetString)
        ensures
            r.bytes@ == bytes@,
    {
        OctetString { bytes }
    }
}

impl AsnType for Any {
    open spec fn tag_spec() -> Tag {
        Tag::universal(tag::EOC)
    }

    fn tag() -> (t: Tag) {
        Tag::new_universal(tag::EOC)
    }
}

impl AsnType for OctetString {
    open spec fn tag_spec() -> Tag {
        Tag::universal(tag::OCTET_STRING)
    }

    fn tag() -> (t: Tag) {
        Tag::new_universal(tag::OCTET_STRING)
    }
}

impl AsnType for BitString {
    open spec fn tag_spec() -> Tag {
        Tag::universal(tag::BIT_STRING)
    }

    fn tag() -> (t: Tag) {
        Tag::new_universal(tag::BIT_STRING)
    }
}

impl AsnType for String {
    open spec fn tag_spec() -> Tag {
        Tag::universal(tag::UTF8_STRING)
    }

    fn tag() -> (t: Tag) {
        Tag::new_universal(tag::UTF8_STRING)
    }
}

/// A value of `V` under the tag of `T` in place of its own.
#[derive(Debug)]
pub struct Implicit<T, V> {
    pub value: V,
    pub marker: core::marker::PhantomData<T>,
}

impl<T, V: DeepView> DeepView for Implicit<T, V> {
    type V = V::V;

    open spec fn deep_view(&self) -> V::V {
        self.value.deep_view()
    }
}

impl<T, V> Implicit<T, V> {
    /// Wraps `value`.
    pub fn new(value: V) -> (r: Self)
        ensures
            r.value == value,
    {
        Implicit { value, marker: core::marker::PhantomData }
    }
}

impl<T: AsnType, V> AsnType for Implicit<T, V> {
    open spec fn tag_spec() -> Tag {
        T::tag_spec()
    }

    fn tag() -> (t: Tag) {
        T::tag()
    }
}

/// A value of `V` inside a wrapper that bears the tag of `T`; the value
/// keeps its own tag.
#[derive(Debug)]
pub struct Explicit<T, V> {
    pub value: V,
    pub marker: core::marker::PhantomData<T>,
}

impl<T, V: DeepView> DeepView for Explicit<T, V> {
    type V = V::V;

    open spec fn deep_view(&self) -> V::V {
        self.value.deep_view()
    }
}

impl<T, V> Explicit<T, V> {
    /// Wraps `value`.
    pub fn new(value: V) -> (r: Self)
        ensures
            r.value == value,
    {
        Explicit { value, marker: core::marker::PhantomData }
    }
}

impl<T: AsnType, V> AsnType for Explicit<T, V> {
    open spec fn tag_spec() -> Tag {
        T::tag_spec()
    }

    fn tag() -> (t: Tag) {
        T::tag()
    }
}

impl<T> AsnType for SetOf<T> {
    open spec fn tag_spec() -> Tag {
        Tag::universal(tag::SET)
    }

    fn tag() -> (t: Tag) {
        Tag::new_universal(tag::SET)
    }
}

impl AsnType for Open {
    open spec fn tag_spec() -> Tag {
        Tag::universal(tag::EOC)
    }

    fn tag() -> (t: Tag) {
        Tag::new_universal(tag::EOC)
    }
}

impl AsnType for TagMap {
    open spec fn tag_spec() -> Tag {
        Tag::universal(tag::SEQUENCE)
    }

    fn tag() -> (t: Tag) {
        Tag::new_universal(tag::SEQUENCE)
    }
}

impl AsnType for ObjectIdentifier {
    open spec fn tag_spec() -> Tag {
        Tag::universal(tag::OBJECT_IDENTIFIER)
    }

    fn tag() -> (t: Tag) {
        Tag::new_universal(tag::OBJECT_IDENTIFIER)
    }
}

impl AsnType for crate::time::UtcTime {
    open spec fn tag_spec() -> Tag {
        Tag::universal(tag::UTC_TIME)
    }

    fn tag() -> (t: Tag) {
        Tag::new_universal(tag::UTC_TIME)
    }
}

impl AsnType for crate::time::GeneralizedTime {
    open spec fn tag_spec() -> Tag {
        Tag::universal(tag::GENERALIZED_TIME)
    }

    fn tag() -> (t: Tag) {
        Tag::new_universal(tag::GENERALIZED_TIME)
    }
}

} // verus!
