//! Encoding: what a data type asks of a format, and what a format offers.

mod numbers;

use crate::bits::BitString;
use crate::constraints::Constraints;
use crate::error::ErrorKind;
use crate::integer::Integer;
use crate::oid::ObjectIdentifier;
use crate::set_of::{SetElement, SetOf};
use crate::tag::{self, Tag};
use crate::tag_map::{Open, TagMap};
use crate::time::{GeneralizedTime, UtcTime};
use crate::types::{Any, AsnType, Explicit, Implicit, OctetString};
use vstd::prelude::*;

verus! {

/// What a format's encoder reports. Code that serves every format can fail
/// only through `custom`.
pub trait Error: Sized {
    /// The kind of the failure.
    spec fn kind(&self) -> ErrorKind;

    /// The message of a failure of the kind `Custom`.
    spec fn message(&self) -> Seq<char>;

    /// The failure that `msg` describes.
    fn custom(msg: &str) -> (e: Self)
        ensures
            e.kind() == ErrorKind::Custom,
            e.message() == msg@,
    ;
}

/// The failure to write an integer that is wider than the codec computes
/// in: a custom failure, which says so.
pub fn widening_error<E: Error>() -> (e: E)
    ensures
        e.kind() == ErrorKind::Custom,
        e.message() == "integer is too large to encode"@,
{
    E::custom("integer is too large to encode")
}

/// `r` and the state `after` are what `want` lays down: the state behind the
/// value, or the kind of the failure.
pub open spec fn gives<S, E: Error>(r: Result<(), E>, after: S, want: Result<S, ErrorKind>) -> bool {
    match want {
        Ok(state) => r is Ok && after == state,
        Err(kind) => r is Err && r->Err_0.kind() == kind,
    }
}

/// `r` is the group of elements that `want` lays down, and `after` the state
/// behind its determinant.
pub open spec fn announces<S, E: Error>(
    r: Result<(usize, bool), E>,
    after: S,
    want: Result<((nat, bool), S), ErrorKind>,
) -> bool {
    match want {
        Ok((group, state)) => r is Ok && r->Ok_0.0 == group.0 && r->Ok_0.1 == group.1 && after
            == state,
        Err(kind) => r is Err && r->Err_0.kind() == kind,
    }
}

/// A format's encoder: one operation for each kind of value, each told the
/// tag to write. The state of an encoder is its view, and each operation is a
/// function of that state, which the `spec` function of the same name lays
/// down.
pub trait Encoder: Sized + View {
    type Error: Error;

    /// The state of an encoder for the members of a nested value.
    spec fn scope_spec(s: Self::V) -> Self::V;

    spec fn any_spec(s: Self::V, contents: Seq<u8>) -> Result<Self::V, ErrorKind>;

    spec fn bit_string_spec(s: Self::V, tag: Tag, value: Seq<bool>) -> Result<Self::V, ErrorKind>;

    spec fn bool_spec(s: Self::V, tag: Tag, value: bool) -> Result<Self::V, ErrorKind>;

    spec fn enumerated_spec(s: Self::V, tag: Tag, value: int, variants: nat) -> Result<
        Self::V,
        ErrorKind,
    >;

    spec fn integer_spec(s: Self::V, tag: Tag, value: int, constraints: Constraints) -> Result<
        Self::V,
        ErrorKind,
    >;

    spec fn null_spec(s: Self::V, tag: Tag) -> Result<Self::V, ErrorKind>;

    spec fn object_identifier_spec(s: Self::V, tag: Tag, arcs: Seq<u32>) -> Result<
        Self::V,
        ErrorKind,
    >;

    spec fn octet_string_spec(s: Self::V, tag: Tag, value: Seq<u8>) -> Result<Self::V, ErrorKind>;

    spec fn utf8_string_spec(s: Self::V, tag: Tag, value: Seq<char>) -> Result<Self::V, ErrorKind>;

    spec fn utc_time_spec(s: Self::V, tag: Tag, value: UtcTime) -> Result<Self::V, ErrorKind>;

    spec fn generalized_time_spec(s: Self::V, tag: Tag, value: GeneralizedTime) -> Result<Self::V, ErrorKind>;

    spec fn sequence_spec(s: Self::V, tag: Tag, members: Self::V) -> Result<Self::V, ErrorKind>;

    spec fn set_spec(s: Self::V, tag: Tag, members: Self::V) -> Result<Self::V, ErrorKind>;

    spec fn explicit_prefix_spec(s: Self::V, tag: Tag, inner: Self::V) -> Result<
        Self::V,
        ErrorKind,
    >;

    /// Of `count` elements still to write: the number that the next group
    /// holds, and whether another group follows it.
    spec fn sequence_of_spec(s: Self::V, tag: Tag, count: nat, constraints: Constraints) -> Result<
        ((nat, bool), Self::V),
        ErrorKind,
    >;

    spec fn set_of_spec(s: Self::V, tag: Tag, count: nat, constraints: Constraints) -> Result<
        ((nat, bool), Self::V),
        ErrorKind,
    >;

    /// An encoder of the same format that has written nothing, for the
    /// members of a nested value. The nested value is written once its
    /// members are, when their size is known.
    fn scope(&self) -> (r: Self)
        ensures
            r@ == Self::scope_spec(self@),
    ;

    /// Writes a value that is carried undecoded.
    fn encode_any(&mut self, value: &Any) -> (r: Result<(), Self::Error>)
        ensures
            gives(r, final(self)@, Self::any_spec(old(self)@, value.contents@)),
    ;

    /// Writes a bit string.
    fn encode_bit_string(&mut self, tag: Tag, value: &BitString) -> (r: Result<(), Self::Error>)
        ensures
            gives(r, final(self)@, Self::bit_string_spec(old(self)@, tag, value@)),
    ;

    /// Writes a boolean.
    fn encode_bool(&mut self, tag: Tag, value: bool) -> (r: Result<(), Self::Error>)
        ensures
            gives(r, final(self)@, Self::bool_spec(old(self)@, tag, value)),
    ;

    /// Writes the choice `value` of an enumeration of `variants` choices.
    fn encode_enumerated(&mut self, tag: Tag, value: isize, variants: usize) -> (r: Result<
        (),
        Self::Error,
    >)
        ensures
            gives(
                r,
                final(self)@,
                Self::enumerated_spec(old(self)@, tag, value as int, variants as nat),
            ),
    ;

    /// Writes an integer under `constraints`.
    fn encode_integer(&mut self, tag: Tag, value: &Integer, constraints: &Constraints) -> (r:
        Result<(), Self::Error>)
        ensures
            gives(r, final(self)@, Self::integer_spec(old(self)@, tag, value@, *constraints)),
    ;

    /// Writes the value without content.
    fn encode_null(&mut self, tag: Tag) -> (r: Result<(), Self::Error>)
        ensures
            gives(r, final(self)@, Self::null_spec(old(self)@, tag)),
    ;

    /// Writes the object identifier of the arcs `oid`.
    fn encode_object_identifier(&mut self, tag: Tag, oid: &[u32]) -> (r: Result<(), Self::Error>)
        ensures
            gives(r, final(self)@, Self::object_identifier_spec(old(self)@, tag, oid@)),
    ;

    /// Writes an octet string.
    fn encode_octet_string(&mut self, tag: Tag, value: &[u8]) -> (r: Result<(), Self::Error>)
        ensures
            gives(r, final(self)@, Self::octet_string_spec(old(self)@, tag, value@)),
    ;

    /// Writes a text.
    fn encode_utf8_string(&mut self, tag: Tag, value: &str) -> (r: Result<(), Self::Error>)
        ensures
            gives(r, final(self)@, Self::utf8_string_spec(old(self)@, tag, value@)),
    ;

    /// Writes a time to the minute.
    fn encode_utc_time(&mut self, tag: Tag, value: &UtcTime) -> (r: Result<(), Self::Error>)
        ensures
            gives(r, final(self)@, Self::utc_time_spec(old(self)@, tag, *value)),
    ;

    /// Writes a time to the thousandth of a second.
    fn encode_generalized_time(&mut self, tag: Tag, value: &GeneralizedTime) -> (r: Result<(), Self::Error>)
        ensures
            gives(r, final(self)@, Self::generalized_time_spec(old(self)@, tag, *value)),
    ;

    /// Writes a sequence whose members `members` holds.
    fn encode_sequence(&mut self, tag: Tag, members: &Self) -> (r: Result<(), Self::Error>)
        ensures
            gives(r, final(self)@, Self::sequence_spec(old(self)@, tag, members@)),
    ;

    /// Writes a set whose members `members` holds.
    fn encode_set(&mut self, tag: Tag, members: &Self) -> (r: Result<(), Self::Error>)
        ensures
            gives(r, final(self)@, Self::set_spec(old(self)@, tag, members@)),
    ;

    /// Writes the wrapper of an explicitly tagged value, which `inner` holds.
    fn encode_explicit_prefix(&mut self, tag: Tag, inner: &Self) -> (r: Result<(), Self::Error>)
        ensures
            gives(r, final(self)@, Self::explicit_prefix_spec(old(self)@, tag, inner@)),
    ;

    /// Announces the elements of a sequence, of which `count` are still to
    /// write: gives the number that the next group holds, and whether another
    /// group follows it.
    fn encode_sequence_of(&mut self, tag: Tag, count: usize, constraints: &Constraints) -> (r:
        Result<(usize, bool), Self::Error>)
        ensures
            announces(
                r,
                final(self)@,
                Self::sequence_of_spec(old(self)@, tag, count as nat, *constraints),
            ),
    ;

    /// Announces the elements of a set, as `encode_sequence_of` does those
    /// of a sequence.
    fn encode_set_of(&mut self, tag: Tag, count: usize, constraints: &Constraints) -> (r: Result<
        (usize, bool),
        Self::Error,
    >)
        ensures
            announces(
                r,
                final(self)@,
                Self::set_of_spec(old(self)@, tag, count as nat, *constraints),
            ),
    ;
}

/// A type that can be encoded in the format of `E`.
pub trait Encode<E: Encoder>: DeepView + AsnType {
    /// The state behind `value`, written under `tag` in the state `s`.
    spec fn encode_with_tag_spec(value: Self::V, s: E::V, tag: Tag) -> Result<E::V, ErrorKind>;

    /// The state behind `value`, written in the state `s`: for most types,
    /// under the type's own tag.
    spec fn encode_spec(value: Self::V, s: E::V) -> Result<E::V, ErrorKind>;

    /// Encodes the value under `tag`.
    fn encode_with_tag(&self, encoder: &mut E, tag: Tag) -> (r: Result<(), E::Error>)
        ensures
            gives(
                r,
                final(encoder)@,
                Self::encode_with_tag_spec(self.deep_view(), old(encoder)@, tag),
            ),
    ;

    /// Encodes the value. A type whose tag depends on the value, such as a
    /// choice, picks it here.
    fn encode(&self, encoder: &mut E) -> (r: Result<(), E::Error>)
        ensures
            gives(r, final(encoder)@, Self::encode_spec(self.deep_view(), old(encoder)@)),
    ;
}

impl<E: Encoder> Encode<E> for () {
    open spec fn encode_with_tag_spec(value: (), s: E::V, tag: Tag) -> Result<E::V, ErrorKind> {
        E::null_spec(s, tag)
    }

    open spec fn encode_spec(value: (), s: E::V) -> Result<E::V, ErrorKind> {
        E::null_spec(s, Self::tag_spec())
    }

    fn encode_with_tag(&self, encoder: &mut E, tag: Tag) -> (r: Result<(), E::Error>) {
        encoder.encode_null(tag)
    }

    fn encode(&self, encoder: &mut E) -> (r: Result<(), E::Error>) {
        encoder.encode_null(Self::tag())
    }
}

impl<E: Encoder> Encode<E> for bool {
    open spec fn encode_with_tag_spec(value: bool, s: E::V, tag: Tag) -> Result<E::V, ErrorKind> {
        E::bool_spec(s, tag, value)
    }

    open spec fn encode_spec(value: bool, s: E::V) -> Result<E::V, ErrorKind> {
        E::bool_spec(s, Self::tag_spec(), value)
    }

    fn encode_with_tag(&self, encoder: &mut E, tag: Tag) -> (r: Result<(), E::Error>) {
        encoder.encode_bool(tag, *self)
    }

    fn encode(&self, encoder: &mut E) -> (r: Result<(), E::Error>) {
        encoder.encode_bool(Self::tag(), *self)
    }
}

impl<E: Encoder, T: Encode<E>> Encode<E> for Option<T> {
    open spec fn encode_with_tag_spec(value: Option<T::V>, s: E::V, tag: Tag) -> Result<
        E::V,
        ErrorKind,
    > {
        match value {
            Some(inner) => T::encode_with_tag_spec(inner, s, tag),
            None => Ok(s),
        }
    }

    open spec fn encode_spec(value: Option<T::V>, s: E::V) -> Result<E::V, ErrorKind> {
        Self::encode_with_tag_spec(value, s, T::tag_spec())
    }

    fn encode_with_tag(&self, encoder: &mut E, tag: Tag) -> (r: Result<(), E::Error>) {
        match self {
            Some(inner) => inner.encode_with_tag(encoder, tag),
            None => Ok(()),
        }
    }

    fn encode(&self, encoder: &mut E) -> (r: Result<(), E::Error>) {
        self.encode_with_tag(encoder, T::tag())
    }
}

impl<E: Encoder> Encode<E> for Integer {
    open spec fn encode_with_tag_spec(value: int, s: E::V, tag: Tag) -> Result<E::V, ErrorKind> {
        E::integer_spec(s, tag, value, Constraints::unconstrained())
    }

    open spec fn encode_spec(value: int, s: E::V) -> Result<E::V, ErrorKind> {
        E::integer_spec(s, Self::tag_spec(), value, Constraints::unconstrained())
    }

    fn encode_with_tag(&self, encoder: &mut E, tag: Tag) -> (r: Result<(), E::Error>) {
        encoder.encode_integer(tag, self, &Constraints::none())
    }

    fn encode(&self, encoder: &mut E) -> (r: Result<(), E::Error>) {
        encoder.encode_integer(Self::tag(), self, &Constraints::none())
    }
}

/// The deep views of the elements of `values`.
pub open spec fn views<T: DeepView>(values: Seq<T>) -> Seq<T::V> {
    Seq::new(values.len(), |i: int| values[i].deep_view())
}

/// The state behind `values`, written one after the other in the state `s`.
pub open spec fn elements_spec<E: Encoder, T: Encode<E>>(values: Seq<T::V>, s: E::V) -> Result<
    E::V,
    ErrorKind,
>
    decreases values.len(),
{
    if values.len() == 0 {
        Ok(s)
    } else {
        match T::encode_spec(values[0], s) {
            Err(kind) => Err(kind),
            Ok(next) => elements_spec::<E, T>(values.skip(1), next),
        }
    }
}

/// What the format announces in the state `s` for `count` elements that
/// are still to write: the next group of the elements of a set, or of a
/// sequence.
pub open spec fn announced<E: Encoder>(
    s: E::V,
    tag: Tag,
    count: nat,
    constraints: Constraints,
    set: bool,
) -> Result<((nat, bool), E::V), ErrorKind> {
    if set {
        E::set_of_spec(s, tag, count, constraints)
    } else {
        E::sequence_of_spec(s, tag, count, constraints)
    }
}

/// The state behind the elements `values` of a sequence or a set, written
/// in the state `s`: group after group, each announced as the format lays
/// down, until the format announces no other. A format that announces more
/// elements than are left makes the encoding fail.
pub open spec fn collection_spec<E: Encoder, T: Encode<E>>(
    values: Seq<T::V>,
    s: E::V,
    tag: Tag,
    constraints: Constraints,
    set: bool,
) -> Result<E::V, ErrorKind>
    decreases values.len(),
{
    match announced::<E>(s, tag, values.len(), constraints, set) {
        Err(kind) => Err(kind),
        Ok((group, entered)) => if group.0 > values.len() {
            Err(ErrorKind::Custom)
        } else {
            match elements_spec::<E, T>(values.take(group.0 as int), entered) {
                Err(kind) => Err(kind),
                Ok(next) => if group.1 && group.0 > 0 {
                    collection_spec::<E, T>(
                        values.skip(group.0 as int),
                        next,
                        tag,
                        Constraints::unconstrained(),
                        set,
                    )
                } else {
                    Ok(next)
                },
            }
        },
    }
}

/// The state behind a sequence of `values`, written in the state `s`.
pub open spec fn sequence_of_spec<E: Encoder, T: Encode<E>>(
    values: Seq<T::V>,
    s: E::V,
    tag: Tag,
    constraints: Constraints,
) -> Result<E::V, ErrorKind> {
    collection_spec::<E, T>(values, s, tag, constraints, false)
}

/// The state behind a set whose elements are `values` in ascending order,
/// written in the state `s`.
pub open spec fn set_of_spec<E: Encoder, T: Encode<E>>(
    values: Seq<T::V>,
    s: E::V,
    tag: Tag,
    constraints: Constraints,
) -> Result<E::V, ErrorKind> {
    collection_spec::<E, T>(values, s, tag, constraints, true)
}

/// Encodes the elements `from .. to` of `values` one after the other.
pub fn encode_elements<E: Encoder, T: Encode<E>>(
    values: &[T],
    from: usize,
    to: usize,
    encoder: &mut E,
) -> (r: Result<(), E::Error>)
    requires
        from <= to <= values@.len(),
    ensures
        gives(
            r,
            final(encoder)@,
            elements_spec::<E, T>(
                views(values@).subrange(from as int, to as int),
                old(encoder)@,
            ),
        ),
{
    let mut i: usize = from;
    let ghost all = views(values@);
    let ghost goal = elements_spec::<E, T>(all.subrange(from as int, to as int), old(encoder)@);
    while i < to
        invariant
            from <= i <= to <= values@.len(),
            all == views(values@),
            goal == elements_spec::<E, T>(all.subrange(from as int, to as int), old(encoder)@),
            goal == elements_spec::<E, T>(all.subrange(i as int, to as int), encoder@),
        decreases to - i,
    {
        proof {
            let left = all.subrange(i as int, to as int);
            assert(left[0] == values@[i as int].deep_view());
            assert(left.skip(1) =~= all.subrange(i + 1, to as int));
        }
        match values[i].encode(encoder) {
            Ok(()) => {},
            Err(e) => {
                return Err(e);
            },
        }
        i = i + 1;
    }
    Ok(())
}

/// Encodes the elements `values` of a sequence, or of a set where `set`
/// holds, behind the determinants that announce them.
pub fn encode_collection<E: Encoder, T: Encode<E>>(
    values: &[T],
    encoder: &mut E,
    tag: Tag,
    constraints: &Constraints,
    set: bool,
) -> (r: Result<(), E::Error>)
    ensures
        gives(
            r,
            final(encoder)@,
            collection_spec::<E, T>(views(values@), old(encoder)@, tag, *constraints, set),
        ),
{
    let len = values.len();
    let mut done: usize = 0;
    let mut c: Constraints = *constraints;
    let mut more = true;
    let ghost all = views(values@);
    let ghost goal = collection_spec::<E, T>(all, old(encoder)@, tag, *constraints, set);
    assert(all.skip(0) =~= all);
    while more
        invariant
            done <= len == values@.len(),
            all == views(values@),
            goal == collection_spec::<E, T>(all, old(encoder)@, tag, *constraints, set),
            more ==> goal == collection_spec::<E, T>(all.skip(done as int), encoder@, tag, c, set),
            !more ==> goal == Ok::<E::V, ErrorKind>(encoder@),
        decreases
                (if more {
                    len - done + 1
                } else {
                    0
                }),
    {
        let ghost left = all.skip(done as int);
        let announced = if set {
            encoder.encode_set_of(tag, len - done, &c)
        } else {
            encoder.encode_sequence_of(tag, len - done, &c)
        };
        let (count, next) = match announced {
            Ok(group) => group,
            Err(e) => {
                return Err(e);
            },
        };
        if count > len - done {
            return Err(E::Error::custom("more elements announced than there are"));
        }
        proof {
            assert(left.take(count as int) =~= all.subrange(done as int, done + count));
            assert(left.skip(count as int) =~= all.skip(done + count));
        }
        match encode_elements::<E, T>(values, done, done + count, encoder) {
            Ok(()) => {},
            Err(e) => {
                return Err(e);
            },
        }
        if next && count > 0 {
            done = done + count;
            c = Constraints::none();
        } else {
            more = false;
        }
    }
    Ok(())
}

/// Encodes a sequence of `values` whose length is under `constraints`.
pub fn encode_sequence_of<E: Encoder, T: Encode<E>>(
    values: &[T],
    encoder: &mut E,
    tag: Tag,
    constraints: &Constraints,
) -> (r: Result<(), E::Error>)
    ensures
        gives(
            r,
            final(encoder)@,
            sequence_of_spec::<E, T>(views(values@), old(encoder)@, tag, *constraints),
        ),
{
    encode_collection::<E, T>(values, encoder, tag, constraints, false)
}

/// Encodes a set whose size is under `constraints`: its elements in
/// ascending order.
pub fn encode_set_of<E: Encoder, T: Encode<E> + SetElement>(
    values: &SetOf<T>,
    encoder: &mut E,
    tag: Tag,
    constraints: &Constraints,
) -> (r: Result<(), E::Error>)
    ensures
        gives(
            r,
            final(encoder)@,
            set_of_spec::<E, T>(values.deep_view(), old(encoder)@, tag, *constraints),
        ),
{
    let elements = values.as_slice();
    assert(views(elements@) =~= values.deep_view());
    encode_collection::<E, T>(elements, encoder, tag, constraints, true)
}

impl<E: Encoder, T: Encode<E>> Encode<E> for Vec<T> {
    open spec fn encode_with_tag_spec(value: Seq<T::V>, s: E::V, tag: Tag) -> Result<
        E::V,
        ErrorKind,
    > {
        sequence_of_spec::<E, T>(value, s, tag, Constraints::unconstrained())
    }

    open spec fn encode_spec(value: Seq<T::V>, s: E::V) -> Result<E::V, ErrorKind> {
        sequence_of_spec::<E, T>(
            value,
            s,
            Tag::universal(tag::SEQUENCE),
            Constraints::unconstrained(),
        )
    }

    fn encode_with_tag(&self, encoder: &mut E, tag: Tag) -> (r: Result<(), E::Error>) {
        assert(self.deep_view() =~= views(self@));
        encode_sequence_of::<E, T>(self.as_slice(), encoder, tag, &Constraints::none())
    }

    fn encode(&self, encoder: &mut E) -> (r: Result<(), E::Error>) {
        self.encode_with_tag(encoder, Tag::new_universal(tag::SEQUENCE))
    }
}

impl<E: Encoder> Encode<E> for OctetString {
    open spec fn encode_with_tag_spec(value: Seq<u8>, s: E::V, tag: Tag) -> Result<E::V, ErrorKind> {
        E::octet_string_spec(s, tag, value)
    }

    open spec fn encode_spec(value: Seq<u8>, s: E::V) -> Result<E::V, ErrorKind> {
        E::octet_string_spec(s, Tag::universal(tag::OCTET_STRING), value)
    }

    fn encode_with_tag(&self, encoder: &mut E, tag: Tag) -> (r: Result<(), E::Error>) {
        encoder.encode_octet_string(tag, self.bytes.as_slice())
    }

    fn encode(&self, encoder: &mut E) -> (r: Result<(), E::Error>) {
        self.encode_with_tag(encoder, Tag::new_universal(tag::OCTET_STRING))
    }
}

impl<E: Encoder> Encode<E> for Any {
    open spec fn encode_with_tag_spec(value: Seq<u8>, s: E::V, tag: Tag) -> Result<E::V, ErrorKind> {
        E::any_spec(s, value)
    }

    open spec fn encode_spec(value: Seq<u8>, s: E::V) -> Result<E::V, ErrorKind> {
        E::any_spec(s, value)
    }

    fn encode_with_tag(&self, encoder: &mut E, tag: Tag) -> (r: Result<(), E::Error>) {
        encoder.encode_any(self)
    }

    fn encode(&self, encoder: &mut E) -> (r: Result<(), E::Error>) {
        self.encode_with_tag(encoder, Tag::new_universal(tag::EOC))
    }
}

impl<E: Encoder> Encode<E> for BitString {
    open spec fn encode_with_tag_spec(value: Seq<bool>, s: E::V, tag: Tag) -> Result<E::V, ErrorKind> {
        E::bit_string_spec(s, tag, value)
    }

    open spec fn encode_spec(value: Seq<bool>, s: E::V) -> Result<E::V, ErrorKind> {
        E::bit_string_spec(s, Tag::universal(tag::BIT_STRING), value)
    }

    fn encode_with_tag(&self, encoder: &mut E, tag: Tag) -> (r: Result<(), E::Error>) {
        encoder.encode_bit_string(tag, self)
    }

    fn encode(&self, encoder: &mut E) -> (r: Result<(), E::Error>) {
        self.encode_with_tag(encoder, Tag::new_universal(tag::BIT_STRING))
    }
}

impl<E: Encoder> Encode<E> for String {
    open spec fn encode_with_tag_spec(value: Seq<char>, s: E::V, tag: Tag) -> Result<E::V, ErrorKind> {
        E::utf8_string_spec(s, tag, value)
    }

    open spec fn encode_spec(value: Seq<char>, s: E::V) -> Result<E::V, ErrorKind> {
        E::utf8_string_spec(s, Tag::universal(tag::UTF8_STRING), value)
    }

    fn encode_with_tag(&self, encoder: &mut E, tag: Tag) -> (r: Result<(), E::Error>) {
        encoder.encode_utf8_string(tag, self.as_str())
    }

    fn encode(&self, encoder: &mut E) -> (r: Result<(), E::Error>) {
        self.encode_with_tag(encoder, Tag::new_universal(tag::UTF8_STRING))
    }
}

impl<E: Encoder, T: AsnType, V: Encode<E>> Encode<E> for Implicit<T, V> {
    open spec fn encode_with_tag_spec(value: V::V, s: E::V, tag: Tag) -> Result<E::V, ErrorKind> {
        V::encode_with_tag_spec(value, s, tag)
    }

    open spec fn encode_spec(value: V::V, s: E::V) -> Result<E::V, ErrorKind> {
        V::encode_with_tag_spec(value, s, T::tag_spec())
    }

    fn encode_with_tag(&self, encoder: &mut E, tag: Tag) -> (r: Result<(), E::Error>) {
        self.value.encode_with_tag(encoder, tag)
    }

    fn encode(&self, encoder: &mut E) -> (r: Result<(), E::Error>) {
        self.value.encode_with_tag(encoder, T::tag())
    }
}

/// The state behind an explicitly tagged value: the value is written under
/// its own tag to an encoder of its own, and the wrapper around what that
/// encoder holds is written under `tag`.
pub open spec fn explicit_spec<E: Encoder, V: Encode<E>>(value: V::V, s: E::V, tag: Tag) -> Result<
    E::V,
    ErrorKind,
> {
    match V::encode_spec(value, E::scope_spec(s)) {
        Err(kind) => Err(kind),
        Ok(inner) => E::explicit_prefix_spec(s, tag, inner),
    }
}

impl<E: Encoder, T: AsnType, V: Encode<E>> Encode<E> for Explicit<T, V> {
    open spec fn encode_with_tag_spec(value: V::V, s: E::V, tag: Tag) -> Result<E::V, ErrorKind> {
        explicit_spec::<E, V>(value, s, tag)
    }

    open spec fn encode_spec(value: V::V, s: E::V) -> Result<E::V, ErrorKind> {
        explicit_spec::<E, V>(value, s, T::tag_spec())
    }

    fn encode_with_tag(&self, encoder: &mut E, tag: Tag) -> (r: Result<(), E::Error>) {
        let mut inner = encoder.scope();
        match self.value.encode(&mut inner) {
            Ok(()) => encoder.encode_explicit_prefix(tag, &inner),
            Err(e) => Err(e),
        }
    }

    fn encode(&self, encoder: &mut E) -> (r: Result<(), E::Error>) {
        self.encode_with_tag(encoder, T::tag())
    }
}

impl<E: Encoder, T: Encode<E> + SetElement> Encode<E> for SetOf<T> {
    open spec fn encode_with_tag_spec(value: Seq<T::V>, s: E::V, tag: Tag) -> Result<
        E::V,
        ErrorKind,
    > {
        set_of_spec::<E, T>(value, s, tag, Constraints::unconstrained())
    }

    open spec fn encode_spec(value: Seq<T::V>, s: E::V) -> Result<E::V, ErrorKind> {
        set_of_spec::<E, T>(value, s, Tag::universal(tag::SET), Constraints::unconstrained())
    }

    fn encode_with_tag(&self, encoder: &mut E, tag: Tag) -> (r: Result<(), E::Error>) {
        encode_set_of::<E, T>(self, encoder, tag, &Constraints::none())
    }

    fn encode(&self, encoder: &mut E) -> (r: Result<(), E::Error>) {
        self.encode_with_tag(encoder, Tag::new_universal(tag::SET))
    }
}

impl<E: Encoder> Encode<E> for Open {
    open spec fn encode_with_tag_spec(value: (Tag, Seq<u8>), s: E::V, tag: Tag) -> Result<
        E::V,
        ErrorKind,
    > {
        E::any_spec(s, value.1)
    }

    open spec fn encode_spec(value: (Tag, Seq<u8>), s: E::V) -> Result<E::V, ErrorKind> {
        E::any_spec(s, value.1)
    }

    fn encode_with_tag(&self, encoder: &mut E, tag: Tag) -> (r: Result<(), E::Error>) {
        encoder.encode_any(&self.value)
    }

    fn encode(&self, encoder: &mut E) -> (r: Result<(), E::Error>) {
        encoder.encode_any(&self.value)
    }
}

/// The state behind the open values `entries`, written one after the other
/// in the state `s`, each as the octets that it was read as.
pub open spec fn opens_spec<E: Encoder>(entries: Seq<(Tag, Seq<u8>)>, s: E::V) -> Result<
    E::V,
    ErrorKind,
>
    decreases entries.len(),
{
    if entries.len() == 0 {
        Ok(s)
    } else {
        match E::any_spec(s, entries[0].1) {
            Err(kind) => Err(kind),
            Ok(next) => opens_spec::<E>(entries.skip(1), next),
        }
    }
}

/// The state behind a map of open values: a sequence that holds the values
/// in the order of their tags.
pub open spec fn tag_map_spec<E: Encoder>(entries: Seq<(Tag, Seq<u8>)>, s: E::V, tag: Tag)
    -> Result<E::V, ErrorKind> {
    match opens_spec::<E>(entries, E::scope_spec(s)) {
        Err(kind) => Err(kind),
        Ok(members) => E::sequence_spec(s, tag, members),
    }
}

impl<E: Encoder> Encode<E> for TagMap {
    open spec fn encode_with_tag_spec(value: Seq<(Tag, Seq<u8>)>, s: E::V, tag: Tag) -> Result<
        E::V,
        ErrorKind,
    > {
        tag_map_spec::<E>(value, s, tag)
    }

    open spec fn encode_spec(value: Seq<(Tag, Seq<u8>)>, s: E::V) -> Result<E::V, ErrorKind> {
        tag_map_spec::<E>(value, s, Tag::universal(tag::SEQUENCE))
    }

    fn encode_with_tag(&self, encoder: &mut E, tag: Tag) -> (r: Result<(), E::Error>) {
        let mut members = encoder.scope();
        let len = self.len();
        let mut i: usize = 0;
        let ghost all = self.deep_view();
        let ghost goal = opens_spec::<E>(all, members@);
        assert(all.skip(0) =~= all);
        while i < len
            invariant
                i <= len == all.len(),
                all == self.deep_view(),
                goal == opens_spec::<E>(all, E::scope_spec(old(encoder)@)),
                goal == opens_spec::<E>(all.skip(i as int), members@),
                encoder@ == old(encoder)@,
            decreases len - i,
        {
            proof {
                let left = all.skip(i as int);
                assert(left[0] == all[i as int]);
                assert(left.skip(1) =~= all.skip(i + 1));
            }
            match members.encode_any(&self.entry(i).value) {
                Ok(()) => {},
                Err(e) => {
                    return Err(e);
                },
            }
            i = i + 1;
        }
        encoder.encode_sequence(tag, &members)
    }

    fn encode(&self, encoder: &mut E) -> (r: Result<(), E::Error>) {
        self.encode_with_tag(encoder, Tag::new_universal(tag::SEQUENCE))
    }
}

impl<E: Encoder> Encode<E> for ObjectIdentifier {
    open spec fn encode_with_tag_spec(value: Seq<u32>, s: E::V, tag: Tag) -> Result<
        E::V,
        ErrorKind,
    > {
        E::object_identifier_spec(s, tag, value)
    }

    open spec fn encode_spec(value: Seq<u32>, s: E::V) -> Result<E::V, ErrorKind> {
        E::object_identifier_spec(s, Tag::universal(tag::OBJECT_IDENTIFIER), value)
    }

    fn encode_with_tag(&self, encoder: &mut E, tag: Tag) -> (r: Result<(), E::Error>) {
        encoder.encode_object_identifier(tag, self.arcs())
    }

    fn encode(&self, encoder: &mut E) -> (r: Result<(), E::Error>) {
        self.encode_with_tag(encoder, Tag::new_universal(tag::OBJECT_IDENTIFIER))
    }
}

impl<E: Encoder> Encode<E> for UtcTime {
    open spec fn encode_with_tag_spec(value: UtcTime, s: E::V, tag: Tag) -> Result<E::V, ErrorKind> {
        E::utc_time_spec(s, tag, value)
    }

    open spec fn encode_spec(value: UtcTime, s: E::V) -> Result<E::V, ErrorKind> {
        E::utc_time_spec(s, Tag::universal(tag::UTC_TIME), value)
    }

    fn encode_with_tag(&self, encoder: &mut E, tag: Tag) -> (r: Result<(), E::Error>) {
        encoder.encode_utc_time(tag, self)
    }

    fn encode(&self, encoder: &mut E) -> (r: Result<(), E::Error>) {
        encoder.encode_utc_time(Tag::new_universal(tag::UTC_TIME), self)
    }
}

impl<E: Encoder> Encode<E> for GeneralizedTime {
    open spec fn encode_with_tag_spec(value: GeneralizedTime, s: E::V, tag: Tag) -> Result<E::V, ErrorKind> {
        E::generalized_time_spec(s, tag, value)
    }

    open spec fn encode_spec(value: GeneralizedTime, s: E::V) -> Result<E::V, ErrorKind> {
        E::generalized_time_spec(s, Tag::universal(tag::GENERALIZED_TIME), value)
    }

    fn encode_with_tag(&self, encoder: &mut E, tag: Tag) -> (r: Result<(), E::Error>) {
        encoder.encode_generalized_time(tag, self)
    }

    fn encode(&self, encoder: &mut E) -> (r: Result<(), E::Error>) {
        encoder.encode_generalized_time(Tag::new_universal(tag::GENERALIZED_TIME), self)
    }
}

} // verus!
