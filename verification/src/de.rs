//! Decoding: what a data type asks of a format, and what a format offers.

mod numbers;

use crate::bits::BitString;
use crate::constraints::Constraints;
use crate::error::ErrorKind;
use crate::integer::Integer;
use crate::oid::ObjectIdentifier;
use crate::set_of::{by_key, SetElement, SetOf};
use crate::sorted::{arranged, lemma_placed_all_concat, placed_all};
use crate::tag::{self, Tag};
use crate::tag_map::{by_tag, Open, TagMap};
use crate::time::{GeneralizedTime, UtcTime};
use crate::types::{Any, AsnType, Explicit, Implicit, OctetString};
use vstd::prelude::*;

verus! {

/// What a format's decoder reports. Code that serves every format can fail
/// only through `custom`.
pub trait Error: Sized {
    /// The kind of the failure.
    spec fn kind(&self) -> ErrorKind;

    /// The message of a failure of the kind `Custom`.
    spec fn message(&self) -> Seq<char>;

    /// The failure that `msg` describes.
    fn custom(msg: &str) -> (e: Self)
        ensures
            e.kind() == ErrorKind::Custom,
            e.message() == msg@,
    ;
}

/// The failure of a narrowing: a custom failure, which says that the
/// integer does not fit.
pub fn narrowing_error<E: Error>() -> (e: E)
    ensures
        e.kind() == ErrorKind::Custom,
        e.message() == "integer does not fit the target type"@,
{
    E::custom("integer does not fit the target type")
}

/// `r` and the state `after` are what `want` lays down: the value and the
/// state behind it, or the kind of the failure.
pub open spec fn yields<T: DeepView, S, E: Error>(
    r: Result<T, E>,
    after: S,
    want: Result<(T::V, S), ErrorKind>,
) -> bool {
    match want {
        Ok((value, state)) => r is Ok && r->Ok_0.deep_view() == value && after == state,
        Err(kind) => r is Err && r->Err_0.kind() == kind,
    }
}

/// `r` is the decoder of a nested value, and `after` the state behind that
/// value, as `want` lays them down.
pub open spec fn enters<D: View, E: Error>(
    r: Result<D, E>,
    after: D::V,
    want: Result<(D::V, D::V), ErrorKind>,
) -> bool {
    match want {
        Ok((scope, state)) => r is Ok && r->Ok_0@ == scope && after == state,
        Err(kind) => r is Err && r->Err_0.kind() == kind,
    }
}

/// `r` is the group of elements that `want` lays down, and `after` the state
/// behind its determinant.
pub open spec fn announces<S, E: Error>(
    r: Result<(usize, bool), E>,
    after: S,
    want: Result<((nat, bool), S), ErrorKind>,
) -> bool {
    match want {
        Ok((group, state)) => r is Ok && r->Ok_0.0 == group.0 && r->Ok_0.1 == group.1 && after
            == state,
        Err(kind) => r is Err && r->Err_0.kind() == kind,
    }
}

/// A format's decoder: one operation for each kind of value, each told the
/// tag to expect. The state of a decoder is its view, and each operation is a
/// function of that state, which the `spec` function of the same name lays
/// down.
pub trait Decoder: Sized + View {
    type Error: Error;

    /// A bound on the input that is left, by which loops over the input end.
    spec fn remaining_spec(s: Self::V) -> nat;

    spec fn peek_tag_spec(s: Self::V) -> Result<Tag, ErrorKind>;

    spec fn any_spec(s: Self::V, tag: Tag) -> Result<(Seq<u8>, Self::V), ErrorKind>;

    spec fn bit_string_spec(s: Self::V, tag: Tag) -> Result<(Seq<bool>, Self::V), ErrorKind>;

    spec fn bool_spec(s: Self::V, tag: Tag) -> Result<(bool, Self::V), ErrorKind>;

    spec fn enumerated_spec(s: Self::V, tag: Tag, variants: nat) -> Result<
        (int, Self::V),
        ErrorKind,
    >;

    spec fn integer_spec(s: Self::V, tag: Tag, constraints: Constraints) -> Result<
        (int, Self::V),
        ErrorKind,
    >;

    spec fn null_spec(s: Self::V, tag: Tag) -> Result<((), Self::V), ErrorKind>;

    spec fn object_identifier_spec(s: Self::V, tag: Tag) -> Result<(Seq<u32>, Self::V), ErrorKind>;

    spec fn octet_string_spec(s: Self::V, tag: Tag) -> Result<(Seq<u8>, Self::V), ErrorKind>;

    spec fn utf8_string_spec(s: Self::V, tag: Tag) -> Result<(Seq<char>, Self::V), ErrorKind>;

    spec fn utc_time_spec(s: Self::V, tag: Tag) -> Result<(UtcTime, Self::V), ErrorKind>;

    spec fn generalized_time_spec(s: Self::V, tag: Tag) -> Result<(GeneralizedTime, Self::V), ErrorKind>;

    /// The state of the decoder of the nested value, and the state behind
    /// the value.
    spec fn sequence_spec(s: Self::V, tag: Tag) -> Result<(Self::V, Self::V), ErrorKind>;

    spec fn set_spec(s: Self::V, tag: Tag) -> Result<(Self::V, Self::V), ErrorKind>;

    spec fn explicit_prefix_spec(s: Self::V, tag: Tag) -> Result<(Self::V, Self::V), ErrorKind>;

    /// The number of elements that follow, and whether another group of
    /// elements follows them.
    spec fn sequence_of_spec(s: Self::V, tag: Tag, constraints: Constraints) -> Result<
        ((nat, bool), Self::V),
        ErrorKind,
    >;

    spec fn set_of_spec(s: Self::V, tag: Tag, constraints: Constraints) -> Result<
        ((nat, bool), Self::V),
        ErrorKind,
    >;

    /// Computes `remaining_spec`.
    fn remaining(&self) -> (n: usize)
        ensures
            n == Self::remaining_spec(self@),
    ;

    /// The next tag, which stays unread.
    fn peek_tag(&self) -> (r: Result<Tag, Self::Error>)
        ensures
            match Self::peek_tag_spec(self@) {
                Ok(tag) => r is Ok && r->Ok_0 == tag,
                Err(kind) => r is Err && r->Err_0.kind() == kind,
            },
    ;

    /// Reads a value of a type that the reader does not know, as the octets
    /// that hold it.
    fn decode_any(&mut self, tag: Tag) -> (r: Result<Vec<u8>, Self::Error>)
        ensures
            yields(r, final(self)@, Self::any_spec(old(self)@, tag)),
    ;

    /// Reads a bit string.
    fn decode_bit_string(&mut self, tag: Tag) -> (r: Result<BitString, Self::Error>)
        ensures
            yields(r, final(self)@, Self::bit_string_spec(old(self)@, tag)),
    ;

    /// Reads a boolean.
    fn decode_bool(&mut self, tag: Tag) -> (r: Result<bool, Self::Error>)
        ensures
            yields(r, final(self)@, Self::bool_spec(old(self)@, tag)),
    ;

    /// Reads the choice of an enumeration of `variants` choices.
    fn decode_enumerated(&mut self, tag: Tag, variants: usize) -> (r: Result<
        Integer,
        Self::Error,
    >)
        ensures
            yields(r, final(self)@, Self::enumerated_spec(old(self)@, tag, variants as nat)),
    ;

    /// Reads an integer under `constraints`.
    fn decode_integer(&mut self, tag: Tag, constraints: &Constraints) -> (r: Result<
        Integer,
        Self::Error,
    >)
        ensures
            yields(r, final(self)@, Self::integer_spec(old(self)@, tag, *constraints)),
    ;

    /// Reads the value without content.
    fn decode_null(&mut self, tag: Tag) -> (r: Result<(), Self::Error>)
        ensures
            yields(r, final(self)@, Self::null_spec(old(self)@, tag)),
    ;

    /// Reads an object identifier.
    fn decode_object_identifier(&mut self, tag: Tag) -> (r: Result<ObjectIdentifier, Self::Error>)
        ensures
            yields(r, final(self)@, Self::object_identifier_spec(old(self)@, tag)),
    ;

    /// Reads an octet string.
    fn decode_octet_string(&mut self, tag: Tag) -> (r: Result<Vec<u8>, Self::Error>)
        ensures
            yields(r, final(self)@, Self::octet_string_spec(old(self)@, tag)),
    ;

    /// Reads a text.
    fn decode_utf8_string(&mut self, tag: Tag) -> (r: Result<String, Self::Error>)
        ensures
            yields(r, final(self)@, Self::utf8_string_spec(old(self)@, tag)),
    ;

    /// Reads a time to the minute.
    fn decode_utc_time(&mut self, tag: Tag) -> (r: Result<UtcTime, Self::Error>)
        ensures
            yields(r, final(self)@, Self::utc_time_spec(old(self)@, tag)),
    ;

    /// Reads a time to the thousandth of a second.
    fn decode_generalized_time(&mut self, tag: Tag) -> (r: Result<GeneralizedTime, Self::Error>)
        ensures
            yields(r, final(self)@, Self::generalized_time_spec(old(self)@, tag)),
    ;

    /// Enters a sequence: gives the decoder of its members, which cannot
    /// read past its end, and leaves this decoder behind the sequence.
    fn decode_sequence(&mut self, tag: Tag) -> (r: Result<Self, Self::Error>)
        ensures
            enters(r, final(self)@, Self::sequence_spec(old(self)@, tag)),
    ;

    /// Enters a set, as `decode_sequence` enters a sequence.
    fn decode_set(&mut self, tag: Tag) -> (r: Result<Self, Self::Error>)
        ensures
            enters(r, final(self)@, Self::set_spec(old(self)@, tag)),
    ;

    /// Enters the wrapper of an explicitly tagged value: gives the decoder
    /// of the value inside, and leaves this decoder behind the wrapper.
    fn decode_explicit_prefix(&mut self, tag: Tag) -> (r: Result<Self, Self::Error>)
        ensures
            enters(r, final(self)@, Self::explicit_prefix_spec(old(self)@, tag)),
    ;

    /// Reads how many elements of a sequence follow, and whether another
    /// group of elements follows them.
    fn decode_sequence_of(&mut self, tag: Tag, constraints: &Constraints) -> (r: Result<
        (usize, bool),
        Self::Error,
    >)
        ensures
            announces(r, final(self)@, Self::sequence_of_spec(old(self)@, tag, *constraints)),
    ;

    /// Reads how many elements of a set follow, and whether another group of
    /// elements follows them.
    fn decode_set_of(&mut self, tag: Tag, constraints: &Constraints) -> (r: Result<
        (usize, bool),
        Self::Error,
    >)
        ensures
            announces(r, final(self)@, Self::set_of_spec(old(self)@, tag, *constraints)),
    ;
}

/// A type that can be decoded from the format of `D`.
pub trait Decode<D: Decoder>: Sized + DeepView + AsnType {
    /// What decoding under `tag` gives in the state `s`.
    spec fn decode_with_tag_spec(s: D::V, tag: Tag) -> Result<(Self::V, D::V), ErrorKind>;

    /// What decoding gives in the state `s`: for most types, what decoding
    /// under the type's own tag gives.
    spec fn decode_spec(s: D::V) -> Result<(Self::V, D::V), ErrorKind>;

    /// Decodes a value that is tagged with `tag`.
    fn decode_with_tag(decoder: &mut D, tag: Tag) -> (r: Result<Self, D::Error>)
        ensures
            yields(r, final(decoder)@, Self::decode_with_tag_spec(old(decoder)@, tag)),
    ;

    /// Decodes a value. A type whose tag only the input shows, such as a
    /// choice, reads it here.
    fn decode(decoder: &mut D) -> (r: Result<Self, D::Error>)
        ensures
            yields(r, final(decoder)@, Self::decode_spec(old(decoder)@)),
    ;
}

impl<D: Decoder> Decode<D> for () {
    open spec fn decode_with_tag_spec(s: D::V, tag: Tag) -> Result<((), D::V), ErrorKind> {
        D::null_spec(s, tag)
    }

    open spec fn decode_spec(s: D::V) -> Result<((), D::V), ErrorKind> {
        D::null_spec(s, Self::tag_spec())
    }

    fn decode_with_tag(decoder: &mut D, tag: Tag) -> (r: Result<Self, D::Error>) {
        decoder.decode_null(tag)
    }

    fn decode(decoder: &mut D) -> (r: Result<Self, D::Error>) {
        decoder.decode_null(Self::tag())
    }
}

impl<D: Decoder> Decode<D> for bool {
    open spec fn decode_with_tag_spec(s: D::V, tag: Tag) -> Result<(bool, D::V), ErrorKind> {
        D::bool_spec(s, tag)
    }

    open spec fn decode_spec(s: D::V) -> Result<(bool, D::V), ErrorKind> {
        D::bool_spec(s, Self::tag_spec())
    }

    fn decode_with_tag(decoder: &mut D, tag: Tag) -> (r: Result<Self, D::Error>) {
        decoder.decode_bool(tag)
    }

    fn decode(decoder: &mut D) -> (r: Result<Self, D::Error>) {
        decoder.decode_bool(Self::tag())
    }
}

/// What decoding an optional value under `tag` gives: where the next tag is
/// `tag`, the value that `inner` lays down; else nothing, and the state as it
/// was.
pub open spec fn optional_spec<V, S>(
    peeked: Result<Tag, ErrorKind>,
    tag: Tag,
    inner: Result<(V, S), ErrorKind>,
    s: S,
) -> Result<(Option<V>, S), ErrorKind> {
    if peeked == Ok::<Tag, ErrorKind>(tag) {
        match inner {
            Ok((value, state)) => Ok((Some(value), state)),
            Err(kind) => Err(kind),
        }
    } else {
        Ok((None, s))
    }
}

impl<D: Decoder, T: Decode<D>> Decode<D> for Option<T> {
    open spec fn decode_with_tag_spec(s: D::V, tag: Tag) -> Result<(Option<T::V>, D::V), ErrorKind> {
        optional_spec(D::peek_tag_spec(s), tag, T::decode_with_tag_spec(s, tag), s)
    }

    open spec fn decode_spec(s: D::V) -> Result<(Option<T::V>, D::V), ErrorKind> {
        Self::decode_with_tag_spec(s, T::tag_spec())
    }

    fn decode_with_tag(decoder: &mut D, tag: Tag) -> (r: Result<Self, D::Error>) {
        let present = match decoder.peek_tag() {
            Ok(found) => found.same(&tag),
            Err(_) => false,
        };
        if present {
            match T::decode_with_tag(decoder, tag) {
                Ok(value) => Ok(Some(value)),
                Err(e) => Err(e),
            }
        } else {
            Ok(None)
        }
    }

    fn decode(decoder: &mut D) -> (r: Result<Self, D::Error>) {
        Self::decode_with_tag(decoder, T::tag())
    }
}

impl<D: Decoder> Decode<D> for Integer {
    open spec fn decode_with_tag_spec(s: D::V, tag: Tag) -> Result<(int, D::V), ErrorKind> {
        D::integer_spec(s, tag, Constraints::unconstrained())
    }

    open spec fn decode_spec(s: D::V) -> Result<(int, D::V), ErrorKind> {
        D::integer_spec(s, Self::tag_spec(), Constraints::unconstrained())
    }

    fn decode_with_tag(decoder: &mut D, tag: Tag) -> (r: Result<Self, D::Error>) {
        decoder.decode_integer(tag, &Constraints::none())
    }

    fn decode(decoder: &mut D) -> (r: Result<Self, D::Error>) {
        decoder.decode_integer(Self::tag(), &Constraints::none())
    }
}

/// The values read so far, before what the rest of the input gives.
pub open spec fn after<V, S>(done: Seq<V>, rest: Result<(Seq<V>, S), ErrorKind>) -> Result<
    (Seq<V>, S),
    ErrorKind,
> {
    match rest {
        Ok((more, state)) => Ok((done + more, state)),
        Err(kind) => Err(kind),
    }
}

/// What decoding `n` values of `T` one after the other gives in the state
/// `s`.
pub open spec fn elements_spec<D: Decoder, T: Decode<D>>(s: D::V, n: nat) -> Result<
    (Seq<T::V>, D::V),
    ErrorKind,
>
    decreases n,
{
    if n == 0 {
        Ok((Seq::empty(), s))
    } else {
        match T::decode_spec(s) {
            Err(kind) => Err(kind),
            Ok((first, next)) => after(seq![first], elements_spec::<D, T>(next, (n - 1) as nat)),
        }
    }
}

/// What the format announces in the state `s`: the next group of the
/// elements of a set, or of a sequence.
pub open spec fn announced<D: Decoder>(s: D::V, tag: Tag, constraints: Constraints, set: bool)
    -> Result<((nat, bool), D::V), ErrorKind> {
    if set {
        D::set_of_spec(s, tag, constraints)
    } else {
        D::sequence_of_spec(s, tag, constraints)
    }
}

/// What decoding the elements of a sequence or a set of `T` gives in the
/// state `s`: group after group, each announced by the format, until the
/// format announces no other. A group that leaves no less input than there
/// was ends the elements.
pub open spec fn collection_spec<D: Decoder, T: Decode<D>>(
    s: D::V,
    tag: Tag,
    constraints: Constraints,
    set: bool,
) -> Result<(Seq<T::V>, D::V), ErrorKind>
    decreases D::remaining_spec(s),
{
    match announced::<D>(s, tag, constraints, set) {
        Err(kind) => Err(kind),
        Ok((group, entered)) => match elements_spec::<D, T>(entered, group.0) {
            Err(kind) => Err(kind),
            Ok((items, next)) => if group.1 && D::remaining_spec(next) < D::remaining_spec(s) {
                after(
                    items,
                    collection_spec::<D, T>(next, tag, Constraints::unconstrained(), set),
                )
            } else {
                Ok((items, next))
            },
        },
    }
}

/// What decoding a sequence of `T` gives in the state `s`.
pub open spec fn sequence_of_spec<D: Decoder, T: Decode<D>>(
    s: D::V,
    tag: Tag,
    constraints: Constraints,
) -> Result<(Seq<T::V>, D::V), ErrorKind> {
    collection_spec::<D, T>(s, tag, constraints, false)
}

/// What decoding a set of `T` gives in the state `s`: its elements in
/// ascending order, each once, in whatever order the input has them.
pub open spec fn set_of_spec<D: Decoder, T: Decode<D> + SetElement>(
    s: D::V,
    tag: Tag,
    constraints: Constraints,
) -> Result<(Seq<T::V>, D::V), ErrorKind> {
    match collection_spec::<D, T>(s, tag, constraints, true) {
        Err(kind) => Err(kind),
        Ok((items, next)) => Ok((arranged(items, by_key::<T>()), next)),
    }
}

/// The deep view of a vector after a push.
pub proof fn lemma_deep_view_push<T: DeepView>(before: Vec<T>, now: Vec<T>, value: T)
    requires
        now@ == before@.push(value),
    ensures
        now.deep_view() == before.deep_view().push(value.deep_view()),
{
    assert(now.deep_view() =~= before.deep_view().push(value.deep_view()));
}

/// Decodes `n` values of `T` one after the other and appends them to
/// `items`.
pub fn decode_elements<D: Decoder, T: Decode<D>>(decoder: &mut D, n: usize, items: &mut Vec<T>) -> (r:
    Result<(), D::Error>)
    ensures
        match elements_spec::<D, T>(old(decoder)@, n as nat) {
            Ok((values, state)) => r is Ok && final(items).deep_view() == old(items).deep_view()
                + values && final(decoder)@ == state,
            Err(kind) => r is Err && r->Err_0.kind() == kind,
        },
{
    let mut i: usize = 0;
    let ghost goal = elements_spec::<D, T>(old(decoder)@, n as nat);
    let ghost base = old(items).deep_view();
    let ghost mut done: Seq<T::V> = Seq::empty();
    assert(base + done =~= base);
    while i < n
        invariant
            i <= n,
            goal == elements_spec::<D, T>(old(decoder)@, n as nat),
            base == old(items).deep_view(),
            goal == after(done, elements_spec::<D, T>(decoder@, (n - i) as nat)),
            items.deep_view() == base + done,
        decreases n - i,
    {
        let ghost held = *items;
        let value = match T::decode(decoder) {
            Ok(value) => value,
            Err(e) => {
                return Err(e);
            },
        };
        proof {
            let first = value.deep_view();
            let rest = elements_spec::<D, T>(decoder@, (n - i - 1) as nat);
            if rest is Ok {
                assert(done + (seq![first] + rest->Ok_0.0) =~= done.push(first) + rest->Ok_0.0);
            }
            done = done.push(first);
        }
        items.push(value);
        proof {
            lemma_deep_view_push(held, *items, value);
            assert(base + done =~= held.deep_view().push(value.deep_view()));
        }
        i = i + 1;
    }
    proof {
        assert(done + Seq::<T::V>::empty() =~= done);
    }
    Ok(())
}

/// Decodes a sequence of `T` whose length is under `constraints`.
pub fn decode_sequence_of<D: Decoder, T: Decode<D>>(
    decoder: &mut D,
    tag: Tag,
    constraints: &Constraints,
) -> (r: Result<Vec<T>, D::Error>)
    ensures
        yields(r, final(decoder)@, sequence_of_spec::<D, T>(old(decoder)@, tag, *constraints)),
{
    let mut items: Vec<T> = Vec::new();
    let mut c: Constraints = *constraints;
    let mut more = true;
    let ghost goal = collection_spec::<D, T>(old(decoder)@, tag, *constraints, false);
    assert(items.deep_view() =~= Seq::<T::V>::empty());
    while more
        invariant
            goal == collection_spec::<D, T>(old(decoder)@, tag, *constraints, false),
            more ==> goal == after(
                items.deep_view(),
                collection_spec::<D, T>(decoder@, tag, c, false),
            ),
            !more ==> goal == Ok::<(Seq<T::V>, D::V), ErrorKind>((items.deep_view(), decoder@)),
        decreases
                (if more {
                    D::remaining_spec(decoder@) + 1
                } else {
                    0
                }),
    {
        let before = decoder.remaining();
        let ghost state = decoder@;
        let ghost held = items.deep_view();
        let (count, next) = match decoder.decode_sequence_of(tag, &c) {
            Ok(group) => group,
            Err(e) => {
                return Err(e);
            },
        };
        match decode_elements::<D, T>(decoder, count, &mut items) {
            Ok(()) => {},
            Err(e) => {
                return Err(e);
            },
        }
        proof {
            let group = announced::<D>(state, tag, c, false)->Ok_0;
            let read = elements_spec::<D, T>(group.1, (group.0).0)->Ok_0;
            let rest = collection_spec::<D, T>(
                decoder@,
                tag,
                Constraints::unconstrained(),
                false,
            );
            assert(decoder@ == read.1);
            assert(items.deep_view() == held + read.0);
            if rest is Ok {
                assert(held + (read.0 + rest->Ok_0.0) =~= items.deep_view() + rest->Ok_0.0);
            }
            if next && D::remaining_spec(decoder@) < D::remaining_spec(state) {
                assert(collection_spec::<D, T>(state, tag, c, false) == after(read.0, rest));
            } else {
                assert(collection_spec::<D, T>(state, tag, c, false) == Ok::<
                    (Seq<T::V>, D::V),
                    ErrorKind,
                >((read.0, decoder@)));
            }
        }
        if next && decoder.remaining() < before {
            c = Constraints::none();
        } else {
            more = false;
        }
    }
    Ok(items)
}

impl<D: Decoder, T: Decode<D>> Decode<D> for Vec<T> {
    open spec fn decode_with_tag_spec(s: D::V, tag: Tag) -> Result<(Seq<T::V>, D::V), ErrorKind> {
        sequence_of_spec::<D, T>(s, tag, Constraints::unconstrained())
    }

    open spec fn decode_spec(s: D::V) -> Result<(Seq<T::V>, D::V), ErrorKind> {
        sequence_of_spec::<D, T>(s, Tag::universal(tag::SEQUENCE), Constraints::unconstrained())
    }

    fn decode_with_tag(decoder: &mut D, tag: Tag) -> (r: Result<Self, D::Error>) {
        decode_sequence_of::<D, T>(decoder, tag, &Constraints::none())
    }

    fn decode(decoder: &mut D) -> (r: Result<Self, D::Error>) {
        decode_sequence_of::<D, T>(decoder, Tag::new_universal(tag::SEQUENCE), &Constraints::none())
    }
}

impl<D: Decoder> Decode<D> for OctetString {
    open spec fn decode_with_tag_spec(s: D::V, tag: Tag) -> Result<(Seq<u8>, D::V), ErrorKind> {
        D::octet_string_spec(s, tag)
    }

    open spec fn decode_spec(s: D::V) -> Result<(Seq<u8>, D::V), ErrorKind> {
        D::octet_string_spec(s, Tag::universal(tag::OCTET_STRING))
    }

    fn decode_with_tag(decoder: &mut D, tag: Tag) -> (r: Result<Self, D::Error>) {
        match decoder.decode_octet_string(tag) {
            Ok(value) => {
                assert(value.deep_view() =~= value@);
                Ok(OctetString::from(value))
            },
            Err(e) => Err(e),
        }
    }

    fn decode(decoder: &mut D) -> (r: Result<Self, D::Error>) {
        Self::decode_with_tag(decoder, Tag::new_universal(tag::OCTET_STRING))
    }
}

impl<D: Decoder> Decode<D> for Any {
    open spec fn decode_with_tag_spec(s: D::V, tag: Tag) -> Result<(Seq<u8>, D::V), ErrorKind> {
        D::any_spec(s, tag)
    }

    open spec fn decode_spec(s: D::V) -> Result<(Seq<u8>, D::V), ErrorKind> {
        D::any_spec(s, Tag::universal(tag::EOC))
    }

    fn decode_with_tag(decoder: &mut D, tag: Tag) -> (r: Result<Self, D::Error>) {
        match decoder.decode_any(tag) {
            Ok(value) => {
                assert(value.deep_view() =~= value@);
                Ok(Any::new(value))
            },
            Err(e) => Err(e),
        }
    }

    fn decode(decoder: &mut D) -> (r: Result<Self, D::Error>) {
        Self::decode_with_tag(decoder, Tag::new_universal(tag::EOC))
    }
}

impl<D: Decoder> Decode<D> for BitString {
    open spec fn decode_with_tag_spec(s: D::V, tag: Tag) -> Result<(Seq<bool>, D::V), ErrorKind> {
        D::bit_string_spec(s, tag)
    }

    open spec fn decode_spec(s: D::V) -> Result<(Seq<bool>, D::V), ErrorKind> {
        D::bit_string_spec(s, Tag::universal(tag::BIT_STRING))
    }

    fn decode_with_tag(decoder: &mut D, tag: Tag) -> (r: Result<Self, D::Error>) {
        match decoder.decode_bit_string(tag) {
            Ok(value) => Ok(value),
            Err(e) => Err(e),
        }
    }

    fn decode(decoder: &mut D) -> (r: Result<Self, D::Error>) {
        Self::decode_with_tag(decoder, Tag::new_universal(tag::BIT_STRING))
    }
}

impl<D: Decoder> Decode<D> for String {
    open spec fn decode_with_tag_spec(s: D::V, tag: Tag) -> Result<(Seq<char>, D::V), ErrorKind> {
        D::utf8_string_spec(s, tag)
    }

    open spec fn decode_spec(s: D::V) -> Result<(Seq<char>, D::V), ErrorKind> {
        D::utf8_string_spec(s, Tag::universal(tag::UTF8_STRING))
    }

    fn decode_with_tag(decoder: &mut D, tag: Tag) -> (r: Result<Self, D::Error>) {
        match decoder.decode_utf8_string(tag) {
            Ok(value) => Ok(value),
            Err(e) => Err(e),
        }
    }

    fn decode(decoder: &mut D) -> (r: Result<Self, D::Error>) {
        Self::decode_with_tag(decoder, Tag::new_universal(tag::UTF8_STRING))
    }
}

impl<D: Decoder, T: AsnType, V: Decode<D>> Decode<D> for Implicit<T, V> {
    open spec fn decode_with_tag_spec(s: D::V, tag: Tag) -> Result<(V::V, D::V), ErrorKind> {
        V::decode_with_tag_spec(s, tag)
    }

    open spec fn decode_spec(s: D::V) -> Result<(V::V, D::V), ErrorKind> {
        V::decode_with_tag_spec(s, T::tag_spec())
    }

    fn decode_with_tag(decoder: &mut D, tag: Tag) -> (r: Result<Self, D::Error>) {
        match V::decode_with_tag(decoder, tag) {
            Ok(value) => Ok(Implicit::new(value)),
            Err(e) => Err(e),
        }
    }

    fn decode(decoder: &mut D) -> (r: Result<Self, D::Error>) {
        Self::decode_with_tag(decoder, T::tag())
    }
}

/// What decoding an explicitly tagged value gives: the wrapper is entered,
/// and the value is decoded from what it holds, under the value's own tag.
/// What the wrapper holds beyond the value stays unread.
pub open spec fn explicit_spec<V, S>(
    entered: Result<(S, S), ErrorKind>,
    inner: spec_fn(S) -> Result<(V, S), ErrorKind>,
) -> Result<(V, S), ErrorKind> {
    match entered {
        Err(kind) => Err(kind),
        Ok((scope, next)) => match inner(scope) {
            Err(kind) => Err(kind),
            Ok((value, _)) => Ok((value, next)),
        },
    }
}

impl<D: Decoder, T: AsnType, V: Decode<D>> Decode<D> for Explicit<T, V> {
    open spec fn decode_with_tag_spec(s: D::V, tag: Tag) -> Result<(V::V, D::V), ErrorKind> {
        explicit_spec(D::explicit_prefix_spec(s, tag), |scope: D::V| V::decode_spec(scope))
    }

    open spec fn decode_spec(s: D::V) -> Result<(V::V, D::V), ErrorKind> {
        explicit_spec(
            D::explicit_prefix_spec(s, T::tag_spec()),
            |scope: D::V| V::decode_spec(scope),
        )
    }

    fn decode_with_tag(decoder: &mut D, tag: Tag) -> (r: Result<Self, D::Error>) {
        let mut scope = match decoder.decode_explicit_prefix(tag) {
            Ok(scope) => scope,
            Err(e) => {
                return Err(e);
            },
        };
        match V::decode(&mut scope) {
            Ok(value) => Ok(Explicit::new(value)),
            Err(e) => Err(e),
        }
    }

    fn decode(decoder: &mut D) -> (r: Result<Self, D::Error>) {
        Self::decode_with_tag(decoder, T::tag())
    }
}

/// Decodes `n` values of `T` one after the other and puts each in its
/// place in `set`.
pub fn decode_set_elements<D: Decoder, T: Decode<D> + SetElement>(
    decoder: &mut D,
    n: usize,
    set: &mut SetOf<T>,
) -> (r: Result<(), D::Error>)
    requires
        old(set).wf(),
    ensures
        match elements_spec::<D, T>(old(decoder)@, n as nat) {
            Ok((values, state)) => r is Ok && final(set).deep_view() == placed_all(
                old(set).deep_view(),
                values,
                by_key::<T>(),
            ) && final(decoder)@ == state && final(set).wf(),
            Err(kind) => r is Err && r->Err_0.kind() == kind,
        },
{
    let mut i: usize = 0;
    let ghost goal = elements_spec::<D, T>(old(decoder)@, n as nat);
    let ghost base = old(set).deep_view();
    let ghost mut done: Seq<T::V> = Seq::empty();
    while i < n
        invariant
            i <= n,
            goal == elements_spec::<D, T>(old(decoder)@, n as nat),
            base == old(set).deep_view(),
            goal == after(done, elements_spec::<D, T>(decoder@, (n - i) as nat)),
            set.deep_view() == placed_all(base, done, by_key::<T>()),
            set.wf(),
        decreases n - i,
    {
        let value = match T::decode(decoder) {
            Ok(value) => value,
            Err(e) => {
                return Err(e);
            },
        };
        proof {
            let first = value.deep_view();
            let rest = elements_spec::<D, T>(decoder@, (n - i - 1) as nat);
            if rest is Ok {
                assert(done + (seq![first] + rest->Ok_0.0) =~= done.push(first) + rest->Ok_0.0);
            }
            assert(done.push(first).drop_last() =~= done);
            done = done.push(first);
        }
        set.insert(value);
        i = i + 1;
    }
    proof {
        assert(done + Seq::<T::V>::empty() =~= done);
    }
    Ok(())
}

/// Decodes a set of `T` whose size is under `constraints`.
pub fn decode_set_of<D: Decoder, T: Decode<D> + SetElement>(
    decoder: &mut D,
    tag: Tag,
    constraints: &Constraints,
) -> (r: Result<SetOf<T>, D::Error>)
    ensures
        yields(r, final(decoder)@, set_of_spec::<D, T>(old(decoder)@, tag, *constraints)),
        r is Ok ==> r->Ok_0.wf(),
{
    let mut set: SetOf<T> = SetOf::new();
    let mut c: Constraints = *constraints;
    let mut more = true;
    let ghost goal = collection_spec::<D, T>(old(decoder)@, tag, *constraints, true);
    let ghost mut done: Seq<T::V> = Seq::empty();
    while more
        invariant
            goal == collection_spec::<D, T>(old(decoder)@, tag, *constraints, true),
            set.wf(),
            set.deep_view() == arranged(done, by_key::<T>()),
            more ==> goal == after(done, collection_spec::<D, T>(decoder@, tag, c, true)),
            !more ==> goal == Ok::<(Seq<T::V>, D::V), ErrorKind>((done, decoder@)),
        decreases
                (if more {
                    D::remaining_spec(decoder@) + 1
                } else {
                    0
                }),
    {
        let before = decoder.remaining();
        let ghost state = decoder@;
        let (count, next) = match decoder.decode_set_of(tag, &c) {
            Ok(group) => group,
            Err(e) => {
                return Err(e);
            },
        };
        match decode_set_elements::<D, T>(decoder, count, &mut set) {
            Ok(()) => {},
            Err(e) => {
                return Err(e);
            },
        }
        proof {
            let group = announced::<D>(state, tag, c, true)->Ok_0;
            let read = elements_spec::<D, T>(group.1, (group.0).0)->Ok_0;
            let rest = collection_spec::<D, T>(decoder@, tag, Constraints::unconstrained(), true);
            lemma_placed_all_concat(Seq::empty(), done, read.0, by_key::<T>());
            if rest is Ok {
                assert(done + (read.0 + rest->Ok_0.0) =~= (done + read.0) + rest->Ok_0.0);
            }
            if next && D::remaining_spec(decoder@) < D::remaining_spec(state) {
                assert(collection_spec::<D, T>(state, tag, c, true) == after(read.0, rest));
            } else {
                assert(collection_spec::<D, T>(state, tag, c, true) == Ok::<
                    (Seq<T::V>, D::V),
                    ErrorKind,
                >((read.0, decoder@)));
            }
            done = done + read.0;
        }
        if next && decoder.remaining() < before {
            c = Constraints::none();
        } else {
            more = false;
        }
    }
    Ok(set)
}

impl<D: Decoder, T: Decode<D> + SetElement> Decode<D> for SetOf<T> {
    open spec fn decode_with_tag_spec(s: D::V, tag: Tag) -> Result<(Seq<T::V>, D::V), ErrorKind> {
        set_of_spec::<D, T>(s, tag, Constraints::unconstrained())
    }

    open spec fn decode_spec(s: D::V) -> Result<(Seq<T::V>, D::V), ErrorKind> {
        set_of_spec::<D, T>(s, Tag::universal(tag::SET), Constraints::unconstrained())
    }

    fn decode_with_tag(decoder: &mut D, tag: Tag) -> (r: Result<Self, D::Error>) {
        decode_set_of::<D, T>(decoder, tag, &Constraints::none())
    }

    fn decode(decoder: &mut D) -> (r: Result<Self, D::Error>) {
        decode_set_of::<D, T>(decoder, Tag::new_universal(tag::SET), &Constraints::none())
    }
}

/// What decoding an open value gives in the state `s`: the tag that stands
/// next, and the octets of the value under it.
pub open spec fn open_spec<D: Decoder>(s: D::V) -> Result<((Tag, Seq<u8>), D::V), ErrorKind> {
    match D::peek_tag_spec(s) {
        Err(kind) => Err(kind),
        Ok(found) => open_under_spec::<D>(s, found),
    }
}

/// What decoding an open value under `tag` gives in the state `s`.
pub open spec fn open_under_spec<D: Decoder>(s: D::V, tag: Tag) -> Result<
    ((Tag, Seq<u8>), D::V),
    ErrorKind,
> {
    match D::any_spec(s, tag) {
        Err(kind) => Err(kind),
        Ok((contents, next)) => Ok(((tag, contents), next)),
    }
}

impl<D: Decoder> Decode<D> for Open {
    open spec fn decode_with_tag_spec(s: D::V, tag: Tag) -> Result<
        ((Tag, Seq<u8>), D::V),
        ErrorKind,
    > {
        open_under_spec::<D>(s, tag)
    }

    open spec fn decode_spec(s: D::V) -> Result<((Tag, Seq<u8>), D::V), ErrorKind> {
        open_spec::<D>(s)
    }

    fn decode_with_tag(decoder: &mut D, tag: Tag) -> (r: Result<Self, D::Error>) {
        match decoder.decode_any(tag) {
            Ok(contents) => {
                assert(contents.deep_view() =~= contents@);
                Ok(Open::new(tag, contents))
            },
            Err(e) => Err(e),
        }
    }

    fn decode(decoder: &mut D) -> (r: Result<Self, D::Error>) {
        match decoder.peek_tag() {
            Ok(found) => Self::decode_with_tag(decoder, found),
            Err(e) => Err(e),
        }
    }
}

/// The open values that can be decoded one after the other from the state
/// `s`: the first failure ends them, and so does a value that leaves no less
/// input than there was.
pub open spec fn opens_spec<D: Decoder>(s: D::V) -> Seq<(Tag, Seq<u8>)>
    decreases D::remaining_spec(s),
{
    match open_spec::<D>(s) {
        Err(_) => Seq::empty(),
        Ok((value, next)) => if D::remaining_spec(next) < D::remaining_spec(s) {
            seq![value] + opens_spec::<D>(next)
        } else {
            seq![value]
        },
    }
}

/// What decoding a map of open values under `tag` gives in the state `s`:
/// the sequence is entered, and every open value that can be decoded from
/// it is kept under its tag.
pub open spec fn tag_map_spec<D: Decoder>(s: D::V, tag: Tag) -> Result<
    (Seq<(Tag, Seq<u8>)>, D::V),
    ErrorKind,
> {
    match D::sequence_spec(s, tag) {
        Err(kind) => Err(kind),
        Ok((scope, next)) => Ok((arranged(opens_spec::<D>(scope), by_tag()), next)),
    }
}

impl<D: Decoder> Decode<D> for TagMap {
    open spec fn decode_with_tag_spec(s: D::V, tag: Tag) -> Result<
        (Seq<(Tag, Seq<u8>)>, D::V),
        ErrorKind,
    > {
        tag_map_spec::<D>(s, tag)
    }

    open spec fn decode_spec(s: D::V) -> Result<(Seq<(Tag, Seq<u8>)>, D::V), ErrorKind> {
        tag_map_spec::<D>(s, Tag::universal(tag::SEQUENCE))
    }

    fn decode_with_tag(decoder: &mut D, tag: Tag) -> (r: Result<Self, D::Error>) {
        let mut scope = match decoder.decode_sequence(tag) {
            Ok(scope) => scope,
            Err(e) => {
                return Err(e);
            },
        };
        let mut map = TagMap::new();
        let mut more = true;
        let ghost all = opens_spec::<D>(scope@);
        let ghost mut done: Seq<(Tag, Seq<u8>)> = Seq::empty();
        assert(done + all =~= all);
        while more
            invariant
                map.wf(),
                map.deep_view() == arranged(done, by_tag()),
                more ==> all == done + opens_spec::<D>(scope@),
                !more ==> all == done,
            decreases
                    (if more {
                        D::remaining_spec(scope@) + 1
                    } else {
                        0
                    }),
        {
            let before = scope.remaining();
            match <Open as Decode<D>>::decode(&mut scope) {
                Ok(value) => {
                    proof {
                        let first = value.deep_view();
                        assert(done.push(first).drop_last() =~= done);
                        if D::remaining_spec(scope@) < before {
                            assert(done + (seq![first] + opens_spec::<D>(scope@)) =~= done.push(
                                first,
                            ) + opens_spec::<D>(scope@));
                        } else {
                            assert(done + seq![first] =~= done.push(first));
                        }
                        done = done.push(first);
                    }
                    map.insert(value);
                    if !(scope.remaining() < before) {
                        more = false;
                    }
                },
                Err(_) => {
                    proof {
                        assert(done + Seq::<(Tag, Seq<u8>)>::empty() =~= done);
                    }
                    more = false;
                },
            }
        }
        Ok(map)
    }

    fn decode(decoder: &mut D) -> (r: Result<Self, D::Error>) {
        Self::decode_with_tag(decoder, Tag::new_universal(tag::SEQUENCE))
    }
}

impl<D: Decoder> Decode<D> for ObjectIdentifier {
    open spec fn decode_with_tag_spec(s: D::V, tag: Tag) -> Result<(Seq<u32>, D::V), ErrorKind> {
        D::object_identifier_spec(s, tag)
    }

    open spec fn decode_spec(s: D::V) -> Result<(Seq<u32>, D::V), ErrorKind> {
        D::object_identifier_spec(s, Tag::universal(tag::OBJECT_IDENTIFIER))
    }

    fn decode_with_tag(decoder: &mut D, tag: Tag) -> (r: Result<Self, D::Error>) {
        decoder.decode_object_identifier(tag)
    }

    fn decode(decoder: &mut D) -> (r: Result<Self, D::Error>) {
        decoder.decode_object_identifier(Tag::new_universal(tag::OBJECT_IDENTIFIER))
    }
}

impl<D: Decoder> Decode<D> for UtcTime {
    open spec fn decode_with_tag_spec(s: D::V, tag: Tag) -> Result<(UtcTime, D::V), ErrorKind> {
        D::utc_time_spec(s, tag)
    }

    open spec fn decode_spec(s: D::V) -> Result<(UtcTime, D::V), ErrorKind> {
        D::utc_time_spec(s, Tag::universal(tag::UTC_TIME))
    }

    fn decode_with_tag(decoder: &mut D, tag: Tag) -> (r: Result<Self, D::Error>) {
        decoder.decode_utc_time(tag)
    }

    fn decode(decoder: &mut D) -> (r: Result<Self, D::Error>) {
        decoder.decode_utc_time(Tag::new_universal(tag::UTC_TIME))
    }
}

impl<D: Decoder> Decode<D> for GeneralizedTime {
    open spec fn decode_with_tag_spec(s: D::V, tag: Tag) -> Result<(GeneralizedTime, D::V), ErrorKind> {
        D::generalized_time_spec(s, tag)
    }

    open spec fn decode_spec(s: D::V) -> Result<(GeneralizedTime, D::V), ErrorKind> {
        D::generalized_time_spec(s, Tag::universal(tag::GENERALIZED_TIME))
    }

    fn decode_with_tag(decoder: &mut D, tag: Tag) -> (r: Result<Self, D::Error>) {
        decoder.decode_generalized_time(tag)
    }

    fn decode(decoder: &mut D) -> (r: Result<Self, D::Error>) {
        decoder.decode_generalized_time(Tag::new_universal(tag::GENERALIZED_TIME))
    }
}

} // verus!
