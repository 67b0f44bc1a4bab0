//! What holds of the codec as a whole: values come back as they went in,
//! and what is absent takes no room.

use crate::bits::{bits_to_bytes, bytes_to_bits, lemma_unpack_padded};
use crate::constraints::Constraints;
use crate::de::{Decode, Decoder};
use crate::enc::{Encode, Encoder};
use crate::error::ErrorKind;
use crate::integer::Integer;
use crate::per::laws::{
    lemma_bit_field_round_trip, lemma_bool_round_trip, lemma_integer_round_trip,
    lemma_octets_round_trip, lemma_scope_round_trip, reader,
};
use crate::per::wire::{Cursor, Output};
use crate::set_of::{by_key, SetElement, SetOf};
use crate::sorted::{ascending, lemma_arranged_ascending};
use crate::tag::Tag;
use crate::types::{AsnType, Explicit, OctetString};
use crate::bits::BitString;
use vstd::prelude::*;

verus! {

/// Where `value` can be written behind `s` in the Packed Encoding Rules, a
/// reader that stands behind `s` reads it back and then stands behind it,
/// whatever bits `rest` follow.
pub open spec fn reads_back<
    T: Encode<crate::per::enc::Encoder> + Decode<crate::per::de::Decoder>,
>(value: T::V, s: Output, rest: Seq<bool>) -> bool {
    match <T as Encode<crate::per::enc::Encoder>>::encode_spec(value, s) {
        Ok(written) => <T as Decode<crate::per::de::Decoder>>::decode_spec(
            reader(s, written.bits + rest),
        ) == Ok::<(T::V, Cursor), ErrorKind>((value, reader(written, written.bits + rest))),
        Err(_) => true,
    }
}

/// A value that is read back at the start of the input, before the bits
/// that fill the last octet, comes back from the octets that the encoder
/// hands out, in either variant.
pub proof fn lemma_decode_encode<
    T: Encode<crate::per::enc::Encoder> + Decode<crate::per::de::Decoder>,
>(value: T::V, aligned: bool)
    requires
        forall|rest: Seq<bool>| #[trigger]
            reads_back::<T>(value, Output { bits: Seq::empty(), aligned }, rest),
        <T as Encode<crate::per::enc::Encoder>>::encode_spec(
            value,
            Output { bits: Seq::empty(), aligned },
        ) is Ok,
    ensures
        ({
            let written = <T as Encode<crate::per::enc::Encoder>>::encode_spec(
                value,
                Output { bits: Seq::empty(), aligned },
            )->Ok_0;
            let read = <T as Decode<crate::per::de::Decoder>>::decode_spec(
                Cursor { bits: bytes_to_bits(bits_to_bytes(written.bits)), position: 0, aligned },
            );
            &&& read is Ok && read->Ok_0.0 == value
            &&& crate::uper::blank() == (Output { bits: Seq::empty(), aligned: false })
            &&& crate::aper::blank() == (Output { bits: Seq::empty(), aligned: true })
            &&& forall|input: Seq<u8>| #[trigger]
                crate::uper::start(input) == (
                    Cursor { bits: bytes_to_bits(input), position: 0, aligned: false }
                )
            &&& forall|input: Seq<u8>| #[trigger]
                crate::aper::start(input) == (
                    Cursor { bits: bytes_to_bits(input), position: 0, aligned: true }
                )
        }),
{
    let blank = Output { bits: Seq::empty(), aligned };
    let written = <T as Encode<crate::per::enc::Encoder>>::encode_spec(value, blank)->Ok_0;
    let fill = Seq::new(
        (8 * ((written.bits.len() + 7) / 8) - written.bits.len()) as nat,
        |i: int| false,
    );
    lemma_unpack_padded(written.bits);
    assert(reads_back::<T>(value, blank, fill));
}

/// Where `value` can be written behind `s`, what is written begins with
/// what `s` holds, in the same variant.
pub open spec fn extends<T: Encode<crate::per::enc::Encoder>>(value: T::V, s: Output) -> bool {
    match T::encode_spec(value, s) {
        Ok(written) => written.aligned == s.aligned && s.bits.len() <= written.bits.len()
            && written.bits.take(s.bits.len() as int) == s.bits,
        Err(_) => true,
    }
}

/// Every element of `values` is read back wherever it is written, and
/// what is written for it begins with what was there.
pub open spec fn elements_read_back<
    T: Encode<crate::per::enc::Encoder> + Decode<crate::per::de::Decoder>,
>(values: Seq<T::V>) -> bool {
    &&& forall|i: int, s: Output, rest: Seq<bool>|
        0 <= i < values.len() ==> #[trigger] reads_back::<T>(values[i], s, rest)
    &&& forall|i: int, s: Output| 0 <= i < values.len() ==> #[trigger] extends::<T>(values[i], s)
}

/// Elements that are written one after the other are read back one after
/// the other.
pub proof fn lemma_elements_read_back<
    T: Encode<crate::per::enc::Encoder> + Decode<crate::per::de::Decoder>,
>(values: Seq<T::V>, s: Output, rest: Seq<bool>)
    requires
        elements_read_back::<T>(values),
        crate::enc::elements_spec::<crate::per::enc::Encoder, T>(values, s) is Ok,
    ensures
        ({
            let written = crate::enc::elements_spec::<crate::per::enc::Encoder, T>(values, s)->Ok_0;
            &&& written.aligned == s.aligned
            &&& s.bits.len() <= written.bits.len()
            &&& written.bits.take(s.bits.len() as int) == s.bits
            &&& crate::de::elements_spec::<crate::per::de::Decoder, T>(
                reader(s, written.bits + rest),
                values.len(),
            ) == Ok::<(Seq<T::V>, Cursor), ErrorKind>(
                (values, reader(written, written.bits + rest)),
            )
        }),
    decreases values.len(),
{
    let written = crate::enc::elements_spec::<crate::per::enc::Encoder, T>(values, s)->Ok_0;
    if values.len() == 0 {
        assert(written.bits.take(s.bits.len() as int) =~= s.bits);
        assert(values =~= Seq::<T::V>::empty());
        assert(s.bits + rest =~= written.bits + rest);
    } else {
        let first = values[0];
        let others = values.skip(1);
        let one = <T as Encode<crate::per::enc::Encoder>>::encode_spec(first, s)->Ok_0;
        assert(extends::<T>(values[0], s));
        assert forall|i: int, s1: Output, r1: Seq<bool>| 0 <= i < others.len() implies #[trigger]
            reads_back::<T>(others[i], s1, r1) by {
            assert(others[i] == values[i + 1]);
            assert(reads_back::<T>(values[i + 1], s1, r1));
        }
        assert forall|i: int, s1: Output| 0 <= i < others.len() implies #[trigger] extends::<T>(
            others[i],
            s1,
        ) by {
            assert(others[i] == values[i + 1]);
            assert(extends::<T>(values[i + 1], s1));
        }
        lemma_elements_read_back::<T>(others, one, rest);
        let tail = written.bits.skip(one.bits.len() as int);
        assert(written.bits =~= written.bits.take(one.bits.len() as int) + tail);
        assert(one.bits + (tail + rest) =~= written.bits + rest);
        assert(reads_back::<T>(values[0], s, tail + rest));
        assert(written.bits.take(s.bits.len() as int) =~= one.bits.take(s.bits.len() as int));
        assert(seq![first] + others =~= values);
    }
}

/// Where every element is read back, every element of a part is.
pub proof fn lemma_part_reads_back<
    T: Encode<crate::per::enc::Encoder> + Decode<crate::per::de::Decoder>,
>(values: Seq<T::V>, from: int, to: int)
    requires
        elements_read_back::<T>(values),
        0 <= from <= to <= values.len(),
    ensures
        elements_read_back::<T>(values.subrange(from, to)),
{
    let part = values.subrange(from, to);
    assert forall|i: int, s1: Output, r1: Seq<bool>| 0 <= i < part.len() implies #[trigger]
        reads_back::<T>(part[i], s1, r1) by {
        assert(part[i] == values[i + from]);
        assert(reads_back::<T>(values[i + from], s1, r1));
    }
    assert forall|i: int, s1: Output| 0 <= i < part.len() implies #[trigger] extends::<T>(
        part[i],
        s1,
    ) by {
        assert(part[i] == values[i + from]);
        assert(extends::<T>(values[i + from], s1));
    }
}

/// One group of elements that is written behind its determinant is read
/// back from there.
proof fn lemma_group_reads_back<
    T: Encode<crate::per::enc::Encoder> + Decode<crate::per::de::Decoder>,
>(group: Seq<T::V>, n: nat, s: Output, tag: Tag, c: Constraints, set: bool, rest: Seq<bool>)
    requires
        elements_read_back::<T>(group),
        n <= usize::MAX,
        c.admits(n as int),
        group.len() == crate::per::wire::covered(n, c),
        crate::enc::elements_spec::<crate::per::enc::Encoder, T>(
            group,
            crate::per::wire::enc_length(s, n, c)->Ok_0,
        ) is Ok,
    ensures
        ({
            let headed = crate::per::wire::enc_length(s, n, c)->Ok_0;
            let filled = crate::enc::elements_spec::<crate::per::enc::Encoder, T>(
                group,
                headed,
            )->Ok_0;
            &&& filled.aligned == s.aligned
            &&& s.bits.len() + 8 * (if crate::per::wire::continues(n, c) {
                1int
            } else {
                0int
            }) <= filled.bits.len()
            &&& filled.bits.take(s.bits.len() as int) == s.bits
            &&& crate::de::announced::<crate::per::de::Decoder>(
                reader(s, filled.bits + rest),
                tag,
                c,
                set,
            ) == Ok::<((nat, bool), Cursor), ErrorKind>(
                (
                    (group.len(), crate::per::wire::continues(n, c)),
                    reader(headed, filled.bits + rest),
                ),
            )
            &&& crate::de::elements_spec::<crate::per::de::Decoder, T>(
                reader(headed, filled.bits + rest),
                group.len(),
            ) == Ok::<(Seq<T::V>, Cursor), ErrorKind>((group, reader(filled, filled.bits + rest)))
        }),
{
    let headed = crate::per::wire::enc_length(s, n, c)->Ok_0;
    let filled = crate::enc::elements_spec::<crate::per::enc::Encoder, T>(group, headed)->Ok_0;
    crate::per::laws::lemma_length_forms(n, c);
    lemma_elements_read_back::<T>(group, headed, rest);
    let middle = filled.bits.skip(headed.bits.len() as int);
    assert(filled.bits =~= filled.bits.take(headed.bits.len() as int) + middle);
    assert(headed.bits + (middle + rest) =~= filled.bits + rest);
    crate::per::laws::lemma_length_law(s, n, c, middle + rest);
    assert(filled.bits.take(s.bits.len() as int) =~= headed.bits.take(s.bits.len() as int));
    assert(headed.bits.take(s.bits.len() as int) =~= s.bits);
}

/// The elements of a sequence or a set that are written group after group
/// are read back group after group.
pub proof fn lemma_collection_reads_back<
    T: Encode<crate::per::enc::Encoder> + Decode<crate::per::de::Decoder>,
>(values: Seq<T::V>, s: Output, tag: Tag, c: Constraints, set: bool, rest: Seq<bool>)
    requires
        elements_read_back::<T>(values),
        values.len() <= usize::MAX,
        crate::enc::collection_spec::<crate::per::enc::Encoder, T>(values, s, tag, c, set) is Ok,
    ensures
        ({
            let written = crate::enc::collection_spec::<crate::per::enc::Encoder, T>(
                values,
                s,
                tag,
                c,
                set,
            )->Ok_0;
            &&& written.aligned == s.aligned
            &&& s.bits.len() <= written.bits.len()
            &&& written.bits.take(s.bits.len() as int) == s.bits
            &&& crate::de::collection_spec::<crate::per::de::Decoder, T>(
                reader(s, written.bits + rest),
                tag,
                c,
                set,
            ) == Ok::<(Seq<T::V>, Cursor), ErrorKind>(
                (values, reader(written, written.bits + rest)),
            )
        }),
    decreases values.len(),
{
    let none = Constraints::unconstrained();
    let written = crate::enc::collection_spec::<crate::per::enc::Encoder, T>(
        values,
        s,
        tag,
        c,
        set,
    )->Ok_0;
    let n = values.len();
    let k = crate::per::wire::covered(n, c);
    let more = crate::per::wire::continues(n, c);
    let headed = crate::per::wire::enc_length(s, n, c)->Ok_0;
    crate::per::laws::lemma_covered(n, c, 1);
    let group = values.take(k as int);
    let later = values.skip(k as int);
    assert(group =~= values.subrange(0, k as int));
    assert(later =~= values.subrange(k as int, n as int));
    lemma_part_reads_back::<T>(values, 0, k as int);
    lemma_part_reads_back::<T>(values, k as int, n as int);
    let filled = crate::enc::elements_spec::<crate::per::enc::Encoder, T>(group, headed)->Ok_0;
    let tail = written.bits.skip(filled.bits.len() as int);
    if more {
        lemma_collection_reads_back::<T>(later, filled, tag, none, set, rest);
        assert(written.bits =~= written.bits.take(filled.bits.len() as int) + tail);
        assert(group + later =~= values);
    } else {
        assert(written == filled);
        assert(tail =~= Seq::<bool>::empty());
        assert(group =~= values);
    }
    assert(filled.bits + (tail + rest) =~= written.bits + rest);
    lemma_group_reads_back::<T>(group, n, s, tag, c, set, tail + rest);
    assert(written.bits.take(s.bits.len() as int) =~= filled.bits.take(s.bits.len() as int));
}

/// A sequence is read back where each of its elements is.
pub proof fn lemma_sequence_reads_back<
    T: Encode<crate::per::enc::Encoder> + Decode<crate::per::de::Decoder>,
>(values: Seq<T::V>, s: Output, rest: Seq<bool>)
    requires
        elements_read_back::<T>(values),
        values.len() <= usize::MAX,
    ensures
        reads_back::<Vec<T>>(values, s, rest),
        extends::<Vec<T>>(values, s),
{
    let tag = Tag::universal(crate::tag::SEQUENCE);
    let none = Constraints::unconstrained();
    if crate::enc::collection_spec::<crate::per::enc::Encoder, T>(values, s, tag, none, false)
        is Ok {
        lemma_collection_reads_back::<T>(values, s, tag, none, false, rest);
    }
}

/// A set is read back where each of its elements is: the elements are
/// written in ascending order, and are arranged as they come.
pub proof fn lemma_set_reads_back<
    T: Encode<crate::per::enc::Encoder> + Decode<crate::per::de::Decoder> + SetElement,
>(values: Seq<T::V>, s: Output, rest: Seq<bool>)
    requires
        elements_read_back::<T>(values),
        values.len() <= usize::MAX,
        ascending(values, by_key::<T>()),
    ensures
        reads_back::<SetOf<T>>(values, s, rest),
{
    let tag = Tag::universal(crate::tag::SET);
    let none = Constraints::unconstrained();
    if crate::enc::collection_spec::<crate::per::enc::Encoder, T>(values, s, tag, none, true)
        is Ok {
        lemma_collection_reads_back::<T>(values, s, tag, none, true, rest);
        lemma_arranged_ascending(values, by_key::<T>());
    }
}

/// What is written for a boolean begins with what was there.
pub proof fn lemma_bool_extends(value: bool, s: Output)
    ensures
        extends::<bool>(value, s),
{
    assert(s.bits.push(value).take(s.bits.len() as int) =~= s.bits);
}

/// What is written for an integer begins with what was there.
pub proof fn lemma_integer_extends(value: int, s: Output)
    ensures
        extends::<Integer>(value, s),
{
    let bytes = crate::integer::twos_complement(value, crate::integer::octets_needed(value));
    crate::bits::lemma_bytes_to_bits_len(bytes);
    crate::per::laws::lemma_frame_extends(
        s.bits,
        s.aligned,
        bytes_to_bits(bytes),
        8,
        bytes.len(),
        Constraints::unconstrained(),
    );
}

/// What is written for an octet string begins with what was there.
pub proof fn lemma_octets_extend(s: Output, bytes: Seq<u8>)
    ensures
        ({
            let written = crate::per::wire::enc_octets(s, bytes, Constraints::unconstrained())->Ok_0;
            &&& written.aligned == s.aligned
            &&& s.bits.len() <= written.bits.len()
            &&& written.bits.take(s.bits.len() as int) == s.bits
        }),
{
    crate::bits::lemma_bytes_to_bits_len(bytes);
    crate::per::laws::lemma_frame_extends(
        s.bits,
        s.aligned,
        bytes_to_bits(bytes),
        8,
        bytes.len(),
        Constraints::unconstrained(),
    );
}

/// What is written for an octet string, a text, an object identifier or a
/// time begins with what was there.
pub proof fn lemma_strings_extend(s: Output)
    ensures
        forall|value: Seq<u8>| #[trigger] extends::<OctetString>(value, s),
        forall|value: Seq<char>| #[trigger] extends::<String>(value, s),
        forall|value: Seq<u32>| #[trigger] extends::<crate::oid::ObjectIdentifier>(value, s),
        forall|value: crate::time::UtcTime| #[trigger] extends::<crate::time::UtcTime>(value, s),
        forall|value: crate::time::GeneralizedTime| #[trigger]
            extends::<crate::time::GeneralizedTime>(value, s),
{
    assert forall|value: Seq<u8>| #[trigger] extends::<OctetString>(value, s) by {
        lemma_octets_extend(s, value);
    }
    assert forall|value: Seq<char>| #[trigger] extends::<String>(value, s) by {
        lemma_octets_extend(s, vstd::utf8::encode_utf8(value));
    }
    assert forall|value: Seq<u32>| #[trigger] extends::<crate::oid::ObjectIdentifier>(
        value,
        s,
    ) by {
        lemma_octets_extend(s, crate::oid::contents(value));
    }
    assert forall|value: crate::time::UtcTime| #[trigger] extends::<crate::time::UtcTime>(
        value,
        s,
    ) by {
        lemma_octets_extend(s, value.text());
    }
    assert forall|value: crate::time::GeneralizedTime| #[trigger]
        extends::<crate::time::GeneralizedTime>(value, s) by {
        lemma_octets_extend(s, value.text());
    }
}

/// What is written for a bit string begins with what was there.
pub proof fn lemma_bit_string_extends(value: Seq<bool>, s: Output)
    ensures
        extends::<BitString>(value, s),
{
    crate::per::laws::lemma_frame_extends(
        s.bits,
        s.aligned,
        value,
        1,
        value.len(),
        Constraints::unconstrained(),
    );
}

/// What is written for an integer of the machine begins with what was
/// there.
pub proof fn lemma_machine_integers_extend(s: Output)
    ensures
        forall|value: i8| #[trigger] extends::<i8>(value, s),
        forall|value: i16| #[trigger] extends::<i16>(value, s),
        forall|value: i32| #[trigger] extends::<i32>(value, s),
        forall|value: i64| #[trigger] extends::<i64>(value, s),
        forall|value: i128| #[trigger] extends::<i128>(value, s),
        forall|value: isize| #[trigger] extends::<isize>(value, s),
        forall|value: u8| #[trigger] extends::<u8>(value, s),
        forall|value: u16| #[trigger] extends::<u16>(value, s),
        forall|value: u32| #[trigger] extends::<u32>(value, s),
        forall|value: u64| #[trigger] extends::<u64>(value, s),
        forall|value: u128| #[trigger] extends::<u128>(value, s),
        forall|value: usize| #[trigger] extends::<usize>(value, s),
{
    assert forall|value: i8| #[trigger] extends::<i8>(value, s) by {
        lemma_integer_extends(value as int, s);
    }
    assert forall|value: i16| #[trigger] extends::<i16>(value, s) by {
        lemma_integer_extends(value as int, s);
    }
    assert forall|value: i32| #[trigger] extends::<i32>(value, s) by {
        lemma_integer_extends(value as int, s);
    }
    assert forall|value: i64| #[trigger] extends::<i64>(value, s) by {
        lemma_integer_extends(value as int, s);
    }
    assert forall|value: i128| #[trigger] extends::<i128>(value, s) by {
        lemma_integer_extends(value as int, s);
    }
    assert forall|value: isize| #[trigger] extends::<isize>(value, s) by {
        lemma_integer_extends(value as int, s);
    }
    assert forall|value: u8| #[trigger] extends::<u8>(value, s) by {
        lemma_integer_extends(value as int, s);
    }
    assert forall|value: u16| #[trigger] extends::<u16>(value, s) by {
        lemma_integer_extends(value as int, s);
    }
    assert forall|value: u32| #[trigger] extends::<u32>(value, s) by {
        lemma_integer_extends(value as int, s);
    }
    assert forall|value: u64| #[trigger] extends::<u64>(value, s) by {
        lemma_integer_extends(value as int, s);
    }
    assert forall|value: u128| #[trigger] extends::<u128>(value, s) by {
        lemma_integer_extends(value as int, s);
    }
    assert forall|value: usize| #[trigger] extends::<usize>(value, s) by {
        lemma_integer_extends(value as int, s);
    }
}

/// What is written for an open value are its octets as an undecoded value,
/// whatever tag it was found under, in every format: a value that was kept
/// is written as it was read.
pub proof fn lemma_open_rewritten<E: Encoder>(tag: Tag, contents: Seq<u8>, s: E::V, under: Tag)
    ensures
        <crate::tag_map::Open as Encode<E>>::encode_spec((tag, contents), s) == E::any_spec(
            s,
            contents,
        ),
        <crate::tag_map::Open as Encode<E>>::encode_with_tag_spec((tag, contents), s, under)
            == E::any_spec(s, contents),
{
}

/// The bits that a reader in the state `c` has read.
pub open spec fn read_so_far(c: Cursor) -> Output {
    Output { bits: c.bits.take(c.position), aligned: c.aligned }
}

/// A value that was read undecoded is written again as it stood: behind
/// the bits that were read before it, the encoder writes the very bits that
/// the reader read for it. So a field of unknown type that a map of open
/// values keeps comes out as it went in.
pub proof fn lemma_kept_value_rewritten(c: Cursor, tag: Tag)
    requires
        c.wf(),
        <crate::per::de::Decoder as Decoder>::any_spec(c, tag) is Ok,
    ensures
        ({
            let read = <crate::per::de::Decoder as Decoder>::any_spec(c, tag)->Ok_0;
            &&& <crate::per::enc::Encoder as Encoder>::any_spec(read_so_far(c), read.0) == Ok::<
                Output,
                ErrorKind,
            >(read_so_far(read.1))
            &&& <crate::tag_map::Open as Encode<crate::per::enc::Encoder>>::encode_spec(
                (tag, read.0),
                read_so_far(c),
            ) == Ok::<Output, ErrorKind>(read_so_far(read.1))
        }),
{
    crate::per::laws::lemma_octets_canonical(c, Constraints::unconstrained());
}

/// The octets of an undecoded value are read back.
pub proof fn lemma_any_reads_back(value: Seq<u8>, s: Output, rest: Seq<bool>)
    requires
        value.len() <= usize::MAX,
    ensures
        reads_back::<crate::types::Any>(value, s, rest),
{
    lemma_octets_round_trip(s, value, Constraints::unconstrained(), rest);
}

/// The value without content is read back: it takes no bit.
pub proof fn lemma_unit_reads_back(s: Output, rest: Seq<bool>)
    ensures
        reads_back::<()>((), s, rest),
{
}

/// A boolean is read back.
pub proof fn lemma_bool_reads_back(value: bool, s: Output, rest: Seq<bool>)
    ensures
        reads_back::<bool>(value, s, rest),
{
    lemma_bool_round_trip(s, value, rest);
}

/// An integer is read back.
pub proof fn lemma_integer_reads_back(value: int, s: Output, rest: Seq<bool>)
    requires
        i128::MIN <= value <= i128::MAX,
    ensures
        reads_back::<Integer>(value, s, rest),
{
    lemma_integer_round_trip(s, value, Constraints::unconstrained(), rest);
}

/// An octet string is read back.
pub proof fn lemma_octet_string_reads_back(value: Seq<u8>, s: Output, rest: Seq<bool>)
    requires
        value.len() <= usize::MAX,
    ensures
        reads_back::<OctetString>(value, s, rest),
{
    lemma_octets_round_trip(s, value, Constraints::unconstrained(), rest);
}

/// A bit string is read back.
pub proof fn lemma_bit_string_reads_back(value: Seq<bool>, s: Output, rest: Seq<bool>)
    requires
        value.len() <= usize::MAX,
    ensures
        reads_back::<BitString>(value, s, rest),
{
    lemma_bit_field_round_trip(s, value, Constraints::unconstrained(), rest);
}

/// An object identifier is read back.
pub proof fn lemma_object_identifier_reads_back(value: Seq<u32>, s: Output, rest: Seq<bool>)
    requires
        crate::oid::contents(value).len() <= usize::MAX,
    ensures
        reads_back::<crate::oid::ObjectIdentifier>(value, s, rest),
{
    if crate::per::wire::enc_oid(s, value) is Ok {
        crate::per::laws::lemma_oid_round_trip(s, value, rest);
    }
}

/// A time to the minute is read back.
pub proof fn lemma_utc_time_reads_back(value: crate::time::UtcTime, s: Output, rest: Seq<bool>)
    ensures
        reads_back::<crate::time::UtcTime>(value, s, rest),
{
    if value.wf() {
        crate::time::lemma_utc_round_trip(value);
        lemma_octets_round_trip(s, value.text(), Constraints::unconstrained(), rest);
    }
}

/// A time to the thousandth of a second is read back.
pub proof fn lemma_generalized_time_reads_back(value: crate::time::GeneralizedTime, s: Output, rest: Seq<bool>)
    ensures
        reads_back::<crate::time::GeneralizedTime>(value, s, rest),
{
    if value.wf() {
        crate::time::lemma_generalized_round_trip(value);
        lemma_octets_round_trip(s, value.text(), Constraints::unconstrained(), rest);
    }
}

/// A text is read back.
pub proof fn lemma_text_reads_back(value: Seq<char>, s: Output, rest: Seq<bool>)
    requires
        vstd::utf8::encode_utf8(value).len() <= usize::MAX,
    ensures
        reads_back::<String>(value, s, rest),
{
    vstd::utf8::encode_utf8_valid_utf8(value);
    vstd::utf8::encode_utf8_decode_utf8(value);
    lemma_octets_round_trip(s, vstd::utf8::encode_utf8(value), Constraints::unconstrained(), rest);
}

/// Where `value` can be written behind `s` under `tag`, a reader that
/// stands behind `s` reads it back under `tag`.
pub open spec fn reads_back_under<
    T: Encode<crate::per::enc::Encoder> + Decode<crate::per::de::Decoder>,
>(value: T::V, s: Output, rest: Seq<bool>, tag: Tag) -> bool {
    match <T as Encode<crate::per::enc::Encoder>>::encode_with_tag_spec(value, s, tag) {
        Ok(written) => <T as Decode<crate::per::de::Decoder>>::decode_with_tag_spec(
            reader(s, written.bits + rest),
            tag,
        ) == Ok::<(T::V, Cursor), ErrorKind>((value, reader(written, written.bits + rest))),
        Err(_) => true,
    }
}

/// A boolean and an integer are read back under every tag: the format
/// writes no tag.
pub proof fn lemma_read_back_under(tag: Tag, s: Output, rest: Seq<bool>)
    ensures
        forall|value: bool| #[trigger] reads_back_under::<bool>(value, s, rest, tag),
        forall|value: int|
            i128::MIN <= value <= i128::MAX ==> #[trigger] reads_back_under::<Integer>(
                value,
                s,
                rest,
                tag,
            ),
{
    assert forall|value: bool| #[trigger] reads_back_under::<bool>(value, s, rest, tag) by {
        lemma_bool_round_trip(s, value, rest);
    }
    assert forall|value: int| i128::MIN <= value <= i128::MAX implies #[trigger]
        reads_back_under::<Integer>(value, s, rest, tag) by {
        lemma_integer_round_trip(s, value, Constraints::unconstrained(), rest);
    }
}

/// An implicitly tagged value is read back where the value inside is read
/// back under the tag that takes the place of its own.
pub proof fn lemma_implicit_reads_back<
    T: AsnType,
    V: Encode<crate::per::enc::Encoder> + Decode<crate::per::de::Decoder>,
>(value: V::V, s: Output, rest: Seq<bool>)
    requires
        reads_back_under::<V>(value, s, rest, T::tag_spec()),
    ensures
        reads_back::<crate::types::Implicit<T, V>>(value, s, rest),
{
}

/// An explicitly tagged value is read back where the value inside is read
/// back from an encoder of its own.
pub proof fn lemma_explicit_reads_back<
    T: AsnType,
    V: Encode<crate::per::enc::Encoder> + Decode<crate::per::de::Decoder>,
>(value: V::V, s: Output, rest: Seq<bool>)
    requires
        reads_back::<V>(value, Output { bits: Seq::empty(), aligned: s.aligned }, Seq::empty()),
        <V as Encode<crate::per::enc::Encoder>>::encode_spec(
            value,
            Output { bits: Seq::empty(), aligned: s.aligned },
        ) is Ok ==> <V as Encode<crate::per::enc::Encoder>>::encode_spec(
            value,
            Output { bits: Seq::empty(), aligned: s.aligned },
        )->Ok_0.bits.len() <= usize::MAX,
    ensures
        reads_back::<Explicit<T, V>>(value, s, rest),
{
    let blank = Output { bits: Seq::empty(), aligned: s.aligned };
    let inner = <V as Encode<crate::per::enc::Encoder>>::encode_spec(value, blank);
    if inner is Ok {
        let members = inner->Ok_0;
        lemma_scope_round_trip(s, members.bits, rest);
        assert(members.bits + Seq::<bool>::empty() =~= members.bits);
    }
}

/// An optional value that is absent takes no room: the state of the encoder
/// stays as it was, in every format.
pub proof fn lemma_absent_writes_nothing<E: Encoder, T: Encode<E>>(s: E::V, tag: Tag)
    ensures
        <Option<T> as Encode<E>>::encode_with_tag_spec(None, s, tag) == Ok::<E::V, ErrorKind>(s),
        <Option<T> as Encode<E>>::encode_spec(None, s) == Ok::<E::V, ErrorKind>(s),
{
}

/// Where the next tag is not the one expected, an optional value is read as
/// absent and the state of the decoder stays as it was, in every format:
/// what belongs to the following field is not read.
pub proof fn lemma_absent_reads_nothing<D: Decoder, T: Decode<D>>(s: D::V, tag: Tag)
    requires
        D::peek_tag_spec(s) != Ok::<Tag, ErrorKind>(tag),
    ensures
        <Option<T> as Decode<D>>::decode_with_tag_spec(s, tag) == Ok::<(Option<T::V>, D::V), ErrorKind>(
            (None, s),
        ),
{
}

/// An absent optional value is read back as absent, and the field that
/// follows it is read from where it stands.
pub proof fn lemma_absent_then_present<
    T: Encode<crate::per::enc::Encoder> + Decode<crate::per::de::Decoder>,
    U: Encode<crate::per::enc::Encoder> + Decode<crate::per::de::Decoder>,
>(next: U::V, s: Output, rest: Seq<bool>)
    requires
        reads_back::<U>(next, s, rest),
        <U as Encode<crate::per::enc::Encoder>>::encode_spec(next, s) is Ok,
    ensures
        ({
            let absent = <Option<T> as Encode<crate::per::enc::Encoder>>::encode_spec(None, s)->Ok_0;
            let written = <U as Encode<crate::per::enc::Encoder>>::encode_spec(next, absent)->Ok_0;
            let first = <Option<T> as Decode<crate::per::de::Decoder>>::decode_spec(
                reader(s, written.bits + rest),
            );
            &&& absent == s
            &&& first == Ok::<(Option<T::V>, Cursor), ErrorKind>(
                (None, reader(s, written.bits + rest)),
            )
            &&& <U as Decode<crate::per::de::Decoder>>::decode_spec(first->Ok_0.1) == Ok::<
                (U::V, Cursor),
                ErrorKind,
            >((next, reader(written, written.bits + rest)))
        }),
{
}

/// An `i8` is read back.
pub proof fn lemma_i8_reads_back(value: i8, s: Output, rest: Seq<bool>)
    ensures
        reads_back::<i8>(value, s, rest),
{
    lemma_integer_round_trip(s, value as int, Constraints::unconstrained(), rest);
}

/// An `i16` is read back.
pub proof fn lemma_i16_reads_back(value: i16, s: Output, rest: Seq<bool>)
    ensures
        reads_back::<i16>(value, s, rest),
{
    lemma_integer_round_trip(s, value as int, Constraints::unconstrained(), rest);
}

/// An `i32` is read back.
pub proof fn lemma_i32_reads_back(value: i32, s: Output, rest: Seq<bool>)
    ensures
        reads_back::<i32>(value, s, rest),
{
    lemma_integer_round_trip(s, value as int, Constraints::unconstrained(), rest);
}

/// An `i64` is read back.
pub proof fn lemma_i64_reads_back(value: i64, s: Output, rest: Seq<bool>)
    ensures
        reads_back::<i64>(value, s, rest),
{
    lemma_integer_round_trip(s, value as int, Constraints::unconstrained(), rest);
}

/// An `i128` is read back.
pub proof fn lemma_i128_reads_back(value: i128, s: Output, rest: Seq<bool>)
    ensures
        reads_back::<i128>(value, s, rest),
{
    lemma_integer_round_trip(s, value as int, Constraints::unconstrained(), rest);
}

/// An `isize` is read back.
pub proof fn lemma_isize_reads_back(value: isize, s: Output, rest: Seq<bool>)
    ensures
        reads_back::<isize>(value, s, rest),
{
    lemma_integer_round_trip(s, value as int, Constraints::unconstrained(), rest);
}

/// A `u8` is read back.
pub proof fn lemma_u8_reads_back(value: u8, s: Output, rest: Seq<bool>)
    ensures
        reads_back::<u8>(value, s, rest),
{
    lemma_integer_round_trip(s, value as int, Constraints::unconstrained(), rest);
}

/// A `u16` is read back.
pub proof fn lemma_u16_reads_back(value: u16, s: Output, rest: Seq<bool>)
    ensures
        reads_back::<u16>(value, s, rest),
{
    lemma_integer_round_trip(s, value as int, Constraints::unconstrained(), rest);
}

/// A `u32` is read back.
pub proof fn lemma_u32_reads_back(value: u32, s: Output, rest: Seq<bool>)
    ensures
        reads_back::<u32>(value, s, rest),
{
    lemma_integer_round_trip(s, value as int, Constraints::unconstrained(), rest);
}

/// A `u64` is read back.
pub proof fn lemma_u64_reads_back(value: u64, s: Output, rest: Seq<bool>)
    ensures
        reads_back::<u64>(value, s, rest),
{
    lemma_integer_round_trip(s, value as int, Constraints::unconstrained(), rest);
}

/// A `u128` is read back.
pub proof fn lemma_u128_reads_back(value: u128, s: Output, rest: Seq<bool>)
    requires
        value <= i128::MAX,
    ensures
        reads_back::<u128>(value, s, rest),
{
    lemma_integer_round_trip(s, value as int, Constraints::unconstrained(), rest);
}

/// A `usize` is read back.
pub proof fn lemma_usize_reads_back(value: usize, s: Output, rest: Seq<bool>)
    ensures
        reads_back::<usize>(value, s, rest),
{
    lemma_integer_round_trip(s, value as int, Constraints::unconstrained(), rest);
}

} // verus!
