use rasn::bits::BitString;
use rasn::constraints::Constraints;
use rasn::de::{decode_sequence_of, decode_set_of, Decode};
use rasn::enc::{encode_sequence_of, Encode};
use rasn::error::ErrorKind;
use rasn::integer::Integer;
use rasn::per::de::Decoder;
use rasn::per::enc::Encoder;
use rasn::set_of::SetOf;
use rasn::tag::{Class, Tag};
use rasn::tag_map::{Open, TagMap};
use rasn::types::{Explicit, Implicit, OctetString};
use rasn::uper;

fn sequence_tag() -> Tag {
    Tag::new_universal(rasn::tag::SEQUENCE)
}

#[test]
fn three_integers_under_exact_length() {
    let values = vec![Integer::new(1), Integer::new(-2), Integer::new(300)];
    let exact = Constraints::exact(3);
    let mut encoder = Encoder::new();
    encode_sequence_of(&values, &mut encoder, sequence_tag(), &exact).unwrap();
    // Each integer is a length octet and its octets; no count is written.
    assert_eq!(encoder.output(), vec![0x01, 0x01, 0x01, 0xFE, 0x02, 0x01, 0x2C]);
    let mut decoder = Decoder::new(&encoder.output());
    let back: Vec<Integer> = decode_sequence_of(&mut decoder, sequence_tag(), &exact).unwrap();
    assert_eq!(back, values);
    assert_eq!(decoder.position(), 56);
}

#[test]
fn exact_length_refuses_another_count() {
    let values = vec![Integer::new(1), Integer::new(2)];
    let mut encoder = Encoder::new();
    let error =
        encode_sequence_of(&values, &mut encoder, sequence_tag(), &Constraints::exact(3)).unwrap_err();
    assert_eq!(error.kind, ErrorKind::OutOfRange);
}

#[test]
fn narrowing_three_hundred_into_a_byte_fails() {
    let bytes = uper::encode(&Integer::new(300)).unwrap();
    let result: Result<u8, _> = uper::decode(&bytes);
    let error = result.unwrap_err();
    assert_eq!(error.kind, ErrorKind::Custom);
    assert_eq!(error.describe(), "integer does not fit the target type");
    let wide: u16 = uper::decode(&bytes).unwrap();
    assert_eq!(wide, 300);
}

#[test]
fn machine_integers_round_trip() {
    assert_eq!(uper::decode::<i8>(&uper::encode(&-128i8).unwrap()).unwrap(), -128);
    assert_eq!(uper::decode::<i64>(&uper::encode(&i64::MIN).unwrap()).unwrap(), i64::MIN);
    assert_eq!(uper::decode::<u64>(&uper::encode(&u64::MAX).unwrap()).unwrap(), u64::MAX);
    assert_eq!(uper::decode::<i128>(&uper::encode(&i128::MAX).unwrap()).unwrap(), i128::MAX);
    assert_eq!(uper::decode::<i128>(&uper::encode(&i128::MIN).unwrap()).unwrap(), i128::MIN);
    assert_eq!(uper::decode::<usize>(&uper::encode(&77usize).unwrap()).unwrap(), 77);
    assert_eq!(uper::encode(&u128::MAX).unwrap_err().kind, ErrorKind::Custom);
}

#[test]
fn integer_octets_are_minimal() {
    assert_eq!(uper::encode(&Integer::new(0)).unwrap(), vec![0x01, 0x00]);
    assert_eq!(uper::encode(&Integer::new(127)).unwrap(), vec![0x01, 0x7F]);
    assert_eq!(uper::encode(&Integer::new(128)).unwrap(), vec![0x02, 0x00, 0x80]);
    assert_eq!(uper::encode(&Integer::new(-128)).unwrap(), vec![0x01, 0x80]);
    assert_eq!(uper::encode(&Integer::new(-129)).unwrap(), vec![0x02, 0xFF, 0x7F]);
    // A leading octet that only repeats the sign is refused.
    let padded: Result<Integer, _> = uper::decode(&[0x02, 0x00, 0x7F]);
    assert_eq!(padded.unwrap_err().kind, ErrorKind::Violation);
}

#[test]
fn octet_strings_of_every_length_form() {
    for len in [0usize, 1, 127, 128, 16383, 16384, 16385, 65536, 70000, 131072] {
        let bytes: Vec<u8> = (0..len).map(|i| (i % 251) as u8).collect();
        let value = OctetString::from(bytes.clone());
        let encoded = uper::encode(&value).unwrap();
        let back: OctetString = uper::decode(&encoded).unwrap();
        assert_eq!(back.bytes, bytes, "length {}", len);
    }
}

#[test]
fn long_form_headers() {
    let mut encoder = Encoder::new();
    let none = Constraints::none();
    assert_eq!(encoder.encode_length(5, &none).unwrap(), (5, false));
    assert_eq!(encoder.encode_length(300, &none).unwrap(), (300, false));
    assert_eq!(encoder.encode_length(40000, &none).unwrap(), (32768, true));
    assert_eq!(encoder.encode_length(70000, &none).unwrap(), (65536, true));
    assert_eq!(encoder.output(), vec![0x05, 0x81, 0x2C, 0xC2, 0xC4]);
}

#[test]
fn length_forms_follow_the_constraint() {
    let mut encoder = Encoder::new();
    encoder.encode_length(3, &Constraints::exact(3)).unwrap();
    assert_eq!(encoder.bit_len(), 0);
    encoder.encode_length(5, &Constraints::range(2, 9).unwrap()).unwrap();
    assert_eq!(encoder.bit_len(), 3);
    assert_eq!(encoder.output(), vec![0b0110_0000]);
    let mut decoder = Decoder::new(&encoder.output());
    assert_eq!(decoder.decode_length(&Constraints::exact(3)).unwrap(), (3, false));
    assert_eq!(decoder.decode_length(&Constraints::range(2, 9).unwrap()).unwrap(), (5, false));
    assert_eq!(decoder.position(), 3);
    let error = encoder.encode_length(10, &Constraints::range(2, 9).unwrap()).unwrap_err();
    assert_eq!(error.kind, ErrorKind::OutOfRange);
    // An extensible constraint, and a large one, use the long form.
    let mut long = Encoder::new();
    long.encode_length(5, &Constraints::range(2, 9).unwrap().extended()).unwrap();
    long.encode_length(5, &Constraints::range(0, 70000).unwrap()).unwrap();
    assert_eq!(long.output(), vec![0x05, 0x05]);
}

#[test]
fn malformed_lengths_are_refused() {
    let none = Constraints::none();
    // Two octets for a length that one octet holds.
    let mut decoder = Decoder::new(&[0x80, 0x05]);
    assert_eq!(decoder.decode_length(&none).unwrap_err().kind, ErrorKind::MalformedLength);
    assert_eq!(decoder.position(), 0);
    // A fragment of no chunk, and one of five.
    let mut decoder = Decoder::new(&[0xC0]);
    assert_eq!(decoder.decode_length(&none).unwrap_err().kind, ErrorKind::MalformedLength);
    let mut decoder = Decoder::new(&[0xC5]);
    assert_eq!(decoder.decode_length(&none).unwrap_err().kind, ErrorKind::MalformedLength);
    let mut decoder = Decoder::new(&[]);
    assert_eq!(decoder.decode_length(&none).unwrap_err().kind, ErrorKind::EndOfInput);
    // An offset beyond the range.
    let mut decoder = Decoder::new(&[0b1110_0000]);
    let narrow = Constraints::range(0, 5).unwrap();
    assert_eq!(decoder.decode_length(&narrow).unwrap_err().kind, ErrorKind::MalformedLength);
}

#[test]
fn premature_end_is_reported() {
    let result: Result<bool, _> = uper::decode(&[]);
    assert_eq!(result.unwrap_err().kind, ErrorKind::EndOfInput);
    let result: Result<OctetString, _> = uper::decode(&[0x03, 0x01]);
    assert_eq!(result.unwrap_err().kind, ErrorKind::EndOfInput);
}

#[test]
fn aligned_variant_pads_before_octets() {
    let mut encoder = Encoder::new_aligned();
    encoder.write_bool(true);
    encoder.write_octets(&[0xAB], &Constraints::none()).unwrap();
    // One bit, the length octet, padding of seven bits, then the octet.
    assert_eq!(encoder.bit_len(), 24);
    assert_eq!(encoder.output(), vec![0x80, 0x80, 0xAB]);
    let mut decoder = Decoder::new_aligned(&encoder.output());
    assert!(decoder.read_bool().unwrap());
    assert_eq!(decoder.read_octets(&Constraints::none()).unwrap(), vec![0xAB]);
    // Padding that is not zero is refused.
    let mut decoder = Decoder::new_aligned(&[0x80, 0xFF, 0xAB]);
    assert!(decoder.read_bool().unwrap());
    assert_eq!(decoder.read_octets(&Constraints::none()).unwrap_err().kind, ErrorKind::Violation);
    // The unaligned variant never pads.
    let mut plain = Encoder::new();
    plain.write_bool(true);
    plain.write_octets(&[0xAB], &Constraints::none()).unwrap();
    assert_eq!(plain.bit_len(), 17);
}

#[test]
fn non_negative_integers_in_their_natural_width() {
    let mut encoder = Encoder::new();
    encoder.encode_non_negative_binary_integer(Integer::new(5));
    assert_eq!(encoder.bit_len(), 3);
    encoder.encode_non_negative_binary_integer(Integer::new(0));
    assert_eq!(encoder.bit_len(), 4);
    assert_eq!(encoder.output(), vec![0b1010_0000]);
    let mut aligned = Encoder::new_aligned();
    aligned.encode_non_negative_binary_integer(Integer::new(5));
    aligned.encode_non_negative_binary_integer(Integer::new(256));
    assert_eq!(aligned.output(), vec![0x05, 0x01, 0x00]);
    let mut decoder = Decoder::new(&[0b1010_0000]);
    assert_eq!(decoder.decode_non_negative_binary_integer(3).unwrap(), Integer::new(5));
}

#[test]
fn constrained_integers() {
    let mut encoder = Encoder::new();
    let bounds = Constraints::range(-3, 12).unwrap();
    encoder.write_integer(&Integer::new(-3), &bounds).unwrap();
    encoder.write_integer(&Integer::new(12), &bounds).unwrap();
    encoder.write_integer(&Integer::new(9), &Constraints::exact(9)).unwrap();
    assert_eq!(encoder.bit_len(), 8);
    assert_eq!(encoder.output(), vec![0x0F]);
    let mut decoder = Decoder::new(&encoder.output());
    assert_eq!(decoder.read_integer(&bounds).unwrap(), Integer::new(-3));
    assert_eq!(decoder.read_integer(&bounds).unwrap(), Integer::new(12));
    assert_eq!(decoder.read_integer(&Constraints::exact(9)).unwrap(), Integer::new(9));
    let whole = Constraints::range(i128::MIN, i128::MAX).unwrap();
    let mut wide = Encoder::new();
    wide.write_integer(&Integer::new(i128::MAX), &whole).unwrap();
    assert_eq!(wide.bit_len(), 128);
    let mut decoder = Decoder::new(&wide.output());
    assert_eq!(decoder.read_integer(&whole).unwrap(), Integer::new(i128::MAX));
    // An offset beyond the range is refused.
    let mut decoder = Decoder::new(&[0b1100_0000]);
    let narrow = Constraints::range(0, 2).unwrap();
    assert_eq!(decoder.read_integer(&narrow).unwrap_err().kind, ErrorKind::OutOfRange);
}

#[test]
fn enumerated_choices() {
    let mut encoder = Encoder::new();
    encoder.write_enumerated(2, 3).unwrap();
    encoder.write_enumerated(0, 1).unwrap();
    assert_eq!(encoder.bit_len(), 2);
    assert_eq!(encoder.write_enumerated(3, 3).unwrap_err().kind, ErrorKind::OutOfRange);
    assert_eq!(encoder.write_enumerated(-1, 3).unwrap_err().kind, ErrorKind::OutOfRange);
    let mut decoder = Decoder::new(&encoder.output());
    assert_eq!(decoder.read_enumerated(3).unwrap(), Integer::new(2));
    assert_eq!(decoder.read_enumerated(1).unwrap(), Integer::new(0));
    assert_eq!(decoder.read_enumerated(0).unwrap_err().kind, ErrorKind::OutOfRange);
    let mut decoder = Decoder::new(&[0b1100_0000]);
    assert_eq!(decoder.read_enumerated(3).unwrap_err().kind, ErrorKind::OutOfRange);
}

#[test]
fn texts_and_bit_strings() {
    let text = String::from("héllo, wörld");
    let back: String = uper::decode(&uper::encode(&text).unwrap()).unwrap();
    assert_eq!(back, text);
    let invalid: Result<String, _> = uper::decode(&[0x02, 0xC3, 0x28]);
    assert_eq!(invalid.unwrap_err().kind, ErrorKind::Violation);
    let bits = BitString::from_bits(vec![true, false, true, true, false]);
    let encoded = uper::encode(&bits).unwrap();
    assert_eq!(encoded, vec![0x05, 0b1011_0000]);
    let back: BitString = uper::decode(&encoded).unwrap();
    assert_eq!(back.len(), 5);
    assert_eq!(back.to_bytes(), vec![0b1011_0000]);
}

#[test]
fn sequences_of_booleans_and_nested_sequences() {
    let flags = vec![true, false, true];
    let encoded = uper::encode(&flags).unwrap();
    assert_eq!(encoded, vec![0x03, 0b1010_0000]);
    let back: Vec<bool> = uper::decode(&encoded).unwrap();
    assert_eq!(back, flags);
    let nested = vec![vec![1u8, 2], vec![], vec![3]];
    let back: Vec<Vec<u8>> = uper::decode(&uper::encode(&nested).unwrap()).unwrap();
    assert_eq!(back, nested);
    let many: Vec<bool> = (0..40000).map(|i| i % 3 == 0).collect();
    let back: Vec<bool> = uper::decode(&uper::encode(&many).unwrap()).unwrap();
    assert_eq!(back, many);
}

#[test]
fn sets_come_out_in_ascending_order() {
    let values = vec![5u8, 1, 5, 3, 1];
    let mut encoder = Encoder::new();
    encode_sequence_of(&values, &mut encoder, sequence_tag(), &Constraints::none()).unwrap();
    let mut decoder = Decoder::new(&encoder.output());
    let set: SetOf<u8> =
        decode_set_of(&mut decoder, Tag::new_universal(rasn::tag::SET), &Constraints::none()).unwrap();
    assert_eq!(set.as_slice(), &[1, 3, 5]);
    let again: SetOf<u8> = uper::decode(&uper::encode(&set).unwrap()).unwrap();
    assert_eq!(again.as_slice(), &[1, 3, 5]);
}

#[test]
fn tagged_wrappers() {
    let implicit: Implicit<bool, Integer> = Implicit::new(Integer::new(7));
    assert_eq!(uper::encode(&implicit).unwrap(), uper::encode(&Integer::new(7)).unwrap());
    let back: Implicit<bool, Integer> = uper::decode(&uper::encode(&implicit).unwrap()).unwrap();
    assert_eq!(back.value, Integer::new(7));
    let explicit: Explicit<bool, Integer> = Explicit::new(Integer::new(7));
    let encoded = uper::encode(&explicit).unwrap();
    // Sixteen bits of content behind the determinant of their number.
    assert_eq!(encoded, vec![0x10, 0x01, 0x07]);
    let back: Explicit<bool, Integer> = uper::decode(&encoded).unwrap();
    assert_eq!(back.value, Integer::new(7));
}

#[test]
fn nested_scope_cannot_read_past_its_end() {
    let mut members = Encoder::new();
    members.write_bool(true);
    let mut encoder = Encoder::new();
    encoder.write_scope(&members);
    encoder.write_bool(true);
    let mut decoder = Decoder::new(&encoder.output());
    let mut scope = decoder.read_scope().unwrap();
    assert!(scope.read_bool().unwrap());
    assert_eq!(scope.read_bool().unwrap_err().kind, ErrorKind::EndOfInput);
    assert!(decoder.read_bool().unwrap());
}

#[test]
fn tag_map_keeps_entries_in_tag_order() {
    let mut map = TagMap::new();
    map.insert(Open::new(Tag::new(Class::ContextSpecific, 2), vec![0xAA]));
    map.insert(Open::new(Tag::new(Class::Universal, 9), vec![0xBB]));
    map.insert(Open::new(Tag::new(Class::ContextSpecific, 0), vec![0xCC]));
    map.insert(Open::new(Tag::new(Class::ContextSpecific, 2), vec![0xDD]));
    assert_eq!(map.len(), 3);
    assert_eq!(map.entry(0).tag(), Tag::new(Class::Universal, 9));
    assert_eq!(map.entry(1).tag(), Tag::new(Class::ContextSpecific, 0));
    assert_eq!(map.entry(2).tag(), Tag::new(Class::ContextSpecific, 2));
    assert_eq!(map.get(&Tag::new(Class::ContextSpecific, 2)).unwrap().contents, vec![0xDD]);
    assert!(map.get(&Tag::new(Class::Private, 2)).is_none());
    // The entries are written as they were read, in the order of the tags.
    let mut encoder = Encoder::new();
    map.encode(&mut encoder).unwrap();
    let mut members = Encoder::new();
    members.write_octets(&[0xBB], &Constraints::none()).unwrap();
    members.write_octets(&[0xCC], &Constraints::none()).unwrap();
    members.write_octets(&[0xDD], &Constraints::none()).unwrap();
    let mut expected = Encoder::new();
    expected.write_scope(&members);
    assert_eq!(encoder.output(), expected.output());
    // The format writes no tags, so a reader finds no open value there.
    let mut decoder = Decoder::new(&encoder.output());
    let back = TagMap::decode(&mut decoder).unwrap();
    assert_eq!(back.len(), 0);
    assert_eq!(decoder.position(), encoder.bit_len());
}

#[test]
fn tags_are_ordered_by_class_then_number() {
    let a = Tag::new(Class::Universal, 50);
    let b = Tag::new(Class::Application, 1);
    let c = Tag::new(Class::Application, 2);
    assert!(a.is_before(&b) && b.is_before(&c) && a.is_before(&c));
    assert!(!b.is_before(&a) && !c.is_before(&c));
    assert!(a < b && b < c);
    assert!(a.sort_key() < b.sort_key());
    assert!(c.same(&Tag::new(Class::Application, 2)));
}

#[test]
fn fragments_that_the_encoder_would_not_write_are_refused() {
    let chunk = vec![0x55u8; 16384];
    // One chunk, then one chunk more: the encoder writes two in one fragment.
    let mut split = vec![0xC1];
    split.extend_from_slice(&chunk);
    split.push(0xC1);
    split.extend_from_slice(&chunk);
    split.push(0x00);
    let mut decoder = Decoder::new(&split);
    let error = decoder.read_octets(&Constraints::none()).unwrap_err();
    assert_eq!(error.kind, ErrorKind::MalformedLength);
    assert_eq!(decoder.position(), 0);
    // The same octets as the encoder writes them.
    let mut whole = vec![0xC2];
    whole.extend_from_slice(&chunk);
    whole.extend_from_slice(&chunk);
    whole.push(0x00);
    let mut decoder = Decoder::new(&whole);
    assert_eq!(decoder.read_octets(&Constraints::none()).unwrap().len(), 32768);
    let mut encoder = Encoder::new();
    encoder.write_octets(&[chunk.clone(), chunk].concat(), &Constraints::none()).unwrap();
    assert_eq!(encoder.output(), whole);
}

#[test]
fn kept_values_are_written_as_they_were_read() {
    let input = [0x03, 0xDE, 0xAD, 0xBF, 0x80];
    let mut decoder = Decoder::new(&input);
    let kept: rasn::types::Any = Decode::decode(&mut decoder).unwrap();
    assert_eq!(kept.contents, vec![0xDE, 0xAD, 0xBF]);
    assert_eq!(decoder.position(), 32);
    let mut encoder = Encoder::new();
    kept.encode(&mut encoder).unwrap();
    assert_eq!(encoder.output(), input[..4].to_vec());
    let open = Open::new(Tag::new(Class::Private, 7), kept.contents);
    let mut encoder = Encoder::new();
    open.encode(&mut encoder).unwrap();
    assert_eq!(encoder.output(), input[..4].to_vec());
}
