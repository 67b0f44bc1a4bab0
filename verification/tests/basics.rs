use rasn::bits::BitString;
use rasn::constraints::Constraints;
use rasn::error::ErrorKind;
use rasn::integer::Integer;
use rasn::per::de::Decoder;
use rasn::per::enc::{Encoder, Input};
use rasn::uper;

fn bits_of(encoder: &Encoder) -> Vec<bool> {
    let bits: &BitString = encoder.bits();
    (0..bits.len()).map(|i| bits.get(i).unwrap()).collect()
}

#[test]
fn unit_decodes_from_nothing() {
    let value: Result<(), _> = uper::decode(&[]);
    assert!(value.is_ok());
}

#[test]
fn five_under_zero_to_seven_takes_three_bits() {
    let mut encoder = Encoder::new();
    let constraints = Constraints::range(0, 7).unwrap();
    encoder.write_integer(&Integer::new(5), &constraints).unwrap();
    assert_eq!(bits_of(&encoder), vec![true, false, true]);
}

#[test]
fn true_is_one_set_bit() {
    let mut encoder = Encoder::new();
    encoder.write_bool(true);
    assert_eq!(bits_of(&encoder), vec![true]);
    assert_eq!(uper::encode(&true).unwrap(), vec![0x80]);
}

#[test]
fn absent_integer_then_boolean() {
    let mut encoder = Encoder::new();
    let absent: Option<Integer> = None;
    rasn::enc::Encode::encode(&absent, &mut encoder).unwrap();
    rasn::enc::Encode::encode(&true, &mut encoder).unwrap();
    assert_eq!(bits_of(&encoder), vec![true]);
    let mut decoder = Decoder::new(&encoder.output());
    let first: Option<Integer> = rasn::de::Decode::decode(&mut decoder).unwrap();
    assert_eq!(first, None);
    assert_eq!(decoder.position(), 0);
    let second: bool = rasn::de::Decode::decode(&mut decoder).unwrap();
    assert!(second);
    assert_eq!(decoder.position(), 1);
}

#[test]
fn integer_outside_bounds_is_refused() {
    let mut encoder = Encoder::new();
    let constraints = Constraints::range(0, 7).unwrap();
    let error = encoder.write_integer(&Integer::new(8), &constraints).unwrap_err();
    assert_eq!(error.kind, ErrorKind::OutOfRange);
    assert_eq!(encoder.bit_len(), 0);
}

#[test]
fn input_from_bits_and_octets() {
    let bits = BitString::from_bits(vec![true, true, false]);
    let octets = vec![0xF0u8];
    let mut encoder = Encoder::new();
    encoder.extend(Input::from(&bits));
    encoder.extend(Input::from(&octets));
    encoder.extend(Input::from(&octets[..]));
    assert_eq!(encoder.bit_len(), 19);
    assert_eq!(encoder.output(), vec![0b1101_1110, 0b0001_1110, 0b0000_0000]);
    assert_eq!(Input::from(&bits).len(), 3);
    assert_eq!(Input::from(&octets).len(), 1);
}

#[test]
fn bit_strings_pack_into_octets() {
    let mut bits = BitString::new();
    assert_eq!(bits.to_bytes(), Vec::<u8>::new());
    bits.push(true);
    assert_eq!(bits.to_bytes(), vec![0x80]);
    bits.extend_from_bytes(&[0xFF]);
    assert_eq!(bits.len(), 9);
    assert_eq!(bits.to_bytes(), vec![0xFF, 0x80]);
    assert_eq!(bits.get(8), Some(true));
    assert_eq!(bits.get(9), None);
    assert_eq!(bits.number(1, 8), 0xFF);
    assert_eq!(bits.slice(0, 2).to_bytes(), vec![0xC0]);
    assert!(!bits.all_zero(0, 9));
    let unpacked = BitString::from_bytes(&[0xA5]);
    assert_eq!(unpacked.to_bytes(), vec![0xA5]);
    assert_eq!(unpacked.number(0, 4), 0xA);
    assert!(BitString::from_bytes(&[0x00, 0x01]).all_zero(0, 15));
    let copy = unpacked.clone();
    assert_eq!(copy.to_bytes(), vec![0xA5]);
}

#[test]
fn constraints_admit_what_lies_within() {
    assert!(Constraints::range(3, 2).is_none());
    let bounds = Constraints::range(2, 3).unwrap();
    assert!(bounds.finite());
    assert!(bounds.contains(2) && bounds.contains(3));
    assert!(!bounds.contains(1) && !bounds.contains(4));
    assert!(bounds.extended().contains(4));
    assert!(!bounds.extended().finite());
    assert!(Constraints::none().contains(i128::MIN));
    assert!(!Constraints::none().finite());
    assert_eq!(Constraints::exact(5), Constraints::range(5, 5).unwrap());
}

#[test]
fn integers_narrow_only_where_they_fit() {
    assert_eq!(Integer::new(255).to_u8(), Some(255));
    assert_eq!(Integer::new(256).to_u8(), None);
    assert_eq!(Integer::new(-1).to_u8(), None);
    assert_eq!(Integer::new(-128).to_i8(), Some(-128));
    assert_eq!(Integer::new(-129).to_i8(), None);
    assert_eq!(Integer::new(-1).to_u128(), None);
    assert_eq!(Integer::new(i128::MAX).to_u128(), Some(i128::MAX as u128));
    assert!(Integer::from_u128(u128::MAX).is_none());
    assert_eq!(Integer::from_u64(7).unwrap(), Integer::new(7));
    assert_eq!(Integer::new(-129).to_octets(), vec![0xFF, 0x7F]);
    assert_eq!(Integer::from_octets(&[0xFF, 0x7F]).unwrap(), Integer::new(-129));
    assert_eq!(Integer::from_octets(&[]).unwrap_err(), ErrorKind::Violation);
    assert_eq!(Integer::from_octets(&[0xFF, 0x80]).unwrap_err(), ErrorKind::Violation);
    assert_eq!(Integer::from_octets(&[0x01; 17]).unwrap_err(), ErrorKind::NarrowingOverflow);
    assert_eq!(Integer::new(i128::MIN).octet_count(), 16);
}

#[test]
fn aligned_entry_points() {
    let value = rasn::types::OctetString::from(vec![1, 2, 3]);
    let encoded = rasn::aper::encode(&value).unwrap();
    assert_eq!(encoded, vec![0x03, 0x01, 0x02, 0x03]);
    let back: rasn::types::OctetString = rasn::aper::decode(&encoded).unwrap();
    assert_eq!(back.bytes, vec![1, 2, 3]);
    let pair = (true, Integer::new(-5));
    let mut encoder = Encoder::new_aligned();
    rasn::enc::Encode::encode(&pair.0, &mut encoder).unwrap();
    rasn::enc::Encode::encode(&pair.1, &mut encoder).unwrap();
    assert_eq!(encoder.output(), vec![0x80, 0x80, 0xFB]);
    let mut decoder = Decoder::new_aligned(&encoder.output());
    let first: bool = rasn::de::Decode::decode(&mut decoder).unwrap();
    let second: Integer = rasn::de::Decode::decode(&mut decoder).unwrap();
    assert_eq!((first, second), pair);
}

#[test]
fn failures_describe_themselves() {
    let error = rasn::per::de::Error::new(ErrorKind::EndOfInput);
    assert_eq!(error.describe(), "the input ended too early");
    let error = rasn::per::enc::Error::new(ErrorKind::OutOfRange);
    assert_eq!(error.describe(), "the value is outside its constraint");
    let error = rasn::per::enc::Error::with_message("no room");
    assert_eq!(error.kind, ErrorKind::Custom);
    assert_eq!(error.describe(), "no room");
    let error: rasn::per::de::Error = rasn::de::Error::custom("odd input");
    assert_eq!(error.describe(), "odd input");
}
