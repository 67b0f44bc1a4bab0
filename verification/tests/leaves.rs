use rasn::error::ErrorKind;
use rasn::oid::{from_contents, to_contents, ObjectIdentifier};
use rasn::per::de::Decoder;
use rasn::per::enc::Encoder;
use rasn::time::{month_length, GeneralizedTime, UtcTime};
use rasn::uper;

#[test]
fn object_identifier_octets() {
    assert_eq!(
        to_contents(&[1, 2, 840, 113549]).unwrap(),
        vec![0x2A, 0x86, 0x48, 0x86, 0xF7, 0x0D]
    );
    assert_eq!(to_contents(&[2, 999, 3]).unwrap(), vec![0x88, 0x37, 0x03]);
    assert_eq!(to_contents(&[0, 0]).unwrap(), vec![0x00]);
    assert_eq!(
        to_contents(&[2, u32::MAX, u32::MAX]).unwrap(),
        vec![0x90, 0x80, 0x80, 0x80, 0x4F, 0x8F, 0xFF, 0xFF, 0xFF, 0x7F]
    );
    assert!(to_contents(&[1]).is_none());
    assert!(to_contents(&[3, 1]).is_none());
    assert!(to_contents(&[1, 40]).is_none());
    assert!(ObjectIdentifier::new(vec![0, 40]).is_none());
}

#[test]
fn object_identifier_from_octets() {
    let oid = from_contents(&[0x2A, 0x86, 0x48, 0x86, 0xF7, 0x0D]).unwrap();
    assert_eq!(oid.arcs(), &[1, 2, 840, 113549]);
    assert_eq!(from_contents(&[0x88, 0x37, 0x03]).unwrap().arcs(), &[2, 999, 3]);
    assert_eq!(from_contents(&[0x27]).unwrap().arcs(), &[0, 39]);
    assert_eq!(from_contents(&[0x4F]).unwrap().arcs(), &[1, 39]);
    assert_eq!(from_contents(&[0x50]).unwrap().arcs(), &[2, 0]);
    // No octets, a subidentifier without an end, and a leading digit of zero.
    assert_eq!(from_contents(&[]).unwrap_err(), ErrorKind::Violation);
    assert_eq!(from_contents(&[0x2A, 0x86]).unwrap_err(), ErrorKind::Violation);
    assert_eq!(from_contents(&[0x2A, 0x80, 0x01]).unwrap_err(), ErrorKind::Violation);
    // An arc beyond thirty-two bits.
    let wide = [0x2A, 0x90, 0x80, 0x80, 0x80, 0x00];
    assert_eq!(from_contents(&wide).unwrap_err(), ErrorKind::NarrowingOverflow);
    let widest = [0x90, 0x80, 0x80, 0x80, 0x50];
    assert_eq!(from_contents(&widest).unwrap_err(), ErrorKind::NarrowingOverflow);
}

#[test]
fn object_identifier_round_trip() {
    let oid = ObjectIdentifier::new(vec![1, 2, 840, 113549, 1, 1, 11]).unwrap();
    let encoded = uper::encode(&oid).unwrap();
    assert_eq!(encoded[0], 9);
    let back: ObjectIdentifier = uper::decode(&encoded).unwrap();
    assert_eq!(back.arcs(), oid.arcs());
    let mut encoder = Encoder::new();
    assert_eq!(encoder.write_object_identifier(&[5, 1]).unwrap_err().kind, ErrorKind::Violation);
    assert_eq!(encoder.bit_len(), 0);
    let mut decoder = Decoder::new(&[0x01, 0x80]);
    assert_eq!(decoder.read_object_identifier().unwrap_err().kind, ErrorKind::Violation);
    assert_eq!(decoder.position(), 0);
}

#[test]
fn utc_time_text() {
    let time = UtcTime { year: 2021, month: 3, day: 4, hour: 5, minute: 6 };
    assert_eq!(time.to_text().unwrap(), b"2103040506Z".to_vec());
    assert_eq!(UtcTime::from_text(b"2103040506Z").unwrap(), time);
    let old = UtcTime { year: 1950, month: 12, day: 31, hour: 23, minute: 59 };
    assert_eq!(old.to_text().unwrap(), b"5012312359Z".to_vec());
    assert_eq!(UtcTime::from_text(b"5012312359Z").unwrap(), old);
    assert_eq!(UtcTime::from_text(b"4912312359Z").unwrap().year, 2049);
    assert!(UtcTime { year: 2050, month: 1, day: 1, hour: 0, minute: 0 }.to_text().is_none());
    assert!(UtcTime { year: 2021, month: 2, day: 29, hour: 0, minute: 0 }.to_text().is_none());
    assert_eq!(UtcTime::from_text(b"2102290000Z").unwrap_err(), ErrorKind::Violation);
    assert_eq!(UtcTime::from_text(b"2113010000Z").unwrap_err(), ErrorKind::Violation);
    assert_eq!(UtcTime::from_text(b"21030405a6Z").unwrap_err(), ErrorKind::Violation);
    assert_eq!(UtcTime::from_text(b"2103040506").unwrap_err(), ErrorKind::Violation);
    assert_eq!(UtcTime::from_text(b"2103042406Z").unwrap_err(), ErrorKind::Violation);
}

#[test]
fn generalized_time_text() {
    let time = GeneralizedTime {
        year: 1999,
        month: 12,
        day: 31,
        hour: 23,
        minute: 59,
        second: 58,
        millisecond: 123,
    };
    assert_eq!(time.to_text().unwrap(), b"19991231235958.123Z".to_vec());
    assert_eq!(GeneralizedTime::from_text(b"19991231235958.123Z").unwrap(), time);
    let leap = GeneralizedTime::from_text(b"20000229000000.007Z").unwrap();
    assert_eq!((leap.year, leap.month, leap.day, leap.millisecond), (2000, 2, 29, 7));
    assert_eq!(
        GeneralizedTime::from_text(b"19000229000000.000Z").unwrap_err(),
        ErrorKind::Violation
    );
    assert_eq!(
        GeneralizedTime::from_text(b"19991231235960.000Z").unwrap_err(),
        ErrorKind::Violation
    );
    assert_eq!(
        GeneralizedTime::from_text(b"19991231235958,123Z").unwrap_err(),
        ErrorKind::Violation
    );
    assert!(GeneralizedTime { millisecond: 1000, ..time }.to_text().is_none());
}

#[test]
fn times_round_trip() {
    let utc = UtcTime { year: 1987, month: 6, day: 30, hour: 12, minute: 0 };
    let encoded = uper::encode(&utc).unwrap();
    assert_eq!(encoded.len(), 12);
    assert_eq!(encoded[0], 11);
    assert_eq!(uper::decode::<UtcTime>(&encoded).unwrap(), utc);
    let general = GeneralizedTime {
        year: 2024,
        month: 2,
        day: 29,
        hour: 1,
        minute: 2,
        second: 3,
        millisecond: 4,
    };
    let encoded = uper::encode(&general).unwrap();
    assert_eq!(encoded.len(), 20);
    assert_eq!(uper::decode::<GeneralizedTime>(&encoded).unwrap(), general);
    let bad = UtcTime { year: 1987, month: 6, day: 31, hour: 12, minute: 0 };
    assert_eq!(uper::encode(&bad).unwrap_err().kind, ErrorKind::Violation);
    assert_eq!(uper::decode::<UtcTime>(&[0x01, 0x5A]).unwrap_err().kind, ErrorKind::Violation);
}

#[test]
fn months_have_their_days() {
    assert_eq!(month_length(2023, 2), 28);
    assert_eq!(month_length(2024, 2), 29);
    assert_eq!(month_length(1900, 2), 28);
    assert_eq!(month_length(2000, 2), 29);
    assert_eq!(month_length(2023, 4), 30);
    assert_eq!(month_length(2023, 12), 31);
    assert_eq!(month_length(2023, 13), 0);
}
