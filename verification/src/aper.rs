//! The aligned Packed Encoding Rules, from octets to a value and back.

use crate::bits::{bits_to_bytes, bytes_to_bits};
use crate::de::Decode;
use crate::enc::Encode;
use crate::per::wire::{Cursor, Output};
use vstd::prelude::*;

verus! {

/// The state of a decoder at the start of the bits of `input`.
pub open spec fn start(input: Seq<u8>) -> Cursor {
    Cursor { bits: bytes_to_bits(input), position: 0, aligned: true }
}

/// The state of an encoder that has written nothing.
pub open spec fn blank() -> Output {
    Output { bits: Seq::empty(), aligned: true }
}

/// Decodes a `T` from the bits of `input`. Bits that follow the value stay
/// unread.
pub fn decode<T: Decode<crate::per::de::Decoder>>(input: &[u8]) -> (r: Result<
    T,
    crate::per::de::Error,
>)
    ensures
        match T::decode_spec(start(input@)) {
            Ok((value, _)) => r is Ok && r->Ok_0.deep_view() == value,
            Err(kind) => r is Err && r->Err_0.kind == kind,
        },
{
    let mut decoder = crate::per::de::Decoder::new_aligned(input);
    T::decode(&mut decoder)
}

/// Encodes `value`: the octets that hold its bits, the last filled up with
/// zero bits.
pub fn encode<T: Encode<crate::per::enc::Encoder>>(value: &T) -> (r: Result<
    Vec<u8>,
    crate::per::enc::Error,
>)
    ensures
        match T::encode_spec(value.deep_view(), blank()) {
            Ok(written) => r is Ok && r->Ok_0@ == bits_to_bytes(written.bits),
            Err(kind) => r is Err && r->Err_0.kind == kind,
        },
{
    let mut encoder = crate::per::enc::Encoder::new_aligned();
    match value.encode(&mut encoder) {
        Ok(()) => Ok(encoder.output()),
        Err(e) => Err(e),
    }
}

} // verus!
