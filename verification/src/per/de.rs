//! The decoder of the Packed Encoding Rules.

pub mod error;

use crate::bits::{lemma_pow2_values, BitString};
use crate::constraints::Constraints;
use crate::error::ErrorKind;
use crate::integer::Integer;
use crate::oid::ObjectIdentifier;
use crate::tag::Tag;
use crate::time::{GeneralizedTime, UtcTime};
use crate::per::enc::{digits, span};
use crate::per::wire::{
    dec_bit_field, dec_bool, dec_enumerated, dec_integer, dec_items, dec_length, dec_natural,
    dec_nested, dec_octets, dec_oid, dec_text, padding, read_length, read_fragment, read_padding,
    unframe, unframe_from, zeros, Cursor, FrameRead, CHUNK, SHORT_LIMIT,
};
pub use error::Error;
use vstd::prelude::*;

verus! {

/// Reads values from a sequence of bits.
pub struct Decoder {
    input: BitString,
    position: usize,
    aligned: bool,
}

impl View for Decoder {
    type V = Cursor;

    closed spec fn view(&self) -> Cursor {
        Cursor { bits: self.input@, position: self.position as int, aligned: self.aligned }
    }
}

/// `lo + offset`.
fn advance(lo: i128, offset: u128) -> (r: i128)
    requires
        lo + offset <= i128::MAX,
    ensures
        r == lo + offset,
{
    if offset <= i128::MAX as u128 {
        lo + offset as i128
    } else {
        let rest: u128 = offset - i128::MAX as u128 - 1;
        (lo + i128::MAX + 1) + rest as i128
    }
}

/// The fragments read so far, before what the rest of the frame gives.
pub open spec fn prepend(items: Seq<bool>, rest: Result<FrameRead, ErrorKind>) -> Result<
    FrameRead,
    ErrorKind,
> {
    match rest {
        Ok(read) => Ok(FrameRead { items: items + read.items, next: read.next }),
        Err(e) => Err(e),
    }
}

impl Decoder {
    /// A decoder of the unaligned variant at the start of the bits of `input`.
    pub fn new(input: &[u8]) -> (r: Self)
        ensures
            r@ == (Cursor { bits: crate::bits::bytes_to_bits(input@), position: 0, aligned: false }),
    {
        Self { input: BitString::from_bytes(input), position: 0, aligned: false }
    }

    /// A decoder of the aligned variant at the start of the bits of `input`.
    pub fn new_aligned(input: &[u8]) -> (r: Self)
        ensures
            r@ == (Cursor { bits: crate::bits::bytes_to_bits(input@), position: 0, aligned: true }),
    {
        Self { input: BitString::from_bytes(input), position: 0, aligned: true }
    }

    /// A decoder at the start of `bits`.
    pub fn from_bits(bits: BitString, aligned: bool) -> (r: Self)
        ensures
            r@ == (Cursor { bits: bits@, position: 0, aligned }),
    {
        Self { input: bits, position: 0, aligned }
    }

    /// Whether the decoder reads the aligned variant.
    pub fn is_aligned(&self) -> (b: bool)
        ensures
            b == self@.aligned,
    {
        self.aligned
    }

    /// The number of bits read.
    pub fn position(&self) -> (n: usize)
        ensures
            n == self@.position,
    {
        self.position
    }

    /// The number of bits not yet read.
    pub fn remaining(&self) -> (n: usize)
        ensures
            n == if self@.position <= self@.bits.len() {
                self@.bits.len() - self@.position
            } else {
                0
            },
    {
        let len = self.input.len();
        if self.position <= len {
            len - self.position
        } else {
            0
        }
    }

    /// Reads the determinant at `pos`.
    fn length_at(&self, pos: usize, constraints: &Constraints) -> (r: Result<
        (usize, bool, usize),
        Error,
    >)
        ensures
            match read_length(self@.bits, pos as int, *constraints) {
                Ok(head) => r == Ok::<(usize, bool, usize), Error>(
                    (head.count as usize, head.more, head.next as usize),
                ) && head.count <= usize::MAX && pos <= head.next <= usize::MAX && (pos
                    <= self@.bits.len()
                    ==> head.next <= self@.bits.len()),
                Err(k) => r is Err && r->Err_0.kind == k,
            },
    {
        let len = self.input.len();
        proof {
            lemma_pow2_values();
        }
        if constraints.finite() {
            let lo = constraints.lower.unwrap();
            let hi = constraints.upper.unwrap();
            if lo == hi {
                if lo < 0 || lo as u128 > usize::MAX as u128 {
                    return Err(Error::new(ErrorKind::OutOfRange));
                }
                return Ok((lo as usize, false, pos));
            }
            if hi < SHORT_LIMIT {
                if lo > hi {
                    return Err(Error::new(ErrorKind::OutOfRange));
                }
                let range = span(lo, hi);
                let width = digits(range);
                if pos > len || width > len - pos {
                    return Err(Error::new(ErrorKind::EndOfInput));
                }
                let offset = self.input.number(pos, width);
                if offset > range {
                    return Err(Error::new(ErrorKind::MalformedLength));
                }
                let count = advance(lo, offset);
                if count < 0 {
                    return Err(Error::new(ErrorKind::OutOfRange));
                }
                return Ok((count as usize, false, pos + width));
            }
        }
        if pos > len || 8 > len - pos {
            return Err(Error::new(ErrorKind::EndOfInput));
        }
        if !self.input.bit(pos) {
            let n = self.input.number(pos + 1, 7);
            Ok((n as usize, false, pos + 8))
        } else if !self.input.bit(pos + 1) {
            if 16 > len - pos {
                return Err(Error::new(ErrorKind::EndOfInput));
            }
            let n = self.input.number(pos + 2, 14);
            if n < 128 {
                return Err(Error::new(ErrorKind::MalformedLength));
            }
            Ok((n as usize, false, pos + 16))
        } else {
            let m = self.input.number(pos + 2, 6);
            if 1 <= m && m <= 4 {
                Ok((m as usize * CHUNK, true, pos + 8))
            } else {
                Err(Error::new(ErrorKind::MalformedLength))
            }
        }
    }

    /// Skips the padding at `pos`.
    fn padding_at(&self, pos: usize) -> (r: Result<usize, Error>)
        requires
            pos <= self@.bits.len(),
        ensures
            match read_padding(self@.bits, pos as int, self@.aligned) {
                Ok(next) => r == Ok::<usize, Error>(next as usize) && pos <= next
                    <= self@.bits.len(),
                Err(k) => r is Err && r->Err_0.kind == k,
            },
    {
        if !self.aligned {
            assert(self@.bits.subrange(pos as int, pos as int) =~= zeros(0));
            return Ok(pos);
        }
        let n: usize = (8 - pos % 8) % 8;
        if n > self.input.len() - pos {
            return Err(Error::new(ErrorKind::EndOfInput));
        }
        if !self.input.all_zero(pos, pos + n) {
            return Err(Error::new(ErrorKind::Violation));
        }
        Ok(pos + n)
    }

    /// Reads one fragment at `pos`: where its items stand, and whether
    /// another fragment follows.
    fn fragment_at(&self, pos: usize, unit: usize, constraints: &Constraints) -> (r: Result<
        (usize, usize, usize, bool),
        Error,
    >)
        requires
            unit == 1 || unit == 8,
        ensures
            match read_fragment(self@.bits, pos as int, self@.aligned, unit as nat, *constraints) {
                Ok(part) => r == Ok::<(usize, usize, usize, bool), Error>(
                    (part.from as usize, part.to as usize, part.count as usize, part.more),
                ) && pos <= part.from <= part.to <= self@.bits.len() && part.count <= usize::MAX
                    && (part.more ==> pos < part.to),
                Err(k) => r is Err && r->Err_0.kind == k,
            },
    {
        let len = self.input.len();
        let (count, more, head) = match self.length_at(pos, constraints) {
            Ok(triple) => triple,
            Err(e) => {
                return Err(e);
            },
        };
        if head > len {
            proof {
                assert(count * unit >= 0) by (nonlinear_arith)
                    requires
                        count >= 0,
                        unit >= 0,
                ;
            }
            return Err(Error::new(ErrorKind::EndOfInput));
        }
        let from = if count > 0 {
            match self.padding_at(head) {
                Ok(from) => from,
                Err(e) => {
                    return Err(e);
                },
            }
        } else {
            head
        };
        let room = len - from;
        if unit == 8 {
            assert(count * unit == 8 * count) by (nonlinear_arith)
                requires
                    unit == 8,
            ;
            if count > room / 8 {
                return Err(Error::new(ErrorKind::EndOfInput));
            }
            Ok((from, from + 8 * count, count, more))
        } else {
            assert(count * unit == count) by (nonlinear_arith)
                requires
                    unit == 1,
            ;
            if count > room {
                return Err(Error::new(ErrorKind::EndOfInput));
            }
            Ok((from, from + count, count, more))
        }
    }

    /// Reads the framed items of `unit` bits at `pos`.
    fn frame_at(&self, pos: usize, unit: usize, constraints: &Constraints) -> (r: Result<
        (BitString, usize),
        Error,
    >)
        requires
            unit == 1 || unit == 8,
        ensures
            match unframe(self@.bits, pos as int, self@.aligned, unit as nat, *constraints) {
                Ok(read) => r is Ok && r->Ok_0.0@ == read.items && r->Ok_0.1 == read.next && pos
                    <= read.next <= self@.bits.len(),
                Err(k) => r is Err && r->Err_0.kind == k,
            },
    {
        let len = self.input.len();
        let mut items = BitString::new();
        let mut at: usize = pos;
        let mut c: Constraints = *constraints;
        let mut more = true;
        let mut partial = false;
        let ghost goal = unframe(self@.bits, pos as int, self@.aligned, unit as nat, *constraints);
        while more
            invariant
                unit == 1 || unit == 8,
                len == self@.bits.len(),
                pos <= at,
                goal == unframe(self@.bits, pos as int, self@.aligned, unit as nat, *constraints),
                more ==> goal == prepend(
                    items@,
                    unframe_from(self@.bits, at as int, self@.aligned, unit as nat, c, partial),
                ),
                !more ==> goal == Ok::<FrameRead, ErrorKind>(
                    FrameRead { items: items@, next: at as int },
                ) && at <= len,
            decreases
                    (if more {
                        len + 1 - at
                    } else {
                        0
                    }),
        {
            let (from, to, count, next) = match self.fragment_at(at, unit, &c) {
                Ok(read) => read,
                Err(e) => {
                    return Err(e);
                },
            };
            if next && partial {
                return Err(Error::new(ErrorKind::MalformedLength));
            }
            let ghost before = items@;
            items.extend_from_range(&self.input, from, to);
            proof {
                let part = self@.bits.subrange(from as int, to as int);
                let rest = unframe_from(
                    self@.bits,
                    to as int,
                    self@.aligned,
                    unit as nat,
                    Constraints::unconstrained(),
                    count < 4 * CHUNK,
                );
                if next && rest is Ok {
                    assert((before + part) + rest->Ok_0.items =~= before + (part
                        + rest->Ok_0.items));
                }
            }
            at = to;
            if next {
                c = Constraints::none();
                partial = count < 4 * CHUNK;
            } else {
                more = false;
            }
        }
        Ok((items, at))
    }

    /// Reads a determinant under `constraints`: the number of items that
    /// follow it, and whether another determinant follows them. On a failure
    /// nothing is read.
    pub fn decode_length(&mut self, constraints: &Constraints) -> (r: Result<(usize, bool), Error>)
        ensures
            match dec_length(old(self)@, *constraints) {
                Ok((head, next)) => r == Ok::<(usize, bool), Error>((head.0 as usize, head.1))
                    && head.0 <= usize::MAX && final(self)@ == next,
                Err(k) => r is Err && r->Err_0.kind == k && final(self)@ == old(self)@,
            },
    {
        match self.length_at(self.position, constraints) {
            Ok((count, more, next)) => {
                self.position = next;
                Ok((count, more))
            },
            Err(e) => Err(e),
        }
    }

    /// Reads a boolean: one bit. On a failure nothing is read.
    pub fn read_bool(&mut self) -> (r: Result<bool, Error>)
        ensures
            match dec_bool(old(self)@) {
                Ok((value, next)) => r == Ok::<bool, Error>(value) && final(self)@ == next,
                Err(k) => r is Err && r->Err_0.kind == k && final(self)@ == old(self)@,
            },
    {
        if self.position < self.input.len() {
            let value = self.input.bit(self.position);
            self.position = self.position + 1;
            Ok(value)
        } else {
            Err(Error::new(ErrorKind::EndOfInput))
        }
    }

    /// Reads the number at the cursor in `width` bits.
    fn number_at(&self, width: usize) -> (r: Result<u128, Error>)
        requires
            width <= 128,
        ensures
            self@.position + width > self@.bits.len() ==> r is Err && r->Err_0.kind
                == ErrorKind::EndOfInput,
            self@.position + width <= self@.bits.len() ==> r is Ok && r->Ok_0
                == crate::bits::bits_to_nat(
                self@.bits.subrange(self@.position, self@.position + width),
            ) && r->Ok_0 < crate::bits::pow2(width as nat),
            r is Ok ==> self@.position + width <= self@.bits.len() <= usize::MAX,
    {
        let len = self.input.len();
        if self.position > len || width > len - self.position {
            return Err(Error::new(ErrorKind::EndOfInput));
        }
        proof {
            lemma_pow2_values();
            crate::bits::lemma_pow2_monotonic(width as nat, 128);
        }
        Ok(self.input.number(self.position, width))
    }

    /// Reads a non-negative integer of `width` bits, the highest bit first.
    /// On a failure nothing is read.
    pub fn decode_non_negative_binary_integer(&mut self, width: usize) -> (r: Result<
        Integer,
        Error,
    >)
        requires
            width <= 128,
        ensures
            match dec_natural(old(self)@, width as nat) {
                Ok((value, next)) => r is Ok && r->Ok_0@ == value && final(self)@ == next,
                Err(k) => r is Err && r->Err_0.kind == k && final(self)@ == old(self)@,
            },
    {
        let n = match self.number_at(width) {
            Ok(n) => n,
            Err(e) => {
                return Err(e);
            },
        };
        if n > i128::MAX as u128 {
            return Err(Error::new(ErrorKind::NarrowingOverflow));
        }
        self.position = self.position + width;
        Ok(Integer::new(n as i128))
    }

    /// Reads framed items of `unit` bits under `constraints`. On a failure
    /// nothing is read.
    fn read_framed(&mut self, unit: usize, constraints: &Constraints) -> (r: Result<
        BitString,
        Error,
    >)
        requires
            unit == 1 || unit == 8,
        ensures
            match dec_items(old(self)@, unit as nat, *constraints) {
                Ok((items, next)) => r is Ok && r->Ok_0@ == items && final(self)@ == next,
                Err(k) => r is Err && r->Err_0.kind == k && final(self)@ == old(self)@,
            },
    {
        let (items, next) = match self.frame_at(self.position, unit, constraints) {
            Ok(pair) => pair,
            Err(e) => {
                return Err(e);
            },
        };
        let count: usize = if unit == 8 {
            items.len() / 8
        } else {
            items.len()
        };
        if !constraints.contains(count as i128) {
            return Err(Error::new(ErrorKind::OutOfRange));
        }
        self.position = next;
        Ok(items)
    }

    /// Reads an octet string whose length is under `constraints`. On a
    /// failure nothing is read.
    pub fn read_octets(&mut self, constraints: &Constraints) -> (r: Result<Vec<u8>, Error>)
        ensures
            match dec_octets(old(self)@, *constraints) {
                Ok((bytes, next)) => r is Ok && r->Ok_0@ == bytes && final(self)@ == next,
                Err(k) => r is Err && r->Err_0.kind == k && final(self)@ == old(self)@,
            },
    {
        match self.read_framed(8, constraints) {
            Ok(items) => Ok(items.to_bytes()),
            Err(e) => Err(e),
        }
    }

    /// Reads a bit string whose length is under `constraints`. On a failure
    /// nothing is read.
    pub fn read_bit_field(&mut self, constraints: &Constraints) -> (r: Result<BitString, Error>)
        ensures
            match dec_bit_field(old(self)@, *constraints) {
                Ok((bits, next)) => r is Ok && r->Ok_0@ == bits && final(self)@ == next,
                Err(k) => r is Err && r->Err_0.kind == k && final(self)@ == old(self)@,
            },
    {
        self.read_framed(1, constraints)
    }

    /// Reads a nested value: a decoder of the same variant at the start of
    /// the bits of its members. On a failure nothing is read.
    pub fn read_scope(&mut self) -> (r: Result<Decoder, Error>)
        ensures
            match dec_nested(old(self)@) {
                Ok((inner, next)) => r is Ok && r->Ok_0@ == inner && final(self)@ == next,
                Err(k) => r is Err && r->Err_0.kind == k && final(self)@ == old(self)@,
            },
    {
        match self.read_framed(1, &Constraints::none()) {
            Ok(items) => Ok(Decoder::from_bits(items, self.aligned)),
            Err(e) => Err(e),
        }
    }

    /// Reads a text: its octets in UTF-8, as an octet string. On a failure
    /// nothing is read.
    pub fn read_text(&mut self) -> (r: Result<String, Error>)
        ensures
            match dec_text(old(self)@) {
                Ok((text, next)) => r is Ok && r->Ok_0@ == text && final(self)@ == next,
                Err(k) => r is Err && r->Err_0.kind == k && final(self)@ == old(self)@,
            },
    {
        let start = self.position;
        let bytes = match self.read_octets(&Constraints::none()) {
            Ok(bytes) => bytes,
            Err(e) => {
                return Err(e);
            },
        };
        match text_from_utf8(bytes) {
            Some(text) => Ok(text),
            None => {
                self.position = start;
                Err(Error::new(ErrorKind::Violation))
            },
        }
    }

    /// Reads an object identifier. On a failure nothing is read.
    pub fn read_object_identifier(&mut self) -> (r: Result<ObjectIdentifier, Error>)
        ensures
            match dec_oid(old(self)@) {
                Ok((arcs, next)) => r is Ok && r->Ok_0.deep_view() == arcs && final(self)@ == next,
                Err(k) => r is Err && r->Err_0.kind == k && final(self)@ == old(self)@,
            },
    {
        let start = self.position;
        let bytes = match self.read_octets(&Constraints::none()) {
            Ok(bytes) => bytes,
            Err(e) => {
                return Err(e);
            },
        };
        match crate::oid::from_contents(bytes.as_slice()) {
            Ok(oid) => Ok(oid),
            Err(kind) => {
                self.position = start;
                Err(Error::new(kind))
            },
        }
    }

    /// Reads a time to the minute. On a failure nothing is read.
    pub fn read_utc_time(&mut self) -> (r: Result<UtcTime, Error>)
        ensures
            match crate::per::wire::dec_utc_time(old(self)@) {
                Ok((time, next)) => r == Ok::<UtcTime, Error>(time) && final(self)@ == next,
                Err(k) => r is Err && r->Err_0.kind == k && final(self)@ == old(self)@,
            },
    {
        let start = self.position;
        let text = match self.read_octets(&Constraints::none()) {
            Ok(text) => text,
            Err(e) => {
                return Err(e);
            },
        };
        match UtcTime::from_text(text.as_slice()) {
            Ok(time) => Ok(time),
            Err(kind) => {
                self.position = start;
                Err(Error::new(kind))
            },
        }
    }

    /// Reads a time to the thousandth of a second. On a failure nothing is read.
    pub fn read_generalized_time(&mut self) -> (r: Result<GeneralizedTime, Error>)
        ensures
            match crate::per::wire::dec_generalized_time(old(self)@) {
                Ok((time, next)) => r == Ok::<GeneralizedTime, Error>(time) && final(self)@ == next,
                Err(k) => r is Err && r->Err_0.kind == k && final(self)@ == old(self)@,
            },
    {
        let start = self.position;
        let text = match self.read_octets(&Constraints::none()) {
            Ok(text) => text,
            Err(e) => {
                return Err(e);
            },
        };
        match GeneralizedTime::from_text(text.as_slice()) {
            Ok(time) => Ok(time),
            Err(kind) => {
                self.position = start;
                Err(Error::new(kind))
            },
        }
    }

    /// Reads an integer under `constraints`. On a failure nothing is read.
    pub fn read_integer(&mut self, constraints: &Constraints) -> (r: Result<Integer, Error>)
        ensures
            match dec_integer(old(self)@, *constraints) {
                Ok((value, next)) => r is Ok && r->Ok_0@ == value && final(self)@ == next,
                Err(k) => r is Err && r->Err_0.kind == k && final(self)@ == old(self)@,
            },
    {
        if constraints.finite() {
            let lo = constraints.lower.unwrap();
            let hi = constraints.upper.unwrap();
            if lo > hi {
                return Err(Error::new(ErrorKind::OutOfRange));
            }
            let range = span(lo, hi);
            let width = digits(range);
            let offset = match self.number_at(width) {
                Ok(n) => n,
                Err(e) => {
                    return Err(e);
                },
            };
            if offset > range {
                return Err(Error::new(ErrorKind::OutOfRange));
            }
            self.position = self.position + width;
            Ok(Integer::new(advance(lo, offset)))
        } else {
            let start = self.position;
            let bytes = match self.read_octets(&Constraints::none()) {
                Ok(bytes) => bytes,
                Err(e) => {
                    return Err(e);
                },
            };
            match Integer::from_octets(bytes.as_slice()) {
                Ok(value) => {
                    if constraints.contains(value.value) {
                        Ok(value)
                    } else {
                        self.position = start;
                        Err(Error::new(ErrorKind::OutOfRange))
                    }
                },
                Err(kind) => {
                    self.position = start;
                    Err(Error::new(kind))
                },
            }
        }
    }

    /// Reads the choice of an enumeration of `variants` choices. On a
    /// failure nothing is read.
    pub fn read_enumerated(&mut self, variants: usize) -> (r: Result<Integer, Error>)
        ensures
            match dec_enumerated(old(self)@, variants as nat) {
                Ok((value, next)) => r is Ok && r->Ok_0@ == value && final(self)@ == next,
                Err(k) => r is Err && r->Err_0.kind == k && final(self)@ == old(self)@,
            },
    {
        if variants == 0 {
            return Err(Error::new(ErrorKind::OutOfRange));
        }
        let width = digits((variants - 1) as u128);
        let offset = match self.number_at(width) {
            Ok(n) => n,
            Err(e) => {
                return Err(e);
            },
        };
        if offset >= variants as u128 {
            return Err(Error::new(ErrorKind::OutOfRange));
        }
        self.position = self.position + width;
        Ok(Integer::new(offset as i128))
    }
}

impl crate::de::Error for Error {
    open spec fn kind(&self) -> ErrorKind {
        self.kind
    }

    open spec fn message(&self) -> Seq<char> {
        self.message@
    }

    fn custom(msg: &str) -> (e: Self) {
        Error::with_message(msg)
    }
}

impl crate::de::Decoder for Decoder {
    type Error = Error;

    open spec fn remaining_spec(s: Cursor) -> nat {
        if s.position <= s.bits.len() {
            (s.bits.len() - s.position) as nat
        } else {
            0
        }
    }

    /// No tag stands in the input: there is none to look at.
    open spec fn peek_tag_spec(s: Cursor) -> Result<Tag, ErrorKind> {
        Err(ErrorKind::Violation)
    }

    open spec fn any_spec(s: Cursor, tag: Tag) -> Result<(Seq<u8>, Cursor), ErrorKind> {
        dec_octets(s, Constraints::unconstrained())
    }

    open spec fn bit_string_spec(s: Cursor, tag: Tag) -> Result<(Seq<bool>, Cursor), ErrorKind> {
        dec_bit_field(s, Constraints::unconstrained())
    }

    open spec fn bool_spec(s: Cursor, tag: Tag) -> Result<(bool, Cursor), ErrorKind> {
        dec_bool(s)
    }

    open spec fn enumerated_spec(s: Cursor, tag: Tag, variants: nat) -> Result<
        (int, Cursor),
        ErrorKind,
    > {
        dec_enumerated(s, variants)
    }

    open spec fn integer_spec(s: Cursor, tag: Tag, constraints: Constraints) -> Result<
        (int, Cursor),
        ErrorKind,
    > {
        dec_integer(s, constraints)
    }

    /// The value without content takes no bit.
    open spec fn null_spec(s: Cursor, tag: Tag) -> Result<((), Cursor), ErrorKind> {
        Ok(((), s))
    }

    open spec fn object_identifier_spec(s: Cursor, tag: Tag) -> Result<
        (Seq<u32>, Cursor),
        ErrorKind,
    > {
        dec_oid(s)
    }

    open spec fn octet_string_spec(s: Cursor, tag: Tag) -> Result<(Seq<u8>, Cursor), ErrorKind> {
        dec_octets(s, Constraints::unconstrained())
    }

    open spec fn utf8_string_spec(s: Cursor, tag: Tag) -> Result<(Seq<char>, Cursor), ErrorKind> {
        dec_text(s)
    }

    open spec fn utc_time_spec(s: Cursor, tag: Tag) -> Result<(UtcTime, Cursor), ErrorKind> {
        crate::per::wire::dec_utc_time(s)
    }

    open spec fn generalized_time_spec(s: Cursor, tag: Tag) -> Result<(GeneralizedTime, Cursor), ErrorKind> {
        crate::per::wire::dec_generalized_time(s)
    }

    open spec fn sequence_spec(s: Cursor, tag: Tag) -> Result<(Cursor, Cursor), ErrorKind> {
        dec_nested(s)
    }

    open spec fn set_spec(s: Cursor, tag: Tag) -> Result<(Cursor, Cursor), ErrorKind> {
        dec_nested(s)
    }

    open spec fn explicit_prefix_spec(s: Cursor, tag: Tag) -> Result<(Cursor, Cursor), ErrorKind> {
        dec_nested(s)
    }

    open spec fn sequence_of_spec(s: Cursor, tag: Tag, constraints: Constraints) -> Result<
        ((nat, bool), Cursor),
        ErrorKind,
    > {
        dec_length(s, constraints)
    }

    open spec fn set_of_spec(s: Cursor, tag: Tag, constraints: Constraints) -> Result<
        ((nat, bool), Cursor),
        ErrorKind,
    > {
        dec_length(s, constraints)
    }

    fn remaining(&self) -> (n: usize) {
        let len = self.input.len();
        if self.position <= len {
            len - self.position
        } else {
            0
        }
    }

    fn peek_tag(&self) -> (r: Result<Tag, Self::Error>) {
        Err(Error::new(ErrorKind::Violation))
    }

    fn decode_any(&mut self, tag: Tag) -> (r: Result<Vec<u8>, Self::Error>) {
        let r = self.read_octets(&Constraints::none());
        proof {
            if r is Ok {
                assert(r->Ok_0.deep_view() =~= r->Ok_0@);
            }
        }
        r
    }

    fn decode_bit_string(&mut self, tag: Tag) -> (r: Result<BitString, Self::Error>) {
        self.read_bit_field(&Constraints::none())
    }

    fn decode_bool(&mut self, tag: Tag) -> (r: Result<bool, Self::Error>) {
        self.read_bool()
    }

    fn decode_enumerated(&mut self, tag: Tag, variants: usize) -> (r: Result<
        Integer,
        Self::Error,
    >) {
        self.read_enumerated(variants)
    }

    fn decode_integer(&mut self, tag: Tag, constraints: &Constraints) -> (r: Result<
        Integer,
        Self::Error,
    >) {
        self.read_integer(constraints)
    }

    fn decode_null(&mut self, tag: Tag) -> (r: Result<(), Self::Error>) {
        Ok(())
    }

    fn decode_object_identifier(&mut self, tag: Tag) -> (r: Result<
        ObjectIdentifier,
        Self::Error,
    >) {
        self.read_object_identifier()
    }

    fn decode_octet_string(&mut self, tag: Tag) -> (r: Result<Vec<u8>, Self::Error>) {
        let r = self.read_octets(&Constraints::none());
        proof {
            if r is Ok {
                assert(r->Ok_0.deep_view() =~= r->Ok_0@);
            }
        }
        r
    }

    fn decode_utf8_string(&mut self, tag: Tag) -> (r: Result<String, Self::Error>) {
        self.read_text()
    }

    fn decode_utc_time(&mut self, tag: Tag) -> (r: Result<UtcTime, Self::Error>) {
        self.read_utc_time()
    }

    fn decode_generalized_time(&mut self, tag: Tag) -> (r: Result<GeneralizedTime, Self::Error>) {
        self.read_generalized_time()
    }

    fn decode_sequence(&mut self, tag: Tag) -> (r: Result<Self, Self::Error>) {
        self.read_scope()
    }

    fn decode_set(&mut self, tag: Tag) -> (r: Result<Self, Self::Error>) {
        self.read_scope()
    }

    fn decode_explicit_prefix(&mut self, tag: Tag) -> (r: Result<Self, Self::Error>) {
        self.read_scope()
    }

    fn decode_sequence_of(&mut self, tag: Tag, constraints: &Constraints) -> (r: Result<
        (usize, bool),
        Self::Error,
    >) {
        self.decode_length(constraints)
    }

    fn decode_set_of(&mut self, tag: Tag, constraints: &Constraints) -> (r: Result<
        (usize, bool),
        Self::Error,
    >) {
        self.decode_length(constraints)
    }
}

/// Turns octets into the text that they are in UTF-8, through
/// `String::from_utf8`: there is a text exactly where the octets are valid
/// UTF-8, and it is the text that they decode to.
#[verifier::external_body]
fn text_from_utf8(bytes: Vec<u8>) -> (r: Option<String>)
    ensures
        r is Some <==> vstd::utf8::valid_utf8(bytes@),
        r is Some ==> r->Some_0@ == vstd::utf8::decode_utf8(bytes@),
{
    String::from_utf8(bytes).ok()
}

} // verus!
