//! The encoder of the Packed Encoding Rules.

pub mod error;

use crate::bits::{bit_width, bytes_to_bits, nat_to_bits, push_number, BitString};
use crate::constraints::Constraints;
use crate::error::ErrorKind;
use crate::integer::Integer;
use crate::tag::Tag;
use crate::time::{GeneralizedTime, UtcTime};
use crate::types::Any;
use crate::per::wire::{
    continues, covered, enc_bit_field, enc_bool, enc_enumerated, enc_group, enc_integer, enc_items,
    enc_length, enc_natural, enc_octets, enc_oid, enc_scope, enc_text, frame, long_header, pad,
    zeros, Output, CHUNK, SHORT_LIMIT,
};
pub use error::Error;
use vstd::prelude::*;

verus! {

/// Writes values into a sequence of bits.
pub struct Encoder {
    output: BitString,
    aligned: bool,
}

/// What can be appended to the output as it stands: bits, or octets.
pub enum Input<'input> {
    Bits(&'input BitString),
    Bytes(&'input [u8]),
}

impl<'input> Input<'input> {
    /// The bits that the input stands for.
    pub open spec fn bits(self) -> Seq<bool> {
        match self {
            Input::Bits(bits) => bits@,
            Input::Bytes(bytes) => bytes_to_bits(bytes@),
        }
    }

    /// The number of bits in one item: a bit, or an octet.
    pub open spec fn unit(self) -> nat {
        match self {
            Input::Bits(_) => 1,
            Input::Bytes(_) => 8,
        }
    }

    /// The number of items.
    pub open spec fn count(self) -> nat {
        match self {
            Input::Bits(bits) => bits@.len(),
            Input::Bytes(bytes) => bytes@.len(),
        }
    }

    /// Computes `count`.
    pub fn len(&self) -> (n: usize)
        ensures
            n == self.count(),
    {
        match self {
            Input::Bits(bits) => bits.len(),
            Input::Bytes(bytes) => bytes.len(),
        }
    }
}

impl<'input> From<&'input BitString> for Input<'input> {
    fn from(value: &'input BitString) -> (r: Self) {
        Self::Bits(value)
    }
}

impl<'input> vstd::std_specs::convert::FromSpecImpl<&'input BitString> for Input<'input> {
    open spec fn obeys_from_spec() -> bool {
        true
    }

    open spec fn from_spec(value: &'input BitString) -> Self {
        Input::Bits(value)
    }
}

impl<'input> From<&'input [u8]> for Input<'input> {
    fn from(value: &'input [u8]) -> (r: Self) {
        Self::Bytes(value)
    }
}

impl<'input> vstd::std_specs::convert::FromSpecImpl<&'input [u8]> for Input<'input> {
    open spec fn obeys_from_spec() -> bool {
        true
    }

    open spec fn from_spec(value: &'input [u8]) -> Self {
        Input::Bytes(value)
    }
}

impl<'input> From<&'input Vec<u8>> for Input<'input> {
    fn from(value: &'input Vec<u8>) -> (r: Self)
        ensures
            r is Bytes,
            r.bits() == bytes_to_bits(value@),
            r.count() == value@.len(),
    {
        Self::Bytes(value.as_slice())
    }
}

impl<'input> vstd::std_specs::convert::FromSpecImpl<&'input Vec<u8>> for Input<'input> {
    /// The slice of a vector has no name in contracts: `from` says what it
    /// holds.
    open spec fn obeys_from_spec() -> bool {
        false
    }

    open spec fn from_spec(value: &'input Vec<u8>) -> Self {
        arbitrary()
    }
}

impl View for Encoder {
    type V = Output;

    closed spec fn view(&self) -> Output {
        Output { bits: self.output@, aligned: self.aligned }
    }
}

impl Encoder {
    /// An encoder of the unaligned variant that has written nothing.
    pub fn new() -> (r: Self)
        ensures
            r@ == (Output { bits: Seq::empty(), aligned: false }),
    {
        Self { output: BitString::new(), aligned: false }
    }

    /// An encoder of the aligned variant that has written nothing.
    pub fn new_aligned() -> (r: Self)
        ensures
            r@ == (Output { bits: Seq::empty(), aligned: true }),
    {
        Self { output: BitString::new(), aligned: true }
    }

    /// An encoder of the same variant that has written nothing: the scope in
    /// which the members of a nested value are written.
    pub fn scope(&self) -> (r: Self)
        ensures
            r@ == (Output { bits: Seq::empty(), aligned: self@.aligned }),
    {
        Self { output: BitString::new(), aligned: self.aligned }
    }

    /// Whether the encoder writes the aligned variant.
    pub fn is_aligned(&self) -> (b: bool)
        ensures
            b == self@.aligned,
    {
        self.aligned
    }

    /// The number of bits written.
    pub fn bit_len(&self) -> (n: usize)
        ensures
            n == self@.bits.len(),
    {
        self.output.len()
    }

    /// The bits written.
    pub fn bits(&self) -> (bits: &BitString)
        ensures
            bits@ == self@.bits,
    {
        &self.output
    }

    /// The octets that hold the bits written, the last filled up with zero
    /// bits.
    pub fn output(&self) -> (bytes: Vec<u8>)
        ensures
            bytes@ == crate::bits::bits_to_bytes(self@.bits),
    {
        self.output.to_bytes()
    }

    /// Appends the bits or the octets of `input`.
    pub fn extend<'input>(&mut self, input: Input<'input>)
        ensures
            final(self)@ == old(self)@.with(old(self)@.bits + input.bits()),
    {
        match input {
            Input::Bits(bits) => {
                self.output.extend_from_bitslice(bits);
            },
            Input::Bytes(bytes) => {
                self.output.extend_from_bytes(bytes);
            },
        }
    }

    /// Appends the lowest `width` binary digits of `n`.
    fn write_number(&mut self, n: u128, width: usize)
        ensures
            final(self)@ == old(self)@.with(old(self)@.bits + nat_to_bits(n as nat, width as nat)),
    {
        let mut field: Vec<bool> = Vec::new();
        push_number(&mut field, n, width);
        assert(field@ =~= nat_to_bits(n as nat, width as nat));
        let field = BitString::from_bits(field);
        self.output.extend_from_bitslice(&field);
    }

    /// Fills the output up with zero bits to an octet boundary, in the aligned
    /// variant.
    fn align(&mut self)
        ensures
            final(self)@ == old(self)@.with(pad(old(self)@.bits, old(self)@.aligned)),
    {
        if self.aligned {
            let n: usize = (8 - self.output.len() % 8) % 8;
            let mut i: usize = 0;
            while i < n
                invariant
                    i <= n,
                    self.aligned == old(self).aligned,
                    self.output@ == old(self).output@ + zeros(i as nat),
                decreases n - i,
            {
                self.output.push(false);
                i = i + 1;
                assert(self.output@ =~= old(self).output@ + zeros(i as nat));
            }
        } else {
            assert(self.output@ =~= old(self).output@ + zeros(0));
        }
    }

    /// Appends the items `from .. to` of `input`.
    fn write_items<'input>(&mut self, input: &Input<'input>, from: usize, to: usize)
        requires
            from <= to <= input.count(),
        ensures
            final(self)@ == old(self)@.with(
                old(self)@.bits + input.bits().subrange(input.unit() * from, input.unit() * to),
            ),
    {
        match input {
            Input::Bits(bits) => {
                self.output.extend_from_range(bits, from, to);
            },
            Input::Bytes(bytes) => {
                proof {
                    crate::bits::lemma_bytes_to_bits_subrange(bytes@, from as int, to as int);
                }
                self.output.extend_from_byte_range(bytes, from, to);
            },
        }
    }

    /// Writes the determinant of `length` items under `constraints`, in the
    /// form that the constraints select. Gives the number of items that
    /// follow this determinant, and whether another determinant follows
    /// them. A length that the constraints do not admit is refused, and
    /// nothing is written.
    pub fn encode_length(&mut self, length: usize, constraints: &Constraints) -> (r: Result<
        (usize, bool),
        Error,
    >)
        ensures
            match enc_length(old(self)@, length as nat, *constraints) {
                Ok(s) => r == Ok::<(usize, bool), Error>(
                    (
                        covered(length as nat, *constraints) as usize,
                        continues(length as nat, *constraints),
                    ),
                ) && final(self)@ == s,
                Err(k) => r is Err && r->Err_0.kind == k && final(self)@ == old(self)@,
            },
            covered(length as nat, *constraints) <= length,
    {
        if !constraints.contains(length as i128) {
            return Err(Error::new(ErrorKind::OutOfRange));
        }
        if constraints.finite() {
            let lo = constraints.lower.unwrap();
            let hi = constraints.upper.unwrap();
            if lo == hi {
                assert(self@.bits + Seq::<bool>::empty() =~= self@.bits);
                return Ok((length, false));
            }
            if hi < SHORT_LIMIT {
                self.write_number(span(lo, length as i128), digits(span(lo, hi)));
                return Ok((length, false));
            }
        }
        if length < 128 {
            self.output.push(false);
            self.write_number(length as u128, 7);
            assert(self@.bits =~= old(self)@.bits + long_header(length as nat));
            Ok((length, false))
        } else if length < CHUNK {
            self.output.push(true);
            self.output.push(false);
            self.write_number(length as u128, 14);
            assert(self@.bits =~= old(self)@.bits + long_header(length as nat));
            Ok((length, false))
        } else {
            let m: usize = if length / CHUNK < 4 {
                length / CHUNK
            } else {
                4
            };
            self.output.push(true);
            self.output.push(true);
            self.write_number(m as u128, 6);
            assert(self@.bits =~= old(self)@.bits + long_header(length as nat));
            Ok((m * CHUNK, true))
        }
    }

    /// Writes the items of `input` behind their determinants. A count that
    /// the constraints do not admit is refused, and nothing is written.
    pub fn write_framed<'input>(&mut self, input: &Input<'input>, constraints: &Constraints) -> (r:
        Result<(), Error>)
        ensures
            match enc_items(
                old(self)@,
                input.bits(),
                input.unit(),
                input.count(),
                *constraints,
            ) {
                Ok(s) => r is Ok && final(self)@ == s,
                Err(k) => r is Err && r->Err_0.kind == k && final(self)@ == old(self)@,
            },
    {
        let count = input.len();
        if !constraints.contains(count as i128) {
            return Err(Error::new(ErrorKind::OutOfRange));
        }
        let ghost items = input.bits();
        let ghost unit = input.unit();
        let ghost goal = frame(old(self)@.bits, old(self)@.aligned, items, unit, count as nat, *constraints);
        let mut done: usize = 0;
        let mut c: Constraints = *constraints;
        let mut more = true;
        assert(items.skip(0) =~= items);
        while more
            invariant
                done <= count,
                count == input.count(),
                items == input.bits(),
                unit == input.unit(),
                self@.aligned == old(self)@.aligned,
                more ==> c.admits(count - done),
                more ==> goal == frame(
                    self@.bits,
                    self@.aligned,
                    items.skip(unit * done),
                    unit,
                    (count - done) as nat,
                    c,
                ),
                !more ==> goal == self@.bits,
            decreases
                    (if more {
                        count - done + 1
                    } else {
                        0
                    }),
        {
            let ghost rest = items.skip(unit * done);
            let (k, next) = match self.encode_length(count - done, &c) {
                Ok(pair) => pair,
                Err(e) => {
                    return Err(e);
                },
            };
            if k > 0 {
                self.align();
            }
            self.write_items(input, done, done + k);
            proof {
                assert(unit * (done + k) == unit * done + unit * k) by (nonlinear_arith);
                assert(unit * k == k * unit) by (nonlinear_arith);
                assert(0 <= unit * done) by (nonlinear_arith)
                    requires
                        unit >= 0,
                        done >= 0,
                ;
                assert(0 <= unit * k) by (nonlinear_arith)
                    requires
                        unit >= 0,
                        k >= 0,
                ;
                match *input {
                    Input::Bits(bits) => {},
                    Input::Bytes(bytes) => {
                        crate::bits::lemma_bytes_to_bits_len(bytes@);
                    },
                }
                assert(items.len() == unit * count);
                assert(unit * (done + k) <= unit * count) by (nonlinear_arith)
                    requires
                        unit >= 0,
                        done + k <= count,
                ;
                assert(rest.take((k * unit) as int) =~= items.subrange(
                    unit * done,
                    unit * (done + k),
                ));
                assert(rest.skip((k * unit) as int) =~= items.skip(unit * (done + k)));
            }
            if next {
                done = done + k;
                c = Constraints::none();
            } else {
                more = false;
            }
        }
        Ok(())
    }

    /// Writes a non-negative integer in the fewest bits that hold it, or in
    /// the fewest whole octets in the aligned variant, the highest bit first.
    pub fn encode_non_negative_binary_integer(&mut self, value: Integer)
        requires
            value@ >= 0,
        ensures
            final(self)@ == enc_natural(old(self)@, value@ as nat),
    {
        let n: u128 = value.value as u128;
        let found = digits(n);
        let least: usize = if found == 0 {
            1
        } else {
            found
        };
        let width: usize = if self.aligned {
            8 * ((least + 7) / 8)
        } else {
            least
        };
        self.write_number(n, width);
    }

    /// Writes an integer under `constraints`. A value that the constraints do
    /// not admit is refused, and nothing is written.
    pub fn write_integer(&mut self, value: &Integer, constraints: &Constraints) -> (r: Result<
        (),
        Error,
    >)
        ensures
            match enc_integer(old(self)@, value@, *constraints) {
                Ok(s) => r is Ok && final(self)@ == s,
                Err(k) => r is Err && r->Err_0.kind == k && final(self)@ == old(self)@,
            },
    {
        if !constraints.contains(value.value) {
            return Err(Error::new(ErrorKind::OutOfRange));
        }
        if constraints.finite() {
            let lo = constraints.lower.unwrap();
            let hi = constraints.upper.unwrap();
            self.write_number(span(lo, value.value), digits(span(lo, hi)));
            Ok(())
        } else {
            let bytes = value.to_octets();
            self.write_framed(&Input::Bytes(bytes.as_slice()), &Constraints::none())
        }
    }

    /// Writes the choice `value` of an enumeration of `variants` choices. A
    /// value that is none of them is refused, and nothing is written.
    pub fn write_enumerated(&mut self, value: isize, variants: usize) -> (r: Result<(), Error>)
        ensures
            match enc_enumerated(old(self)@, value as int, variants as nat) {
                Ok(s) => r is Ok && final(self)@ == s,
                Err(k) => r is Err && r->Err_0.kind == k && final(self)@ == old(self)@,
            },
    {
        if value < 0 || value as u128 >= variants as u128 {
            return Err(Error::new(ErrorKind::OutOfRange));
        }
        self.write_number(value as u128, digits((variants - 1) as u128));
        Ok(())
    }

    /// Writes an octet string whose length is under `constraints`.
    pub fn write_octets(&mut self, value: &[u8], constraints: &Constraints) -> (r: Result<
        (),
        Error,
    >)
        ensures
            match enc_octets(old(self)@, value@, *constraints) {
                Ok(s) => r is Ok && final(self)@ == s,
                Err(k) => r is Err && r->Err_0.kind == k && final(self)@ == old(self)@,
            },
    {
        self.write_framed(&Input::Bytes(value), constraints)
    }

    /// Writes a bit string whose length is under `constraints`.
    pub fn write_bit_field(&mut self, value: &BitString, constraints: &Constraints) -> (r: Result<
        (),
        Error,
    >)
        ensures
            match enc_bit_field(old(self)@, value@, *constraints) {
                Ok(s) => r is Ok && final(self)@ == s,
                Err(k) => r is Err && r->Err_0.kind == k && final(self)@ == old(self)@,
            },
    {
        self.write_framed(&Input::Bits(value), constraints)
    }

    /// Writes an object identifier. Arcs that are no valid arcs are refused,
    /// and nothing is written.
    pub fn write_object_identifier(&mut self, arcs: &[u32]) -> (r: Result<(), Error>)
        ensures
            match enc_oid(old(self)@, arcs@) {
                Ok(s) => r is Ok && final(self)@ == s,
                Err(k) => r is Err && r->Err_0.kind == k && final(self)@ == old(self)@,
            },
    {
        match crate::oid::to_contents(arcs) {
            Some(bytes) => self.write_octets(bytes.as_slice(), &Constraints::none()),
            None => Err(Error::new(ErrorKind::Violation)),
        }
    }

    /// Writes a time to the minute. A time that is none of the calendar is
    /// refused, and nothing is written.
    pub fn write_utc_time(&mut self, value: &UtcTime) -> (r: Result<(), Error>)
        ensures
            match crate::per::wire::enc_utc_time(old(self)@, *value) {
                Ok(s) => r is Ok && final(self)@ == s,
                Err(k) => r is Err && r->Err_0.kind == k && final(self)@ == old(self)@,
            },
    {
        match value.to_text() {
            Some(text) => self.write_octets(text.as_slice(), &Constraints::none()),
            None => Err(Error::new(ErrorKind::Violation)),
        }
    }

    /// Writes a time to the thousandth of a second. A time that is none of the calendar is
    /// refused, and nothing is written.
    pub fn write_generalized_time(&mut self, value: &GeneralizedTime) -> (r: Result<(), Error>)
        ensures
            match crate::per::wire::enc_generalized_time(old(self)@, *value) {
                Ok(s) => r is Ok && final(self)@ == s,
                Err(k) => r is Err && r->Err_0.kind == k && final(self)@ == old(self)@,
            },
    {
        match value.to_text() {
            Some(text) => self.write_octets(text.as_slice(), &Constraints::none()),
            None => Err(Error::new(ErrorKind::Violation)),
        }
    }

    /// Writes a nested value whose members `scope` holds: the bits of `scope`
    /// behind the determinant of their number.
    pub fn write_scope(&mut self, scope: &Encoder)
        ensures
            final(self)@ == enc_scope(old(self)@, scope@.bits),
    {
        let r = self.write_framed(&Input::Bits(&scope.output), &Constraints::none());
        assert(r is Ok);
    }

    /// Writes a boolean: one bit.
    pub fn write_bool(&mut self, value: bool)
        ensures
            final(self)@ == enc_bool(old(self)@, value),
    {
        self.output.push(value);
    }
}

impl crate::enc::Error for Error {
    open spec fn kind(&self) -> ErrorKind {
        self.kind
    }

    open spec fn message(&self) -> Seq<char> {
        self.message@
    }

    fn custom(msg: &str) -> (e: Self) {
        Error::with_message(msg)
    }
}

impl crate::enc::Encoder for Encoder {
    type Error = Error;

    open spec fn scope_spec(s: Output) -> Output {
        Output { bits: Seq::empty(), aligned: s.aligned }
    }

    open spec fn any_spec(s: Output, contents: Seq<u8>) -> Result<Output, ErrorKind> {
        enc_octets(s, contents, Constraints::unconstrained())
    }

    open spec fn bit_string_spec(s: Output, tag: Tag, value: Seq<bool>) -> Result<
        Output,
        ErrorKind,
    > {
        enc_bit_field(s, value, Constraints::unconstrained())
    }

    open spec fn bool_spec(s: Output, tag: Tag, value: bool) -> Result<Output, ErrorKind> {
        Ok(enc_bool(s, value))
    }

    open spec fn enumerated_spec(s: Output, tag: Tag, value: int, variants: nat) -> Result<
        Output,
        ErrorKind,
    > {
        enc_enumerated(s, value, variants)
    }

    open spec fn integer_spec(s: Output, tag: Tag, value: int, constraints: Constraints) -> Result<
        Output,
        ErrorKind,
    > {
        enc_integer(s, value, constraints)
    }

    /// The value without content takes no bit.
    open spec fn null_spec(s: Output, tag: Tag) -> Result<Output, ErrorKind> {
        Ok(s)
    }

    open spec fn object_identifier_spec(s: Output, tag: Tag, arcs: Seq<u32>) -> Result<
        Output,
        ErrorKind,
    > {
        enc_oid(s, arcs)
    }

    open spec fn octet_string_spec(s: Output, tag: Tag, value: Seq<u8>) -> Result<
        Output,
        ErrorKind,
    > {
        enc_octets(s, value, Constraints::unconstrained())
    }

    open spec fn utf8_string_spec(s: Output, tag: Tag, value: Seq<char>) -> Result<
        Output,
        ErrorKind,
    > {
        enc_text(s, value)
    }

    open spec fn utc_time_spec(s: Output, tag: Tag, value: UtcTime) -> Result<Output, ErrorKind> {
        crate::per::wire::enc_utc_time(s, value)
    }

    open spec fn generalized_time_spec(s: Output, tag: Tag, value: GeneralizedTime) -> Result<Output, ErrorKind> {
        crate::per::wire::enc_generalized_time(s, value)
    }

    open spec fn sequence_spec(s: Output, tag: Tag, members: Output) -> Result<Output, ErrorKind> {
        Ok(enc_scope(s, members.bits))
    }

    open spec fn set_spec(s: Output, tag: Tag, members: Output) -> Result<Output, ErrorKind> {
        Ok(enc_scope(s, members.bits))
    }

    open spec fn explicit_prefix_spec(s: Output, tag: Tag, inner: Output) -> Result<
        Output,
        ErrorKind,
    > {
        Ok(enc_scope(s, inner.bits))
    }

    open spec fn sequence_of_spec(s: Output, tag: Tag, count: nat, constraints: Constraints)
        -> Result<((nat, bool), Output), ErrorKind> {
        enc_group(s, count, constraints)
    }

    open spec fn set_of_spec(s: Output, tag: Tag, count: nat, constraints: Constraints) -> Result<
        ((nat, bool), Output),
        ErrorKind,
    > {
        enc_group(s, count, constraints)
    }

    fn scope(&self) -> (r: Self) {
        Self { output: BitString::new(), aligned: self.aligned }
    }

    fn encode_any(&mut self, value: &Any) -> (r: Result<(), Self::Error>) {
        self.write_octets(value.contents.as_slice(), &Constraints::none())
    }

    fn encode_bit_string(&mut self, tag: Tag, value: &BitString) -> (r: Result<(), Self::Error>) {
        self.write_bit_field(value, &Constraints::none())
    }

    fn encode_bool(&mut self, tag: Tag, value: bool) -> (r: Result<(), Self::Error>) {
        self.write_bool(value);
        Ok(())
    }

    fn encode_enumerated(&mut self, tag: Tag, value: isize, variants: usize) -> (r: Result<
        (),
        Self::Error,
    >) {
        self.write_enumerated(value, variants)
    }

    fn encode_integer(&mut self, tag: Tag, value: &Integer, constraints: &Constraints) -> (r:
        Result<(), Self::Error>) {
        self.write_integer(value, constraints)
    }

    fn encode_null(&mut self, tag: Tag) -> (r: Result<(), Self::Error>) {
        Ok(())
    }

    fn encode_object_identifier(&mut self, tag: Tag, oid: &[u32]) -> (r: Result<
        (),
        Self::Error,
    >) {
        self.write_object_identifier(oid)
    }

    fn encode_octet_string(&mut self, tag: Tag, value: &[u8]) -> (r: Result<(), Self::Error>) {
        self.write_octets(value, &Constraints::none())
    }

    fn encode_utf8_string(&mut self, tag: Tag, value: &str) -> (r: Result<(), Self::Error>) {
        self.write_octets(value.as_bytes(), &Constraints::none())
    }

    fn encode_utc_time(&mut self, tag: Tag, value: &UtcTime) -> (r: Result<(), Self::Error>) {
        self.write_utc_time(value)
    }

    fn encode_generalized_time(&mut self, tag: Tag, value: &GeneralizedTime) -> (r: Result<(), Self::Error>) {
        self.write_generalized_time(value)
    }

    fn encode_sequence(&mut self, tag: Tag, members: &Self) -> (r: Result<(), Self::Error>) {
        self.write_scope(members);
        Ok(())
    }

    fn encode_set(&mut self, tag: Tag, members: &Self) -> (r: Result<(), Self::Error>) {
        self.write_scope(members);
        Ok(())
    }

    fn encode_explicit_prefix(&mut self, tag: Tag, inner: &Self) -> (r: Result<(), Self::Error>) {
        self.write_scope(inner);
        Ok(())
    }

    fn encode_sequence_of(&mut self, tag: Tag, count: usize, constraints: &Constraints) -> (r:
        Result<(usize, bool), Self::Error>) {
        self.encode_length(count, constraints)
    }

    fn encode_set_of(&mut self, tag: Tag, count: usize, constraints: &Constraints) -> (r: Result<
        (usize, bool),
        Self::Error,
    >) {
        self.encode_length(count, constraints)
    }
}

/// The distance from `lo` up to `hi`.
pub fn span(lo: i128, hi: i128) -> (r: u128)
    requires
        lo <= hi,
    ensures
        r == hi - lo,
{
    if lo >= 0 || hi < 0 {
        (hi - lo) as u128
    } else {
        (hi as u128) + ((-(lo + 1)) as u128) + 1
    }
}

/// The number of binary digits of `n`.
pub fn digits(n: u128) -> (w: usize)
    ensures
        w == bit_width(n as nat),
        w <= 128,
{
    let mut w: usize = 0;
    let mut m = n;
    proof {
        crate::bits::lemma_pow2_values();
        crate::bits::lemma_bit_width_le(n as nat, 128);
    }
    while m > 0
        invariant
            w + bit_width(m as nat) == bit_width(n as nat),
            bit_width(n as nat) <= 128,
        decreases m,
    {
        m = m / 2;
        w = w + 1;
    }
    w
}

} // verus!
