//! The bit layout of the Packed Encoding Rules, as functions on sequences of
//! bits. The encoder and the decoder are both held to these.

use crate::bits::{bit_width, bits_to_bytes, bits_to_nat, bytes_to_bits, nat_to_bits};
use crate::integer::{from_twos_complement, is_minimal, octets_needed, twos_complement};
use crate::constraints::Constraints;
use crate::error::ErrorKind;
use vstd::prelude::*;

verus! {

/// The number of items that one fragment of a long length carries at most
/// four times.
pub const CHUNK: usize = 16384;

/// The upper bound from which a bounded count is written in the long form.
pub const SHORT_LIMIT: i128 = 65536;

/// `n` zero bits.
pub open spec fn zeros(n: nat) -> Seq<bool> {
    Seq::new(n, |i: int| false)
}

/// The number of bits from `len` to the next octet boundary; none in the
/// unaligned variant.
pub open spec fn padding(len: nat, aligned: bool) -> nat {
    if aligned {
        ((8 - len % 8) % 8) as nat
    } else {
        0
    }
}

/// `out`, filled up with zero bits to an octet boundary in the aligned
/// variant.
pub open spec fn pad(out: Seq<bool>, aligned: bool) -> Seq<bool> {
    out + zeros(padding(out.len(), aligned))
}

/// The width of a field that holds every value of `lo ..= hi`: the least
/// number of bits that can tell `hi - lo + 1` values apart.
pub open spec fn range_width(lo: int, hi: int) -> nat {
    bit_width((hi - lo) as nat)
}

/// The field of a value under finite bounds: its offset from the lower
/// bound, in the width of the range.
pub open spec fn constrained_bits(value: int, lo: int, hi: int) -> Seq<bool> {
    nat_to_bits((value - lo) as nat, range_width(lo, hi))
}

/// The three forms of a length determinant.
#[derive(Clone, Copy, Debug, PartialEq, Eq, Structural)]
pub enum LengthForm {
    /// The constraint fixes the count: nothing is written.
    Omitted,
    /// The count is bounded below the limit: one field in the width of the
    /// range.
    Short,
    /// Fragments of whole chunks, then the length of what remains.
    Long,
}

/// The form that a constraint selects. The encoder and the decoder both
/// derive it from the constraint alone.
pub open spec fn length_form(c: Constraints) -> LengthForm {
    if c.is_finite() && c.lower == c.upper {
        LengthForm::Omitted
    } else if c.is_finite() && c.upper->Some_0 < SHORT_LIMIT {
        LengthForm::Short
    } else {
        LengthForm::Long
    }
}

/// The number of whole chunks that the first fragment of `n` items carries.
pub open spec fn chunks(n: nat) -> nat {
    if n / (CHUNK as nat) < 4 {
        n / (CHUNK as nat)
    } else {
        4
    }
}

/// The determinant of the first fragment of `n` items in the long form: one
/// octet below 128, two below a chunk, else one octet that counts chunks.
pub open spec fn long_header(n: nat) -> Seq<bool> {
    if n < 128 {
        seq![false] + nat_to_bits(n, 7)
    } else if n < CHUNK {
        seq![true, false] + nat_to_bits(n, 14)
    } else {
        seq![true, true] + nat_to_bits(chunks(n), 6)
    }
}

/// The determinant that is written for `n` items under `c`.
pub open spec fn length_bits(n: nat, c: Constraints) -> Seq<bool> {
    match length_form(c) {
        LengthForm::Omitted => Seq::empty(),
        LengthForm::Short => constrained_bits(n as int, c.lower->Some_0 as int, c.upper->Some_0 as int),
        LengthForm::Long => long_header(n),
    }
}

/// The number of items that follow the determinant of `n` items before the
/// next determinant, if there is one.
pub open spec fn covered(n: nat, c: Constraints) -> nat {
    if length_form(c) == LengthForm::Long && n >= CHUNK {
        chunks(n) * (CHUNK as nat)
    } else {
        n
    }
}

/// Whether another determinant follows the items of the first fragment.
pub open spec fn continues(n: nat, c: Constraints) -> bool {
    length_form(c) == LengthForm::Long && n >= CHUNK
}

/// What reading a determinant gives: the number of items that follow, whether
/// another determinant follows them, and the position behind the determinant.
pub struct LengthRead {
    pub count: nat,
    pub more: bool,
    pub next: int,
}

/// Reads the determinant at `pos` in the form that `c` selects. A
/// determinant that the encoder would have written otherwise is malformed.
pub open spec fn read_length(bits: Seq<bool>, pos: int, c: Constraints) -> Result<
    LengthRead,
    ErrorKind,
> {
    match length_form(c) {
        LengthForm::Omitted => {
            if 0 <= c.lower->Some_0 <= usize::MAX {
                Ok(LengthRead { count: c.lower->Some_0 as nat, more: false, next: pos })
            } else {
                Err(ErrorKind::OutOfRange)
            }
        },
        LengthForm::Short => {
            let lo = c.lower->Some_0 as int;
            let hi = c.upper->Some_0 as int;
            let width = range_width(lo, hi);
            if lo > hi {
                Err(ErrorKind::OutOfRange)
            } else if pos + width > bits.len() {
                Err(ErrorKind::EndOfInput)
            } else {
                let offset = bits_to_nat(bits.subrange(pos, pos + width));
                if offset > hi - lo {
                    Err(ErrorKind::MalformedLength)
                } else if lo + offset < 0 {
                    Err(ErrorKind::OutOfRange)
                } else {
                    Ok(LengthRead { count: (lo + offset) as nat, more: false, next: pos + width })
                }
            }
        },
        LengthForm::Long => read_long_header(bits, pos),
    }
}

/// Reads one determinant of the long form at `pos`.
pub open spec fn read_long_header(bits: Seq<bool>, pos: int) -> Result<LengthRead, ErrorKind> {
    if pos + 8 > bits.len() {
        Err(ErrorKind::EndOfInput)
    } else if !bits[pos] {
        Ok(
            LengthRead {
                count: bits_to_nat(bits.subrange(pos + 1, pos + 8)),
                more: false,
                next: pos + 8,
            },
        )
    } else if !bits[pos + 1] {
        if pos + 16 > bits.len() {
            Err(ErrorKind::EndOfInput)
        } else {
            let n = bits_to_nat(bits.subrange(pos + 2, pos + 16));
            if n < 128 {
                Err(ErrorKind::MalformedLength)
            } else {
                Ok(LengthRead { count: n, more: false, next: pos + 16 })
            }
        }
    } else {
        let m = bits_to_nat(bits.subrange(pos + 2, pos + 8));
        if 1 <= m <= 4 {
            Ok(LengthRead { count: m * (CHUNK as nat), more: true, next: pos + 8 })
        } else {
            Err(ErrorKind::MalformedLength)
        }
    }
}

/// `out`, followed by the first fragment of `count` items of `unit` bits
/// each: the determinant, then the items that it covers, which start at an
/// octet boundary in the aligned variant.
pub open spec fn fragment(
    out: Seq<bool>,
    aligned: bool,
    items: Seq<bool>,
    unit: nat,
    count: nat,
    c: Constraints,
) -> Seq<bool> {
    let k = covered(count, c);
    let headed = out + length_bits(count, c);
    let padded = if k > 0 {
        pad(headed, aligned)
    } else {
        headed
    };
    padded + items.take((k * unit) as int)
}

/// `out`, followed by `count` items of `unit` bits each, which `items` holds
/// one after the other: fragment after fragment, until a determinant covers
/// all that is left.
pub open spec fn frame(
    out: Seq<bool>,
    aligned: bool,
    items: Seq<bool>,
    unit: nat,
    count: nat,
    c: Constraints,
) -> Seq<bool>
    decreases count,
{
    let k = covered(count, c);
    let filled = fragment(out, aligned, items, unit, count, c);
    if continues(count, c) {
        frame(
            filled,
            aligned,
            items.skip((k * unit) as int),
            unit,
            (count - k) as nat,
            Constraints::unconstrained(),
        )
    } else {
        filled
    }
}

/// What reading framed items gives: their bits and the position behind them.
pub struct FrameRead {
    pub items: Seq<bool>,
    pub next: int,
}

/// Skips the padding at `pos`, which must be zero bits.
pub open spec fn read_padding(bits: Seq<bool>, pos: int, aligned: bool) -> Result<int, ErrorKind> {
    let n = padding(pos as nat, aligned);
    if pos + n > bits.len() {
        Err(ErrorKind::EndOfInput)
    } else if bits.subrange(pos, pos + n) != zeros(n) {
        Err(ErrorKind::Violation)
    } else {
        Ok(pos + n)
    }
}

/// Where the items of one fragment stand, and whether another fragment
/// follows them.
pub struct FragmentRead {
    pub from: int,
    pub to: int,
    pub count: nat,
    pub more: bool,
}

/// Reads one fragment at `pos`: its determinant, the padding if items follow,
/// and the extent of the items.
pub open spec fn read_fragment(bits: Seq<bool>, pos: int, aligned: bool, unit: nat, c: Constraints)
    -> Result<FragmentRead, ErrorKind> {
    match read_length(bits, pos, c) {
        Err(e) => Err(e),
        Ok(head) => {
            let start = if head.count > 0 {
                read_padding(bits, head.next, aligned)
            } else {
                Ok(head.next)
            };
            match start {
                Err(e) => Err(e),
                Ok(from) => if from + head.count * unit > bits.len() {
                    Err(ErrorKind::EndOfInput)
                } else {
                    Ok(
                        FragmentRead {
                            from,
                            to: from + head.count * unit,
                            count: head.count,
                            more: head.more,
                        },
                    )
                },
            }
        },
    }
}

/// Reads the items that `frame` wrote at `pos`: fragment after fragment until
/// a determinant says that none follows.
pub open spec fn unframe(bits: Seq<bool>, pos: int, aligned: bool, unit: nat, c: Constraints)
    -> Result<FrameRead, ErrorKind> {
    unframe_from(bits, pos, aligned, unit, c, false)
}

/// Reads fragment after fragment from `pos`. Where `partial` holds, the
/// fragment before held fewer chunks than a fragment can: the encoder writes
/// no fragment of chunks behind such a one, and one that stands there is
/// malformed.
pub open spec fn unframe_from(
    bits: Seq<bool>,
    pos: int,
    aligned: bool,
    unit: nat,
    c: Constraints,
    partial: bool,
) -> Result<FrameRead, ErrorKind>
    decreases bits.len() - pos,
{
    match read_fragment(bits, pos, aligned, unit, c) {
        Err(e) => Err(e),
        Ok(part) => if part.more && partial {
            Err(ErrorKind::MalformedLength)
        } else if part.more && part.to > pos {
            match unframe_from(
                bits,
                part.to,
                aligned,
                unit,
                Constraints::unconstrained(),
                part.count < 4 * CHUNK,
            ) {
                Err(e) => Err(e),
                Ok(rest) => Ok(
                    FrameRead {
                        items: bits.subrange(part.from, part.to) + rest.items,
                        next: rest.next,
                    },
                ),
            }
        } else {
            Ok(FrameRead { items: bits.subrange(part.from, part.to), next: part.to })
        },
    }
}

/// The state of an encoder: the bits written so far, and the variant.
pub struct Output {
    pub bits: Seq<bool>,
    pub aligned: bool,
}

impl Output {
    /// The same variant with other bits.
    pub open spec fn with(self, bits: Seq<bool>) -> Output {
        Output { bits, aligned: self.aligned }
    }
}

/// The width in which a non-negative number is written when nothing fixes
/// it: the fewest bits, or the fewest whole octets in the aligned variant,
/// and one at least.
pub open spec fn natural_width(n: nat, aligned: bool) -> nat {
    let digits = if n == 0 {
        1
    } else {
        bit_width(n)
    };
    if aligned {
        8 * ((digits + 7) / 8)
    } else {
        digits
    }
}

/// After a non-negative number in its natural width.
pub open spec fn enc_natural(s: Output, n: nat) -> Output {
    s.with(s.bits + nat_to_bits(n, natural_width(n, s.aligned)))
}

/// After a boolean: one bit.
pub open spec fn enc_bool(s: Output, value: bool) -> Output {
    s.with(s.bits.push(value))
}

/// After the determinant of `n` items, if the constraint admits `n`.
pub open spec fn enc_length(s: Output, n: nat, c: Constraints) -> Result<Output, ErrorKind> {
    if c.admits(n as int) {
        Ok(s.with(s.bits + length_bits(n, c)))
    } else {
        Err(ErrorKind::OutOfRange)
    }
}

/// After `count` items of `unit` bits behind their determinants, if the
/// constraint admits the count.
pub open spec fn enc_items(s: Output, items: Seq<bool>, unit: nat, count: nat, c: Constraints)
    -> Result<Output, ErrorKind> {
    if c.admits(count as int) {
        Ok(s.with(frame(s.bits, s.aligned, items, unit, count, c)))
    } else {
        Err(ErrorKind::OutOfRange)
    }
}

/// After an octet string: its octets behind the determinant of their number.
pub open spec fn enc_octets(s: Output, bytes: Seq<u8>, c: Constraints) -> Result<
    Output,
    ErrorKind,
> {
    enc_items(s, bytes_to_bits(bytes), 8, bytes.len(), c)
}

/// After a bit string: its bits behind the determinant of their number.
pub open spec fn enc_bit_field(s: Output, bits: Seq<bool>, c: Constraints) -> Result<
    Output,
    ErrorKind,
> {
    enc_items(s, bits, 1, bits.len(), c)
}

/// After an integer. Under finite closed bounds it is its offset from the
/// lower bound in the width of the range. Else it is the fewest octets of its
/// two's complement, written as an octet string.
pub open spec fn enc_integer(s: Output, value: int, c: Constraints) -> Result<Output, ErrorKind> {
    if !c.admits(value) {
        Err(ErrorKind::OutOfRange)
    } else if c.is_finite() {
        Ok(s.with(s.bits + constrained_bits(value, c.lower->Some_0 as int, c.upper->Some_0 as int)))
    } else {
        enc_octets(
            s,
            twos_complement(value, octets_needed(value)),
            Constraints::unconstrained(),
        )
    }
}

/// After the choice `value` of an enumeration of `variants` choices: a
/// number under the bounds `0 ..= variants - 1`.
pub open spec fn enc_enumerated(s: Output, value: int, variants: nat) -> Result<
    Output,
    ErrorKind,
> {
    if 0 <= value < variants {
        Ok(s.with(s.bits + constrained_bits(value, 0, variants - 1)))
    } else {
        Err(ErrorKind::OutOfRange)
    }
}

/// After a nested value whose members were written to `inner`: the bits of
/// `inner` behind the determinant of their number, so that a reader can tell
/// where the value ends.
pub open spec fn enc_scope(s: Output, inner: Seq<bool>) -> Output {
    s.with(frame(s.bits, s.aligned, inner, 1, inner.len(), Constraints::unconstrained()))
}

/// The state of a decoder: the bits it reads, how far it has read, and the
/// variant.
pub struct Cursor {
    pub bits: Seq<bool>,
    pub position: int,
    pub aligned: bool,
}

impl Cursor {
    /// The same bits and variant, read up to `position`.
    pub open spec fn at(self, position: int) -> Cursor {
        Cursor { bits: self.bits, position, aligned: self.aligned }
    }

    /// The position lies within the bits.
    pub open spec fn wf(self) -> bool {
        0 <= self.position <= self.bits.len()
    }
}

/// Reads a boolean: one bit.
pub open spec fn dec_bool(c: Cursor) -> Result<(bool, Cursor), ErrorKind> {
    if c.position < c.bits.len() {
        Ok((c.bits[c.position], c.at(c.position + 1)))
    } else {
        Err(ErrorKind::EndOfInput)
    }
}

/// Reads a non-negative number of `width` bits.
pub open spec fn dec_natural(c: Cursor, width: nat) -> Result<(int, Cursor), ErrorKind> {
    if c.position + width > c.bits.len() {
        Err(ErrorKind::EndOfInput)
    } else {
        let n = bits_to_nat(c.bits.subrange(c.position, c.position + width));
        if n > i128::MAX {
            Err(ErrorKind::NarrowingOverflow)
        } else {
            Ok((n as int, c.at(c.position + width)))
        }
    }
}

/// Reads a determinant under `constraints`: the number of items that follow
/// it, and whether another determinant follows them.
pub open spec fn dec_length(c: Cursor, constraints: Constraints) -> Result<
    ((nat, bool), Cursor),
    ErrorKind,
> {
    match read_length(c.bits, c.position, constraints) {
        Ok(head) => Ok(((head.count, head.more), c.at(head.next))),
        Err(e) => Err(e),
    }
}

/// Reads items of `unit` bits behind their determinants. A count that the
/// constraints do not admit is refused.
pub open spec fn dec_items(c: Cursor, unit: nat, constraints: Constraints) -> Result<
    (Seq<bool>, Cursor),
    ErrorKind,
> {
    match unframe(c.bits, c.position, c.aligned, unit, constraints) {
        Err(e) => Err(e),
        Ok(read) => if constraints.admits((read.items.len() / unit) as int) {
            Ok((read.items, c.at(read.next)))
        } else {
            Err(ErrorKind::OutOfRange)
        },
    }
}

/// Reads an octet string.
pub open spec fn dec_octets(c: Cursor, constraints: Constraints) -> Result<
    (Seq<u8>, Cursor),
    ErrorKind,
> {
    match dec_items(c, 8, constraints) {
        Err(e) => Err(e),
        Ok((items, next)) => Ok((bits_to_bytes(items), next)),
    }
}

/// Reads a bit string.
pub open spec fn dec_bit_field(c: Cursor, constraints: Constraints) -> Result<
    (Seq<bool>, Cursor),
    ErrorKind,
> {
    dec_items(c, 1, constraints)
}

/// Reads an integer under `constraints`. An offset beyond the range, octets
/// that are not minimal and an integer that the constraints do not admit are
/// refused: the encoder writes none of them.
pub open spec fn dec_integer(c: Cursor, constraints: Constraints) -> Result<
    (int, Cursor),
    ErrorKind,
> {
    if constraints.is_finite() {
        let lo = constraints.lower->Some_0 as int;
        let hi = constraints.upper->Some_0 as int;
        let width = range_width(lo, hi);
        if lo > hi {
            Err(ErrorKind::OutOfRange)
        } else if c.position + width > c.bits.len() {
            Err(ErrorKind::EndOfInput)
        } else {
            let offset = bits_to_nat(c.bits.subrange(c.position, c.position + width));
            if offset > hi - lo {
                Err(ErrorKind::OutOfRange)
            } else {
                Ok((lo + offset, c.at(c.position + width)))
            }
        }
    } else {
        match dec_octets(c, Constraints::unconstrained()) {
            Err(e) => Err(e),
            Ok((bytes, next)) => if !is_minimal(bytes) {
                Err(ErrorKind::Violation)
            } else if bytes.len() > 16 {
                Err(ErrorKind::NarrowingOverflow)
            } else if !constraints.admits(from_twos_complement(bytes)) {
                Err(ErrorKind::OutOfRange)
            } else {
                Ok((from_twos_complement(bytes), next))
            },
        }
    }
}

/// Reads the choice of an enumeration of `variants` choices.
pub open spec fn dec_enumerated(c: Cursor, variants: nat) -> Result<(int, Cursor), ErrorKind> {
    let width = range_width(0, variants - 1);
    if variants == 0 {
        Err(ErrorKind::OutOfRange)
    } else if c.position + width > c.bits.len() {
        Err(ErrorKind::EndOfInput)
    } else {
        let offset = bits_to_nat(c.bits.subrange(c.position, c.position + width));
        if offset >= variants {
            Err(ErrorKind::OutOfRange)
        } else {
            Ok((offset as int, c.at(c.position + width)))
        }
    }
}

/// Reads a nested value: the bits of its members, which a decoder of their
/// own reads from the start.
pub open spec fn dec_scope(c: Cursor) -> Result<(Seq<bool>, Cursor), ErrorKind> {
    dec_items(c, 1, Constraints::unconstrained())
}

/// Enters a nested value: the state of the decoder of its members, and the
/// state behind the value.
pub open spec fn dec_nested(c: Cursor) -> Result<(Cursor, Cursor), ErrorKind> {
    match dec_scope(c) {
        Err(e) => Err(e),
        Ok((inner, next)) => Ok((Cursor { bits: inner, position: 0, aligned: c.aligned }, next)),
    }
}

/// After a text: its octets in UTF-8, as an octet string.
pub open spec fn enc_text(s: Output, text: Seq<char>) -> Result<Output, ErrorKind> {
    enc_octets(s, vstd::utf8::encode_utf8(text), Constraints::unconstrained())
}

/// Reads a text. Octets that are not valid UTF-8 are refused.
pub open spec fn dec_text(c: Cursor) -> Result<(Seq<char>, Cursor), ErrorKind> {
    match dec_octets(c, Constraints::unconstrained()) {
        Err(e) => Err(e),
        Ok((bytes, next)) => if vstd::utf8::valid_utf8(bytes) {
            Ok((vstd::utf8::decode_utf8(bytes), next))
        } else {
            Err(ErrorKind::Violation)
        },
    }
}

/// After the determinant of the next group of `n` elements: the number of
/// elements in the group, whether another group follows, and the state.
pub open spec fn enc_group(s: Output, n: nat, c: Constraints) -> Result<
    ((nat, bool), Output),
    ErrorKind,
> {
    match enc_length(s, n, c) {
        Ok(after) => Ok(((covered(n, c), continues(n, c)), after)),
        Err(e) => Err(e),
    }
}

/// After an object identifier: the octets of its subidentifiers, as an
/// octet string. Arcs that are no valid arcs are refused.
pub open spec fn enc_oid(s: Output, arcs: Seq<u32>) -> Result<Output, ErrorKind> {
    if crate::oid::valid_arcs(arcs) {
        enc_octets(s, crate::oid::contents(arcs), Constraints::unconstrained())
    } else {
        Err(ErrorKind::Violation)
    }
}

/// Reads an object identifier.
pub open spec fn dec_oid(c: Cursor) -> Result<(Seq<u32>, Cursor), ErrorKind> {
    match dec_octets(c, Constraints::unconstrained()) {
        Err(e) => Err(e),
        Ok((bytes, next)) => match crate::oid::parse(bytes) {
            Ok(arcs) => Ok((arcs, next)),
            Err(e) => Err(e),
        },
    }
}

/// After a time to the minute: its text, as an octet string. A time that is
/// none of the calendar is refused.
pub open spec fn enc_utc_time(s: Output, time: crate::time::UtcTime) -> Result<Output, ErrorKind> {
    if time.wf() {
        enc_octets(s, time.text(), Constraints::unconstrained())
    } else {
        Err(ErrorKind::Violation)
    }
}

/// Reads a time to the minute.
pub open spec fn dec_utc_time(c: Cursor) -> Result<(crate::time::UtcTime, Cursor), ErrorKind> {
    match dec_octets(c, Constraints::unconstrained()) {
        Err(e) => Err(e),
        Ok((text, next)) => match crate::time::UtcTime::parse(text) {
            Ok(time) => Ok((time, next)),
            Err(e) => Err(e),
        },
    }
}

/// After a time to the thousandth of a second: its text, as an octet string. A time that is
/// none of the calendar is refused.
pub open spec fn enc_generalized_time(s: Output, time: crate::time::GeneralizedTime) -> Result<Output, ErrorKind> {
    if time.wf() {
        enc_octets(s, time.text(), Constraints::unconstrained())
    } else {
        Err(ErrorKind::Violation)
    }
}

/// Reads a time to the thousandth of a second.
pub open spec fn dec_generalized_time(c: Cursor) -> Result<(crate::time::GeneralizedTime, Cursor), ErrorKind> {
    match dec_octets(c, Constraints::unconstrained()) {
        Err(e) => Err(e),
        Ok((text, next)) => match crate::time::GeneralizedTime::parse(text) {
            Ok(time) => Ok((time, next)),
            Err(e) => Err(e),
        },
    }
}

} // verus!
