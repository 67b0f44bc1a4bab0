//! What holds of the layout: a decoder reads back what an encoder wrote,
//! whatever stood before it and whatever follows.

use crate::bits::{
    bit_width, bits_to_nat, lemma_bit_width_bounds, lemma_nat_round_trip, lemma_nat_to_bits_len,
    lemma_pow2_monotonic, lemma_pow2_values, nat_to_bits, pow2,
};
use crate::constraints::Constraints;
use crate::error::ErrorKind;
use crate::bits::{bytes_to_bits, lemma_bytes_to_bits_len, lemma_pack_bytes};
use crate::integer::{
    lemma_octets_needed_i128, lemma_twos_complement_len, lemma_twos_complement_minimal,
    lemma_twos_complement_round_trip, octets_needed, twos_complement,
};
use crate::per::wire::{
    dec_bit_field, dec_bool, dec_enumerated, dec_integer, dec_items, dec_length, dec_natural,
    dec_octets, dec_scope, enc_bit_field, enc_bool, enc_enumerated, enc_integer, enc_items,
    enc_length, enc_natural, enc_octets, enc_scope, natural_width, Cursor, Output,
};
use crate::per::wire::{
    chunks, constrained_bits, continues, covered, fragment, frame, length_bits, length_form,
    long_header, pad, padding, range_width, read_fragment, read_length, read_long_header,
    read_padding, unframe, unframe_from, zeros, FragmentRead, FrameRead, LengthForm, LengthRead,
    CHUNK, SHORT_LIMIT,
};
use vstd::prelude::*;

verus! {

/// The width of a range is the least number of bits that tells its values
/// apart: the logarithm of their number to the base two, rounded up.
pub proof fn lemma_range_width(lo: int, hi: int)
    requires
        lo <= hi,
    ensures
        hi - lo + 1 <= pow2(range_width(lo, hi)),
        range_width(lo, hi) > 0 ==> pow2((range_width(lo, hi) - 1) as nat) < hi - lo + 1,
        lo == hi ==> range_width(lo, hi) == 0,
{
    lemma_bit_width_bounds((hi - lo) as nat);
}

/// A value under finite bounds is written in exactly the width of the range,
/// as its offset from the lower bound.
pub proof fn lemma_constrained_width(value: int, lo: int, hi: int)
    requires
        lo <= value <= hi,
    ensures
        constrained_bits(value, lo, hi).len() == range_width(lo, hi),
        bits_to_nat(constrained_bits(value, lo, hi)) == value - lo,
{
    let w = range_width(lo, hi);
    lemma_nat_to_bits_len((value - lo) as nat, w);
    lemma_bit_width_bounds((hi - lo) as nat);
    lemma_nat_round_trip((value - lo) as nat, w);
}

/// A field of `width` bits that stands behind `out` is read back from there.
pub proof fn lemma_read_field(out: Seq<bool>, n: nat, width: nat, rest: Seq<bool>)
    requires
        n < pow2(width),
    ensures
        (out + nat_to_bits(n, width) + rest).subrange(out.len() as int, (out.len() + width) as int)
            == nat_to_bits(n, width),
        bits_to_nat(
            (out + nat_to_bits(n, width) + rest).subrange(out.len() as int, (out.len() + width) as int),
        ) == n,
        nat_to_bits(n, width).len() == width,
{
    let field = nat_to_bits(n, width);
    lemma_nat_to_bits_len(n, width);
    lemma_nat_round_trip(n, width);
    assert((out + field + rest).subrange(out.len() as int, (out.len() + width) as int) =~= field);
}

/// The form of a determinant follows from the constraint alone: nothing is
/// written for a fixed count, one field in the width of the range for a count
/// bounded below the limit, and octets of the long form otherwise.
pub proof fn lemma_length_forms(n: nat, c: Constraints)
    requires
        c.admits(n as int),
    ensures
        c.is_finite() && c.lower == c.upper ==> length_bits(n, c).len() == 0,
        c.is_finite() && c.lower != c.upper && c.upper->Some_0 < SHORT_LIMIT ==> length_bits(n, c)
            == constrained_bits(n as int, c.lower->Some_0 as int, c.upper->Some_0 as int)
            && length_bits(n, c).len() == range_width(
            c.lower->Some_0 as int,
            c.upper->Some_0 as int,
        ),
        !c.is_finite() || (c.lower != c.upper && c.upper->Some_0 >= SHORT_LIMIT) ==> length_bits(
            n,
            c,
        ) == long_header(n),
        long_header(n).len() == if 128 <= n < CHUNK {
            16nat
        } else {
            8nat
        },
        n >= CHUNK ==> 1 <= chunks(n) <= 4 && chunks(n) * CHUNK <= n,
{
    lemma_nat_to_bits_len(n, 7);
    lemma_nat_to_bits_len(n, 14);
    lemma_nat_to_bits_len(chunks(n), 6);
    if c.is_finite() && c.lower != c.upper {
        lemma_constrained_width(n as int, c.lower->Some_0 as int, c.upper->Some_0 as int);
    }
}

/// A determinant that stands behind `out` is read back from there: it gives
/// the number of items of the first fragment and tells whether another
/// determinant follows them.
pub proof fn lemma_length_round_trip(out: Seq<bool>, n: nat, c: Constraints, rest: Seq<bool>)
    requires
        c.admits(n as int),
        n <= usize::MAX,
    ensures
        read_length(out + length_bits(n, c) + rest, out.len() as int, c) == Ok::<
            LengthRead,
            ErrorKind,
        >(
            LengthRead {
                count: covered(n, c),
                more: continues(n, c),
                next: (out.len() + length_bits(n, c).len()) as int,
            },
        ),
{
    let bits = out + length_bits(n, c) + rest;
    let pos = out.len() as int;
    lemma_pow2_values();
    lemma_length_forms(n, c);
    match length_form(c) {
        LengthForm::Omitted => {},
        LengthForm::Short => {
            let lo = c.lower->Some_0 as int;
            let hi = c.upper->Some_0 as int;
            lemma_bit_width_bounds((hi - lo) as nat);
            lemma_read_field(out, (n - lo) as nat, range_width(lo, hi), rest);
        },
        LengthForm::Long => {
            if n < 128 {
                let lead = out + seq![false];
                lemma_read_field(lead, n, 7, rest);
                assert(bits =~= lead + nat_to_bits(n, 7) + rest);
                assert(read_long_header(bits, pos) == Ok::<LengthRead, ErrorKind>(
                    LengthRead { count: n, more: false, next: pos + 8 },
                ));
            } else if n < CHUNK {
                let lead = out + seq![true, false];
                lemma_read_field(lead, n, 14, rest);
                assert(bits =~= lead + nat_to_bits(n, 14) + rest);
                assert(bits[pos]);
                assert(!bits[pos + 1]);
                assert(read_long_header(bits, pos) == Ok::<LengthRead, ErrorKind>(
                    LengthRead { count: n, more: false, next: pos + 16 },
                ));
            } else {
                let lead = out + seq![true, true];
                lemma_read_field(lead, chunks(n), 6, rest);
                assert(bits =~= lead + nat_to_bits(chunks(n), 6) + rest);
                assert(bits[pos]);
                assert(bits[pos + 1]);
                assert(read_long_header(bits, pos) == Ok::<LengthRead, ErrorKind>(
                    LengthRead { count: chunks(n) * (CHUNK as nat), more: true, next: pos + 8 },
                ));
            }
        },
    }
}

/// Padding that stands behind `out` is skipped.
pub proof fn lemma_padding_round_trip(out: Seq<bool>, aligned: bool, rest: Seq<bool>)
    ensures
        read_padding(pad(out, aligned) + rest, out.len() as int, aligned) == Ok::<int, ErrorKind>(
            pad(out, aligned).len() as int,
        ),
        pad(out, aligned).len() == out.len() + padding(out.len(), aligned),
{
    let n = padding(out.len(), aligned);
    let bits = pad(out, aligned) + rest;
    assert(bits.subrange(out.len() as int, (out.len() + n) as int) =~= zeros(n));
}

/// The first fragment carries no more items than there are.
pub proof fn lemma_covered(count: nat, c: Constraints, unit: nat)
    ensures
        covered(count, c) <= count,
        covered(count, c) * unit <= count * unit,
        (count - covered(count, c)) * unit == count * unit - covered(count, c) * unit,
        continues(count, c) ==> covered(count, c) >= CHUNK,
        !continues(count, c) ==> covered(count, c) == count,
        0 <= covered(count, c) * unit,
{
    let k = covered(count, c);
    assert(k * unit <= count * unit) by (nonlinear_arith)
        requires
            k <= count,
    ;
    assert(0 <= k * unit) by (nonlinear_arith)
        requires
            0 <= k,
            0 <= unit,
    ;
    assert((count - k) * unit == count * unit - k * unit) by (nonlinear_arith);
}

/// A fragment begins with what stood there before, and ends with its items.
pub proof fn lemma_fragment_extends(
    out: Seq<bool>,
    aligned: bool,
    items: Seq<bool>,
    unit: nat,
    count: nat,
    c: Constraints,
)
    requires
        items.len() == count * unit,
    ensures
        out.len() <= fragment(out, aligned, items, unit, count, c).len(),
        fragment(out, aligned, items, unit, count, c).take(out.len() as int) == out,
{
    lemma_covered(count, c, unit);
    assert(fragment(out, aligned, items, unit, count, c).take(out.len() as int) =~= out);
}

/// A fragment that stands behind `out` is read back from there: the reader
/// finds its items at its end.
pub proof fn lemma_fragment_round_trip(
    out: Seq<bool>,
    aligned: bool,
    items: Seq<bool>,
    unit: nat,
    count: nat,
    c: Constraints,
    tail: Seq<bool>,
)
    requires
        items.len() == count * unit,
        c.admits(count as int),
        count <= usize::MAX,
    ensures
        ({
            let filled = fragment(out, aligned, items, unit, count, c);
            let width = covered(count, c) * unit;
            &&& read_fragment(filled + tail, out.len() as int, aligned, unit, c) == Ok::<
                FragmentRead,
                ErrorKind,
            >(
                FragmentRead {
                    from: filled.len() - width,
                    to: filled.len() as int,
                    count: covered(count, c),
                    more: continues(count, c),
                },
            )
            &&& out.len() <= filled.len() - width
            &&& (filled + tail).subrange(filled.len() - width, filled.len() as int) == items.take(
                width as int,
            )
        }),
{
    let k = covered(count, c);
    let header = length_bits(count, c);
    let headed = out + header;
    let padded = if k > 0 {
        pad(headed, aligned)
    } else {
        headed
    };
    let first = items.take((k * unit) as int);
    let filled = padded + first;
    let bits = filled + tail;
    lemma_covered(count, c, unit);
    let pad_bits = padded.skip(headed.len() as int);
    assert(padded =~= headed + pad_bits);
    assert(bits =~= out + header + (pad_bits + first + tail));
    lemma_length_round_trip(out, count, c, pad_bits + first + tail);
    if k > 0 {
        lemma_padding_round_trip(headed, aligned, first + tail);
        assert(bits =~= pad(headed, aligned) + (first + tail));
    }
    let from = padded.len() as int;
    let to = from + k * unit;
    assert(bits.subrange(from, to) =~= first);
}

/// What `frame` writes begins with what stood there before.
pub proof fn lemma_frame_extends(
    out: Seq<bool>,
    aligned: bool,
    items: Seq<bool>,
    unit: nat,
    count: nat,
    c: Constraints,
)
    requires
        items.len() == count * unit,
    ensures
        out.len() <= frame(out, aligned, items, unit, count, c).len(),
        frame(out, aligned, items, unit, count, c).take(out.len() as int) == out,
    decreases count,
{
    let k = covered(count, c);
    let filled = fragment(out, aligned, items, unit, count, c);
    lemma_covered(count, c, unit);
    lemma_fragment_extends(out, aligned, items, unit, count, c);
    if continues(count, c) {
        let later = items.skip((k * unit) as int);
        let none = Constraints::unconstrained();
        lemma_frame_extends(filled, aligned, later, unit, (count - k) as nat, none);
        let whole = frame(filled, aligned, later, unit, (count - k) as nat, none);
        assert(whole.take(out.len() as int) =~= whole.take(filled.len() as int).take(
            out.len() as int,
        ));
    }
}

/// The first fragment of a frame that goes on is read back from where it
/// stands, and the rest of the frame follows it.
proof fn lemma_frame_first(
    out: Seq<bool>,
    aligned: bool,
    items: Seq<bool>,
    unit: nat,
    count: nat,
    c: Constraints,
    rest: Seq<bool>,
)
    requires
        items.len() == count * unit,
        c.admits(count as int),
        count <= usize::MAX,
        continues(count, c),
    ensures
        ({
            let k = covered(count, c);
            let filled = fragment(out, aligned, items, unit, count, c);
            let later = items.skip((k * unit) as int);
            let whole = frame(out, aligned, items, unit, count, c);
            &&& whole == frame(
                filled,
                aligned,
                later,
                unit,
                (count - k) as nat,
                Constraints::unconstrained(),
            )
            &&& later.len() == (count - k) * unit
            &&& out.len() < filled.len()
            &&& read_fragment(whole + rest, out.len() as int, aligned, unit, c) == Ok::<
                FragmentRead,
                ErrorKind,
            >(
                FragmentRead {
                    from: filled.len() - k * unit,
                    to: filled.len() as int,
                    count: k,
                    more: true,
                },
            )
            &&& (k < 4 * CHUNK ==> count - k < CHUNK)
            &&& (whole + rest).subrange(filled.len() - k * unit, filled.len() as int) + later
                == items
        }),
{
    let k = covered(count, c);
    let filled = fragment(out, aligned, items, unit, count, c);
    let later = items.skip((k * unit) as int);
    let none = Constraints::unconstrained();
    let whole = frame(out, aligned, items, unit, count, c);
    let bits = whole + rest;
    lemma_covered(count, c, unit);
    lemma_length_forms(count, c);
    assert(filled.len() >= (out + length_bits(count, c)).len());
    lemma_frame_extends(filled, aligned, later, unit, (count - k) as nat, none);
    let tail = bits.skip(filled.len() as int);
    assert(whole.take(filled.len() as int) == filled);
    assert(bits =~= filled + tail);
    lemma_fragment_round_trip(out, aligned, items, unit, count, c, tail);
    assert(items.take((k * unit) as int) + later =~= items);
}

/// Framed items that stand behind `out` are read back from there fragment
/// after fragment, also behind a fragment of fewer chunks than a fragment
/// can hold, where the items fill no chunk.
pub proof fn lemma_frame_round_trip_from(
    out: Seq<bool>,
    aligned: bool,
    items: Seq<bool>,
    unit: nat,
    count: nat,
    c: Constraints,
    rest: Seq<bool>,
    partial: bool,
)
    requires
        items.len() == count * unit,
        c.admits(count as int),
        count <= usize::MAX,
        partial ==> !continues(count, c),
    ensures
        unframe_from(
            frame(out, aligned, items, unit, count, c) + rest,
            out.len() as int,
            aligned,
            unit,
            c,
            partial,
        ) == Ok::<FrameRead, ErrorKind>(
            FrameRead { items, next: frame(out, aligned, items, unit, count, c).len() as int },
        ),
    decreases count,
{
    let k = covered(count, c);
    let filled = fragment(out, aligned, items, unit, count, c);
    let none = Constraints::unconstrained();
    lemma_covered(count, c, unit);
    if continues(count, c) {
        let later = items.skip((k * unit) as int);
        lemma_frame_first(out, aligned, items, unit, count, c, rest);
        lemma_frame_round_trip_from(
            filled,
            aligned,
            later,
            unit,
            (count - k) as nat,
            none,
            rest,
            k < 4 * CHUNK,
        );
    } else {
        lemma_fragment_round_trip(out, aligned, items, unit, count, c, rest);
        assert(items.take((k * unit) as int) =~= items);
    }
}

/// Framed items that stand behind `out` are read back from there, with
/// their determinants and their padding, and the reader ends where the frame
/// ends.
pub proof fn lemma_frame_round_trip(
    out: Seq<bool>,
    aligned: bool,
    items: Seq<bool>,
    unit: nat,
    count: nat,
    c: Constraints,
    rest: Seq<bool>,
)
    requires
        items.len() == count * unit,
        c.admits(count as int),
        count <= usize::MAX,
    ensures
        unframe(
            frame(out, aligned, items, unit, count, c) + rest,
            out.len() as int,
            aligned,
            unit,
            c,
        ) == Ok::<FrameRead, ErrorKind>(
            FrameRead { items, next: frame(out, aligned, items, unit, count, c).len() as int },
        ),
{
    lemma_frame_round_trip_from(out, aligned, items, unit, count, c, rest, false);
}

/// A determinant that is read is the determinant that the encoder writes
/// for the same count: no other is accepted.
pub proof fn lemma_length_canonical(bits: Seq<bool>, pos: int, c: Constraints)
    requires
        0 <= pos <= bits.len(),
        read_length(bits, pos, c) is Ok,
    ensures
        ({
            let head = read_length(bits, pos, c)->Ok_0;
            &&& pos <= head.next <= bits.len()
            &&& !head.more ==> length_bits(head.count, c) == bits.subrange(pos, head.next)
                && covered(head.count, c) == head.count && !continues(head.count, c)
            &&& head.more ==> length_form(c) == LengthForm::Long && head.next == pos + 8
                && 1 <= head.count / (CHUNK as nat) <= 4 && head.count == (head.count / (
            CHUNK as nat)) * CHUNK && bits.subrange(pos, head.next) == seq![true, true]
                + nat_to_bits(head.count / (CHUNK as nat), 6)
        }),
{
    let head = read_length(bits, pos, c)->Ok_0;
    lemma_pow2_values();
    match length_form(c) {
        LengthForm::Omitted => {
            assert(bits.subrange(pos, pos) =~= Seq::<bool>::empty());
        },
        LengthForm::Short => {
            let lo = c.lower->Some_0 as int;
            let hi = c.upper->Some_0 as int;
            let width = range_width(lo, hi);
            let field = bits.subrange(pos, pos + width);
            crate::bits::lemma_bits_round_trip(field);
        },
        LengthForm::Long => {
            if !bits[pos] {
                let field = bits.subrange(pos + 1, pos + 8);
                crate::bits::lemma_bits_round_trip(field);
                crate::bits::lemma_bits_to_nat_bound(field);
                assert(bits.subrange(pos, pos + 8) =~= seq![false] + field);
            } else if !bits[pos + 1] {
                let field = bits.subrange(pos + 2, pos + 16);
                crate::bits::lemma_bits_round_trip(field);
                crate::bits::lemma_bits_to_nat_bound(field);
                assert(bits.subrange(pos, pos + 16) =~= seq![true, false] + field);
            } else {
                let field = bits.subrange(pos + 2, pos + 8);
                crate::bits::lemma_bits_round_trip(field);
                let m = bits_to_nat(field);
                assert(head.count == m * (CHUNK as nat));
                assert(head.count / (CHUNK as nat) == m);
                assert(bits.subrange(pos, pos + 8) =~= seq![true, true] + field);
            }
        },
    }
}

/// A fragment that is read is the fragment that the encoder writes: the
/// bits up to its end are the bits before it, the determinant, the padding
/// and the items.
proof fn lemma_fragment_canonical(
    bits: Seq<bool>,
    pos: int,
    aligned: bool,
    unit: nat,
    c: Constraints,
    count: nat,
    items: Seq<bool>,
)
    requires
        0 <= pos <= bits.len(),
        read_fragment(bits, pos, aligned, unit, c) is Ok,
        ({
            let part = read_fragment(bits, pos, aligned, unit, c)->Ok_0;
            &&& length_bits(count, c) == bits.subrange(pos, read_length(bits, pos, c)->Ok_0.next)
            &&& covered(count, c) == part.count
            &&& items.len() >= part.count * unit
            &&& items.take((part.count * unit) as int) == bits.subrange(part.from, part.to)
        }),
    ensures
        ({
            let part = read_fragment(bits, pos, aligned, unit, c)->Ok_0;
            &&& pos <= part.from <= part.to <= bits.len()
            &&& part.to == part.from + part.count * unit
            &&& fragment(bits.take(pos), aligned, items, unit, count, c) == bits.take(part.to)
        }),
{
    let part = read_fragment(bits, pos, aligned, unit, c)->Ok_0;
    let head = read_length(bits, pos, c)->Ok_0;
    lemma_length_canonical(bits, pos, c);
    let headed = bits.take(pos) + length_bits(count, c);
    assert(headed =~= bits.take(head.next));
    assert(0 <= part.count * unit) by (nonlinear_arith)
        requires
            part.count >= 0,
            unit >= 0,
    ;
    if part.count > 0 {
        assert(pad(headed, aligned) =~= bits.take(part.from));
    }
    assert(bits.take(part.from) + bits.subrange(part.from, part.to) =~= bits.take(part.to));
}

/// Framed items that are read are framed as the encoder frames them: the
/// bits up to where the reader ends are what the encoder writes for the
/// items behind the bits before them. No other framing is accepted.
pub proof fn lemma_frame_canonical(
    bits: Seq<bool>,
    pos: int,
    aligned: bool,
    unit: nat,
    c: Constraints,
    partial: bool,
)
    requires
        0 <= pos <= bits.len(),
        unit > 0,
        unframe_from(bits, pos, aligned, unit, c, partial) is Ok,
    ensures
        ({
            let read = unframe_from(bits, pos, aligned, unit, c, partial)->Ok_0;
            let count = read.items.len() / unit;
            &&& read.items.len() == count * unit
            &&& pos <= read.next <= bits.len()
            &&& frame(bits.take(pos), aligned, read.items, unit, count, c) == bits.take(read.next)
            &&& partial ==> !continues(count, c)
        }),
    decreases bits.len() - pos,
{
    let read = unframe_from(bits, pos, aligned, unit, c, partial)->Ok_0;
    let part = read_fragment(bits, pos, aligned, unit, c)->Ok_0;
    let first = bits.subrange(part.from, part.to);
    let none = Constraints::unconstrained();
    lemma_length_canonical(bits, pos, c);
    assert(0 <= part.count * unit) by (nonlinear_arith)
        requires
            part.count >= 0,
            unit >= 0,
    ;
    if part.more {
        let m = part.count / (CHUNK as nat);
        let rest = unframe_from(bits, part.to, aligned, unit, none, part.count < 4 * CHUNK)->Ok_0;
        lemma_frame_canonical(bits, part.to, aligned, unit, none, part.count < 4 * CHUNK);
        let later = rest.items.len() / unit;
        let count = part.count + later;
        assert(read.items =~= first + rest.items);
        assert(read.items.len() == count * unit) by (nonlinear_arith)
            requires
                read.items.len() == part.count * unit + later * unit,
                count == part.count + later,
        ;
        assert(read.items.len() / unit == count) by (nonlinear_arith)
            requires
                read.items.len() == count * unit,
                unit > 0,
        ;
        assert(chunks(count) == m);
        assert(covered(count, c) == part.count);
        assert(read.items.take((part.count * unit) as int) =~= first);
        assert(read.items.skip((part.count * unit) as int) =~= rest.items);
        lemma_fragment_canonical(bits, pos, aligned, unit, c, count, read.items);
    } else {
        assert(read.items == first);
        assert(first.len() / unit == part.count) by (nonlinear_arith)
            requires
                first.len() == part.count * unit,
                unit > 0,
        ;
        assert(first.take((part.count * unit) as int) =~= first);
        lemma_fragment_canonical(bits, pos, aligned, unit, c, part.count, first);
    }
}

/// An octet string that is read is written again as it stood: the bits up
/// to where the reader ends are what the encoder writes for the octets behind
/// the bits before them.
pub proof fn lemma_octets_canonical(c: Cursor, constraints: Constraints)
    requires
        c.wf(),
        dec_octets(c, constraints) is Ok,
    ensures
        ({
            let read = dec_octets(c, constraints)->Ok_0;
            enc_octets(
                Output { bits: c.bits.take(c.position), aligned: c.aligned },
                read.0,
                constraints,
            ) == Ok::<Output, ErrorKind>(
                Output { bits: c.bits.take(read.1.position), aligned: c.aligned },
            )
        }),
{
    let items = dec_items(c, 8, constraints)->Ok_0.0;
    lemma_frame_canonical(c.bits, c.position, c.aligned, 8, constraints, false);
    crate::bits::lemma_unpack_padded(items);
    let bytes = crate::bits::bits_to_bytes(items);
    assert(bytes_to_bits(bytes) =~= items);
    assert(bytes.len() == items.len() / 8);
}

/// The reader that has read what `before` holds and finds `bits` as its
/// input.
pub open spec fn reader(before: Output, bits: Seq<bool>) -> Cursor {
    Cursor { bits, position: before.bits.len() as int, aligned: before.aligned }
}

/// A boolean that was written is read back, and the reader stands behind it.
pub proof fn lemma_bool_round_trip(s: Output, value: bool, rest: Seq<bool>)
    ensures
        ({
            let after = enc_bool(s, value);
            dec_bool(reader(s, after.bits + rest)) == Ok::<(bool, Cursor), ErrorKind>(
                (value, reader(after, after.bits + rest)),
            )
        }),
{
}

/// A non-negative number that was written in its natural width is read back
/// in that width.
pub proof fn lemma_natural_round_trip(s: Output, n: nat, rest: Seq<bool>)
    requires
        n <= i128::MAX,
    ensures
        ({
            let after = enc_natural(s, n);
            dec_natural(reader(s, after.bits + rest), natural_width(n, s.aligned)) == Ok::<
                (int, Cursor),
                ErrorKind,
            >((n as int, reader(after, after.bits + rest)))
        }),
{
    let width = natural_width(n, s.aligned);
    lemma_bit_width_bounds(n);
    lemma_pow2_values();
    lemma_pow2_monotonic(bit_width(n), width);
    lemma_read_field(s.bits, n, width, rest);
}

/// A determinant that was written is read back under the same constraint.
pub proof fn lemma_length_law(s: Output, n: nat, c: Constraints, rest: Seq<bool>)
    requires
        enc_length(s, n, c) is Ok,
        n <= usize::MAX,
    ensures
        ({
            let after = enc_length(s, n, c)->Ok_0;
            dec_length(reader(s, after.bits + rest), c) == Ok::<
                ((nat, bool), Cursor),
                ErrorKind,
            >(((covered(n, c), continues(n, c)), reader(after, after.bits + rest)))
        }),
{
    lemma_length_round_trip(s.bits, n, c, rest);
}

/// Items that were written behind their determinants are read back under
/// the same constraint.
pub proof fn lemma_items_round_trip(
    s: Output,
    items: Seq<bool>,
    unit: nat,
    count: nat,
    c: Constraints,
    rest: Seq<bool>,
)
    requires
        unit > 0,
        items.len() == count * unit,
        count <= usize::MAX,
        enc_items(s, items, unit, count, c) is Ok,
    ensures
        ({
            let after = enc_items(s, items, unit, count, c)->Ok_0;
            dec_items(reader(s, after.bits + rest), unit, c) == Ok::<
                (Seq<bool>, Cursor),
                ErrorKind,
            >((items, reader(after, after.bits + rest)))
        }),
{
    lemma_frame_round_trip(s.bits, s.aligned, items, unit, count, c, rest);
    assert(items.len() / unit == count) by (nonlinear_arith)
        requires
            items.len() == count * unit,
            unit > 0,
    ;
}

/// An octet string that was written is read back under the same constraint.
pub proof fn lemma_octets_round_trip(s: Output, bytes: Seq<u8>, c: Constraints, rest: Seq<bool>)
    requires
        bytes.len() <= usize::MAX,
        enc_octets(s, bytes, c) is Ok,
    ensures
        ({
            let after = enc_octets(s, bytes, c)->Ok_0;
            dec_octets(reader(s, after.bits + rest), c) == Ok::<(Seq<u8>, Cursor), ErrorKind>(
                (bytes, reader(after, after.bits + rest)),
            )
        }),
{
    lemma_bytes_to_bits_len(bytes);
    lemma_pack_bytes(bytes);
    lemma_items_round_trip(s, bytes_to_bits(bytes), 8, bytes.len(), c, rest);
}

/// A bit string that was written is read back under the same constraint.
pub proof fn lemma_bit_field_round_trip(
    s: Output,
    bits: Seq<bool>,
    c: Constraints,
    rest: Seq<bool>,
)
    requires
        bits.len() <= usize::MAX,
        enc_bit_field(s, bits, c) is Ok,
    ensures
        ({
            let after = enc_bit_field(s, bits, c)->Ok_0;
            dec_bit_field(reader(s, after.bits + rest), c) == Ok::<
                (Seq<bool>, Cursor),
                ErrorKind,
            >((bits, reader(after, after.bits + rest)))
        }),
{
    lemma_items_round_trip(s, bits, 1, bits.len(), c, rest);
}

/// The members of a nested value that was written are read back as the
/// input of the nested reader.
pub proof fn lemma_scope_round_trip(s: Output, inner: Seq<bool>, rest: Seq<bool>)
    requires
        inner.len() <= usize::MAX,
    ensures
        ({
            let after = enc_scope(s, inner);
            dec_scope(reader(s, after.bits + rest)) == Ok::<(Seq<bool>, Cursor), ErrorKind>(
                (inner, reader(after, after.bits + rest)),
            )
        }),
{
    lemma_items_round_trip(s, inner, 1, inner.len(), Constraints::unconstrained(), rest);
}

/// An integer that was written is read back under the same constraint.
pub proof fn lemma_integer_round_trip(s: Output, value: int, c: Constraints, rest: Seq<bool>)
    requires
        i128::MIN <= value <= i128::MAX,
        enc_integer(s, value, c) is Ok,
    ensures
        ({
            let after = enc_integer(s, value, c)->Ok_0;
            dec_integer(reader(s, after.bits + rest), c) == Ok::<(int, Cursor), ErrorKind>(
                (value, reader(after, after.bits + rest)),
            )
        }),
{
    if c.is_finite() {
        let lo = c.lower->Some_0 as int;
        let hi = c.upper->Some_0 as int;
        lemma_bit_width_bounds((hi - lo) as nat);
        lemma_read_field(s.bits, (value - lo) as nat, range_width(lo, hi), rest);
    } else {
        let bytes = twos_complement(value, octets_needed(value));
        lemma_octets_needed_i128(value);
        lemma_twos_complement_len(value, octets_needed(value));
        lemma_twos_complement_minimal(value);
        lemma_twos_complement_round_trip(value, octets_needed(value));
        lemma_octets_round_trip(s, bytes, Constraints::unconstrained(), rest);
    }
}

/// An integer under finite closed bounds is written in exactly the width of
/// the range, as its offset from the lower bound: the logarithm of the
/// number of values to the base two, rounded up, is the number of its bits.
pub proof fn lemma_integer_width(s: Output, value: int, c: Constraints)
    requires
        c.is_finite(),
        c.admits(value),
    ensures
        ({
            let lo = c.lower->Some_0 as int;
            let hi = c.upper->Some_0 as int;
            let written = enc_integer(s, value, c);
            let field = written->Ok_0.bits.skip(s.bits.len() as int);
            &&& written is Ok
            &&& written->Ok_0.bits.len() == s.bits.len() + range_width(lo, hi)
            &&& written->Ok_0.bits.take(s.bits.len() as int) == s.bits
            &&& bits_to_nat(field) == value - lo
            &&& hi - lo + 1 <= pow2(range_width(lo, hi))
            &&& range_width(lo, hi) > 0 ==> pow2((range_width(lo, hi) - 1) as nat) < hi - lo + 1
        }),
{
    let lo = c.lower->Some_0 as int;
    let hi = c.upper->Some_0 as int;
    let bits = constrained_bits(value, lo, hi);
    lemma_constrained_width(value, lo, hi);
    lemma_range_width(lo, hi);
    assert((s.bits + bits).skip(s.bits.len() as int) =~= bits);
    assert((s.bits + bits).take(s.bits.len() as int) =~= s.bits);
}

/// An object identifier that was written is read back.
pub proof fn lemma_oid_round_trip(s: Output, arcs: Seq<u32>, rest: Seq<bool>)
    requires
        crate::per::wire::enc_oid(s, arcs) is Ok,
        crate::oid::contents(arcs).len() <= usize::MAX,
    ensures
        ({
            let after = crate::per::wire::enc_oid(s, arcs)->Ok_0;
            crate::per::wire::dec_oid(reader(s, after.bits + rest)) == Ok::<
                (Seq<u32>, Cursor),
                ErrorKind,
            >((arcs, reader(after, after.bits + rest)))
        }),
{
    crate::oid::lemma_contents_round_trip(arcs);
    lemma_octets_round_trip(s, crate::oid::contents(arcs), Constraints::unconstrained(), rest);
}

/// The choice of an enumeration that was written is read back.
pub proof fn lemma_enumerated_round_trip(s: Output, value: int, variants: nat, rest: Seq<bool>)
    requires
        enc_enumerated(s, value, variants) is Ok,
    ensures
        ({
            let after = enc_enumerated(s, value, variants)->Ok_0;
            dec_enumerated(reader(s, after.bits + rest), variants) == Ok::<
                (int, Cursor),
                ErrorKind,
            >((value, reader(after, after.bits + rest)))
        }),
{
    lemma_bit_width_bounds((variants - 1) as nat);
    lemma_read_field(s.bits, value as nat, range_width(0, variants - 1), rest);
}

} // verus!
