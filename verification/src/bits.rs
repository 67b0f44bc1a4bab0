//! Bit sequences, most significant bit first, and the numbers they spell.

use vstd::prelude::*;

verus! {

/// Two to the power `n`.
pub open spec fn pow2(n: nat) -> nat
    decreases n,
{
    if n == 0 {
        1
    } else {
        2 * pow2((n - 1) as nat)
    }
}

/// The number that `bits` spells, the first bit counting most.
pub open spec fn bits_to_nat(bits: Seq<bool>) -> nat
    decreases bits.len(),
{
    if bits.len() == 0 {
        0
    } else {
        2 * bits_to_nat(bits.drop_last()) + if bits.last() {
            1nat
        } else {
            0nat
        }
    }
}

/// The lowest `width` binary digits of `n`, the highest of them first.
pub open spec fn nat_to_bits(n: nat, width: nat) -> Seq<bool>
    decreases width,
{
    if width == 0 {
        Seq::empty()
    } else {
        nat_to_bits(n / 2, (width - 1) as nat).push(n % 2 == 1)
    }
}

/// The number of binary digits of `n` without leading zeros; none for zero.
pub open spec fn bit_width(n: nat) -> nat
    decreases n,
{
    if n == 0 {
        0
    } else {
        1 + bit_width(n / 2)
    }
}

pub proof fn lemma_pow2_positive(n: nat)
    ensures
        pow2(n) > 0,
    decreases n,
{
    if n > 0 {
        lemma_pow2_positive((n - 1) as nat);
    }
}

pub proof fn lemma_pow2_adds(a: nat, b: nat)
    ensures
        pow2(a + b) == pow2(a) * pow2(b),
    decreases a,
{
    if a > 0 {
        let a1 = (a - 1) as nat;
        lemma_pow2_adds(a1, b);
        assert(a1 + b == (a + b - 1) as nat);
        assert(pow2(a + b) == 2 * pow2(a1 + b));
        assert(pow2(a) == 2 * pow2(a1));
        assert(2 * (pow2(a1) * pow2(b)) == (2 * pow2(a1)) * pow2(b)) by (nonlinear_arith);
    } else {
        assert(pow2(0) == 1);
        assert(a + b == b);
        assert(1 * pow2(b) == pow2(b));
    }
}

pub proof fn lemma_pow2_monotonic(a: nat, b: nat)
    requires
        a <= b,
    ensures
        pow2(a) <= pow2(b),
    decreases b,
{
    if a < b {
        lemma_pow2_monotonic(a, (b - 1) as nat);
    }
}

/// `nat_to_bits` gives exactly `width` bits.
pub proof fn lemma_nat_to_bits_len(n: nat, width: nat)
    ensures
        nat_to_bits(n, width).len() == width,
    decreases width,
{
    if width > 0 {
        lemma_nat_to_bits_len(n / 2, (width - 1) as nat);
    }
}

/// A sequence of bits spells a number below two to its length.
pub proof fn lemma_bits_to_nat_bound(bits: Seq<bool>)
    ensures
        bits_to_nat(bits) < pow2(bits.len()),
    decreases bits.len(),
{
    if bits.len() > 0 {
        lemma_bits_to_nat_bound(bits.drop_last());
    }
}

/// The bits of a number that fits the width spell that number again.
pub proof fn lemma_nat_round_trip(n: nat, width: nat)
    requires
        n < pow2(width),
    ensures
        bits_to_nat(nat_to_bits(n, width)) == n,
    decreases width,
{
    if width > 0 {
        let rest = nat_to_bits(n / 2, (width - 1) as nat);
        lemma_nat_round_trip(n / 2, (width - 1) as nat);
        assert(nat_to_bits(n, width).drop_last() =~= rest);
    }
}

/// The number that a sequence of bits spells has that sequence as its bits.
pub proof fn lemma_bits_round_trip(bits: Seq<bool>)
    ensures
        nat_to_bits(bits_to_nat(bits), bits.len()) == bits,
    decreases bits.len(),
{
    if bits.len() > 0 {
        lemma_bits_round_trip(bits.drop_last());
        let n = bits_to_nat(bits);
        assert(n / 2 == bits_to_nat(bits.drop_last()));
        assert(nat_to_bits(n, bits.len()) =~= bits);
    } else {
        assert(nat_to_bits(0, 0) =~= bits);
    }
}

/// `bit_width(n)` is the least width whose power of two exceeds `n`.
pub proof fn lemma_bit_width_bounds(n: nat)
    ensures
        n < pow2(bit_width(n)),
        n > 0 ==> pow2((bit_width(n) - 1) as nat) <= n,
    decreases n,
{
    if n > 0 {
        lemma_bit_width_bounds(n / 2);
    }
}

/// A number below two to the power `width` has at most `width` digits.
pub proof fn lemma_bit_width_le(n: nat, width: nat)
    requires
        n < pow2(width),
    ensures
        bit_width(n) <= width,
    decreases n,
{
    if n > 0 {
        lemma_bit_width_le(n / 2, (width - 1) as nat);
    }
}

/// The powers of two at the widths of the machine's integers.
pub proof fn lemma_pow2_values()
    ensures
        pow2(0) == 1,
        pow2(1) == 2,
        pow2(6) == 64,
        pow2(7) == 128,
        pow2(8) == 256,
        pow2(14) == 16384,
        pow2(16) == 65536,
        pow2(32) == 0x1_0000_0000,
        pow2(64) == 0x1_0000_0000_0000_0000,
        pow2(127) == 0x8000_0000_0000_0000_0000_0000_0000_0000,
        pow2(128) == 0x1_0000_0000_0000_0000_0000_0000_0000_0000,
{
    reveal_with_fuel(pow2, 9);
    assert(pow2(8) == 256);
    assert(pow2(7) == 128);
    assert(pow2(6) == 64);
    lemma_pow2_adds(8, 6);
    assert(pow2(14) == 16384);
    lemma_pow2_adds(8, 8);
    assert(pow2(16) == 65536);
    lemma_pow2_adds(16, 16);
    assert(pow2(32) == 0x1_0000_0000);
    lemma_pow2_adds(32, 32);
    assert(pow2(64) == 0x1_0000_0000_0000_0000);
    lemma_pow2_adds(64, 64);
    assert(pow2(128) == 0x1_0000_0000_0000_0000_0000_0000_0000_0000);
    assert(pow2(128) == 2 * pow2(127));
}

/// The eight bits of a byte, the highest first.
pub open spec fn byte_bits(b: u8) -> Seq<bool> {
    nat_to_bits(b as nat, 8)
}

/// The bits of a sequence of bytes: eight for each byte, in order.
pub open spec fn bytes_to_bits(bytes: Seq<u8>) -> Seq<bool>
    decreases bytes.len(),
{
    if bytes.len() == 0 {
        Seq::empty()
    } else {
        bytes_to_bits(bytes.drop_last()) + byte_bits(bytes.last())
    }
}

/// The bits `8 * k .. 8 * k + 8` of `bits`, with zero bits past the end.
pub open spec fn chunk(bits: Seq<bool>, k: int) -> Seq<bool> {
    Seq::new(8, |j: int| 8 * k + j < bits.len() && bits[8 * k + j])
}

/// The bytes that hold `bits`, the last byte filled up with zero bits.
pub open spec fn bits_to_bytes(bits: Seq<bool>) -> Seq<u8> {
    Seq::new(((bits.len() + 7) / 8) as nat, |k: int| bits_to_nat(chunk(bits, k)) as u8)
}

pub proof fn lemma_bytes_to_bits_len(bytes: Seq<u8>)
    ensures
        bytes_to_bits(bytes).len() == 8 * bytes.len(),
    decreases bytes.len(),
{
    if bytes.len() > 0 {
        lemma_bytes_to_bits_len(bytes.drop_last());
        lemma_nat_to_bits_len(bytes.last() as nat, 8);
    }
}

/// The bits of the byte `k` stand at `8 * k .. 8 * k + 8`.
pub proof fn lemma_bytes_to_bits_index(bytes: Seq<u8>, k: int, j: int)
    requires
        0 <= k < bytes.len(),
        0 <= j < 8,
    ensures
        bytes_to_bits(bytes).len() == 8 * bytes.len(),
        byte_bits(bytes[k]).len() == 8,
        bytes_to_bits(bytes)[8 * k + j] == byte_bits(bytes[k])[j],
    decreases bytes.len(),
{
    lemma_bytes_to_bits_len(bytes);
    lemma_bytes_to_bits_len(bytes.drop_last());
    lemma_nat_to_bits_len(bytes[k] as nat, 8);
    lemma_nat_to_bits_len(bytes.last() as nat, 8);
    if k < bytes.len() - 1 {
        lemma_bytes_to_bits_index(bytes.drop_last(), k, j);
    }
}

/// The bits of bytes that follow one another follow one another.
pub proof fn lemma_bytes_to_bits_concat(a: Seq<u8>, b: Seq<u8>)
    ensures
        bytes_to_bits(a + b) == bytes_to_bits(a) + bytes_to_bits(b),
    decreases b.len(),
{
    if b.len() == 0 {
        assert(a + b =~= a);
        assert(bytes_to_bits(a) + bytes_to_bits(b) =~= bytes_to_bits(a));
    } else {
        lemma_bytes_to_bits_concat(a, b.drop_last());
        assert((a + b).drop_last() =~= a + b.drop_last());
        assert((a + b).last() == b.last());
        assert(bytes_to_bits(a + b) =~= bytes_to_bits(a) + bytes_to_bits(b));
    }
}

/// The bits of a run of bytes are the run of eight times the width in the
/// bits of all the bytes.
pub proof fn lemma_bytes_to_bits_subrange(bytes: Seq<u8>, from: int, to: int)
    requires
        0 <= from <= to <= bytes.len(),
    ensures
        bytes_to_bits(bytes).len() == 8 * bytes.len(),
        bytes_to_bits(bytes.subrange(from, to)) == bytes_to_bits(bytes).subrange(8 * from, 8 * to),
{
    let a = bytes.take(from);
    let b = bytes.subrange(from, to);
    let c = bytes.skip(to);
    assert(bytes =~= a + b + c);
    lemma_bytes_to_bits_concat(a + b, c);
    lemma_bytes_to_bits_concat(a, b);
    lemma_bytes_to_bits_len(a);
    lemma_bytes_to_bits_len(b);
    lemma_bytes_to_bits_len(c);
    lemma_bytes_to_bits_len(bytes);
    assert(bytes_to_bits(bytes) =~= bytes_to_bits(a) + bytes_to_bits(b) + bytes_to_bits(c));
    assert(bytes_to_bits(b) =~= bytes_to_bits(bytes).subrange(8 * from, 8 * to));
}

/// Packing the bits of whole bytes gives the bytes back.
pub proof fn lemma_pack_bytes(bytes: Seq<u8>)
    ensures
        bits_to_bytes(bytes_to_bits(bytes)) == bytes,
{
    let bits = bytes_to_bits(bytes);
    lemma_bytes_to_bits_len(bytes);
    lemma_pow2_values();
    assert forall|k: int| 0 <= k < bytes.len() implies bits_to_nat(chunk(bits, k)) as u8
        == bytes[k] by {
        assert forall|j: int| 0 <= j < 8 implies chunk(bits, k)[j] == byte_bits(bytes[k])[j] by {
            lemma_bytes_to_bits_index(bytes, k, j);
        }
        lemma_nat_to_bits_len(bytes[k] as nat, 8);
        assert(chunk(bits, k) =~= byte_bits(bytes[k]));
        lemma_nat_round_trip(bytes[k] as nat, 8);
    }
    assert(bits_to_bytes(bits) =~= bytes);
}

/// The bits of the packed bytes begin with the bits that were packed, and
/// only zero bits follow.
pub proof fn lemma_unpack_bits(bits: Seq<bool>)
    ensures
        bytes_to_bits(bits_to_bytes(bits)).len() == 8 * ((bits.len() + 7) / 8),
        forall|i: int|
            0 <= i < bytes_to_bits(bits_to_bytes(bits)).len() ==> (
            #[trigger] bytes_to_bits(bits_to_bytes(bits))[i]) == (i < bits.len() && bits[i]),
{
    let bytes = bits_to_bytes(bits);
    lemma_bytes_to_bits_len(bytes);
    lemma_pow2_values();
    assert forall|i: int| 0 <= i < bytes_to_bits(bytes).len() implies (
    #[trigger] bytes_to_bits(bytes)[i]) == (i < bits.len() && bits[i]) by {
        let k = i / 8;
        let j = i % 8;
        lemma_bytes_to_bits_index(bytes, k, j);
        let c = chunk(bits, k);
        lemma_bits_to_nat_bound(c);
        lemma_bits_round_trip(c);
        assert(bytes[k] == bits_to_nat(c) as u8);
        assert(byte_bits(bytes[k]) == c);
    }
}

/// The bits of the packed bytes are the bits that were packed, followed by
/// the zero bits that fill the last byte.
pub proof fn lemma_unpack_padded(bits: Seq<bool>)
    ensures
        bytes_to_bits(bits_to_bytes(bits)) == bits + Seq::new(
            (8 * ((bits.len() + 7) / 8) - bits.len()) as nat,
            |i: int| false,
        ),
{
    lemma_unpack_bits(bits);
    assert(bytes_to_bits(bits_to_bytes(bits)) =~= bits + Seq::new(
        (8 * ((bits.len() + 7) / 8) - bits.len()) as nat,
        |i: int| false,
    ));
}

/// Appends the lowest `width` binary digits of `n` to `bits`, the highest first.
pub fn push_number(bits: &mut Vec<bool>, n: u128, width: usize)
    ensures
        final(bits)@ == old(bits)@ + nat_to_bits(n as nat, width as nat),
    decreases width,
{
    if width > 0 {
        push_number(bits, n / 2, width - 1);
        bits.push(n % 2 == 1);
        assert(bits@ =~= old(bits)@ + nat_to_bits(n as nat, width as nat));
    } else {
        assert(bits@ =~= old(bits)@ + nat_to_bits(n as nat, width as nat));
    }
}

/// The number that the bits `start .. start + width` of `bits` spell.
pub fn read_number(bits: &Vec<bool>, start: usize, width: usize) -> (n: u128)
    requires
        width <= 128,
        start + width <= bits@.len(),
    ensures
        n == bits_to_nat(bits@.subrange(start as int, start + width)),
{
    let mut n: u128 = 0;
    let mut i: usize = 0;
    let len = bits.len();
    let ghost field = bits@.subrange(start as int, start + width);
    assert(field.take(0) =~= Seq::<bool>::empty());
    while i < width
        invariant
            i <= width <= 128,
            len == bits@.len(),
            start + width <= bits@.len(),
            field == bits@.subrange(start as int, start + width),
            n == bits_to_nat(field.take(i as int)),
        decreases width - i,
    {
        proof {
            let next = field.take(i + 1);
            assert(next.drop_last() =~= field.take(i as int));
            assert(next.last() == bits@[start + i]);
            lemma_bits_to_nat_bound(next);
            lemma_pow2_monotonic((i + 1) as nat, 128);
            lemma_pow2_values();
        }
        let bit: u128 = if bits[start + i] {
            1
        } else {
            0
        };
        n = 2 * n + bit;
        i = i + 1;
    }
    assert(field.take(width as int) =~= field);
    n
}

/// A growable sequence of bits.
#[derive(Debug)]
pub struct BitString {
    bits: Vec<bool>,
}

impl View for BitString {
    type V = Seq<bool>;

    closed spec fn view(&self) -> Seq<bool> {
        self.bits@
    }
}

impl DeepView for BitString {
    type V = Seq<bool>;

    open spec fn deep_view(&self) -> Seq<bool> {
        self@
    }
}

impl Clone for BitString {
    fn clone(&self) -> (r: Self)
        ensures
            r@ == self@,
    {
        let mut bits: Vec<bool> = Vec::new();
        let mut i: usize = 0;
        while i < self.bits.len()
            invariant
                i <= self.bits.len(),
                bits@ == self.bits@.take(i as int),
            decreases self.bits.len() - i,
        {
            bits.push(self.bits[i]);
            i = i + 1;
            assert(bits@ =~= self.bits@.take(i as int));
        }
        assert(bits@ =~= self.bits@);
        BitString { bits }
    }
}

impl BitString {
    /// The empty sequence.
    pub fn new() -> (r: Self)
        ensures
            r@ == Seq::<bool>::empty(),
    {
        BitString { bits: Vec::new() }
    }

    /// The sequence that holds the elements of `bits`.
    pub fn from_bits(bits: Vec<bool>) -> (r: Self)
        ensures
            r@ == bits@,
    {
        BitString { bits }
    }

    /// The bits of `bytes`, eight for each byte, the highest first.
    pub fn from_bytes(bytes: &[u8]) -> (r: Self)
        ensures
            r@ == bytes_to_bits(bytes@),
    {
        let mut r = BitString::new();
        r.extend_from_bytes(bytes);
        assert(Seq::<bool>::empty() + bytes_to_bits(bytes@) =~= bytes_to_bits(bytes@));
        r
    }

    /// The number of bits.
    pub fn len(&self) -> (n: usize)
        ensures
            n == self@.len(),
    {
        self.bits.len()
    }

    /// The bit at `i`, or `None` past the end.
    pub fn get(&self, i: usize) -> (b: Option<bool>)
        ensures
            i < self@.len() ==> b == Some(self@[i as int]),
            i >= self@.len() ==> b is None,
    {
        if i < self.bits.len() {
            Some(self.bits[i])
        } else {
            None
        }
    }

    /// The bit at `i`.
    pub fn bit(&self, i: usize) -> (b: bool)
        requires
            i < self@.len(),
        ensures
            b == self@[i as int],
    {
        self.bits[i]
    }

    /// The number that the bits `start .. start + width` spell.
    pub fn number(&self, start: usize, width: usize) -> (n: u128)
        requires
            width <= 128,
            start + width <= self@.len(),
        ensures
            n == bits_to_nat(self@.subrange(start as int, start + width)),
            n < pow2(width as nat),
    {
        proof {
            lemma_bits_to_nat_bound(self@.subrange(start as int, start + width));
        }
        read_number(&self.bits, start, width)
    }

    /// The bits `from .. to`.
    pub fn slice(&self, from: usize, to: usize) -> (r: BitString)
        requires
            from <= to <= self@.len(),
        ensures
            r@ == self@.subrange(from as int, to as int),
    {
        let mut r = BitString::new();
        r.extend_from_range(self, from, to);
        assert(r@ =~= self@.subrange(from as int, to as int));
        r
    }

    /// Whether the bits `from .. to` are all zero.
    pub fn all_zero(&self, from: usize, to: usize) -> (b: bool)
        requires
            from <= to <= self@.len(),
        ensures
            b == (self@.subrange(from as int, to as int) == Seq::new(
                (to - from) as nat,
                |i: int| false,
            )),
    {
        let mut i: usize = from;
        let ghost field = self@.subrange(from as int, to as int);
        let ghost blank = Seq::new((to - from) as nat, |i: int| false);
        while i < to
            invariant
                from <= i <= to <= self.bits@.len(),
                field == self@.subrange(from as int, to as int),
                blank == Seq::new((to - from) as nat, |i: int| false),
                forall|j: int| 0 <= j < i - from ==> !field[j],
            decreases to - i,
        {
            if self.bits[i] {
                assert(field[i - from] != blank[i - from]);
                return false;
            }
            i = i + 1;
        }
        assert(field =~= blank);
        true
    }

    /// Appends one bit.
    pub fn push(&mut self, bit: bool)
        ensures
            final(self)@ == old(self)@.push(bit),
    {
        self.bits.push(bit);
    }

    /// Appends the bits of `other`.
    pub fn extend_from_bitslice(&mut self, other: &BitString)
        ensures
            final(self)@ == old(self)@ + other@,
    {
        let mut i: usize = 0;
        while i < other.bits.len()
            invariant
                i <= other.bits.len(),
                self.bits@ == old(self).bits@ + other.bits@.take(i as int),
            decreases other.bits.len() - i,
        {
            self.bits.push(other.bits[i]);
            i = i + 1;
            assert(self.bits@ =~= old(self).bits@ + other.bits@.take(i as int));
        }
        assert(other.bits@.take(i as int) =~= other.bits@);
    }

    /// Appends the bits `from .. to` of `other`.
    pub fn extend_from_range(&mut self, other: &BitString, from: usize, to: usize)
        requires
            from <= to <= other@.len(),
        ensures
            final(self)@ == old(self)@ + other@.subrange(from as int, to as int),
    {
        let mut i: usize = from;
        assert(self.bits@ =~= old(self).bits@ + other.bits@.subrange(from as int, from as int));
        while i < to
            invariant
                from <= i <= to <= other.bits@.len(),
                self.bits@ == old(self).bits@ + other.bits@.subrange(from as int, i as int),
            decreases to - i,
        {
            self.bits.push(other.bits[i]);
            i = i + 1;
            assert(self.bits@ =~= old(self).bits@ + other.bits@.subrange(from as int, i as int));
        }
    }

    /// Appends the bits of the bytes `from .. to` of `bytes`.
    pub fn extend_from_byte_range(&mut self, bytes: &[u8], from: usize, to: usize)
        requires
            from <= to <= bytes@.len(),
        ensures
            final(self)@ == old(self)@ + bytes_to_bits(bytes@.subrange(from as int, to as int)),
    {
        let mut i: usize = from;
        assert(bytes@.subrange(from as int, from as int) =~= Seq::<u8>::empty());
        assert(self.bits@ =~= old(self).bits@ + bytes_to_bits(
            bytes@.subrange(from as int, from as int),
        ));
        while i < to
            invariant
                from <= i <= to <= bytes@.len(),
                self.bits@ == old(self).bits@ + bytes_to_bits(
                    bytes@.subrange(from as int, i as int),
                ),
            decreases to - i,
        {
            push_number(&mut self.bits, bytes[i] as u128, 8);
            proof {
                let next = bytes@.subrange(from as int, i + 1);
                assert(next.drop_last() =~= bytes@.subrange(from as int, i as int));
                assert(next.last() == bytes@[i as int]);
                assert(self.bits@ =~= old(self).bits@ + bytes_to_bits(next));
            }
            i = i + 1;
        }
    }

    /// Appends the bits of `bytes`, eight for each byte, the highest first.
    pub fn extend_from_bytes(&mut self, bytes: &[u8])
        ensures
            final(self)@ == old(self)@ + bytes_to_bits(bytes@),
    {
        let mut i: usize = 0;
        assert(bytes@.take(0) =~= Seq::<u8>::empty());
        assert(self.bits@ =~= old(self).bits@ + bytes_to_bits(bytes@.take(0)));
        while i < bytes.len()
            invariant
                i <= bytes.len(),
                self.bits@ == old(self).bits@ + bytes_to_bits(bytes@.take(i as int)),
            decreases bytes.len() - i,
        {
            push_number(&mut self.bits, bytes[i] as u128, 8);
            proof {
                let next = bytes@.take(i + 1);
                assert(next.drop_last() =~= bytes@.take(i as int));
                assert(next.last() == bytes@[i as int]);
                assert(self.bits@ =~= old(self).bits@ + bytes_to_bits(next));
            }
            i = i + 1;
        }
        assert(bytes@.take(i as int) =~= bytes@);
    }

    /// The bytes that hold the bits, the last byte filled up with zero bits.
    pub fn to_bytes(&self) -> (bytes: Vec<u8>)
        ensures
            bytes@ == bits_to_bytes(self@),
    {
        let n = self.bits.len();
        let count: usize = n / 8 + if n % 8 == 0 {
            0
        } else {
            1
        };
        let mut bytes: Vec<u8> = Vec::new();
        let mut k: usize = 0;
        while k < count
            invariant
                n == self.bits@.len(),
                count == (n + 7) / 8,
                k <= count,
                bytes@.len() == k,
                forall|i: int| 0 <= i < k ==> bytes@[i] == bits_to_nat(chunk(self@, i)) as u8,
            decreases count - k,
        {
            let ghost c = chunk(self@, k as int);
            let mut byte: u8 = 0;
            let mut j: usize = 0;
            assert(c.take(0) =~= Seq::<bool>::empty());
            while j < 8
                invariant
                    n == self.bits@.len(),
                    8 * k < n,
                    j <= 8,
                    c == chunk(self@, k as int),
                    byte == bits_to_nat(c.take(j as int)),
                decreases 8 - j,
            {
                proof {
                    let next = c.take(j + 1);
                    assert(next.drop_last() =~= c.take(j as int));
                    lemma_bits_to_nat_bound(next);
                    lemma_pow2_monotonic((j + 1) as nat, 8);
                    lemma_pow2_values();
                }
                let at: usize = 8 * k + j;
                let bit: u8 = if at < n && self.bits[at] {
                    1
                } else {
                    0
                };
                byte = 2 * byte + bit;
                j = j + 1;
            }
            assert(c.take(8) =~= c);
            bytes.push(byte);
            k = k + 1;
        }
        assert(bytes@ =~= bits_to_bytes(self@));
        bytes
    }
}

} // verus!
