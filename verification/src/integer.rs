//! Integers as they flow through the codec, and their two's-complement
//! octets.

use crate::bits::{lemma_pow2_adds, lemma_pow2_monotonic, lemma_pow2_values, pow2};
use crate::error::ErrorKind;
use vstd::prelude::*;

verus! {

/// The least number of octets, at least one, whose two's complement holds
/// `v`.
pub open spec fn octets_needed(v: int) -> nat
    decreases
            (if v >= 0 {
                v
            } else {
                -v
            }),
{
    if -128 <= v < 128 {
        1
    } else {
        1 + octets_needed(v / 256)
    }
}

/// The two's complement of `v` in `n` octets, the highest octet first.
pub open spec fn twos_complement(v: int, n: nat) -> Seq<u8>
    decreases n,
{
    if n == 0 {
        Seq::empty()
    } else {
        twos_complement(v / 256, (n - 1) as nat).push((v % 256) as u8)
    }
}

/// The integer whose two's complement `bytes` is, the highest octet first.
pub open spec fn from_twos_complement(bytes: Seq<u8>) -> int
    decreases bytes.len(),
{
    if bytes.len() == 0 {
        0
    } else if bytes.len() == 1 {
        if bytes[0] >= 128 {
            bytes[0] - 256
        } else {
            bytes[0] as int
        }
    } else {
        256 * from_twos_complement(bytes.drop_last()) + bytes.last()
    }
}

/// No octet can be left out: there is one at least, and the first is not
/// only a copy of the sign that the second already shows.
pub open spec fn is_minimal(bytes: Seq<u8>) -> bool {
    bytes.len() >= 1 && (bytes.len() >= 2 ==> !(bytes[0] == 0 && bytes[1] < 128) && !(bytes[0]
        == 255 && bytes[1] >= 128))
}

/// One octet is needed at least, and one is enough for `-128 .. 128` only.
pub proof fn lemma_octets_needed_one(v: int)
    ensures
        octets_needed(v) >= 1,
        octets_needed(v) == 1 <==> -128 <= v < 128,
        !(-128 <= v < 128) ==> octets_needed(v) >= 2,
{
    if !(-128 <= v < 128) {
        assert(octets_needed(v) == 1 + octets_needed(v / 256));
        if -128 <= v / 256 < 128 {
        } else {
            assert(octets_needed(v / 256) == 1 + octets_needed(v / 256 / 256));
        }
    }
}

pub proof fn lemma_twos_complement_len(v: int, n: nat)
    ensures
        twos_complement(v, n).len() == n,
    decreases n,
{
    if n > 0 {
        lemma_twos_complement_len(v / 256, (n - 1) as nat);
    }
}

/// The octets of an integer, in a width that holds it, spell it again.
pub proof fn lemma_twos_complement_round_trip(v: int, n: nat)
    requires
        n >= octets_needed(v),
    ensures
        from_twos_complement(twos_complement(v, n)) == v,
    decreases n,
{
    let bytes = twos_complement(v, n);
    lemma_twos_complement_len(v, n);
    lemma_octets_needed_one(v);
    lemma_octets_needed_one(v / 256);
    if n == 1 {
        assert(twos_complement(v / 256, 0) =~= Seq::<u8>::empty());
        assert(bytes[0] == (v % 256) as u8);
    } else {
        let rest = twos_complement(v / 256, (n - 1) as nat);
        lemma_twos_complement_len(v / 256, (n - 1) as nat);
        assert(bytes.drop_last() =~= rest);
        if -128 <= v < 128 {
            assert(-128 <= v / 256 < 128);
        }
        lemma_twos_complement_round_trip(v / 256, (n - 1) as nat);
    }
}

/// The first octets of a wider two's complement are those of the quotient.
proof fn lemma_twos_complement_front(v: int, n: nat, i: int)
    requires
        0 <= i < n - 1,
    ensures
        twos_complement(v, n)[i] == twos_complement(v / 256, (n - 1) as nat)[i],
{
    lemma_twos_complement_len(v / 256, (n - 1) as nat);
}

/// The octets of an integer in the width it needs are minimal.
pub proof fn lemma_twos_complement_minimal(v: int)
    ensures
        is_minimal(twos_complement(v, octets_needed(v))),
    decreases octets_needed(v),
{
    let n = octets_needed(v);
    let bytes = twos_complement(v, n);
    lemma_twos_complement_len(v, n);
    lemma_octets_needed_one(v);
    lemma_octets_needed_one(v / 256);
    if n >= 2 {
        let q = v / 256;
        let rest = twos_complement(q, (n - 1) as nat);
        lemma_twos_complement_len(q, (n - 1) as nat);
        if n == 2 {
            assert(twos_complement(q / 256, 0) =~= Seq::<u8>::empty());
            assert(rest[0] == (q % 256) as u8);
            assert(bytes[0] == rest[0]);
            assert(bytes[1] == (v % 256) as u8);
            assert(-128 <= q < 128);
        } else {
            lemma_twos_complement_minimal(q);
            lemma_twos_complement_front(v, n, 0);
            lemma_twos_complement_front(v, n, 1);
        }
    }
}

/// The integer that `n` octets spell lies in the range of `n` octets.
pub proof fn lemma_from_twos_complement_bounds(bytes: Seq<u8>)
    requires
        bytes.len() >= 1,
    ensures
        -pow2((8 * bytes.len() - 1) as nat) <= from_twos_complement(bytes) < pow2(
            (8 * bytes.len() - 1) as nat,
        ),
    decreases bytes.len(),
{
    lemma_pow2_values();
    if bytes.len() > 1 {
        lemma_from_twos_complement_bounds(bytes.drop_last());
        let k = (8 * (bytes.len() - 1) - 1) as nat;
        lemma_pow2_adds(k, 8);
        assert(k + 8 == 8 * bytes.len() - 1);
        let x = from_twos_complement(bytes.drop_last());
        let p = pow2(k);
        assert(pow2(k + 8) == p * 256);
        assert(-p <= x < p);
    }
}

/// The octets of an `i128` number are at most sixteen.
pub proof fn lemma_octets_needed_i128(v: int)
    requires
        i128::MIN <= v <= i128::MAX,
    ensures
        1 <= octets_needed(v) <= 16,
{
    reveal_with_fuel(octets_needed, 17);
}

/// An integer of the width that the codec computes in.
#[derive(Clone, Copy, Debug, PartialEq, Eq, PartialOrd, Ord, Hash, Structural)]
pub struct Integer {
    pub value: i128,
}

impl View for Integer {
    type V = int;

    open spec fn view(&self) -> int {
        self.value as int
    }
}

impl DeepView for Integer {
    type V = int;

    open spec fn deep_view(&self) -> int {
        self.value as int
    }
}

/// The quotient of `v` by 256, rounded down.
fn floor_256(v: i128) -> (q: i128)
    ensures
        q == v / 256,
{
    if v >= 0 {
        v / 256
    } else {
        -((-(v + 1)) / 256) - 1
    }
}

/// The remainder of `v` by 256, never negative.
fn low_octet(v: i128) -> (r: u8)
    ensures
        r == v % 256,
{
    let q = floor_256(v);
    (v - 256 * q) as u8
}

/// Appends the two's complement of `v` in `n` octets to `bytes`.
fn push_octets(bytes: &mut Vec<u8>, v: i128, n: usize)
    ensures
        final(bytes)@ == old(bytes)@ + twos_complement(v as int, n as nat),
    decreases n,
{
    if n > 0 {
        push_octets(bytes, floor_256(v), n - 1);
        bytes.push(low_octet(v));
    }
    assert(bytes@ =~= old(bytes)@ + twos_complement(v as int, n as nat));
}

impl Integer {
    /// The integer `value`.
    pub fn new(value: i128) -> (r: Integer)
        ensures
            r@ == value,
    {
        Integer { value }
    }

    /// The integer as an `i8`, or `None` where it does not fit.
    pub fn to_i8(&self) -> (r: Option<i8>)
        ensures
            i8::MIN <= self@ <= i8::MAX ==> r is Some && r->Some_0 == self@,
            !(i8::MIN <= self@ <= i8::MAX) ==> r is None,
    {
        if i8::MIN as i128 <= self.value && self.value <= i8::MAX as i128 {
            Some(self.value as i8)
        } else {
            None
        }
    }

    /// The integer `value`.
    pub fn from_i8(value: i8) -> (r: Option<Integer>)
        ensures
            r is Some && r->Some_0@ == value,
    {
        Some(Integer { value: value as i128 })
    }

    /// The integer as an `i16`, or `None` where it does not fit.
    pub fn to_i16(&self) -> (r: Option<i16>)
        ensures
            i16::MIN <= self@ <= i16::MAX ==> r is Some && r->Some_0 == self@,
            !(i16::MIN <= self@ <= i16::MAX) ==> r is None,
    {
        if i16::MIN as i128 <= self.value && self.value <= i16::MAX as i128 {
            Some(self.value as i16)
        } else {
            None
        }
    }

    /// The integer `value`.
    pub fn from_i16(value: i16) -> (r: Option<Integer>)
        ensures
            r is Some && r->Some_0@ == value,
    {
        Some(Integer { value: value as i128 })
    }

    /// The integer as an `i32`, or `None` where it does not fit.
    pub fn to_i32(&self) -> (r: Option<i32>)
        ensures
            i32::MIN <= self@ <= i32::MAX ==> r is Some && r->Some_0 == self@,
            !(i32::MIN <= self@ <= i32::MAX) ==> r is None,
    {
        if i32::MIN as i128 <= self.value && self.value <= i32::MAX as i128 {
            Some(self.value as i32)
        } else {
            None
        }
    }

    /// The integer `value`.
    pub fn from_i32(value: i32) -> (r: Option<Integer>)
        ensures
            r is Some && r->Some_0@ == value,
    {
        Some(Integer { value: value as i128 })
    }

    /// The integer as an `i64`, or `None` where it does not fit.
    pub fn to_i64(&self) -> (r: Option<i64>)
        ensures
            i64::MIN <= self@ <= i64::MAX ==> r is Some && r->Some_0 == self@,
            !(i64::MIN <= self@ <= i64::MAX) ==> r is None,
    {
        if i64::MIN as i128 <= self.value && self.value <= i64::MAX as i128 {
            Some(self.value as i64)
        } else {
            None
        }
    }

    /// The integer `value`.
    pub fn from_i64(value: i64) -> (r: Option<Integer>)
        ensures
            r is Some && r->Some_0@ == value,
    {
        Some(Integer { value: value as i128 })
    }

    /// The integer as an `i128`: every integer is one.
    pub fn to_i128(&self) -> (r: Option<i128>)
        ensures
            r == Some(self.value),
    {
        Some(self.value)
    }

    /// The integer `value`.
    pub fn from_i128(value: i128) -> (r: Option<Integer>)
        ensures
            r is Some && r->Some_0@ == value,
    {
        Some(Integer { value })
    }

    /// The integer as an `isize`, or `None` where it does not fit.
    pub fn to_isize(&self) -> (r: Option<isize>)
        ensures
            isize::MIN <= self@ <= isize::MAX ==> r is Some && r->Some_0 == self@,
            !(isize::MIN <= self@ <= isize::MAX) ==> r is None,
    {
        if isize::MIN as i128 <= self.value && self.value <= isize::MAX as i128 {
            Some(self.value as isize)
        } else {
            None
        }
    }

    /// The integer `value`.
    pub fn from_isize(value: isize) -> (r: Option<Integer>)
        ensures
            r is Some && r->Some_0@ == value,
    {
        Some(Integer { value: value as i128 })
    }

    /// The integer as a `u8`, or `None` where it does not fit.
    pub fn to_u8(&self) -> (r: Option<u8>)
        ensures
            u8::MIN <= self@ <= u8::MAX ==> r is Some && r->Some_0 == self@,
            !(u8::MIN <= self@ <= u8::MAX) ==> r is None,
    {
        if u8::MIN as i128 <= self.value && self.value <= u8::MAX as i128 {
            Some(self.value as u8)
        } else {
            None
        }
    }

    /// The integer `value`.
    pub fn from_u8(value: u8) -> (r: Option<Integer>)
        ensures
            r is Some && r->Some_0@ == value,
    {
        Some(Integer { value: value as i128 })
    }

    /// The integer as a `u16`, or `None` where it does not fit.
    pub fn to_u16(&self) -> (r: Option<u16>)
        ensures
            u16::MIN <= self@ <= u16::MAX ==> r is Some && r->Some_0 == self@,
            !(u16::MIN <= self@ <= u16::MAX) ==> r is None,
    {
        if u16::MIN as i128 <= self.value && self.value <= u16::MAX as i128 {
            Some(self.value as u16)
        } else {
            None
        }
    }

    /// The integer `value`.
    pub fn from_u16(value: u16) -> (r: Option<Integer>)
        ensures
            r is Some && r->Some_0@ == value,
    {
        Some(Integer { value: value as i128 })
    }

    /// The integer as a `u32`, or `None` where it does not fit.
    pub fn to_u32(&self) -> (r: Option<u32>)
        ensures
            u32::MIN <= self@ <= u32::MAX ==> r is Some && r->Some_0 == self@,
            !(u32::MIN <= self@ <= u32::MAX) ==> r is None,
    {
        if u32::MIN as i128 <= self.value && self.value <= u32::MAX as i128 {
            Some(self.value as u32)
        } else {
            None
        }
    }

    /// The integer `value`.
    pub fn from_u32(value: u32) -> (r: Option<Integer>)
        ensures
            r is Some && r->Some_0@ == value,
    {
        Some(Integer { value: value as i128 })
    }

    /// The integer as a `u64`, or `None` where it does not fit.
    pub fn to_u64(&self) -> (r: Option<u64>)
        ensures
            u64::MIN <= self@ <= u64::MAX ==> r is Some && r->Some_0 == self@,
            !(u64::MIN <= self@ <= u64::MAX) ==> r is None,
    {
        if u64::MIN as i128 <= self.value && self.value <= u64::MAX as i128 {
            Some(self.value as u64)
        } else {
            None
        }
    }

    /// The integer `value`.
    pub fn from_u64(value: u64) -> (r: Option<Integer>)
        ensures
            r is Some && r->Some_0@ == value,
    {
        Some(Integer { value: value as i128 })
    }

    /// The integer as a `u128`, or `None` where it is negative.
    pub fn to_u128(&self) -> (r: Option<u128>)
        ensures
            self@ >= 0 ==> r is Some && r->Some_0 == self@,
            self@ < 0 ==> r is None,
    {
        if self.value >= 0 {
            Some(self.value as u128)
        } else {
            None
        }
    }

    /// The integer `value`, or `None` where it is above the widest integer
    /// that the codec computes in.
    pub fn from_u128(value: u128) -> (r: Option<Integer>)
        ensures
            value <= i128::MAX ==> r is Some && r->Some_0@ == value,
            value > i128::MAX ==> r is None,
    {
        if value <= i128::MAX as u128 {
            Some(Integer { value: value as i128 })
        } else {
            None
        }
    }

    /// The integer as a `usize`, or `None` where it does not fit.
    pub fn to_usize(&self) -> (r: Option<usize>)
        ensures
            usize::MIN <= self@ <= usize::MAX ==> r is Some && r->Some_0 == self@,
            !(usize::MIN <= self@ <= usize::MAX) ==> r is None,
    {
        if usize::MIN as i128 <= self.value && self.value <= usize::MAX as i128 {
            Some(self.value as usize)
        } else {
            None
        }
    }

    /// The integer `value`.
    pub fn from_usize(value: usize) -> (r: Option<Integer>)
        ensures
            r is Some && r->Some_0@ == value,
    {
        Some(Integer { value: value as i128 })
    }

    /// The number of octets that `to_octets` gives.
    pub fn octet_count(&self) -> (n: usize)
        ensures
            n == octets_needed(self@),
            1 <= n <= 16,
    {
        proof {
            lemma_octets_needed_i128(self@);
        }
        let mut n: usize = 1;
        let mut v = self.value;
        while !(-128 <= v && v < 128)
            invariant
                1 <= n,
                n + octets_needed(v as int) == octets_needed(self@) + 1,
                octets_needed(self@) <= 16,
            decreases octets_needed(v as int),
        {
            v = floor_256(v);
            n = n + 1;
        }
        n
    }

    /// The two's complement of the integer in the fewest octets, the highest
    /// octet first.
    pub fn to_octets(&self) -> (bytes: Vec<u8>)
        ensures
            bytes@ == twos_complement(self@, octets_needed(self@)),
            is_minimal(bytes@),
            1 <= bytes@.len() <= 16,
    {
        let n = self.octet_count();
        let mut bytes: Vec<u8> = Vec::new();
        push_octets(&mut bytes, self.value, n);
        proof {
            lemma_twos_complement_minimal(self@);
            lemma_twos_complement_len(self@, n as nat);
            assert(bytes@ =~= twos_complement(self@, n as nat));
        }
        bytes
    }

    /// The integer whose two's complement `bytes` is. Octets that are not
    /// minimal are refused, and so is an integer of more than sixteen octets.
    pub fn from_octets(bytes: &[u8]) -> (r: Result<Integer, ErrorKind>)
        ensures
            !is_minimal(bytes@) ==> r == Err::<Integer, ErrorKind>(ErrorKind::Violation),
            is_minimal(bytes@) && bytes@.len() > 16 ==> r == Err::<Integer, ErrorKind>(
                ErrorKind::NarrowingOverflow,
            ),
            is_minimal(bytes@) && bytes@.len() <= 16 ==> r is Ok && r->Ok_0@
                == from_twos_complement(bytes@),
    {
        let n = bytes.len();
        if n == 0 {
            return Err(ErrorKind::Violation);
        }
        if n >= 2 && ((bytes[0] == 0 && bytes[1] < 128) || (bytes[0] == 255 && bytes[1] >= 128)) {
            return Err(ErrorKind::Violation);
        }
        if n > 16 {
            return Err(ErrorKind::NarrowingOverflow);
        }
        let first: i128 = bytes[0] as i128;
        let mut acc: i128 = if first >= 128 {
            first - 256
        } else {
            first
        };
        let mut i: usize = 1;
        assert(bytes@.take(1).len() == 1);
        while i < n
            invariant
                1 <= i <= n <= 16,
                n == bytes@.len(),
                acc == from_twos_complement(bytes@.take(i as int)),
            decreases n - i,
        {
            proof {
                let next = bytes@.take(i + 1);
                assert(next.drop_last() =~= bytes@.take(i as int));
                lemma_from_twos_complement_bounds(next);
                lemma_from_twos_complement_bounds(bytes@.take(i as int));
                lemma_pow2_monotonic((8 * (i + 1) - 1) as nat, 127);
                lemma_pow2_monotonic((8 * i - 1) as nat, 119);
                lemma_pow2_adds(119, 8);
                lemma_pow2_values();
            }
            acc = 256 * acc + bytes[i] as i128;
            i = i + 1;
        }
        assert(bytes@.take(n as int) =~= bytes@);
        Ok(Integer { value: acc })
    }
}

} // verus!
