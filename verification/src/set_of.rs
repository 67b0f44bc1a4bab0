//! Sets of values of one type, held in ascending order.

use crate::integer::Integer;
use crate::sorted::{ascending, lemma_place, lemma_rank, place, rank};
use vstd::prelude::*;

verus! {

/// A type whose values are ordered by an integer key, which tells them
/// apart.
pub trait SetElement: Sized + DeepView {
    /// The key of a value.
    spec fn key(value: Self::V) -> int;

    /// Values with one key are one value.
    proof fn lemma_key_tells_apart(a: Self::V, b: Self::V)
        requires
            Self::key(a) == Self::key(b),
        ensures
            a == b,
    ;

    /// Whether the key of `self` is below the key of `other`.
    fn precedes(&self, other: &Self) -> (b: bool)
        ensures
            b == (Self::key(self.deep_view()) < Self::key(other.deep_view())),
    ;
}

/// The key of `T` as a function.
pub open spec fn by_key<T: SetElement>() -> spec_fn(T::V) -> int {
    |value: T::V| T::key(value)
}

/// The key of a set element tells the elements apart.
pub proof fn lemma_by_key_tells_apart<T: SetElement>()
    ensures
        crate::sorted::tells_apart(by_key::<T>()),
{
    assert forall|a: T::V, b: T::V| #[trigger]
        crate::sorted::key_of(by_key::<T>(), a) == #[trigger] crate::sorted::key_of(
            by_key::<T>(),
            b,
        ) implies a == b by {
        T::lemma_key_tells_apart(a, b);
    }
}

/// Values of `T` in the strict order of their keys: no value occurs twice.
#[derive(Debug)]
pub struct SetOf<T> {
    elements: Vec<T>,
}

impl<T: DeepView> DeepView for SetOf<T> {
    type V = Seq<T::V>;

    closed spec fn deep_view(&self) -> Seq<T::V> {
        self.elements.deep_view()
    }
}

impl<T: SetElement> SetOf<T> {
    /// The elements stand in the strict order of their keys.
    pub open spec fn wf(&self) -> bool {
        ascending(self.deep_view(), by_key::<T>())
    }

    /// The empty set.
    pub fn new() -> (r: Self)
        ensures
            r.deep_view() == Seq::<T::V>::empty(),
            r.wf(),
    {
        let r = SetOf { elements: Vec::new() };
        assert(r.elements.deep_view() =~= Seq::<T::V>::empty());
        r
    }

    /// The number of elements.
    pub fn len(&self) -> (n: usize)
        ensures
            n == self.deep_view().len(),
    {
        self.elements.len()
    }

    /// The element at `i` in ascending order.
    pub fn element(&self, i: usize) -> (r: &T)
        requires
            i < self.deep_view().len(),
        ensures
            r.deep_view() == self.deep_view()[i as int],
    {
        &self.elements[i]
    }

    /// The elements in ascending order.
    pub fn as_slice(&self) -> (r: &[T])
        ensures
            r@.len() == self.deep_view().len(),
            forall|i: int| 0 <= i < r@.len() ==> (#[trigger] r@[i]).deep_view() == self.deep_view()[i],
    {
        self.elements.as_slice()
    }

    /// Puts `value` in its place; a value that the set holds already stays
    /// as it is.
    pub fn insert(&mut self, value: T)
        requires
            old(self).wf(),
        ensures
            final(self).deep_view() == place(old(self).deep_view(), value.deep_view(), by_key::<T>()),
            final(self).wf(),
    {
        let ghost before = self.deep_view();
        let ghost x = value.deep_view();
        let ghost k = T::key(x);
        let mut i: usize = 0;
        while i < self.elements.len() && self.elements[i].precedes(&value)
            invariant
                i <= self.elements@.len(),
                self.deep_view() == before,
                k == T::key(value.deep_view()),
                forall|j: int| 0 <= j < i ==> by_key::<T>()(#[trigger] before[j]) < k,
            decreases self.elements.len() - i,
        {
            assert(before[i as int] == self.elements@[i as int].deep_view());
            i = i + 1;
        }
        proof {
            lemma_rank(before, k, by_key::<T>());
            lemma_place(before, x, by_key::<T>());
            if i < before.len() {
                assert(before[i as int] == self.elements@[i as int].deep_view());
            }
            let r = rank(before, k, by_key::<T>());
            if i < r {
                assert(by_key::<T>()(before[i as int]) < k);
            }
            if r < i {
                assert(by_key::<T>()(before[r]) < k);
            }
            assert(i == r);
        }
        if i < self.elements.len() && !value.precedes(&self.elements[i]) {
            self.elements.set(i, value);
            assert(self.elements.deep_view() =~= before.update(i as int, x));
        } else {
            self.elements.insert(i, value);
            assert(self.elements.deep_view() =~= before.insert(i as int, x));
        }
    }
}

impl SetElement for i8 {
    open spec fn key(value: i8) -> int {
        value as int
    }

    proof fn lemma_key_tells_apart(a: i8, b: i8) {
    }

    fn precedes(&self, other: &Self) -> (b: bool) {
        *self < *other
    }
}

impl SetElement for i16 {
    open spec fn key(value: i16) -> int {
        value as int
    }

    proof fn lemma_key_tells_apart(a: i16, b: i16) {
    }

    fn precedes(&self, other: &Self) -> (b: bool) {
        *self < *other
    }
}

impl SetElement for i32 {
    open spec fn key(value: i32) -> int {
        value as int
    }

    proof fn lemma_key_tells_apart(a: i32, b: i32) {
    }

    fn precedes(&self, other: &Self) -> (b: bool) {
        *self < *other
    }
}

impl SetElement for i64 {
    open spec fn key(value: i64) -> int {
        value as int
    }

    proof fn lemma_key_tells_apart(a: i64, b: i64) {
    }

    fn precedes(&self, other: &Self) -> (b: bool) {
        *self < *other
    }
}

impl SetElement for i128 {
    open spec fn key(value: i128) -> int {
        value as int
    }

    proof fn lemma_key_tells_apart(a: i128, b: i128) {
    }

    fn precedes(&self, other: &Self) -> (b: bool) {
        *self < *other
    }
}

impl SetElement for isize {
    open spec fn key(value: isize) -> int {
        value as int
    }

    proof fn lemma_key_tells_apart(a: isize, b: isize) {
    }

    fn precedes(&self, other: &Self) -> (b: bool) {
        *self < *other
    }
}

impl SetElement for u8 {
    open spec fn key(value: u8) -> int {
        value as int
    }

    proof fn lemma_key_tells_apart(a: u8, b: u8) {
    }

    fn precedes(&self, other: &Self) -> (b: bool) {
        *self < *other
    }
}

impl SetElement for u16 {
    open spec fn key(value: u16) -> int {
        value as int
    }

    proof fn lemma_key_tells_apart(a: u16, b: u16) {
    }

    fn precedes(&self, other: &Self) -> (b: bool) {
        *self < *other
    }
}

impl SetElement for u32 {
    open spec fn key(value: u32) -> int {
        value as int
    }

    proof fn lemma_key_tells_apart(a: u32, b: u32) {
    }

    fn precedes(&self, other: &Self) -> (b: bool) {
        *self < *other
    }
}

impl SetElement for u64 {
    open spec fn key(value: u64) -> int {
        value as int
    }

    proof fn lemma_key_tells_apart(a: u64, b: u64) {
    }

    fn precedes(&self, other: &Self) -> (b: bool) {
        *self < *other
    }
}

impl SetElement for u128 {
    open spec fn key(value: u128) -> int {
        value as int
    }

    proof fn lemma_key_tells_apart(a: u128, b: u128) {
    }

    fn precedes(&self, other: &Self) -> (b: bool) {
        *self < *other
    }
}

impl SetElement for usize {
    open spec fn key(value: usize) -> int {
        value as int
    }

    proof fn lemma_key_tells_apart(a: usize, b: usize) {
    }

    fn precedes(&self, other: &Self) -> (b: bool) {
        *self < *other
    }
}

impl SetElement for bool {
    open spec fn key(value: bool) -> int {
        if value {
            1
        } else {
            0
        }
    }

    proof fn lemma_key_tells_apart(a: bool, b: bool) {
    }

    fn precedes(&self, other: &Self) -> (b: bool) {
        !*self && *other
    }
}

impl SetElement for Integer {
    open spec fn key(value: int) -> int {
        value
    }

    proof fn lemma_key_tells_apart(a: int, b: int) {
    }

    fn precedes(&self, other: &Self) -> (b: bool) {
        self.value < other.value
    }
}

} // verus!
