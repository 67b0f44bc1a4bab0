//! Sequences in ascending order of a key, and putting one more element in
//! its place.

use vstd::prelude::*;

verus! {

/// The keys of `s` rise strictly: no key occurs twice.
pub open spec fn ascending<V>(s: Seq<V>, key: spec_fn(V) -> int) -> bool {
    forall|i: int, j: int| 0 <= i < j < s.len() ==> key(s[i]) < key(s[j])
}

/// The number of elements of `s` whose key is below `k`.
pub open spec fn rank<V>(s: Seq<V>, k: int, key: spec_fn(V) -> int) -> int
    decreases s.len(),
{
    if s.len() == 0 {
        0
    } else {
        rank(s.drop_last(), k, key) + if key(s.last()) < k {
            1int
        } else {
            0int
        }
    }
}

/// `s` with `x` in its place: in place of the element with the key of `x`
/// where there is one, else between the lower keys and the higher.
pub open spec fn place<V>(s: Seq<V>, x: V, key: spec_fn(V) -> int) -> Seq<V> {
    let at = rank(s, key(x), key);
    if at < s.len() && key(s[at]) == key(x) {
        s.update(at, x)
    } else {
        s.insert(at, x)
    }
}

/// `base` with the elements of `items` put in their places one after the
/// other.
pub open spec fn placed_all<V>(base: Seq<V>, items: Seq<V>, key: spec_fn(V) -> int) -> Seq<V>
    decreases items.len(),
{
    if items.len() == 0 {
        base
    } else {
        place(placed_all(base, items.drop_last(), key), items.last(), key)
    }
}

/// The elements of `items` in ascending order of their keys; of elements
/// with one key the last stays.
pub open spec fn arranged<V>(items: Seq<V>, key: spec_fn(V) -> int) -> Seq<V> {
    placed_all(Seq::empty(), items, key)
}

/// In an ascending sequence the rank of a key is where the lower keys end.
pub proof fn lemma_rank<V>(s: Seq<V>, k: int, key: spec_fn(V) -> int)
    requires
        ascending(s, key),
    ensures
        0 <= rank(s, k, key) <= s.len(),
        forall|i: int| 0 <= i < rank(s, k, key) ==> key(#[trigger] s[i]) < k,
        forall|i: int| rank(s, k, key) <= i < s.len() ==> key(#[trigger] s[i]) >= k,
    decreases s.len(),
{
    if s.len() > 0 {
        let front = s.drop_last();
        assert forall|i: int, j: int| 0 <= i < j < front.len() implies key(front[i]) < key(
            front[j],
        ) by {
            assert(front[i] == s[i] && front[j] == s[j]);
        }
        lemma_rank(front, k, key);
        let r = rank(front, k, key);
        assert forall|i: int| 0 <= i < front.len() implies front[i] == s[i] by {}
        if key(s.last()) < k {
            // Every key before the last is lower still.
            if r < front.len() {
                assert(key(front[r]) >= k);
                assert(key(s[r]) < key(s[s.len() - 1]));
            }
        }
    }
}

/// An element that is put in its place leaves the sequence ascending; it is
/// then found at its rank, and the others are found as before.
pub proof fn lemma_place<V>(s: Seq<V>, x: V, key: spec_fn(V) -> int)
    requires
        ascending(s, key),
    ensures
        ascending(place(s, x, key), key),
        place(s, x, key)[rank(s, key(x), key)] == x,
        forall|i: int|
            0 <= i < s.len() && key(s[i]) != key(x) ==> place(s, x, key).contains(#[trigger] s[i]),
        forall|i: int|
            0 <= i < place(s, x, key).len() ==> (#[trigger] place(s, x, key)[i]) == x || s.contains(
                place(s, x, key)[i],
            ),
{
    lemma_rank(s, key(x), key);
    let at = rank(s, key(x), key);
    let t = place(s, x, key);
    if at < s.len() && key(s[at]) == key(x) {
        assert forall|i: int| 0 <= i < s.len() && key(s[i]) != key(x) implies t.contains(
            #[trigger] s[i],
        ) by {
            assert(t[i] == s[i]);
        }
        assert forall|i: int| 0 <= i < t.len() implies (#[trigger] t[i]) == x || s.contains(
            t[i],
        ) by {
            if i != at {
                assert(t[i] == s[i]);
            }
        }
    } else {
        assert forall|i: int, j: int| 0 <= i < j < t.len() implies key(t[i]) < key(t[j]) by {
            if i < at {
                assert(t[i] == s[i]);
            } else if i > at {
                assert(t[i] == s[i - 1]);
            }
            if j < at {
                assert(t[j] == s[j]);
            } else if j > at {
                assert(t[j] == s[j - 1]);
            }
        }
        assert forall|i: int| 0 <= i < s.len() && key(s[i]) != key(x) implies t.contains(
            #[trigger] s[i],
        ) by {
            if i < at {
                assert(t[i] == s[i]);
            } else {
                assert(t[i + 1] == s[i]);
            }
        }
        assert forall|i: int| 0 <= i < t.len() implies (#[trigger] t[i]) == x || s.contains(
            t[i],
        ) by {
            if i < at {
                assert(t[i] == s[i]);
            } else if i > at {
                assert(t[i] == s[i - 1]);
            }
        }
    }
}

/// Elements that are put in their places leave the sequence ascending.
pub proof fn lemma_placed_all<V>(base: Seq<V>, items: Seq<V>, key: spec_fn(V) -> int)
    requires
        ascending(base, key),
    ensures
        ascending(placed_all(base, items, key), key),
    decreases items.len(),
{
    if items.len() > 0 {
        lemma_placed_all(base, items.drop_last(), key);
        lemma_place(placed_all(base, items.drop_last(), key), items.last(), key);
    }
}

/// Putting `a` and then `b` in their places is putting `a + b` in theirs.
pub proof fn lemma_placed_all_concat<V>(base: Seq<V>, a: Seq<V>, b: Seq<V>, key: spec_fn(V) -> int)
    ensures
        placed_all(base, a + b, key) == placed_all(placed_all(base, a, key), b, key),
    decreases b.len(),
{
    if b.len() == 0 {
        assert(a + b =~= a);
    } else {
        lemma_placed_all_concat(base, a, b.drop_last(), key);
        assert((a + b).drop_last() =~= a + b.drop_last());
        assert((a + b).last() == b.last());
    }
}

/// Elements that are put in their places one after the other are in
/// ascending order without a key twice, whatever their order was.
pub proof fn lemma_arranged<V>(items: Seq<V>, key: spec_fn(V) -> int)
    ensures
        ascending(arranged(items, key), key),
{
    lemma_placed_all(Seq::empty(), items, key);
}

/// The key of `a`.
pub open spec fn key_of<V>(key: spec_fn(V) -> int, a: V) -> int {
    key(a)
}

/// The key tells the elements apart.
pub open spec fn tells_apart<V>(key: spec_fn(V) -> int) -> bool {
    forall|a: V, b: V| #[trigger] key_of(key, a) == #[trigger] key_of(key, b) ==> a == b
}

/// `a` and `b` hold the same elements, however often and in whatever order.
pub open spec fn same_members<V>(a: Seq<V>, b: Seq<V>) -> bool {
    forall|x: V| a.contains(x) <==> b.contains(x)
}

/// With a key that tells the elements apart, the elements that are put in
/// their places are there, and nothing else is.
pub proof fn lemma_placed_all_members<V>(base: Seq<V>, items: Seq<V>, key: spec_fn(V) -> int)
    requires
        ascending(base, key),
        tells_apart(key),
    ensures
        forall|x: V|
            placed_all(base, items, key).contains(x) <==> base.contains(x) || items.contains(x),
    decreases items.len(),
{
    if items.len() == 0 {
    } else {
        let front = items.drop_last();
        let last = items.last();
        let before = placed_all(base, front, key);
        let now = place(before, last, key);
        lemma_placed_all_members(base, front, key);
        lemma_placed_all(base, front, key);
        lemma_place(before, last, key);
        lemma_rank(before, key(last), key);
        assert forall|x: V| now.contains(x) <==> base.contains(x) || items.contains(x) by {
            assert(items[items.len() - 1] == last);
            assert(before.contains(x) <==> base.contains(x) || front.contains(x));
            if front.contains(x) {
                let j = choose|j: int| 0 <= j < front.len() && front[j] == x;
                assert(items[j] == x);
                assert(items.contains(x));
            }
            if items.contains(x) && x != last {
                let j = choose|j: int| 0 <= j < items.len() && items[j] == x;
                assert(j < items.len() - 1);
                assert(front[j] == x);
                assert(front.contains(x));
            }
            if now.contains(x) && x != last {
                let i = choose|i: int| 0 <= i < now.len() && now[i] == x;
                assert(now[i] == last || before.contains(now[i]));
            }
            if x == last {
                assert(now[rank(before, key(last), key)] == x);
                assert(0 <= rank(before, key(last), key) < now.len());
            } else if before.contains(x) {
                let i = choose|i: int| 0 <= i < before.len() && before[i] == x;
                assert(key_of(key, before[i]) != key_of(key, last));
                assert(now.contains(before[i]));
            }
        }
    }
}

/// An ascending sequence is fixed by the elements that it holds.
pub proof fn lemma_ascending_unique<V>(a: Seq<V>, b: Seq<V>, key: spec_fn(V) -> int)
    requires
        ascending(a, key),
        ascending(b, key),
        same_members(a, b),
    ensures
        a == b,
    decreases a.len(),
{
    if a.len() == 0 {
        if b.len() > 0 {
            assert(b.contains(b[0]));
            assert(a.contains(b[0]));
        }
        assert(a =~= b);
    } else {
        let top = a.last();
        assert(a.contains(a[a.len() - 1]));
        assert(b.contains(top));
        let j = choose|j: int| 0 <= j < b.len() && b[j] == top;
        if j < b.len() - 1 {
            assert(b.contains(b[b.len() - 1]));
            assert(a.contains(b.last()));
            let i = choose|i: int| 0 <= i < a.len() && a[i] == b.last();
            assert(key(a[i]) <= key(a[a.len() - 1]));
            assert(key(b[j]) < key(b[b.len() - 1]));
        }
        let a1 = a.drop_last();
        let b1 = b.drop_last();
        assert forall|x: V| a1.contains(x) <==> b1.contains(x) by {
            if a1.contains(x) {
                let i = choose|i: int| 0 <= i < a1.len() && a1[i] == x;
                assert(a[i] == x);
                assert(a.contains(x));
                assert(key(a[i]) < key(a[a.len() - 1]));
                let m = choose|m: int| 0 <= m < b.len() && b[m] == x;
                assert(m != b.len() - 1);
                assert(b1[m] == x);
            }
            if b1.contains(x) {
                let i = choose|i: int| 0 <= i < b1.len() && b1[i] == x;
                assert(b[i] == x);
                assert(b.contains(x));
                assert(key(b[i]) < key(b[b.len() - 1]));
                let m = choose|m: int| 0 <= m < a.len() && a[m] == x;
                assert(m != a.len() - 1);
                assert(a1[m] == x);
            }
        }
        assert forall|i: int, j: int| 0 <= i < j < a1.len() implies key(a1[i]) < key(a1[j]) by {
            assert(a1[i] == a[i] && a1[j] == a[j]);
        }
        assert forall|i: int, j: int| 0 <= i < j < b1.len() implies key(b1[i]) < key(b1[j]) by {
            assert(b1[i] == b[i] && b1[j] == b[j]);
        }
        lemma_ascending_unique(a1, b1, key);
        assert(a =~= a1.push(top));
        assert(b =~= b1.push(top));
    }
}

/// With a key that tells the elements apart, the order in which elements
/// come, and how often each comes, is of no account: the same elements are
/// arranged to the same sequence.
pub proof fn lemma_arranged_order_free<V>(a: Seq<V>, b: Seq<V>, key: spec_fn(V) -> int)
    requires
        tells_apart(key),
        same_members(a, b),
    ensures
        arranged(a, key) == arranged(b, key),
{
    lemma_arranged(a, key);
    lemma_arranged(b, key);
    lemma_placed_all_members(Seq::empty(), a, key);
    lemma_placed_all_members(Seq::empty(), b, key);
    assert forall|x: V| arranged(a, key).contains(x) <==> arranged(b, key).contains(x) by {
        assert(!Seq::<V>::empty().contains(x));
    }
    lemma_ascending_unique(arranged(a, key), arranged(b, key), key);
}

/// Elements that come in ascending order are arranged as they come.
pub proof fn lemma_arranged_ascending<V>(items: Seq<V>, key: spec_fn(V) -> int)
    requires
        ascending(items, key),
    ensures
        arranged(items, key) == items,
    decreases items.len(),
{
    if items.len() > 0 {
        let front = items.drop_last();
        assert forall|i: int, j: int| 0 <= i < j < front.len() implies key(front[i]) < key(
            front[j],
        ) by {
            assert(front[i] == items[i] && front[j] == items[j]);
        }
        lemma_arranged_ascending(front, key);
        lemma_rank(front, key(items.last()), key);
        let at = rank(front, key(items.last()), key);
        if at < front.len() {
            assert(front[at] == items[at]);
            assert(key(items[at]) < key(items[items.len() - 1]));
        }
        assert(front.insert(at, items.last()) =~= items);
    } else {
        assert(arranged(items, key) =~= items);
    }
}

} // verus!
