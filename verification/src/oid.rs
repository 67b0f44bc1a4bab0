//! Object identifiers, and the octets that hold their arcs.

use crate::error::ErrorKind;
use vstd::prelude::*;

verus! {

/// The greatest number that a subidentifier may spell: the greatest second
/// arc under the first arc two.
pub const LIMIT: u64 = 0x1_0000_004F;

/// An object identifier has two arcs at least; the first is at most two,
/// and under a first arc of zero or one the second is below forty.
pub open spec fn valid_arcs(arcs: Seq<u32>) -> bool {
    arcs.len() >= 2 && arcs[0] <= 2 && (arcs[0] < 2 ==> arcs[1] < 40)
}

/// The digits of `n` to the base 128 without leading zeros, the highest
/// first, each marked as not the last: none for zero.
pub open spec fn septets(n: nat) -> Seq<u8>
    decreases n,
{
    if n == 0 {
        Seq::empty()
    } else {
        septets(n / 128).push((128 + n % 128) as u8)
    }
}

/// The octets of one subidentifier: the digits of `n` to the base 128, all
/// but the last marked.
pub open spec fn subidentifier(n: nat) -> Seq<u8> {
    septets(n / 128).push((n % 128) as u8)
}

/// The octets of subidentifiers one after the other.
pub open spec fn subidentifiers(values: Seq<nat>) -> Seq<u8>
    decreases values.len(),
{
    if values.len() == 0 {
        Seq::empty()
    } else {
        subidentifier(values[0]) + subidentifiers(values.skip(1))
    }
}

/// The numbers that the subidentifiers of `arcs` spell: the first two arcs
/// share one, then each arc has its own.
pub open spec fn numbers(arcs: Seq<u32>) -> Seq<nat> {
    seq![(40 * arcs[0] + arcs[1]) as nat] + Seq::new(
        (arcs.len() - 2) as nat,
        |i: int| arcs[i + 2] as nat,
    )
}

/// The octets that hold an object identifier.
pub open spec fn contents(arcs: Seq<u32>) -> Seq<u8> {
    subidentifiers(numbers(arcs))
}

/// The number that marked digits spell.
pub open spec fn unsept(digits: Seq<u8>) -> nat
    decreases digits.len(),
{
    if digits.len() == 0 {
        0
    } else {
        unsept(digits.drop_last()) * 128 + (digits.last() % 128) as nat
    }
}

/// The number of marked octets from `pos` on, up to the first that is not.
pub open spec fn marked_run(bytes: Seq<u8>, pos: int) -> nat
    decreases bytes.len() - pos,
{
    if 0 <= pos < bytes.len() && bytes[pos] >= 128 {
        1 + marked_run(bytes, pos + 1)
    } else {
        0
    }
}

/// The subidentifier at `pos`: its number and the position behind it. There
/// is none where no unmarked octet ends it, or where it begins with a digit
/// of zero.
pub open spec fn read_subidentifier(bytes: Seq<u8>, pos: int) -> Option<(nat, int)> {
    let run = marked_run(bytes, pos);
    if pos < 0 || pos + run >= bytes.len() {
        None
    } else if bytes[pos] == 128 {
        None
    } else {
        Some(
            (
                (unsept(bytes.subrange(pos, pos + run)) * 128 + bytes[pos + run]) as nat,
                pos + run + 1,
            ),
        )
    }
}

/// The subidentifiers from `pos` to the end.
pub open spec fn read_subidentifiers(bytes: Seq<u8>, pos: int) -> Option<Seq<nat>>
    decreases bytes.len() - pos,
{
    if pos >= bytes.len() {
        Some(Seq::empty())
    } else {
        match read_subidentifier(bytes, pos) {
            None => None,
            Some((value, next)) => match read_subidentifiers(bytes, next) {
                None => None,
                Some(rest) => Some(seq![value] + rest),
            },
        }
    }
}

/// Every number fits its arc: the first the two arcs that share it, each
/// other one arc.
pub open spec fn fits(values: Seq<nat>) -> bool {
    values.len() > 0 && values[0] <= LIMIT && forall|i: int|
        0 < i < values.len() ==> (#[trigger] values[i]) <= u32::MAX
}

/// The first arc that the first number spells.
pub open spec fn first_arc(first: nat) -> u32 {
    if first < 40 {
        0
    } else if first < 80 {
        1
    } else {
        2
    }
}

/// The arcs that `values` spell.
pub open spec fn arcs_of(values: Seq<nat>) -> Seq<u32> {
    seq![first_arc(values[0]), (values[0] - 40 * first_arc(values[0])) as u32] + Seq::new(
        (values.len() - 1) as nat,
        |i: int| values[i + 1] as u32,
    )
}

/// The object identifier that `bytes` hold. Octets that are no
/// subidentifiers, and no octets at all, are a violation; a number that fits
/// no arc is an overflow.
pub open spec fn parse(bytes: Seq<u8>) -> Result<Seq<u32>, ErrorKind> {
    match read_subidentifiers(bytes, 0) {
        None => Err(ErrorKind::Violation),
        Some(values) => if values.len() == 0 {
            Err(ErrorKind::Violation)
        } else if !fits(values) {
            Err(ErrorKind::NarrowingOverflow)
        } else {
            Ok(arcs_of(values))
        },
    }
}

pub proof fn lemma_septets_marked(n: nat)
    ensures
        forall|i: int| 0 <= i < septets(n).len() ==> (#[trigger] septets(n)[i]) >= 128,
        unsept(septets(n)) == n,
        n > 0 ==> septets(n).len() > 0 && septets(n)[0] != 128,
    decreases n,
{
    if n > 0 {
        lemma_septets_marked(n / 128);
        let front = septets(n / 128);
        let all = septets(n);
        assert(all.drop_last() =~= front);
        assert forall|i: int| 0 <= i < all.len() implies (#[trigger] all[i]) >= 128 by {
            if i < front.len() {
                assert(all[i] == front[i]);
            }
        }
        if n / 128 > 0 {
            assert(all[0] == front[0]);
        }
    }
}

/// Behind `done` marked octets of a run of `run`, the rest of the run is
/// marked.
proof fn lemma_marked_run(bytes: Seq<u8>, pos: int, run: nat, done: nat)
    requires
        0 <= pos,
        pos + run < bytes.len(),
        done <= run,
        forall|i: int| pos <= i < pos + run ==> (#[trigger] bytes[i]) >= 128,
        bytes[pos + run] < 128,
    ensures
        marked_run(bytes, pos + done) == run - done,
    decreases run - done,
{
    if done < run {
        lemma_marked_run(bytes, pos, run, done + 1);
    }
}

/// A subidentifier that stands at `pos` is read back from there.
pub proof fn lemma_subidentifier_round_trip(before: Seq<u8>, n: nat, rest: Seq<u8>)
    ensures
        read_subidentifier(before + subidentifier(n) + rest, before.len() as int) == Some(
            (n, (before.len() + subidentifier(n).len()) as int),
        ),
{
    let high = septets(n / 128);
    let sub = subidentifier(n);
    let bytes = before + sub + rest;
    let pos = before.len() as int;
    lemma_septets_marked(n / 128);
    assert forall|i: int| pos <= i < pos + high.len() implies (#[trigger] bytes[i]) >= 128 by {
        assert(bytes[i] == high[i - pos]);
    }
    assert(bytes[pos + high.len()] == (n % 128) as u8);
    lemma_marked_run(bytes, pos, high.len(), 0);
    assert(bytes.subrange(pos, pos + high.len()) =~= high);
    if high.len() > 0 {
        assert(bytes[pos] == high[0]);
    }
}

/// Subidentifiers that stand at `pos` up to the end are read back.
pub proof fn lemma_subidentifiers_round_trip(before: Seq<u8>, values: Seq<nat>)
    ensures
        read_subidentifiers(before + subidentifiers(values), before.len() as int) == Some(values),
    decreases values.len(),
{
    let bytes = before + subidentifiers(values);
    if values.len() == 0 {
        assert(values =~= Seq::<nat>::empty());
    } else {
        let first = subidentifier(values[0]);
        let later = subidentifiers(values.skip(1));
        assert(bytes =~= before + first + later);
        lemma_subidentifier_round_trip(before, values[0], later);
        lemma_subidentifiers_round_trip(before + first, values.skip(1));
        assert(bytes =~= (before + first) + later);
        assert(seq![values[0]] + values.skip(1) =~= values);
    }
}

/// The octets of an object identifier spell its arcs.
pub proof fn lemma_contents_round_trip(arcs: Seq<u32>)
    requires
        valid_arcs(arcs),
    ensures
        parse(contents(arcs)) == Ok::<Seq<u32>, ErrorKind>(arcs),
{
    lemma_subidentifiers_round_trip(Seq::empty(), numbers(arcs));
    assert(Seq::<u8>::empty() + contents(arcs) =~= contents(arcs));
    let values = numbers(arcs);
    assert(arcs_of(values) =~= arcs);
}

/// A run of marked octets that goes on to the end.
proof fn lemma_marked_to_end(bytes: Seq<u8>, pos: int, done: nat)
    requires
        0 <= pos,
        pos + done <= bytes.len(),
        forall|i: int| pos <= i < bytes.len() ==> (#[trigger] bytes[i]) >= 128,
    ensures
        marked_run(bytes, pos + done) == bytes.len() - pos - done,
    decreases bytes.len() - pos - done,
{
    if pos + done < bytes.len() {
        lemma_marked_to_end(bytes, pos, done + 1);
    }
}

/// The values read so far, before what the rest of the octets give.
pub open spec fn before_rest(done: Seq<nat>, rest: Option<Seq<nat>>) -> Option<Seq<nat>> {
    match rest {
        Some(more) => Some(done + more),
        None => None,
    }
}

/// An object identifier: the arcs from the root of the tree of objects down
/// to the object.
#[derive(Debug)]
pub struct ObjectIdentifier {
    arcs: Vec<u32>,
}

impl DeepView for ObjectIdentifier {
    type V = Seq<u32>;

    closed spec fn deep_view(&self) -> Seq<u32> {
        self.arcs@
    }
}

impl ObjectIdentifier {
    /// The object identifier of `arcs`, or `None` where they are no valid
    /// arcs.
    pub fn new(arcs: Vec<u32>) -> (r: Option<Self>)
        ensures
            valid_arcs(arcs@) ==> r is Some && r->Some_0.deep_view() == arcs@,
            !valid_arcs(arcs@) ==> r is None,
    {
        if is_valid(arcs.as_slice()) {
            Some(ObjectIdentifier { arcs })
        } else {
            None
        }
    }

    /// The arcs.
    pub fn arcs(&self) -> (r: &[u32])
        ensures
            r@ == self.deep_view(),
    {
        self.arcs.as_slice()
    }
}

/// Computes `valid_arcs`.
pub fn is_valid(arcs: &[u32]) -> (b: bool)
    ensures
        b == valid_arcs(arcs@),
{
    arcs.len() >= 2 && arcs[0] <= 2 && (arcs[0] >= 2 || arcs[1] < 40)
}

/// Appends the marked digits of `n`.
fn push_septets(bytes: &mut Vec<u8>, n: u64)
    ensures
        final(bytes)@ == old(bytes)@ + septets(n as nat),
    decreases n,
{
    if n > 0 {
        push_septets(bytes, n / 128);
        bytes.push((128 + n % 128) as u8);
    }
    assert(bytes@ =~= old(bytes)@ + septets(n as nat));
}

/// Appends the subidentifier of `n`.
fn push_subidentifier(bytes: &mut Vec<u8>, n: u64)
    ensures
        final(bytes)@ == old(bytes)@ + subidentifier(n as nat),
{
    push_septets(bytes, n / 128);
    bytes.push((n % 128) as u8);
    assert(bytes@ =~= old(bytes)@ + subidentifier(n as nat));
}

/// The subidentifiers of the numbers `from ..`, for the proof of the loop
/// that writes them.
proof fn lemma_subidentifiers_push(values: Seq<nat>, next: nat)
    ensures
        subidentifiers(values.push(next)) == subidentifiers(values) + subidentifier(next),
    decreases values.len(),
{
    if values.len() == 0 {
        let grown = values.push(next);
        assert(grown.skip(1) =~= Seq::<nat>::empty());
        assert(grown[0] == next);
        assert(subidentifiers(grown) == subidentifier(next) + subidentifiers(grown.skip(1)));
        assert(subidentifiers(grown.skip(1)) =~= Seq::<u8>::empty());
        assert(subidentifiers(values) =~= Seq::<u8>::empty());
        assert(subidentifiers(grown) =~= subidentifiers(values) + subidentifier(next));
    } else {
        let grown = values.push(next);
        lemma_subidentifiers_push(values.skip(1), next);
        assert(grown.skip(1) =~= values.skip(1).push(next));
        assert(grown[0] == values[0]);
        assert(subidentifiers(grown) == subidentifier(values[0]) + subidentifiers(grown.skip(1)));
        assert(subidentifiers(values) == subidentifier(values[0]) + subidentifiers(
            values.skip(1),
        ));
        assert(subidentifiers(grown) =~= subidentifiers(values) + subidentifier(next));
    }
}

/// The octets that hold the object identifier of `arcs`, or `None` where
/// they are no valid arcs.
pub fn to_contents(arcs: &[u32]) -> (r: Option<Vec<u8>>)
    ensures
        valid_arcs(arcs@) ==> r is Some && r->Some_0@ == contents(arcs@),
        !valid_arcs(arcs@) ==> r is None,
{
    if !is_valid(arcs) {
        return None;
    }
    let mut bytes: Vec<u8> = Vec::new();
    let first: u64 = 40 * (arcs[0] as u64) + arcs[1] as u64;
    push_subidentifier(&mut bytes, first);
    let ghost all = numbers(arcs@);
    let mut i: usize = 2;
    proof {
        assert(all.take(1) =~= seq![first as nat]);
        lemma_subidentifiers_push(Seq::empty(), first as nat);
        assert(Seq::<nat>::empty().push(first as nat) =~= all.take(1));
        assert(bytes@ =~= subidentifiers(all.take(1)));
    }
    while i < arcs.len()
        invariant
            2 <= i <= arcs@.len(),
            all == numbers(arcs@),
            bytes@ == subidentifiers(all.take(i - 1)),
        decreases arcs.len() - i,
    {
        proof {
            lemma_subidentifiers_push(all.take(i - 1), arcs@[i as int] as nat);
            assert(all.take(i - 1).push(arcs@[i as int] as nat) =~= all.take(i as int));
        }
        push_subidentifier(&mut bytes, arcs[i] as u64);
        i = i + 1;
    }
    assert(all.take(i - 1) =~= all);
    Some(bytes)
}

/// Reads the subidentifier at `pos`: its number where that is within the
/// limit, and the position behind it.
fn subidentifier_at(bytes: &[u8], pos: usize) -> (r: Option<(Option<u64>, usize)>)
    requires
        pos < bytes@.len(),
    ensures
        match read_subidentifier(bytes@, pos as int) {
            None => r is None,
            Some((value, next)) => r is Some && r->Some_0.1 == next && pos < next <= bytes@.len()
                && (value <= LIMIT ==> r->Some_0.0 == Some(value as u64)) && (value > LIMIT
                ==> r->Some_0.0 is None),
        },
{
    let len = bytes.len();
    let mut i: usize = pos;
    let mut acc: u64 = 0;
    let mut over = false;
    assert(bytes@.subrange(pos as int, pos as int) =~= Seq::<u8>::empty());
    while i < len && bytes[i] >= 128
        invariant
            pos <= i <= len == bytes@.len(),
            forall|j: int| pos <= j < i ==> (#[trigger] bytes@[j]) >= 128,
            !over ==> acc == unsept(bytes@.subrange(pos as int, i as int)) && acc <= LIMIT,
            over ==> unsept(bytes@.subrange(pos as int, i as int)) > LIMIT,
        decreases len - i,
    {
        proof {
            let next = bytes@.subrange(pos as int, i + 1);
            assert(next.drop_last() =~= bytes@.subrange(pos as int, i as int));
            assert(next.last() == bytes@[i as int]);
        }
        if !over {
            let next: u64 = acc * 128 + (bytes[i] % 128) as u64;
            if next > LIMIT {
                over = true;
            } else {
                acc = next;
            }
        }
        i = i + 1;
    }
    if i >= len {
        proof {
            lemma_marked_to_end(bytes@, pos as int, 0);
        }
        return None;
    }
    proof {
        lemma_marked_run(bytes@, pos as int, (i - pos) as nat, 0);
    }
    if bytes[pos] == 128 {
        return None;
    }
    if over {
        return Some((None, i + 1));
    }
    let value: u64 = acc * 128 + bytes[i] as u64;
    if value > LIMIT {
        Some((None, i + 1))
    } else {
        Some((Some(value), i + 1))
    }
}

/// The object identifier that `bytes` hold.
pub fn from_contents(bytes: &[u8]) -> (r: Result<ObjectIdentifier, ErrorKind>)
    ensures
        match parse(bytes@) {
            Ok(arcs) => r is Ok && r->Ok_0.deep_view() == arcs,
            Err(kind) => r == Err::<ObjectIdentifier, ErrorKind>(kind),
        },
{
    let len = bytes.len();
    let mut arcs: Vec<u32> = Vec::new();
    let mut pos: usize = 0;
    let mut over = false;
    let ghost goal = read_subidentifiers(bytes@, 0);
    let ghost mut done: Seq<nat> = Seq::empty();
    while pos < len
        invariant
            pos <= len == bytes@.len(),
            goal == read_subidentifiers(bytes@, 0),
            goal == before_rest(done, read_subidentifiers(bytes@, pos as int)),
            done.len() == 0 ==> arcs@.len() == 0 && !over,
            done.len() > 0 && !over ==> fits(done) && arcs@ == arcs_of(done),
            over ==> done.len() > 0 && !fits(done),
        decreases len - pos,
    {
        let (value, next) = match subidentifier_at(bytes, pos) {
            Some(pair) => pair,
            None => {
                return Err(ErrorKind::Violation);
            },
        };
        proof {
            let read = read_subidentifier(bytes@, pos as int)->Some_0;
            let rest = read_subidentifiers(bytes@, next as int);
            if rest is Some {
                assert(done + (seq![read.0] + rest->Some_0) =~= done.push(read.0) + rest->Some_0);
            }
            let grown = done.push(read.0);
            if done.len() > 0 {
                assert(grown[0] == done[0]);
                if !fits(done) {
                    if done[0] <= LIMIT {
                        let i = choose|i: int| 0 < i < done.len() && !(#[trigger] done[i]
                            <= u32::MAX);
                        assert(grown[i] == done[i]);
                    }
                } else {
                    assert forall|i: int| 0 < i < done.len() implies (#[trigger] grown[i])
                        <= u32::MAX by {
                        assert(grown[i] == done[i]);
                    }
                }
            }
            assert(grown[grown.len() - 1] == read.0);
        }
        let first = arcs.len() == 0 && !over;
        match value {
            Some(number) => {
                if over {
                } else if first {
                    let head: u32 = if number < 40 {
                        0
                    } else if number < 80 {
                        1
                    } else {
                        2
                    };
                    arcs.push(head);
                    arcs.push((number - 40 * head as u64) as u32);
                    assert(arcs@ =~= arcs_of(done.push(number as nat)));
                } else if number > u32::MAX as u64 {
                    over = true;
                } else {
                    arcs.push(number as u32);
                    assert(arcs@ =~= arcs_of(done.push(number as nat)));
                }
            },
            None => {
                over = true;
            },
        }
        proof {
            done = done.push(read_subidentifier(bytes@, pos as int)->Some_0.0);
        }
        pos = next;
    }
    proof {
        assert(done + Seq::<nat>::empty() =~= done);
    }
    if arcs.len() == 0 && !over {
        Err(ErrorKind::Violation)
    } else if over {
        Err(ErrorKind::NarrowingOverflow)
    } else {
        Ok(ObjectIdentifier { arcs })
    }
}


} // verus!
