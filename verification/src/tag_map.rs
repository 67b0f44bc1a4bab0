//! Values of unknown type, kept by their tags so that they can be written
//! again as they were read.

use crate::sorted::{ascending, lemma_place, lemma_rank, place, rank};
use crate::tag::Tag;
use crate::types::Any;
use vstd::prelude::*;

verus! {

/// A value of a type that the reader does not know, with the tag that it
/// was found under.
#[derive(Debug)]
pub struct Open {
    pub tag: Tag,
    pub value: Any,
}

impl DeepView for Open {
    type V = (Tag, Seq<u8>);

    open spec fn deep_view(&self) -> (Tag, Seq<u8>) {
        (self.tag, self.value.contents@)
    }
}

impl Open {
    /// The value that `contents` holds, under `tag`.
    pub fn new(tag: Tag, contents: Vec<u8>) -> (r: Open)
        ensures
            r.deep_view() == (tag, contents@),
    {
        Open { tag, value: Any::new(contents) }
    }

    /// The tag that the value was found under.
    pub fn tag(&self) -> (t: Tag)
        ensures
            t == self.tag,
    {
        self.tag
    }
}

/// The key of an entry: the key of its tag.
pub open spec fn by_tag() -> spec_fn((Tag, Seq<u8>)) -> int {
    |entry: (Tag, Seq<u8>)| entry.0.key()
}

/// Open values by their tags, in the order of the tags. A tag has one value
/// at most.
#[derive(Debug)]
pub struct TagMap {
    entries: Vec<Open>,
}

impl DeepView for TagMap {
    type V = Seq<(Tag, Seq<u8>)>;

    closed spec fn deep_view(&self) -> Seq<(Tag, Seq<u8>)> {
        self.entries.deep_view()
    }
}

impl TagMap {
    /// The entries stand in the strict order of their tags.
    pub open spec fn wf(&self) -> bool {
        ascending(self.deep_view(), by_tag())
    }

    /// The map without entries.
    pub fn new() -> (r: TagMap)
        ensures
            r.deep_view() == Seq::<(Tag, Seq<u8>)>::empty(),
            r.wf(),
    {
        let r = TagMap { entries: Vec::new() };
        assert(r.entries.deep_view() =~= Seq::<(Tag, Seq<u8>)>::empty());
        r
    }

    /// The number of entries.
    pub fn len(&self) -> (n: usize)
        ensures
            n == self.deep_view().len(),
    {
        self.entries.len()
    }

    /// The entry at `i` in the order of the tags.
    pub fn entry(&self, i: usize) -> (r: &Open)
        requires
            i < self.deep_view().len(),
        ensures
            r.deep_view() == self.deep_view()[i as int],
    {
        &self.entries[i]
    }

    /// The value under `tag`, if there is one.
    pub fn get(&self, tag: &Tag) -> (r: Option<&Any>)
        ensures
            match r {
                Some(value) => self.deep_view().contains((*tag, value.contents@)),
                None => forall|i: int|
                    0 <= i < self.deep_view().len() ==> (#[trigger] self.deep_view()[i]).0 != *tag,
            },
    {
        let mut i: usize = 0;
        while i < self.entries.len()
            invariant
                i <= self.entries@.len(),
                forall|j: int| 0 <= j < i ==> (#[trigger] self.deep_view()[j]).0 != *tag,
            decreases self.entries.len() - i,
        {
            if self.entries[i].tag.same(tag) {
                assert(self.deep_view()[i as int] == (*tag, self.entries@[i as int].value.contents@));
                return Some(&self.entries[i].value);
            }
            i = i + 1;
        }
        None
    }

    /// Puts `open` under its tag: in place of the value that was there, or as
    /// a new entry where the order of the tags has it.
    pub fn insert(&mut self, open: Open)
        requires
            old(self).wf(),
        ensures
            final(self).deep_view() == place(old(self).deep_view(), open.deep_view(), by_tag()),
            final(self).wf(),
    {
        let k = open.tag.sort_key();
        let ghost before = self.deep_view();
        let ghost x = open.deep_view();
        let mut i: usize = 0;
        while i < self.entries.len() && self.entries[i].tag.sort_key() < k
            invariant
                i <= self.entries@.len(),
                self.deep_view() == before,
                forall|j: int| 0 <= j < i ==> by_tag()(#[trigger] before[j]) < k,
            decreases self.entries.len() - i,
        {
            assert(before[i as int] == self.entries@[i as int].deep_view());
            i = i + 1;
        }
        proof {
            lemma_rank(before, k as int, by_tag());
            lemma_place(before, x, by_tag());
            if i < before.len() {
                assert(before[i as int] == self.entries@[i as int].deep_view());
            }
            let r = rank(before, k as int, by_tag());
            if i < r {
                assert(by_tag()(before[i as int]) < k);
            }
            if r < i {
                assert(by_tag()(before[r]) < k);
            }
            assert(i == r);
        }
        if i < self.entries.len() && self.entries[i].tag.sort_key() == k {
            self.entries.set(i, open);
            assert(self.entries.deep_view() =~= before.update(i as int, x));
        } else {
            self.entries.insert(i, open);
            assert(self.entries.deep_view() =~= before.insert(i as int, x));
        }
    }
}

/// A value that is put under its tag is found there; the values under
/// other tags stay as they were, and nothing else comes in.
pub proof fn lemma_insert_keeps(entries: Seq<(Tag, Seq<u8>)>, x: (Tag, Seq<u8>))
    requires
        ascending(entries, by_tag()),
    ensures
        ascending(place(entries, x, by_tag()), by_tag()),
        place(entries, x, by_tag()).contains(x),
        forall|i: int|
            0 <= i < entries.len() && entries[i].0 != x.0 ==> place(entries, x, by_tag()).contains(
                #[trigger] entries[i],
            ),
        forall|i: int|
            0 <= i < place(entries, x, by_tag()).len() ==> (#[trigger] place(
                entries,
                x,
                by_tag(),
            )[i]) == x || entries.contains(place(entries, x, by_tag())[i]),
{
    lemma_place(entries, x, by_tag());
    lemma_rank(entries, by_tag()(x), by_tag());
    let now = place(entries, x, by_tag());
    assert(now[rank(entries, by_tag()(x), by_tag())] == x);
    assert forall|i: int| 0 <= i < entries.len() && entries[i].0 != x.0 implies now.contains(
        #[trigger] entries[i],
    ) by {
        crate::tag::lemma_key_orders(entries[i].0, x.0);
    }
}

} // verus!
