//! Traits for types that behave like a sequence of items, with
//! implementations for vectors and slices.
use vstd::prelude::*;
use vstd::std_specs::cmp::PartialEqSpec;

verus! {

/// True if the items of `part` stand in `whole` from the place `start` on,
/// one after the other.
pub open spec fn occurs_at<Item: PartialEq>(part: Seq<Item>, whole: Seq<Item>, start: int) -> bool {
    &&& 0 <= start
    &&& start + part.len() <= whole.len()
    &&& forall|i: int| 0 <= i < part.len() ==> (#[trigger] part[i]).eq_spec(&whole[start + i])
}

/// True if `index` is the first place of `items` that holds an item equal to `item`.
pub open spec fn first_place_of<Item: PartialEq>(items: Seq<Item>, item: Item, index: int) -> bool {
    &&& 0 <= index < items.len()
    &&& items[index].eq_spec(&item)
    &&& forall|i: int| 0 <= i < index ==> !(#[trigger] items[i]).eq_spec(&item)
}

/// The items behind the references, in the same order.
pub open spec fn referenced<Item>(references: Seq<&Item>) -> Seq<Item> {
    references.map_values(|reference: &Item| *reference)
}

/// The sequence without its first `count` items, or without any item if it
/// has fewer.
pub open spec fn skipped<Item>(items: Seq<Item>, count: int) -> Seq<Item> {
    if count >= items.len() {
        Seq::empty()
    } else {
        items.subrange(count, items.len() as int)
    }
}

/// The texts joined by a comma and a space.
pub open spec fn joined(parts: Seq<Seq<char>>) -> Seq<char>
    decreases parts.len(),
{
    if parts.len() == 0 {
        Seq::empty()
    } else if parts.len() == 1 {
        parts[0]
    } else {
        joined(parts.drop_last()) + seq![',', ' '] + parts.last()
    }
}

/// The texts joined by a comma and a space, in square brackets.
pub open spec fn bracketed(parts: Seq<Seq<char>>) -> Seq<char> {
    seq!['['] + joined(parts) + seq![']']
}

/// The characters of each of the strings.
pub open spec fn texts_of(parts: Seq<String>) -> Seq<Seq<char>> {
    parts.map_values(|part: String| part@)
}

/// Formats the item with its `Debug` implementation. What text that gives
/// is left to the implementation.
#[verifier::external_body]
fn debug_text<Item: core::fmt::Debug>(item: &Item) -> (r: String) {
    format!("{:?}", item)
}

/// Calls `String::push_str`, which appends the given text.
#[verifier::external_body]
fn push_text(text: &mut String, more: &str)
    ensures
        final(text)@ == old(text)@ + more@,
{
    text.push_str(more)
}

/// Returns the given texts joined by a comma and a space, in square brackets.
pub fn bracketed_text(parts: &Vec<String>) -> (r: String)
    ensures
        r@ == bracketed(texts_of(parts@)),
{
    let mut result = String::new();
    proof {
        reveal_strlit("[");
        reveal_strlit(", ");
        reveal_strlit("]");
    }
    push_text(&mut result, "[");
    let mut i: usize = 0;
    proof {
        assert(texts_of(parts@).subrange(0, 0) =~= Seq::<Seq<char>>::empty());
        assert(result@ =~= seq!['['] + joined(texts_of(parts@).subrange(0, 0)));
    }
    while i < parts.len()
        invariant
            i <= parts@.len(),
            result@ == seq!['['] + joined(texts_of(parts@).subrange(0, i as int)),
        decreases parts@.len() - i,
    {
        let ghost before = texts_of(parts@).subrange(0, i as int);
        let ghost after = texts_of(parts@).subrange(0, i + 1);
        proof {
            reveal_strlit(", ");
            assert(after.drop_last() =~= before);
            assert(after.last() == parts@[i as int]@);
        }
        if i > 0 {
            push_text(&mut result, ", ");
        }
        push_text(&mut result, parts[i].as_str());
        proof {
            if i == 0 {
                assert(joined(before) =~= Seq::<char>::empty());
                assert(result@ =~= seq!['['] + joined(after));
            } else {
                assert(", "@ =~= seq![',', ' ']);
                assert(result@ =~= seq!['['] + joined(after));
            }
        }
        i += 1;
    }
    push_text(&mut result, "]");
    proof {
        assert(texts_of(parts@).subrange(0, parts@.len() as int) =~= texts_of(parts@));
    }
    result
}

/// A type behaving like a sequence over the type `Item`.
pub trait Sequence<Item, Subsequence: ?Sized> {
    /// The items of the sequence, in their order.
    spec fn items(&self) -> Seq<Item>;

    /// The items of a part of the sequence, in their order.
    spec fn items_of(part: &Subsequence) -> Seq<Item>;

    /// Returns the length of the sequence.
    fn len(&self) -> (r: usize)
        ensures
            r == self.items().len(),
    ;

    /// Returns the item at the given index.
    fn item(&self, index: usize) -> (r: &Item)
        requires
            index < self.items().len(),
        ensures
            *r == self.items()[index as int],
    ;

    /// Returns the part of the sequence from the index `start` up to, and
    /// without, the index `end`.
    fn subsequence(&self, start: usize, end: usize) -> (r: &Subsequence)
        requires
            start <= end <= self.items().len(),
        ensures
            Self::items_of(r) == self.items().subrange(start as int, end as int),
    ;

    /// Returns a prefix with length `len` of this sequence.
    fn prefix(&self, len: usize) -> (r: &Subsequence)
        requires
            len < self.items().len(),
        ensures
            Self::items_of(r) == self.items().subrange(0, len as int),
    {
        self.subsequence(0, len)
    }

    /// Returns a suffix with length `len` of this sequence.
    fn suffix(&self, len: usize) -> (r: &Subsequence)
        requires
            len < self.items().len(),
        ensures
            Self::items_of(r) == self.items().subrange(self.items().len() - len, self.items().len() as int),
    {
        self.subsequence(self.len() - len, self.len())
    }

    /// Returns references to the items of the sequence, in their order.
    fn iter(&self) -> (r: Vec<&Item>)
        ensures
            referenced(r@) == self.items(),
    {
        let mut r: Vec<&Item> = Vec::new();
        let mut i: usize = 0;
        let len = self.len();
        while i < len
            invariant
                i <= len,
                len == self.items().len(),
                referenced(r@) == self.items().subrange(0, i as int),
            decreases len - i,
        {
            let ghost before = r@;
            let reference = self.item(i);
            r.push(reference);
            proof {
                assert(r@ == before.push(reference));
                assert(referenced(r@) =~= referenced(before).push(*reference));
                assert(self.items().subrange(0, i as int).push(self.items()[i as int])
                    =~= self.items().subrange(0, i + 1));
            }
            i += 1;
        }
        proof {
            assert(self.items().subrange(0, len as int) =~= self.items());
        }
        r
    }

    /// Returns true if the sequence is empty.
    fn is_empty(&self) -> (r: bool)
        ensures
            r == (self.items().len() == 0),
    {
        self.len() == 0
    }

    /// Returns the first item of the sequence.
    fn first(&self) -> (r: Option<&Item>)
        ensures
            self.items().len() == 0 ==> r.is_none(),
            self.items().len() > 0 ==> r.is_some() && *r.unwrap() == self.items()[0],
    {
        if self.len() == 0 {
            None
        } else {
            Some(self.item(0))
        }
    }

    /// Returns the last item of the sequence.
    fn last(&self) -> (r: Option<&Item>)
        ensures
            self.items().len() == 0 ==> r.is_none(),
            self.items().len() > 0 ==> r.is_some() && *r.unwrap() == self.items().last(),
    {
        if self.len() == 0 {
            None
        } else {
            Some(self.item(self.len() - 1))
        }
    }

    /// Returns true if this is a proper subsequence of the given sequence.
    /// Proper means that the sequences are not equal.
    fn is_proper_subsequence_of(&self, other: &Self) -> (r: bool) where Item: PartialEq
        requires
            Item::obeys_eq_spec(),
        ensures
            r == (self.items().len() < other.items().len() && exists|start: int|
                occurs_at(self.items(), other.items(), start)),
    {
        if self.len() >= other.len() {
            return false;
        }
        let own_len = self.len();
        let other_len = other.len();
        let last_start = other_len - own_len;
        let mut start_index: usize = 0;
        loop
            invariant
                own_len == self.items().len(),
                other_len == other.items().len(),
                own_len < other_len,
                last_start == other_len - own_len,
                start_index <= last_start,
                Item::obeys_eq_spec(),
                forall|start: int| 0 <= start < start_index ==> !occurs_at(self.items(), other.items(), start),
            decreases last_start - start_index,
        {
            let mut found_subsequence = true;
            let mut index: usize = 0;
            while found_subsequence && index < own_len
                invariant
                    own_len == self.items().len(),
                    other_len == other.items().len(),
                    last_start == other_len - own_len,
                    start_index <= last_start,
                    index <= own_len,
                    Item::obeys_eq_spec(),
                    found_subsequence ==> forall|i: int|
                        0 <= i < index ==> (#[trigger] self.items()[i]).eq_spec(
                            &other.items()[start_index + i],
                        ),
                    !found_subsequence ==> !occurs_at(self.items(), other.items(), start_index as int),
                decreases
                        (if found_subsequence {
                            1 + own_len - index
                        } else {
                            0
                        }),
            {
                if self.item(index) != other.item(start_index + index) {
                    found_subsequence = false;
                    proof {
                        assert(!self.items()[index as int].eq_spec(&other.items()[start_index + index]));
                    }
                } else {
                    index += 1;
                }
            }
            if found_subsequence {
                proof {
                    assert(occurs_at(self.items(), other.items(), start_index as int));
                }
                return true;
            }
            if start_index == last_start {
                proof {
                    assert forall|start: int| !occurs_at(self.items(), other.items(), start) by {}
                }
                return false;
            }
            start_index += 1;
        }
    }

    /// Returns true if this sequence contains the given item.
    fn contains(&self, item: &Item) -> (r: bool) where Item: PartialEq
        requires
            Item::obeys_eq_spec(),
        ensures
            r == exists|i: int| 0 <= i < self.items().len() && item.eq_spec(&#[trigger] self.items()[i]),
    {
        let len = self.len();
        let mut i: usize = 0;
        while i < len
            invariant
                i <= len,
                len == self.items().len(),
                Item::obeys_eq_spec(),
                forall|j: int| 0 <= j < i ==> !item.eq_spec(&#[trigger] self.items()[j]),
            decreases len - i,
        {
            if item == self.item(i) {
                return true;
            }
            i += 1;
        }
        false
    }

    /// Returns this sequence merged before the given other sequence under the assumption that the sequences can be merged this way.
    /// A merge is possible if a non-empty suffix of this sequence equals a non-empty prefix of the other sequence.
    ///
    /// The other sequence must not be empty, and this sequence must contain
    /// its first item. The result is this sequence, followed by the other
    /// sequence without as many items as this sequence has from the first
    /// occurrence of that item on.
    fn forward_merge_iter_assume_mergeable<'a>(&'a self, suffix: &'a Self) -> (r: Vec<&'a Item>) where
        Item: PartialEq,

        requires
            Item::obeys_eq_spec(),
            suffix.items().len() > 0,
            exists|index: int| first_place_of(self.items(), suffix.items()[0], index),
        ensures
            forall|index: int|
                first_place_of(self.items(), suffix.items()[0], index) ==> referenced(r@) == self.items()
                    + skipped(suffix.items(), self.items().len() - index),
    {
        let first_of_suffix = suffix.item(0);
        let len = self.len();
        let mut first_item_index: usize = 0;
        while first_item_index < len && self.item(first_item_index) != first_of_suffix
            invariant
                first_item_index <= len,
                len == self.items().len(),
                Item::obeys_eq_spec(),
                suffix.items().len() > 0,
                *first_of_suffix == suffix.items()[0],
                forall|i: int|
                    0 <= i < first_item_index ==> !(#[trigger] self.items()[i]).eq_spec(
                        &suffix.items()[0],
                    ),
            decreases len - first_item_index,
        {
            first_item_index += 1;
        }
        proof {
            let index = choose|index: int| first_place_of(self.items(), suffix.items()[0], index);
            assert(first_item_index < len) by {
                if first_item_index >= len {
                    assert(!self.items()[index].eq_spec(&suffix.items()[0]));
                }
            }
            assert(first_place_of(self.items(), suffix.items()[0], first_item_index as int));
            assert forall|other: int|
                first_place_of(self.items(), suffix.items()[0], other) implies other
                == first_item_index by {
                if other < first_item_index {
                    assert(!self.items()[other].eq_spec(&suffix.items()[0]));
                } else if first_item_index < other {
                    assert(!self.items()[first_item_index as int].eq_spec(&suffix.items()[0]));
                }
            }
        }
        let mut r = self.iter();
        let skip = len - first_item_index;
        let suffix_len = suffix.len();
        let start = if skip > suffix_len {
            suffix_len
        } else {
            skip
        };
        let mut i: usize = start;
        proof {
            assert(self.items() + suffix.items().subrange(start as int, start as int) =~= self.items());
        }
        while i < suffix_len
            invariant
                start <= i <= suffix_len,
                suffix_len == suffix.items().len(),
                referenced(r@) == self.items() + suffix.items().subrange(start as int, i as int),
            decreases suffix_len - i,
        {
            let ghost before = r@;
            let reference = suffix.item(i);
            r.push(reference);
            proof {
                assert(r@ == before.push(reference));
                assert(referenced(r@) =~= referenced(before).push(*reference));
                assert((self.items() + suffix.items().subrange(start as int, i as int)).push(
                    suffix.items()[i as int],
                ) =~= self.items() + suffix.items().subrange(start as int, i + 1));
            }
            i += 1;
        }
        proof {
            assert(suffix.items().subrange(start as int, suffix_len as int) =~= skipped(
                suffix.items(),
                skip as int,
            ));
        }
        r
    }

    /// Returns this sequence merged after the given other sequence under the assumption that the sequences can be merged this way.
    /// A merge is possible if a non-empty prefix of this sequence equals a non-empty suffix of the other sequence.
    ///
    /// This sequence must not be empty, and the other sequence must contain
    /// its first item.
    fn backward_merge_iter_assume_mergeable<'a>(&'a self, suffix: &'a Self) -> (r: Vec<&'a Item>) where
        Item: PartialEq,

        requires
            Item::obeys_eq_spec(),
            self.items().len() > 0,
            exists|index: int| first_place_of(suffix.items(), self.items()[0], index),
        ensures
            forall|index: int|
                first_place_of(suffix.items(), self.items()[0], index) ==> referenced(r@)
                    == suffix.items() + skipped(self.items(), suffix.items().len() - index),
    {
        suffix.forward_merge_iter_assume_mergeable(self)
    }

    /// Converts the sequence to a string using the debug formatting of the items:
    /// the texts of the items joined by a comma and a space, in square brackets.
    fn to_debug_string(&self) -> (r: String) where Item: core::fmt::Debug
        ensures
            exists|parts: Seq<Seq<char>>| parts.len() == self.items().len() && r@ == #[trigger] bracketed(parts),
    {
        let mut parts: Vec<String> = Vec::new();
        let len = self.len();
        let mut i: usize = 0;
        while i < len
            invariant
                i <= len,
                len == self.items().len(),
                parts@.len() == i,
            decreases len - i,
        {
            parts.push(debug_text(self.item(i)));
            i += 1;
        }
        bracketed_text(&parts)
    }
}

impl<Item> Sequence<Item, [Item]> for Vec<Item> {
    open spec fn items(&self) -> Seq<Item> {
        self@
    }

    open spec fn items_of(part: &[Item]) -> Seq<Item> {
        part@
    }

    fn len(&self) -> (r: usize) {
        Vec::len(self)
    }

    fn item(&self, index: usize) -> (r: &Item) {
        &self[index]
    }

    fn subsequence(&self, start: usize, end: usize) -> (r: &[Item]) {
        let slice = self.as_slice();
        &slice[start..end]
    }
}

impl<Item> Sequence<Item, [Item]> for [Item] {
    open spec fn items(&self) -> Seq<Item> {
        self@
    }

    open spec fn items_of(part: &[Item]) -> Seq<Item> {
        part@
    }

    fn len(&self) -> (r: usize) {
        <[Item]>::len(self)
    }

    fn item(&self, index: usize) -> (r: &Item) {
        &self[index]
    }

    fn subsequence(&self, start: usize, end: usize) -> (r: &[Item]) {
        &self[start..end]
    }
}

/// A type behaving like a mutable sequence over the type `Item`.
///
/// That is, its items can be mutated, but the sequence it self can not.
/// For a sequence where items can be appended, rearranged etc. see [EditableSequence].
pub trait SequenceMut<Item, Subsequence: ?Sized>: Sequence<Item, Subsequence> {
    /// Returns the item at the given index as mutable reference.
    fn item_mut(&mut self, index: usize) -> (r: &mut Item)
        requires
            index < old(self).items().len(),
        ensures
            *r == old(self).items()[index as int],
            final(self).items() == old(self).items().update(index as int, *final(r)),
    ;
}

/// A type behaving like an owned sequence over the type `Item`.
/// Currently this only means the sequence is `Sized`.
pub trait OwnedSequence<Item, Subsequence: ?Sized>: Sequence<Item, Subsequence> + Sized {

}

/// A type behaving like an cloneable sequence over the type `Item`.
pub trait CloneableSequence<Item: Clone, Subsequence: ?Sized> {

}

/// The sequence without the items from the index `start` up to, and without,
/// the index `end`.
pub open spec fn without_range<Item>(items: Seq<Item>, start: int, end: int) -> Seq<Item> {
    items.subrange(0, start) + items.subrange(end, items.len() as int)
}

/// A type behaving like a sequence over the type `Item` that can be edited.
///
/// This sequences items can not necessarily be mutated themselves, but they can be rearranged or new items can be appended etc.
/// For a sequence where the items themselves can be mutated, see [SequenceMut].
pub trait EditableSequence<Item, Subsequence: ?Sized>: Sequence<Item, Subsequence> + Sized {
    /// Replace the item at the given index with the given item.
    fn set(&mut self, index: usize, item: Item)
        requires
            index < old(self).items().len(),
        ensures
            final(self).items() == old(self).items().update(index as int, item),
    ;

    /// See [Vec::split_off].
    fn split_off(&mut self, at: usize) -> (r: Self)
        requires
            at <= old(self).items().len(),
        ensures
            final(self).items() == old(self).items().subrange(0, at as int),
            r.items() == old(self).items().subrange(at as int, old(self).items().len() as int),
    ;

    /// Extend this sequence by the given items.
    fn extend_into(&mut self, extension: Vec<Item>)
        ensures
            final(self).items() == old(self).items() + extension@,
    ;

    /// Reserve memory for at least `additional` items.
    fn reserve(&mut self, additional: usize)
        ensures
            final(self).items() == old(self).items(),
    ;

    /// Resize to contain the given number of items.
    /// Empty spaces are filled with the given item.
    fn resize(&mut self, new_len: usize, value: Item) where Item: Copy
        ensures
            final(self).items().len() == new_len,
            forall|i: int|
                0 <= i < new_len ==> #[trigger] final(self).items()[i] == (if i < old(self).items().len() {
                    old(self).items()[i]
                } else {
                    value
                }),
    ;

    /// Shorten to the given number of items, if there are more.
    fn truncate(&mut self, new_len: usize)
        ensures
            new_len <= old(self).items().len() ==> final(self).items() == old(self).items().subrange(
                0,
                new_len as int,
            ),
            new_len > old(self).items().len() ==> final(self).items() == old(self).items(),
    ;

    /// Insert the given item at the end of the sequence.
    fn push(&mut self, item: Item)
        ensures
            final(self).items() == old(self).items().push(item),
    ;

    /// Delete the items in the specified range.
    fn delete(&mut self, range: core::ops::Range<usize>) where Item: Copy
        requires
            range.start <= range.end <= old(self).items().len(),
        ensures
            final(self).items() == without_range(old(self).items(), range.start as int, range.end as int),
    {
        if range.start < range.end {
            let width = range.end - range.start;
            let len = self.len();
            let mut index: usize = range.start;
            while index < len - width
                invariant
                    range.start <= index <= len - width,
                    width == range.end - range.start,
                    range.end <= len,
                    self.items().len() == len,
                    len == old(self).items().len(),
                    forall|i: int|
                        0 <= i < len ==> #[trigger] self.items()[i] == (if range.start <= i < index {
                            old(self).items()[i + width]
                        } else {
                            old(self).items()[i]
                        }),
                decreases len - width - index,
            {
                let item = *self.item(index + width);
                self.set(index, item);
                index += 1;
            }
            self.truncate(len - width);
        }
        proof {
            assert(self.items() =~= without_range(old(self).items(), range.start as int, range.end as int));
        }
    }

    /// Insert a repeat at `target` that consists of the cloned items in `source_range`.
    ///
    /// Only an empty source range is within the contract. The sequence is
    /// then left as it is.
    fn insert_repeat(&mut self, source_range: core::ops::Range<usize>, target: usize) where Item: Copy
        requires
            source_range.start == source_range.end,
            source_range.end <= old(self).items().len(),
        ensures
            final(self).items() == old(self).items(),
    {
    }

    /// See [`Vec::splice`].
    ///
    /// This definition does not return the removed items.
    fn splice(&mut self, range: core::ops::Range<usize>, replace_with: Vec<Item>)
        requires
            range.start <= range.end <= old(self).items().len(),
        ensures
            final(self).items() == old(self).items().subrange(0, range.start as int) + replace_with@
                + old(self).items().subrange(range.end as int, old(self).items().len() as int),
    ;
}

impl<Item> SequenceMut<Item, [Item]> for Vec<Item> {
    fn item_mut(&mut self, index: usize) -> (r: &mut Item) {
        &mut self[index]
    }
}

impl<Item> SequenceMut<Item, [Item]> for [Item] {
    fn item_mut(&mut self, index: usize) -> (r: &mut Item) {
        &mut self[index]
    }
}

impl<Item> OwnedSequence<Item, [Item]> for Vec<Item> {

}

impl<Item: Clone> CloneableSequence<Item, [Item]> for Vec<Item> {

}

impl<Item: Clone> CloneableSequence<Item, [Item]> for [Item] {

}

impl<Item> EditableSequence<Item, [Item]> for Vec<Item> {
    fn set(&mut self, index: usize, item: Item) {
        self[index] = item;
    }

    fn split_off(&mut self, at: usize) -> (r: Self) {
        Vec::split_off(self, at)
    }

    fn extend_into(&mut self, extension: Vec<Item>) {
        let mut extension = extension;
        self.append(&mut extension);
    }

    fn reserve(&mut self, additional: usize) {
        Vec::reserve(self, additional);
    }

    fn resize(&mut self, new_len: usize, value: Item) where Item: Copy {
        Vec::truncate(self, new_len);
        while Vec::len(self) < new_len
            invariant
                self@.len() <= new_len,
                old(self)@.len() <= new_len ==> self@.len() >= old(self)@.len(),
                old(self)@.len() > new_len ==> self@.len() == new_len,
                forall|i: int|
                    0 <= i < self@.len() ==> #[trigger] self@[i] == (if i < old(self)@.len() {
                        old(self)@[i]
                    } else {
                        value
                    }),
            decreases new_len - self@.len(),
        {
            Vec::push(self, value);
        }
    }

    fn truncate(&mut self, new_len: usize) {
        Vec::truncate(self, new_len);
    }

    fn push(&mut self, item: Item) {
        Vec::push(self, item)
    }

    fn splice(&mut self, range: core::ops::Range<usize>, replace_with: Vec<Item>) {
        let ghost inserted = replace_with@;
        let mut replace_with = replace_with;
        let mut tail = Vec::split_off(self, range.end);
        Vec::truncate(self, range.start);
        self.append(&mut replace_with);
        self.append(&mut tail);
        proof {
            assert(self@ =~= old(self)@.subrange(0, range.start as int) + inserted + old(self)@.subrange(
                range.end as int,
                old(self)@.len() as int,
            ));
        }
    }
}

} // verus!
