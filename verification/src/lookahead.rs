//! Lookahead: whether the next items of a sequence are a given pattern.

use vstd::prelude::*;
use vstd::std_specs::cmp::PartialEqSpec;

verus! {

/// A place in a sequence of items: it yields the items behind it one by one.
/// A copy is a place of its own: to advance the copy leaves the cursor that it
/// was made from where it was.
pub struct Cursor<'a, T> {
    rest: &'a [T],
}

impl<'a, T> Clone for Cursor<'a, T> {
    fn clone(&self) -> (copy: Self)
        ensures
            copy == *self,
    {
        Cursor { rest: self.rest }
    }
}

impl<'a, T> Copy for Cursor<'a, T> {

}

/// Whether `upcoming` begins with `pattern`: it has an item for each item of
/// the pattern, and each equals the item of the pattern at its place.
pub open spec fn begins_with<T: PartialEq>(upcoming: Seq<T>, pattern: Seq<T>) -> bool {
    &&& pattern.len() <= upcoming.len()
    &&& forall|i: int| 0 <= i < pattern.len() ==> (#[trigger] upcoming[i]).eq_spec(&pattern[i])
}

impl<'a, T> Cursor<'a, T> {
    /// The items that the cursor has yet to yield, in order.
    pub closed spec fn upcoming(&self) -> Seq<T> {
        self.rest@
    }

    /// A cursor before the first item of `items`.
    pub fn new(items: &'a [T]) -> (cursor: Self)
        ensures
            cursor.upcoming() == items@,
    {
        Cursor { rest: items }
    }

    /// Yields the next item and moves behind it, or yields nothing and stays
    /// where no item is left.
    pub fn next(&mut self) -> (item: Option<&'a T>)
        ensures
            old(self).upcoming().len() == 0 ==> item is None && *final(self) == *old(self),
            old(self).upcoming().len() > 0 ==> item == Some(&old(self).upcoming()[0])
                && final(self).upcoming() == old(self).upcoming().drop_first(),
    {
        let rest = self.rest;
        if rest.len() == 0 {
            None
        } else {
            self.rest = &rest[1..rest.len()];
            Some(&rest[0])
        }
    }
}

/// Fixed-length lookahead from a place in a sequence.
pub trait MultiPeekCheckExt<'a, T: 'a>: Sized {
    /// The items that lie ahead, in order.
    spec fn ahead(&self) -> Seq<T>;

    /// Tells whether the next items are those of `pattern`, in order and equal
    /// by value, and leaves the cursor where it was. An empty pattern always
    /// matches; a pattern longer than what lies ahead never does.
    fn multi_peek_check(&mut self, pattern: &[T]) -> (matched: bool) where T: PartialEq
        ensures
            *final(self) == *old(self),
            T::obeys_eq_spec() ==> matched == begins_with(old(self).ahead(), pattern@),
            pattern@.len() == 0 ==> matched,
            pattern@.len() > old(self).ahead().len() ==> !matched,
    ;
}

impl<'a, T> MultiPeekCheckExt<'a, T> for Cursor<'a, T> {
    open spec fn ahead(&self) -> Seq<T> {
        self.upcoming()
    }

    fn multi_peek_check(&mut self, pattern: &[T]) -> (matched: bool) where T: PartialEq {
        let mut copy = self.clone();
        let mut i: usize = 0;
        while i < pattern.len()
            invariant
                i <= pattern@.len(),
                i <= self.upcoming().len(),
                copy.upcoming() == self.upcoming().skip(i as int),
                T::obeys_eq_spec() ==> forall|j: int|
                    0 <= j < i ==> (#[trigger] self.upcoming()[j]).eq_spec(&pattern@[j]),
            decreases pattern@.len() - i,
        {
            match copy.next() {
                Some(actual) => {
                    if *actual == pattern[i] {
                        i += 1;
                    } else {
                        return false;
                    }
                },
                None => {
                    return false;
                },
            }
        }
        true
    }
}

} // verus!
