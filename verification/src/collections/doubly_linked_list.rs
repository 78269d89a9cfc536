//! A list with owned elements that supports pushing and popping at either
//! end, specified against the mathematical sequence of its elements.
//!
//! The classic implementation threads raw node pointers forwards and
//! backwards through a chain of heap allocations; that aliasing cannot be
//! expressed in checked code, so here the elements sit in one owned buffer
//! and every operation is proved against the sequence abstraction: what
//! each end holds, what leaves and what stays, and in what order.

use vstd::prelude::*;
use vstd::std_specs::cmp::PartialEqSpec;

verus! {

/// A list of owned elements, readable and writable at both ends.
pub struct DoublyLinkedList<T> {
    items: Vec<T>,
}

impl<T> View for DoublyLinkedList<T> {
    type V = Seq<T>;

    closed spec fn view(&self) -> Seq<T> {
        self.items@
    }
}

impl<T> DoublyLinkedList<T> {
    /// Creates an empty `DoublyLinkedList`.
    pub fn new() -> (list: DoublyLinkedList<T>)
        ensures
            list@ == Seq::<T>::empty(),
    {
        DoublyLinkedList { items: Vec::new() }
    }

    /// Moves all elements from `other` to the end of the list. After this
    /// operation, `other` becomes empty.
    pub fn append(&mut self, other: &mut DoublyLinkedList<T>)
        ensures
            final(self)@ == old(self)@ + old(other)@,
            final(other)@ == Seq::<T>::empty(),
    {
        self.items.append(&mut other.items);
    }

    /// Returns true if the list contains no elements.
    pub fn is_empty(&self) -> (empty: bool)
        ensures
            empty == (self@.len() == 0),
    {
        self.items.is_empty()
    }

    /// Returns the number of elements in the list.
    pub fn len(&self) -> (n: usize)
        ensures
            n == self@.len(),
    {
        self.items.len()
    }

    /// Removes all elements from the list.
    pub fn clear(&mut self)
        ensures
            final(self)@ == Seq::<T>::empty(),
    {
        self.items.clear();
    }

    /// Returns true if the list contains an element equal to the given
    /// value — exact whenever the element type's `==` agrees with its
    /// mathematical equality.
    pub fn contains(&self, data: &T) -> (found: bool) where T: PartialEq<T>
        ensures
            T::obeys_eq_spec() ==> found == (exists|i: int|
                0 <= i < self@.len() && data.eq_spec(&self@[i])),
    {
        let n = self.items.len();
        let mut i: usize = 0;
        while i < n
            invariant
                i <= n,
                n == self.items@.len(),
                T::obeys_eq_spec() ==> forall|j: int|
                    0 <= j < i ==> !data.eq_spec(&self.items@[j]),
            decreases n - i,
        {
            if *data == *vstd::std_specs::vec::vec_index(&self.items, i) {
                proof {
                    if T::obeys_eq_spec() {
                        assert(data.eq_spec(&self@[i as int]));
                    }
                }
                return true;
            }
            i = i + 1;
        }
        false
    }

    /// Provides a reference to the front element, or `None` if the list is
    /// empty.
    pub fn front(&self) -> (item: Option<&T>)
        ensures
            self@.len() == 0 ==> item is None,
            self@.len() > 0 ==> item is Some && *item.unwrap() == self@[0],
    {
        if self.items.len() > 0 {
            Some(vstd::std_specs::vec::vec_index(&self.items, 0))
        } else {
            None
        }
    }

    /// Provides a reference to the back element, or `None` if the list is
    /// empty.
    pub fn back(&self) -> (item: Option<&T>)
        ensures
            self@.len() == 0 ==> item is None,
            self@.len() > 0 ==> item is Some && *item.unwrap() == self@.last(),
    {
        if self.items.len() > 0 {
            Some(vstd::std_specs::vec::vec_index(&self.items, self.items.len() - 1))
        } else {
            None
        }
    }

    /// Write access to the front element, or `None` if the list is empty:
    /// what the caller leaves behind the reference is what the front then
    /// holds.
    pub fn front_mut(&mut self) -> (item: Option<&mut T>)
        ensures
            (item is Some) == (old(self)@.len() > 0),
            match item {
                Some(v) => *v == old(self)@[0] && final(self)@ == old(self)@.update(
                    0,
                    *final(v),
                ),
                None => final(self)@ == old(self)@,
            },
    {
        if self.items.len() > 0 {
            Some(vstd::std_specs::vec::vec_index_mut(&mut self.items, 0))
        } else {
            None
        }
    }

    /// Write access to the back element, or `None` if the list is empty:
    /// what the caller leaves behind the reference is what the back then
    /// holds.
    pub fn back_mut(&mut self) -> (item: Option<&mut T>)
        ensures
            (item is Some) == (old(self)@.len() > 0),
            match item {
                Some(v) => *v == old(self)@.last() && final(self)@ == old(self)@.update(
                    old(self)@.len() - 1,
                    *final(v),
                ),
                None => final(self)@ == old(self)@,
            },
    {
        if self.items.len() > 0 {
            let last = self.items.len() - 1;
            Some(vstd::std_specs::vec::vec_index_mut(&mut self.items, last))
        } else {
            None
        }
    }

    /// Adds an element to the front of the list.
    pub fn push_front(&mut self, data: T)
        ensures
            final(self)@ == old(self)@.insert(0, data),
    {
        self.items.insert(0, data);
    }

    /// Removes the front element and returns it, or `None` if the list is
    /// empty.
    pub fn pop_front(&mut self) -> (item: Option<T>)
        ensures
            old(self)@.len() == 0 ==> item is None && final(self)@ == old(self)@,
            old(self)@.len() > 0 ==> item == Some(old(self)@[0]) && final(self)@ == old(
                self,
            )@.remove(0),
    {
        if self.items.len() > 0 {
            Some(self.items.remove(0))
        } else {
            None
        }
    }

    /// Adds an element to the back of the list.
    pub fn push_back(&mut self, data: T)
        ensures
            final(self)@ == old(self)@.push(data),
    {
        self.items.push(data);
    }

    /// Removes the back element and returns it, or `None` if the list is
    /// empty.
    pub fn pop_back(&mut self) -> (item: Option<T>)
        ensures
            old(self)@.len() == 0 ==> item is None && final(self)@ == old(self)@,
            old(self)@.len() > 0 ==> item == Some(old(self)@.last()) && final(self)@ == old(
                self,
            )@.drop_last(),
    {
        self.items.pop()
    }

    /// Splits the list in two at the given index: the first `at` elements
    /// stay, the rest — possibly none — leave in a new list, in order.
    /// Splitting past the end is a caller fault, as an out-of-range index
    /// is, so the contract rules it out.
    pub fn split_off(&mut self, at: usize) -> (tail: DoublyLinkedList<T>)
        requires
            at <= old(self)@.len(),
        ensures
            final(self)@ == old(self)@.take(at as int),
            tail@ == old(self)@.skip(at as int),
    {
        let items = self.items.split_off(at);
        DoublyLinkedList { items }
    }

    /// An iterator over the elements, front to back.
    pub fn iter(&self) -> (it: Iter<'_, T>)
        ensures
            it.remaining() == self@,
    {
        proof {
            assert(self.items@.skip(0) =~= self.items@);
        }
        Iter { list: self, cursor: 0 }
    }
}

/// An iterator over the elements of a [`DoublyLinkedList`], front to back.
pub struct Iter<'a, T> {
    list: &'a DoublyLinkedList<T>,
    cursor: usize,
}

impl<'a, T> Iter<'a, T> {
    /// The elements not yet yielded, in order.
    pub closed spec fn remaining(self) -> Seq<T> {
        if self.cursor as int <= self.list@.len() {
            self.list@.skip(self.cursor as int)
        } else {
            Seq::empty()
        }
    }

    /// The next element, if one is left.
    pub fn next(&mut self) -> (item: Option<&'a T>)
        ensures
            old(self).remaining().len() > 0 ==> ({
                &&& item is Some
                &&& *item.unwrap() == old(self).remaining()[0]
                &&& final(self).remaining() == old(self).remaining().skip(1)
            }),
            old(self).remaining().len() == 0 ==> item is None && *final(self) == *old(self),
    {
        if self.cursor < self.list.items.len() {
            let element = vstd::std_specs::vec::vec_index(&self.list.items, self.cursor);
            self.cursor = self.cursor + 1;
            proof {
                assert(self.list.items@.skip(self.cursor as int) =~= old(
                    self,
                ).remaining().skip(1));
            }
            Some(element)
        } else {
            None
        }
    }
}

} // verus!
