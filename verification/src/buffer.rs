//! A bounded sequence of at most `N` items.

use vstd::prelude::*;
use crate::piece::Piece;

verus! {

/// A sequence of items; `push` and `insert` refuse to grow it past `N`.
#[derive(Clone, Debug)]
pub struct Buffer<T, const N: usize> {
    data: Vec<T>,
}

impl<T, const N: usize> View for Buffer<T, N> {
    type V = Seq<T>;

    closed spec fn view(&self) -> Seq<T> {
        self.data@
    }
}

impl<T, const N: usize> Buffer<T, N> {
    /// Creates an empty buffer.
    pub fn new() -> (b: Self)
        ensures
            b@ == Seq::<T>::empty(),
    {
        Buffer { data: Vec::new() }
    }

    /// Appends `value` at the end.
    pub fn push(&mut self, value: T)
        requires
            old(self)@.len() < N,
        ensures
            final(self)@ == old(self)@.push(value),
    {
        self.data.push(value);
    }

    /// Returns the item at `index`, if there is one.
    pub fn get(&self, index: usize) -> (r: Option<&T>)
        ensures
            index < self@.len() ==> r == Some(&self@[index as int]),
            index >= self@.len() ==> r is None,
    {
        if index < self.data.len() {
            Some(&self.data[index])
        } else {
            None
        }
    }

    /// Returns the item at `index`.
    pub fn index(&self, index: usize) -> (r: &T)
        requires
            index < self@.len(),
        ensures
            *r == self@[index as int],
    {
        &self.data[index]
    }

    /// Removes and returns the item at `index`, shifting later items down.
    pub fn remove(&mut self, index: usize) -> (r: Option<T>)
        ensures
            index < old(self)@.len() ==> r == Some(old(self)@[index as int]) && final(self)@ == old(self)@.remove(index as int),
            index >= old(self)@.len() ==> r is None && final(self)@ == old(self)@,
    {
        if index < self.data.len() {
            Some(self.data.remove(index))
        } else {
            None
        }
    }

    /// Returns the number of items.
    pub fn len(&self) -> (r: usize)
        ensures
            r == self@.len(),
    {
        self.data.len()
    }

    /// Returns whether the buffer holds no item.
    pub fn is_empty(&self) -> (r: bool)
        ensures
            r == (self@.len() == 0),
    {
        self.data.len() == 0
    }

    /// Removes and returns the last item, if any.
    pub fn pop(&mut self) -> (r: Option<T>)
        ensures
            old(self)@.len() > 0 ==> r == Some(old(self)@.last()) && final(self)@ == old(self)@.drop_last(),
            old(self)@.len() == 0 ==> r is None && final(self)@ == old(self)@,
    {
        self.data.pop()
    }

    /// Inserts `value` at `index`, shifting later items up.
    pub fn insert(&mut self, index: usize, value: T)
        requires
            old(self)@.len() < N,
            index <= old(self)@.len(),
        ensures
            final(self)@ == old(self)@.insert(index as int, value),
    {
        self.data.insert(index, value);
    }

    /// The items in order, as a slice.
    pub fn as_slice(&self) -> (r: &[T])
        ensures
            r@ == self@,
    {
        self.data.as_slice()
    }
}

/// Pushing and then reading the last position gives back the pushed item;
/// removing the first item of a pushed-to buffer drops exactly that item.
pub proof fn law_buffer_push_get<T>(s: Seq<T>, v: T)
    ensures
        s.push(v)[s.len() as int] == v,
        s.push(v).len() == s.len() + 1,
        s.push(v).drop_last() == s,
        s.len() > 0 ==> s.push(v).remove(0) == s.remove(0).push(v),
{
    assert(s.push(v).drop_last() =~= s);
    if s.len() > 0 {
        assert(s.push(v).remove(0) =~= s.remove(0).push(v));
    }
}

/// Inserting an item and then removing it at the same position gives back
/// the item and the buffer as it was.
pub proof fn law_buffer_insert_remove<T>(s: Seq<T>, i: int, v: T)
    requires
        0 <= i <= s.len(),
    ensures
        s.insert(i, v)[i] == v,
        s.insert(i, v).remove(i) == s,
{
    assert(s.insert(i, v).remove(i) =~= s);
}

impl<T: Copy, const N: usize> Buffer<T, N> {
    /// A copy of the buffer, item by item.
    pub fn copied(&self) -> (r: Self)
        ensures
            r@ == self@,
    {
        let mut data: Vec<T> = Vec::new();
        let mut i: usize = 0;
        while i < self.data.len()
            invariant
                i <= self.data@.len(),
                data@ == self.data@.take(i as int),
            decreases self.data@.len() - i,
        {
            data.push(self.data[i]);
            assert(data@ =~= self.data@.take(i as int + 1));
            i += 1;
        }
        assert(self.data@.take(self.data@.len() as int) =~= self.data@);
        Buffer { data }
    }
}

impl<const N: usize> Buffer<Piece, N> {
    /// Whether two buffers of pieces hold the same pieces in the same
    /// order.
    pub fn same_as(&self, other: &Self) -> (r: bool)
        ensures
            r == (self@ == other@),
    {
        if self.data.len() != other.data.len() {
            return false;
        }
        let mut i: usize = 0;
        while i < self.data.len()
            invariant
                self.data@.len() == other.data@.len(),
                i <= self.data@.len(),
                forall|k: int| 0 <= k < i ==> self.data@[k] == other.data@[k],
            decreases self.data@.len() - i,
        {
            if self.data[i] != other.data[i] {
                return false;
            }
            i += 1;
        }
        assert(self.data@ =~= other.data@);
        true
    }
}

} // verus!
