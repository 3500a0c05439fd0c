use vstd::prelude::*;

use crate::Error;

verus! {

/// A last-in first-out stack that may refuse a push when it is full.
pub trait Stack<T>: Sized {
    /// The items from the bottom of the stack to its top.
    spec fn items(&self) -> Seq<T>;

    /// How many items the stack can hold.
    spec fn capacity() -> nat;


    /// The invariant of the implementation.
    spec fn wf(&self) -> bool;

    fn new() -> (r: Self)
        ensures
            r.wf(),
            r.items() == Seq::<T>::empty(),
    ;

    /// A well-formed stack never holds more than its capacity.
    proof fn lemma_within_capacity(&self)
        requires
            self.wf(),
        ensures
            self.items().len() <= Self::capacity(),
    ;

    /// Pushes `item`; fails with `OutOfStackSpace`, leaving the stack as it is,
    /// when the stack is full.
    fn try_push(&mut self, item: T) -> (r: Result<(), Error>)
        requires
            old(self).wf(),
        ensures
            final(self).wf(),
            old(self).items().len() >= Self::capacity() ==> r == Err::<(), Error>(Error::OutOfStackSpace) && final(self).items() == old(self).items(),
            old(self).items().len() < Self::capacity() ==> r is Ok && final(self).items() == old(self).items().push(item),
    ;

    /// Removes and returns the top item, or `None` when the stack is empty.
    fn pop(&mut self) -> (r: Option<T>)
        requires
            old(self).wf(),
        ensures
            final(self).wf(),
            old(self).items().len() == 0 ==> r is None && final(self).items() == old(self).items(),
            old(self).items().len() > 0 ==> r == Some(old(self).items().last()) && final(self).items() == old(self).items().drop_last(),
    ;

    fn as_slice(&self) -> (r: &[T])
        requires
            self.wf(),
        ensures
            r@ == self.items(),
    ;
}

/// A stack without a bound of its own.
pub struct VecStack<T> {
    items: Vec<T>,
}

impl<T> Stack<T> for VecStack<T> {
    closed spec fn items(&self) -> Seq<T> {
        self.items@
    }

    open spec fn capacity() -> nat {
        usize::MAX as nat
    }

    closed spec fn wf(&self) -> bool {
        self.items@.len() <= usize::MAX
    }

    proof fn lemma_within_capacity(&self) {
    }

    fn new() -> (r: Self) {
        VecStack { items: Vec::new() }
    }

    fn try_push(&mut self, item: T) -> (r: Result<(), Error>) {
        if self.items.len() == usize::MAX {
            Err(Error::OutOfStackSpace)
        } else {
            self.items.push(item);
            Ok(())
        }
    }

    fn pop(&mut self) -> (r: Option<T>) {
        self.items.pop()
    }

    fn as_slice(&self) -> (r: &[T]) {
        self.items.as_slice()
    }
}

/// A stack that holds at most `N` items.
pub struct ArrayStack<T, const N: usize> {
    items: Vec<T>,
}

impl<T, const N: usize> Stack<T> for ArrayStack<T, N> {
    closed spec fn items(&self) -> Seq<T> {
        self.items@
    }

    open spec fn capacity() -> nat {
        N as nat
    }

    closed spec fn wf(&self) -> bool {
        self.items@.len() <= N
    }

    proof fn lemma_within_capacity(&self) {
    }

    fn new() -> (r: Self) {
        ArrayStack { items: Vec::new() }
    }

    fn try_push(&mut self, item: T) -> (r: Result<(), Error>) {
        if self.items.len() >= N {
            Err(Error::OutOfStackSpace)
        } else {
            self.items.push(item);
            Ok(())
        }
    }

    fn pop(&mut self) -> (r: Option<T>) {
        self.items.pop()
    }

    fn as_slice(&self) -> (r: &[T]) {
        self.items.as_slice()
    }
}

} // verus!
