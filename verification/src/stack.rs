//! The operand stack: push/pop and the stack-manipulation primitives
//! (duplicate, swap, over, rotate).
//!
//! The contents are modelled bottom to top: index 0 is the bottom of the
//! stack and the last element is the top. A primitive that finds fewer
//! elements than it needs fails with `StackError::EmptyStack` and leaves
//! the stack unchanged.

use vstd::prelude::*;

verus! {

/// Failure of a stack primitive: the stack held fewer elements than the
/// primitive needs.
#[derive(Debug)]
pub enum StackError {
    EmptyStack,
}

/// The operand-stack primitives. `contents` is the mathematical model of
/// the stack: a sequence, bottom first, top last.
pub trait Stack<T>: Sized {
    spec fn contents(&self) -> Seq<T>;

    /// Append `val`; always succeeds and returns the new size.
    fn push(&mut self, val: T) -> (n: usize)
        ensures
            final(self).contents() == old(self).contents().push(val),
            n == final(self).contents().len(),
    ;

    /// Remove and return the top element, or `None` on an empty stack.
    fn pop(&mut self) -> (r: Option<T>)
        ensures
            old(self).contents().len() == 0 ==> r is None && final(self).contents()
                == old(self).contents(),
            old(self).contents().len() > 0 ==> r == Some(old(self).contents().last())
                && final(self).contents() == old(self).contents().drop_last(),
    ;

    /// Duplicate the top element (net +1 size); returns the new size.
    /// Fails on fewer than 1 element.
    fn dup(&mut self) -> (r: Result<usize, StackError>)
        ensures
            old(self).contents().len() == 0 ==> r is Err && final(self).contents()
                == old(self).contents(),
            old(self).contents().len() > 0 ==> r == Ok::<usize, StackError>(
                final(self).contents().len() as usize,
            ) && final(self).contents() == old(self).contents().push(
                old(self).contents().last(),
            ),
    ;

    /// Exchange the two top elements. Fails on fewer than 2 elements.
    fn swap(&mut self) -> (r: Result<(), StackError>)
        ensures
            old(self).contents().len() < 2 ==> r is Err && final(self).contents()
                == old(self).contents(),
            old(self).contents().len() >= 2 ==> r is Ok && final(self).contents()
                == old(self).contents().drop_last().drop_last().push(
                old(self).contents().last(),
            ).push(old(self).contents()[old(self).contents().len() - 2]),
    ;

    /// Copy the second-from-top element to the new top (net +1 size);
    /// returns the new size. Fails on fewer than 2 elements.
    fn over(&mut self) -> (r: Result<usize, StackError>)
        ensures
            old(self).contents().len() < 2 ==> r is Err && final(self).contents()
                == old(self).contents(),
            old(self).contents().len() >= 2 ==> r == Ok::<usize, StackError>(
                final(self).contents().len() as usize,
            ) && final(self).contents() == old(self).contents().push(
                old(self).contents()[old(self).contents().len() - 2],
            ),
    ;

    /// Pop three elements x (top), y, z, then push y, x, z: the
    /// third-from-top element moves to the new top. Fails on fewer than 3
    /// elements.
    fn rotate(&mut self) -> (r: Result<(), StackError>)
        ensures
            old(self).contents().len() < 3 ==> r is Err && final(self).contents()
                == old(self).contents(),
            old(self).contents().len() >= 3 ==> r is Ok && final(self).contents()
                == old(self).contents().drop_last().drop_last().drop_last().push(
                old(self).contents()[old(self).contents().len() - 2],
            ).push(old(self).contents().last()).push(
                old(self).contents()[old(self).contents().len() - 3],
            ),
    ;
}

impl<T: Copy> Stack<T> for Vec<T> {
    open spec fn contents(&self) -> Seq<T> {
        self@
    }

    fn push(&mut self, val: T) -> (n: usize) {
        self.push(val);
        self.len()
    }

    fn pop(&mut self) -> (r: Option<T>) {
        self.pop()
    }

    fn dup(&mut self) -> (r: Result<usize, StackError>) {
        if self.len() == 0 {
            return Err(StackError::EmptyStack);
        }
        let x = self[self.len() - 1];
        self.push(x);
        Ok(self.len())
    }

    fn swap(&mut self) -> (r: Result<(), StackError>) {
        if self.len() < 2 {
            return Err(StackError::EmptyStack);
        }
        let a = self.pop().unwrap();
        let b = self.pop().unwrap();
        self.push(a);
        self.push(b);
        Ok(())
    }

    fn over(&mut self) -> (r: Result<usize, StackError>) {
        if self.len() < 2 {
            return Err(StackError::EmptyStack);
        }
        let y = self[self.len() - 2];
        self.push(y);
        assert(self@ =~= old(self)@.push(old(self)@[old(self)@.len() - 2]));
        Ok(self.len())
    }

    fn rotate(&mut self) -> (r: Result<(), StackError>) {
        if self.len() < 3 {
            return Err(StackError::EmptyStack);
        }
        let x = self.pop().unwrap();
        let y = self.pop().unwrap();
        let z = self.pop().unwrap();
        self.push(y);
        self.push(x);
        self.push(z);
        Ok(())
    }
}

} // verus!
