//! The operand stack: at most 1024 words.
use crate::word::U256;
use vstd::prelude::*;

verus! {

/// The most items the stack holds.
pub const STACK_LIMIT: usize = 1024;

/// Why a stack operation was refused.
#[derive(Debug, Clone, Copy, PartialEq, Eq, Structural)]
pub enum StackError {
    /// A push onto a full stack.
    Overflow,
    /// A read below the bottom of the stack.
    Underflow,
    /// A dup or swap depth outside `1..=16`.
    InvalidDepth,
}

/// A stack of words, its top at the end.
#[derive(Debug, Clone, Default)]
pub struct Stack {
    data: Vec<U256>,
}

impl View for Stack {
    type V = Seq<U256>;

    closed spec fn view(&self) -> Seq<U256> {
        self.data@
    }
}

impl Stack {
    /// An empty stack.
    pub fn new() -> (r: Self)
        ensures
            r@ == Seq::<U256>::empty(),
    {
        Stack { data: Vec::new() }
    }

    /// Pushes `value`, unless the stack already holds 1024 items.
    pub fn push(&mut self, value: U256) -> (r: Result<(), StackError>)
        ensures
            old(self)@.len() >= STACK_LIMIT ==> r == Err::<(), StackError>(StackError::Overflow)
                && final(self)@ == old(self)@,
            old(self)@.len() < STACK_LIMIT ==> r is Ok && final(self)@ == old(self)@.push(value),
    {
        if self.data.len() >= STACK_LIMIT {
            return Err(StackError::Overflow);
        }
        self.data.push(value);
        Ok(())
    }

    /// Removes and returns the top item.
    pub fn pop(&mut self) -> (r: Result<U256, StackError>)
        ensures
            old(self)@.len() == 0 ==> r == Err::<U256, StackError>(StackError::Underflow)
                && final(self)@ == old(self)@,
            old(self)@.len() > 0 ==> r == Ok::<U256, StackError>(old(self)@.last())
                && final(self)@ == old(self)@.drop_last(),
    {
        match self.data.pop() {
            Some(v) => Ok(v),
            None => Err(StackError::Underflow),
        }
    }

    /// The item `depth_from_top` places below the top (0 is the top).
    pub fn peek(&self, depth_from_top: usize) -> (r: Result<U256, StackError>)
        ensures
            depth_from_top >= self@.len() ==> r == Err::<U256, StackError>(StackError::Underflow),
            depth_from_top < self@.len() ==> r == Ok::<U256, StackError>(
                self@[self@.len() - 1 - depth_from_top],
            ),
    {
        if depth_from_top >= self.data.len() {
            return Err(StackError::Underflow);
        }
        let idx = self.data.len() - 1 - depth_from_top;
        Ok(self.data[idx])
    }

    /// Pushes a copy of the `n`-th item from the top (`DUPn`, 1 is the top).
    pub fn dup(&mut self, n: usize) -> (r: Result<(), StackError>)
        ensures
            (n == 0 || n > 16) ==> r == Err::<(), StackError>(StackError::InvalidDepth)
                && final(self)@ == old(self)@,
            1 <= n <= 16 && old(self)@.len() < n ==> r == Err::<(), StackError>(
                StackError::Underflow,
            ) && final(self)@ == old(self)@,
            1 <= n <= 16 && n <= old(self)@.len() && old(self)@.len() >= STACK_LIMIT ==> r == Err::<
                (),
                StackError,
            >(StackError::Overflow) && final(self)@ == old(self)@,
            1 <= n <= 16 && n <= old(self)@.len() < STACK_LIMIT ==> r is Ok && final(self)@ == old(
                self,
            )@.push(old(self)@[old(self)@.len() - n]),
    {
        if n == 0 || n > 16 {
            return Err(StackError::InvalidDepth);
        }
        let value = self.peek(n - 1)?;
        self.push(value)
    }

    /// Exchanges the top item with the one `n` places below it (`SWAPn`).
    pub fn swap(&mut self, n: usize) -> (r: Result<(), StackError>)
        ensures
            (n == 0 || n > 16) ==> r == Err::<(), StackError>(StackError::InvalidDepth)
                && final(self)@ == old(self)@,
            1 <= n <= 16 && old(self)@.len() <= n ==> r == Err::<(), StackError>(
                StackError::Underflow,
            ) && final(self)@ == old(self)@,
            1 <= n <= 16 && n < old(self)@.len() ==> r is Ok && final(self)@ == old(self)@.update(
                old(self)@.len() - 1,
                old(self)@[old(self)@.len() - 1 - n],
            ).update(old(self)@.len() - 1 - n, old(self)@.last()),
    {
        if n == 0 || n > 16 {
            return Err(StackError::InvalidDepth);
        }
        let len = self.data.len();
        if len <= n {
            return Err(StackError::Underflow);
        }
        let top = len - 1;
        let other = len - 1 - n;
        let a = self.data[top];
        let b = self.data[other];
        self.data.set(top, b);
        self.data.set(other, a);
        Ok(())
    }

    /// The number of items.
    pub fn len(&self) -> (r: usize)
        ensures
            r == self@.len(),
    {
        self.data.len()
    }

    /// Whether the stack is empty.
    pub fn is_empty(&self) -> (r: bool)
        ensures
            r == (self@.len() == 0),
    {
        self.data.len() == 0
    }

    /// The items, bottom first.
    pub fn as_slice(&self) -> (r: &[U256])
        ensures
            r@ == self@,
    {
        self.data.as_slice()
    }
}

} // verus!
