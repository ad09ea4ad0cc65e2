//! The bounded last-in-first-out value stack.
use vstd::prelude::*;
use crate::word::Word;
use crate::errors::OnChainError;

verus! {

/// Capacity of the value stack, a consensus constant.
pub const STACK_LIMIT: usize = 1024;

/// Fixed-capacity stack of words. The view lists the items bottom first;
/// the top of the stack is the last element.
pub struct Stack {
    data: Vec<Word>,
}

impl View for Stack {
    type V = Seq<Word>;

    closed spec fn view(&self) -> Seq<Word> {
        self.data@
    }
}

impl Stack {
    /// The item `n` positions below the top.
    pub open spec fn peek_spec(self, n: int) -> Word {
        self@[self@.len() - 1 - n]
    }

    /// An empty stack.
    pub fn new() -> (r: Stack)
        ensures
            r@ =~= Seq::<Word>::empty(),
    {
        Stack { data: Vec::new() }
    }

    /// How many items the stack holds.
    pub fn len(&self) -> (r: usize)
        ensures
            r == self@.len(),
    {
        self.data.len()
    }

    /// Whether the stack holds at least `n` items.
    pub fn has(&self, n: usize) -> (r: bool)
        ensures
            r <==> self@.len() >= n,
    {
        self.data.len() >= n
    }

    /// Push a word. Fails with `StackOverflow` at capacity, leaving the
    /// stack unchanged; never partially mutates.
    pub fn push(&mut self, w: Word) -> (r: Result<(), OnChainError>)
        ensures
            old(self)@.len() >= STACK_LIMIT ==> r == Err::<(), OnChainError>(
                OnChainError::StackOverflow,
            ) && final(self)@ =~= old(self)@,
            old(self)@.len() < STACK_LIMIT ==> r == Ok::<(), OnChainError>(()) && final(self)@
                =~= old(self)@.push(w),
    {
        if self.data.len() >= STACK_LIMIT {
            Err(OnChainError::StackOverflow)
        } else {
            self.data.push(w);
            Ok(())
        }
    }

    /// Pop the top word. Fails with `StackUnderflow` when empty, leaving
    /// the stack unchanged; never partially mutates.
    pub fn pop(&mut self) -> (r: Result<Word, OnChainError>)
        ensures
            old(self)@.len() == 0 ==> r == Err::<Word, OnChainError>(OnChainError::StackUnderflow)
                && final(self)@ =~= old(self)@,
            old(self)@.len() > 0 ==> r == Ok::<Word, OnChainError>(old(self)@.last())
                && final(self)@ =~= old(self)@.drop_last(),
    {
        match self.data.pop() {
            Some(w) => Ok(w),
            None => Err(OnChainError::StackUnderflow),
        }
    }

    /// Read the word `n` positions below the top without removing it.
    /// Fails with `StackUnderflow` when fewer than `n + 1` items are held.
    pub fn peek(&self, n: usize) -> (r: Result<Word, OnChainError>)
        ensures
            n < self@.len() ==> r == Ok::<Word, OnChainError>(self.peek_spec(n as int)),
            n >= self@.len() ==> r == Err::<Word, OnChainError>(OnChainError::StackUnderflow),
    {
        if n < self.data.len() {
            Ok(self.data[self.data.len() - 1 - n])
        } else {
            Err(OnChainError::StackUnderflow)
        }
    }

    /// Replace the word `n` positions below the top. Fails with
    /// `StackUnderflow` when fewer than `n + 1` items are held, leaving
    /// the stack unchanged.
    pub fn set(&mut self, n: usize, w: Word) -> (r: Result<(), OnChainError>)
        ensures
            n < old(self)@.len() ==> r == Ok::<(), OnChainError>(())
                && final(self)@ =~= old(self)@.update(old(self)@.len() - 1 - n, w),
            n >= old(self)@.len() ==> r == Err::<(), OnChainError>(OnChainError::StackUnderflow)
                && final(self)@ =~= old(self)@,
    {
        if n < self.data.len() {
            let idx = self.data.len() - 1 - n;
            self.data.set(idx, w);
            Ok(())
        } else {
            Err(OnChainError::StackUnderflow)
        }
    }
}

impl Default for Stack {
    /// An empty stack.
    fn default() -> (r: Stack)
        ensures
            r@ =~= Seq::<Word>::empty(),
    {
        Stack::new()
    }
}

} // verus!
