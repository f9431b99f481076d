use crate::word::Word;
use vstd::prelude::*;

verus! {

/// The deepest the operand stack may grow.
pub const MAX_DEPTH: usize = 1024;

#[derive(Clone, Copy, Debug, PartialEq, Eq, Structural)]
pub enum StackError {
    StackOverflow,
    StackUnderflow,
    StackOutOfRange,
}

/// The operand stack: 256-bit words, bottom first, at most `MAX_DEPTH` of them.
pub struct Stack {
    data: Vec<Word>,
}

impl View for Stack {
    type V = Seq<nat>;

    /// The values on the stack, bottom first; the top is the last.
    closed spec fn view(&self) -> Seq<nat> {
        self.data@.map_values(|w: Word| w.value())
    }
}

impl Stack {
    pub open spec fn wf(&self) -> bool {
        self@.len() <= MAX_DEPTH
    }

    pub fn new() -> (r: Stack)
        ensures
            r.wf(),
            r@ == Seq::<nat>::empty(),
    {
        let r = Stack { data: Vec::new() };
        assert(r@ =~= Seq::<nat>::empty());
        r
    }

    pub fn depth(&self) -> (r: usize)
        ensures
            r == self@.len(),
    {
        self.data.len()
    }

    pub fn push(&mut self, value: Word) -> (r: Result<(), StackError>)
        requires
            old(self).wf(),
        ensures
            final(self).wf(),
            old(self)@.len() == MAX_DEPTH ==> r == Err::<(), StackError>(StackError::StackOverflow)
                && final(self)@ == old(self)@,
            old(self)@.len() < MAX_DEPTH ==> r is Ok && final(self)@ == old(self)@.push(
                value.value(),
            ),
    {
        if self.data.len() >= MAX_DEPTH {
            return Err(StackError::StackOverflow);
        }
        self.data.push(value);
        assert(self@ =~= old(self)@.push(value.value()));
        Ok(())
    }

    pub fn pop(&mut self) -> (r: Result<Word, StackError>)
        requires
            old(self).wf(),
        ensures
            final(self).wf(),
            old(self)@.len() == 0 ==> r == Err::<Word, StackError>(StackError::StackUnderflow)
                && final(self)@ == old(self)@,
            old(self)@.len() > 0 ==> r is Ok && r->Ok_0.value() == old(self)@.last()
                && final(self)@ == old(self)@.drop_last(),
    {
        match self.data.pop() {
            None => Err(StackError::StackUnderflow),
            Some(w) => {
                assert(self@ =~= old(self)@.drop_last());
                Ok(w)
            },
        }
    }

    /// The word `index` places below the top.
    pub fn peek(&self, index: usize) -> (r: Result<Word, StackError>)
        ensures
            index >= self@.len() ==> r == Err::<Word, StackError>(StackError::StackOutOfRange),
            index < self@.len() ==> r is Ok && r->Ok_0.value() == self@[self@.len() - 1 - index],
    {
        if index >= self.data.len() {
            return Err(StackError::StackOutOfRange);
        }
        Ok(self.data[self.data.len() - 1 - index])
    }

    /// Exchanges the top with the word `n` places below it.
    pub fn swap(&mut self, n: usize) -> (r: Result<(), StackError>)
        requires
            old(self).wf(),
        ensures
            final(self).wf(),
            n >= old(self)@.len() ==> r == Err::<(), StackError>(StackError::StackUnderflow)
                && final(self)@ == old(self)@,
            n < old(self)@.len() ==> r is Ok && final(self)@ == swapped(old(self)@, n as nat),
    {
        if n >= self.data.len() {
            return Err(StackError::StackUnderflow);
        }
        let top = self.data.len() - 1;
        let a = self.data[top];
        let b = self.data[top - n];
        self.data.set(top, b);
        self.data.set(top - n, a);
        assert(self@ =~= swapped(old(self)@, n as nat));
        Ok(())
    }
}

/// `s` with its top and the element `n` places below the top exchanged.
pub open spec fn swapped(s: Seq<nat>, n: nat) -> Seq<nat>
    recommends
        n < s.len(),
{
    let top = s.len() - 1;
    s.update(top, s[top - n]).update(top - n, s[top])
}

} // verus!
