//! Connection token allocation: a counter with a recycling stack, so
//! tokens stay small and dense for the socket registry.

use vstd::prelude::*;

verus! {

/// Hands out connection tokens, preferring recycled ones.
#[derive(Debug)]
pub struct IdGenerator {
    counter: usize,
    stack: Vec<usize>,
}

impl IdGenerator {
    pub closed spec fn spec_counter(self) -> usize {
        self.counter
    }

    pub closed spec fn spec_stack(self) -> Seq<usize> {
        self.stack@
    }

    /// Token 0 belongs to the listener, so counting starts at 1.
    pub fn new() -> (r: IdGenerator)
        ensures
            r.spec_counter() == 1,
            r.spec_stack() == Seq::<usize>::empty(),
    {
        IdGenerator { counter: 1, stack: Vec::new() }
    }

    /// The next token: a recycled one if any, else a fresh one.
    pub fn next(&mut self) -> (r: usize)
        requires
            old(self).spec_stack().len() == 0 ==> old(self).spec_counter() < usize::MAX,
        ensures
            old(self).spec_stack().len() > 0 ==> {
                &&& r == old(self).spec_stack().last()
                &&& final(self).spec_stack() == old(self).spec_stack().drop_last()
                &&& final(self).spec_counter() == old(self).spec_counter()
            },
            old(self).spec_stack().len() == 0 ==> {
                &&& r == old(self).spec_counter()
                &&& final(self).spec_counter() == old(self).spec_counter() + 1
                &&& final(self).spec_stack() == old(self).spec_stack()
            },
    {
        match self.stack.pop() {
            Some(id) => id,
            None => {
                self.counter += 1;
                self.counter - 1
            },
        }
    }

    /// Returns a token to the pool once its connection is gone.
    pub fn recycle(&mut self, id: usize)
        ensures
            final(self).spec_stack() == old(self).spec_stack().push(id),
            final(self).spec_counter() == old(self).spec_counter(),
    {
        self.stack.push(id)
    }
}

} // verus!
