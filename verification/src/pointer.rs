use vstd::prelude::*;
use vstd::arithmetic::div_mod::{
    lemma_add_mod_noop_right,
    lemma_mod_add_multiples_vanish,
    lemma_mod_sub_multiples_vanish,
    lemma_small_mod,
    lemma_sub_mod_noop_right,
};

verus! {

/// The cell reached from cell `from` of a circular tape of `cells` cells by
/// moving `by` cells to the right.
pub open spec fn wrap_right(from: int, by: int, cells: int) -> int {
    (from + by) % cells
}

/// The cell reached from cell `from` of a circular tape of `cells` cells by
/// moving `by` cells to the left.
pub open spec fn wrap_left(from: int, by: int, cells: int) -> int {
    (from - by) % cells
}

/// The tape is a ring: one step left of the first cell is the last cell, one
/// step right of the last cell is the first, and a step anywhere stays on the
/// tape.
pub proof fn lemma_pointer_wraps(from: int, cells: int)
    requires
        0 <= from < cells,
    ensures
        wrap_left(0, 1, cells) == cells - 1,
        wrap_right(cells - 1, 1, cells) == 0,
        0 <= wrap_left(from, 1, cells) < cells,
        0 <= wrap_right(from, 1, cells) < cells,
        wrap_left(wrap_right(from, 1, cells), 1, cells) == from,
        wrap_right(wrap_left(from, 1, cells), 1, cells) == from,
{
    lemma_step_right(from, cells);
    lemma_step_left(from, cells);
    lemma_step_left(0, cells);
    lemma_step_right(cells - 1, cells);
    lemma_step_left(wrap_right(from, 1, cells), cells);
    lemma_step_right(wrap_left(from, 1, cells), cells);
}

/// One step to the right goes to the next cell, and from the last cell to the
/// first.
pub proof fn lemma_step_right(from: int, cells: int)
    requires
        0 <= from < cells,
    ensures
        wrap_right(from, 1, cells) == if from == cells - 1 { 0 } else { from + 1 },
{
    if from == cells - 1 {
        lemma_mod_add_multiples_vanish(0, cells);
        lemma_small_mod(0, cells as nat);
    } else {
        lemma_small_mod((from + 1) as nat, cells as nat);
    }
}

/// One step to the left goes to the cell before, and from the first cell to the
/// last.
pub proof fn lemma_step_left(from: int, cells: int)
    requires
        0 <= from < cells,
    ensures
        wrap_left(from, 1, cells) == if from == 0 { cells - 1 } else { from - 1 },
{
    if from == 0 {
        lemma_mod_sub_multiples_vanish(cells - 1, cells);
        lemma_small_mod((cells - 1) as nat, cells as nat);
        assert(-cells + (cells - 1) == 0 - 1);
    } else {
        lemma_small_mod((from - 1) as nat, cells as nat);
    }
}

/// An index into a circular tape of `N` cells.
#[derive(Debug, Clone, Copy)]
pub struct MemoryPointer<const N: usize> {
    pointer: usize,
}

impl<const N: usize> View for MemoryPointer<N> {
    type V = int;

    closed spec fn view(&self) -> int {
        self.pointer as int
    }
}

impl<const N: usize> MemoryPointer<N> {
    #[verifier::type_invariant]
    spec fn on_tape(self) -> bool {
        self.pointer < N
    }

    /// A pointer to the first cell.
    pub fn new() -> (p: Self)
        requires
            N > 0,
        ensures
            p@ == 0,
    {
        Self { pointer: 0 }
    }

    /// The index of the addressed cell.
    pub fn index(&self) -> (i: usize)
        ensures
            i == self@,
            i < N,
    {
        proof {
            use_type_invariant(self);
        }
        self.pointer
    }

    /// Moves `n` cells to the right, wrapping round the end of the tape.
    pub fn add(&mut self, n: usize)
        ensures
            final(self)@ == wrap_right(old(self)@, n as int, N as int),
        no_unwind
    {
        proof {
            use_type_invariant(&*self);
        }
        let by: usize = n % N;
        let room: usize = N - self.pointer;
        proof {
            lemma_add_mod_noop_right(self.pointer as int, n as int, N as int);
            if by < room {
                lemma_small_mod((self.pointer + by) as nat, N as nat);
            } else {
                lemma_mod_sub_multiples_vanish(self.pointer + by, N as int);
                lemma_small_mod((self.pointer + by - N) as nat, N as nat);
            }
        }
        if by < room {
            self.pointer = self.pointer + by;
        } else {
            self.pointer = by - room;
        }
    }

    /// Moves `n` cells to the left, wrapping round the start of the tape.
    pub fn subtract(&mut self, n: usize)
        ensures
            final(self)@ == wrap_left(old(self)@, n as int, N as int),
        no_unwind
    {
        proof {
            use_type_invariant(&*self);
        }
        let by: usize = n % N;
        proof {
            lemma_sub_mod_noop_right(self.pointer as int, n as int, N as int);
            if self.pointer >= by {
                lemma_small_mod((self.pointer - by) as nat, N as nat);
            } else {
                lemma_mod_add_multiples_vanish(self.pointer - by, N as int);
                lemma_small_mod((N + self.pointer - by) as nat, N as nat);
            }
        }
        if self.pointer >= by {
            self.pointer = self.pointer - by;
        } else {
            self.pointer = N - (by - self.pointer);
        }
    }
}

} // verus!
