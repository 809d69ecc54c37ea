//! The memory tape.
//!
//! To the program, the pointer appears able to become negative; internally
//! it is an index into a growable block of cells together with a separately
//! stored leftward offset, so the logical address is always
//! `pointer - offset`. The offset only ever grows.

use crate::digits::{dec_digits, dec_int, push_idec, push_udec};
use vstd::prelude::*;

verus! {

/// The mathematical model of a [`Memory`]: the cells, the internal pointer
/// and the leftward offset.
#[verifier::ext_equal]
pub struct MemModel {
    /// The tape cells.
    pub cells: Seq<u8>,
    /// The internal (non-negative) index of the current cell.
    pub ptr: int,
    /// How many cells have been grown to the left of the initial cell.
    pub off: int,
}

impl MemModel {
    /// The pointer is inside the tape, which is never empty, and the
    /// offset never exceeds the number of cells grown so far.
    pub open spec fn inv(self) -> bool {
        &&& 0 <= self.ptr < self.cells.len()
        &&& 0 <= self.off < self.cells.len()
    }

    /// The signed address as the program perceives it.
    pub open spec fn logical(self) -> int {
        self.ptr - self.off
    }
}

/// The tape of a single zero cell, pointer at logical address zero.
pub open spec fn init_mem() -> MemModel {
    MemModel { cells: seq![0u8], ptr: 0, off: 0 }
}

/// The current cell's value.
pub open spec fn spec_cell(m: MemModel) -> u8 {
    m.cells[m.ptr]
}

/// Addition modulo 256 of a signed delta to a cell.
pub open spec fn cell_add(c: u8, d: i8) -> u8 {
    vstd::wrapping::u8_specs::wrapping_add_signed(c, d)
}

/// The tape after adding `d` to the current cell, modulo 256.
pub open spec fn spec_add(m: MemModel, d: i8) -> MemModel {
    MemModel { cells: m.cells.update(m.ptr, cell_add(spec_cell(m), d)), ..m }
}

/// The tape after overwriting the current cell with `v`.
pub open spec fn spec_set(m: MemModel, v: u8) -> MemModel {
    MemModel { cells: m.cells.update(m.ptr, v), ..m }
}

/// `n` zero cells.
pub open spec fn zero_cells(n: int) -> Seq<u8> {
    Seq::new(n as nat, |i: int| 0u8)
}

/// The tape after moving the pointer by `d`, growing with zero cells as
/// needed, provided the grown tape would hold at most `max_len` cells;
/// `None` when the move would exceed that ceiling (the tape is then left
/// unchanged). Growth to the left raises the offset, never the error.
pub open spec fn spec_move(m: MemModel, d: int, max_len: int) -> Option<MemModel> {
    if d >= 0 {
        let newp = m.ptr + d;
        if newp < m.cells.len() {
            Some(MemModel { ptr: newp, ..m })
        } else if newp + 1 <= max_len {
            Some(MemModel { cells: m.cells + zero_cells(newp + 1 - m.cells.len()), ptr: newp, ..m })
        } else {
            None
        }
    } else {
        let need = -d;
        if need <= m.ptr {
            Some(MemModel { ptr: m.ptr - need, ..m })
        } else {
            let growth = need - m.ptr;
            if m.cells.len() + growth <= max_len {
                Some(
                    MemModel {
                        cells: zero_cells(growth) + m.cells,
                        ptr: 0,
                        off: m.off + growth,
                    },
                )
            } else {
                None
            }
        }
    }
}

/// The text the debug instruction emits for a tape: the logical address
/// and the current cell, rendered in decimal between square brackets.
pub open spec fn debug_bytes(m: MemModel) -> Seq<u8> {
    seq![91u8] + dec_int(m.logical()) + seq![44u8] + dec_digits(spec_cell(m) as nat) + seq![93u8]
}

// To the user, the pointer appears to be able to become negative; it is in
// fact a plain index with the offset stored separately.
/// The runtime memory tape of one execution.
#[derive(Debug, Clone, PartialEq, Eq)]
pub struct Memory {
    cells: Vec<u8>,
    pointer: usize,
    offset: usize,
}

impl View for Memory {
    type V = MemModel;

    closed spec fn view(&self) -> MemModel {
        MemModel { cells: self.cells@, ptr: self.pointer as int, off: self.offset as int }
    }
}

impl Memory {
    /// The well-formedness of the tape; established by [`Memory::new`] and
    /// preserved by every operation.
    pub open spec fn inv(&self) -> bool {
        self@.inv()
    }

    /// A fresh tape: one zero cell, pointer at logical address zero.
    pub fn new() -> (m: Memory)
        ensures
            m.inv(),
            m@ == init_mem(),
    {
        let mut cells: Vec<u8> = Vec::with_capacity(1);
        cells.push(0);
        proof {
            assert(cells@ =~= seq![0u8]);
        }
        Memory { cells, pointer: 0, offset: 0 }
    }

    /// Add `amount` to the current cell, wrapping modulo 256.
    pub fn add(&mut self, amount: i8)
        requires
            old(self).inv(),
        ensures
            final(self).inv(),
            final(self)@ == spec_add(old(self)@, amount),
    {
        let c = self.cells[self.pointer];
        self.cells[self.pointer] = c.wrapping_add_signed(amount);
    }

    /// The current cell's value.
    pub fn get_cell(&self) -> (c: u8)
        requires
            self.inv(),
        ensures
            c == spec_cell(self@),
    {
        self.cells[self.pointer]
    }

    /// Overwrite the current cell.
    pub fn set_cell(&mut self, c: u8)
        requires
            old(self).inv(),
        ensures
            final(self).inv(),
            final(self)@ == spec_set(old(self)@, c),
    {
        self.cells[self.pointer] = c;
    }

    /// Append `[a,c]` to `output`, where `a` is the pointer's logical
    /// (signed) address and `c` the current cell, both in decimal.
    // one can move usize::MAX cells away from the start, further than
    // isize reaches, so the address is rendered from an i128
    pub fn append_debug(&self, output: &mut Vec<u8>)
        requires
            self.inv(),
        ensures
            final(output)@ == old(output)@ + debug_bytes(self@),
    {
        output.push(91);
        let logical: i128 = self.pointer as i128 - self.offset as i128;
        push_idec(output, logical);
        output.push(44);
        push_udec(output, self.get_cell() as u128);
        output.push(93);
        proof {
            assert(output@ =~= old(output)@ + debug_bytes(self@));
        }
    }

    /// Move the pointer by `amount`, growing the tape with zero cells as
    /// needed, unless the grown tape would then hold more than `max_len`
    /// cells. Returns whether the move happened; on `false` the tape is
    /// unchanged, not partially extended.
    pub fn try_move(&mut self, amount: isize, max_len: usize) -> (ok: bool)
        requires
            old(self).inv(),
        ensures
            final(self).inv(),
            match spec_move(old(self)@, amount as int, max_len as int) {
                Some(m) => ok && final(self)@ == m,
                None => !ok && final(self)@ == old(self)@,
            },
            ok ==> final(self)@.logical() == old(self)@.logical() + amount,
            final(self)@.off >= old(self)@.off,
    {
        if amount >= 0 {
            let abs = amount as usize;
            let len = self.cells.len();
            match self.pointer.checked_add(abs) {
                Some(newp) => {
                    if newp < len {
                        self.pointer = newp;
                        true
                    } else if newp < max_len {
                        extend_zeros(&mut self.cells, newp + 1);
                        self.pointer = newp;
                        true
                    } else {
                        false
                    }
                },
                None => {
                    proof {
                        // a pointer past usize::MAX needs a tape longer than
                        // any expressible ceiling
                        assert(self.cells@.len() <= usize::MAX);
                    }
                    false
                },
            }
        } else {
            // the exact magnitude, avoiding the overflow of -isize::MIN
            let abs = ((-(amount + 1)) as usize) + 1;
            if abs <= self.pointer {
                self.pointer = self.pointer - abs;
                true
            } else {
                let len = self.cells.len();
                let growth = abs - self.pointer;
                if growth <= usize::MAX - len && len + growth <= max_len {
                    let mut grown: Vec<u8> = Vec::new();
                    extend_zeros(&mut grown, growth);
                    grown.append(&mut self.cells);
                    self.cells = grown;
                    self.offset = self.offset + growth;
                    self.pointer = 0;
                    true
                } else {
                    false
                }
            }
        }
    }

    /// Move the pointer by `amount` with no ceiling on tape growth.
    pub fn move_pointer(&mut self, amount: isize)
        requires
            old(self).inv(),
            amount >= 0 ==> old(self)@.ptr + amount + 1 <= usize::MAX,
            amount < 0 ==> old(self)@.cells.len() + (-amount - old(self)@.ptr) <= usize::MAX,
        ensures
            final(self).inv(),
            Some(final(self)@) == spec_move(old(self)@, amount as int, usize::MAX as int),
            final(self)@.logical() == old(self)@.logical() + amount,
    {
        let ok = self.try_move(amount, usize::MAX);
        proof {
            assert(ok);
        }
    }
}

/// Push zero bytes until `v` holds exactly `new_len` of them.
fn extend_zeros(v: &mut Vec<u8>, new_len: usize)
    requires
        old(v)@.len() <= new_len,
    ensures
        final(v)@ == old(v)@ + zero_cells(new_len - old(v)@.len()),
{
    while v.len() < new_len
        invariant
            old(v)@.len() <= v@.len() <= new_len,
            v@ == old(v)@ + zero_cells(v@.len() - old(v)@.len()),
        decreases new_len - v@.len(),
    {
        v.push(0);
        proof {
            assert(v@ =~= old(v)@ + zero_cells(v@.len() - old(v)@.len()));
        }
    }
    proof {
        assert(v@ =~= old(v)@ + zero_cells(new_len - old(v)@.len()));
    }
}

} // verus!
