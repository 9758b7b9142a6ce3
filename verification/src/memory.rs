//! The machine's memory: an addressable store of signed integer cells,
//! populated once at load time. Reads and writes outside the populated
//! range fail with `UndefinedAddress`; nothing is zero-filled.

use vstd::prelude::*;
use crate::errors::VmError;

verus! {

/// Reading a cell: the value at the address, or `UndefinedAddress` when
/// the address was never populated.
pub open spec fn mem_read(mem: Seq<i32>, addr: int) -> Result<i32, VmError> {
    if 0 <= addr < mem.len() {
        Ok(mem[addr])
    } else {
        Err(VmError::UndefinedAddress)
    }
}

pub struct Memory {
    cells: Vec<i32>,
}

impl View for Memory {
    type V = Seq<i32>;

    closed spec fn view(&self) -> Seq<i32> {
        self.cells@
    }
}

impl Memory {
    /// Populate addresses `0 .. program.len()` with the program's words,
    /// in order.
    pub fn load(program: Vec<i32>) -> (m: Memory)
        ensures
            m@ == program@,
    {
        Memory { cells: program }
    }

    /// The store is held in one allocation, so its size fits a machine
    /// word.
    pub proof fn lemma_len_fits(&self)
        ensures
            self@.len() <= usize::MAX,
    {
        assert(vstd::std_specs::vec::spec_vec_len(&self.cells) == self.cells@.len());
    }

    pub fn len(&self) -> (n: usize)
        ensures
            n == self@.len(),
    {
        self.cells.len()
    }

    pub fn read(&self, addr: usize) -> (r: Result<i32, VmError>)
        ensures
            r == mem_read(self@, addr as int),
    {
        if addr < self.cells.len() {
            Ok(self.cells[addr])
        } else {
            Err(VmError::UndefinedAddress)
        }
    }

    /// Write to an already-populated address; the store never grows.
    pub fn write(&mut self, addr: usize, value: i32) -> (r: Result<(), VmError>)
        ensures
            0 <= addr < old(self)@.len() ==> r is Ok && final(self)@ == old(self)@.update(
                addr as int,
                value,
            ),
            !(0 <= addr < old(self)@.len()) ==> r == Err::<(), VmError>(VmError::UndefinedAddress)
                && final(self)@ == old(self)@,
    {
        if addr < self.cells.len() {
            self.cells.set(addr, value);
            Ok(())
        } else {
            Err(VmError::UndefinedAddress)
        }
    }
}

} // verus!
