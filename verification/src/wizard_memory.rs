//! The wizard's addressable memory: a fixed-size bank of digit cells
//! that the casting subsystem reads and writes. The first block is the
//! player's working memory and is cleared between turns.

use vstd::prelude::*;

verus! {

/// Total number of cells in the bank.
pub const MEMORY_SIZE: usize = 1_000_000;

/// Size of the player's working memory at the start of the bank.
pub const LOCAL_MEMORY: usize = 1_000;

/// What a cell currently holds.
#[derive(PartialEq, Eq, Structural, Clone, Copy, Debug)]
pub enum MemoryCellType {
    Blank,
    Field,
}

/// One memory cell: a classification and a single decimal digit.
#[derive(PartialEq, Eq, Structural, Clone, Copy, Debug)]
pub struct MemoryCell {
    pub cell_type: MemoryCellType,
    pub value: u8,
}

impl MemoryCell {
    /// A cell holds one decimal digit; larger values are not
    /// representable.
    pub fn new(cell_type: MemoryCellType, value: u8) -> (r: Self)
        requires
            value <= 9,
        ensures
            r == (MemoryCell { cell_type, value }),
    {
        Self { cell_type, value }
    }
}

impl Default for MemoryCell {
    fn default() -> (r: Self)
        ensures
            r == (MemoryCell { cell_type: MemoryCellType::Blank, value: 0 }),
    {
        MemoryCell::new(MemoryCellType::Blank, 0)
    }
}

/// An address into the bank.
#[derive(PartialEq, Eq, Structural, Clone, Copy, Debug)]
pub struct MemoryLocation {
    pub pointer: usize,
}

impl Default for MemoryLocation {
    fn default() -> (r: Self)
        ensures
            r.pointer == 0,
    {
        MemoryLocation { pointer: 0 }
    }
}

/// The whole memory bank, always exactly `MEMORY_SIZE` cells.
pub struct MemoryBlob {
    pub memory: Vec<MemoryCell>,
}

impl MemoryBlob {
    /// The bank never changes size.
    pub open spec fn wf(self) -> bool {
        self.memory@.len() == MEMORY_SIZE
    }

    /// A bank of blank cells.
    pub fn new() -> (r: Self)
        ensures
            r.wf(),
            forall|i: int|
                0 <= i < MEMORY_SIZE ==> r.memory@[i] == (MemoryCell {
                    cell_type: MemoryCellType::Blank,
                    value: 0,
                }),
    {
        let mut memory: Vec<MemoryCell> = Vec::new();
        let mut i: usize = 0;
        while i < MEMORY_SIZE
            invariant
                i <= MEMORY_SIZE,
                memory@.len() == i,
                forall|j: int|
                    0 <= j < i ==> memory@[j] == (MemoryCell {
                        cell_type: MemoryCellType::Blank,
                        value: 0,
                    }),
            decreases MEMORY_SIZE - i,
        {
            memory.push(MemoryCell::new(MemoryCellType::Blank, 0));
            i = i + 1;
        }
        Self { memory }
    }

    /// Writes a run of cells starting at the given address. A write
    /// that starts past the end of the bank or would run over its end
    /// is rejected at the boundary: the error comes back and the
    /// memory stays exactly as it was, nothing is truncated.
    pub fn write_mem(&mut self, values: &Vec<MemoryCell>, start: usize) -> (r: Result<(), ()>)
        requires
            old(self).wf(),
        ensures
            final(self).wf(),
            r is Ok <==> (start < MEMORY_SIZE && start + values@.len() <= MEMORY_SIZE),
            r is Err ==> final(self).memory@ == old(self).memory@,
            r is Ok ==> forall|j: int|
                0 <= j < MEMORY_SIZE ==> final(self).memory@[j] == (if start <= j < start
                    + values@.len() {
                    values@[j - start]
                } else {
                    old(self).memory@[j]
                }),
    {
        if start > MEMORY_SIZE - 1 {
            return Err(());
        }
        if values.len() > MEMORY_SIZE - start {
            return Err(());
        }
        let mut i: usize = 0;
        while i < values.len()
            invariant
                old(self).wf(),
                self.wf(),
                i <= values@.len(),
                start < MEMORY_SIZE,
                start + values@.len() <= MEMORY_SIZE,
                forall|j: int|
                    0 <= j < MEMORY_SIZE ==> self.memory@[j] == (if start <= j < start + i {
                        values@[j - start]
                    } else {
                        old(self).memory@[j]
                    }),
            decreases values@.len() - i,
        {
            self.memory.set(start + i, values[i]);
            i = i + 1;
        }
        Ok(())
    }

    /// Clears the player's working memory between turns.
    pub fn reset_player_memory(&mut self)
        requires
            old(self).wf(),
        ensures
            final(self).wf(),
            forall|j: int|
                0 <= j < MEMORY_SIZE ==> final(self).memory@[j] == (if j < LOCAL_MEMORY - 1 {
                    MemoryCell { cell_type: MemoryCellType::Blank, value: 0 }
                } else {
                    old(self).memory@[j]
                }),
    {
        let mut i: usize = 0;
        while i < LOCAL_MEMORY - 1
            invariant
                old(self).wf(),
                self.wf(),
                i <= LOCAL_MEMORY - 1,
                forall|j: int|
                    0 <= j < MEMORY_SIZE ==> self.memory@[j] == (if j < i {
                        MemoryCell { cell_type: MemoryCellType::Blank, value: 0 }
                    } else {
                        old(self).memory@[j]
                    }),
            decreases LOCAL_MEMORY - i,
        {
            self.memory.set(i, MemoryCell::new(MemoryCellType::Blank, 0));
            i = i + 1;
        }
    }

    /// Reads a run of cells.
    pub fn get_many(&self, start: usize, count: usize) -> (r: Vec<MemoryCell>)
        requires
            self.wf(),
            start + count <= MEMORY_SIZE,
        ensures
            r@ == self.memory@.subrange(start as int, start as int + count as int),
    {
        let mut out: Vec<MemoryCell> = Vec::new();
        let mut i: usize = 0;
        while i < count
            invariant
                self.wf(),
                start + count <= MEMORY_SIZE,
                i <= count,
                out@.len() == i,
                forall|j: int| 0 <= j < i ==> out@[j] == self.memory@[start + j],
            decreases count - i,
        {
            out.push(self.memory[start + i]);
            i = i + 1;
        }
        proof {
            assert(out@ =~= self.memory@.subrange(start as int, start as int + count as int));
        }
        out
    }

    /// Reads one cell; an address past the end of the bank names no
    /// cell.
    pub fn get_one(&self, address: MemoryLocation) -> (r: Option<MemoryCell>)
        requires
            self.wf(),
        ensures
            address.pointer < MEMORY_SIZE ==> r == Some(self.memory@[address.pointer as int]),
            address.pointer >= MEMORY_SIZE ==> r is None,
    {
        if address.pointer < self.memory.len() {
            Some(self.memory[address.pointer])
        } else {
            None
        }
    }
}

} // verus!
