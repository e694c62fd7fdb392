//! The instruction set.

use vstd::prelude::*;

verus! {

/// The number of a register.
pub type RegisterIndex = usize;

/// The position of an instruction in its program, counted from zero.
pub type InstructionAddress = usize;

/// One instruction of a GOTO program.
#[derive(Debug, Clone, Copy, PartialEq, Eq, Structural)]
#[allow(inconsistent_fields)]
pub enum Instruction {
    /// Halts the machine.
    Stop,
    /// Adds one to register `cell`.
    Inc { cell: RegisterIndex },
    /// Takes one from register `cell`.
    Dec { cell: RegisterIndex },
    /// Continues at the instruction with address `cell`.
    Goto { cell: InstructionAddress },
    /// Continues at the instruction with address `goto_cell` if register
    /// `condition_cell` holds zero, and at the next instruction otherwise.
    GotoZ { condition_cell: RegisterIndex, goto_cell: InstructionAddress },
}

} // verus!
