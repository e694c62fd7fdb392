//! An interpreter for the GOTO register-machine language.
//!
//! A program is a list of instructions, one per line of source text. It works
//! on a file of unsigned 64-bit registers and a program counter:
//!
//! ```text
//! STOP          halt
//! INC r         add one to register r
//! DEC r         take one from register r
//! GOTO a        continue at instruction a
//! GOTOZ r a     continue at instruction a if register r holds zero
//! ```
//!
//! [`parse_commands`] turns source text into instructions, [`read_input`]
//! reads the initial registers, and [`GotoProgramState`] executes. Every
//! function is verified against a mathematical model of the text and of the
//! machine: the models are the `spec` functions of each module.
//!
//! - [`instruction`]: the instruction set.
//! - [`text`]: characters, pieces between separators, tokens and lines.
//! - [`number`]: decimal numerals, read and written.
//! - [`parser`]: lines and programs, with the wording of every error.
//! - [`grammar`]: the grammar, and the proof that the parser accepts it and
//!   nothing else.
//! - [`spacing`]: the proof that spaces do not matter to the parser.
//! - [`input`]: the initial registers.
//! - [`machine`]: the machine, its faults, and the proofs of what `Stop`
//!   and `GotoZ` do.
//!
//! No function of the library panics. A machine that cannot execute its next
//! instruction reports a [`RuntimeFault`], and a run is bounded by the number
//! of instructions that its caller allows, so that every call returns.

pub mod grammar;
pub mod input;
pub mod instruction;
pub mod machine;
pub mod number;
pub mod parser;
pub mod spacing;
pub mod text;

pub use crate::input::read_input;
pub use crate::instruction::{Instruction, InstructionAddress, RegisterIndex};
pub use crate::machine::{GotoProgram, GotoProgramState, RuntimeFault, Status};
pub use crate::number::parse_nr;
pub use crate::parser::parse_commands;
