//! The machine: a program, a program counter and a file of registers.
//!
//! The model of a machine is its [`Configuration`]. [`step`] says what one
//! instruction does to it, and [`execute`] what a run of at most so many
//! instructions does. A run that would read a register or an instruction
//! that is not there, or take a register below zero or above `u64::MAX`,
//! ends in a [`RuntimeFault`] and leaves the configuration as it found it.

use vstd::prelude::*;
use vstd::string::StringExecFns;
use crate::instruction::{Instruction, InstructionAddress, RegisterIndex};
use crate::number::{append_decimal, decimal};

verus! {

/// A program: its instructions, addressed from zero.
#[derive(Debug)]
pub struct GotoProgram {
    pub instructions: Vec<Instruction>,
}

impl View for GotoProgram {
    type V = Seq<Instruction>;

    open spec fn view(&self) -> Seq<Instruction> {
        self.instructions@
    }
}

/// What a machine holds between two instructions.
#[verifier::ext_equal]
pub struct Configuration {
    /// The address of the instruction to execute next.
    pub counter: nat,
    /// The registers.
    pub memory: Seq<u64>,
}

/// Why a machine cannot execute its next instruction.
#[derive(Debug, Clone, Copy, PartialEq, Eq, Structural)]
pub enum RuntimeFault {
    /// The program holds no instruction at the program counter.
    NoInstruction,
    /// The instruction names a register that the machine does not have.
    NoRegister { cell: RegisterIndex },
    /// The instruction would add one to a register that holds `u64::MAX`.
    Overflow { cell: RegisterIndex },
    /// The instruction would take one from a register that holds zero.
    Underflow { cell: RegisterIndex },
}

impl RuntimeFault {
    /// The fault in words.
    pub open spec fn text(self) -> Seq<char> {
        match self {
            RuntimeFault::NoInstruction => "no instruction at the program counter"@,
            RuntimeFault::NoRegister { cell } => "no register "@ + decimal(cell as nat),
            RuntimeFault::Overflow { cell } => "overflow in register "@ + decimal(cell as nat),
            RuntimeFault::Underflow { cell } => "underflow in register "@ + decimal(cell as nat),
        }
    }

    /// Puts the fault into words.
    pub fn message(self) -> (message: String)
        ensures
            message@ == self.text(),
    {
        match self {
            RuntimeFault::NoInstruction => String::from_str(
                "no instruction at the program counter",
            ),
            RuntimeFault::NoRegister { cell } => {
                let mut message = String::from_str("no register ");
                append_decimal(&mut message, cell);
                message
            },
            RuntimeFault::Overflow { cell } => {
                let mut message = String::from_str("overflow in register ");
                append_decimal(&mut message, cell);
                message
            },
            RuntimeFault::Underflow { cell } => {
                let mut message = String::from_str("underflow in register ");
                append_decimal(&mut message, cell);
                message
            },
        }
    }
}

/// Whether a machine has come to its end.
#[derive(Debug, Clone, Copy, PartialEq, Eq, Structural)]
pub enum Status {
    /// The instruction at the program counter is `Stop`.
    Halted,
    /// The machine can go on.
    Running,
}

/// What the instruction at the program counter does.
pub enum Transition {
    /// It is `Stop`: the machine stays as it is.
    Halt,
    /// It takes the machine to a new configuration.
    Next(Configuration),
    /// It cannot be executed.
    Fault(RuntimeFault),
}

/// The configuration of `from` with the program counter at `counter`.
pub open spec fn jump(from: Configuration, counter: nat) -> Configuration {
    Configuration { counter, memory: from.memory }
}

/// The configuration of `from` with `value` in register `cell` and the
/// program counter at the next instruction.
pub open spec fn store(from: Configuration, cell: RegisterIndex, value: int) -> Configuration {
    Configuration {
        counter: from.counter + 1,
        memory: from.memory.update(cell as int, value as u64),
    }
}

/// One instruction of `program`, executed in configuration `at`.
pub open spec fn step(program: Seq<Instruction>, at: Configuration) -> Transition {
    if at.counter >= program.len() {
        Transition::Fault(RuntimeFault::NoInstruction)
    } else {
        match program[at.counter as int] {
            Instruction::Stop => Transition::Halt,
            Instruction::Inc { cell } => if cell >= at.memory.len() {
                Transition::Fault(RuntimeFault::NoRegister { cell })
            } else if at.memory[cell as int] == u64::MAX {
                Transition::Fault(RuntimeFault::Overflow { cell })
            } else {
                Transition::Next(store(at, cell, at.memory[cell as int] + 1))
            },
            Instruction::Dec { cell } => if cell >= at.memory.len() {
                Transition::Fault(RuntimeFault::NoRegister { cell })
            } else if at.memory[cell as int] == 0 {
                Transition::Fault(RuntimeFault::Underflow { cell })
            } else {
                Transition::Next(store(at, cell, at.memory[cell as int] - 1))
            },
            Instruction::Goto { cell } => Transition::Next(jump(at, cell as nat)),
            Instruction::GotoZ { condition_cell, goto_cell } => if condition_cell
                >= at.memory.len() {
                Transition::Fault(RuntimeFault::NoRegister { cell: condition_cell })
            } else if at.memory[condition_cell as int] == 0 {
                Transition::Next(jump(at, goto_cell as nat))
            } else {
                Transition::Next(jump(at, at.counter + 1))
            },
        }
    }
}

/// Where a run ends, and how.
#[verifier::ext_equal]
pub struct Run {
    /// The configuration in which the run ends.
    pub end: Configuration,
    /// `Ok(Halted)` at a `Stop`, `Ok(Running)` where the run used up its
    /// limit, and the fault where an instruction could not be executed.
    pub result: Result<Status, RuntimeFault>,
}

/// The run of `program` that starts in `start` and executes at most `limit`
/// instructions, a final `Stop` counted among them.
pub open spec fn execute(program: Seq<Instruction>, start: Configuration, limit: nat) -> Run
    decreases limit,
{
    if limit == 0 {
        Run { end: start, result: Ok(Status::Running) }
    } else {
        match step(program, start) {
            Transition::Halt => Run { end: start, result: Ok(Status::Halted) },
            Transition::Fault(fault) => Run { end: start, result: Err(fault) },
            Transition::Next(next) => execute(program, next, (limit - 1) as nat),
        }
    }
}

/// A machine at work on a program.
#[derive(Debug)]
pub struct GotoProgramState<'a> {
    pub program: &'a GotoProgram,
    pub program_counter: InstructionAddress,
    pub memory: Vec<u64>,
}

impl<'a> View for GotoProgramState<'a> {
    type V = Configuration;

    open spec fn view(&self) -> Configuration {
        Configuration { counter: self.program_counter as nat, memory: self.memory@ }
    }
}

impl<'a> GotoProgramState<'a> {
    /// A machine at the first instruction of `program`, with the registers
    /// `memory`.
    pub fn new(program: &'a GotoProgram, memory: Vec<u64>) -> (state: Self)
        ensures
            state.program == program,
            state@ == (Configuration { counter: 0, memory: memory@ }),
    {
        GotoProgramState { program, program_counter: 0, memory }
    }

    /// Executes the instruction at the program counter.
    ///
    /// At a `Stop`, and where the instruction cannot be executed, the machine
    /// stays as it is.
    pub fn step(&mut self) -> (result: Result<Status, RuntimeFault>)
        ensures
            final(self).program == old(self).program,
            match step(old(self).program@, old(self)@) {
                Transition::Halt => result == Ok::<Status, RuntimeFault>(Status::Halted)
                    && final(self)@ == old(self)@,
                Transition::Next(next) => result == Ok::<Status, RuntimeFault>(Status::Running)
                    && final(self)@ == next,
                Transition::Fault(fault) => result == Err::<Status, RuntimeFault>(fault)
                    && final(self)@ == old(self)@,
            },
    {
        let counter = self.program_counter;
        if counter >= self.program.instructions.len() {
            return Err(RuntimeFault::NoInstruction);
        }
        match self.program.instructions[counter] {
            Instruction::Stop => Ok(Status::Halted),
            Instruction::Inc { cell } => {
                if cell >= self.memory.len() {
                    return Err(RuntimeFault::NoRegister { cell });
                }
                let value = self.memory[cell];
                if value == u64::MAX {
                    return Err(RuntimeFault::Overflow { cell });
                }
                self.memory.set(cell, value + 1);
                self.program_counter = counter + 1;
                Ok(Status::Running)
            },
            Instruction::Dec { cell } => {
                if cell >= self.memory.len() {
                    return Err(RuntimeFault::NoRegister { cell });
                }
                let value = self.memory[cell];
                if value == 0 {
                    return Err(RuntimeFault::Underflow { cell });
                }
                self.memory.set(cell, value - 1);
                self.program_counter = counter + 1;
                Ok(Status::Running)
            },
            Instruction::Goto { cell } => {
                self.program_counter = cell;
                Ok(Status::Running)
            },
            Instruction::GotoZ { condition_cell, goto_cell } => {
                if condition_cell >= self.memory.len() {
                    return Err(RuntimeFault::NoRegister { cell: condition_cell });
                }
                if self.memory[condition_cell] == 0 {
                    self.program_counter = goto_cell;
                } else {
                    self.program_counter = counter + 1;
                }
                Ok(Status::Running)
            },
        }
    }

    /// Executes instructions until the machine halts at a `Stop`, an
    /// instruction cannot be executed, or `limit` instructions are done.
    ///
    /// After `Ok(Status::Running)` another call takes the run up where this
    /// one left it.
    pub fn run(&mut self, limit: u64) -> (result: Result<Status, RuntimeFault>)
        ensures
            final(self).program == old(self).program,
            final(self)@ == execute(old(self).program@, old(self)@, limit as nat).end,
            result == execute(old(self).program@, old(self)@, limit as nat).result,
    {
        let mut done: u64 = 0;
        while done < limit
            invariant
                done <= limit,
                self.program == old(self).program,
                execute(old(self).program@, old(self)@, limit as nat) == execute(
                    self.program@,
                    self@,
                    (limit - done) as nat,
                ),
            decreases limit - done,
        {
            match self.step() {
                Ok(Status::Running) => {
                    done += 1;
                },
                Ok(Status::Halted) => {
                    return Ok(Status::Halted);
                },
                Err(fault) => {
                    return Err(fault);
                },
            }
        }
        Ok(Status::Running)
    }
}

/// Once the program counter is at a `Stop`, the machine halts there: the
/// step changes neither counter nor registers, and a run of any length ends
/// where it began.
pub proof fn lemma_stop_halts(program: Seq<Instruction>, at: Configuration, limit: nat)
    requires
        at.counter < program.len(),
        program[at.counter as int] == Instruction::Stop,
    ensures
        step(program, at) == Transition::Halt,
        execute(program, at, limit).end == at,
        limit > 0 ==> execute(program, at, limit).result == Ok::<Status, RuntimeFault>(
            Status::Halted,
        ),
{
}

/// A run halts only at a `Stop`.
pub proof fn lemma_halts_at_stop(program: Seq<Instruction>, start: Configuration, limit: nat)
    requires
        execute(program, start, limit).result == Ok::<Status, RuntimeFault>(Status::Halted),
    ensures
        execute(program, start, limit).end.counter < program.len(),
        program[execute(program, start, limit).end.counter as int] == Instruction::Stop,
    decreases limit,
{
    if limit > 0 {
        match step(program, start) {
            Transition::Next(next) => {
                lemma_halts_at_stop(program, next, (limit - 1) as nat);
            },
            _ => {},
        }
    }
}

/// Halting is final: a machine that has halted, run again, stays where it is
/// and halts again.
pub proof fn lemma_halted_stays_halted(
    program: Seq<Instruction>,
    start: Configuration,
    limit: nat,
    again: nat,
)
    requires
        execute(program, start, limit).result == Ok::<Status, RuntimeFault>(Status::Halted),
    ensures
        execute(program, execute(program, start, limit).end, again).end == execute(
            program,
            start,
            limit,
        ).end,
        again > 0 ==> execute(program, execute(program, start, limit).end, again).result == Ok::<
            Status,
            RuntimeFault,
        >(Status::Halted),
{
    lemma_halts_at_stop(program, start, limit);
    lemma_stop_halts(program, execute(program, start, limit).end, again);
}

/// `GotoZ` jumps exactly if its register holds zero: on zero the machine
/// continues at the target, on any other value at the next instruction, and
/// the registers stay as they are.
pub proof fn lemma_goto_z(
    program: Seq<Instruction>,
    at: Configuration,
    condition_cell: RegisterIndex,
    goto_cell: InstructionAddress,
)
    requires
        at.counter < program.len(),
        program[at.counter as int] == (Instruction::GotoZ { condition_cell, goto_cell }),
        condition_cell < at.memory.len(),
    ensures
        at.memory[condition_cell as int] == 0 ==> step(program, at) == Transition::Next(
            Configuration { counter: goto_cell as nat, memory: at.memory },
        ),
        at.memory[condition_cell as int] != 0 ==> step(program, at) == Transition::Next(
            Configuration { counter: at.counter + 1, memory: at.memory },
        ),
{
}

/// A run in two parts is the run in one: where the first part uses up its
/// limit, the second goes on from its end, and where the first part halts or
/// faults, that is the end of the whole.
pub proof fn lemma_run_resumes(
    program: Seq<Instruction>,
    start: Configuration,
    first: nat,
    second: nat,
)
    ensures
        execute(program, start, first + second) == if execute(program, start, first).result
            == Ok::<Status, RuntimeFault>(Status::Running) {
            execute(program, execute(program, start, first).end, second)
        } else {
            execute(program, start, first)
        },
    decreases first,
{
    if first > 0 {
        match step(program, start) {
            Transition::Next(next) => {
                lemma_run_resumes(program, next, (first - 1) as nat, second);
            },
            _ => {},
        }
    }
}

/// No run changes the number of registers.
pub proof fn lemma_register_count(program: Seq<Instruction>, start: Configuration, limit: nat)
    ensures
        execute(program, start, limit).end.memory.len() == start.memory.len(),
    decreases limit,
{
    if limit > 0 {
        match step(program, start) {
            Transition::Next(next) => {
                lemma_register_count(program, next, (limit - 1) as nat);
            },
            _ => {},
        }
    }
}

} // verus!
