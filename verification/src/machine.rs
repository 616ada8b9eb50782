//! The virtual machine: a program counter, a data pointer and a tape of
//! byte cells.
//!
//! The machine does no input or output of its own. [`Machine::step`]
//! executes one instruction and reports what the caller has to do; a byte
//! for an input instruction is handed in by the caller.
//!
//! Two policies are fixed here. A cell is a byte and wraps: 255 + 1 is 0 and
//! 0 - 1 is 255. The data pointer never leaves the tape: an instruction that
//! would move it off either end is a fault and changes nothing.
use vstd::prelude::*;
use crate::instruction::{Instruction, Operator};

verus! {

/// The number of cells of the tape.
pub const DATA_SIZE: usize = 65535;

/// Why a run was aborted.
#[derive(Clone, Copy, Debug, PartialEq, Eq, Structural)]
pub enum ExecutionError {
    /// An input instruction found no byte to read.
    InputExhausted,
    /// The data pointer would have left the tape.
    PointerOutOfBounds,
}

/// What one call of [`Machine::step`] did.
#[derive(Clone, Copy, Debug, PartialEq, Eq, Structural)]
pub enum Outcome {
    /// An instruction was executed.
    Continue,
    /// An output instruction was executed; the byte is to be written.
    Output(u8),
    /// The program counter is past the end of the program.
    Halted,
    /// The instruction was not executed.
    Fault(ExecutionError),
}

/// The mathematical state of a machine.
pub struct MachineState {
    pub pc: nat,
    pub data_ptr: nat,
    pub tape: Seq<u8>,
}

impl MachineState {
    /// The state in which every run starts.
    pub open spec fn initial() -> MachineState {
        MachineState { pc: 0, data_ptr: 0, tape: Seq::new(DATA_SIZE as nat, |i: int| 0u8) }
    }

    /// The tape has its full length and the data pointer is on it.
    pub open spec fn wf(self) -> bool {
        &&& self.tape.len() == DATA_SIZE
        &&& self.data_ptr < DATA_SIZE
    }

    /// The cell under the data pointer.
    pub open spec fn cell(self) -> u8 {
        self.tape[self.data_ptr as int]
    }

    /// The program counter is past the end of `program`.
    pub open spec fn halted(self, program: Seq<Instruction>) -> bool {
        self.pc >= program.len()
    }

    /// The next instruction reads a byte.
    pub open spec fn awaits_input(self, program: Seq<Instruction>) -> bool {
        !self.halted(program) && program[self.pc as int].operator == Operator::InputCell
    }

    /// The same state with another program counter.
    pub open spec fn at(self, pc: nat) -> MachineState {
        MachineState { pc, ..self }
    }

    /// The same state with another value in the current cell.
    pub open spec fn store(self, value: u8) -> MachineState {
        MachineState { tape: self.tape.update(self.data_ptr as int, value), ..self }
    }
}

/// Where a taken jump with the given operand continues: behind the partner,
/// or at the end of the program if the operand lies outside it.
pub open spec fn jump_target(program: Seq<Instruction>, operand: usize) -> nat {
    if operand < program.len() {
        (operand + 1) as nat
    } else {
        program.len()
    }
}

/// The cell value after `+`.
pub open spec fn incremented(cell: u8) -> u8 {
    ((cell + 1) % 256) as u8
}

/// The cell value after `-`.
pub open spec fn decremented(cell: u8) -> u8 {
    ((cell + 255) % 256) as u8
}

/// The fault, if any, that keeps the next instruction from being executed.
pub open spec fn fault_of(program: Seq<Instruction>, s: MachineState, input: Option<u8>) -> Option<
    ExecutionError,
> {
    if s.halted(program) {
        None
    } else {
        match program[s.pc as int].operator {
            Operator::IncDataPointer if s.data_ptr + 1 >= DATA_SIZE => Some(
                ExecutionError::PointerOutOfBounds,
            ),
            Operator::DecDataPointer if s.data_ptr == 0 => Some(ExecutionError::PointerOutOfBounds),
            Operator::InputCell if input is None => Some(ExecutionError::InputExhausted),
            _ => None,
        }
    }
}

/// The state after one call of [`Machine::step`]. A halted machine and a
/// faulting instruction leave the state as it is.
pub open spec fn next_state(program: Seq<Instruction>, s: MachineState, input: Option<u8>) -> MachineState {
    if s.halted(program) || fault_of(program, s, input) is Some {
        s
    } else {
        let ins = program[s.pc as int];
        let next = s.pc + 1;
        match ins.operator {
            Operator::IncDataPointer => MachineState { data_ptr: s.data_ptr + 1, ..s.at(next) },
            Operator::DecDataPointer => MachineState {
                data_ptr: (s.data_ptr - 1) as nat,
                ..s.at(next)
            },
            Operator::IncCell => s.store(incremented(s.cell())).at(next),
            Operator::DecCell => s.store(decremented(s.cell())).at(next),
            Operator::OutputCell => s.at(next),
            Operator::InputCell => s.store(input->0).at(next),
            Operator::JumpForward => if s.cell() == 0 {
                s.at(jump_target(program, ins.operand))
            } else {
                s.at(next)
            },
            Operator::JumpBackward => if s.cell() != 0 {
                s.at(jump_target(program, ins.operand))
            } else {
                s.at(next)
            },
        }
    }
}

/// What one call of [`Machine::step`] reports.
pub open spec fn outcome_of(program: Seq<Instruction>, s: MachineState, input: Option<u8>) -> Outcome {
    if s.halted(program) {
        Outcome::Halted
    } else if let Some(e) = fault_of(program, s, input) {
        Outcome::Fault(e)
    } else if program[s.pc as int].operator == Operator::OutputCell {
        Outcome::Output(s.cell())
    } else {
        Outcome::Continue
    }
}

/// A step never takes the data pointer off the tape, nor changes the
/// tape's length.
pub proof fn lemma_step_preserves_wf(program: Seq<Instruction>, s: MachineState, input: Option<u8>)
    requires
        s.wf(),
    ensures
        next_state(program, s, input).wf(),
{
}

/// A virtual machine. Its tape always has [`DATA_SIZE`] cells and its data
/// pointer is always on the tape ([`MachineState::wf`]).
pub struct Machine {
    pc: usize,
    data_ptr: usize,
    tape: Vec<u8>,
}

impl View for Machine {
    type V = MachineState;

    closed spec fn view(&self) -> MachineState {
        MachineState { pc: self.pc as nat, data_ptr: self.data_ptr as nat, tape: self.tape@ }
    }
}

impl Machine {
    #[verifier::type_invariant]
    spec fn inv(&self) -> bool {
        &&& self.tape@.len() == DATA_SIZE
        &&& self.data_ptr < DATA_SIZE
    }

    /// A machine at the start of a run: program counter and data pointer at
    /// 0, every cell 0.
    pub fn new() -> (machine: Machine)
        ensures
            machine@ == MachineState::initial(),
            machine@.wf(),
    {
        let machine = Machine { pc: 0, data_ptr: 0, tape: vec![0u8; DATA_SIZE] };
        assert(machine@.tape =~= MachineState::initial().tape);
        machine
    }

    /// Executes the instruction at the program counter.
    ///
    /// `input` is the byte that an input instruction stores; no other
    /// instruction looks at it. A jump is taken forward on a zero cell and
    /// backward on a nonzero cell; a cell is a byte, so nonzero and positive
    /// are the same.
    pub fn step(&mut self, program: &[Instruction], input: Option<u8>) -> (outcome: Outcome)
        ensures
            old(self)@.wf(),
            final(self)@ == next_state(program@, old(self)@, input),
            outcome == outcome_of(program@, old(self)@, input),
            final(self)@.wf(),
    {
        proof {
            use_type_invariant(&*self);
        }
        if self.pc >= program.len() {
            return Outcome::Halted;
        }
        let ins = program[self.pc];
        let dp = self.data_ptr;
        let cell = self.tape[dp];
        let mut outcome = Outcome::Continue;
        let mut next = self.pc + 1;
        match ins.operator {
            Operator::IncDataPointer => {
                if dp + 1 >= DATA_SIZE {
                    return Outcome::Fault(ExecutionError::PointerOutOfBounds);
                }
                self.data_ptr = dp + 1;
            },
            Operator::DecDataPointer => {
                if dp == 0 {
                    return Outcome::Fault(ExecutionError::PointerOutOfBounds);
                }
                self.data_ptr = dp - 1;
            },
            Operator::IncCell => {
                self.tape[dp] = cell.wrapping_add(1);
            },
            Operator::DecCell => {
                self.tape[dp] = cell.wrapping_sub(1);
            },
            Operator::OutputCell => {
                outcome = Outcome::Output(cell);
            },
            Operator::InputCell => {
                match input {
                    Some(byte) => {
                        self.tape[dp] = byte;
                    },
                    None => {
                        return Outcome::Fault(ExecutionError::InputExhausted);
                    },
                }
            },
            Operator::JumpForward => {
                if cell == 0 {
                    next = Self::target(program, ins.operand);
                }
            },
            Operator::JumpBackward => {
                if cell != 0 {
                    next = Self::target(program, ins.operand);
                }
            },
        }
        self.pc = next;
        outcome
    }

    /// The program counter.
    pub fn pc(&self) -> (pc: usize)
        ensures
            pc == self@.pc,
    {
        self.pc
    }

    /// The data pointer.
    pub fn data_ptr(&self) -> (data_ptr: usize)
        ensures
            data_ptr == self@.data_ptr,
    {
        self.data_ptr
    }

    /// The cell under the data pointer.
    pub fn cell(&self) -> (cell: u8)
        ensures
            self@.wf(),
            cell == self@.cell(),
    {
        proof {
            use_type_invariant(self);
        }
        self.tape[self.data_ptr]
    }

    /// Whether the program counter is past the end of `program`.
    pub fn is_halted(&self, program: &[Instruction]) -> (halted: bool)
        ensures
            halted == self@.halted(program@),
    {
        self.pc >= program.len()
    }

    /// Whether the next instruction reads a byte, so that the caller has to
    /// bring one to the next [`Machine::step`].
    pub fn awaits_input(&self, program: &[Instruction]) -> (awaits: bool)
        ensures
            awaits == self@.awaits_input(program@),
    {
        self.pc < program.len() && program[self.pc].operator == Operator::InputCell
    }

    fn target(program: &[Instruction], operand: usize) -> (pc: usize)
        ensures
            pc == jump_target(program@, operand),
    {
        if operand < program.len() {
            operand + 1
        } else {
            program.len()
        }
    }
}

} // verus!
