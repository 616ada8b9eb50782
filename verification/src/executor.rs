//! Whole runs of a program on given input bytes.
//!
//! A run is described by its trace: the machine state, the bytes written and
//! the number of input bytes read after a number of steps ([`after`]).
//! [`execute_bf`] computes the trace for a step budget; a caller that does
//! real input and output drives [`Machine::step`] itself.
use vstd::prelude::*;
use crate::compiler::compile_bf;
use crate::instruction::Instruction;
use crate::machine::{next_state, outcome_of, ExecutionError, Machine, MachineState, Outcome};
use crate::syntax::{assembly, balanced, bracket_error, tokens, CompilationError};

verus! {

/// How far a run has come.
#[derive(Clone, Copy, Debug, PartialEq, Eq, Structural)]
pub enum Status {
    /// The next instruction can be executed.
    Running,
    /// The program counter has left the program: the run is complete.
    Halted,
    /// The run was aborted at the instruction under the program counter.
    Fault(ExecutionError),
}

/// A run after some number of steps.
pub struct Trace {
    pub state: MachineState,
    pub status: Status,
    /// The bytes written so far, in order.
    pub output: Seq<u8>,
    /// The number of input bytes read so far.
    pub consumed: nat,
    /// The number of instructions executed so far.
    pub steps: nat,
}

/// `Halted` behind the last instruction, `Running` before.
pub open spec fn status_at(program: Seq<Instruction>, s: MachineState) -> Status {
    if s.halted(program) {
        Status::Halted
    } else {
        Status::Running
    }
}

/// The trace before the first step.
pub open spec fn start(program: Seq<Instruction>) -> Trace {
    Trace {
        state: MachineState::initial(),
        status: status_at(program, MachineState::initial()),
        output: Seq::empty(),
        consumed: 0,
        steps: 0,
    }
}

/// The input byte that the next step is offered: the first one not read
/// yet.
pub open spec fn feed(input: Seq<u8>, consumed: nat) -> Option<u8> {
    if consumed < input.len() {
        Some(input[consumed as int])
    } else {
        None
    }
}

/// One step of a run. A run that is halted or aborted stays as it is. An
/// input instruction reads the next input byte, and aborts the run if there
/// is none; a move of the data pointer off the tape aborts it too.
pub open spec fn advance(program: Seq<Instruction>, input: Seq<u8>, t: Trace) -> Trace {
    if t.status != Status::Running {
        t
    } else {
        let byte = feed(input, t.consumed);
        let state = next_state(program, t.state, byte);
        match outcome_of(program, t.state, byte) {
            Outcome::Halted => Trace { status: Status::Halted, ..t },
            Outcome::Fault(e) => Trace { status: Status::Fault(e), ..t },
            Outcome::Output(b) => Trace {
                state,
                status: status_at(program, state),
                output: t.output.push(b),
                steps: t.steps + 1,
                ..t
            },
            Outcome::Continue => Trace {
                state,
                status: status_at(program, state),
                consumed: if t.state.awaits_input(program) {
                    t.consumed + 1
                } else {
                    t.consumed
                },
                steps: t.steps + 1,
                ..t
            },
        }
    }
}

/// The trace of `program` on `input` after at most `n` steps.
pub open spec fn after(program: Seq<Instruction>, input: Seq<u8>, n: nat) -> Trace
    decreases n,
{
    if n == 0 {
        start(program)
    } else {
        advance(program, input, after(program, input, (n - 1) as nat))
    }
}

/// A run that has stopped does not change any more.
pub proof fn lemma_stopped_stays(program: Seq<Instruction>, input: Seq<u8>, k: nat, n: nat)
    requires
        k <= n,
        after(program, input, k).status != Status::Running,
    ensures
        after(program, input, n) == after(program, input, k),
    decreases n,
{
    if k < n {
        lemma_stopped_stays(program, input, k, (n - 1) as nat);
    }
}

/// What holds of a run at every step: the data pointer is on the tape and
/// the tape keeps its length; no more input was read than there is; each
/// byte read or written took a step; a run that is still going has used
/// all its steps; and a run is halted only behind the last instruction.
pub proof fn lemma_trace_invariants(program: Seq<Instruction>, input: Seq<u8>, n: nat)
    ensures
        ({
            let t = after(program, input, n);
            &&& t.state.wf()
            &&& t.steps <= n
            &&& t.consumed <= input.len()
            &&& t.consumed + t.output.len() <= t.steps
            &&& t.status == Status::Running ==> t.steps == n && !t.state.halted(program)
            &&& t.status == Status::Halted ==> t.state.halted(program)
        }),
    decreases n,
{
    if n > 0 {
        lemma_trace_invariants(program, input, (n - 1) as nat);
    }
}

/// The result of [`execute_bf`].
pub struct Execution {
    /// The machine as the run left it.
    pub machine: Machine,
    /// `Running` if the step budget ended the run.
    pub status: Status,
    /// The bytes written, in order.
    pub output: Vec<u8>,
    /// The number of input bytes read.
    pub consumed: usize,
    /// The number of instructions executed.
    pub steps: usize,
}

impl View for Execution {
    type V = Trace;

    open spec fn view(&self) -> Trace {
        Trace {
            state: self.machine@,
            status: self.status,
            output: self.output@,
            consumed: self.consumed as nat,
            steps: self.steps as nat,
        }
    }
}

/// Runs `program` on a fresh machine for at most `max_steps` instructions,
/// reading from `input` and collecting what is written.
pub fn execute_bf(program: &[Instruction], input: &[u8], max_steps: usize) -> (run: Execution)
    ensures
        run@ == after(program@, input@, max_steps as nat),
        run@.state.wf(),
{
    let mut run = Execution {
        machine: Machine::new(),
        status: Status::Running,
        output: Vec::new(),
        consumed: 0,
        steps: 0,
    };
    if run.machine.is_halted(program) {
        run.status = Status::Halted;
    }
    let ghost mut k: nat = 0;
    while run.steps < max_steps && run.status == Status::Running
        invariant
            run@ == after(program@, input@, k),
            run@.state.wf(),
            k <= max_steps,
            run.consumed <= input.len(),
            run.status == Status::Running ==> k == run.steps,
        decreases max_steps - run.steps, if run.status == Status::Running { 1int } else { 0int },
    {
        let byte = if run.consumed < input.len() {
            Some(input[run.consumed])
        } else {
            None
        };
        let reads = run.machine.awaits_input(program);
        match run.machine.step(program, byte) {
            Outcome::Halted => {
                run.status = Status::Halted;
            },
            Outcome::Fault(e) => {
                run.status = Status::Fault(e);
            },
            Outcome::Output(b) => {
                run.output.push(b);
                run.steps = run.steps + 1;
            },
            Outcome::Continue => {
                if reads {
                    run.consumed = run.consumed + 1;
                }
                run.steps = run.steps + 1;
            },
        }
        if run.status == Status::Running && run.machine.is_halted(program) {
            run.status = Status::Halted;
        }
        proof {
            k = k + 1;
        }
    }
    proof {
        if run.status != Status::Running {
            lemma_stopped_stays(program@, input@, k, max_steps as nat);
        }
    }
    run
}

/// Compiles `contents` and, if that succeeds, runs the program as
/// [`execute_bf`] does.
pub fn read_compile_string(contents: &str, input: &[u8], max_steps: usize) -> (result: Result<
    Execution,
    CompilationError,
>)
    ensures
        match result {
            Ok(run) => {
                &&& balanced(tokens(contents@))
                &&& run@ == after(assembly(tokens(contents@)), input@, max_steps as nat)
                &&& run@.state.wf()
            },
            Err(e) => bracket_error(tokens(contents@)) == Some(e),
        },
{
    match compile_bf(contents) {
        Ok(program) => Ok(execute_bf(program.as_slice(), input, max_steps)),
        Err(e) => Err(e),
    }
}

} // verus!
