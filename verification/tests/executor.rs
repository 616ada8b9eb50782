use brainfuckrs::compiler::compile_bf;
use brainfuckrs::executor::{execute_bf, read_compile_string, Status};
use brainfuckrs::instruction::{Instruction, Operator};
use brainfuckrs::machine::{ExecutionError, Machine, Outcome, DATA_SIZE};
use brainfuckrs::syntax::CompilationError;

const BUDGET: usize = 10_000_000;

fn run(text: &str, input: &[u8]) -> brainfuckrs::executor::Execution {
    let program = compile_bf(text).unwrap();
    execute_bf(&program, input, BUDGET)
}

#[test]
fn three_increments_then_output() {
    let run = run("+++.", &[]);
    assert_eq!(run.status, Status::Halted);
    assert_eq!(run.output, vec![3]);
    assert_eq!(run.steps, 4);
    assert_eq!(run.consumed, 0);
}

#[test]
fn clear_loop_runs_once() {
    let run = run("+[-]", &[]);
    assert_eq!(run.status, Status::Halted);
    assert_eq!(run.output, vec![]);
    assert_eq!(run.steps, 4);
    assert_eq!(run.machine.cell(), 0);
    assert_eq!(run.machine.pc(), 4);
    assert_eq!(run.machine.data_ptr(), 0);
}

#[test]
fn echoes_one_input_byte() {
    let run = run(",.", &[65]);
    assert_eq!(run.status, Status::Halted);
    assert_eq!(run.output, b"A".to_vec());
    assert_eq!(run.consumed, 1);
}

#[test]
fn hello_world() {
    let text = "++++++++[>++++[>++>+++>+++>+<<<<-]>+>+>->>+[<]<-]>>.>---.+++++++..+++.>>.<-.<.+++.------.--------.>>+.>++.";
    let run = run(text, &[]);
    assert_eq!(run.status, Status::Halted);
    assert_eq!(run.output, b"Hello World!\n".to_vec());
}

#[test]
fn hello_world_through_the_pipeline() {
    let text = "++++++++[>++++[>++>+++>+++>+<<<<-]>+>+>->>+[<]<-]>>.>---.+++++++..+++.>>.<-.<.+++.------.--------.>>+.>++.";
    let run = read_compile_string(text, &[], BUDGET).unwrap();
    assert_eq!(run.status, Status::Halted);
    assert_eq!(String::from_utf8(run.output).unwrap(), "Hello World!\n");
}

#[test]
fn pipeline_reports_compilation_errors() {
    assert_eq!(
        read_compile_string("+]", &[], BUDGET).err(),
        Some(CompilationError::UnmatchedClosingBracket)
    );
    assert_eq!(
        read_compile_string("[+", &[], BUDGET).err(),
        Some(CompilationError::UnmatchedOpeningBracket)
    );
}

#[test]
fn empty_program_is_halted_at_once() {
    let run = execute_bf(&[], &[1, 2, 3], BUDGET);
    assert_eq!(run.status, Status::Halted);
    assert_eq!(run.steps, 0);
    assert_eq!(run.consumed, 0);
    assert_eq!(run.output, vec![]);
    let run = execute_bf(&[], &[], 0);
    assert_eq!(run.status, Status::Halted);
}

#[test]
fn cells_wrap_around() {
    assert_eq!(run("-.", &[]).output, vec![255]);
    assert_eq!(run("--.", &[]).output, vec![254]);
    let text = "+".repeat(256) + ".";
    assert_eq!(run(&text, &[]).output, vec![0]);
    let text = "+".repeat(255) + ".+.+.";
    assert_eq!(run(&text, &[]).output, vec![255, 0, 1]);
    assert_eq!(run(",+.", &[255]).output, vec![0]);
    assert_eq!(run(",-.", &[0]).output, vec![255]);
}

#[test]
fn backward_jump_is_taken_on_any_nonzero_cell() {
    // The cell holds 255 when the loop is entered and 0 after one pass.
    let run = run("-[+]", &[]);
    assert_eq!(run.status, Status::Halted);
    assert_eq!(run.steps, 4);
    assert_eq!(run.machine.cell(), 0);
    // Counting down from 200 passes through the values above 127.
    let run = self::run(",[-]", &[200]);
    assert_eq!(run.status, Status::Halted);
    assert_eq!(run.steps, 2 + 2 * 200);
    assert_eq!(run.machine.cell(), 0);
}

#[test]
fn forward_jump_skips_the_loop_on_zero() {
    let run = run("[+.]+.", &[]);
    assert_eq!(run.status, Status::Halted);
    assert_eq!(run.output, vec![1]);
    assert_eq!(run.steps, 3);
}

#[test]
fn input_is_read_in_order() {
    let run = run(",>,>,<<.>.>.", &[7, 8, 9, 10]);
    assert_eq!(run.output, vec![7, 8, 9]);
    assert_eq!(run.consumed, 3);
    assert_eq!(run.status, Status::Halted);
}

#[test]
fn missing_input_aborts_the_run() {
    let run = run("+.,.", &[]);
    assert_eq!(run.status, Status::Fault(ExecutionError::InputExhausted));
    assert_eq!(run.output, vec![1]);
    assert_eq!(run.steps, 2);
    assert_eq!(run.machine.pc(), 2);
    assert_eq!(run.machine.cell(), 1);
    let run = self::run(",,", &[5]);
    assert_eq!(run.status, Status::Fault(ExecutionError::InputExhausted));
    assert_eq!(run.consumed, 1);
    assert_eq!(run.steps, 1);
}

#[test]
fn data_pointer_cannot_leave_the_tape_on_the_left() {
    let run = run("+<.", &[]);
    assert_eq!(run.status, Status::Fault(ExecutionError::PointerOutOfBounds));
    assert_eq!(run.steps, 1);
    assert_eq!(run.machine.data_ptr(), 0);
    assert_eq!(run.machine.pc(), 1);
    assert_eq!(run.output, vec![]);
}

#[test]
fn data_pointer_cannot_leave_the_tape_on_the_right() {
    assert_eq!(DATA_SIZE, 65535);
    let text = ">".repeat(DATA_SIZE - 1) + "+.";
    let run = run(&text, &[]);
    assert_eq!(run.status, Status::Halted);
    assert_eq!(run.machine.data_ptr(), DATA_SIZE - 1);
    assert_eq!(run.output, vec![1]);
    let text = ">".repeat(DATA_SIZE) + "+.";
    let run = self::run(&text, &[]);
    assert_eq!(run.status, Status::Fault(ExecutionError::PointerOutOfBounds));
    assert_eq!(run.machine.data_ptr(), DATA_SIZE - 1);
    assert_eq!(run.steps, DATA_SIZE - 1);
    assert_eq!(run.output, vec![]);
}

#[test]
fn step_budget_ends_an_endless_loop() {
    let program = compile_bf("+[]").unwrap();
    let run = execute_bf(&program, &[], 1000);
    assert_eq!(run.status, Status::Running);
    assert_eq!(run.steps, 1000);
    let run = execute_bf(&program, &[], 0);
    assert_eq!(run.status, Status::Running);
    assert_eq!(run.steps, 0);
}

#[test]
fn budget_of_exactly_the_program_length_halts() {
    let program = compile_bf("+++.").unwrap();
    let run = execute_bf(&program, &[], 4);
    assert_eq!(run.status, Status::Halted);
    assert_eq!(run.output, vec![3]);
    let run = execute_bf(&program, &[], 3);
    assert_eq!(run.status, Status::Running);
    assert_eq!(run.output, vec![]);
    assert_eq!(run.steps, 3);
}

#[test]
fn machine_starts_cleared() {
    let machine = Machine::new();
    assert_eq!(machine.pc(), 0);
    assert_eq!(machine.data_ptr(), 0);
    assert_eq!(machine.cell(), 0);
}

#[test]
fn stepping_by_hand() {
    let program = compile_bf(",+.").unwrap();
    let mut machine = Machine::new();
    assert!(!machine.is_halted(&program));
    assert!(machine.awaits_input(&program));
    assert_eq!(machine.step(&program, None), Outcome::Fault(ExecutionError::InputExhausted));
    assert_eq!(machine.pc(), 0);
    assert_eq!(machine.step(&program, Some(41)), Outcome::Continue);
    assert_eq!(machine.cell(), 41);
    assert!(!machine.awaits_input(&program));
    assert_eq!(machine.step(&program, Some(99)), Outcome::Continue);
    assert_eq!(machine.cell(), 42);
    assert_eq!(machine.step(&program, None), Outcome::Output(42));
    assert!(machine.is_halted(&program));
    assert!(!machine.awaits_input(&program));
    assert_eq!(machine.step(&program, None), Outcome::Halted);
    assert_eq!(machine.pc(), 3);
}

#[test]
fn jump_out_of_the_program_halts() {
    let program = vec![
        Instruction { operator: Operator::JumpForward, operand: 17 },
        Instruction { operator: Operator::IncCell, operand: 0 },
        Instruction { operator: Operator::OutputCell, operand: 0 },
    ];
    let run = execute_bf(&program, &[], BUDGET);
    assert_eq!(run.status, Status::Halted);
    assert_eq!(run.steps, 1);
    assert_eq!(run.machine.pc(), 3);
    assert_eq!(run.output, vec![]);
    let program = vec![Instruction { operator: Operator::JumpForward, operand: usize::MAX }];
    let run = execute_bf(&program, &[], BUDGET);
    assert_eq!(run.status, Status::Halted);
    assert_eq!(run.machine.pc(), 1);
}

#[test]
fn moves_and_copies_between_cells() {
    // Adds the two input bytes.
    let run = run(",>,[<+>-]<.", &[30, 12]);
    assert_eq!(run.output, vec![42]);
    assert_eq!(run.status, Status::Halted);
    assert_eq!(run.machine.data_ptr(), 0);
}
