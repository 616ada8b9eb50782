//! The single-pass assembler.
use vstd::prelude::*;
use vstd::std_specs::iter::IteratorSpec;
use crate::instruction::{Instruction, Operator};
use crate::syntax::{
    assembles, assembly, balanced, bracket_error, depth, lemma_assembly_unique, matched, tokens,
    CompilationError,
};

verus! {

broadcast use vstd::string::group_string_axioms;

/// `result` is what compiling `text` gives: the program of its operators
/// if they are balanced, and their error if they are not.
pub open spec fn compiles_to(
    text: Seq<char>,
    result: Result<Vec<Instruction>, CompilationError>,
) -> bool {
    match result {
        Ok(program) => {
            &&& balanced(tokens(text))
            &&& assembles(tokens(text), program@)
            &&& program@ == assembly(tokens(text))
        },
        Err(e) => bracket_error(tokens(text)) == Some(e),
    }
}

/// Translates source text into a program.
///
/// Every character that is no operator is skipped. The text is accepted
/// exactly when its brackets are balanced, and each jump of the program then
/// holds the position of its partner.
pub fn compile_bf(input: &str) -> (result: Result<Vec<Instruction>, CompilationError>)
    ensures
        compiles_to(input@, result),
{
    let ghost all = tokens(input@);
    let mut program: Vec<Instruction> = Vec::new();
    // The positions of the `[` that are still open, outermost first.
    let mut jmp_stack: Vec<usize> = Vec::new();
    let mut chars = input.chars();
    // The operators emitted so far.
    let ghost mut done: Seq<Operator> = Seq::empty();
    loop
        invariant
            all == tokens(input@),
            chars.decrease() is Some,
            // The program carries a prefix of the operators of the text.
            done + tokens(chars.remaining()) == all,
            done.len() == program.len(),
            forall|i: int| 0 <= i < program.len() ==> (#[trigger] program[i]).operator == all[i],
            // No `]` so far came without a `[`.
            forall|k: int| 0 <= k <= program.len() ==> #[trigger] depth(all, k) >= 0,
            // The stack holds one open `[` for each level of depth, and
            // everything behind such a `[` lies deeper than it.
            jmp_stack.len() == depth(all, program.len() as int),
            forall|s: int|
                0 <= s < jmp_stack.len() ==> {
                    &&& (#[trigger] jmp_stack[s]) < program.len()
                    &&& all[jmp_stack[s] as int] == Operator::JumpForward
                    &&& depth(all, jmp_stack[s] as int) == s
                },
            forall|s: int, k: int|
                0 <= s < jmp_stack.len() && jmp_stack[s] < k <= program.len() ==> #[trigger] depth(
                    all,
                    k,
                ) > depth(all, #[trigger] jmp_stack[s] as int),
            // Every jump holds its partner, but for the `[` still open.
            forall|i: int|
                0 <= i < program.len() ==> match all[i] {
                    Operator::JumpForward => matched(all, i, (#[trigger] program[i]).operand as int)
                        || still_open(all, i, program.len() as int),
                    Operator::JumpBackward => matched(all, program[i].operand as int, i),
                    _ => program[i].operand == 0,
                },
        ensures
            done == all,
        decreases chars.decrease()->0,
    {
        let ghost rest = chars.remaining();
        let c = match chars.next() {
            Some(c) => c,
            None => {
                break ;
            },
        };
        let op = match Operator::from_char(c) {
            Some(op) => op,
            None => {
                continue ;
            },
        };
        let pc: usize = program.len();
        proof {
            assert(tokens(rest) == seq![op] + tokens(rest.drop_first()));
            assert(done.push(op) + tokens(rest.drop_first()) == done + tokens(rest));
            done = done.push(op);
        }
        match op {
            Operator::JumpForward => {
                program.push(Instruction { operator: op, operand: 0 });
                jmp_stack.push(pc);
            },
            Operator::JumpBackward => {
                let jmp_pc: usize = match jmp_stack.pop() {
                    Some(p) => p,
                    None => {
                        assert(depth(all, pc + 1) < 0);
                        return Err(CompilationError::UnmatchedClosingBracket);
                    },
                };
                program.push(Instruction { operator: op, operand: jmp_pc });
                program.set(jmp_pc, Instruction { operator: Operator::JumpForward, operand: pc });
            },
            _ => {
                program.push(Instruction { operator: op, operand: 0 });
            },
        }
    }
    if jmp_stack.len() > 0 {
        return Err(CompilationError::UnmatchedOpeningBracket);
    }
    proof {
        lemma_assembly_unique(all, program@);
    }
    Ok(program)
}

/// Compiling is repeatable: two compilations of one text both succeed or
/// both fail, with programs of the same length that agree in every operator
/// and operand, or with the same error.
pub proof fn lemma_compile_repeatable(
    text: Seq<char>,
    first: Result<Vec<Instruction>, CompilationError>,
    second: Result<Vec<Instruction>, CompilationError>,
)
    requires
        compiles_to(text, first),
        compiles_to(text, second),
    ensures
        first is Ok <==> second is Ok,
        first is Err ==> first->Err_0 == second->Err_0,
        first is Ok ==> {
            let a = first->Ok_0@;
            let b = second->Ok_0@;
            &&& a.len() == b.len()
            &&& forall|i: int|
                0 <= i < a.len() ==> (#[trigger] a[i]).operator == b[i].operator && a[i].operand
                    == b[i].operand
            &&& a == b
        },
{
}

/// Two texts with the same operators compile to the same result: what
/// stands between the operators has no effect.
pub proof fn lemma_compile_reads_operators_only(
    text: Seq<char>,
    other: Seq<char>,
    result: Result<Vec<Instruction>, CompilationError>,
)
    requires
        tokens(text) == tokens(other),
        compiles_to(text, result),
    ensures
        compiles_to(other, result),
{
}

/// The `[` at `open` has no partner among the first `upto` operators.
spec fn still_open(ops: Seq<Operator>, open: int, upto: int) -> bool {
    forall|k: int| open < k <= upto ==> #[trigger] depth(ops, k) > depth(ops, open)
}

} // verus!
