//! The bracket structure of a program, stated over sequences of operators.
//!
//! A source text is first reduced to its operators ([`tokens`]). The nesting
//! depth in front of each position ([`depth`]) then says which texts are
//! accepted ([`bracket_error`]) and which `[` belongs to which `]`
//! ([`matched`]).
use vstd::prelude::*;
use crate::instruction::{operator_of, Instruction, Operator};

verus! {

/// Why a source text was rejected.
#[derive(Clone, Copy, Debug, PartialEq, Eq, Structural)]
pub enum CompilationError {
    /// A `]` stands where no `[` is open.
    UnmatchedClosingBracket,
    /// The text ends while a `[` is still open.
    UnmatchedOpeningBracket,
}

impl CompilationError {
    /// The message shown to the user.
    pub fn message(&self) -> (text: &'static str)
        ensures
            text@ == match *self {
                CompilationError::UnmatchedClosingBracket => "unmatched closing bracket"@,
                CompilationError::UnmatchedOpeningBracket => "unmatched opening bracket"@,
            },
    {
        match self {
            CompilationError::UnmatchedClosingBracket => "unmatched closing bracket",
            CompilationError::UnmatchedOpeningBracket => "unmatched opening bracket",
        }
    }
}

/// The operators of a source text, in order; comment characters leave no
/// trace.
pub open spec fn tokens(text: Seq<char>) -> Seq<Operator>
    decreases text.len(),
{
    if text.len() == 0 {
        Seq::empty()
    } else {
        let rest = tokens(text.drop_first());
        match operator_of(text[0]) {
            Some(op) => seq![op] + rest,
            None => rest,
        }
    }
}

/// What one operator adds to the nesting depth.
pub open spec fn bracket_step(op: Operator) -> int {
    match op {
        Operator::JumpForward => 1,
        Operator::JumpBackward => -1,
        _ => 0,
    }
}

/// The nesting depth in front of position `k`: the number of `[` less the
/// number of `]` among the first `k` operators.
pub open spec fn depth(ops: Seq<Operator>, k: int) -> int
    decreases k,
{
    if k <= 0 {
        0
    } else {
        depth(ops, k - 1) + bracket_step(ops[k - 1])
    }
}

/// Some `]` stands where no `[` is open.
pub open spec fn closes_unopened(ops: Seq<Operator>) -> bool {
    exists|k: int| 0 <= k <= ops.len() && depth(ops, k) < 0
}

/// The error of an operator sequence, if it has one. A `]` without a `[`
/// is reported even where a `[` without a `]` occurs as well.
pub open spec fn bracket_error(ops: Seq<Operator>) -> Option<CompilationError> {
    if closes_unopened(ops) {
        Some(CompilationError::UnmatchedClosingBracket)
    } else if depth(ops, ops.len() as int) > 0 {
        Some(CompilationError::UnmatchedOpeningBracket)
    } else {
        None
    }
}

/// Every `]` closes an open `[`, and no `[` is left open at the end.
pub open spec fn balanced(ops: Seq<Operator>) -> bool {
    bracket_error(ops) is None
}

/// The `[` at `open` and the `]` at `close` belong together: the depth is
/// back at its value in front of `open` right after `close`, and not before.
pub open spec fn matched(ops: Seq<Operator>, open: int, close: int) -> bool {
    &&& 0 <= open < close < ops.len()
    &&& ops[open] == Operator::JumpForward
    &&& ops[close] == Operator::JumpBackward
    &&& depth(ops, close + 1) == depth(ops, open)
    &&& forall|k: int| open < k <= close ==> #[trigger] depth(ops, k) > depth(ops, open)
}

/// `program` carries the operators `ops`, each jump with the position of
/// its partner as operand and every other instruction with operand 0.
pub open spec fn assembles(ops: Seq<Operator>, program: Seq<Instruction>) -> bool {
    &&& program.len() == ops.len()
    &&& forall|i: int|
        0 <= i < ops.len() ==> {
            &&& (#[trigger] program[i]).operator == ops[i]
            &&& match ops[i] {
                Operator::JumpForward => matched(ops, i, program[i].operand as int),
                Operator::JumpBackward => matched(ops, program[i].operand as int, i),
                _ => program[i].operand == 0,
            }
        }
}

/// The position of the bracket that belongs to the one at `i`.
pub open spec fn partner_of(ops: Seq<Operator>, i: int) -> int {
    choose|j: int| matched(ops, i, j) || matched(ops, j, i)
}

/// The program of a balanced operator sequence: the one that
/// [`assembles`] describes.
pub open spec fn assembly(ops: Seq<Operator>) -> Seq<Instruction> {
    Seq::new(
        ops.len(),
        |i: int|
            Instruction {
                operator: ops[i],
                operand: if bracket_step(ops[i]) != 0 {
                    partner_of(ops, i) as usize
                } else {
                    0
                },
            },
    )
}

/// The operators of two texts in a row are those of the first followed by
/// those of the second.
pub proof fn lemma_tokens_concat(a: Seq<char>, b: Seq<char>)
    ensures
        tokens(a + b) == tokens(a) + tokens(b),
    decreases a.len(),
{
    if a.len() == 0 {
        assert(a + b == b);
        assert(tokens(a) + tokens(b) == tokens(b));
    } else {
        lemma_tokens_concat(a.drop_first(), b);
        assert((a + b).drop_first() == a.drop_first() + b);
        let rest = tokens(a.drop_first());
        match operator_of(a[0]) {
            Some(op) => {
                assert((seq![op] + rest) + tokens(b) == seq![op] + (rest + tokens(b)));
            },
            None => {},
        }
    }
}

/// Comments are transparent: a character that is no operator, put anywhere
/// into a text, changes neither the operators of the text nor, with them,
/// its error or its program.
pub proof fn lemma_comment_is_transparent(text: Seq<char>, at: int, c: char)
    requires
        0 <= at <= text.len(),
        operator_of(c) is None,
    ensures
        tokens(text.insert(at, c)) == tokens(text),
        bracket_error(tokens(text.insert(at, c))) == bracket_error(tokens(text)),
        assembly(tokens(text.insert(at, c))) == assembly(tokens(text)),
{
    let head = text.subrange(0, at);
    let tail = text.subrange(at, text.len() as int);
    assert(text.insert(at, c) == (head + seq![c]) + tail);
    assert(text == head + tail);
    lemma_tokens_concat(head + seq![c], tail);
    lemma_tokens_concat(head, seq![c]);
    lemma_tokens_concat(head, tail);
    assert(tokens(seq![c]) == Seq::<Operator>::empty()) by {
        assert(seq![c].drop_first() == Seq::<char>::empty());
        reveal_with_fuel(tokens, 2);
    }
    assert(tokens(head) + Seq::<Operator>::empty() == tokens(head));
}

/// A text has the operators of what is left of it when all comments are
/// taken out.
pub proof fn lemma_tokens_ignore_comments(text: Seq<char>)
    ensures
        tokens(text.filter(|c: char| operator_of(c) is Some)) == tokens(text),
    decreases text.len(),
{
    let is_op = |c: char| operator_of(c) is Some;
    if text.len() == 0 {
        assert(text.filter(is_op) == Seq::<char>::empty()) by {
            reveal(Seq::filter);
        }
    } else {
        let head = seq![text[0]];
        let rest = text.drop_first();
        assert(text == head + rest);
        Seq::filter_distributes_over_add(head, rest, is_op);
        lemma_tokens_ignore_comments(rest);
        assert(head.filter(is_op) == if is_op(text[0]) {
            head
        } else {
            Seq::<char>::empty()
        }) by {
            reveal_with_fuel(Seq::filter, 2);
            assert(head.drop_last() == Seq::<char>::empty());
        }
        lemma_tokens_concat(head.filter(is_op), rest.filter(is_op));
        lemma_tokens_concat(head, rest);
        assert(tokens(head) == tokens(head.filter(is_op))) by {
            assert(head.drop_first() == Seq::<char>::empty());
            reveal_with_fuel(tokens, 2);
        }
    }
}

/// The depth in two sequences in a row: in the first part it is the depth
/// in the first sequence, and behind that the depth in the second sequence
/// on top of the depth at the end of the first.
pub proof fn lemma_depth_concat(a: Seq<Operator>, b: Seq<Operator>, k: int)
    requires
        0 <= k <= a.len() + b.len(),
    ensures
        depth(a + b, k) == if k <= a.len() {
            depth(a, k)
        } else {
            depth(a, a.len() as int) + depth(b, k - a.len())
        },
    decreases k,
{
    if k > 0 {
        lemma_depth_concat(a, b, k - 1);
        if k <= a.len() {
            assert((a + b)[k - 1] == a[k - 1]);
        } else {
            assert((a + b)[k - 1] == b[k - 1 - a.len()]);
            assert(depth(b, k - a.len()) == depth(b, k - a.len() - 1) + bracket_step(
                b[k - a.len() - 1],
            ));
        }
    }
}

/// A `]` behind a balanced sequence finds no `[` open: whatever follows it,
/// the error is the unmatched closing bracket.
pub proof fn lemma_unopened_close_is_error(head: Seq<Operator>, tail: Seq<Operator>)
    requires
        balanced(head),
    ensures
        bracket_error(head + seq![Operator::JumpBackward] + tail) == Some(
            CompilationError::UnmatchedClosingBracket,
        ),
{
    let front = head + seq![Operator::JumpBackward];
    let k: int = head.len() as int + 1;
    lemma_depth_concat(head, seq![Operator::JumpBackward], k);
    lemma_depth_concat(front, tail, k);
    assert(depth(seq![Operator::JumpBackward], 1) == -1) by {
        reveal_with_fuel(depth, 2);
    }
    assert(depth(front + tail, k) < 0);
}

/// A `[` between two balanced sequences is still open at the end: the error
/// is the unmatched opening bracket.
pub proof fn lemma_unclosed_open_is_error(head: Seq<Operator>, tail: Seq<Operator>)
    requires
        balanced(head),
        balanced(tail),
    ensures
        bracket_error(head + seq![Operator::JumpForward] + tail) == Some(
            CompilationError::UnmatchedOpeningBracket,
        ),
{
    let bracket = seq![Operator::JumpForward];
    let front = head + bracket;
    let ops = front + tail;
    assert(depth(bracket, 0) == 0 && depth(bracket, 1) == 1) by {
        reveal_with_fuel(depth, 2);
    }
    assert forall|k: int| 0 <= k <= ops.len() implies depth(ops, k) >= 0 by {
        lemma_depth_concat(front, tail, k);
        lemma_depth_concat(head, bracket, front.len() as int);
        if k <= front.len() {
            lemma_depth_concat(head, bracket, k);
            if k <= head.len() {
                assert(depth(head, k) >= 0);
            }
        } else {
            assert(depth(tail, k - front.len()) >= 0);
        }
    }
    lemma_depth_concat(front, tail, ops.len() as int);
    lemma_depth_concat(head, bracket, front.len() as int);
    assert(depth(tail, tail.len() as int) >= 0);
}

/// The depth moves by at most one from a position to the next.
proof fn lemma_depth_step(ops: Seq<Operator>, k: int)
    requires
        0 <= k < ops.len(),
    ensures
        depth(ops, k + 1) == depth(ops, k) + bracket_step(ops[k]),
{
}

/// Searches for the partner of the `[` at `open` from `k` on.
proof fn lemma_find_close(ops: Seq<Operator>, open: int, k: int) -> (close: int)
    requires
        0 <= open < k <= ops.len(),
        ops[open] == Operator::JumpForward,
        depth(ops, ops.len() as int) <= depth(ops, open),
        forall|m: int| open < m <= k ==> #[trigger] depth(ops, m) > depth(ops, open),
    ensures
        matched(ops, open, close),
    decreases ops.len() - k,
{
    if k == ops.len() {
        assert(depth(ops, k) > depth(ops, open));
        arbitrary()
    } else {
        lemma_depth_step(ops, k);
        if depth(ops, k + 1) > depth(ops, open) {
            lemma_find_close(ops, open, k + 1)
        } else {
            k
        }
    }
}

/// Searches for the partner of the `]` at `close` from `k` down.
proof fn lemma_find_open(ops: Seq<Operator>, close: int, k: int) -> (open: int)
    requires
        0 <= k <= close < ops.len(),
        ops[close] == Operator::JumpBackward,
        depth(ops, close + 1) >= 0,
        forall|m: int| k <= m <= close ==> #[trigger] depth(ops, m) > depth(ops, close + 1),
    ensures
        matched(ops, open, close),
    decreases k,
{
    if k == 0 {
        assert(depth(ops, 0) > depth(ops, close + 1));
        arbitrary()
    } else {
        lemma_depth_step(ops, k - 1);
        if depth(ops, k - 1) > depth(ops, close + 1) {
            lemma_find_open(ops, close, k - 1)
        } else {
            k - 1
        }
    }
}

/// In a balanced operator sequence every bracket has a partner.
pub proof fn lemma_balanced_has_partners(ops: Seq<Operator>, i: int)
    requires
        balanced(ops),
        0 <= i < ops.len(),
    ensures
        ops[i] == Operator::JumpForward ==> exists|j: int| matched(ops, i, j),
        ops[i] == Operator::JumpBackward ==> exists|j: int| matched(ops, j, i),
{
    assert(depth(ops, i) >= 0 && depth(ops, i + 1) >= 0);
    lemma_depth_step(ops, i);
    if ops[i] == Operator::JumpForward {
        let j = lemma_find_close(ops, i, i + 1);
    } else if ops[i] == Operator::JumpBackward {
        let j = lemma_find_open(ops, i, i);
    }
}

/// A balanced operator sequence that fits into memory has a program.
pub proof fn lemma_balanced_assembles(ops: Seq<Operator>)
    requires
        balanced(ops),
        ops.len() <= usize::MAX,
    ensures
        assembles(ops, assembly(ops)),
{
    let program = assembly(ops);
    assert forall|i: int| 0 <= i < ops.len() implies {
        &&& (#[trigger] program[i]).operator == ops[i]
        &&& match ops[i] {
            Operator::JumpForward => matched(ops, i, program[i].operand as int),
            Operator::JumpBackward => matched(ops, program[i].operand as int, i),
            _ => program[i].operand == 0,
        }
    } by {
        lemma_balanced_has_partners(ops, i);
        if ops[i] == Operator::JumpForward {
            let j = choose|j: int| matched(ops, i, j);
            assert(matched(ops, i, j) || matched(ops, j, i));
        } else if ops[i] == Operator::JumpBackward {
            let j = choose|j: int| matched(ops, j, i);
            assert(matched(ops, i, j) || matched(ops, j, i));
        }
    }
}

/// A `[` has at most one partner.
pub proof fn lemma_close_unique(ops: Seq<Operator>, open: int, close1: int, close2: int)
    requires
        matched(ops, open, close1),
        matched(ops, open, close2),
    ensures
        close1 == close2,
{
    if close1 < close2 {
        assert(depth(ops, close1 + 1) > depth(ops, open));
    } else if close2 < close1 {
        assert(depth(ops, close2 + 1) > depth(ops, open));
    }
}

/// A `]` has at most one partner.
pub proof fn lemma_open_unique(ops: Seq<Operator>, open1: int, open2: int, close: int)
    requires
        matched(ops, open1, close),
        matched(ops, open2, close),
    ensures
        open1 == open2,
{
    if open1 < open2 {
        assert(depth(ops, open2) > depth(ops, open1));
    } else if open2 < open1 {
        assert(depth(ops, open1) > depth(ops, open2));
    }
}

/// An operator sequence has at most one program, and it is [`assembly`].
pub proof fn lemma_assembly_unique(ops: Seq<Operator>, program: Seq<Instruction>)
    requires
        assembles(ops, program),
    ensures
        program == assembly(ops),
{
    assert forall|i: int| 0 <= i < ops.len() implies program[i] == assembly(ops)[i] by {
        let j = program[i].operand as int;
        let p = partner_of(ops, i);
        if ops[i] == Operator::JumpForward {
            assert(matched(ops, i, j) || matched(ops, j, i));
            lemma_close_unique(ops, i, j, p);
        } else if ops[i] == Operator::JumpBackward {
            assert(matched(ops, i, j) || matched(ops, j, i));
            lemma_open_unique(ops, j, p, i);
        }
    }
    assert(program =~= assembly(ops));
}

/// In a program, the partner of a bracket's partner is the bracket itself:
/// a `[` holds the position of a `]` behind it that holds the position of
/// the `[`, and the other way round.
pub proof fn lemma_pairing_round_trip(ops: Seq<Operator>, program: Seq<Instruction>, i: int)
    requires
        assembles(ops, program),
        0 <= i < ops.len(),
        bracket_step(ops[i]) != 0,
    ensures
        0 <= program[i].operand < program.len(),
        program[program[i].operand as int].operand == i,
        ops[i] == Operator::JumpForward ==> i < program[i].operand && program[program[i].operand
            as int].operator == Operator::JumpBackward,
        ops[i] == Operator::JumpBackward ==> program[i].operand < i && program[program[i].operand
            as int].operator == Operator::JumpForward,
{
    let j = program[i].operand as int;
    let back = program[j].operand as int;
    if ops[i] == Operator::JumpForward {
        lemma_open_unique(ops, i, back, j);
    } else {
        lemma_close_unique(ops, j, i, back);
    }
}

} // verus!
