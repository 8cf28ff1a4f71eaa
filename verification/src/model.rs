//! The mathematical model of an execution: one machine configuration, the
//! effect of a single instruction on it, and runs of many instructions.

use vstd::prelude::*;
use crate::brackets::loop_end;

verus! {

/// The two ways in which a malformed program stops an execution.
#[derive(Clone, Copy, Debug, PartialEq, Eq)]
pub enum ProgramError {
    /// A `]` was reached while no loop was open.
    UnmatchedClosingBracket,
    /// A `[` had to be skipped and the text ended before its `]`.
    UnterminatedLoop,
}

/// A complete configuration of one execution.
pub struct Machine {
    /// The cells of the tape.
    pub tape: Seq<u8>,
    /// Index of the current cell.
    pub pointer: int,
    /// Index of the next instruction.
    pub cursor: int,
    /// Positions of the `[` whose bodies are being executed, innermost last.
    pub stack: Seq<int>,
    /// How many input characters have been consumed.
    pub taken: int,
    /// Everything emitted so far, oldest first.
    pub output: Seq<char>,
    /// Set once the execution has failed; nothing changes afterwards.
    pub failure: Option<ProgramError>,
}

/// The configuration in which an execution starts on the given tape.
pub open spec fn start(tape: Seq<u8>, pointer: int) -> Machine {
    Machine {
        tape,
        pointer,
        cursor: 0,
        stack: Seq::empty(),
        taken: 0,
        output: Seq::empty(),
        failure: None,
    }
}

/// The pointer after `>` on a tape of `length` cells.
pub open spec fn move_right(pointer: int, length: int) -> int {
    (pointer + 1) % length
}

/// The pointer after `<` on a tape of `length` cells.
pub open spec fn move_left(pointer: int, length: int) -> int {
    (pointer - 1) % length
}

/// The cell after `+`.
pub open spec fn increment(cell: u8) -> u8 {
    ((cell + 1) % 256) as u8
}

/// The cell after `-`.
pub open spec fn decrement(cell: u8) -> u8 {
    ((cell - 1) % 256) as u8
}

/// The cell that stores an input character: its code, reduced to eight bits.
pub open spec fn cell_from_char(c: char) -> u8 {
    ((c as int) % 256) as u8
}

/// The character emitted for a cell: the one whose code is the cell's value.
pub open spec fn char_from_cell(cell: u8) -> char {
    cell as char
}

/// Whether `c` is one of the eight characters that carry meaning.
pub open spec fn is_instruction(c: char) -> bool {
    c == '>' || c == '<' || c == '+' || c == '-' || c == '.' || c == ',' || c == '[' || c == ']'
}

/// Whether the execution can take another step: it has not failed and the
/// cursor is inside the program text.
pub open spec fn running(program: Seq<char>, m: Machine) -> bool {
    m.failure is None && 0 <= m.cursor < program.len()
}

/// The configuration after the instruction under the cursor. A configuration
/// that is not running is left as it is. `inputs` is the sequence of
/// characters that the source delivers; `,` consumes the next one.
pub open spec fn step(program: Seq<char>, inputs: Seq<char>, m: Machine) -> Machine {
    if !running(program, m) {
        m
    } else {
        let c = program[m.cursor];
        let length = m.tape.len() as int;
        let next = Machine { cursor: m.cursor + 1, ..m };
        if c == '>' {
            Machine { pointer: move_right(m.pointer, length), ..next }
        } else if c == '<' {
            Machine { pointer: move_left(m.pointer, length), ..next }
        } else if c == '+' {
            Machine { tape: m.tape.update(m.pointer, increment(m.tape[m.pointer])), ..next }
        } else if c == '-' {
            Machine { tape: m.tape.update(m.pointer, decrement(m.tape[m.pointer])), ..next }
        } else if c == '.' {
            Machine { output: m.output.push(char_from_cell(m.tape[m.pointer])), ..next }
        } else if c == ',' {
            Machine {
                tape: m.tape.update(m.pointer, cell_from_char(inputs[m.taken])),
                taken: m.taken + 1,
                ..next
            }
        } else if c == '[' {
            if m.tape[m.pointer] != 0 {
                Machine { stack: m.stack.push(m.cursor), ..next }
            } else {
                match loop_end(program, m.cursor) {
                    Some(close) => Machine { cursor: close + 1, ..m },
                    None => Machine { failure: Some(ProgramError::UnterminatedLoop), ..m },
                }
            }
        } else if c == ']' {
            if m.stack.len() == 0 {
                Machine { failure: Some(ProgramError::UnmatchedClosingBracket), ..m }
            } else {
                Machine { cursor: m.stack.last(), stack: m.stack.drop_last(), ..m }
            }
        } else {
            next
        }
    }
}

/// The configuration after `steps` instructions, starting from `m`.
pub open spec fn run(program: Seq<char>, inputs: Seq<char>, m: Machine, steps: nat) -> Machine
    decreases steps,
{
    if steps == 0 {
        m
    } else {
        step(program, inputs, run(program, inputs, m, (steps - 1) as nat))
    }
}

/// Once a run has stopped, further steps change nothing.
pub proof fn lemma_run_settles(
    program: Seq<char>,
    inputs: Seq<char>,
    m: Machine,
    reached: nat,
    later: nat,
)
    requires
        reached <= later,
        !running(program, run(program, inputs, m, reached)),
    ensures
        run(program, inputs, m, later) == run(program, inputs, m, reached),
    decreases later,
{
    if reached < later {
        lemma_run_settles(program, inputs, m, reached, (later - 1) as nat);
    }
}

/// A run never gives back input that it has consumed.
pub proof fn lemma_run_taken_grows(program: Seq<char>, inputs: Seq<char>, m: Machine, steps: nat)
    ensures
        m.taken <= run(program, inputs, m, steps).taken,
    decreases steps,
{
    if steps > 0 {
        lemma_run_taken_grows(program, inputs, m, (steps - 1) as nat);
    }
}

/// A run depends only on the input characters that it consumes: two input
/// sequences that agree on them give the same configuration.
pub proof fn lemma_run_reads_prefix(
    program: Seq<char>,
    short: Seq<char>,
    long: Seq<char>,
    m: Machine,
    steps: nat,
)
    requires
        0 <= m.taken,
        short.is_prefix_of(long),
        run(program, short, m, steps).taken <= short.len(),
    ensures
        run(program, long, m, steps) == run(program, short, m, steps),
    decreases steps,
{
    if steps > 0 {
        let before = run(program, short, m, (steps - 1) as nat);
        lemma_run_taken_grows(program, short, m, (steps - 1) as nat);
        lemma_run_reads_prefix(program, short, long, m, (steps - 1) as nat);
        if running(program, before) && program[before.cursor] == ',' {
            assert(short[before.taken] == long[before.taken]);
        }
    }
}

} // verus!
