//! General facts about executions, stated over the model and proved.

use vstd::prelude::*;
use vstd::arithmetic::div_mod::{lemma_add_mod_noop_right, lemma_small_mod};
use crate::brackets::{
    balanced, closes, lemma_balanced_loop_ends, lemma_innermost_open, lemma_loop_end_restores,
    lemma_open_count, loop_end, nesting, open_at,
};
use crate::model::{
    cell_from_char, char_from_cell, decrement, increment, is_instruction, lemma_run_settles, move_left, move_right, run, running,
    start, step, Machine,
};

verus! {

/// Whether the pointer of `m` selects a cell of its tape.
pub open spec fn pointer_on_tape(m: Machine) -> bool {
    0 <= m.pointer < m.tape.len()
}

/// Whether the loop stack of `m` holds exactly the brackets that are open at
/// its cursor, in an execution that has not failed.
pub open spec fn stack_follows_text(program: Seq<char>, m: Machine) -> bool {
    &&& m.failure is None
    &&& 0 <= m.cursor <= program.len()
    &&& m.stack == open_at(program, m.cursor)
}

/// How many of the characters before `upto` are `c`.
pub open spec fn occurrences(program: Seq<char>, c: char, upto: int) -> int
    decreases upto,
{
    if upto <= 0 {
        0
    } else {
        occurrences(program, c, upto - 1) + if program[upto - 1] == c {
            1int
        } else {
            0int
        }
    }
}

/// Whether the program holds no bracket.
pub open spec fn without_loops(program: Seq<char>) -> bool {
    forall|i: int| 0 <= i < program.len() ==> program[i] != '[' && program[i] != ']'
}

/// Moving right adds one to the pointer and moving left takes one away, both
/// modulo the tape's length: from the last cell `>` leads to the first, from
/// the first cell `<` leads to the last, and the pointer is on the tape after
/// either.
pub proof fn law_pointer_wraps(program: Seq<char>, inputs: Seq<char>, m: Machine)
    requires
        running(program, m),
        pointer_on_tape(m),
    ensures
        program[m.cursor] == '>' ==> step(program, inputs, m).pointer == if m.pointer
            == m.tape.len() - 1 {
            0
        } else {
            m.pointer + 1
        },
        program[m.cursor] == '<' ==> step(program, inputs, m).pointer == if m.pointer == 0 {
            m.tape.len() - 1
        } else {
            m.pointer - 1
        },
        program[m.cursor] == '>' ==> step(program, inputs, m).pointer == (m.pointer + 1)
            % (m.tape.len() as int),
        program[m.cursor] == '<' ==> step(program, inputs, m).pointer == (m.pointer - 1)
            % (m.tape.len() as int),
{
    lemma_moves_wrap(m.pointer, m.tape.len() as int);
}

/// The two moves on a tape of `length` cells, case by case.
pub proof fn lemma_moves_wrap(pointer: int, length: int)
    requires
        0 <= pointer < length,
    ensures
        move_right(pointer, length) == if pointer == length - 1 {
            0
        } else {
            pointer + 1
        },
        move_left(pointer, length) == if pointer == 0 {
            length - 1
        } else {
            pointer - 1
        },
{
    assert((pointer + 1) % length == if pointer == length - 1 {
        0
    } else {
        pointer + 1
    }) by (nonlinear_arith)
        requires
            0 <= pointer < length,
    ;
    assert((pointer - 1) % length == if pointer == 0 {
        length - 1
    } else {
        pointer - 1
    }) by (nonlinear_arith)
        requires
            0 <= pointer < length,
    ;
}

/// No instruction changes the length of the tape or moves the pointer off
/// it.
pub proof fn law_step_keeps_pointer_on_tape(program: Seq<char>, inputs: Seq<char>, m: Machine)
    requires
        pointer_on_tape(m),
    ensures
        step(program, inputs, m).tape.len() == m.tape.len(),
        pointer_on_tape(step(program, inputs, m)),
{
    lemma_moves_wrap(m.pointer, m.tape.len() as int);
}

/// The pointer is on the tape after any number of instructions.
pub proof fn law_run_keeps_pointer_on_tape(
    program: Seq<char>,
    inputs: Seq<char>,
    m: Machine,
    steps: nat,
)
    requires
        pointer_on_tape(m),
    ensures
        run(program, inputs, m, steps).tape.len() == m.tape.len(),
        pointer_on_tape(run(program, inputs, m, steps)),
    decreases steps,
{
    if steps > 0 {
        law_run_keeps_pointer_on_tape(program, inputs, m, (steps - 1) as nat);
        law_step_keeps_pointer_on_tape(
            program,
            inputs,
            run(program, inputs, m, (steps - 1) as nat),
        );
    }
}

/// Cells wrap around: `+` turns 255 into 0 and `-` turns 0 into 255; on any
/// other value they add and take away one.
pub proof fn law_cell_wraps(program: Seq<char>, inputs: Seq<char>, m: Machine)
    requires
        running(program, m),
        pointer_on_tape(m),
    ensures
        increment(255) == 0,
        decrement(0) == 255,
        program[m.cursor] == '+' ==> step(program, inputs, m).tape[m.pointer] == if m.tape[m.pointer]
            == 255 {
            0
        } else {
            m.tape[m.pointer] + 1
        },
        program[m.cursor] == '-' ==> step(program, inputs, m).tape[m.pointer] == if m.tape[m.pointer]
            == 0 {
            255
        } else {
            m.tape[m.pointer] - 1
        },
{
}

/// A character that is not one of the eight instructions changes nothing
/// but the cursor, which advances by one.
pub proof fn law_other_characters_do_nothing(program: Seq<char>, inputs: Seq<char>, m: Machine)
    requires
        running(program, m),
        !is_instruction(program[m.cursor]),
    ensures
        step(program, inputs, m) == (Machine { cursor: m.cursor + 1, ..m }),
{
}

/// Only `.` emits, and it emits exactly one character, the current cell's;
/// only `,` consumes input, and it consumes exactly one character, which
/// becomes the current cell.
pub proof fn law_one_character_at_a_time(program: Seq<char>, inputs: Seq<char>, m: Machine)
    requires
        running(program, m),
        pointer_on_tape(m),
    ensures
        step(program, inputs, m).output == if program[m.cursor] == '.' {
            m.output.push(char_from_cell(m.tape[m.pointer]))
        } else {
            m.output
        },
        step(program, inputs, m).taken == if program[m.cursor] == ',' {
            m.taken + 1
        } else {
            m.taken
        },
        program[m.cursor] == ',' ==> step(program, inputs, m).tape[m.pointer] == cell_from_char(
            inputs[m.taken],
        ),
{
}

/// One instruction of a balanced program keeps the loop stack in line with
/// the text, and does not fail.
pub proof fn lemma_step_follows_text(program: Seq<char>, inputs: Seq<char>, m: Machine)
    requires
        balanced(program),
        stack_follows_text(program, m),
    ensures
        stack_follows_text(program, step(program, inputs, m)),
{
    if running(program, m) {
        let c = program[m.cursor];
        let at = m.cursor;
        assert(open_at(program, at + 1) == if c == '[' {
            open_at(program, at).push(at)
        } else if c == ']' && open_at(program, at).len() > 0 {
            open_at(program, at).drop_last()
        } else {
            open_at(program, at)
        });
        if c == '[' && m.tape[m.pointer] == 0 {
            assert(nesting(program, at, at) == 0);
            let found = lemma_balanced_loop_ends(program, at, at + 1);
            assert(closes(program, at, found));
            let chosen = choose|close: int| closes(program, at, close);
            assert(loop_end(program, at) == Some(chosen));
            lemma_loop_end_restores(program, at, chosen);
        } else if c == ']' {
            lemma_open_count(program, at);
            lemma_open_count(program, at + 1);
            assert(nesting(program, 0, at + 1) == nesting(program, 0, at) - 1);
            lemma_innermost_open(program, at);
        }
    }
}

/// Any number of instructions of a balanced program keeps the loop stack in
/// line with the text.
pub proof fn lemma_run_follows_text(
    program: Seq<char>,
    inputs: Seq<char>,
    m: Machine,
    steps: nat,
)
    requires
        balanced(program),
        stack_follows_text(program, m),
    ensures
        stack_follows_text(program, run(program, inputs, m, steps)),
    decreases steps,
{
    if steps > 0 {
        lemma_run_follows_text(program, inputs, m, (steps - 1) as nat);
        lemma_step_follows_text(program, inputs, run(program, inputs, m, (steps - 1) as nat));
    }
}

/// For a program with balanced brackets the loop stack is empty before the
/// execution starts and again once it has halted; such an execution never
/// fails.
pub proof fn law_balanced_program_ends_with_empty_stack(
    program: Seq<char>,
    inputs: Seq<char>,
    tape: Seq<u8>,
    pointer: int,
    steps: nat,
)
    requires
        balanced(program),
    ensures
        start(tape, pointer).stack.len() == 0,
        run(program, inputs, start(tape, pointer), steps).failure is None,
        !running(program, run(program, inputs, start(tape, pointer), steps)) ==> run(
            program,
            inputs,
            start(tape, pointer),
            steps,
        ).stack.len() == 0,
{
    lemma_run_follows_text(program, inputs, start(tape, pointer), steps);
    lemma_open_count(program, program.len() as int);
}

/// In a program without brackets every instruction is executed once, in
/// order, and the pointer ends where the moves put it: one cell to the right
/// for each `>`, one to the left for each `<`, modulo the tape's length.
pub proof fn lemma_moves_add_up(program: Seq<char>, inputs: Seq<char>, m: Machine, steps: nat)
    requires
        without_loops(program),
        pointer_on_tape(m),
        m.cursor == 0,
        m.failure is None,
        steps <= program.len(),
    ensures
        run(program, inputs, m, steps).cursor == steps,
        run(program, inputs, m, steps).failure is None,
        run(program, inputs, m, steps).tape.len() == m.tape.len(),
        run(program, inputs, m, steps).pointer == (m.pointer + occurrences(
            program,
            '>',
            steps as int,
        ) - occurrences(program, '<', steps as int)) % (m.tape.len() as int),
    decreases steps,
{
    let length = m.tape.len() as int;
    if steps == 0 {
        lemma_small_mod(m.pointer as nat, length as nat);
    } else {
        lemma_moves_add_up(program, inputs, m, (steps - 1) as nat);
        let before = run(program, inputs, m, (steps - 1) as nat);
        let moved = m.pointer + occurrences(program, '>', steps - 1) - occurrences(
            program,
            '<',
            steps - 1,
        );
        let c = program[steps - 1];
        assert(before.pointer == moved % length);
        if c == '>' {
            lemma_add_mod_noop_right(1, moved, length);
            assert(step(program, inputs, before).pointer == (1 + moved % length) % length);
        } else if c == '<' {
            lemma_add_mod_noop_right(-1, moved, length);
            assert(step(program, inputs, before).pointer == (-1 + moved % length) % length);
        }
    }
}

/// A program without brackets that holds as many `>` as `<` leaves the
/// pointer where it was.
pub proof fn law_equal_moves_round_trip(
    program: Seq<char>,
    inputs: Seq<char>,
    tape: Seq<u8>,
    pointer: int,
    steps: nat,
)
    requires
        without_loops(program),
        0 <= pointer < tape.len(),
        occurrences(program, '>', program.len() as int) == occurrences(
            program,
            '<',
            program.len() as int,
        ),
        steps >= program.len(),
    ensures
        run(program, inputs, start(tape, pointer), steps).pointer == pointer,
        !running(program, run(program, inputs, start(tape, pointer), steps)),
{
    let origin = start(tape, pointer);
    lemma_moves_add_up(program, inputs, origin, program.len());
    lemma_run_settles(program, inputs, origin, program.len(), steps);
    lemma_small_mod(pointer as nat, tape.len());
}

} // verus!
