//! The engine itself: tape, data pointer and loop stack, and the loop that
//! interprets a program text against them.

use vstd::prelude::*;
use crate::brackets::find_loop_end;
use crate::io::{CharReader, CharWriter};
use crate::model::{
    cell_from_char, char_from_cell, lemma_run_reads_prefix, lemma_run_settles, run, start, step,
    Machine, ProgramError,
};
use crate::text::characters;

verus! {

/// The number of cells on the tape.
pub const ARRAY_MAX_SIZE: usize = 30_000;

/// How an execution ended when the program was not malformed.
#[derive(Clone, Copy, Debug, PartialEq, Eq)]
pub enum Completion {
    /// The cursor moved past the last character of the program.
    Halted,
    /// The step limit was used up while the program was still running.
    StepLimitReached,
}

/// What `interpret` returns for the configuration in which a run stopped.
pub open spec fn verdict(program: Seq<char>, m: Machine) -> Result<Completion, ProgramError> {
    match m.failure {
        Some(error) => Err(error),
        None => if 0 <= m.cursor < program.len() {
            Ok(Completion::StepLimitReached)
        } else {
            Ok(Completion::Halted)
        },
    }
}

/// The cell that stores `c`: its code, reduced to eight bits.
fn cell_for(c: char) -> (cell: u8)
    ensures
        cell == cell_from_char(c),
{
    let code: u32 = c as u32;
    (code % 256) as u8
}

/// The execution engine.
pub struct Interpreter {
    array: [u8; ARRAY_MAX_SIZE],
    pointer: usize,
    cycle_stack: Vec<usize>,
    step_limit: u64,
}

impl Interpreter {
    #[verifier::type_invariant]
    spec fn pointer_on_tape(self) -> bool {
        self.pointer < ARRAY_MAX_SIZE
    }

    /// The cells of the tape.
    pub closed spec fn tape(&self) -> Seq<u8> {
        self.array@
    }

    /// The index of the current cell.
    pub closed spec fn position(&self) -> int {
        self.pointer as int
    }

    /// The loops that the last execution left open, innermost last.
    pub closed spec fn open_loops(&self) -> Seq<int> {
        self.cycle_stack@.map_values(|at: usize| at as int)
    }

    /// The largest number of instructions that one execution may take.
    pub closed spec fn limit(&self) -> nat {
        self.step_limit as nat
    }

    /// A fresh engine: every cell zero, the pointer on the first cell, no
    /// loop open, and the largest step limit that fits.
    pub fn new() -> (engine: Self)
        ensures
            engine.tape() == Seq::new(ARRAY_MAX_SIZE as nat, |i: int| 0u8),
            engine.position() == 0,
            engine.open_loops() == Seq::<int>::empty(),
            engine.limit() == u64::MAX,
    {
        let engine = Interpreter {
            array: [0u8; ARRAY_MAX_SIZE],
            pointer: 0,
            cycle_stack: Vec::new(),
            step_limit: u64::MAX,
        };
        assert(engine.tape() =~= Seq::new(ARRAY_MAX_SIZE as nat, |i: int| 0u8));
        assert(engine.open_loops() =~= Seq::<int>::empty());
        engine
    }

    /// The same engine with another step limit.
    pub fn with_step_limit(self, step_limit: u64) -> (engine: Self)
        ensures
            engine.tape() == self.tape(),
            engine.position() == self.position(),
            engine.open_loops() == self.open_loops(),
            engine.limit() == step_limit,
    {
        proof {
            use_type_invariant(&self);
        }
        Interpreter {
            array: self.array,
            pointer: self.pointer,
            cycle_stack: self.cycle_stack,
            step_limit,
        }
    }

    /// The index of the current cell.
    pub fn pointer(&self) -> (index: usize)
        ensures
            index == self.position(),
            index < ARRAY_MAX_SIZE,
    {
        proof {
            use_type_invariant(self);
        }
        self.pointer
    }

    /// The value of the cell at `index`, if the tape has such a cell.
    pub fn cell(&self, index: usize) -> (value: Option<u8>)
        ensures
            self.tape().len() == ARRAY_MAX_SIZE,
            value == if index < ARRAY_MAX_SIZE {
                Some(self.tape()[index as int])
            } else {
                None
            },
    {
        if index < ARRAY_MAX_SIZE {
            Some(self.array[index])
        } else {
            None
        }
    }

    /// How many loops the last execution left open.
    pub fn open_loop_count(&self) -> (count: usize)
        ensures
            count == self.open_loops().len(),
    {
        self.cycle_stack.len()
    }

    /// The largest number of instructions that one execution may take.
    pub fn step_limit(&self) -> (steps: u64)
        ensures
            steps == self.limit(),
    {
        self.step_limit
    }

    /// Interprets `program` from its first character, with no loop open. `,`
    /// takes its character from `reader`, `.` hands its character to
    /// `writer`. The execution ends when the cursor leaves the program text,
    /// when the program turns out to be malformed, or when the step limit is
    /// used up. The tape, the pointer and the loop stack are kept as the
    /// execution left them; what was written before a failure stays written.
    pub fn interpret<R: CharReader, W: CharWriter>(
        &mut self,
        program: &str,
        reader: &mut R,
        writer: &mut W,
    ) -> (result: Result<Completion, ProgramError>)
        ensures
            final(self).tape().len() == ARRAY_MAX_SIZE,
            0 <= final(self).position() < ARRAY_MAX_SIZE,
            old(reader).delivered().is_prefix_of(final(reader).delivered()),
            ({
                let inputs = final(reader).delivered().skip(old(reader).delivered().len() as int);
                let end = run(
                    program@,
                    inputs,
                    start(old(self).tape(), old(self).position()),
                    old(self).limit(),
                );
                &&& end.taken == inputs.len()
                &&& final(writer).written() == old(writer).written() + end.output
                &&& final(self).tape() == end.tape
                &&& final(self).position() == end.pointer
                &&& final(self).open_loops() == end.stack
                &&& final(self).limit() == old(self).limit()
                &&& result == verdict(program@, end)
            }),
    {
        proof {
            use_type_invariant(&*self);
        }
        let instructions: Vec<char> = characters(program);
        let length: usize = instructions.len();
        let limit: u64 = self.step_limit;
        let ghost text = program@;
        let ghost origin = start(self.tape(), self.position());
        let ghost read_before = reader.delivered();
        let ghost written_before = writer.written();
        let ghost mut inputs: Seq<char> = Seq::empty();
        let ghost mut now: Machine = origin;
        let mut stack: Vec<usize> = Vec::new();
        let mut cursor: usize = 0;
        let mut steps: u64 = 0;
        let mut failure: Option<ProgramError> = None;
        assert(read_before + inputs =~= read_before);
        assert(written_before + now.output =~= written_before);
        while cursor < length && steps < limit && failure.is_none()
            invariant
                text == instructions@,
                length == text.len(),
                self.pointer < ARRAY_MAX_SIZE,
                self.step_limit == limit,
                steps <= limit,
                origin.taken == 0,
                now == run(text, inputs, origin, steps as nat),
                now.tape == self.array@,
                now.pointer == self.pointer,
                now.cursor == cursor,
                now.taken == inputs.len(),
                now.failure == failure,
                now.stack.len() == stack.len(),
                forall|k: int| 0 <= k < stack.len() ==> now.stack[k] == #[trigger] stack[k] as int,
                reader.delivered() == read_before + inputs,
                writer.written() == written_before + now.output,
            decreases limit - steps,
        {
            let c: char = instructions[cursor];
            let cell: u8 = self.array[self.pointer];
            let ghost before = now;
            if c == '>' {
                self.pointer = if self.pointer == ARRAY_MAX_SIZE - 1 {
                    0
                } else {
                    self.pointer + 1
                };
                cursor = cursor + 1;
            } else if c == '<' {
                self.pointer = if self.pointer == 0 {
                    ARRAY_MAX_SIZE - 1
                } else {
                    self.pointer - 1
                };
                cursor = cursor + 1;
            } else if c == '+' {
                self.array[self.pointer] = cell.wrapping_add(1);
                cursor = cursor + 1;
            } else if c == '-' {
                self.array[self.pointer] = cell.wrapping_sub(1);
                cursor = cursor + 1;
            } else if c == '.' {
                writer.write_char(cell as char);
                assert(written_before + before.output.push(char_from_cell(cell))
                    =~= (written_before + before.output).push(cell as char));
                cursor = cursor + 1;
            } else if c == ',' {
                let taken: char = reader.read_char();
                proof {
                    let longer = inputs.push(taken);
                    lemma_run_reads_prefix(text, inputs, longer, origin, steps as nat);
                    assert(read_before + longer =~= (read_before + inputs).push(taken));
                    inputs = longer;
                }
                self.array[self.pointer] = cell_for(taken);
                cursor = cursor + 1;
            } else if c == '[' {
                if cell != 0 {
                    stack.push(cursor);
                    cursor = cursor + 1;
                } else {
                    match find_loop_end(instructions.as_slice(), cursor) {
                        Some(close) => {
                            cursor = close + 1;
                        },
                        None => {
                            failure = Some(ProgramError::UnterminatedLoop);
                        },
                    }
                }
            } else if c == ']' {
                match stack.pop() {
                    Some(opened) => {
                        cursor = opened;
                    },
                    None => {
                        failure = Some(ProgramError::UnmatchedClosingBracket);
                    },
                }
            } else {
                cursor = cursor + 1;
            }
            proof {
                now = step(text, inputs, before);
                assert(now.tape =~= self.array@);
                assert(now.stack.len() == stack.len());
            }
            steps = steps + 1;
        }
        proof {
            if steps < limit {
                lemma_run_settles(text, inputs, origin, steps as nat, limit as nat);
            }
            assert((read_before + inputs).skip(read_before.len() as int) =~= inputs);
        }
        self.cycle_stack = stack;
        assert(self.open_loops() =~= now.stack);
        match failure {
            Some(error) => Err(error),
            None => if cursor < length {
                Ok(Completion::StepLimitReached)
            } else {
                Ok(Completion::Halted)
            },
        }
    }
}

} // verus!
