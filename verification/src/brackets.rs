//! Bracket matching: nesting depth, the end of a loop that is skipped, and
//! what it means for a program's brackets to be balanced.

use vstd::prelude::*;

verus! {

/// What a character adds to the nesting depth.
pub open spec fn weight(c: char) -> int {
    if c == '[' {
        1
    } else if c == ']' {
        -1
    } else {
        0
    }
}

/// The number of `[` minus the number of `]` among the characters at the
/// positions `from..to`.
pub open spec fn nesting(program: Seq<char>, from: int, to: int) -> int
    decreases to - from,
{
    if to <= from {
        0
    } else {
        nesting(program, from, to - 1) + weight(program[to - 1])
    }
}

/// Whether `close` is the first position at or after `from` at which the
/// nesting depth counted from `from` is back at zero.
pub open spec fn closes(program: Seq<char>, from: int, close: int) -> bool {
    &&& from <= close < program.len()
    &&& nesting(program, from, close + 1) == 0
    &&& forall|j: int| from <= j < close ==> #[trigger] nesting(program, from, j + 1) != 0
}

/// The position at which the loop opened at `from` ends, if the text holds
/// one.
pub open spec fn loop_end(program: Seq<char>, from: int) -> Option<int> {
    if exists|close: int| closes(program, from, close) {
        Some(choose|close: int| closes(program, from, close))
    } else {
        None
    }
}

/// A loop has at most one end.
pub proof fn lemma_closes_once(program: Seq<char>, from: int, a: int, b: int)
    requires
        closes(program, from, a),
        closes(program, from, b),
    ensures
        a == b,
{
    if a < b {
        assert(nesting(program, from, a + 1) != 0);
    } else if b < a {
        assert(nesting(program, from, b + 1) != 0);
    }
}

/// Whether every `]` of the program has a `[` before it and every `[` a `]`
/// after it: the nesting depth never falls below zero and ends at zero.
pub open spec fn balanced(program: Seq<char>) -> bool {
    &&& forall|k: int| 0 <= k <= program.len() ==> #[trigger] nesting(program, 0, k) >= 0
    &&& nesting(program, 0, program.len() as int) == 0
}

/// The positions of the `[` before `upto` that have no `]` before `upto`,
/// outermost first.
pub open spec fn open_at(program: Seq<char>, upto: int) -> Seq<int>
    decreases upto,
{
    if upto <= 0 {
        Seq::empty()
    } else {
        let before = open_at(program, upto - 1);
        let c = program[upto - 1];
        if c == '[' {
            before.push(upto - 1)
        } else if c == ']' && before.len() > 0 {
            before.drop_last()
        } else {
            before
        }
    }
}

/// In a balanced program the number of open brackets before a position is
/// the nesting depth there.
pub proof fn lemma_open_count(program: Seq<char>, upto: int)
    requires
        balanced(program),
        0 <= upto <= program.len(),
    ensures
        open_at(program, upto).len() == nesting(program, 0, upto),
    decreases upto,
{
    if upto > 0 {
        lemma_open_count(program, upto - 1);
        assert(nesting(program, 0, upto - 1) >= 0);
        assert(nesting(program, 0, upto) >= 0);
    }
}

/// The innermost open bracket before a position lies before that position,
/// and the brackets open before it are the remaining ones.
pub proof fn lemma_innermost_open(program: Seq<char>, upto: int)
    requires
        open_at(program, upto).len() > 0,
    ensures
        0 <= open_at(program, upto).last() < upto,
        open_at(program, open_at(program, upto).last()) == open_at(program, upto).drop_last(),
    decreases upto,
{
    let before = open_at(program, upto - 1);
    let c = program[upto - 1];
    if c == '[' {
        assert(before.push(upto - 1).drop_last() =~= before);
    } else if c == ']' && before.len() > 0 {
        lemma_innermost_open(program, upto - 1);
        lemma_innermost_open(program, before.last());
    } else {
        lemma_innermost_open(program, upto - 1);
    }
}

/// While a scan from a `[` has not come back to depth zero, the brackets
/// that were open at its start stay open, below those the scan has opened.
pub proof fn lemma_scan_keeps_open(program: Seq<char>, from: int, upto: int)
    requires
        0 <= from < upto <= program.len(),
        program[from] == '[',
        forall|j: int| from <= j < upto - 1 ==> #[trigger] nesting(program, from, j + 1) != 0,
    ensures
        nesting(program, from, upto) >= 0,
        open_at(program, upto).len() == open_at(program, from).len() + nesting(
            program,
            from,
            upto,
        ),
        open_at(program, from).is_prefix_of(open_at(program, upto)),
    decreases upto,
{
    if upto == from + 1 {
        assert(nesting(program, from, from) == 0);
    } else {
        lemma_scan_keeps_open(program, from, upto - 1);
        assert(nesting(program, from, (upto - 2) + 1) != 0);
    }
}

/// The end of a skipped loop leaves the same brackets open as its start.
pub proof fn lemma_loop_end_restores(program: Seq<char>, from: int, close: int)
    requires
        0 <= from,
        program[from] == '[',
        closes(program, from, close),
    ensures
        open_at(program, close + 1) == open_at(program, from),
{
    if close == from {
        assert(nesting(program, from, from) == 0);
    }
    lemma_scan_keeps_open(program, from, close + 1);
    assert(open_at(program, close + 1) =~= open_at(program, from));
}

/// In a balanced program every `[` has an end. `upto` is a position up to
/// which a scan from `from` has not come back to depth zero.
pub proof fn lemma_balanced_loop_ends(program: Seq<char>, from: int, upto: int) -> (close: int)
    requires
        balanced(program),
        0 <= from < upto <= program.len(),
        program[from] == '[',
        forall|j: int| from <= j < upto - 1 ==> #[trigger] nesting(program, from, j + 1) != 0,
    ensures
        closes(program, from, close),
    decreases program.len() - upto,
{
    if nesting(program, from, upto) == 0 {
        assert(nesting(program, from, (upto - 1) + 1) == 0);
        upto - 1
    } else if upto == program.len() {
        lemma_scan_keeps_open(program, from, upto);
        lemma_open_count(program, upto);
        0
    } else {
        assert forall|j: int| from <= j < upto implies #[trigger] nesting(program, from, j + 1)
            != 0 by {
            if j == upto - 1 {
                assert(nesting(program, from, (upto - 1) + 1) != 0);
            }
        }
        lemma_balanced_loop_ends(program, from, upto + 1)
    }
}

/// Scans forward from `from` with a nesting counter and returns the first
/// position at which the counter is back at zero; `None` where the text ends
/// before that.
pub fn find_loop_end(program: &[char], from: usize) -> (end: Option<usize>)
    ensures
        match end {
            Some(close) => loop_end(program@, from as int) == Some(close as int),
            None => loop_end(program@, from as int) is None,
        },
{
    let length: usize = program.len();
    let ghost text = program@;
    if from >= length {
        return None;
    }
    let mut position: usize = from;
    let mut depth: i128 = 0;
    while position < length
        invariant
            text == program@,
            length == text.len(),
            from <= position <= length,
            depth == nesting(text, from as int, position as int),
            from - position <= depth <= position - from,
            forall|j: int| from <= j < position ==> #[trigger] nesting(text, from as int, j + 1) != 0,
        decreases length - position,
    {
        let c: char = program[position];
        if c == '[' {
            depth = depth + 1;
        } else if c == ']' {
            depth = depth - 1;
        }
        assert(depth == nesting(text, from as int, position + 1));
        if depth == 0 {
            proof {
                assert(closes(text, from as int, position as int));
                let chosen = choose|close: int| closes(text, from as int, close);
                lemma_closes_once(text, from as int, chosen, position as int);
            }
            return Some(position);
        }
        position = position + 1;
    }
    None
}

} // verus!
