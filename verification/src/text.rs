//! Program text as a sequence of characters that can be indexed.

use vstd::prelude::*;
use vstd::string::axiom_spec_iter;

verus! {

/// The characters of `program`, in order.
pub fn characters(program: &str) -> (text: Vec<char>)
    ensures
        text@ == program@,
{
    broadcast use axiom_spec_iter;

    let mut text: Vec<char> = Vec::new();
    for c in it: program.chars()
        invariant
            it.seq() == program@,
            text@ == it.seq().take(it.index()),
    {
        text.push(c);
    }
    text
}

} // verus!
