//! The two capabilities that the engine consumes, a source and a sink of
//! characters, and an in-memory implementation of each.

use vstd::prelude::*;

verus! {

/// A source that hands over one character on demand.
///
/// `delivered` exists for contracts only. An implementation that is verified
/// has to define it, since the default cannot meet the contract of
/// `read_char`; one written outside the verifier leaves it alone.
pub trait CharReader {
    /// Every character that this source has handed over, oldest first.
    open spec fn delivered(&self) -> Seq<char> {
        Seq::empty()
    }

    /// Hands over the next character.
    fn read_char(&mut self) -> (c: char)
        ensures
            final(self).delivered() == old(self).delivered().push(c),
    ;
}

/// A sink that takes one character on demand.
///
/// `written` exists for contracts only. An implementation that is verified
/// has to define it, since the default cannot meet the contract of
/// `write_char`; one written outside the verifier leaves it alone.
pub trait CharWriter {
    /// Every character that this sink has taken, oldest first.
    open spec fn written(&self) -> Seq<char> {
        Seq::empty()
    }

    /// Appends one character to the output.
    fn write_char(&mut self, char_to_write: char)
        ensures
            final(self).written() == old(self).written().push(char_to_write),
    ;
}

/// A sink that keeps what it is given in memory.
pub struct Transcript {
    chars: Vec<char>,
}

impl Transcript {
    /// An empty transcript.
    pub fn new() -> (t: Self)
        ensures
            t.written() == Seq::<char>::empty(),
    {
        Transcript { chars: Vec::new() }
    }

    /// The characters written so far, oldest first.
    pub fn chars(&self) -> (all: &Vec<char>)
        ensures
            all@ == self.written(),
    {
        &self.chars
    }
}

impl CharWriter for Transcript {
    closed spec fn written(&self) -> Seq<char> {
        self.chars@
    }

    fn write_char(&mut self, char_to_write: char) {
        self.chars.push(char_to_write);
    }
}

/// A source that plays back a prepared text and, once the text is used up,
/// delivers the character with code zero forever.
pub struct Script {
    text: Vec<char>,
    position: usize,
    log: Ghost<Seq<char>>,
}

impl Script {
    /// The prepared characters that have not been delivered yet.
    pub closed spec fn pending(&self) -> Seq<char> {
        if self.position <= self.text@.len() {
            self.text@.skip(self.position as int)
        } else {
            Seq::empty()
        }
    }

    /// A source that will deliver `text` from its first character on.
    pub fn new(text: Vec<char>) -> (s: Self)
        ensures
            s.pending() == text@,
            s.delivered() == Seq::<char>::empty(),
    {
        Script { text, position: 0, log: Ghost(Seq::empty()) }
    }
}

impl CharReader for Script {
    closed spec fn delivered(&self) -> Seq<char> {
        self.log@
    }

    fn read_char(&mut self) -> (c: char)
        ensures
            old(self).pending().len() > 0 ==> c == old(self).pending()[0] && final(self).pending()
                == old(self).pending().skip(1),
            old(self).pending().len() == 0 ==> c == '\0' && final(self).pending().len() == 0,
    {
        let c: char = if self.position < self.text.len() {
            let found: char = self.text[self.position];
            self.position = self.position + 1;
            found
        } else {
            '\0'
        };
        proof {
            self.log@ = self.log@.push(c);
            assert(old(self).pending().len() > 0 ==> final(self).pending() =~= old(
                self,
            ).pending().skip(1));
        }
        c
    }
}

} // verus!
