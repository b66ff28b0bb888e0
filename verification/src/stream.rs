//! A forward-only stream of characters.

use vstd::prelude::*;

verus! {

/// The characters of a text, handed out one at a time from the front.
///
/// Its view is what is still to come.
pub struct CharStream {
    chars: Vec<char>,
    pos: usize,
}

impl View for CharStream {
    type V = Seq<char>;

    closed spec fn view(&self) -> Seq<char> {
        self.chars@.skip(self.pos as int)
    }
}

impl CharStream {
    #[verifier::type_invariant]
    spec fn in_bounds(self) -> bool {
        self.pos <= self.chars@.len()
    }

    /// A stream that hands out all of `text`.
    pub fn new(text: &str) -> (stream: CharStream)
        ensures
            stream@ == text@,
    {
        broadcast use vstd::string::group_string_axioms;

        let mut chars: Vec<char> = Vec::new();
        for c in it: text.chars()
            invariant
                it.seq() == text@,
                chars@ == text@.take(it.index()),
        {
            chars.push(c);
        }
        let stream = CharStream { chars, pos: 0 };
        assert(stream@ == text@);
        stream
    }

    /// Takes the next character off the stream, if one is left.
    pub fn next(&mut self) -> (c: Option<char>)
        ensures
            match c {
                Some(c) => {
                    &&& old(self)@.len() > 0
                    &&& c == old(self)@[0]
                    &&& final(self)@ == old(self)@.drop_first()
                },
                None => old(self)@.len() == 0 && final(self)@ == old(self)@,
            },
    {
        proof {
            use_type_invariant(&*self);
        }
        if self.pos < self.chars.len() {
            let c = self.chars[self.pos];
            self.pos = self.pos + 1;
            Some(c)
        } else {
            None
        }
    }
}

} // verus!
