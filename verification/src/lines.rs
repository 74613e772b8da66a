//! The line reader: numbered lines out of a text.

use crate::text::{
    lemma_boundary_after_ascii, lemma_line_end_bounds, lemma_split_shift, line_end, split_lines,
    NEWLINE,
};
use vstd::prelude::*;
use vstd::string::*;
use vstd::utf8::*;

verus! {

/// One line of input: its text, terminator included if it had one, and its
/// position in the input, counted from 1.
#[derive(Debug, PartialEq, Eq)]
pub struct Line {
    pub text: String,
    pub line_num: usize,
}

/// What a [`Line`] stands for: the bytes of its text and its number.
pub struct LineView {
    pub text: Seq<u8>,
    pub line_num: nat,
}

impl View for Line {
    type V = LineView;

    open spec fn view(&self) -> LineView {
        LineView { text: encode_utf8(self.text@), line_num: self.line_num as nat }
    }
}

/// The lines of `texts`, numbered from `first` on.
pub open spec fn numbered(texts: Seq<Seq<u8>>, first: nat) -> Seq<LineView> {
    Seq::new(texts.len(), |i: int| LineView { text: texts[i], line_num: (first + i) as nat })
}

/// A forward-only reader that hands out the lines of a text one by one.
pub struct Lines<'a> {
    rest: &'a str,
    line_num: usize,
}

impl<'a> Lines<'a> {
    /// The lines not yet handed out.
    pub closed spec fn remaining(&self) -> Seq<Seq<u8>> {
        split_lines(self.rest.spec_bytes())
    }

    /// How many lines have been handed out.
    pub closed spec fn count(&self) -> nat {
        self.line_num as nat
    }

    /// The counter has room for every line still to come.
    pub closed spec fn wf(&self) -> bool {
        self.line_num + self.rest.spec_bytes().len() <= usize::MAX
    }

    /// A reader at the start of `text`.
    pub fn new(text: &'a str) -> (lines: Lines<'a>)
        ensures
            lines.wf(),
            lines.count() == 0,
            lines.remaining() == split_lines(text.spec_bytes()),
    {
        let _ = text.as_bytes().len();
        Lines { rest: text, line_num: 0 }
    }

    /// The next line, or `None` once the text is used up.
    pub fn next(&mut self) -> (next: Option<Line>)
        requires
            old(self).wf(),
        ensures
            final(self).wf(),
            old(self).remaining().len() == 0 ==> next is None && *final(self) == *old(self),
            old(self).remaining().len() > 0 ==> next is Some
                && next->0@.text == old(self).remaining()[0]
                && next->0@.line_num == old(self).count() + 1
                && final(self).count() == old(self).count() + 1
                && final(self).remaining() == old(self).remaining().drop_first(),
    {
        let bytes = self.rest.as_bytes();
        let n = bytes.len();
        if n == 0 {
            return None;
        }
        let mut end: usize = 0;
        while end < n && bytes[end] != NEWLINE
            invariant
                end <= n,
                n == bytes@.len(),
                line_end(bytes@, 0) == line_end(bytes@, end as int),
            decreases n - end,
        {
            end += 1;
        }
        proof {
            broadcast use encode_utf8_valid_utf8;
            assert(valid_utf8(bytes@));
            if end < n {
                lemma_boundary_after_ascii(bytes@, end as int);
            } else {
                is_char_boundary_start_end_of_seq(bytes@);
            }
        }
        if end < n {
            end += 1;
        }
        let (head, tail) = self.rest.split_at(end);
        proof {
            lemma_line_end_bounds(bytes@, 0);
            lemma_split_shift(bytes@, end as int, 0);
            assert(self.remaining() =~= seq![head.spec_bytes()] + split_lines(tail.spec_bytes()));
            assert(split_lines(tail.spec_bytes()) =~= self.remaining().drop_first());
        }
        self.rest = tail;
        self.line_num = self.line_num + 1;
        Some(Line { text: head.to_owned(), line_num: self.line_num })
    }
}

} // verus!
