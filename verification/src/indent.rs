//! How tree lines are indented.
use vstd::prelude::*;

use crate::render::{dec_usize, pad_left, push_char, spec_dec_nat, spec_pad_left, spec_repeat};

verus! {

/// No indentation, a numbered margin, or two spaces per level.
#[derive(Clone, Copy, Debug, PartialEq, Eq, Structural)]
pub enum IndentMode {
    Plain,
    Numbered,
    Spaces,
}

/// The indentation text for one depth.
pub open spec fn spec_indent(mode: IndentMode, indent: int) -> Seq<char> {
    match mode {
        IndentMode::Plain => Seq::empty(),
        IndentMode::Numbered => seq![' '] + spec_pad_left(spec_dec_nat(indent as nat), 2) + seq![
            ' ',
        ],
        IndentMode::Spaces => spec_repeat(' ', 2 * indent),
    }
}

impl IndentMode {
    /// Builds the indentation text for one depth.
    pub fn put_indent(&self, indent: usize) -> (r: String)
        ensures
            r@ == spec_indent(*self, indent as int),
    {
        match self {
            IndentMode::Plain => String::new(),
            IndentMode::Numbered => {
                let num = dec_usize(indent);
                let padded = pad_left(num.as_str(), 2);
                let mut r = String::new();
                push_char(&mut r, ' ');
                r.append(padded.as_str());
                push_char(&mut r, ' ');
                proof {
                    assert(r@ =~= spec_indent(IndentMode::Numbered, indent as int));
                }
                r
            },
            IndentMode::Spaces => {
                let mut r = String::new();
                let mut i: usize = 0;
                while i < indent
                    invariant
                        i <= indent,
                        r@ =~= spec_repeat(' ', 2 * i),
                    decreases indent - i,
                {
                    push_char(&mut r, ' ');
                    push_char(&mut r, ' ');
                    i = i + 1;
                    proof {
                        reveal_with_fuel(spec_repeat, 3);
                        assert(r@ =~= spec_repeat(' ', 2 * i));
                    }
                }
                r
            },
        }
    }
}

} // verus!
