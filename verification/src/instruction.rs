//! One command line taken apart: the command, its arguments, and whether a
//! redirection operator stands among them; and what a command hands back.

use vstd::prelude::*;
use crate::redirection::{has_redirection, holds_operator};
use crate::text::{is_visible, lemma_texts_push, push_char, texts};
use crate::tokenizer::{lemma_tokens_hold_text, parse_command, tokens};

verus! {

/// A command with its arguments.
pub struct Instruction {
    pub command: String,
    pub arguments: Vec<String>,
    pub redirection: bool,
}

/// What a command that succeeded hands back.
pub enum Output {
    /// Text for standard output alone.
    String(String),
    /// Text for standard output, and text for the error stream.
    StdOutErr(String, String),
}

/// The text that an output shows where its two streams are not told apart:
/// the one that is not empty, or both with a line break between them.
pub open spec fn output_text(output: Output) -> Seq<char> {
    match output {
        Output::String(out) => out@,
        Output::StdOutErr(out, err) => if out@.len() == 0 {
            err@
        } else if err@.len() == 0 {
            out@
        } else {
            out@ + seq!['\n'] + err@
        },
    }
}

impl Instruction {
    /// Whether the instruction is one that a line gives: the command holds
    /// more than whitespace, no argument is empty, and the mark for a
    /// redirection is set exactly where an argument is an operator.
    pub open spec fn wf(&self) -> bool {
        &&& is_visible(self.command@)
        &&& forall|i: int|
            0 <= i < self.arguments.len() ==> (#[trigger] texts(self.arguments@)[i]).len() > 0
        &&& self.redirection == holds_operator(texts(self.arguments@))
    }

    /// Takes a line apart. The first token is the command and the others are
    /// the arguments, each as it was written, quoted whitespace included. A
    /// line without a token, or whose first token is whitespace alone, holds
    /// no command and is left out.
    pub fn new(input: &str) -> (instruction: Instruction)
        requires
            tokens(input@).len() > 0,
            is_visible(tokens(input@)[0]),
        ensures
            instruction.wf(),
            instruction.command@ == tokens(input@)[0],
            texts(instruction.arguments@) == tokens(input@).drop_first(),
            instruction.redirection == holds_operator(texts(instruction.arguments@)),
    {
        let words = parse_command(input);
        assert(texts(words@)[0] == words@[0]@);
        let command = words[0].clone();
        let mut arguments: Vec<String> = Vec::new();
        let ghost rest = texts(words@).drop_first();
        let mut k: usize = 1;
        assert(texts(arguments@) =~= rest.take(0));
        while k < words.len()
            invariant
                1 <= k <= words.len(),
                rest == texts(words@).drop_first(),
                texts(arguments@) == rest.take(k - 1),
            decreases words.len() - k,
        {
            let word = words[k].clone();
            proof {
                lemma_texts_push(arguments@, word);
                assert(rest.take(k - 1).push(word@) =~= rest.take(k as int));
            }
            arguments.push(word);
            k += 1;
        }
        proof {
            assert(rest.take(words.len() - 1) =~= rest);
            assert forall|i: int| 0 <= i < arguments.len() implies (#[trigger] texts(
                arguments@,
            )[i]).len() > 0 by {
                lemma_tokens_hold_text(input@, 0, Seq::empty(), i + 1);
            }
        }
        let redirection = has_redirection(&arguments);
        Instruction { command, arguments, redirection }
    }
}

impl Output {
    /// The output as one text: the stream that is not empty, or standard
    /// output, a line break and the error stream.
    pub fn to_string(&self) -> (s: String)
        ensures
            s@ == output_text(*self),
    {
        match self {
            Output::String(out) => out.clone(),
            Output::StdOutErr(out, err) => {
                if out.as_str().unicode_len() == 0 {
                    err.clone()
                } else if err.as_str().unicode_len() == 0 {
                    out.clone()
                } else {
                    let mut s = out.clone();
                    push_char(&mut s, '\n');
                    s.append(err.as_str());
                    s
                }
            },
        }
    }
}

} // verus!
