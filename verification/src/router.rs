//! The output router: what of a command's result goes to the terminal, what
//! goes to the redirection's file, and how that file is opened.

use vstd::prelude::*;
use crate::instruction::{Instruction, Output};
use crate::redirection::{
    find_redirection, first_operator, holds_operator, operator_target, RedirOp, RedirType,
    Redirection,
};
use crate::sherror::{error_text, get_error_message, ShellError};
use crate::text::{copy_words, lemma_visible_iff_trims_to_text, texts, trim, trimmed};

verus! {

/// A file to open and what to write into it. The file is created where it is
/// missing, with the directories above it; it is extended where `append`
/// holds and emptied first where it does not.
pub struct FileWrite {
    pub path: String,
    pub append: bool,
    pub content: String,
}

/// Where a command's result goes.
pub struct Routing {
    /// The redirection's file, where a stream is redirected.
    pub file: Option<FileWrite>,
    /// A line for the terminal.
    pub stdout: Option<String>,
    /// A line for the terminal's error stream.
    pub stderr: Option<String>,
}

/// A `FileWrite` as plain values.
pub struct FileWriteView {
    pub path: Seq<char>,
    pub append: bool,
    pub content: Seq<char>,
}

/// A `Routing` as plain values.
pub struct RoutingView {
    pub file: Option<FileWriteView>,
    pub stdout: Option<Seq<char>>,
    pub stderr: Option<Seq<char>>,
}

impl View for FileWrite {
    type V = FileWriteView;

    open spec fn view(&self) -> FileWriteView {
        FileWriteView { path: self.path@, append: self.append, content: self.content@ }
    }
}

/// The text of an optional string.
pub open spec fn text_of(s: Option<String>) -> Option<Seq<char>> {
    match s {
        Some(s) => Some(s@),
        None => None,
    }
}

impl View for Routing {
    type V = RoutingView;

    open spec fn view(&self) -> RoutingView {
        RoutingView {
            file: match self.file {
                Some(f) => Some(f@),
                None => None,
            },
            stdout: text_of(self.stdout),
            stderr: text_of(self.stderr),
        }
    }
}

/// A result's two channels as plain values: what a command wrote, or the
/// message of its failure.
pub enum Content {
    /// Standard output alone.
    Out(Seq<char>),
    /// Standard output and the error stream.
    Both(Seq<char>, Seq<char>),
    /// A failure's message.
    Failed(Seq<char>),
}

/// The channels of a result whose failure is already a message.
pub open spec fn content_of(content: Result<Output, String>) -> Content {
    match content {
        Ok(Output::String(out)) => Content::Out(out@),
        Ok(Output::StdOutErr(out, err)) => Content::Both(out@, err@),
        Err(message) => Content::Failed(message@),
    }
}

/// What standard output carries.
pub open spec fn stdout_channel(content: Content) -> Seq<char> {
    match content {
        Content::Out(out) => out,
        Content::Both(out, _) => out,
        Content::Failed(_) => Seq::empty(),
    }
}

/// What the error stream carries; a failure's message counts as such.
pub open spec fn stderr_channel(content: Content) -> Seq<char> {
    match content {
        Content::Out(_) => Seq::empty(),
        Content::Both(_, err) => err,
        Content::Failed(message) => message,
    }
}

/// A line for the terminal: the text without the whitespace at its ends, and
/// no line at all for an empty text.
pub open spec fn shown(text: Seq<char>) -> Option<Seq<char>> {
    if text.len() == 0 {
        None
    } else {
        Some(trimmed(text))
    }
}

/// Where a result goes under a redirection clause.
///
/// A clause redirects the one stream that it names: that stream's text goes
/// to the file and the other stream's text, unless empty, to the terminal.
/// Without a clause standard output goes to the terminal and the error stream
/// of a command that succeeded to the terminal's error stream, while the
/// message of a failure goes to the terminal.
pub open spec fn routed(target: RedirType, path: Seq<char>, content: Content) -> RoutingView {
    match target {
        RedirType::Stdout(op) => RoutingView {
            file: Some(
                FileWriteView {
                    path,
                    append: op == RedirOp::Append,
                    content: stdout_channel(content),
                },
            ),
            stdout: shown(stderr_channel(content)),
            stderr: None,
        },
        RedirType::Stderr(op) => RoutingView {
            file: Some(
                FileWriteView {
                    path,
                    append: op == RedirOp::Append,
                    content: stderr_channel(content),
                },
            ),
            stdout: shown(stdout_channel(content)),
            stderr: None,
        },
        RedirType::Absent => match content {
            Content::Out(out) => RoutingView { file: None, stdout: shown(out), stderr: None },
            Content::Both(out, err) => RoutingView {
                file: None,
                stdout: shown(out),
                stderr: shown(err),
            },
            Content::Failed(message) => RoutingView {
                file: None,
                stdout: shown(message),
                stderr: None,
            },
        },
    }
}

/// A clause opens its file for appending exactly where its operator is a
/// doubled one, whatever the command's result: `2>>` extends the file each
/// time and never replaces it.
pub proof fn lemma_mode_follows_operator(operator: Seq<char>, path: Seq<char>, content: Content)
    requires
        operator_target(operator) != RedirType::Absent,
    ensures
        routed(operator_target(operator), path, content).file matches Some(write) && write.path
            == path && (write.append <==> (operator == seq!['>', '>'] || operator == seq![
            '1',
            '>',
            '>',
        ] || operator == seq!['2', '>', '>'])),
        operator == seq!['2', '>', '>'] ==> operator_target(operator) == RedirType::Stderr(
            RedirOp::Append,
        ),
{
    assert(seq!['>'].len() == 1);
    assert(seq!['>', '>'].len() == 2 && seq!['>', '>'][0] == '>');
    assert(seq!['1', '>'].len() == 2 && seq!['1', '>'][0] == '1');
    assert(seq!['2', '>'].len() == 2 && seq!['2', '>'][0] == '2');
    assert(seq!['1', '>', '>'].len() == 3 && seq!['1', '>', '>'][0] == '1');
    assert(seq!['2', '>', '>'].len() == 3 && seq!['2', '>', '>'][0] == '2');
}

/// A redirection silences only the stream that it names: under a clause for
/// one stream the other stream's text, unless it is empty, still reaches the
/// terminal, and the file holds the named stream's text alone.
pub proof fn lemma_other_stream_stays_visible(op: RedirOp, path: Seq<char>, content: Content)
    ensures
        routed(RedirType::Stdout(op), path, content).stdout == shown(stderr_channel(content)),
        routed(RedirType::Stdout(op), path, content).file->0.content == stdout_channel(content),
        routed(RedirType::Stderr(op), path, content).stdout == shown(stdout_channel(content)),
        routed(RedirType::Stderr(op), path, content).file->0.content == stderr_channel(content),
{
}

/// A line for the terminal, where the text is not empty.
fn show(text: &str) -> (line: Option<String>)
    ensures
        text_of(line) == shown(text@),
{
    if text.unicode_len() == 0 {
        None
    } else {
        Some(trim(text))
    }
}

/// Decides where a result goes: to the terminal, to the redirection's file, or
/// part to each.
pub fn redirect_output(
    redirection: &Redirection,
    content: Result<Output, String>,
) -> (routing: Routing)
    ensures
        routing@ == routed(redirection.r_type, redirection.path@, content_of(content)),
{
    let (out, err, failed, both): (String, String, bool, bool) = match content {
        Ok(Output::String(out)) => (out, String::new(), false, false),
        Ok(Output::StdOutErr(out, err)) => (out, err, false, true),
        Err(message) => (String::new(), message, true, false),
    };
    match redirection.r_type {
        RedirType::Stdout(op) => Routing {
            file: Some(
                FileWrite {
                    path: redirection.path.clone(),
                    append: op == RedirOp::Append,
                    content: out,
                },
            ),
            stdout: show(err.as_str()),
            stderr: None,
        },
        RedirType::Stderr(op) => Routing {
            file: Some(
                FileWrite {
                    path: redirection.path.clone(),
                    append: op == RedirOp::Append,
                    content: err,
                },
            ),
            stdout: show(out.as_str()),
            stderr: None,
        },
        RedirType::Absent => {
            if failed {
                Routing { file: None, stdout: show(err.as_str()), stderr: None }
            } else {
                let stderr = if both {
                    show(err.as_str())
                } else {
                    None
                };
                Routing { file: None, stdout: show(out.as_str()), stderr }
            }
        },
    }
}

/// The channels of a command's result; the text of a failure is its message,
/// and empty for a failure that has none.
pub open spec fn content_of_result(result: Result<Output, ShellError>) -> Content {
    match result {
        Ok(Output::String(out)) => Content::Out(out@),
        Ok(Output::StdOutErr(out, err)) => Content::Both(out@, err@),
        Err(err) => Content::Failed(
            match error_text(err) {
                Some(message) => message,
                None => Seq::empty(),
            },
        ),
    }
}

/// Routes a command's result under a redirection clause. A failure is routed
/// by its message; an I/O failure has none and is routed as an empty one.
pub fn route(result: Result<Output, ShellError>, redirection: &Redirection) -> (routing: Routing)
    ensures
        routing@ == routed(redirection.r_type, redirection.path@, content_of_result(result)),
{
    let content: Result<Output, String> = match result {
        Ok(output) => Ok(output),
        Err(err) => {
            match get_error_message(&err) {
                Some(message) => Err(message.to_owned()),
                None => Err(String::new()),
            }
        },
    };
    redirect_output(redirection, content)
}

/// A command line made ready to run.
pub struct Plan {
    /// The command's name, without whitespace at its ends.
    pub command: String,
    /// The arguments without the redirection clause.
    pub arguments: Vec<String>,
    /// The redirection clause.
    pub redirection: Redirection,
}

/// Makes an instruction ready to run. Where it is marked as holding a
/// redirection, the clause is split from the arguments, and an operator
/// without a path is an error; where it is not, the arguments stay as they are
/// and nothing is redirected.
pub fn plan_command(instruction: &Instruction) -> (result: Result<Plan, ShellError>)
    ensures
        instruction.redirection ==> (result matches Ok(plan) ==> !holds_operator(
            texts(plan.arguments@),
        )),
        instruction.wf() ==> (result matches Ok(plan) ==> plan.command@.len() > 0),
        ({
            let args = texts(instruction.arguments@);
            let at = first_operator(args, 0);
            if !instruction.redirection || at >= args.len() {
                &&& result matches Ok(plan)
                &&& plan.command@ == trimmed(instruction.command@)
                &&& texts(plan.arguments@) == args
                &&& plan.redirection.r_type == RedirType::Absent
                &&& plan.redirection.path@ == Seq::<char>::empty()
            } else if at + 1 >= args.len() {
                result matches Err(ShellError::MalformedRedirection)
            } else {
                &&& result matches Ok(plan)
                &&& plan.command@ == trimmed(instruction.command@)
                &&& texts(plan.arguments@) == args.take(at)
                &&& plan.redirection.r_type == operator_target(args[at])
                &&& plan.redirection.path@ == args[at + 1]
            }
        }),
{
    let command = trim(instruction.command.as_str());
    proof {
        lemma_visible_iff_trims_to_text(instruction.command@);
    }
    let arguments = copy_words(&instruction.arguments);
    if instruction.redirection {
        match find_redirection(arguments) {
            Ok((arguments, redirection)) => Ok(Plan { command, arguments, redirection }),
            Err(err) => Err(err),
        }
    } else {
        Ok(
            Plan {
                command,
                arguments,
                redirection: Redirection { r_type: RedirType::Absent, path: String::new() },
            },
        )
    }
}

} // verus!
