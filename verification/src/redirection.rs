//! The redirection clause: finding a `>`-family operator among the arguments
//! and splitting it, with its path, from the effective argument list.

use vstd::prelude::*;
use crate::sherror::ShellError;
use crate::text::{chars_of, first_words, texts};

verus! {

/// Whether the target file is replaced or extended.
#[derive(Debug, Clone, Copy, PartialEq, Eq, Structural)]
pub enum RedirOp {
    Write,
    Append,
}

/// The stream that a redirection targets, with the mode of writing.
#[derive(Debug, Clone, Copy, PartialEq, Eq, Structural)]
pub enum RedirType {
    Stdout(RedirOp),
    Stderr(RedirOp),
    Absent,
}

/// A redirection clause: the target stream and mode, and the file's path.
#[derive(Clone)]
pub struct Redirection {
    pub r_type: RedirType,
    pub path: String,
}

/// The target that an argument selects: a stream and a mode for each of the
/// six operators, `Absent` for any other word.
pub open spec fn operator_target(word: Seq<char>) -> RedirType {
    if word == seq!['>'] || word == seq!['1', '>'] {
        RedirType::Stdout(RedirOp::Write)
    } else if word == seq!['>', '>'] || word == seq!['1', '>', '>'] {
        RedirType::Stdout(RedirOp::Append)
    } else if word == seq!['2', '>'] {
        RedirType::Stderr(RedirOp::Write)
    } else if word == seq!['2', '>', '>'] {
        RedirType::Stderr(RedirOp::Append)
    } else {
        RedirType::Absent
    }
}

/// Whether an argument is one of the six redirection operators.
pub open spec fn is_operator(word: Seq<char>) -> bool {
    operator_target(word) != RedirType::Absent
}

/// The position of the first redirection operator at or after `from`, or the
/// number of arguments where there is none.
pub open spec fn first_operator(arguments: Seq<Seq<char>>, from: int) -> int
    decreases arguments.len() - from,
{
    if from < 0 || from >= arguments.len() {
        arguments.len() as int
    } else if is_operator(arguments[from]) {
        from
    } else {
        first_operator(arguments, from + 1)
    }
}

/// Whether any argument is a redirection operator.
pub open spec fn holds_operator(arguments: Seq<Seq<char>>) -> bool {
    exists|i: int| 0 <= i < arguments.len() && is_operator(#[trigger] arguments[i])
}

/// `first_operator` gives the first position that holds an operator.
pub proof fn lemma_first_operator(arguments: Seq<Seq<char>>, from: int)
    requires
        0 <= from <= arguments.len(),
    ensures
        from <= first_operator(arguments, from) <= arguments.len(),
        first_operator(arguments, from) < arguments.len() ==> is_operator(
            arguments[first_operator(arguments, from)],
        ),
        forall|k: int|
            from <= k < first_operator(arguments, from) ==> !is_operator(#[trigger] arguments[k]),
    decreases arguments.len() - from,
{
    if from < arguments.len() && !is_operator(arguments[from]) {
        lemma_first_operator(arguments, from + 1);
    }
}

/// The scan finds an operator exactly where the arguments hold one.
pub proof fn lemma_scan_agrees(arguments: Seq<Seq<char>>)
    ensures
        holds_operator(arguments) <==> first_operator(arguments, 0) < arguments.len(),
{
    lemma_first_operator(arguments, 0);
    let k = first_operator(arguments, 0);
    if k < arguments.len() {
        assert(is_operator(arguments[k]));
    }
}

/// What is kept of the arguments before the first operator holds no operator:
/// extracting a second time changes nothing.
pub proof fn lemma_kept_holds_no_operator(arguments: Seq<Seq<char>>)
    ensures
        !holds_operator(arguments.take(first_operator(arguments, 0))),
        first_operator(arguments.take(first_operator(arguments, 0)), 0) == first_operator(
            arguments,
            0,
        ),
{
    lemma_first_operator(arguments, 0);
    let at = first_operator(arguments, 0);
    let kept = arguments.take(at);
    assert forall|i: int| 0 <= i < kept.len() implies !is_operator(#[trigger] kept[i]) by {
        assert(kept[i] == arguments[i]);
    }
    lemma_scan_agrees(kept);
    lemma_first_operator(kept, 0);
}

/// Two argument lists of one length whose words select the same targets have
/// their first operator at the same place.
pub proof fn lemma_same_targets_same_place(a: Seq<Seq<char>>, b: Seq<Seq<char>>, from: int)
    requires
        a.len() == b.len(),
        0 <= from <= a.len(),
        forall|k: int|
            0 <= k < a.len() ==> operator_target(#[trigger] a[k]) == operator_target(b[k]),
    ensures
        first_operator(a, from) == first_operator(b, from),
    decreases a.len() - from,
{
    if from < a.len() {
        assert(operator_target(a[from]) == operator_target(b[from]));
        if !is_operator(a[from]) {
            lemma_same_targets_same_place(a, b, from + 1);
        }
    }
}

/// `>` and `1>` mean the same: writing one for the other at any place leaves
/// the clause's position and its target as they were, standard output in
/// truncating mode where that word is the operator found.
pub proof fn lemma_bare_operator_is_stdout(arguments: Seq<Seq<char>>, at: int)
    requires
        0 <= at < arguments.len(),
        arguments[at] == seq!['>'],
    ensures
        operator_target(seq!['>']) == RedirType::Stdout(RedirOp::Write),
        operator_target(seq!['1', '>']) == RedirType::Stdout(RedirOp::Write),
        first_operator(arguments.update(at, seq!['1', '>']), 0) == first_operator(arguments, 0),
        first_operator(arguments, 0) <= at,
{
    let other = arguments.update(at, seq!['1', '>']);
    assert forall|k: int| 0 <= k < arguments.len() implies operator_target(
        #[trigger] arguments[k],
    ) == operator_target(other[k]) by {}
    lemma_same_targets_same_place(arguments, other, 0);
    lemma_first_operator(arguments, 0);
    if first_operator(arguments, 0) > at {
        assert(!is_operator(arguments[at]));
    }
}

impl RedirOp {
    /// The name of the mode.
    pub fn to_string(&self) -> (s: String)
        ensures
            s@ == match *self {
                RedirOp::Write => "Write"@,
                RedirOp::Append => "Append"@,
            },
    {
        match self {
            RedirOp::Write => "Write".to_owned(),
            RedirOp::Append => "Append".to_owned(),
        }
    }
}

impl RedirType {
    /// The mode of writing, where a stream is targeted.
    pub fn get_redir_op(self) -> (op: Option<RedirOp>)
        ensures
            op == match self {
                RedirType::Stdout(o) => Some(o),
                RedirType::Stderr(o) => Some(o),
                RedirType::Absent => None,
            },
    {
        match self {
            RedirType::Stdout(op) => Some(op),
            RedirType::Stderr(op) => Some(op),
            RedirType::Absent => None,
        }
    }

    /// The stream and the mode in words.
    pub fn to_string(&self) -> (s: String)
        ensures
            s@ == match *self {
                RedirType::Stdout(RedirOp::Write) => "Stdout: "@ + "Write"@,
                RedirType::Stdout(RedirOp::Append) => "Stdout: "@ + "Append"@,
                RedirType::Stderr(RedirOp::Write) => "Stderr: "@ + "Write"@,
                RedirType::Stderr(RedirOp::Append) => "Stderr: "@ + "Append"@,
                RedirType::Absent => "none"@,
            },
    {
        match self {
            RedirType::Stdout(op) => {
                let name = op.to_string();
                "Stdout: ".to_owned().concat(name.as_str())
            },
            RedirType::Stderr(op) => {
                let name = op.to_string();
                "Stderr: ".to_owned().concat(name.as_str())
            },
            RedirType::Absent => "none".to_owned(),
        }
    }
}

/// The target that a word selects; `RedirType::Absent` for a word that is no
/// operator.
pub fn target_of(word: &str) -> (target: RedirType)
    ensures
        target == operator_target(word@),
{
    let w = chars_of(word);
    let n = w.len();
    if n == 1 && w[0] == '>' {
        assert(w@ =~= seq!['>']);
        RedirType::Stdout(RedirOp::Write)
    } else if n == 2 && w[0] == '>' && w[1] == '>' {
        assert(w@ =~= seq!['>', '>']);
        RedirType::Stdout(RedirOp::Append)
    } else if n == 2 && w[0] == '1' && w[1] == '>' {
        assert(w@ =~= seq!['1', '>']);
        RedirType::Stdout(RedirOp::Write)
    } else if n == 3 && w[0] == '1' && w[1] == '>' && w[2] == '>' {
        assert(w@ =~= seq!['1', '>', '>']);
        RedirType::Stdout(RedirOp::Append)
    } else if n == 2 && w[0] == '2' && w[1] == '>' {
        assert(w@ =~= seq!['2', '>']);
        RedirType::Stderr(RedirOp::Write)
    } else if n == 3 && w[0] == '2' && w[1] == '>' && w[2] == '>' {
        assert(w@ =~= seq!['2', '>', '>']);
        RedirType::Stderr(RedirOp::Append)
    } else {
        assert(seq!['>'].len() == 1 && seq!['>'][0] == '>');
        assert(seq!['>', '>'].len() == 2 && seq!['>', '>'][0] == '>' && seq!['>', '>'][1] == '>');
        assert(seq!['1', '>'].len() == 2 && seq!['1', '>'][0] == '1' && seq!['1', '>'][1] == '>');
        assert(seq!['2', '>'].len() == 2 && seq!['2', '>'][0] == '2' && seq!['2', '>'][1] == '>');
        assert(seq!['1', '>', '>'].len() == 3 && seq!['1', '>', '>'][0] == '1' && seq![
            '1',
            '>',
            '>',
        ][1] == '>' && seq!['1', '>', '>'][2] == '>');
        assert(seq!['2', '>', '>'].len() == 3 && seq!['2', '>', '>'][0] == '2' && seq![
            '2',
            '>',
            '>',
        ][1] == '>' && seq!['2', '>', '>'][2] == '>');
        RedirType::Absent
    }
}

/// The position of the first redirection operator among the arguments, or
/// their number where there is none.
fn find_operator(arguments: &Vec<String>) -> (at: usize)
    ensures
        at == first_operator(texts(arguments@), 0),
        at <= arguments.len(),
{
    let mut at: usize = 0;
    while at < arguments.len()
        invariant
            at <= arguments.len(),
            first_operator(texts(arguments@), at as int) == first_operator(texts(arguments@), 0),
        decreases arguments.len() - at,
    {
        let target = target_of(arguments[at].as_str());
        assert(texts(arguments@)[at as int] == arguments@[at as int]@);
        if target != RedirType::Absent {
            return at;
        }
        at += 1;
    }
    at
}

/// Whether any argument is one of the operators `>`, `>>`, `1>`, `1>>`, `2>`,
/// `2>>`: the same set that `find_redirection` scans for.
pub fn has_redirection(arguments: &Vec<String>) -> (found: bool)
    ensures
        found == holds_operator(texts(arguments@)),
        found == (first_operator(texts(arguments@), 0) < arguments.len()),
{
    proof {
        lemma_scan_agrees(texts(arguments@));
    }
    find_operator(arguments) < arguments.len()
}

/// Splits the redirection clause from the arguments.
///
/// The first operator and the word after it, the path, leave the list, and so
/// does everything behind them. Without an operator the arguments come back
/// as they are, with a clause that targets nothing. An operator that is the
/// last word has no path: that is an error.
pub fn find_redirection(arguments: Vec<String>) -> (result: Result<
    (Vec<String>, Redirection),
    ShellError,
>)
    ensures
        !holds_operator(texts(arguments@)) ==> (result matches Ok((kept, clause)) && texts(kept@)
            == texts(arguments@) && clause.r_type == RedirType::Absent),
        result matches Ok((kept, _)) ==> !holds_operator(texts(kept@)),
        ({
            let args = texts(arguments@);
            let at = first_operator(args, 0);
            if at >= args.len() {
                &&& result matches Ok((kept, clause))
                &&& texts(kept@) == args
                &&& clause.r_type == RedirType::Absent
                &&& clause.path@ == Seq::<char>::empty()
            } else if at + 1 >= args.len() {
                result matches Err(ShellError::MalformedRedirection)
            } else {
                &&& result matches Ok((kept, clause))
                &&& texts(kept@) == args.take(at)
                &&& clause.r_type == operator_target(args[at])
                &&& clause.path@ == args[at + 1]
            }
        }),
{
    let at = find_operator(&arguments);
    proof {
        lemma_first_operator(texts(arguments@), 0);
        lemma_scan_agrees(texts(arguments@));
        lemma_kept_holds_no_operator(texts(arguments@));
        assert(texts(arguments@).take(arguments.len() as int) =~= texts(arguments@));
    }
    if at >= arguments.len() {
        return Ok((arguments, Redirection { r_type: RedirType::Absent, path: String::new() }));
    }
    if at + 1 >= arguments.len() {
        return Err(ShellError::MalformedRedirection);
    }
    let r_type = target_of(arguments[at].as_str());
    let path = arguments[at + 1].clone();
    let kept = first_words(&arguments, at);
    Ok((kept, Redirection { r_type, path }))
}

} // verus!
