//! The dispatcher: which builtin a command names, what has to be asked of the
//! operating system to carry it out, and what the answer means.

use vstd::prelude::*;
use crate::instruction::Output;
use crate::sherror::ShellError;
use crate::shfile::{
    candidates, candidates_of, executable_exists, first_present, is_executable,
};
use crate::text::{
    contains_text, join, joined, lemma_texts_push, same_text, texts, trim, trimmed,
};

verus! {

/// The shell's surroundings, taken once at its start.
#[derive(Clone)]
pub struct Shell {
    /// The search path: directories with colons between them.
    pub path: String,
    /// The home directory.
    pub home: String,
    /// The names of the builtins.
    pub builtins: Vec<String>,
}

/// The commands that the shell carries out itself.
#[derive(Debug, Clone, Copy, PartialEq, Eq, Structural)]
pub enum Builtin {
    Pwd,
    Cd,
    Echo,
    Type,
    Cat,
    Exit,
}

/// The builtin that a name stands for, where it stands for one.
pub open spec fn builtin_named(name: Seq<char>) -> Option<Builtin> {
    if name == "pwd"@ {
        Some(Builtin::Pwd)
    } else if name == "cd"@ {
        Some(Builtin::Cd)
    } else if name == "echo"@ {
        Some(Builtin::Echo)
    } else if name == "type"@ {
        Some(Builtin::Type)
    } else if name == "cat"@ {
        Some(Builtin::Cat)
    } else if name == "exit"@ {
        Some(Builtin::Exit)
    } else {
        None
    }
}

/// The names of the builtins.
pub open spec fn builtin_name_list() -> Seq<Seq<char>> {
    seq!["pwd"@, "cd"@, "echo"@, "type"@, "cat"@, "exit"@]
}

/// The list of names and the dispatcher agree: a name is in the list exactly
/// where it stands for a builtin.
pub proof fn lemma_builtin_names_agree(name: Seq<char>)
    ensures
        builtin_name_list().contains(name) <==> builtin_named(name) is Some,
{
    let names = builtin_name_list();
    if builtin_named(name) is Some {
        if name == "pwd"@ {
            assert(names[0] == name);
        } else if name == "cd"@ {
            assert(names[1] == name);
        } else if name == "echo"@ {
            assert(names[2] == name);
        } else if name == "type"@ {
            assert(names[3] == name);
        } else if name == "cat"@ {
            assert(names[4] == name);
        } else {
            assert(names[5] == name);
        }
    }
    if names.contains(name) {
        let i = choose|i: int| 0 <= i < names.len() && names[i] == name;
        assert(0 <= i < 6);
    }
}

/// The builtin that a command names, where it names one.
pub fn builtin_of(command: &str) -> (builtin: Option<Builtin>)
    ensures
        builtin == builtin_named(command@),
{
    if same_text(command, "pwd") {
        Some(Builtin::Pwd)
    } else if same_text(command, "cd") {
        Some(Builtin::Cd)
    } else if same_text(command, "echo") {
        Some(Builtin::Echo)
    } else if same_text(command, "type") {
        Some(Builtin::Type)
    } else if same_text(command, "cat") {
        Some(Builtin::Cat)
    } else if same_text(command, "exit") {
        Some(Builtin::Exit)
    } else {
        None
    }
}

/// The names of the builtins.
pub fn builtin_names() -> (names: Vec<String>)
    ensures
        texts(names@) == builtin_name_list(),
{
    let mut names: Vec<String> = Vec::new();
    names.push("pwd".to_owned());
    names.push("cd".to_owned());
    names.push("echo".to_owned());
    names.push("type".to_owned());
    names.push("cat".to_owned());
    names.push("exit".to_owned());
    assert(texts(names@) =~= builtin_name_list());
    names
}

impl Shell {
    /// Whether the shell's list of builtins is the fixed set.
    pub open spec fn wf(&self) -> bool {
        texts(self.builtins@) == builtin_name_list()
    }

    /// A shell with the given search path and home directory, and the fixed
    /// set of builtins.
    pub fn new(path: String, home: String) -> (shell: Shell)
        ensures
            shell.wf(),
            shell.path@ == path@,
            shell.home@ == home@,
            texts(shell.builtins@) == builtin_name_list(),
    {
        Shell { path, home, builtins: builtin_names() }
    }
}

/// In a shell that is `wf`, `type` and the dispatcher agree: the names that
/// `type` calls builtins are the commands that are carried out as builtins.
pub proof fn lemma_type_agrees_with_dispatch(shell: Shell, name: Seq<char>)
    requires
        shell.wf(),
    ensures
        texts(shell.builtins@).contains(name) <==> builtin_named(name) is Some,
{
    lemma_builtin_names_agree(name);
}

/// What carrying out a command needs next.
pub enum Request {
    /// Nothing: the result stands.
    Done(Result<Output, ShellError>),
    /// The working directory; `finish_pwd` takes the answer.
    WorkingDir,
    /// A change of the working directory to `target`; `finish_cd` takes the
    /// answer, with `directory`, the argument as it was written.
    ChangeDir { directory: String, target: String },
    /// Which of `places` exist; `finish_type` takes the answer, with
    /// `command`.
    Locate { command: String, places: Vec<String> },
    /// The contents of the files at `paths`; `finish_cat` takes the answer.
    ReadFiles { paths: Vec<String> },
    /// The end of the shell, with status 0.
    Exit,
    /// Which of `places` exist; `launch` takes the answer.
    Search { places: Vec<String> },
    /// A run of `program` with `arguments`; `finish_run` takes the answer.
    Spawn { program: String, arguments: Vec<String> },
}

/// What `echo` writes: the arguments with single spaces between them, without
/// the whitespace at the two ends.
pub open spec fn echo_text(arguments: Seq<Seq<char>>) -> Seq<char> {
    trimmed(joined(arguments, seq![' ']))
}

/// The first request for a command, by what the command names.
pub open spec fn first_request(
    request: Request,
    command: Seq<char>,
    arguments: Seq<Seq<char>>,
    path: Seq<char>,
    home: Seq<char>,
    builtins: Seq<Seq<char>>,
) -> bool {
    match builtin_named(command) {
        Some(Builtin::Pwd) => request is WorkingDir,
        Some(Builtin::Cd) => if arguments.len() == 0 || arguments[0].len() == 0 {
            request matches Request::Done(Err(ShellError::InvalidArgument(message))) && message@
                == "No directory specified"@
        } else {
            &&& request matches Request::ChangeDir { directory, target }
            &&& directory@ == arguments[0]
            &&& target@ == if arguments[0] == seq!['~'] {
                home
            } else {
                arguments[0]
            }
        },
        Some(Builtin::Echo) => request matches Request::Done(Ok(Output::String(out))) && out@
            == echo_text(arguments),
        Some(Builtin::Type) => {
            let name = joined(arguments, Seq::empty());
            if builtins.contains(name) {
                request matches Request::Done(Ok(Output::String(out))) && out@ == name
                    + " is a shell builtin"@
            } else {
                &&& request matches Request::Locate { command: wanted, places }
                &&& wanted@ == name
                &&& texts(places@) == candidates_of(path, name)
            }
        },
        Some(Builtin::Cat) => request matches Request::ReadFiles { paths } && texts(paths@)
            == arguments,
        Some(Builtin::Exit) => if joined(arguments, Seq::empty()) == seq!['0'] {
            request is Exit
        } else {
            request matches Request::Done(Err(ShellError::InvalidArgument(message))) && message@
                == "exit: command not found"@
        },
        None => request matches Request::Search { places } && texts(places@) == candidates_of(
            path,
            command,
        ),
    }
}

/// Decides how a command is carried out: a builtin by its own rule, anything
/// else by a search along the path. The result either stands at once or names
/// what has to be asked of the operating system first. `type` calls a name a
/// builtin where the shell's list holds it; in a shell that is `wf` that list
/// is the set of commands that are carried out as builtins here.
pub fn handle_input(command: &str, arguments: Vec<String>, shell: &Shell) -> (request: Request)
    ensures
        first_request(
            request,
            command@,
            texts(arguments@),
            shell.path@,
            shell.home@,
            texts(shell.builtins@),
        ),
{
    match builtin_of(command) {
        Some(Builtin::Pwd) => Request::WorkingDir,
        Some(Builtin::Cd) => {
            if arguments.len() == 0 || arguments[0].as_str().unicode_len() == 0 {
                assert(arguments.len() > 0 ==> texts(arguments@)[0] == arguments@[0]@);
                return Request::Done(
                    Err(ShellError::InvalidArgument("No directory specified".to_owned())),
                );
            }
            assert(texts(arguments@)[0] == arguments@[0]@);
            let directory = arguments[0].clone();
            let target = if same_text(directory.as_str(), "~") {
                proof {
                    reveal_strlit("~");
                    assert("~"@ =~= seq!['~']);
                }
                shell.home.clone()
            } else {
                proof {
                    reveal_strlit("~");
                    assert("~"@ =~= seq!['~']);
                }
                directory.clone()
            };
            Request::ChangeDir { directory, target }
        },
        Some(Builtin::Echo) => {
            let line = join(&arguments, " ");
            proof {
                reveal_strlit(" ");
                assert(" "@ =~= seq![' ']);
            }
            Request::Done(Ok(Output::String(trim(line.as_str()))))
        },
        Some(Builtin::Type) => {
            let name = join(&arguments, "");
            proof {
                reveal_strlit("");
                assert(""@ =~= Seq::<char>::empty());
            }
            if contains_text(&shell.builtins, name.as_str()) {
                let mut out = name;
                out.append(" is a shell builtin");
                Request::Done(Ok(Output::String(out)))
            } else {
                let places = candidates(shell.path.as_str(), name.as_str());
                Request::Locate { command: name, places }
            }
        },
        Some(Builtin::Cat) => Request::ReadFiles { paths: arguments },
        Some(Builtin::Exit) => {
            let argument = join(&arguments, "");
            proof {
                reveal_strlit("");
                assert(""@ =~= Seq::<char>::empty());
                reveal_strlit("0");
                assert("0"@ =~= seq!['0']);
            }
            if same_text(argument.as_str(), "0") {
                Request::Exit
            } else {
                Request::Done(
                    Err(ShellError::InvalidArgument("exit: command not found".to_owned())),
                )
            }
        },
        None => Request::Search { places: candidates(shell.path.as_str(), command) },
    }
}

/// Ends `pwd`. The working directory is the output; one that is no text is a
/// failure of the command, and a failure to learn it is passed on.
pub fn finish_pwd(answer: Result<Option<String>, std::io::Error>) -> (result: Result<
    Output,
    ShellError,
>)
    ensures
        match answer {
            Ok(Some(dir)) => result matches Ok(Output::String(out)) && out@ == dir@,
            Ok(None) => result matches Err(ShellError::ExecutionError(message)) && message@
                == "Invalid path encoding"@,
            Err(error) => result matches Err(ShellError::IoError(e)) && e == error,
        },
{
    match answer {
        Ok(Some(dir)) => Ok(Output::String(dir)),
        Ok(None) => Err(ShellError::ExecutionError("Invalid path encoding".to_owned())),
        Err(error) => Err(ShellError::from(error)),
    }
}

/// Ends `cd`: no output where the directory was entered, and a failure that
/// names the argument where it was not.
pub fn finish_cd(directory: &str, changed: bool) -> (result: Result<Output, ShellError>)
    ensures
        if changed {
            result matches Ok(Output::String(out)) && out@.len() == 0
        } else {
            result matches Err(ShellError::FileNotFound(message)) && message@ == "cd: "@
                + directory@ + ": No such file or directory"@
        },
{
    if changed {
        Ok(Output::String(String::new()))
    } else {
        let mut message = "cd: ".to_owned();
        message.append(directory);
        message.append(": No such file or directory");
        Err(ShellError::FileNotFound(message))
    }
}

/// Ends `type` for a name that is no builtin. `present` tells of each place
/// of the search, in order, whether a file exists there: the first that
/// exists is reported, and a name that lies nowhere is a failure.
pub fn finish_type(command: &str, shell: &Shell, present: &Vec<bool>) -> (result: Result<
    Output,
    ShellError,
>)
    ensures
        ({
            let places = candidates_of(shell.path@, command@);
            let at = first_present(present@, places.len() as int, 0);
            if at < places.len() {
                result matches Ok(Output::String(out)) && out@ == command@ + " is "@ + places[at]
            } else {
                result matches Err(ShellError::ExecutableNotFound(message)) && message@
                    == command@ + ": not found"@
            }
        }),
{
    match executable_exists(shell.path.as_str(), command, present) {
        Ok(line) => Ok(Output::String(line)),
        Err(err) => Err(err),
    }
}

/// What `cat` says of a file that it could not read.
pub open spec fn missing_file_text(path: Seq<char>) -> Seq<char> {
    "cat: "@ + path + ": No such file or directory"@
}

/// What the file at position `i` holds, where it was read. A position that
/// `contents` does not reach counts as a file that could not be read.
pub open spec fn read_at(contents: Seq<Option<String>>, i: int) -> Option<Seq<char>> {
    if 0 <= i < contents.len() {
        match contents[i] {
            Some(content) => Some(content@),
            None => None,
        }
    } else {
        None
    }
}

/// The contents of the first `n` files that could be read, one after the
/// other with nothing between them.
pub open spec fn cat_output(contents: Seq<Option<String>>, n: int) -> Seq<char>
    decreases n,
{
    if n <= 0 {
        Seq::empty()
    } else {
        cat_output(contents, n - 1) + match read_at(contents, n - 1) {
            Some(content) => content,
            None => Seq::empty(),
        }
    }
}

/// One message for each of the first `n` files that could not be read.
pub open spec fn cat_failures(paths: Seq<Seq<char>>, contents: Seq<Option<String>>, n: int) -> Seq<
    Seq<char>,
>
    decreases n,
{
    if n <= 0 {
        Seq::empty()
    } else if read_at(contents, n - 1) is None {
        cat_failures(paths, contents, n - 1).push(missing_file_text(paths[n - 1]))
    } else {
        cat_failures(paths, contents, n - 1)
    }
}

/// Ends `cat`. `contents` holds for each path, in order, what the file holds,
/// or nothing where it could not be read; a path that it does not reach
/// counts as not read. Standard output is what could be read; the error
/// stream holds one line for each file that could not. One file that fails
/// does not keep the others back.
pub fn finish_cat(paths: &Vec<String>, contents: &Vec<Option<String>>) -> (result: Result<
    Output,
    ShellError,
>)
    ensures
        result matches Ok(Output::StdOutErr(out, err)) && out@ == cat_output(
            contents@,
            paths.len() as int,
        ) && err@ == joined(
            cat_failures(texts(paths@), contents@, paths.len() as int),
            seq!['\n'],
        ),
{
    let mut out = String::new();
    let mut failures: Vec<String> = Vec::new();
    let mut k: usize = 0;
    while k < paths.len()
        invariant
            k <= paths.len(),
            out@ == cat_output(contents@, k as int),
            texts(failures@) == cat_failures(texts(paths@), contents@, k as int),
        decreases paths.len() - k,
    {
        let mut read = false;
        if k < contents.len() {
            if let Some(content) = &contents[k] {
                out.append(content.as_str());
                read = true;
            }
        }
        if !read {
            let mut message = "cat: ".to_owned();
            message.append(paths[k].as_str());
            message.append(": No such file or directory");
            proof {
                lemma_texts_push(failures@, message);
                assert(texts(paths@)[k as int] == paths@[k as int]@);
            }
            failures.push(message);
            assert(out@ + Seq::<char>::empty() =~= out@);
        }
        k += 1;
    }
    proof {
        reveal_strlit("\n");
        assert("\n"@ =~= seq!['\n']);
    }
    let err = join(&failures, "\n");
    Ok(Output::StdOutErr(out, err))
}

/// What `cat` has read grows with each file that could be read.
pub proof fn lemma_cat_output_grows(contents: Seq<Option<String>>, i: int, n: int)
    requires
        0 <= i < n,
        read_at(contents, i) is Some,
    ensures
        cat_output(contents, n).len() >= read_at(contents, i)->0.len(),
    decreases n,
{
    if i < n - 1 {
        lemma_cat_output_grows(contents, i, n - 1);
    }
}

/// Each file that could not be read has its message among the failures.
pub proof fn lemma_cat_failures_hold(
    paths: Seq<Seq<char>>,
    contents: Seq<Option<String>>,
    j: int,
    n: int,
)
    requires
        0 <= j < n,
        read_at(contents, j) is None,
    ensures
        cat_failures(paths, contents, n).contains(missing_file_text(paths[j])),
    decreases n,
{
    if j < n - 1 {
        lemma_cat_failures_hold(paths, contents, j, n - 1);
        let head = cat_failures(paths, contents, n - 1);
        let i = choose|i: int| 0 <= i < head.len() && head[i] == missing_file_text(paths[j]);
        if read_at(contents, n - 1) is None {
            assert(head.push(missing_file_text(paths[n - 1]))[i] == head[i]);
        }
    } else {
        let head = cat_failures(paths, contents, n - 1);
        assert(head.push(missing_file_text(paths[j]))[head.len() as int] == missing_file_text(
            paths[j],
        ));
    }
}

/// A joined text is at least as long as each of its words.
pub proof fn lemma_joined_holds_word(words: Seq<Seq<char>>, sep: Seq<char>, i: int)
    requires
        0 <= i < words.len(),
    ensures
        joined(words, sep).len() >= words[i].len(),
    decreases words.len(),
{
    if words.len() > 1 {
        if i < words.len() - 1 {
            lemma_joined_holds_word(words.drop_last(), sep, i);
        }
    }
}

/// Where one file could be read and holds text, and another could not be
/// read, `cat` gives text on standard output and on the error stream at once.
pub proof fn lemma_cat_partial(
    paths: Seq<Seq<char>>,
    contents: Seq<Option<String>>,
    i: int,
    j: int,
)
    requires
        0 <= i < paths.len(),
        0 <= j < paths.len(),
        read_at(contents, i) matches Some(content) && content.len() > 0,
        read_at(contents, j) is None,
    ensures
        cat_output(contents, paths.len() as int).len() > 0,
        joined(cat_failures(paths, contents, paths.len() as int), seq!['\n']).len() > 0,
{
    let n = paths.len() as int;
    lemma_cat_output_grows(contents, i, n);
    lemma_cat_failures_hold(paths, contents, j, n);
    let failures = cat_failures(paths, contents, n);
    let message = missing_file_text(paths[j]);
    let at = choose|k: int| 0 <= k < failures.len() && failures[k] == message;
    lemma_joined_holds_word(failures, seq!['\n'], at);
    reveal_strlit("cat: ");
    assert(message.len() >= "cat: "@.len());
}

/// Goes on with a command that is no builtin, once the places of the search
/// are probed. `present` tells of each place, in order, whether a file exists
/// there. Where one does the command is run; where none does the command is
/// not found.
pub fn launch(
    command: &str,
    arguments: Vec<String>,
    shell: &Shell,
    present: &Vec<bool>,
) -> (request: Request)
    ensures
        ({
            let places = candidates_of(shell.path@, command@);
            if first_present(present@, places.len() as int, 0) < places.len() {
                &&& request matches Request::Spawn { program, arguments: passed }
                &&& program@ == command@
                &&& texts(passed@) == texts(arguments@)
            } else {
                request matches Request::Done(Err(ShellError::FileNotFound(message))) && message@
                    == command@ + ": command not found"@
            }
        }),
{
    match is_executable(shell.path.as_str(), command, present) {
        Ok(_) => Request::Spawn { program: command.to_owned(), arguments },
        Err(_) => {
            let mut message = command.to_owned();
            message.append(": command not found");
            Request::Done(Err(ShellError::FileNotFound(message)))
        },
    }
}

/// Ends a run of an external command: what it wrote to standard output where
/// it succeeded, and a failure with what it wrote to its error stream where
/// it did not.
pub fn finish_run(success: bool, stdout: String, stderr: String) -> (result: Result<
    Output,
    ShellError,
>)
    ensures
        if success {
            result matches Ok(Output::String(out)) && out@ == stdout@
        } else {
            result matches Err(ShellError::ExecutionError(message)) && message@ == stderr@
        },
{
    if success {
        Ok(Output::String(stdout))
    } else {
        Err(ShellError::ExecutionError(stderr))
    }
}

} // verus!
