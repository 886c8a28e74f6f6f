use rshell::instruction::Output;
use rshell::shell::{
    builtin_names, builtin_of, finish_cat, finish_cd, finish_pwd, finish_run, finish_type,
    handle_input, launch, Builtin, Request, Shell,
};
use rshell::sherror::ShellError;
use rshell::shfile::executable_exists;

fn words(list: &[&str]) -> Vec<String> {
    list.iter().map(|s| s.to_string()).collect()
}

fn shell() -> Shell {
    Shell::new("/usr/bin:/bin".to_string(), "/home/user".to_string())
}

fn stdout_of(request: Request) -> String {
    match request {
        Request::Done(Ok(Output::String(out))) => out,
        _ => panic!("the command should have ended with output"),
    }
}

#[test]
fn shell_holds_its_surroundings() {
    let shell = shell();
    assert_eq!(shell.path, "/usr/bin:/bin");
    assert_eq!(shell.home, "/home/user");
    assert_eq!(shell.builtins, words(&["pwd", "cd", "echo", "type", "cat", "exit"]));
    assert_eq!(builtin_names(), shell.builtins);
}

#[test]
fn builtins_are_a_closed_set() {
    assert_eq!(builtin_of("pwd"), Some(Builtin::Pwd));
    assert_eq!(builtin_of("cd"), Some(Builtin::Cd));
    assert_eq!(builtin_of("echo"), Some(Builtin::Echo));
    assert_eq!(builtin_of("type"), Some(Builtin::Type));
    assert_eq!(builtin_of("cat"), Some(Builtin::Cat));
    assert_eq!(builtin_of("exit"), Some(Builtin::Exit));
    for other in ["", "ls", "Echo", "echo ", "exi", "exit0"] {
        assert_eq!(builtin_of(other), None);
    }
    for name in builtin_names() {
        assert!(builtin_of(&name).is_some());
    }
}

#[test]
fn pwd_asks_for_the_working_directory() {
    assert!(matches!(handle_input("pwd", Vec::new(), &shell()), Request::WorkingDir));
}

#[test]
fn pwd_reports_the_directory() {
    match finish_pwd(Ok(Some("/tmp/work".to_string()))) {
        Ok(Output::String(out)) => assert_eq!(out, "/tmp/work"),
        _ => panic!("the directory is the output"),
    }
    match finish_pwd(Ok(None)) {
        Err(ShellError::ExecutionError(message)) => assert_eq!(message, "Invalid path encoding"),
        _ => panic!("a directory that is no text is a failure"),
    }
    let io = std::io::Error::new(std::io::ErrorKind::PermissionDenied, "denied");
    match finish_pwd(Err(io)) {
        Err(ShellError::IoError(inner)) => {
            assert_eq!(inner.kind(), std::io::ErrorKind::PermissionDenied)
        }
        _ => panic!("an I/O failure is passed on"),
    }
}

#[test]
fn cd_home_then_pwd_reports_home() {
    let shell = shell();
    match handle_input("cd", words(&["~"]), &shell) {
        Request::ChangeDir { directory, target } => {
            assert_eq!(directory, "~");
            assert_eq!(target, "/home/user");
            match finish_cd(&directory, true) {
                Ok(Output::String(out)) => assert_eq!(out, ""),
                _ => panic!("cd that succeeds writes nothing"),
            }
            match finish_pwd(Ok(Some(target))) {
                Ok(Output::String(out)) => assert_eq!(out, shell.home),
                _ => panic!("pwd reports the directory"),
            }
        }
        _ => panic!("cd asks for a change of directory"),
    }
}

#[test]
fn cd_takes_any_other_path_as_it_is() {
    match handle_input("cd", words(&["../x y", "ignored"]), &shell()) {
        Request::ChangeDir { directory, target } => {
            assert_eq!(directory, "../x y");
            assert_eq!(target, "../x y");
        }
        _ => panic!("cd asks for a change of directory"),
    }
    match handle_input("cd", words(&["~/docs"]), &shell()) {
        Request::ChangeDir { target, .. } => assert_eq!(target, "~/docs"),
        _ => panic!("cd asks for a change of directory"),
    }
}

#[test]
fn cd_without_a_directory_is_invalid() {
    for arguments in [Vec::new(), words(&[""]), words(&["", "x"])] {
        match handle_input("cd", arguments, &shell()) {
            Request::Done(Err(ShellError::InvalidArgument(message))) => {
                assert_eq!(message, "No directory specified")
            }
            _ => panic!("cd needs a directory"),
        }
    }
}

#[test]
fn cd_into_a_missing_directory_fails() {
    match finish_cd("nowhere", false) {
        Err(ShellError::FileNotFound(message)) => {
            assert_eq!(message, "cd: nowhere: No such file or directory")
        }
        _ => panic!("a missing directory is a failure"),
    }
}

#[test]
fn echo_joins_and_trims() {
    assert_eq!(stdout_of(handle_input("echo", words(&["hello", "world"]), &shell())), "hello world");
    assert_eq!(stdout_of(handle_input("echo", words(&["a", "b  c"]), &shell())), "a b  c");
    assert_eq!(stdout_of(handle_input("echo", Vec::new(), &shell())), "");
    assert_eq!(stdout_of(handle_input("echo", words(&[" x ", "y\t"]), &shell())), "x  y");
    assert_eq!(stdout_of(handle_input("echo", words(&[" "]), &shell())), "");
}

#[test]
fn type_knows_the_builtins() {
    for name in ["pwd", "cd", "echo", "type", "cat", "exit"] {
        assert_eq!(
            stdout_of(handle_input("type", words(&[name]), &shell())),
            format!("{} is a shell builtin", name)
        );
    }
    assert_eq!(
        stdout_of(handle_input("type", words(&["ec", "ho"]), &shell())),
        "echo is a shell builtin"
    );
}

#[test]
fn type_goes_by_the_shells_list() {
    let mut shell = shell();
    shell.builtins = words(&["echo", "frob"]);
    assert_eq!(
        stdout_of(handle_input("type", words(&["frob"]), &shell)),
        "frob is a shell builtin"
    );
    match handle_input("type", words(&["pwd"]), &shell) {
        Request::Locate { command, places } => {
            assert_eq!(command, "pwd");
            assert_eq!(places, words(&["/usr/bin/pwd", "/bin/pwd"]));
        }
        _ => panic!("a name that the list does not hold is searched on the path"),
    }
}

#[test]
fn type_searches_the_path_for_the_rest() {
    let shell = shell();
    match handle_input("type", words(&["ls"]), &shell) {
        Request::Locate { command, places } => {
            assert_eq!(command, "ls");
            assert_eq!(places, words(&["/usr/bin/ls", "/bin/ls"]));
            match executable_exists(&shell.path, &command, &vec![false, true]) {
                Ok(line) => assert_eq!(line, "ls is /bin/ls"),
                Err(_) => panic!("ls lies in /bin"),
            }
            match executable_exists(&shell.path, &command, &vec![true, true]) {
                Ok(line) => assert_eq!(line, "ls is /usr/bin/ls"),
                Err(_) => panic!("the first place wins"),
            }
            match executable_exists(&shell.path, &command, &vec![false, false]) {
                Err(ShellError::ExecutableNotFound(message)) => {
                    assert_eq!(message, "ls: not found")
                }
                _ => panic!("ls lies nowhere"),
            }
            match finish_type(&command, &shell, &vec![false, true]) {
                Ok(Output::String(out)) => assert_eq!(out, "ls is /bin/ls"),
                _ => panic!("ls lies in /bin"),
            }
            match finish_type(&command, &shell, &vec![false, false]) {
                Err(ShellError::ExecutableNotFound(message)) => {
                    assert_eq!(message, "ls: not found")
                }
                _ => panic!("ls lies nowhere"),
            }
        }
        _ => panic!("type searches the path"),
    }
}

#[test]
fn cat_asks_for_each_file() {
    match handle_input("cat", words(&["a", "b"]), &shell()) {
        Request::ReadFiles { paths } => assert_eq!(paths, words(&["a", "b"])),
        _ => panic!("cat reads files"),
    }
}

#[test]
fn cat_gives_both_streams_at_once() {
    let paths = words(&["missing.txt", "existing.txt"]);
    let contents = vec![None, Some("hello\n".to_string())];
    match finish_cat(&paths, &contents) {
        Ok(Output::StdOutErr(out, err)) => {
            assert_eq!(out, "hello\n");
            assert_eq!(err, "cat: missing.txt: No such file or directory");
            assert!(!out.is_empty() && !err.is_empty());
        }
        _ => panic!("cat never fails as a whole"),
    }
}

#[test]
fn cat_accumulates_in_order() {
    let paths = words(&["a", "x", "b", "y"]);
    let contents =
        vec![Some("1".to_string()), None, Some("2\n".to_string()), None];
    match finish_cat(&paths, &contents) {
        Ok(Output::StdOutErr(out, err)) => {
            assert_eq!(out, "12\n");
            assert_eq!(
                err,
                "cat: x: No such file or directory\ncat: y: No such file or directory"
            );
        }
        _ => panic!("cat never fails as a whole"),
    }
    match finish_cat(&Vec::new(), &Vec::new()) {
        Ok(Output::StdOutErr(out, err)) => {
            assert_eq!(out, "");
            assert_eq!(err, "");
        }
        _ => panic!("cat never fails as a whole"),
    }
}

#[test]
fn cat_counts_a_file_without_an_answer_as_not_read() {
    let paths = words(&["a", "b"]);
    match finish_cat(&paths, &vec![Some("1".to_string())]) {
        Ok(Output::StdOutErr(out, err)) => {
            assert_eq!(out, "1");
            assert_eq!(err, "cat: b: No such file or directory");
        }
        _ => panic!("cat never fails as a whole"),
    }
}

#[test]
fn exit_zero_ends_the_shell() {
    assert!(matches!(handle_input("exit", words(&["0"]), &shell()), Request::Exit));
}

#[test]
fn exit_with_anything_else_is_an_error() {
    for arguments in [words(&["1"]), Vec::new(), words(&["00"]), words(&["0", "0"]), words(&["x"])]
    {
        match handle_input("exit", arguments, &shell()) {
            Request::Done(Err(ShellError::InvalidArgument(message))) => {
                assert_eq!(message, "exit: command not found")
            }
            _ => panic!("only `exit 0` ends the shell"),
        }
    }
    assert!(matches!(handle_input("pwd", Vec::new(), &shell()), Request::WorkingDir));
}

#[test]
fn other_commands_are_searched_on_the_path() {
    let shell = shell();
    match handle_input("ls", words(&["-l"]), &shell) {
        Request::Search { places } => assert_eq!(places, words(&["/usr/bin/ls", "/bin/ls"])),
        _ => panic!("ls is no builtin"),
    }
    match launch("ls", words(&["-l"]), &shell, &vec![false, true]) {
        Request::Spawn { program, arguments } => {
            assert_eq!(program, "ls");
            assert_eq!(arguments, words(&["-l"]));
        }
        _ => panic!("ls lies in /bin"),
    }
    match launch("ls", words(&["-l"]), &shell, &vec![false, false]) {
        Request::Done(Err(ShellError::FileNotFound(message))) => {
            assert_eq!(message, "ls: command not found")
        }
        _ => panic!("ls lies nowhere"),
    }
    match launch("ls", Vec::new(), &shell, &Vec::new()) {
        Request::Done(Err(ShellError::FileNotFound(_))) => {}
        _ => panic!("a place that was not probed does not count"),
    }
}

#[test]
fn a_run_ends_with_output_or_failure() {
    match finish_run(true, "out".to_string(), "err".to_string()) {
        Ok(Output::String(out)) => assert_eq!(out, "out"),
        _ => panic!("success gives standard output"),
    }
    match finish_run(false, "out".to_string(), "err".to_string()) {
        Err(ShellError::ExecutionError(message)) => assert_eq!(message, "err"),
        _ => panic!("failure gives the error stream"),
    }
}

#[test]
fn output_as_one_text() {
    assert_eq!(Output::String("a".to_string()).to_string(), "a");
    assert_eq!(Output::StdOutErr("a".to_string(), String::new()).to_string(), "a");
    assert_eq!(Output::StdOutErr(String::new(), "b".to_string()).to_string(), "b");
    assert_eq!(Output::StdOutErr("a".to_string(), "b".to_string()).to_string(), "a\nb");
    assert_eq!(Output::StdOutErr(String::new(), String::new()).to_string(), "");
}
