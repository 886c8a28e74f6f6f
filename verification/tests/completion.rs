use rshell::completer::{common_prefix, split_whitespace, CommandCompleter, Completion, Signal};

fn words(list: &[&str]) -> Vec<String> {
    list.iter().map(|s| s.to_string()).collect()
}

fn engine(commands: &[&str]) -> CommandCompleter {
    CommandCompleter::new(words(commands), "/bin".to_string())
}

fn ask(engine: &mut CommandCompleter, line: &str, executables: &[&str]) -> Completion {
    engine.complete(line, line.len(), &words(executables))
}

#[test]
fn a_new_engine_remembers_nothing() {
    let engine = engine(&["echo", "exit"]);
    assert_eq!(engine.commands, words(&["echo", "exit"]));
    assert_eq!(engine.path, "/bin");
    assert_eq!(engine.state.tab_count, 0);
    assert_eq!(engine.state.last_partial, "");
    assert!(engine.state.last_matches.is_empty());
}

#[test]
fn ambiguous_word_rings_then_lists_then_narrows() {
    let mut engine = engine(&["echo", "exit"]);
    let first = ask(&mut engine, "e", &[]);
    assert_eq!(first.start, 0);
    assert!(first.candidates.is_empty());
    assert!(matches!(first.signal, Signal::Bell));
    assert_eq!(engine.state.tab_count, 1);
    let second = ask(&mut engine, "e", &[]);
    assert!(second.candidates.is_empty());
    match second.signal {
        Signal::List(text) => assert_eq!(text, "\necho  exit  \n$ e"),
        _ => panic!("the second request lists the candidates"),
    }
    assert_eq!(engine.state.tab_count, 2);
    assert_eq!(engine.state.last_matches, words(&["echo", "exit"]));
    let narrowed = ask(&mut engine, "ec", &[]);
    assert_eq!(narrowed.start, 0);
    assert_eq!(narrowed.candidates, words(&["echo "]));
    assert!(matches!(narrowed.signal, Signal::Silent));
    assert_eq!(engine.state.tab_count, 0);
    assert_eq!(engine.state.last_partial, "ec");
    assert!(engine.state.last_matches.is_empty());
}

#[test]
fn third_and_later_requests_do_nothing() {
    let mut engine = engine(&["echo", "exit"]);
    ask(&mut engine, "e", &[]);
    ask(&mut engine, "e", &[]);
    for count in 3..=6 {
        let later = ask(&mut engine, "e", &[]);
        assert!(later.candidates.is_empty());
        assert!(matches!(later.signal, Signal::Silent));
        assert_eq!(engine.state.tab_count, count);
    }
}

#[test]
fn the_count_stops_at_its_limit() {
    let mut engine = engine(&["echo", "exit"]);
    for _ in 0..300 {
        ask(&mut engine, "e", &[]);
    }
    assert_eq!(engine.state.tab_count, 255);
    let later = ask(&mut engine, "e", &[]);
    assert!(matches!(later.signal, Signal::Silent));
    assert_eq!(engine.state.tab_count, 255);
}

#[test]
fn another_word_begins_anew() {
    let mut engine = engine(&["echo", "exit", "cat", "cd"]);
    assert!(matches!(ask(&mut engine, "e", &[]).signal, Signal::Bell));
    assert!(matches!(ask(&mut engine, "c", &[]).signal, Signal::Bell));
    assert!(matches!(ask(&mut engine, "e", &[]).signal, Signal::Bell));
    assert!(matches!(ask(&mut engine, "e", &[]).signal, Signal::List(_)));
}

#[test]
fn no_candidate_offers_nothing() {
    let mut engine = engine(&["echo", "exit"]);
    let answer = ask(&mut engine, "x", &["ls"]);
    assert_eq!(answer.start, 0);
    assert!(answer.candidates.is_empty());
    assert!(matches!(answer.signal, Signal::Silent));
    assert_eq!(engine.state.tab_count, 0);
}

#[test]
fn shared_beginning_is_completed_without_a_bell() {
    let mut engine = engine(&["echo"]);
    let answer = ask(&mut engine, "x", &["xylo_one", "xylo_two", "xylo_one"]);
    assert_eq!(answer.candidates, words(&["xylo_"]));
    assert!(matches!(answer.signal, Signal::Silent));
    assert_eq!(engine.state.tab_count, 0);
    let answer = ask(&mut engine, "xylo_", &["xylo_one", "xylo_two", "ls"]);
    assert!(answer.candidates.is_empty());
    assert!(matches!(answer.signal, Signal::Bell));
}

#[test]
fn executables_count_only_without_a_builtin() {
    let mut engine = engine(&["echo", "exit"]);
    let answer = ask(&mut engine, "ec", &["ecryptfs", "ls"]);
    assert_eq!(answer.candidates, words(&["echo "]));
    let answer = ask(&mut engine, "l", &["ls", "ls"]);
    assert_eq!(answer.candidates, words(&["ls "]));
    assert!(!engine.wants_executables("ec", 2));
    assert!(engine.wants_executables("l", 1));
    assert!(engine.wants_executables("", 0) == false);
    assert!(!engine.wants_executables("echo l", 6));
}

#[test]
fn arguments_are_not_completed() {
    let mut engine = engine(&["echo", "exit"]);
    let answer = ask(&mut engine, "echo e", &[]);
    assert_eq!(answer.start, 6);
    assert!(answer.candidates.is_empty());
    assert!(matches!(answer.signal, Signal::Silent));
    assert_eq!(engine.state.last_partial, "e");
    let answer = ask(&mut engine, "echo ", &[]);
    assert_eq!(answer.start, 5);
    assert!(answer.candidates.is_empty());
    assert_eq!(engine.state.last_partial, "echo");
}

#[test]
fn the_cursor_may_stand_inside_the_line() {
    let mut engine = engine(&["echo", "exit"]);
    let answer = engine.complete("ec ho", 2, &Vec::new());
    assert_eq!(answer.candidates, words(&["echo "]));
    let answer = engine.complete("ec ", 2, &Vec::new());
    assert_eq!(answer.start, 2);
    assert!(answer.candidates.is_empty());
    let answer = engine.complete("é日x", 2, &words(&["école"]));
    assert_eq!(answer.candidates, words(&["école "]));
}

#[test]
fn an_empty_line_matches_every_builtin() {
    let mut engine = engine(&["exit", "echo", "type"]);
    assert!(matches!(ask(&mut engine, "", &[]).signal, Signal::Bell));
    match ask(&mut engine, "", &[]).signal {
        Signal::List(text) => assert_eq!(text, "\necho  exit  type  \n$ "),
        _ => panic!("the second request lists the candidates"),
    }
}

#[test]
fn common_prefix_of_names() {
    assert_eq!(common_prefix(words(&["echo", "exit"])), "e");
    assert_eq!(common_prefix(words(&["abc", "abd", "ab"])), "ab");
    assert_eq!(common_prefix(words(&["abc"])), "abc");
    assert_eq!(common_prefix(words(&["abc", "xyz"])), "");
    assert_eq!(common_prefix(words(&["abc", ""])), "");
    assert_eq!(common_prefix(Vec::new()), "");
    assert_eq!(common_prefix(words(&["été", "étage"])), "ét");
}

#[test]
fn split_whitespace_gives_the_words() {
    assert_eq!(split_whitespace("  echo   a\tb\n"), words(&["echo", "a", "b"]));
    assert_eq!(split_whitespace(""), Vec::<String>::new());
    assert_eq!(split_whitespace(" \t "), Vec::<String>::new());
    assert_eq!(split_whitespace("a"), words(&["a"]));
    for s in ["  echo   a\tb\n", "x\u{a0}y\u{3000}z", "'a b'", "é 日"] {
        let expected: Vec<String> = s.split_whitespace().map(|w| w.to_string()).collect();
        assert_eq!(split_whitespace(s), expected);
    }
}
