use rshell::instruction::Instruction;
use rshell::text::{
    chars_of, contains_text, join, same_text, starts_with, string_of, trim, visible,
};
use rshell::tokenizer::parse_command;

fn words(list: &[&str]) -> Vec<String> {
    list.iter().map(|s| s.to_string()).collect()
}

#[test]
fn plain_words_are_split_at_whitespace() {
    assert_eq!(parse_command("echo hello world"), words(&["echo", "hello", "world"]));
    assert_eq!(parse_command("  ls\t-l \r\n"), words(&["ls", "-l"]));
}

#[test]
fn empty_line_has_no_tokens() {
    assert_eq!(parse_command(""), Vec::<String>::new());
    assert_eq!(parse_command("   \t "), Vec::<String>::new());
}

#[test]
fn single_quotes_keep_their_content_verbatim() {
    assert_eq!(parse_command("echo 'a  b'"), words(&["echo", "a  b"]));
    assert_eq!(parse_command("echo 'a\\nb' 'c\"d'"), words(&["echo", "a\\nb", "c\"d"]));
    let instruction = Instruction::new("echo 'a  b'");
    assert_eq!(instruction.command, "echo");
    assert_eq!(instruction.arguments, words(&["a  b"]));
    assert_eq!(join(&instruction.arguments, " "), "a  b");
}

#[test]
fn quoted_parts_join_the_word_around_them() {
    assert_eq!(parse_command("echo ab'c d'ef"), words(&["echo", "abc def"]));
    assert_eq!(parse_command("echo 'a''b'"), words(&["echo", "ab"]));
    assert_eq!(parse_command("echo \"a\"'b'c"), words(&["echo", "abc"]));
}

#[test]
fn empty_quotes_give_no_token() {
    assert_eq!(parse_command("echo '' a"), words(&["echo", "a"]));
    assert_eq!(parse_command("echo \"\""), words(&["echo"]));
}

#[test]
fn unterminated_single_quote_drops_the_word() {
    assert_eq!(parse_command("echo 'abc"), words(&["echo"]));
    assert_eq!(parse_command("echo x'abc def"), words(&["echo"]));
    assert_eq!(parse_command("'"), Vec::<String>::new());
}

#[test]
fn unterminated_double_quote_keeps_the_word() {
    assert_eq!(parse_command("echo \"abc def"), words(&["echo", "abc def"]));
}

#[test]
fn double_quotes_collapse_the_four_escapes() {
    assert_eq!(parse_command("echo \"a\\\"b\""), words(&["echo", "a\"b"]));
    assert_eq!(parse_command("echo \"a\\\\b\""), words(&["echo", "a\\b"]));
    assert_eq!(parse_command("echo \"a\\$b\""), words(&["echo", "a$b"]));
    assert_eq!(parse_command("echo \"a\\\nb\""), words(&["echo", "a\nb"]));
}

#[test]
fn double_quotes_keep_other_backslashes() {
    assert_eq!(parse_command("echo \"a\\nb\""), words(&["echo", "a\\nb"]));
    assert_eq!(parse_command("echo \"a\\'b\""), words(&["echo", "a\\'b"]));
    assert_eq!(parse_command("echo \"ab\\"), words(&["echo", "ab\\"]));
}

#[test]
fn double_quotes_keep_whitespace_and_single_quotes() {
    assert_eq!(parse_command("echo \"a  'b'\tc\""), words(&["echo", "a  'b'\tc"]));
}

#[test]
fn backslash_outside_quotes_takes_the_next_character() {
    assert_eq!(parse_command("echo a\\ b"), words(&["echo", "a b"]));
    assert_eq!(parse_command("echo \\'x\\'"), words(&["echo", "'x'"]));
    assert_eq!(parse_command("echo \\\\"), words(&["echo", "\\"]));
    assert_eq!(parse_command("echo a\\nb"), words(&["echo", "anb"]));
}

#[test]
fn trailing_backslash_is_dropped() {
    assert_eq!(parse_command("echo ab\\"), words(&["echo", "ab"]));
    assert_eq!(parse_command("\\"), Vec::<String>::new());
}

#[test]
fn tokens_may_hold_any_unicode() {
    assert_eq!(parse_command("écho 'ñ ü' 日本"), words(&["écho", "ñ ü", "日本"]));
}

#[test]
fn instruction_takes_command_and_arguments() {
    let instruction = Instruction::new("cat a.txt b.txt");
    assert_eq!(instruction.command, "cat");
    assert_eq!(instruction.arguments, words(&["a.txt", "b.txt"]));
    assert!(!instruction.redirection);
}

#[test]
fn instruction_keeps_quoted_whitespace() {
    let instruction = Instruction::new("echo ' '");
    assert_eq!(instruction.command, "echo");
    assert_eq!(instruction.arguments, words(&[" "]));
    let instruction = Instruction::new("echo ' ' a '\t' b");
    assert_eq!(instruction.arguments, words(&[" ", "a", "\t", "b"]));
    let instruction = Instruction::new("echo '\u{a0}\u{2003}' x");
    assert_eq!(instruction.arguments, words(&["\u{a0}\u{2003}", "x"]));
}

#[test]
fn instruction_arguments_are_the_tokens_after_the_first() {
    for line in ["echo a b", "echo 'a  b' \"c d\" e\\ f", "ls", "cat '' x \"\" y", "echo ' ' > f"] {
        let tokens = parse_command(line);
        let instruction = Instruction::new(line);
        assert_eq!(instruction.command, tokens[0]);
        assert_eq!(instruction.arguments, tokens[1..].to_vec());
        assert!(instruction.arguments.iter().all(|argument| !argument.is_empty()));
    }
}

#[test]
fn visible_tells_text_from_whitespace() {
    assert!(visible("a"));
    assert!(visible("  a "));
    assert!(visible("\u{200b}"));
    assert!(!visible(""));
    assert!(!visible(" \t\n"));
    assert!(!visible("\u{a0}\u{3000}"));
}

#[test]
fn instruction_marks_a_redirection() {
    for op in [">", ">>", "1>", "1>>", "2>", "2>>"] {
        let line = format!("echo hi {} out.txt", op);
        let instruction = Instruction::new(&line);
        assert!(instruction.redirection);
        assert_eq!(instruction.arguments, words(&["hi", op, "out.txt"]));
    }
    assert!(!Instruction::new("echo hi 3> out.txt").redirection);
    assert!(!Instruction::new("echo hi >out.txt").redirection);
}

#[test]
fn instruction_with_a_command_alone() {
    let instruction = Instruction::new("pwd");
    assert_eq!(instruction.command, "pwd");
    assert!(instruction.arguments.is_empty());
    assert!(!instruction.redirection);
}

#[test]
fn characters_go_to_a_vector_and_back() {
    assert_eq!(chars_of("aé日"), vec!['a', 'é', '日']);
    assert_eq!(chars_of(""), Vec::<char>::new());
    assert_eq!(string_of(&vec!['a', 'é', '日']), "aé日");
    assert_eq!(string_of(&Vec::new()), "");
}

#[test]
fn trim_removes_whitespace_at_both_ends() {
    assert_eq!(trim("  a b \t\n"), "a b");
    assert_eq!(trim("\u{a0}x\u{3000}"), "x");
    assert_eq!(trim(" \t "), "");
    assert_eq!(trim(""), "");
    assert_eq!(trim("abc"), "abc");
    for s in ["  a b \t\n", "\u{85}x\u{2028}", "\u{1680}\u{2000}y\u{200a}\u{2029}\u{202f}\u{205f}", "\u{b}\u{c}z"] {
        assert_eq!(trim(s), s.trim());
    }
    assert_eq!(trim("\u{200b}x"), "\u{200b}x");
}

#[test]
fn starts_with_tells_a_prefix() {
    assert!(starts_with("echo", "e"));
    assert!(starts_with("echo", ""));
    assert!(starts_with("echo", "echo"));
    assert!(!starts_with("echo", "echoo"));
    assert!(!starts_with("echo", "x"));
    assert!(!starts_with("", "x"));
}

#[test]
fn join_puts_the_separator_between_words() {
    assert_eq!(join(&words(&["a", "b", "c"]), " "), "a b c");
    assert_eq!(join(&words(&["a"]), ", "), "a");
    assert_eq!(join(&Vec::new(), " "), "");
    assert_eq!(join(&words(&["a", "", "c"]), "-"), "a--c");
    assert_eq!(join(&words(&["1", "0"]), ""), "10");
}

#[test]
fn contains_text_finds_a_word() {
    assert!(contains_text(&words(&["a", "bc"]), "bc"));
    assert!(!contains_text(&words(&["a", "bc"]), "b"));
    assert!(!contains_text(&Vec::new(), ""));
    assert!(contains_text(&words(&[""]), ""));
}

#[test]
fn same_text_compares_characters() {
    assert!(same_text("abc", "abc"));
    assert!(same_text("", ""));
    assert!(!same_text("abc", "abd"));
    assert!(!same_text("abc", "ab"));
}
