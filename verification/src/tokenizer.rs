//! The tokenizer: one left-to-right scan of a raw line into words, honouring
//! single quotes, double quotes and backslash escapes.

use vstd::prelude::*;
use crate::text::{
    chars_of, find_char, find_from, lemma_find_from_bounds, lemma_texts_push, string_of, texts,
};

verus! {

/// Whitespace that separates words outside quotes.
pub open spec fn is_blank(c: char) -> bool {
    c == ' ' || c == '\t' || c == '\n' || c == '\r'
}

/// The characters that a backslash escapes inside double quotes.
pub open spec fn is_escapable(c: char) -> bool {
    c == '\\' || c == '$' || c == '"' || c == '\n'
}

/// What stands inside double quotes from position `i` on: the text with the
/// escapes collapsed, and the position of the closing quote (the length of
/// `s` where the quote is never closed).
pub open spec fn double_quoted(s: Seq<char>, i: int) -> (Seq<char>, int)
    decreases s.len() - i,
{
    if i < 0 || i >= s.len() {
        (Seq::empty(), s.len() as int)
    } else if s[i] == '"' {
        (Seq::empty(), i)
    } else if s[i] == '\\' && i + 1 < s.len() && is_escapable(s[i + 1]) {
        let rest = double_quoted(s, i + 2);
        (seq![s[i + 1]] + rest.0, rest.1)
    } else {
        let rest = double_quoted(s, i + 1);
        (seq![s[i]] + rest.0, rest.1)
    }
}

/// A finished word: a token of its own unless it is empty.
pub open spec fn flush(word: Seq<char>) -> Seq<Seq<char>> {
    if word.len() == 0 {
        Seq::empty()
    } else {
        seq![word]
    }
}

/// The tokens of `s` from position `i` on, where `word` is the part of the
/// current word that has been read so far.
pub open spec fn tokens_from(s: Seq<char>, i: int, word: Seq<char>) -> Seq<Seq<char>>
    decreases s.len() - i,
    via tokens_from_terminates
{
    if i < 0 || i >= s.len() {
        flush(word)
    } else if is_blank(s[i]) {
        flush(word) + tokens_from(s, i + 1, Seq::empty())
    } else if s[i] == '\'' {
        let close = find_from(s, '\'', i + 1);
        if close >= s.len() {
            // never closed: the word is dropped
            Seq::empty()
        } else {
            tokens_from(s, close + 1, word + s.subrange(i + 1, close))
        }
    } else if s[i] == '"' {
        let inner = double_quoted(s, i + 1);
        if inner.1 >= s.len() {
            flush(word + inner.0)
        } else {
            tokens_from(s, inner.1 + 1, word + inner.0)
        }
    } else if s[i] == '\\' {
        if i + 1 < s.len() {
            tokens_from(s, i + 2, word.push(s[i + 1]))
        } else {
            flush(word)
        }
    } else {
        tokens_from(s, i + 1, word.push(s[i]))
    }
}

#[via_fn]
proof fn tokens_from_terminates(s: Seq<char>, i: int, word: Seq<char>) {
    if 0 <= i < s.len() {
        lemma_find_from_bounds(s, '\'', i + 1);
        lemma_double_quoted_bounds(s, i + 1);
    }
}

/// The tokens of a raw line.
pub open spec fn tokens(s: Seq<char>) -> Seq<Seq<char>> {
    tokens_from(s, 0, Seq::empty())
}

/// The closing position that `double_quoted` reports lies within the text.
pub proof fn lemma_double_quoted_bounds(s: Seq<char>, i: int)
    requires
        0 <= i <= s.len(),
    ensures
        i <= double_quoted(s, i).1 <= s.len(),
        double_quoted(s, i).1 < s.len() ==> s[double_quoted(s, i).1] == '"',
    decreases s.len() - i,
{
    if i < s.len() && s[i] != '"' {
        if s[i] == '\\' && i + 1 < s.len() && is_escapable(s[i + 1]) {
            lemma_double_quoted_bounds(s, i + 2);
        } else {
            lemma_double_quoted_bounds(s, i + 1);
        }
    }
}

/// No token is empty.
pub proof fn lemma_tokens_hold_text(s: Seq<char>, i: int, word: Seq<char>, k: int)
    requires
        0 <= i,
        0 <= k < tokens_from(s, i, word).len(),
    ensures
        tokens_from(s, i, word)[k].len() > 0,
    decreases s.len() - i,
{
    if i < s.len() {
        if is_blank(s[i]) {
            if k >= flush(word).len() {
                lemma_tokens_hold_text(s, i + 1, Seq::empty(), k - flush(word).len());
            }
        } else if s[i] == '\'' {
            let close = find_from(s, '\'', i + 1);
            lemma_find_from_bounds(s, '\'', i + 1);
            if close < s.len() {
                lemma_tokens_hold_text(s, close + 1, word + s.subrange(i + 1, close), k);
            }
        } else if s[i] == '"' {
            let inner = double_quoted(s, i + 1);
            lemma_double_quoted_bounds(s, i + 1);
            if inner.1 < s.len() {
                lemma_tokens_hold_text(s, inner.1 + 1, word + inner.0, k);
            }
        } else if s[i] == '\\' {
            if i + 1 < s.len() {
                lemma_tokens_hold_text(s, i + 2, word.push(s[i + 1]), k);
            }
        } else {
            lemma_tokens_hold_text(s, i + 1, word.push(s[i]), k);
        }
    }
}

/// Whether a character separates words outside quotes.
pub fn blank(c: char) -> (b: bool)
    ensures
        b == is_blank(c),
{
    c == ' ' || c == '\t' || c == '\n' || c == '\r'
}

/// Whether a backslash escapes this character inside double quotes.
pub fn escapable(c: char) -> (b: bool)
    ensures
        b == is_escapable(c),
{
    c == '\\' || c == '$' || c == '"' || c == '\n'
}

/// Appends to `word` what stands inside double quotes from `from` on, and
/// returns the position of the closing quote.
fn read_double_quoted(s: &Vec<char>, from: usize, word: &mut Vec<char>) -> (at: usize)
    requires
        from <= s.len(),
    ensures
        final(word)@ == old(word)@ + double_quoted(s@, from as int).0,
        at == double_quoted(s@, from as int).1,
        from <= at <= s.len(),
{
    let mut at: usize = from;
    while at < s.len() && s[at] != '"'
        invariant
            from <= at <= s.len(),
            word@ + double_quoted(s@, at as int).0 == old(word)@ + double_quoted(
                s@,
                from as int,
            ).0,
            double_quoted(s@, at as int).1 == double_quoted(s@, from as int).1,
        decreases s.len() - at,
    {
        let ghost before = word@;
        if s[at] == '\\' && at + 1 < s.len() && escapable(s[at + 1]) {
            word.push(s[at + 1]);
            proof {
                let rest = double_quoted(s@, at + 2).0;
                assert(before.push(s@[at + 1]) + rest =~= before + (seq![s@[at + 1]] + rest));
            }
            at += 2;
        } else {
            word.push(s[at]);
            proof {
                let rest = double_quoted(s@, at + 1).0;
                assert(before.push(s@[at as int]) + rest =~= before + (seq![s@[at as int]] + rest));
            }
            at += 1;
        }
    }
    proof {
        assert(word@ + Seq::<char>::empty() =~= word@);
    }
    at
}

/// Appends the characters of `s` from `from` up to `to` to `word`.
fn append_range(word: &mut Vec<char>, s: &Vec<char>, from: usize, to: usize)
    requires
        from <= to <= s.len(),
    ensures
        final(word)@ == old(word)@ + s@.subrange(from as int, to as int),
{
    let mut k: usize = from;
    while k < to
        invariant
            from <= k <= to <= s.len(),
            word@ == old(word)@ + s@.subrange(from as int, k as int),
        decreases to - k,
    {
        word.push(s[k]);
        k += 1;
        assert(word@ =~= old(word)@ + s@.subrange(from as int, k as int));
    }
}

/// Ends the current word: a non-empty one becomes a token.
fn finish_word(result: &mut Vec<String>, word: &Vec<char>)
    ensures
        texts(final(result)@) == texts(old(result)@) + flush(word@),
{
    if word.len() > 0 {
        let token = string_of(word);
        proof {
            lemma_texts_push(result@, token);
        }
        result.push(token);
    } else {
        assert(texts(result@) + flush(word@) =~= texts(result@));
    }
}

/// Splits a raw line into its tokens: the command, then its arguments.
///
/// Whitespace outside quotes separates tokens. Text in single quotes is taken
/// as it stands; a single quote that is never closed drops the word it stands
/// in. In double quotes a backslash before `\`, `$`, `"` or a newline gives
/// that character, and any other backslash is kept. Outside quotes a backslash
/// gives the character after it, and a backslash at the very end is dropped.
pub fn parse_command(input: &str) -> (result: Vec<String>)
    ensures
        texts(result@) == tokens(input@),
{
    let s = chars_of(input);
    let n = s.len();
    let mut result: Vec<String> = Vec::new();
    let mut word: Vec<char> = Vec::new();
    let mut i: usize = 0;
    assert(texts(result@) + tokens(s@) =~= tokens(s@));
    while i < n
        invariant
            i <= n,
            n == s.len(),
            texts(result@) + tokens_from(s@, i as int, word@) == tokens(s@),
        decreases n - i,
    {
        let c = s[i];
        let ghost done = texts(result@);
        let ghost before = word@;
        if blank(c) {
            finish_word(&mut result, &word);
            word = Vec::new();
            assert(texts(result@) + tokens_from(s@, i + 1, word@) =~= done + (flush(before)
                + tokens_from(s@, i + 1, Seq::empty())));
            i += 1;
        } else if c == '\'' {
            let close = find_char(&s, '\'', i + 1);
            if close >= n {
                word = Vec::new();
                i = n;
            } else {
                append_range(&mut word, &s, i + 1, close);
                i = close + 1;
            }
        } else if c == '"' {
            let close = read_double_quoted(&s, i + 1, &mut word);
            if close >= n {
                i = n;
            } else {
                i = close + 1;
            }
        } else if c == '\\' {
            if i + 1 < n {
                word.push(s[i + 1]);
                i += 2;
            } else {
                i = n;
            }
        } else {
            word.push(c);
            i += 1;
        }
    }
    finish_word(&mut result, &word);
    result
}

/// A character with no special meaning outside quotes.
pub open spec fn is_plain(c: char) -> bool {
    !is_blank(c) && c != '\'' && c != '"' && c != '\\'
}

/// A character that stands for itself inside double quotes.
pub open spec fn is_literal_in_double(c: char) -> bool {
    c != '"' && c != '\\'
}

/// A run of plain characters outside quotes is added to the current word as
/// it stands.
pub proof fn lemma_plain_run(s: Seq<char>, i: int, n: int, word: Seq<char>)
    requires
        0 <= i,
        0 <= n,
        i + n <= s.len(),
        forall|k: int| i <= k < i + n ==> is_plain(#[trigger] s[k]),
    ensures
        tokens_from(s, i, word) == tokens_from(s, i + n, word + s.subrange(i, i + n)),
    decreases n,
{
    if n == 0 {
        assert(word + s.subrange(i, i) =~= word);
    } else {
        assert(is_plain(s[i]));
        lemma_plain_run(s, i + 1, n - 1, word.push(s[i]));
        assert(word.push(s[i]) + s.subrange(i + 1, i + n) =~= word + s.subrange(i, i + n));
    }
}

/// Where `s[i]` opens a single quote that `s[close]` closes, the text between
/// the two is added to the current word verbatim, whitespace and backslashes
/// included.
pub proof fn lemma_single_quoted_span(s: Seq<char>, i: int, close: int, word: Seq<char>)
    requires
        0 <= i < close < s.len(),
        s[i] == '\'',
        s[close] == '\'',
        forall|k: int| i < k < close ==> #[trigger] s[k] != '\'',
    ensures
        tokens_from(s, i, word) == tokens_from(s, close + 1, word + s.subrange(i + 1, close)),
{
    lemma_find_from_bounds(s, '\'', i + 1);
    let found = find_from(s, '\'', i + 1);
    assert(found == close) by {
        if found < close {
            assert(s[found] != '\'');
        }
    }
}

/// A command word followed by text in balanced single quotes gives two tokens:
/// the command, and the quoted text exactly as it was written.
pub proof fn lemma_single_quoted_verbatim(command: Seq<char>, quoted: Seq<char>)
    requires
        command.len() > 0,
        forall|k: int| 0 <= k < command.len() ==> is_plain(#[trigger] command[k]),
        forall|k: int| 0 <= k < quoted.len() ==> #[trigger] quoted[k] != '\'',
    ensures
        tokens(command + seq![' ', '\''] + quoted + seq!['\'']) == seq![command] + flush(quoted),
{
    let s = command + seq![' ', '\''] + quoted + seq!['\''];
    let c = command.len() as int;
    let q = quoted.len() as int;
    assert(s.len() == c + q + 3);
    assert forall|k: int| 0 <= k < c implies is_plain(#[trigger] s[k]) by {
        assert(s[k] == command[k]);
    }
    lemma_plain_run(s, 0, c, Seq::empty());
    assert(Seq::<char>::empty() + s.subrange(0, c) =~= command);
    assert(s[c] == ' ');
    assert(s[c + 1] == '\'');
    assert(s[c + q + 2] == '\'');
    assert forall|k: int| c + 1 < k < c + q + 2 implies #[trigger] s[k] != '\'' by {
        assert(s[k] == quoted[k - c - 2]);
    }
    lemma_single_quoted_span(s, c + 1, c + q + 2, Seq::empty());
    assert(Seq::<char>::empty() + s.subrange(c + 2, c + q + 2) =~= quoted);
    assert(tokens_from(s, c + q + 3, quoted) == flush(quoted));
    assert(tokens_from(s, c, command) == flush(command) + tokens_from(s, c + 1, Seq::empty()));
}

/// A run of characters other than `"` and a backslash inside double quotes is
/// taken as it stands.
pub proof fn lemma_double_quoted_run(s: Seq<char>, i: int, n: int)
    requires
        0 <= i,
        0 <= n,
        i + n <= s.len(),
        forall|k: int| i <= k < i + n ==> is_literal_in_double(#[trigger] s[k]),
    ensures
        double_quoted(s, i).0 == s.subrange(i, i + n) + double_quoted(s, i + n).0,
        double_quoted(s, i).1 == double_quoted(s, i + n).1,
    decreases n,
{
    if n == 0 {
        assert(s.subrange(i, i) + double_quoted(s, i).0 =~= double_quoted(s, i).0);
    } else {
        assert(is_literal_in_double(s[i]));
        lemma_double_quoted_run(s, i + 1, n - 1);
        assert(seq![s[i]] + (s.subrange(i + 1, i + n) + double_quoted(s, i + n).0) =~= s.subrange(
            i,
            i + n,
        ) + double_quoted(s, i + n).0);
    }
}

/// Inside double quotes a backslash before `\`, `$`, `"` or a newline gives
/// that character alone; before any other character both are kept.
pub proof fn lemma_double_quoted_escape(before: Seq<char>, c: char, after: Seq<char>)
    requires
        forall|k: int| 0 <= k < before.len() ==> is_literal_in_double(#[trigger] before[k]),
        forall|k: int| 0 <= k < after.len() ==> is_literal_in_double(#[trigger] after[k]),
    ensures
        is_escapable(c) ==> tokens(seq!['"'] + before + seq!['\\', c] + after + seq!['"'])
            == seq![before + seq![c] + after],
        !is_escapable(c) ==> tokens(seq!['"'] + before + seq!['\\', c] + after + seq!['"'])
            == seq![before + seq!['\\', c] + after],
{
    let s = seq!['"'] + before + seq!['\\', c] + after + seq!['"'];
    let b = before.len() as int;
    let a = after.len() as int;
    assert(s.len() == b + a + 4);
    assert forall|k: int| 1 <= k < 1 + b implies is_literal_in_double(#[trigger] s[k]) by {
        assert(s[k] == before[k - 1]);
    }
    assert forall|k: int| b + 3 <= k < b + 3 + a implies is_literal_in_double(#[trigger] s[k]) by {
        assert(s[k] == after[k - b - 3]);
    }
    assert(s[0] == '"');
    assert(s[b + 1] == '\\');
    assert(s[b + 2] == c);
    assert(s[b + a + 3] == '"');
    lemma_double_quoted_run(s, 1, b);
    lemma_double_quoted_run(s, b + 3, a);
    assert(s.subrange(1, 1 + b) =~= before);
    assert(s.subrange(b + 3, b + 3 + a) =~= after);
    assert(double_quoted(s, b + a + 3) == (Seq::<char>::empty(), b + a + 3));
    assert(after + Seq::<char>::empty() =~= after);
    let inner = double_quoted(s, 1);
    if is_escapable(c) {
        assert(double_quoted(s, b + 1).0 == seq![c] + double_quoted(s, b + 3).0);
        assert(inner.0 =~= before + seq![c] + after);
    } else {
        lemma_double_quoted_run(s, b + 2, 1);
        assert(s.subrange(b + 2, b + 3) =~= seq![c]);
        assert(double_quoted(s, b + 1).0 == seq!['\\'] + double_quoted(s, b + 2).0);
        assert(inner.0 =~= before + seq!['\\', c] + after);
    }
    assert(inner.1 == b + a + 3);
    assert(Seq::<char>::empty() + inner.0 =~= inner.0);
    assert(tokens_from(s, b + a + 4, inner.0) == flush(inner.0));
}

} // verus!
