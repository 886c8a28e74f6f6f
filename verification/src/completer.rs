//! Tab completion of command names: the candidates for a partial word, and
//! what repeated requests for one and the same word do.

use vstd::prelude::*;
use vstd::string::StringSliceAdditionalSpecFns;
use vstd::utf8::{decode_utf8, encode_utf8, encode_utf8_decode_utf8, is_char_boundary};
use crate::shfile::{completions_of, find_executables};
use crate::sorting::{sorted_unique, sorted_unique_of};
use crate::text::{
    chars_of, copy_words, is_whitespace, lemma_texts_push, push_char, same_text, string_of,
    string_of_range, texts, whitespace,
};
use crate::tokenizer::flush;

verus! {

/// The words of `s` from position `i` on, where `word` is the part of the
/// current word that has been read so far. Whitespace separates words.
pub open spec fn words_from(s: Seq<char>, i: int, word: Seq<char>) -> Seq<Seq<char>>
    decreases s.len() - i,
{
    if i < 0 || i >= s.len() {
        flush(word)
    } else if is_whitespace(s[i]) {
        flush(word) + words_from(s, i + 1, Seq::empty())
    } else {
        words_from(s, i + 1, word.push(s[i]))
    }
}

/// The words of a text: its parts between whitespace, none of them empty.
pub open spec fn words_of(s: Seq<char>) -> Seq<Seq<char>> {
    words_from(s, 0, Seq::empty())
}

/// The number of characters with which `a` and `b` both begin, counted from
/// position `from`, up to which the two agree.
pub open spec fn shared_from(a: Seq<char>, b: Seq<char>, from: int) -> int
    decreases a.len() - from,
{
    if from < 0 || from >= a.len() || from >= b.len() || a[from] != b[from] {
        from
    } else {
        shared_from(a, b, from + 1)
    }
}

/// The longest text with which every name begins; empty for no names.
pub open spec fn common_prefix_of(names: Seq<Seq<char>>) -> Seq<char>
    decreases names.len(),
{
    if names.len() == 0 {
        Seq::empty()
    } else if names.len() == 1 {
        names[0]
    } else {
        let head = common_prefix_of(names.drop_last());
        head.take(shared_from(head, names.last(), 0))
    }
}

/// `shared_from` stays within both texts; they agree before it and differ at
/// it, unless one of them ends there.
pub proof fn lemma_shared_from(a: Seq<char>, b: Seq<char>, from: int)
    requires
        0 <= from <= a.len(),
        from <= b.len(),
        forall|k: int| 0 <= k < from ==> a[k] == b[k],
    ensures
        from <= shared_from(a, b, from) <= a.len(),
        shared_from(a, b, from) <= b.len(),
        forall|k: int| 0 <= k < shared_from(a, b, from) ==> a[k] == b[k],
        shared_from(a, b, from) < a.len() && shared_from(a, b, from) < b.len() ==> a[shared_from(
            a,
            b,
            from,
        )] != b[shared_from(a, b, from)],
    decreases a.len() - from,
{
    if from < a.len() && from < b.len() && a[from] == b[from] {
        lemma_shared_from(a, b, from + 1);
    }
}

/// Whether every name begins with `p`.
pub open spec fn begins_all(p: Seq<char>, names: Seq<Seq<char>>) -> bool {
    forall|i: int| 0 <= i < names.len() ==> p.is_prefix_of(#[trigger] names[i])
}

/// Every name begins with the common prefix.
pub proof fn lemma_common_prefix_shared(names: Seq<Seq<char>>)
    requires
        names.len() > 0,
    ensures
        begins_all(common_prefix_of(names), names),
    decreases names.len(),
{
    let whole = common_prefix_of(names);
    if names.len() == 1 {
        assert(names[0] =~= names[0].subrange(0, names[0].len() as int));
    } else {
        let front = names.drop_last();
        let head = common_prefix_of(front);
        let last = names.last();
        lemma_common_prefix_shared(front);
        lemma_shared_from(head, last, 0);
        let n = shared_from(head, last, 0);
        assert forall|i: int| 0 <= i < names.len() implies whole.is_prefix_of(
            #[trigger] names[i],
        ) by {
            if i < names.len() - 1 {
                assert(front[i] == names[i]);
                assert(head.is_prefix_of(front[i]));
                assert(whole =~= names[i].subrange(0, n));
            } else {
                assert(whole =~= last.subrange(0, n));
            }
        }
    }
}

/// No text with which every name begins is longer than the common prefix.
pub proof fn lemma_common_prefix_longest(names: Seq<Seq<char>>, p: Seq<char>)
    requires
        names.len() > 0,
        begins_all(p, names),
    ensures
        p.len() <= common_prefix_of(names).len(),
    decreases names.len(),
{
    if names.len() == 1 {
        assert(p.is_prefix_of(names[0]));
    } else {
        let front = names.drop_last();
        let head = common_prefix_of(front);
        let last = names.last();
        assert forall|i: int| 0 <= i < front.len() implies p.is_prefix_of(#[trigger] front[i]) by {
            assert(front[i] == names[i]);
            assert(p.is_prefix_of(names[i]));
        }
        lemma_common_prefix_longest(front, p);
        lemma_common_prefix_shared(front);
        lemma_shared_from(head, last, 0);
        let n = shared_from(head, last, 0);
        assert(p.is_prefix_of(names[names.len() - 1]));
        assert(p.is_prefix_of(names[0]));
        assert(head.is_prefix_of(front[0]));
        if p.len() > n {
            assert(p[n] == last.subrange(0, p.len() as int)[n]);
            assert(p[n] == names[0].subrange(0, p.len() as int)[n]);
            assert(head[n] == names[0].subrange(0, head.len() as int)[n]);
        }
    }
}

/// The words of a text, split at whitespace.
pub fn split_whitespace(s: &str) -> (words: Vec<String>)
    ensures
        texts(words@) == words_of(s@),
{
    let v = chars_of(s);
    let mut words: Vec<String> = Vec::new();
    let mut start: usize = 0;
    let mut i: usize = 0;
    assert(texts(words@) + words_of(v@) =~= words_of(v@));
    assert(v@.subrange(0, 0) =~= Seq::<char>::empty());
    while i < v.len()
        invariant
            start <= i <= v.len(),
            texts(words@) + words_from(v@, i as int, v@.subrange(start as int, i as int))
                == words_of(v@),
        decreases v.len() - i,
    {
        let ghost done = texts(words@);
        let ghost word = v@.subrange(start as int, i as int);
        if whitespace(v[i]) {
            if start < i {
                let w = string_of_range(&v, start, i);
                proof {
                    lemma_texts_push(words@, w);
                }
                words.push(w);
            }
            proof {
                assert(v@.subrange(i + 1, i + 1) =~= Seq::<char>::empty());
                assert(texts(words@) =~= done + flush(word));
                assert(done + flush(word) + words_from(v@, i + 1, Seq::empty()) =~= done + (flush(
                    word,
                ) + words_from(v@, i + 1, Seq::empty())));
            }
            start = i + 1;
        } else {
            assert(word.push(v@[i as int]) =~= v@.subrange(start as int, i + 1));
        }
        i += 1;
    }
    if start < i {
        let ghost done = texts(words@);
        let w = string_of_range(&v, start, i);
        proof {
            lemma_texts_push(words@, w);
            assert(done.push(w@) =~= done + flush(w@));
        }
        words.push(w);
    } else {
        assert(texts(words@) + flush(v@.subrange(start as int, i as int)) =~= texts(words@));
    }
    words
}

/// The number of characters with which `a` and `b` both begin.
fn shared_length(a: &Vec<char>, b: &Vec<char>) -> (n: usize)
    ensures
        n == shared_from(a@, b@, 0),
        n <= a.len(),
{
    let mut n: usize = 0;
    while n < a.len() && n < b.len() && a[n] == b[n]
        invariant
            n <= a.len(),
            n <= b.len(),
            shared_from(a@, b@, n as int) == shared_from(a@, b@, 0),
        decreases a.len() - n,
    {
        n += 1;
    }
    n
}

/// The longest text with which every name begins. Without names it is empty.
pub fn common_prefix(names: Vec<String>) -> (prefix: String)
    ensures
        prefix@ == common_prefix_of(texts(names@)),
{
    if names.len() == 0 {
        return String::new();
    }
    let mut prefix = chars_of(names[0].as_str());
    let mut k: usize = 1;
    assert(texts(names@).take(1) =~= seq![names@[0]@]);
    while k < names.len()
        invariant
            1 <= k <= names.len(),
            prefix@ == common_prefix_of(texts(names@).take(k as int)),
        decreases names.len() - k,
    {
        let name = chars_of(names[k].as_str());
        proof {
            assert(texts(names@).take(k + 1).drop_last() =~= texts(names@).take(k as int));
            assert(texts(names@).take(k + 1).last() == names@[k as int]@);
        }
        let n = shared_length(&prefix, &name);
        prefix.truncate(n);
        k += 1;
    }
    assert(texts(names@).take(names.len() as int) =~= texts(names@));
    string_of(&prefix)
}

/// What the completion engine remembers between requests.
pub struct CompleterState {
    /// How many requests in a row found the word ambiguous.
    pub tab_count: u8,
    /// The partial word of the last request.
    pub last_partial: String,
    /// The candidates that the last ambiguous request found.
    pub last_matches: Vec<String>,
}

/// The completion engine: the builtins' names, the search path, and what it
/// remembers between requests.
pub struct CommandCompleter {
    pub commands: Vec<String>,
    pub path: String,
    pub state: CompleterState,
}

/// What a request writes to the terminal besides the completion itself.
pub enum Signal {
    /// Nothing.
    Silent,
    /// The bell.
    Bell,
    /// The candidates, and the prompt anew.
    List(String),
}

/// The answer to a request: the position in the line from which the
/// candidates replace the text, the candidates, and what to write.
pub struct Completion {
    pub start: usize,
    pub candidates: Vec<String>,
    pub signal: Signal,
}

/// A `CompleterState` as plain values.
pub struct StateView {
    pub tab_count: u8,
    pub last_partial: Seq<char>,
    pub last_matches: Seq<Seq<char>>,
}

/// A `Signal` as plain values.
pub enum SignalView {
    Silent,
    Bell,
    List(Seq<char>),
}

/// A `Completion` as plain values.
pub struct CompletionView {
    pub start: usize,
    pub candidates: Seq<Seq<char>>,
    pub signal: SignalView,
}

impl View for CompleterState {
    type V = StateView;

    open spec fn view(&self) -> StateView {
        StateView {
            tab_count: self.tab_count,
            last_partial: self.last_partial@,
            last_matches: texts(self.last_matches@),
        }
    }
}

impl View for Signal {
    type V = SignalView;

    open spec fn view(&self) -> SignalView {
        match *self {
            Signal::Silent => SignalView::Silent,
            Signal::Bell => SignalView::Bell,
            Signal::List(text) => SignalView::List(text@),
        }
    }
}

impl View for Completion {
    type V = CompletionView;

    open spec fn view(&self) -> CompletionView {
        CompletionView {
            start: self.start,
            candidates: texts(self.candidates@),
            signal: self.signal@,
        }
    }
}

/// The memory with which an engine begins.
pub open spec fn blank_state() -> StateView {
    StateView { tab_count: 0, last_partial: Seq::empty(), last_matches: Seq::empty() }
}

/// The text of a line before the byte position `pos`.
pub open spec fn typed_of(line: Seq<char>, pos: int) -> Seq<char> {
    decode_utf8(encode_utf8(line).subrange(0, pos))
}

/// The word that is being completed: the last word before the cursor, or the
/// empty word where there is none.
pub open spec fn partial_of(typed: Seq<char>) -> Seq<char> {
    let words = words_of(typed);
    if words.len() == 0 {
        Seq::empty()
    } else {
        words.last()
    }
}

/// Whether the cursor stands in the command: at most one word is typed, and
/// the line does not end in a space.
pub open spec fn at_command(line: Seq<char>, typed: Seq<char>) -> bool {
    let words = words_of(typed);
    words.len() == 0 || (words.len() == 1 && !(line.len() > 0 && line.last() == ' '))
}

/// The candidates for a partial word, in strict order: the builtins that
/// begin with it, or, where no builtin does, the executables that do.
pub open spec fn matches_of(
    commands: Seq<Seq<char>>,
    executables: Seq<Seq<char>>,
    partial: Seq<char>,
) -> Seq<Seq<char>> {
    let own = completions_of(commands, partial);
    if own.len() > 0 {
        sorted_unique_of(own)
    } else {
        sorted_unique_of(completions_of(executables, partial))
    }
}

/// Whether the executables count for a request: the cursor stands in the
/// command and no builtin begins with the partial word.
pub open spec fn needs_executables(commands: Seq<Seq<char>>, line: Seq<char>, pos: int) -> bool {
    let typed = typed_of(line, pos);
    at_command(line, typed) && completions_of(commands, partial_of(typed)).len() == 0
}

/// The first `n` names, each followed by two spaces.
pub open spec fn spaced(names: Seq<Seq<char>>, n: int) -> Seq<char>
    decreases n,
{
    if n <= 0 {
        Seq::empty()
    } else {
        spaced(names, n - 1) + names[n - 1] + seq![' ', ' ']
    }
}

/// What a listing writes: a line break, the candidates, a line break, and the
/// prompt with the partial word.
pub open spec fn listing_text(names: Seq<Seq<char>>, partial: Seq<char>) -> Seq<char> {
    seq!['\n'] + spaced(names, names.len() as int) + seq!['\n', '$', ' '] + partial
}

/// The memory after the partial word is looked at: kept for the same word,
/// begun anew for another.
pub open spec fn recalled(state: StateView, partial: Seq<char>) -> StateView {
    if state.last_partial == partial {
        state
    } else {
        StateView { tab_count: 0, last_partial: partial, last_matches: Seq::empty() }
    }
}

/// The count of ambiguous requests after one more; it stops at 255.
pub open spec fn counted(count: u8) -> u8 {
    if count < 255 {
        (count + 1) as u8
    } else {
        count
    }
}

/// One request: the memory after it, and the answer.
///
/// A new partial word begins the memory anew. Outside the command nothing is
/// offered. No candidate: nothing. One candidate: the candidate and a space.
/// Several that share more than is typed: what they share. Several that do
/// not: the first such request in a row rings the bell, the second lists the
/// candidates, and later ones do nothing.
pub open spec fn completed(
    state: StateView,
    commands: Seq<Seq<char>>,
    executables: Seq<Seq<char>>,
    line: Seq<char>,
    pos: usize,
) -> (StateView, CompletionView) {
    let typed = typed_of(line, pos as int);
    let partial = partial_of(typed);
    let fresh = recalled(state, partial);
    let nothing = CompletionView { start: 0, candidates: Seq::empty(), signal: SignalView::Silent };
    if !at_command(line, typed) {
        (fresh, CompletionView { start: pos, candidates: Seq::empty(), signal: SignalView::Silent })
    } else {
        let found = matches_of(commands, executables, partial);
        if found.len() == 0 {
            (fresh, nothing)
        } else if found.len() == 1 {
            (
                fresh,
                CompletionView {
                    start: 0,
                    candidates: seq![found[0].push(' ')],
                    signal: SignalView::Silent,
                },
            )
        } else {
            let shared = common_prefix_of(found);
            if shared.len() > partial.len() {
                (
                    fresh,
                    CompletionView {
                        start: 0,
                        candidates: seq![shared],
                        signal: SignalView::Silent,
                    },
                )
            } else {
                let count = counted(fresh.tab_count);
                (
                    StateView { tab_count: count, last_partial: partial, last_matches: found },
                    CompletionView {
                        start: 0,
                        candidates: Seq::empty(),
                        signal: if count == 1 {
                            SignalView::Bell
                        } else if count == 2 {
                            SignalView::List(listing_text(found, partial))
                        } else {
                            SignalView::Silent
                        },
                    },
                )
            }
        }
    }
}

/// The text that a listing writes.
fn listing(names: &Vec<String>, partial: &str) -> (text: String)
    ensures
        text@ == listing_text(texts(names@), partial@),
{
    let mut text = String::new();
    push_char(&mut text, '\n');
    let mut k: usize = 0;
    assert(text@ =~= seq!['\n'] + spaced(texts(names@), 0));
    while k < names.len()
        invariant
            k <= names.len(),
            text@ == seq!['\n'] + spaced(texts(names@), k as int),
        decreases names.len() - k,
    {
        let ghost had = text@;
        text.append(names[k].as_str());
        push_char(&mut text, ' ');
        push_char(&mut text, ' ');
        proof {
            assert(texts(names@)[k as int] == names@[k as int]@);
            assert(text@ =~= seq!['\n'] + (spaced(texts(names@), k as int) + names@[k as int]@
                + seq![' ', ' ']));
        }
        k += 1;
    }
    let ghost had = text@;
    push_char(&mut text, '\n');
    push_char(&mut text, '$');
    push_char(&mut text, ' ');
    text.append(partial);
    assert(text@ =~= had + seq!['\n', '$', ' '] + partial@);
    text
}

impl CommandCompleter {
    /// A completion engine for the given builtins and search path, with
    /// nothing remembered.
    pub fn new(commands: Vec<String>, path: String) -> (completer: Self)
        ensures
            completer.commands == commands,
            completer.path == path,
            completer.state@ == blank_state(),
    {
        let completer = CommandCompleter {
            commands,
            path,
            state: CompleterState {
                tab_count: 0,
                last_partial: String::new(),
                last_matches: Vec::new(),
            },
        };
        assert(texts(completer.state.last_matches@) =~= Seq::<Seq<char>>::empty());
        completer
    }

    /// The partial word of a request: the last word before the cursor.
    fn partial_word(words: &Vec<String>) -> (partial: String)
        ensures
            partial@ == if words.len() == 0 {
                Seq::<char>::empty()
            } else {
                texts(words@).last()
            },
    {
        if words.len() == 0 {
            String::new()
        } else {
            assert(texts(words@).last() == words@[words.len() - 1]@);
            words[words.len() - 1].clone()
        }
    }

    /// Whether a request has to know the executables of the search path: it
    /// has where the cursor stands in the command and no builtin begins with
    /// the partial word. For any other request `complete` does not look at
    /// them.
    pub fn wants_executables(&self, line: &str, pos: usize) -> (wanted: bool)
        requires
            is_char_boundary(line.spec_bytes(), pos as int),
        ensures
            wanted == needs_executables(texts(self.commands@), line@, pos as int),
    {
        let (head, _) = line.split_at(pos);
        proof {
            encode_utf8_decode_utf8(head@);
        }
        let words = split_whitespace(head);
        let partial = Self::partial_word(&words);
        let whole = chars_of(line);
        let ends_in_space = whole.len() > 0 && whole[whole.len() - 1] == ' ';
        if words.len() == 0 || (words.len() == 1 && !ends_in_space) {
            find_executables(&self.commands, partial.as_str()).len() == 0
        } else {
            false
        }
    }

    /// Answers a request for completion at byte position `pos` of `line`.
    /// `executables` holds the names found in the directories of the search
    /// path; they count only where no builtin begins with the partial word.
    pub fn complete(
        &mut self,
        line: &str,
        pos: usize,
        executables: &Vec<String>,
    ) -> (completion: Completion)
        requires
            is_char_boundary(line.spec_bytes(), pos as int),
        ensures
            (final(self).state@, completion@) == completed(
                old(self).state@,
                texts(old(self).commands@),
                texts(executables@),
                line@,
                pos,
            ),
            final(self).commands == old(self).commands,
            final(self).path == old(self).path,
    {
        let (head, _) = line.split_at(pos);
        proof {
            encode_utf8_decode_utf8(head@);
        }
        let words = split_whitespace(head);
        let partial = Self::partial_word(&words);
        if !same_text(self.state.last_partial.as_str(), partial.as_str()) {
            self.state.tab_count = 0;
            self.state.last_partial = partial.clone();
            self.state.last_matches = Vec::new();
            assert(texts(self.state.last_matches@) =~= Seq::<Seq<char>>::empty());
        }
        let whole = chars_of(line);
        let ends_in_space = whole.len() > 0 && whole[whole.len() - 1] == ' ';
        if !(words.len() == 0 || (words.len() == 1 && !ends_in_space)) {
            let candidates: Vec<String> = Vec::new();
            assert(texts(candidates@) =~= Seq::<Seq<char>>::empty());
            return Completion { start: pos, candidates, signal: Signal::Silent };
        }
        let own = find_executables(&self.commands, partial.as_str());
        let found = if own.len() > 0 {
            sorted_unique(&own)
        } else {
            let other = find_executables(executables, partial.as_str());
            sorted_unique(&other)
        };
        let mut candidates: Vec<String> = Vec::new();
        assert(texts(candidates@) =~= Seq::<Seq<char>>::empty());
        if found.len() == 0 {
            return Completion { start: 0, candidates, signal: Signal::Silent };
        }
        if found.len() == 1 {
            let mut only = found[0].clone();
            push_char(&mut only, ' ');
            assert(texts(found@)[0] == found@[0]@);
            proof {
                lemma_texts_push(candidates@, only);
            }
            candidates.push(only);
            assert(texts(candidates@) =~= seq![texts(found@)[0].push(' ')]);
            return Completion { start: 0, candidates, signal: Signal::Silent };
        }
        let shared = common_prefix(copy_words(&found));
        if shared.as_str().unicode_len() > partial.as_str().unicode_len() {
            proof {
                lemma_texts_push(candidates@, shared);
            }
            candidates.push(shared);
            assert(texts(candidates@) =~= seq![common_prefix_of(texts(found@))]);
            return Completion { start: 0, candidates, signal: Signal::Silent };
        }
        if self.state.tab_count < 255 {
            self.state.tab_count = self.state.tab_count + 1;
        }
        let signal = if self.state.tab_count == 1 {
            Signal::Bell
        } else if self.state.tab_count == 2 {
            Signal::List(listing(&found, partial.as_str()))
        } else {
            Signal::Silent
        };
        self.state.last_partial = partial;
        self.state.last_matches = found;
        Completion { start: 0, candidates, signal }
    }
}

/// Whether a request finds its word ambiguous: the cursor stands in the
/// command, and several candidates share no more than is typed.
pub open spec fn is_ambiguous(
    commands: Seq<Seq<char>>,
    executables: Seq<Seq<char>>,
    line: Seq<char>,
    pos: usize,
) -> bool {
    let typed = typed_of(line, pos as int);
    let found = matches_of(commands, executables, partial_of(typed));
    at_command(line, typed) && found.len() >= 2 && common_prefix_of(found).len() <= partial_of(
        typed,
    ).len()
}

/// A request for another partial word than the last one is answered as if
/// nothing had been asked before.
pub proof fn lemma_new_partial_resets(
    state: StateView,
    commands: Seq<Seq<char>>,
    executables: Seq<Seq<char>>,
    line: Seq<char>,
    pos: usize,
)
    requires
        state.last_partial != partial_of(typed_of(line, pos as int)),
    ensures
        completed(state, commands, executables, line, pos) == completed(
            blank_state(),
            commands,
            executables,
            line,
            pos,
        ),
{
}

/// Requests in a row for one ambiguous word: the first rings the bell, the
/// second lists the candidates and draws the prompt anew, each later one does
/// nothing. None of them changes the line.
pub proof fn lemma_bell_then_listing(
    state: StateView,
    commands: Seq<Seq<char>>,
    executables: Seq<Seq<char>>,
    line: Seq<char>,
    pos: usize,
)
    requires
        is_ambiguous(commands, executables, line, pos),
        state.last_partial == partial_of(typed_of(line, pos as int)),
    ensures
        ({
            let (next, answer) = completed(state, commands, executables, line, pos);
            let partial = partial_of(typed_of(line, pos as int));
            let found = matches_of(commands, executables, partial);
            &&& answer.candidates.len() == 0
            &&& next.last_partial == partial
            &&& next.tab_count == counted(state.tab_count)
            &&& state.tab_count == 0 ==> answer.signal == SignalView::Bell
            &&& state.tab_count == 1 ==> answer.signal == SignalView::List(
                listing_text(found, partial),
            )
            &&& state.tab_count >= 2 ==> answer.signal == SignalView::Silent && next.tab_count >= 2
        }),
{
}

/// A word with one candidate is completed to it, with a space behind it,
/// whatever was asked before.
pub proof fn lemma_single_match_completes(
    state: StateView,
    commands: Seq<Seq<char>>,
    executables: Seq<Seq<char>>,
    line: Seq<char>,
    pos: usize,
)
    requires
        at_command(line, typed_of(line, pos as int)),
        matches_of(commands, executables, partial_of(typed_of(line, pos as int))).len() == 1,
    ensures
        ({
            let (next, answer) = completed(state, commands, executables, line, pos);
            let partial = partial_of(typed_of(line, pos as int));
            &&& answer.candidates == seq![matches_of(commands, executables, partial)[0].push(' ')]
            &&& answer.signal == SignalView::Silent
            &&& answer.start == 0
            &&& next == recalled(state, partial)
        }),
{
}

/// Where a request does not need the executables, its answer is the same
/// whatever they are.
pub proof fn lemma_executables_unused(
    state: StateView,
    commands: Seq<Seq<char>>,
    one: Seq<Seq<char>>,
    other: Seq<Seq<char>>,
    line: Seq<char>,
    pos: usize,
)
    requires
        !needs_executables(commands, line, pos as int),
    ensures
        completed(state, commands, one, line, pos) == completed(state, commands, other, line, pos),
{
}

} // verus!
