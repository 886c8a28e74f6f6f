//! Character and string helpers shared by the rest of the library.

use vstd::prelude::*;

verus! {

/// The character sequences of a list of strings, in order.
pub open spec fn texts(v: Seq<String>) -> Seq<Seq<char>> {
    v.map_values(|s: String| s@)
}

/// Appending a string to a list appends its characters to the list's texts.
pub proof fn lemma_texts_push(v: Seq<String>, s: String)
    ensures
        texts(v.push(s)) == texts(v).push(s@),
{
    assert(texts(v.push(s)) =~= texts(v).push(s@));
}

/// Appends one character to a string.
///
/// Trusted: wraps `String::push`, which adds exactly the given character at
/// the end of the string and leaves the rest unchanged.
#[verifier::external_body]
pub(crate) fn push_char(s: &mut String, c: char)
    ensures
        final(s)@ == old(s)@.push(c),
{
    s.push(c);
}

/// The characters of a string slice, in order.
pub fn chars_of(s: &str) -> (v: Vec<char>)
    ensures
        v@ == s@,
{
    let mut v: Vec<char> = Vec::new();
    for c in it: s.chars()
        invariant
            v@ == it.seq().take(it.index() as int),
            it.seq() == s@,
    {
        v.push(c);
    }
    v
}

/// The string made of the given characters, in order.
pub fn string_of(v: &Vec<char>) -> (s: String)
    ensures
        s@ == v@,
{
    let mut s = String::new();
    let mut i: usize = 0;
    while i < v.len()
        invariant
            i <= v.len(),
            s@ == v@.take(i as int),
        decreases v.len() - i,
    {
        push_char(&mut s, v[i]);
        i += 1;
    }
    s
}

/// The position of the first `q` in `s` at or after `from`, or the length of
/// `s` where there is none.
pub open spec fn find_from(s: Seq<char>, q: char, from: int) -> int
    decreases s.len() - from,
{
    if from < 0 || from >= s.len() {
        s.len() as int
    } else if s[from] == q {
        from
    } else {
        find_from(s, q, from + 1)
    }
}

/// `find_from` stays within the text and stops at the character it looks for.
pub proof fn lemma_find_from_bounds(s: Seq<char>, q: char, from: int)
    requires
        0 <= from <= s.len(),
    ensures
        from <= find_from(s, q, from) <= s.len(),
        find_from(s, q, from) < s.len() ==> s[find_from(s, q, from)] == q,
        forall|k: int| from <= k < find_from(s, q, from) ==> s[k] != q,
    decreases s.len() - from,
{
    if from < s.len() && s[from] != q {
        lemma_find_from_bounds(s, q, from + 1);
    }
}

/// The position of the first `q` in `s` at or after `from`, or the length of
/// `s` where there is none.
pub fn find_char(s: &Vec<char>, q: char, from: usize) -> (at: usize)
    requires
        from <= s.len(),
    ensures
        at == find_from(s@, q, from as int),
        from <= at <= s.len(),
{
    let mut at: usize = from;
    while at < s.len() && s[at] != q
        invariant
            from <= at <= s.len(),
            find_from(s@, q, at as int) == find_from(s@, q, from as int),
        decreases s.len() - at,
    {
        at += 1;
    }
    at
}

/// Whitespace as Unicode defines it (the property `White_Space`).
pub open spec fn is_whitespace(c: char) -> bool {
    ||| '\u{9}' <= c <= '\u{d}'
    ||| c == ' '
    ||| c == '\u{85}'
    ||| c == '\u{a0}'
    ||| c == '\u{1680}'
    ||| '\u{2000}' <= c <= '\u{200a}'
    ||| c == '\u{2028}'
    ||| c == '\u{2029}'
    ||| c == '\u{202f}'
    ||| c == '\u{205f}'
    ||| c == '\u{3000}'
}

/// The position of the first character at or after `from` that is no
/// whitespace, or the length of `s` where there is none.
pub open spec fn skip_whitespace(s: Seq<char>, from: int) -> int
    decreases s.len() - from,
{
    if from < 0 || from >= s.len() {
        s.len() as int
    } else if !is_whitespace(s[from]) {
        from
    } else {
        skip_whitespace(s, from + 1)
    }
}

/// The position behind the last character before `to` that is no whitespace,
/// or 0 where there is none.
pub open spec fn skip_whitespace_back(s: Seq<char>, to: int) -> int
    decreases to,
{
    if to <= 0 || to > s.len() {
        0
    } else if !is_whitespace(s[to - 1]) {
        to
    } else {
        skip_whitespace_back(s, to - 1)
    }
}

/// The text without the whitespace at its two ends.
pub open spec fn trimmed(s: Seq<char>) -> Seq<char> {
    let from = skip_whitespace(s, 0);
    let to = skip_whitespace_back(s, s.len() as int);
    if from >= to {
        Seq::empty()
    } else {
        s.subrange(from, to)
    }
}

/// Whether a word holds anything but whitespace.
pub open spec fn is_visible(word: Seq<char>) -> bool {
    skip_whitespace(word, 0) < word.len()
}

/// A word that holds a character other than whitespace does not trim to
/// nothing, and the other way round.
pub proof fn lemma_visible_iff_trims_to_text(word: Seq<char>)
    ensures
        is_visible(word) <==> trimmed(word).len() > 0,
{
    lemma_skip_whitespace(word, 0);
    let from = skip_whitespace(word, 0);
    if from < word.len() {
        lemma_back_stops(word, word.len() as int, from);
    }
    lemma_skip_whitespace_back(word, word.len() as int);
}

/// `skip_whitespace` stops at the first character that is no whitespace.
pub proof fn lemma_skip_whitespace(s: Seq<char>, from: int)
    requires
        0 <= from <= s.len(),
    ensures
        from <= skip_whitespace(s, from) <= s.len(),
        skip_whitespace(s, from) < s.len() ==> !is_whitespace(s[skip_whitespace(s, from)]),
    decreases s.len() - from,
{
    if from < s.len() && is_whitespace(s[from]) {
        lemma_skip_whitespace(s, from + 1);
    }
}

/// Going back from `to`, the scan for the end of the text does not pass a
/// character that is no whitespace.
pub proof fn lemma_back_stops(s: Seq<char>, to: int, at: int)
    requires
        0 <= at < to <= s.len(),
        !is_whitespace(s[at]),
    ensures
        skip_whitespace_back(s, to) > at,
    decreases to,
{
    if is_whitespace(s[to - 1]) {
        lemma_back_stops(s, to - 1, at);
    }
}

/// `skip_whitespace_back` does not go forward.
pub proof fn lemma_skip_whitespace_back(s: Seq<char>, to: int)
    requires
        0 <= to <= s.len(),
    ensures
        0 <= skip_whitespace_back(s, to) <= to,
    decreases to,
{
    if to > 0 && is_whitespace(s[to - 1]) {
        lemma_skip_whitespace_back(s, to - 1);
    }
}

/// The words joined into one text, with `sep` between neighbours.
pub open spec fn joined(words: Seq<Seq<char>>, sep: Seq<char>) -> Seq<char>
    decreases words.len(),
{
    if words.len() == 0 {
        Seq::empty()
    } else if words.len() == 1 {
        words[0]
    } else {
        joined(words.drop_last(), sep) + sep + words.last()
    }
}

/// Whether a character is Unicode whitespace.
pub fn whitespace(c: char) -> (b: bool)
    ensures
        b == is_whitespace(c),
{
    ('\u{9}' <= c && c <= '\u{d}') || c == ' ' || c == '\u{85}' || c == '\u{a0}' || c
        == '\u{1680}' || ('\u{2000}' <= c && c <= '\u{200a}') || c == '\u{2028}' || c
        == '\u{2029}' || c == '\u{202f}' || c == '\u{205f}' || c == '\u{3000}'
}

/// The characters of `s` from `from` up to `to`, as a string.
pub fn string_of_range(s: &Vec<char>, from: usize, to: usize) -> (r: String)
    requires
        from <= to <= s.len(),
    ensures
        r@ == s@.subrange(from as int, to as int),
{
    let mut r = String::new();
    let mut k: usize = from;
    while k < to
        invariant
            from <= k <= to <= s.len(),
            r@ == s@.subrange(from as int, k as int),
        decreases to - k,
    {
        push_char(&mut r, s[k]);
        k += 1;
        assert(r@ =~= s@.subrange(from as int, k as int));
    }
    r
}

/// Whether a word holds anything but whitespace.
pub fn visible(word: &str) -> (b: bool)
    ensures
        b == is_visible(word@),
{
    let v = chars_of(word);
    let mut k: usize = 0;
    while k < v.len() && whitespace(v[k])
        invariant
            k <= v.len(),
            skip_whitespace(v@, k as int) == skip_whitespace(v@, 0),
        decreases v.len() - k,
    {
        k += 1;
    }
    k < v.len()
}

/// The text without the whitespace at its two ends.
pub fn trim(s: &str) -> (r: String)
    ensures
        r@ == trimmed(s@),
{
    let v = chars_of(s);
    let mut from: usize = 0;
    while from < v.len() && whitespace(v[from])
        invariant
            from <= v.len(),
            skip_whitespace(v@, from as int) == skip_whitespace(v@, 0),
        decreases v.len() - from,
    {
        from += 1;
    }
    let mut to: usize = v.len();
    while to > 0 && whitespace(v[to - 1])
        invariant
            to <= v.len(),
            skip_whitespace_back(v@, to as int) == skip_whitespace_back(v@, v@.len() as int),
        decreases to,
    {
        to -= 1;
    }
    if from >= to {
        String::new()
    } else {
        string_of_range(&v, from, to)
    }
}

/// Whether `s` begins with `prefix`.
pub fn starts_with(s: &str, prefix: &str) -> (b: bool)
    ensures
        b == prefix@.is_prefix_of(s@),
{
    let v = chars_of(s);
    let p = chars_of(prefix);
    if p.len() > v.len() {
        return false;
    }
    let mut k: usize = 0;
    while k < p.len()
        invariant
            k <= p.len() <= v.len(),
            v@ == s@,
            p@ == prefix@,
            forall|j: int| 0 <= j < k ==> p@[j] == v@[j],
        decreases p.len() - k,
    {
        if p[k] != v[k] {
            assert(v@.subrange(0, p@.len() as int)[k as int] == v@[k as int]);
            return false;
        }
        k += 1;
    }
    assert(p@ =~= v@.subrange(0, p@.len() as int));
    true
}

/// The words joined into one string, with `sep` between neighbours.
pub fn join(words: &Vec<String>, sep: &str) -> (r: String)
    ensures
        r@ == joined(texts(words@), sep@),
{
    let mut r = String::new();
    let mut k: usize = 0;
    while k < words.len()
        invariant
            k <= words.len(),
            r@ == joined(texts(words@).take(k as int), sep@),
        decreases words.len() - k,
    {
        let ghost head = texts(words@).take(k as int);
        let ghost next = texts(words@).take(k + 1);
        proof {
            assert(next.drop_last() =~= head);
            assert(next.last() == words@[k as int]@);
        }
        if k > 0 {
            r.append(sep);
        } else {
            assert(Seq::<char>::empty() + words@[k as int]@ =~= words@[k as int]@);
        }
        r.append(words[k].as_str());
        k += 1;
    }
    assert(texts(words@).take(words.len() as int) =~= texts(words@));
    r
}

/// The first `n` of the words, copied.
pub fn first_words(words: &Vec<String>, n: usize) -> (head: Vec<String>)
    requires
        n <= words.len(),
    ensures
        texts(head@) == texts(words@).take(n as int),
{
    let mut head: Vec<String> = Vec::new();
    let mut k: usize = 0;
    assert(texts(head@) =~= texts(words@).take(0));
    while k < n
        invariant
            k <= n <= words.len(),
            texts(head@) == texts(words@).take(k as int),
        decreases n - k,
    {
        let word = words[k].clone();
        proof {
            lemma_texts_push(head@, word);
            assert(texts(words@).take(k as int).push(word@) =~= texts(words@).take(k + 1));
        }
        head.push(word);
        k += 1;
    }
    head
}

/// A copy of the words.
pub fn copy_words(words: &Vec<String>) -> (copy: Vec<String>)
    ensures
        texts(copy@) == texts(words@),
{
    assert(texts(words@).take(words.len() as int) =~= texts(words@));
    first_words(words, words.len())
}

/// Whether two strings hold the same text.
pub fn same_text(a: &str, b: &str) -> (same: bool)
    ensures
        same == (a@ == b@),
{
    let x = chars_of(a);
    let y = chars_of(b);
    if x.len() != y.len() {
        return false;
    }
    let mut k: usize = 0;
    while k < x.len()
        invariant
            k <= x.len(),
            x.len() == y.len(),
            x@ == a@,
            y@ == b@,
            forall|j: int| 0 <= j < k ==> x@[j] == y@[j],
        decreases x.len() - k,
    {
        if x[k] != y[k] {
            return false;
        }
        k += 1;
    }
    assert(x@ =~= y@);
    true
}

/// Whether the list holds the word.
pub fn contains_text(list: &Vec<String>, word: &str) -> (found: bool)
    ensures
        found == texts(list@).contains(word@),
{
    let mut k: usize = 0;
    while k < list.len()
        invariant
            k <= list.len(),
            forall|i: int| 0 <= i < k ==> texts(list@)[i] != word@,
        decreases list.len() - k,
    {
        assert(texts(list@)[k as int] == list@[k as int]@);
        if same_text(list[k].as_str(), word) {
            return true;
        }
        k += 1;
    }
    false
}

} // verus!
