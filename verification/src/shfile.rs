//! The search path: the places where a command may lie, the choice of the
//! first that exists, and the executables that a partial name may stand for.

use vstd::prelude::*;
use crate::sherror::ShellError;
use crate::text::{
    chars_of, find_char, find_from, lemma_find_from_bounds, lemma_texts_push, push_char,
    starts_with, string_of_range, texts,
};

verus! {

/// The parts of `s` from position `from` on that `sep` separates. Two
/// separators next to each other, or one at an end, give an empty part.
pub open spec fn pieces_from(s: Seq<char>, sep: char, from: int) -> Seq<Seq<char>>
    decreases s.len() - from,
    via pieces_from_terminates
{
    if from < 0 || from > s.len() {
        Seq::empty()
    } else {
        let at = find_from(s, sep, from);
        if at >= s.len() {
            seq![s.subrange(from, s.len() as int)]
        } else {
            seq![s.subrange(from, at)] + pieces_from(s, sep, at + 1)
        }
    }
}

#[via_fn]
proof fn pieces_from_terminates(s: Seq<char>, sep: char, from: int) {
    if 0 <= from <= s.len() {
        lemma_find_from_bounds(s, sep, from);
    }
}

/// The directories of a search path: its parts between colons, in order.
pub open spec fn directories_of(path: Seq<char>) -> Seq<Seq<char>> {
    pieces_from(path, ':', 0)
}

/// The places where a command may lie: in each directory of the search path,
/// in the path's order, the directory, a slash and the command.
pub open spec fn candidates_of(path: Seq<char>, command: Seq<char>) -> Seq<Seq<char>> {
    directories_of(path).map_values(|dir: Seq<char>| dir + seq!['/'] + command)
}

/// The first position from `from` on, below `n`, that `present` marks, or `n`
/// where there is none. A position that `present` does not reach is unmarked.
pub open spec fn first_present(present: Seq<bool>, n: int, from: int) -> int
    decreases n - from,
{
    if from < 0 || from >= n {
        n
    } else if from < present.len() && present[from] {
        from
    } else {
        first_present(present, n, from + 1)
    }
}

/// `first_present` gives a marked position before which none is marked.
pub proof fn lemma_first_present(present: Seq<bool>, n: int, from: int)
    requires
        0 <= from <= n,
    ensures
        from <= first_present(present, n, from) <= n,
        first_present(present, n, from) < n ==> first_present(present, n, from) < present.len()
            && present[first_present(present, n, from)],
        forall|k: int|
            from <= k < first_present(present, n, from) && k < present.len() ==> !present[k],
    decreases n - from,
{
    if from < n && !(from < present.len() && present[from]) {
        lemma_first_present(present, n, from + 1);
    }
}

/// The parts of `s` that `sep` separates.
pub fn split(s: &str, sep: char) -> (parts: Vec<String>)
    ensures
        texts(parts@) == pieces_from(s@, sep, 0),
{
    let v = chars_of(s);
    let mut parts: Vec<String> = Vec::new();
    let mut from: usize = 0;
    let mut open: bool = true;
    assert(texts(parts@) + pieces_from(v@, sep, 0) =~= pieces_from(v@, sep, 0));
    while open
        invariant
            from <= v.len(),
            open ==> texts(parts@) + pieces_from(v@, sep, from as int) == pieces_from(v@, sep, 0),
            !open ==> texts(parts@) == pieces_from(v@, sep, 0),
        decreases (if open { 1 + v.len() - from } else { 0 }),
    {
        let at = find_char(&v, sep, from);
        let part = string_of_range(&v, from, at);
        let ghost before = texts(parts@);
        proof {
            lemma_texts_push(parts@, part);
        }
        parts.push(part);
        if at >= v.len() {
            assert(before.push(part@) =~= before + seq![part@]);
            open = false;
        } else {
            assert(before.push(part@) + pieces_from(v@, sep, at + 1) =~= before + (seq![part@]
                + pieces_from(v@, sep, at + 1)));
            from = at + 1;
        }
    }
    parts
}

/// The places where a command may lie, in the order of the search path.
pub fn candidates(path: &str, command: &str) -> (places: Vec<String>)
    ensures
        texts(places@) == candidates_of(path@, command@),
{
    let dirs = split(path, ':');
    let mut places: Vec<String> = Vec::new();
    let mut k: usize = 0;
    let ghost full = |dir: Seq<char>| dir + seq!['/'] + command@;
    while k < dirs.len()
        invariant
            k <= dirs.len(),
            full == (|dir: Seq<char>| dir + seq!['/'] + command@),
            texts(places@) == texts(dirs@).take(k as int).map_values(full),
        decreases dirs.len() - k,
    {
        let mut place = dirs[k].clone();
        push_char(&mut place, '/');
        place.append(command);
        proof {
            lemma_texts_push(places@, place);
            assert(place@ =~= full(dirs@[k as int]@));
            assert(texts(dirs@).take(k as int).map_values(full).push(place@) =~= texts(
                dirs@,
            ).take(k + 1).map_values(full));
        }
        places.push(place);
        k += 1;
    }
    assert(texts(dirs@).take(dirs.len() as int) =~= texts(dirs@));
    places
}

/// The position of the first place that is marked as present, or the number
/// of places where none is.
fn first_marked(present: &Vec<bool>, n: usize) -> (at: usize)
    ensures
        at == first_present(present@, n as int, 0),
        at <= n,
{
    let mut at: usize = 0;
    while at < n
        invariant
            at <= n,
            first_present(present@, n as int, at as int) == first_present(present@, n as int, 0),
        decreases n - at,
    {
        if at < present.len() && present[at] {
            return at;
        }
        at += 1;
    }
    at
}

/// Says where a command lies. `present` tells of each place of
/// `candidates(path, command)`, in order, whether a file exists there; the
/// first that exists is reported.
pub fn executable_exists(path: &str, command: &str, present: &Vec<bool>) -> (result: Result<
    String,
    ShellError,
>)
    ensures
        ({
            let places = candidates_of(path@, command@);
            let at = first_present(present@, places.len() as int, 0);
            if at < places.len() {
                result matches Ok(line) && line@ == command@ + " is "@ + places[at]
            } else {
                result matches Err(ShellError::ExecutableNotFound(message)) && message@
                    == command@ + ": not found"@
            }
        }),
{
    let places = candidates(path, command);
    let at = first_marked(present, places.len());
    if at < places.len() {
        assert(texts(places@)[at as int] == places@[at as int]@);
        let mut line = command.to_owned();
        line.append(" is ");
        line.append(places[at].as_str());
        Ok(line)
    } else {
        let mut message = command.to_owned();
        message.append(": not found");
        Err(ShellError::ExecutableNotFound(message))
    }
}

/// The place from which a command is run. `present` tells of each place of
/// `candidates(path, command)`, in order, whether a file exists there; the
/// first that exists wins.
pub fn is_executable(path: &str, command: &str, present: &Vec<bool>) -> (result: Result<
    String,
    bool,
>)
    ensures
        ({
            let places = candidates_of(path@, command@);
            let at = first_present(present@, places.len() as int, 0);
            if at < places.len() {
                result matches Ok(place) && place@ == places[at]
            } else {
                result == Err::<String, bool>(false)
            }
        }),
{
    let places = candidates(path, command);
    let at = first_marked(present, places.len());
    if at < places.len() {
        assert(texts(places@)[at as int] == places@[at as int]@);
        Ok(places[at].clone())
    } else {
        Err(false)
    }
}

/// The names that begin with `partial`, in the order of the listing.
pub open spec fn completions_of(names: Seq<Seq<char>>, partial: Seq<char>) -> Seq<Seq<char>> {
    names.filter(|name: Seq<char>| partial.is_prefix_of(name))
}

/// The executables that a partial name may stand for: the entries of the
/// search path's directories that begin with it.
pub fn find_executables(entries: &Vec<String>, partial: &str) -> (found: Vec<String>)
    ensures
        texts(found@) == completions_of(texts(entries@), partial@),
{
    let mut found: Vec<String> = Vec::new();
    let ghost names = texts(entries@);
    let ghost pred = |name: Seq<char>| partial@.is_prefix_of(name);
    let mut k: usize = 0;
    proof {
        reveal(Seq::filter);
        assert(names.take(0).filter(pred) =~= Seq::<Seq<char>>::empty());
    }
    while k < entries.len()
        invariant
            k <= entries.len(),
            names == texts(entries@),
            pred == (|name: Seq<char>| partial@.is_prefix_of(name)),
            texts(found@) == names.take(k as int).filter(pred),
        decreases entries.len() - k,
    {
        proof {
            reveal(Seq::filter);
            assert(names.take(k + 1).drop_last() =~= names.take(k as int));
            assert(names.take(k + 1).last() == entries@[k as int]@);
        }
        if starts_with(entries[k].as_str(), partial) {
            let name = entries[k].clone();
            proof {
                lemma_texts_push(found@, name);
            }
            found.push(name);
        }
        k += 1;
    }
    assert(names.take(entries.len() as int) =~= names);
    found
}

} // verus!
