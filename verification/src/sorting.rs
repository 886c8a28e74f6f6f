//! The order of words, and lists of words kept in that order without
//! repetition.

use vstd::prelude::*;
use crate::text::{chars_of, texts};

verus! {

/// Whether `a` comes before `b` where the two are compared from position
/// `from` on, character by character; a word comes before those that it
/// begins.
pub open spec fn precedes_from(a: Seq<char>, b: Seq<char>, from: int) -> bool
    decreases b.len() - from,
{
    if from < 0 || from >= b.len() {
        false
    } else if from >= a.len() {
        true
    } else if a[from] != b[from] {
        a[from] < b[from]
    } else {
        precedes_from(a, b, from + 1)
    }
}

/// Whether `a` comes before `b` in the order of the dictionary, by the
/// characters' code points.
pub open spec fn precedes(a: Seq<char>, b: Seq<char>) -> bool {
    precedes_from(a, b, 0)
}

/// Whether each word comes before all that follow it: the words are in
/// order and none stands twice.
pub open spec fn strictly_sorted(words: Seq<Seq<char>>) -> bool {
    forall|i: int, j: int| 0 <= i < j < words.len() ==> precedes(words[i], words[j])
}

/// Whether two lists hold the same words, whatever their order and number.
pub open spec fn same_words(a: Seq<Seq<char>>, b: Seq<Seq<char>>) -> bool {
    forall|w: Seq<char>| a.contains(w) <==> b.contains(w)
}

/// The words of a list in strict order, each of them once.
pub open spec fn sorted_unique_of(words: Seq<Seq<char>>) -> Seq<Seq<char>> {
    choose|list: Seq<Seq<char>>| strictly_sorted(list) && same_words(list, words)
}

/// How two words stand to each other.
#[derive(Debug, Clone, Copy, PartialEq, Eq, Structural)]
pub enum Order {
    Before,
    Same,
    After,
}

/// How `a` stands to `b`.
pub open spec fn order_of(a: Seq<char>, b: Seq<char>) -> Order {
    if a == b {
        Order::Same
    } else if precedes(a, b) {
        Order::Before
    } else {
        Order::After
    }
}

/// No word comes before itself.
pub proof fn lemma_precedes_irreflexive(a: Seq<char>, from: int)
    requires
        0 <= from,
    ensures
        !precedes_from(a, a, from),
    decreases a.len() - from,
{
    if from < a.len() {
        lemma_precedes_irreflexive(a, from + 1);
    }
}

/// The order is transitive.
pub proof fn lemma_precedes_transitive(a: Seq<char>, b: Seq<char>, c: Seq<char>, from: int)
    requires
        0 <= from,
        precedes_from(a, b, from),
        precedes_from(b, c, from),
    ensures
        precedes_from(a, c, from),
    decreases c.len() - from,
{
    if from < a.len() && a[from] == b[from] && b[from] == c[from] {
        lemma_precedes_transitive(a, b, c, from + 1);
    }
}

/// Of two words that agree before `from`, one comes before the other or the
/// two are the same.
pub proof fn lemma_precedes_total(a: Seq<char>, b: Seq<char>, from: int)
    requires
        0 <= from <= a.len(),
        from <= b.len(),
        forall|k: int| 0 <= k < from ==> a[k] == b[k],
    ensures
        a == b || precedes_from(a, b, from) || precedes_from(b, a, from),
    decreases a.len() - from,
{
    if from < a.len() && from < b.len() {
        if a[from] == b[from] {
            lemma_precedes_total(a, b, from + 1);
        }
    } else if from == a.len() && from == b.len() {
        assert(a =~= b);
    }
}

/// Words in strict order are all different.
pub proof fn lemma_sorted_distinct(words: Seq<Seq<char>>, i: int, j: int)
    requires
        strictly_sorted(words),
        0 <= i < j < words.len(),
    ensures
        words[i] != words[j],
{
    assert(precedes(words[i], words[j]));
    lemma_precedes_irreflexive(words[i], 0);
}

/// Compares two words in the order of the dictionary.
pub fn compare(a: &Vec<char>, b: &Vec<char>) -> (order: Order)
    ensures
        order == order_of(a@, b@),
{
    let mut k: usize = 0;
    while k < a.len() && k < b.len()
        invariant
            k <= a.len(),
            k <= b.len(),
            forall|j: int| 0 <= j < k ==> a@[j] == b@[j],
            precedes_from(a@, b@, k as int) == precedes(a@, b@),
        decreases a.len() - k,
    {
        if a[k] < b[k] {
            assert(a@ != b@);
            return Order::Before;
        }
        if a[k] > b[k] {
            assert(a@ != b@);
            return Order::After;
        }
        k += 1;
    }
    if k < b.len() {
        assert(a@ != b@);
        Order::Before
    } else if k < a.len() {
        assert(a@ != b@);
        Order::After
    } else {
        assert(a@ =~= b@);
        Order::Same
    }
}

/// Puts a word at its place in a list that is in strict order; a word that
/// the list holds already is not put in again.
pub fn insert_sorted(list: &mut Vec<String>, word: String)
    requires
        strictly_sorted(texts(old(list)@)),
    ensures
        strictly_sorted(texts(final(list)@)),
        forall|w: Seq<char>|
            texts(final(list)@).contains(w) <==> (texts(old(list)@).contains(w) || w == word@),
{
    let w = chars_of(word.as_str());
    let ghost before = texts(list@);
    let mut k: usize = 0;
    let mut placed: bool = false;
    while k < list.len() && !placed
        invariant
            k <= list.len(),
            w@ == word@,
            texts(list@) == before,
            strictly_sorted(before),
            forall|i: int| 0 <= i < k ==> precedes(#[trigger] before[i], w@),
            placed ==> k < list.len() && precedes(w@, before[k as int]),
        decreases list.len() - k + (if placed { 0int } else { 1int }),
    {
        let here = chars_of(list[k].as_str());
        assert(before[k as int] == list@[k as int]@);
        match compare(&here, &w) {
            Order::Before => {
                k += 1;
            },
            Order::Same => {
                proof {
                    assert(before.contains(word@));
                }
                return ;
            },
            Order::After => {
                proof {
                    lemma_precedes_total(here@, w@, 0);
                }
                placed = true;
            },
        }
    }
    proof {
        let after = before.insert(k as int, word@);
        assert(texts(list@.insert(k as int, word)) =~= after);
        assert forall|i: int, j: int| 0 <= i < j < after.len() implies precedes(
            after[i],
            after[j],
        ) by {
            if j < k {
                assert(after[i] == before[i] && after[j] == before[j]);
            } else if j == k {
                assert(after[i] == before[i]);
            } else if i < k {
                assert(after[i] == before[i] && after[j] == before[j - 1]);
                if j - 1 == i {
                } else {
                    assert(precedes(before[i], before[j - 1]));
                }
            } else if i == k {
                assert(after[j] == before[j - 1]);
                if j - 1 > k {
                    assert(precedes(before[k as int], before[j - 1]));
                    lemma_precedes_transitive(w@, before[k as int], before[j - 1], 0);
                }
            } else {
                assert(after[i] == before[i - 1] && after[j] == before[j - 1]);
            }
        }
        assert forall|x: Seq<char>| after.contains(x) <==> (before.contains(x) || x
            == word@) by {
            if after.contains(x) {
                let i = choose|i: int| 0 <= i < after.len() && after[i] == x;
                if i < k {
                    assert(before[i] == x);
                } else if i > k {
                    assert(before[i - 1] == x);
                }
            }
            if before.contains(x) {
                let i = choose|i: int| 0 <= i < before.len() && before[i] == x;
                if i < k {
                    assert(after[i] == x);
                } else {
                    assert(after[i + 1] == x);
                }
            }
            if x == word@ {
                assert(after[k as int] == x);
            }
        }
    }
    list.insert(k, word);
}

/// The words of a list in strict order: sorted, each of them once.
pub fn sorted_unique(words: &Vec<String>) -> (list: Vec<String>)
    ensures
        strictly_sorted(texts(list@)),
        same_words(texts(list@), texts(words@)),
        texts(list@) == sorted_unique_of(texts(words@)),
{
    let mut list: Vec<String> = Vec::new();
    let mut k: usize = 0;
    while k < words.len()
        invariant
            k <= words.len(),
            strictly_sorted(texts(list@)),
            forall|w: Seq<char>|
                texts(list@).contains(w) <==> texts(words@).take(k as int).contains(w),
        decreases words.len() - k,
    {
        let ghost had = texts(list@);
        let word = words[k].clone();
        insert_sorted(&mut list, word);
        proof {
            let head = texts(words@).take(k as int);
            let next = texts(words@).take(k + 1);
            assert(next =~= head.push(word@));
            assert forall|w: Seq<char>| texts(list@).contains(w) <==> next.contains(w) by {
                if next.contains(w) {
                    let i = choose|i: int| 0 <= i < next.len() && next[i] == w;
                    if i < k {
                        assert(head[i] == w);
                    }
                }
                if head.contains(w) {
                    let i = choose|i: int| 0 <= i < head.len() && head[i] == w;
                    assert(next[i] == w);
                }
                if w == word@ {
                    assert(next[k as int] == w);
                }
            }
        }
        k += 1;
    }
    proof {
        assert(texts(words@).take(words.len() as int) =~= texts(words@));
        lemma_sorted_determined(texts(list@), sorted_unique_of(texts(words@)));
    }
    list
}

/// A list in strict order is settled by the words that it holds: two such
/// lists with the same words are the same list.
pub proof fn lemma_sorted_determined(a: Seq<Seq<char>>, b: Seq<Seq<char>>)
    requires
        strictly_sorted(a),
        strictly_sorted(b),
        same_words(a, b),
    ensures
        a == b,
    decreases a.len(),
{
    if a.len() == 0 {
        if b.len() > 0 {
            assert(b.contains(b[0]));
            assert(a.contains(b[0]));
        }
        assert(a =~= b);
    } else {
        assert(a.contains(a[0]));
        assert(b.contains(a[0]));
        let j = choose|j: int| 0 <= j < b.len() && b[j] == a[0];
        assert(b.contains(b[0]));
        assert(a.contains(b[0]));
        let i = choose|i: int| 0 <= i < a.len() && a[i] == b[0];
        if j > 0 {
            assert(precedes(b[0], b[j]));
            if i > 0 {
                assert(precedes(a[0], a[i]));
                lemma_precedes_transitive(a[0], b[0], a[0], 0);
            }
            lemma_precedes_irreflexive(a[0], 0);
        }
        assert(a[0] == b[0]);
        let ra = a.drop_first();
        let rb = b.drop_first();
        assert forall|x: int, y: int| 0 <= x < y < ra.len() implies precedes(ra[x], ra[y]) by {
            assert(precedes(a[x + 1], a[y + 1]));
        }
        assert forall|x: int, y: int| 0 <= x < y < rb.len() implies precedes(rb[x], rb[y]) by {
            assert(precedes(b[x + 1], b[y + 1]));
        }
        assert forall|w: Seq<char>| ra.contains(w) <==> rb.contains(w) by {
            if ra.contains(w) {
                let x = choose|x: int| 0 <= x < ra.len() && ra[x] == w;
                assert(a[x + 1] == w);
                lemma_sorted_distinct(a, 0, x + 1);
                assert(a.contains(w));
                assert(b.contains(w));
                let y = choose|y: int| 0 <= y < b.len() && b[y] == w;
                assert(rb[y - 1] == w);
            }
            if rb.contains(w) {
                let y = choose|y: int| 0 <= y < rb.len() && rb[y] == w;
                assert(b[y + 1] == w);
                lemma_sorted_distinct(b, 0, y + 1);
                assert(b.contains(w));
                assert(a.contains(w));
                let x = choose|x: int| 0 <= x < a.len() && a[x] == w;
                assert(ra[x - 1] == w);
            }
        }
        lemma_sorted_determined(ra, rb);
        assert(a =~= seq![a[0]] + ra);
        assert(b =~= seq![b[0]] + rb);
    }
}

} // verus!
