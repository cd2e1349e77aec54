//! Text as sequences of characters: conversion between `&str` and indexable
//! character vectors, and extraction of substrings by character position.

use vstd::prelude::*;
use vstd::string::*;

verus! {

/// The characters of `s`, in order, as a vector that can be indexed in
/// constant time.
pub fn chars_of(s: &str) -> (v: Vec<char>)
    ensures
        v@ == s@,
{
    let mut v: Vec<char> = Vec::new();
    for c in it: s.chars()
        invariant
            v@ == it.history(),
            it.seq() == s@,
    {
        v.push(c);
    }
    v
}

/// The characters of `s` from position `from` up to, not including, `to`, as
/// an owned string.
pub fn substring(s: &str, from: usize, to: usize) -> (r: String)
    requires
        from <= to <= s@.len(),
    ensures
        r@ == s@.subrange(from as int, to as int),
{
    s.substring_char(from, to).to_owned()
}

/// Whether two strings hold the same characters.
pub fn same_text(a: &String, b: &String) -> (r: bool)
    ensures
        r == (a@ == b@),
{
    *a == *b
}

/// `sep` stands in `s` at position `i`.
pub open spec fn occurs_at(s: Seq<char>, sep: Seq<char>, i: int) -> bool {
    0 <= i && i + sep.len() <= s.len() && s.subrange(i, i + sep.len()) == sep
}

/// The least position at or after `from` at which `sep` stands in `s`, or the
/// length of `s` where there is none.
pub open spec fn first_occurrence(s: Seq<char>, sep: Seq<char>, from: int) -> int
    decreases s.len() - from,
{
    if from < 0 || from >= s.len() {
        s.len() as int
    } else if occurs_at(s, sep, from) {
        from
    } else {
        first_occurrence(s, sep, from + 1)
    }
}

/// The pieces of `s` from position `from` on that lie between the occurrences
/// of `sep`, each as the pair of its first position and the position after
/// its last. There is one piece more than there are separators.
pub open spec fn split_spans(s: Seq<char>, sep: Seq<char>, from: int) -> Seq<(int, int)>
    decreases s.len() - from,
{
    let i = first_occurrence(s, sep, from);
    if sep.len() == 0 || i < from || i + sep.len() > s.len() {
        seq![(from, s.len() as int)]
    } else {
        seq![(from, i)] + split_spans(s, sep, i + sep.len())
    }
}

/// The text of each span of `spans` in `s`.
pub open spec fn span_texts(s: Seq<char>, spans: Seq<(int, int)>) -> Seq<Seq<char>> {
    Seq::new(spans.len(), |k: int| s.subrange(spans[k].0, spans[k].1))
}

/// The pieces of `s` between the occurrences of `sep`.
pub open spec fn split(s: Seq<char>, sep: Seq<char>) -> Seq<Seq<char>> {
    span_texts(s, split_spans(s, sep, 0))
}

/// Positions as mathematical integers.
pub open spec fn spans_of(v: Seq<(usize, usize)>) -> Seq<(int, int)> {
    Seq::new(v.len(), |k: int| (v[k].0 as int, v[k].1 as int))
}

/// Every span lies inside a text of length `len`, first position before last.
pub open spec fn spans_within(spans: Seq<(int, int)>, len: int) -> bool {
    forall|k: int| 0 <= k < spans.len() ==> 0 <= (#[trigger] spans[k]).0 <= spans[k].1 <= len
}

/// The first occurrence at or after `from` is at or after `from`, inside `s`
/// or at its end, and no occurrence precedes it.
pub proof fn lemma_first_occurrence(s: Seq<char>, sep: Seq<char>, from: int)
    requires
        0 <= from <= s.len(),
    ensures
        from <= first_occurrence(s, sep, from) <= s.len(),
        first_occurrence(s, sep, from) < s.len() ==> occurs_at(
            s,
            sep,
            first_occurrence(s, sep, from),
        ),
        forall|j: int| from <= j < first_occurrence(s, sep, from) ==> !occurs_at(s, sep, j),
    decreases s.len() - from,
{
    if from < s.len() && !occurs_at(s, sep, from) {
        lemma_first_occurrence(s, sep, from + 1);
    }
}

/// Whether `sep` stands in `text` at position `i`.
pub fn is_at(text: &Vec<char>, sep: &Vec<char>, i: usize) -> (b: bool)
    ensures
        b == occurs_at(text@, sep@, i as int),
{
    if sep.len() > text.len() || i > text.len() - sep.len() {
        return false;
    }
    let mut k: usize = 0;
    while k < sep.len()
        invariant
            k <= sep.len(),
            i + sep.len() <= text.len(),
            forall|j: int| 0 <= j < k ==> text@[i + j] == sep@[j],
        decreases sep@.len() - k,
    {
        if text[i + k] != sep[k] {
            assert(text@.subrange(i as int, i + sep@.len())[k as int] == text@[i + k]);
            return false;
        }
        k += 1;
    }
    assert(text@.subrange(i as int, i + sep@.len()) =~= sep@);
    true
}

/// The first position at or after `from` at which `sep` stands in `text`, or
/// the length of `text` where there is none.
pub fn find_from(text: &Vec<char>, sep: &Vec<char>, from: usize) -> (r: usize)
    requires
        from <= text@.len(),
    ensures
        r == first_occurrence(text@, sep@, from as int),
        from <= r <= text@.len(),
{
    let mut i: usize = from;
    while i < text.len()
        invariant
            from <= i <= text@.len(),
            first_occurrence(text@, sep@, from as int) == first_occurrence(text@, sep@, i as int),
        decreases text@.len() - i,
    {
        if is_at(text, sep, i) {
            return i;
        }
        assert(first_occurrence(text@, sep@, i as int) == first_occurrence(
            text@,
            sep@,
            i + 1,
        )) by {
            reveal_with_fuel(first_occurrence, 2);
        }
        i += 1;
    }
    proof {
        lemma_first_occurrence(text@, sep@, i as int);
    }
    i
}

/// Splits `text` at every occurrence of `sep` and returns the span of each
/// piece. An empty separator occurs nowhere: the whole text is the one piece.
pub fn split_at_each(text: &Vec<char>, sep: &Vec<char>) -> (r: Vec<(usize, usize)>)
    ensures
        spans_of(r@) == split_spans(text@, sep@, 0),
        spans_within(spans_of(r@), text@.len() as int),
        r@.len() >= 1,
{
    let mut r: Vec<(usize, usize)> = Vec::new();
    if sep.len() == 0 {
        r.push((0, text.len()));
        assert(spans_of(r@) =~= split_spans(text@, sep@, 0));
        return r;
    }
    let mut start: usize = 0;
    loop
        invariant
            sep@.len() > 0,
            start <= text@.len(),
            split_spans(text@, sep@, 0) == spans_of(r@) + split_spans(text@, sep@, start as int),
            spans_within(spans_of(r@), text@.len() as int),
        decreases text@.len() - start,
    {
        let i = find_from(text, sep, start);
        if i >= text.len() {
            let ghost done = spans_of(r@);
            r.push((start, text.len()));
            proof {
                assert(spans_of(r@) =~= done + split_spans(text@, sep@, start as int));
            }
            return r;
        }
        proof {
            lemma_first_occurrence(text@, sep@, start as int);
        }
        let ghost before = spans_of(r@);
        r.push((start, i));
        proof {
            assert(spans_of(r@) =~= before.push((start as int, i as int)));
            assert(spans_of(r@) + split_spans(text@, sep@, i + sep@.len()) =~= before
                + split_spans(text@, sep@, start as int));
        }
        start = i + sep.len();
    }
}

} // verus!
