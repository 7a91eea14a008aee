//! Text as sequences of characters: conversion from strings, white space,
//! the splitting of a line into its fields, the reading of items one by one,
//! and dictionary order.

use crate::order::{
    dedup, equality, in_order, is_total, is_transitive, lemma_deduped_views, lemma_sorted_unique,
    lemma_stable_sorted_views, likeness, ranking, sort_stable, sorted_unique, Alike, Ranked,
};
use vstd::prelude::*;
use vstd::std_specs::iter::IteratorSpec;

verus! {

/// The characters of a string, in order.
pub fn chars_of(s: &str) -> (v: Vec<char>)
    ensures
        v@ == s@,
{
    let mut v: Vec<char> = Vec::new();
    for c in it: s.chars()
        invariant
            v@ == it.seq().take(it.index() as int),
            it.seq() == s@,
    {
        v.push(c);
    }
    v
}

/// White space as Unicode defines it (the property `White_Space`).
pub open spec fn is_space(c: char) -> bool {
    let u = c as u32;
    ||| 0x0009 <= u <= 0x000d
    ||| u == 0x0020
    ||| u == 0x0085
    ||| u == 0x00a0
    ||| u == 0x1680
    ||| 0x2000 <= u <= 0x200a
    ||| u == 0x2028
    ||| u == 0x2029
    ||| u == 0x202f
    ||| u == 0x205f
    ||| u == 0x3000
}

/// Whether a character is white space.
pub fn is_whitespace(c: char) -> (r: bool)
    ensures
        r == is_space(c),
{
    let u: u32 = c as u32;
    (0x0009 <= u && u <= 0x000d) || u == 0x0020 || u == 0x0085 || u == 0x00a0 || u == 0x1680 || (
    0x2000 <= u && u <= 0x200a) || u == 0x2028 || u == 0x2029 || u == 0x202f || u == 0x205f || u
        == 0x3000
}

/// The fields of a line: its maximal runs of characters that are not white
/// space, in order. Stated by the last character: a space ends whatever came
/// before it, any other character extends the field that the one before it
/// belongs to, or starts a new field.
pub open spec fn fields(s: Seq<char>) -> Seq<Seq<char>>
    decreases s.len(),
{
    if s.len() == 0 {
        Seq::empty()
    } else {
        let before = fields(s.drop_last());
        if is_space(s.last()) {
            before
        } else if s.len() >= 2 && !is_space(s[s.len() - 2]) {
            before.drop_last().push(before.last().push(s.last()))
        } else {
            before.push(seq![s.last()])
        }
    }
}

/// The character sequences that a vector of words holds.
pub open spec fn word_views(words: Seq<Vec<char>>) -> Seq<Seq<char>> {
    Seq::new(words.len(), |i: int| words[i]@)
}

/// The parts of a line that a vector of ranges marks.
pub open spec fn range_views(line: Seq<char>, ranges: Seq<(usize, usize)>) -> Seq<Seq<char>> {
    Seq::new(ranges.len(), |k: int| line.subrange(ranges[k].0 as int, ranges[k].1 as int))
}

/// Finds the fields of a line: for each field, where it starts and where it
/// ends.
pub fn field_ranges(line: &Vec<char>) -> (out: Vec<(usize, usize)>)
    ensures
        range_views(line@, out@) == fields(line@),
        forall|k: int| 0 <= k < out@.len() ==> (#[trigger] out@[k]).0 <= out@[k].1 <= line@.len(),
{
    let mut out: Vec<(usize, usize)> = Vec::new();
    let mut in_word = false;
    let mut start: usize = 0;
    let mut i: usize = 0;
    assert(line@.take(0) =~= Seq::<char>::empty());
    assert(range_views(line@, out@) =~= Seq::<Seq<char>>::empty());
    while i < line.len()
        invariant
            i <= line.len(),
            in_word <==> (i > 0 && !is_space(line@[i - 1])),
            in_word ==> start < i,
            forall|k: int| 0 <= k < out@.len() ==> (#[trigger] out@[k]).0 <= out@[k].1 <= i,
            fields(line@.take(i as int)) == if in_word {
                range_views(line@, out@).push(line@.subrange(start as int, i as int))
            } else {
                range_views(line@, out@)
            },
        decreases line.len() - i,
    {
        let c = line[i];
        let ghost prefix = line@.take(i as int);
        let ghost next = line@.take(i + 1);
        let ghost done = range_views(line@, out@);
        let ghost open = line@.subrange(start as int, i as int);
        assert(next.drop_last() =~= prefix);
        assert(next.last() == c);
        if is_whitespace(c) {
            if in_word {
                out.push((start, i));
                in_word = false;
                assert(range_views(line@, out@) =~= done.push(open));
            }
        } else {
            if in_word {
                proof {
                    assert(done.push(open).drop_last() =~= done);
                    assert(done.push(open).last() == open);
                    assert(next[next.len() - 2] == line@[i - 1]);
                    assert(line@.subrange(start as int, i + 1) =~= open.push(c));
                    assert(fields(next) == done.push(open.push(c)));
                }
            } else {
                start = i;
                in_word = true;
                proof {
                    assert(line@.subrange(i as int, i + 1) =~= seq![c]);
                    assert(fields(next) == done.push(seq![c]));
                }
            }
        }
        i += 1;
    }
    assert(line@.take(i as int) =~= line@);
    if in_word {
        let ghost done = range_views(line@, out@);
        out.push((start, i));
        assert(range_views(line@, out@) =~= done.push(line@.subrange(start as int, i as int)));
    }
    out
}

/// Splits a line into its fields.
pub fn split_fields(line: &Vec<char>) -> (out: Vec<Vec<char>>)
    ensures
        word_views(out@) == fields(line@),
{
    let ranges = field_ranges(line);
    let mut out: Vec<Vec<char>> = Vec::new();
    let mut k: usize = 0;
    while k < ranges.len()
        invariant
            k <= ranges.len(),
            out@.len() == k,
            forall|j: int| 0 <= j < ranges@.len() ==> (#[trigger] ranges@[j]).0 <= ranges@[j].1
                <= line@.len(),
            forall|j: int| 0 <= j < k ==> (#[trigger] out@[j])@ == range_views(line@, ranges@)[j],
        decreases ranges.len() - k,
    {
        let (a, b) = ranges[k];
        assert(ranges@[k as int].0 <= ranges@[k as int].1 <= line@.len());
        out.push(copy_range(line, a, b));
        k += 1;
    }
    assert(word_views(out@) =~= range_views(line@, ranges@));
    out
}

/// Where `c` first occurs in `s` at or after `from`; the length of `s` if it
/// does not occur there.
pub open spec fn first_index_from(s: Seq<char>, c: char, from: int) -> int
    recommends
        0 <= from,
    decreases s.len() - from,
{
    if from >= s.len() {
        s.len() as int
    } else if s[from] == c {
        from
    } else {
        first_index_from(s, c, from + 1)
    }
}

/// Finds the first `c` in `s` at or after `from`.
pub fn find_char(s: &Vec<char>, c: char, from: usize) -> (r: usize)
    requires
        from <= s.len(),
    ensures
        r == first_index_from(s@, c, from as int),
        from <= r <= s.len(),
        r < s.len() ==> s@[r as int] == c,
        forall|j: int| from <= j < r ==> s@[j] != c,
{
    let mut i: usize = from;
    while i < s.len() && s[i] != c
        invariant
            from <= i <= s.len(),
            first_index_from(s@, c, from as int) == first_index_from(s@, c, i as int),
            forall|j: int| from <= j < i ==> s@[j] != c,
        decreases s.len() - i,
    {
        i += 1;
    }
    i
}

/// A copy of the characters of `s` from `from` up to `to`.
pub fn copy_range(s: &Vec<char>, from: usize, to: usize) -> (r: Vec<char>)
    requires
        from <= to <= s.len(),
    ensures
        r@ == s@.subrange(from as int, to as int),
{
    let mut r: Vec<char> = Vec::new();
    let mut i: usize = from;
    while i < to
        invariant
            from <= i <= to <= s.len(),
            r@ == s@.subrange(from as int, i as int),
        decreases to - i,
    {
        r.push(s[i]);
        assert(s@.subrange(from as int, i + 1) =~= s@.subrange(from as int, i as int).push(
            s@[i as int],
        ));
        i += 1;
    }
    r
}

/// The character sequences of a vector of lines.
pub open spec fn line_views(lines: Seq<String>) -> Seq<Seq<char>> {
    Seq::new(lines.len(), |i: int| lines[i]@)
}

/// What an item-by-item reading keeps: the values of the items that `parse`
/// accepts, in the order of the items. An item it rejects leaves no trace.
pub open spec fn parsed_items<A, T>(items: Seq<A>, parse: spec_fn(A) -> Option<T>) -> Seq<T>
    decreases items.len(),
{
    if items.len() == 0 {
        Seq::empty()
    } else {
        let before = parsed_items(items.drop_last(), parse);
        match parse(items.last()) {
            Some(v) => before.push(v),
            None => before,
        }
    }
}

/// Reading two runs of items one after the other gives what each gives,
/// joined.
pub proof fn lemma_parsed_items_concat<A, T>(a: Seq<A>, b: Seq<A>, parse: spec_fn(A) -> Option<T>)
    ensures
        parsed_items(a + b, parse) == parsed_items(a, parse) + parsed_items(b, parse),
    decreases b.len(),
{
    if b.len() == 0 {
        assert(a + b =~= a);
        assert(parsed_items(a, parse) + parsed_items(b, parse) =~= parsed_items(a, parse));
    } else {
        assert((a + b).drop_last() =~= a + b.drop_last());
        assert((a + b).last() == b.last());
        lemma_parsed_items_concat(a, b.drop_last(), parse);
        let pa = parsed_items(a, parse);
        let pb = parsed_items(b.drop_last(), parse);
        match parse(b.last()) {
            Some(v) => {
                assert((pa + pb).push(v) =~= pa + pb.push(v));
            },
            None => {},
        }
    }
}

/// An item that `parse` rejects is skipped: the items before it and the
/// items after it are read as if it were not there.
pub proof fn lemma_rejected_item_skipped<A, T>(
    before: Seq<A>,
    item: A,
    after: Seq<A>,
    parse: spec_fn(A) -> Option<T>,
)
    requires
        parse(item) is None,
    ensures
        parsed_items(before.push(item) + after, parse) == parsed_items(before + after, parse),
{
    lemma_parsed_items_concat(before.push(item), after, parse);
    lemma_parsed_items_concat(before, after, parse);
    assert(before.push(item).drop_last() =~= before);
}

/// Dictionary order from position `i` on: at the first position where two
/// texts differ the one with the smaller character comes first, and a text
/// comes before every text that it begins.
pub open spec fn lex_le_from(a: Seq<char>, b: Seq<char>, i: int) -> bool
    recommends
        0 <= i,
    decreases a.len() - i,
{
    if i >= a.len() {
        true
    } else if i >= b.len() {
        false
    } else if a[i] != b[i] {
        (a[i] as int) < (b[i] as int)
    } else {
        lex_le_from(a, b, i + 1)
    }
}

/// `a` comes no later than `b` in dictionary order, characters compared by
/// code point.
pub open spec fn lex_le(a: Seq<char>, b: Seq<char>) -> bool {
    lex_le_from(a, b, 0)
}

/// Of two texts one comes no later than the other.
pub proof fn lemma_lex_total(a: Seq<char>, b: Seq<char>, i: int)
    requires
        0 <= i,
    ensures
        lex_le_from(a, b, i) || lex_le_from(b, a, i),
    decreases a.len() - i,
{
    if i < a.len() && i < b.len() {
        if a[i] == b[i] {
            lemma_lex_total(a, b, i + 1);
        }
    }
}

/// Dictionary order is transitive.
pub proof fn lemma_lex_transitive(a: Seq<char>, b: Seq<char>, c: Seq<char>, i: int)
    requires
        0 <= i,
        lex_le_from(a, b, i),
        lex_le_from(b, c, i),
    ensures
        lex_le_from(a, c, i),
    decreases a.len() - i,
{
    if i < a.len() && i < b.len() && i < c.len() && a[i] == b[i] && b[i] == c[i] {
        lemma_lex_transitive(a, b, c, i + 1);
    }
}

/// Two texts that each come no later than the other are the same text.
pub proof fn lemma_lex_antisymmetric(a: Seq<char>, b: Seq<char>, i: int)
    requires
        0 <= i <= a.len(),
        i <= b.len(),
        lex_le_from(a, b, i),
        lex_le_from(b, a, i),
    ensures
        a.skip(i) == b.skip(i),
    decreases a.len() - i,
{
    if i < a.len() {
        lemma_lex_antisymmetric(a, b, i + 1);
        assert(a.skip(i) =~= seq![a[i]] + a.skip(i + 1));
        assert(b.skip(i) =~= seq![b[i]] + b.skip(i + 1));
    } else {
        assert(a.skip(i) =~= b.skip(i));
    }
}

/// The code point of a character.
pub fn code_point(c: char) -> (u: u32)
    ensures
        u as int == c as int,
{
    c as u32
}

/// Whether `a` comes no later than `b` in dictionary order.
pub fn text_le(a: &str, b: &str) -> (r: bool)
    ensures
        r == lex_le(a@, b@),
{
    let x = chars_of(a);
    let y = chars_of(b);
    let mut i: usize = 0;
    while i < x.len() && i < y.len() && x[i] == y[i]
        invariant
            i <= x.len(),
            i <= y.len(),
            lex_le(x@, y@) == lex_le_from(x@, y@, i as int),
        decreases x.len() - i,
    {
        i += 1;
    }
    if i >= x.len() {
        true
    } else if i >= y.len() {
        false
    } else {
        code_point(x[i]) < code_point(y[i])
    }
}

impl Ranked for String {
    open spec fn precedes(&self, other: &Self) -> bool {
        lex_le(self@, other@)
    }

    fn comes_no_later(&self, other: &Self) -> (b: bool) {
        text_le(self.as_str(), other.as_str())
    }
}

impl Alike for String {
    open spec fn alike(&self, other: &Self) -> bool {
        self@ == other@
    }

    fn is_alike(&self, other: &Self) -> (b: bool) {
        *self == *other
    }
}

/// The character sequences of a vector of texts.
pub open spec fn text_views(texts: Seq<String>) -> Seq<Seq<char>> {
    texts.map_values(|t: String| t@)
}

/// Dictionary order, as a relation.
pub open spec fn in_dictionary_order() -> spec_fn(Seq<char>, Seq<char>) -> bool {
    |a: Seq<char>, b: Seq<char>| lex_le(a, b)
}

/// Being the same text, as a relation.
pub open spec fn same_text() -> spec_fn(Seq<char>, Seq<char>) -> bool {
    equality::<Seq<char>>()
}

/// Texts in dictionary order, each once.
pub open spec fn sorted_unique_texts(texts: Seq<Seq<char>>) -> Seq<Seq<char>> {
    sorted_unique(texts, in_dictionary_order(), same_text())
}

/// Puts texts in dictionary order and drops the repeats.
pub fn sort_dedup_texts(texts: Vec<String>) -> (out: Vec<String>)
    ensures
        text_views(out@) == sorted_unique_texts(text_views(texts@)),
{
    let sorted = sort_stable(texts);
    proof {
        lemma_stable_sorted_views(
            texts@,
            |t: String| t@,
            ranking::<String>(),
            in_dictionary_order(),
        );
        lemma_deduped_views(sorted@, |t: String| t@, likeness::<String>(), same_text());
    }
    dedup(sorted)
}

/// Texts that were put in dictionary order and freed of repeats are in
/// dictionary order, and no text occurs twice among them.
pub proof fn lemma_sorted_unique_texts(texts: Seq<Seq<char>>)
    ensures
        in_order(sorted_unique_texts(texts), in_dictionary_order()),
        sorted_unique_texts(texts).no_duplicates(),
{
    let le = in_dictionary_order();
    let out = sorted_unique_texts(texts);
    assert(is_total(le)) by {
        assert forall|a: Seq<char>, b: Seq<char>| #[trigger] le(a, b) || #[trigger] le(b, a) by {
            lemma_lex_total(a, b, 0);
        }
    }
    assert(is_transitive(le)) by {
        assert forall|a: Seq<char>, b: Seq<char>, c: Seq<char>| #[trigger]
            le(a, b) && #[trigger] le(b, c) implies le(a, c) by {
            lemma_lex_transitive(a, b, c, 0);
        }
    }
    assert forall|a: Seq<char>, b: Seq<char>| #[trigger]
        same_text()(a, b) <==> le(a, b) && le(b, a) by {
        lemma_lex_total(a, a, 0);
        if le(a, b) && le(b, a) {
            lemma_lex_antisymmetric(a, b, 0);
            assert(a.skip(0) =~= a);
            assert(b.skip(0) =~= b);
        }
    }
    lemma_sorted_unique(texts, le, same_text());
    assert forall|i: int, j: int|
        0 <= i < out.len() && 0 <= j < out.len() && i != j implies out[i] != out[j] by {
        if i < j {
            assert(!same_text()(out[i], out[j]));
        } else {
            assert(!same_text()(out[j], out[i]));
        }
    }
}

/// Whether two vectors hold the same characters.
pub fn same_chars(a: &Vec<char>, b: &Vec<char>) -> (r: bool)
    ensures
        r == (a@ == b@),
{
    if a.len() != b.len() {
        return false;
    }
    let mut i: usize = 0;
    while i < a.len()
        invariant
            i <= a.len(),
            a.len() == b.len(),
            forall|j: int| 0 <= j < i ==> a@[j] == b@[j],
        decreases a.len() - i,
    {
        if a[i] != b[i] {
            return false;
        }
        i += 1;
    }
    assert(a@ =~= b@);
    true
}

/// Whether two texts are the same.
pub fn text_eq(a: &str, b: &str) -> (r: bool)
    ensures
        r == (a@ == b@),
{
    let x = chars_of(a);
    let y = chars_of(b);
    same_chars(&x, &y)
}

} // verus!
