//! Reshaping delimited text: one item per line, or a vector of values.
//!
//! Every function here takes the text itself. A fragment that is empty
//! is never an item. A fragment that does not write a value is left out
//! of a vector of values; a line that does not write one is kept as
//! `None`, so that the vector has one entry for each line.

use crate::parse::FromText;
use crate::split::{lemma_split_len, split, split_chars, starts_with};
use crate::text::{chars_of, rows, string_of, texts};
use vstd::prelude::*;

verus! {

/// The fragments that are not empty, in their order.
pub open spec fn nonempty(frags: Seq<Seq<char>>) -> Seq<Seq<char>> {
    frags.filter(|f: Seq<char>| f.len() > 0)
}

/// The text that holds each item on a line of its own.
pub open spec fn join_lines(items: Seq<Seq<char>>) -> Seq<char>
    decreases items.len(),
{
    if items.len() == 0 {
        Seq::empty()
    } else {
        items.first() + seq!['\n'] + join_lines(items.drop_first())
    }
}

/// The values of the fragments that write one, in their order.
pub open spec fn values<T: FromText>(frags: Seq<Seq<char>>) -> Seq<T> {
    frags.filter_map(|f: Seq<char>| T::text_value(f))
}

/// For each line its value, or `None` where it writes none.
pub open spec fn marked<T: FromText>(lines: Seq<Seq<char>>) -> Seq<Option<T>> {
    Seq::new(lines.len(), |i: int| T::text_value(lines[i]))
}

/// A line without the carriage return that stood before its line feed.
pub open spec fn strip_cr(line: Seq<char>) -> Seq<char> {
    if line.len() > 0 && line.last() == '\r' {
        line.drop_last()
    } else {
        line
    }
}

/// The lines of a text. A line ends with a line feed, or with a carriage
/// return and a line feed; neither belongs to the line. What follows the
/// last line feed is a line too, as it stands, unless it is empty.
pub open spec fn lines(s: Seq<char>) -> Seq<Seq<char>> {
    let pieces = split(s, seq!['\n']);
    let ended = Seq::new((pieces.len() - 1) as nat, |i: int| strip_cr(pieces[i]));
    if pieces.last().len() > 0 {
        ended.push(pieces.last())
    } else {
        ended
    }
}

/// A fragment added at the end is an item exactly when it is not empty.
pub proof fn lemma_nonempty_push(frags: Seq<Seq<char>>, f: Seq<char>)
    ensures
        nonempty(frags.push(f)) == if f.len() > 0 {
            nonempty(frags).push(f)
        } else {
            nonempty(frags)
        },
{
    reveal(Seq::filter);
    assert(frags.push(f).drop_last() =~= frags);
}

/// A fragment added at the end adds its value, if it writes one.
pub proof fn lemma_values_push<T: FromText>(frags: Seq<Seq<char>>, f: Seq<char>)
    ensures
        values::<T>(frags.push(f)) == match T::text_value(f) {
            Some(v) => values::<T>(frags).push(v),
            None => values::<T>(frags),
        },
{
    assert(frags.push(f).drop_last() =~= frags);
    match T::text_value(f) {
        Some(v) => {
            assert(values::<T>(frags) + seq![v] =~= values::<T>(frags).push(v));
        },
        None => {},
    }
}

/// An item added at the end adds its line at the end of the text.
pub proof fn lemma_join_lines_push(items: Seq<Seq<char>>, item: Seq<char>)
    ensures
        join_lines(items.push(item)) == join_lines(items) + item + seq!['\n'],
    decreases items.len(),
{
    let all = items.push(item);
    if items.len() == 0 {
        let none = Seq::<char>::empty();
        assert(all.drop_first() =~= items);
        assert(all.first() == item);
        assert(join_lines(items) == none);
        assert(join_lines(all.drop_first()) == none);
        assert(join_lines(all) == item + seq!['\n'] + none);
        assert(item + seq!['\n'] + none =~= item + seq!['\n']);
        assert(join_lines(items) + item + seq!['\n'] =~= item + seq!['\n']);
    } else {
        assert(all.drop_first() =~= items.drop_first().push(item));
        lemma_join_lines_push(items.drop_first(), item);
        assert(join_lines(all) =~= join_lines(items) + item + seq!['\n']);
    }
}

/// Whether `item` holds no line feed, so that it fills one line.
pub open spec fn one_line(item: Seq<char>) -> bool {
    forall|j: int| 0 <= j < item.len() ==> item[j] != '\n'
}

/// No item is empty.
pub proof fn lemma_nonempty_items(frags: Seq<Seq<char>>)
    ensures
        forall|i: int| 0 <= i < nonempty(frags).len() ==> (#[trigger] nonempty(frags)[i]).len() > 0,
    decreases frags.len(),
{
    if frags.len() == 0 {
        reveal(Seq::filter);
    } else {
        lemma_nonempty_items(frags.drop_last());
        lemma_nonempty_push(frags.drop_last(), frags.last());
        assert(frags.drop_last().push(frags.last()) =~= frags);
    }
}

/// A fragment put in front is an item exactly when it is not empty.
pub proof fn lemma_nonempty_prepend(f: Seq<char>, frags: Seq<Seq<char>>)
    ensures
        nonempty(seq![f] + frags) == if f.len() > 0 {
            seq![f] + nonempty(frags)
        } else {
            nonempty(frags)
        },
    decreases frags.len(),
{
    let none = Seq::<Seq<char>>::empty();
    if frags.len() == 0 {
        assert(nonempty(none) =~= none) by {
            reveal(Seq::filter);
        }
        assert(frags =~= none);
        assert(seq![f] + frags =~= none.push(f));
        lemma_nonempty_push(none, f);
        assert(none.push(f) =~= seq![f] + none);
    } else {
        let init = frags.drop_last();
        lemma_nonempty_prepend(f, init);
        assert(seq![f] + frags =~= (seq![f] + init).push(frags.last()));
        assert(init.push(frags.last()) =~= frags);
        lemma_nonempty_push(seq![f] + init, frags.last());
        lemma_nonempty_push(init, frags.last());
        if f.len() > 0 && frags.last().len() > 0 {
            assert((seq![f] + nonempty(init)).push(frags.last()) =~= seq![f] + nonempty(
                init,
            ).push(frags.last()));
        }
    }
}

/// A text that begins with a line is split into that line and the
/// fragments of what follows its line feed.
pub proof fn lemma_split_line(line: Seq<char>, rest: Seq<char>)
    requires
        one_line(line),
    ensures
        split(line + seq!['\n'] + rest, seq!['\n']) == seq![line] + split(rest, seq!['\n']),
    decreases line.len(),
{
    let feed = seq!['\n'];
    let s = line + feed + rest;
    if line.len() == 0 {
        assert(s.subrange(0, 1) =~= feed);
        assert(s.skip(1) =~= rest);
        assert(line =~= Seq::<char>::empty());
    } else {
        assert(s[0] == line[0]);
        assert(s.subrange(0, 1)[0] == s[0]);
        assert(!starts_with(s, feed));
        assert(s.skip(1) =~= line.skip(1) + feed + rest);
        lemma_split_line(line.skip(1), rest);
        let after = split(s.skip(1), feed);
        assert(after.first() == line.skip(1));
        assert(after.drop_first() =~= split(rest, feed));
        assert(seq![s[0]] + line.skip(1) =~= line);
    }
}

/// Items that each fill one line are found again in the text that holds
/// them one per line: splitting that text at its line feeds and leaving
/// out what is empty gives the same items.
pub proof fn lemma_lines_round_trip(items: Seq<Seq<char>>)
    requires
        forall|i: int| 0 <= i < items.len() ==> (#[trigger] items[i]).len() > 0 && one_line(items[i]),
    ensures
        nonempty(split(join_lines(items), seq!['\n'])) == items,
    decreases items.len(),
{
    let feed = seq!['\n'];
    let blank = Seq::<char>::empty();
    if items.len() == 0 {
        assert(split(join_lines(items), feed) =~= seq![blank]);
        lemma_nonempty_prepend(blank, Seq::empty());
        assert(seq![blank] + Seq::<Seq<char>>::empty() =~= seq![blank]);
        assert(nonempty(Seq::<Seq<char>>::empty()) =~= items) by {
            reveal(Seq::filter);
        }
    } else {
        let tail = items.drop_first();
        assert forall|i: int| 0 <= i < tail.len() implies (#[trigger] tail[i]).len() > 0
            && one_line(tail[i]) by {
            assert(tail[i] == items[i + 1]);
        }
        lemma_lines_round_trip(tail);
        lemma_split_line(items.first(), join_lines(tail));
        lemma_nonempty_prepend(items.first(), split(join_lines(tail), feed));
        assert(seq![items.first()] + tail =~= items);
    }
}

/// The text that holds the items of `s` one per line gives the same
/// items when it is split at its line feeds, provided that no item
/// holds a line feed itself.
pub proof fn lemma_listify_round_trip(s: Seq<char>, d: Seq<char>)
    requires
        forall|i: int|
            0 <= i < nonempty(split(s, d)).len() ==> one_line(#[trigger] nonempty(split(s, d))[i]),
    ensures
        nonempty(split(join_lines(nonempty(split(s, d))), seq!['\n'])) == nonempty(split(s, d)),
{
    lemma_nonempty_items(split(s, d));
    lemma_lines_round_trip(nonempty(split(s, d)));
}

/// The text that holds one-line items one per line is split at its line
/// feeds into those items, and an empty fragment after the last feed.
pub proof fn lemma_split_join_lines(items: Seq<Seq<char>>)
    requires
        forall|i: int| 0 <= i < items.len() ==> one_line(#[trigger] items[i]),
    ensures
        split(join_lines(items), seq!['\n']) == items.push(Seq::empty()),
    decreases items.len(),
{
    let feed = seq!['\n'];
    let blank = Seq::<char>::empty();
    if items.len() == 0 {
        assert(split(join_lines(items), feed) =~= seq![blank]);
        assert(items.push(blank) =~= seq![blank]);
    } else {
        let tail = items.drop_first();
        assert forall|i: int| 0 <= i < tail.len() implies one_line(#[trigger] tail[i]) by {
            assert(tail[i] == items[i + 1]);
        }
        lemma_split_join_lines(tail);
        lemma_split_line(items.first(), join_lines(tail));
        assert(seq![items.first()] + tail.push(blank) =~= items.push(blank));
    }
}

/// Reading the text that holds one-line items one per line, line by
/// line, gives one line for each item: the item itself, without the
/// carriage return at its end if it has one there.
pub proof fn lemma_lines_of_join_lines(items: Seq<Seq<char>>)
    requires
        forall|i: int| 0 <= i < items.len() ==> one_line(#[trigger] items[i]),
    ensures
        lines(join_lines(items)) == Seq::new(items.len(), |i: int| strip_cr(items[i])),
{
    lemma_split_join_lines(items);
    let pieces = items.push(Seq::empty());
    assert(pieces.last().len() == 0);
    assert(lines(join_lines(items)) =~= Seq::new(items.len(), |i: int| strip_cr(items[i])));
}

/// Adds the characters of `more` at the end of `out`.
pub fn append_chars(out: &mut Vec<char>, more: &[char])
    ensures
        final(out)@ == old(out)@ + more@,
{
    let mut i: usize = 0;
    while i < more.len()
        invariant
            i <= more.len(),
            out@ == old(out)@ + more@.take(i as int),
        decreases more.len() - i,
    {
        out.push(more[i]);
        i += 1;
        assert(old(out)@ + more@.take(i as int) =~= (old(out)@ + more@.take(i - 1)).push(
            more@[i - 1],
        ));
    }
    assert(more@.take(i as int) =~= more@);
}

/// The first `n` characters of `row`.
pub fn prefix_of(row: &[char], n: usize) -> (out: Vec<char>)
    requires
        n <= row.len(),
    ensures
        out@ == row@.take(n as int),
{
    let mut out: Vec<char> = Vec::new();
    let mut i: usize = 0;
    while i < n
        invariant
            i <= n <= row.len(),
            out@ == row@.take(i as int),
        decreases n - i,
    {
        out.push(row[i]);
        i += 1;
        assert(row@.take(i as int) =~= row@.take(i - 1).push(row@[i - 1]));
    }
    out
}

/// Each row as a string.
pub fn strings_of(items: &Vec<Vec<char>>) -> (out: Vec<String>)
    ensures
        texts(out@) == rows(items@),
{
    let mut out: Vec<String> = Vec::new();
    let mut i: usize = 0;
    while i < items.len()
        invariant
            i <= items.len(),
            out.len() == i,
            forall|k: int| 0 <= k < i ==> (#[trigger] out@[k])@ == items@[k]@,
        decreases items.len() - i,
    {
        out.push(string_of(items[i].as_slice()));
        i += 1;
    }
    assert(texts(out@) =~= rows(items@));
    out
}

/// The rows that are not empty, as strings.
pub fn items_of(frags: &Vec<Vec<char>>) -> (out: Vec<String>)
    ensures
        texts(out@) == nonempty(rows(frags@)),
{
    let ghost all = rows(frags@);
    let mut out: Vec<String> = Vec::new();
    let mut i: usize = 0;
    proof {
        reveal(Seq::filter);
        assert(texts(out@) =~= nonempty(all.take(0)));
    }
    while i < frags.len()
        invariant
            i <= frags.len(),
            all == rows(frags@),
            texts(out@) == nonempty(all.take(i as int)),
        decreases frags.len() - i,
    {
        proof {
            assert(all.take(i + 1) =~= all.take(i as int).push(frags@[i as int]@));
            lemma_nonempty_push(all.take(i as int), frags@[i as int]@);
        }
        if frags[i].len() > 0 {
            let item = string_of(frags[i].as_slice());
            assert(texts(out@.push(item)) =~= texts(out@).push(item@));
            out.push(item);
        }
        i += 1;
    }
    assert(all.take(i as int) =~= all);
    out
}

/// The text that holds each row that is not empty on a line of its own.
pub fn lines_of(frags: &Vec<Vec<char>>) -> (out: Vec<char>)
    ensures
        out@ == join_lines(nonempty(rows(frags@))),
{
    let ghost all = rows(frags@);
    let mut out: Vec<char> = Vec::new();
    let mut i: usize = 0;
    proof {
        reveal(Seq::filter);
        assert(nonempty(all.take(0)) =~= Seq::<Seq<char>>::empty());
    }
    while i < frags.len()
        invariant
            i <= frags.len(),
            all == rows(frags@),
            out@ == join_lines(nonempty(all.take(i as int))),
        decreases frags.len() - i,
    {
        proof {
            assert(all.take(i + 1) =~= all.take(i as int).push(frags@[i as int]@));
            lemma_nonempty_push(all.take(i as int), frags@[i as int]@);
            lemma_join_lines_push(nonempty(all.take(i as int)), frags@[i as int]@);
        }
        if frags[i].len() > 0 {
            append_chars(&mut out, frags[i].as_slice());
            out.push('\n');
        }
        i += 1;
    }
    assert(all.take(i as int) =~= all);
    out
}

/// The values of the rows that write one.
pub fn values_of<T: FromText>(frags: &Vec<Vec<char>>) -> (out: Vec<T>)
    ensures
        out@ == values::<T>(rows(frags@)),
{
    let ghost all = rows(frags@);
    let mut out: Vec<T> = Vec::new();
    let mut i: usize = 0;
    assert(all.take(0) =~= Seq::<Seq<char>>::empty());
    while i < frags.len()
        invariant
            i <= frags.len(),
            all == rows(frags@),
            out@ == values::<T>(all.take(i as int)),
        decreases frags.len() - i,
    {
        proof {
            assert(all.take(i + 1) =~= all.take(i as int).push(frags@[i as int]@));
            lemma_values_push::<T>(all.take(i as int), frags@[i as int]@);
        }
        match T::from_text(frags[i].as_slice()) {
            Some(v) => {
                out.push(v);
            },
            None => {},
        }
        i += 1;
    }
    assert(all.take(i as int) =~= all);
    out
}

/// The lines of `s`.
pub fn lines_chars(s: &[char]) -> (out: Vec<Vec<char>>)
    ensures
        rows(out@) == lines(s@),
{
    let mut feed: Vec<char> = Vec::new();
    feed.push('\n');
    assert(feed@ =~= seq!['\n']);
    let pieces = split_chars(s, feed.as_slice());
    proof {
        lemma_split_len(s@, feed@);
    }
    let ghost all = rows(pieces@);
    let last: usize = pieces.len() - 1;
    let mut out: Vec<Vec<char>> = Vec::new();
    let mut i: usize = 0;
    while i < last
        invariant
            i <= last,
            last == pieces.len() - 1,
            out.len() == i,
            forall|k: int| 0 <= k < i ==> (#[trigger] out@[k])@ == strip_cr(pieces@[k]@),
        decreases last - i,
    {
        let piece = &pieces[i];
        let n: usize = piece.len();
        let keep: usize = if n > 0 && piece[n - 1] == '\r' {
            n - 1
        } else {
            n
        };
        let line = prefix_of(piece.as_slice(), keep);
        assert(line@ =~= strip_cr(piece@));
        out.push(line);
        i += 1;
    }
    if pieces[last].len() > 0 {
        let line = prefix_of(pieces[last].as_slice(), pieces[last].len());
        assert(line@ =~= pieces@[last as int]@);
        out.push(line);
    }
    assert(rows(out@) =~= lines(s@));
    out
}

/// All fragments of `contents` between the occurrences of `delimiter`,
/// the empty ones too.
pub fn split_text(contents: &str, delimiter: &str) -> (out: Vec<String>)
    ensures
        texts(out@) == split(contents@, delimiter@),
{
    let text = chars_of(contents);
    let mark = chars_of(delimiter);
    let frags = split_chars(text.as_slice(), mark.as_slice());
    strings_of(&frags)
}

/// The items of `contents`: its fragments between the occurrences of
/// `delimiter`, without the empty ones.
pub fn listify_items(contents: &str, delimiter: &str) -> (out: Vec<String>)
    ensures
        texts(out@) == nonempty(split(contents@, delimiter@)),
{
    let text = chars_of(contents);
    let mark = chars_of(delimiter);
    let frags = split_chars(text.as_slice(), mark.as_slice());
    items_of(&frags)
}

/// The contents of the file that holds the items of `contents`, one per
/// line and in their order. Empty fragments are left out.
pub fn listify_into_file(contents: &str, delimiter: &str) -> (out: String)
    ensures
        out@ == join_lines(nonempty(split(contents@, delimiter@))),
{
    let text = chars_of(contents);
    let mark = chars_of(delimiter);
    let frags = split_chars(text.as_slice(), mark.as_slice());
    let listed = lines_of(&frags);
    string_of(listed.as_slice())
}

/// The values that the fragments of `contents` write, in their order.
/// A fragment that writes no value is left out.
pub fn listify_into_vec<T: FromText>(contents: &str, delimiter: &str) -> (out: Vec<T>)
    ensures
        out@ == values::<T>(split(contents@, delimiter@)),
{
    let text = chars_of(contents);
    let mark = chars_of(delimiter);
    let frags = split_chars(text.as_slice(), mark.as_slice());
    values_of::<T>(&frags)
}

/// The lines of `contents` as strings.
pub fn text_lines(contents: &str) -> (out: Vec<String>)
    ensures
        texts(out@) == lines(contents@),
{
    let text = chars_of(contents);
    let found = lines_chars(text.as_slice());
    strings_of(&found)
}

/// For each line of `contents` the value that it writes, or `None`
/// where it writes none: one entry for each line.
pub fn listify_lines<T: FromText>(contents: &str) -> (out: Vec<Option<T>>)
    ensures
        out@ == marked::<T>(lines(contents@)),
{
    let text = chars_of(contents);
    let found = lines_chars(text.as_slice());
    let mut out: Vec<Option<T>> = Vec::new();
    let mut i: usize = 0;
    while i < found.len()
        invariant
            i <= found.len(),
            out.len() == i,
            rows(found@) == lines(contents@),
            forall|k: int| 0 <= k < i ==> #[trigger] out@[k] == T::text_value(found@[k]@),
        decreases found.len() - i,
    {
        out.push(T::from_text(found[i].as_slice()));
        i += 1;
    }
    assert(out@ =~= marked::<T>(rows(found@)));
    out
}

} // verus!
