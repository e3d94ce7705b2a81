//! From the text of an input list to the raw addresses of a run: one entry
//! to a line, blank lines dropped, each address once.

use crate::text::{lemma_contains_front_or_last, pieces};
use itertools::Itertools;
use vstd::prelude::*;
use vstd::string::*;

verus! {

/// Whether `std`'s `char::is_whitespace` holds of a character, that is
/// whether Unicode classes the character as White_Space.
pub uninterp spec fn is_white_space(c: char) -> bool;

/// For each character of `text`, whether it is white space.
pub open spec fn white_flags(text: Seq<char>) -> Seq<bool> {
    Seq::new(text.len(), |k: int| is_white_space(text[k]))
}

/// How many flags at the front of `white` are set.
pub open spec fn leading_white(white: Seq<bool>) -> nat
    decreases white.len(),
{
    if white.len() > 0 && white[0] {
        1 + leading_white(white.skip(1))
    } else {
        0
    }
}

/// How many flags at the end of `white` are set.
pub open spec fn trailing_white(white: Seq<bool>) -> nat
    decreases white.len(),
{
    if white.len() > 0 && white.last() {
        1 + trailing_white(white.drop_last())
    } else {
        0
    }
}

/// The range that trimming keeps of a text whose characters are white space
/// as `white` says: from the first character that is none up to the last,
/// and an empty range where all are white space.
pub open spec fn kept_range(white: Seq<bool>) -> (int, int) {
    let start = leading_white(white) as int;
    if start == white.len() {
        (start, start)
    } else {
        (start, white.len() - trailing_white(white))
    }
}

/// `text` without the white space at its front and at its end.
pub open spec fn trimmed(text: Seq<char>) -> Seq<char> {
    let (start, end) = kept_range(white_flags(text));
    text.subrange(start, end)
}

/// The entries of `lines`: each line trimmed, the lines that are empty then
/// left out.
pub open spec fn entries(lines: Seq<Seq<char>>) -> Seq<Seq<char>>
    decreases lines.len(),
{
    if lines.len() == 0 {
        Seq::empty()
    } else if trimmed(lines.last()).len() == 0 {
        entries(lines.drop_last())
    } else {
        entries(lines.drop_last()).push(trimmed(lines.last()))
    }
}

/// `items` without the items that occurred before: of equal items the first
/// stays, and what stays keeps its order.
pub open spec fn first_occurrences(items: Seq<Seq<char>>) -> Seq<Seq<char>>
    decreases items.len(),
{
    if items.len() == 0 {
        Seq::empty()
    } else if first_occurrences(items.drop_last()).contains(items.last()) {
        first_occurrences(items.drop_last())
    } else {
        first_occurrences(items.drop_last()).push(items.last())
    }
}

/// The raw addresses that the text of an input list holds.
pub open spec fn url_entries(contents: Seq<char>) -> Seq<Seq<char>> {
    first_occurrences(entries(pieces(contents, '\n')))
}

/// Duplicates collapse: what `first_occurrences` keeps holds every item of
/// `items`, and holds none twice.
pub proof fn lemma_first_occurrences(items: Seq<Seq<char>>)
    ensures
        first_occurrences(items).no_duplicates(),
        first_occurrences(items).to_set() == items.to_set(),
        first_occurrences(items).len() <= items.len(),
    decreases items.len(),
{
    let kept = first_occurrences(items);
    if items.len() == 0 {
        assert(kept.to_set() =~= items.to_set());
    } else {
        let front = items.drop_last();
        let kept_front = first_occurrences(front);
        lemma_first_occurrences(front);
        lemma_contains_front_or_last(items);
        if !kept_front.contains(items.last()) {
            assert(kept.drop_last() =~= kept_front);
            lemma_contains_front_or_last(kept);
        }
        assert forall|item: Seq<char>| kept.contains(item) <==> items.contains(item) by {
            assert(kept_front.to_set().contains(item) <==> front.to_set().contains(item));
        }
        assert(kept.to_set() =~= items.to_set());
    }
}

/// A list without duplicates is left as it is.
pub proof fn lemma_first_occurrences_of_distinct(items: Seq<Seq<char>>)
    requires
        items.no_duplicates(),
    ensures
        first_occurrences(items) == items,
    decreases items.len(),
{
    if items.len() > 0 {
        let front = items.drop_last();
        lemma_first_occurrences_of_distinct(front);
        if front.contains(items.last()) {
            let k = choose|k: int| 0 <= k < front.len() && front[k] == items.last();
            assert(items[k] == items[items.len() - 1]);
        }
        assert(front.push(items.last()) =~= items);
    } else {
        assert(first_occurrences(items) =~= items);
    }
}

/// Calls `str::split` with a character as the pattern and collects the
/// pieces it yields: the substrings between the separators, in order.
#[verifier::external_body]
fn split_on(text: &str, separator: char) -> (out: Vec<String>)
    ensures
        out.deep_view() == pieces(text@, separator),
{
    text.split(separator).map(String::from).collect()
}

/// Calls `char::is_whitespace`; `is_white_space` is the name of what it
/// answers for a character.
#[verifier::external_body]
fn is_whitespace(c: char) -> (white: bool)
    ensures
        white == is_white_space(c),
{
    c.is_whitespace()
}

/// Calls `Itertools::unique` on the items of `items`, which yields each item
/// that was not yielded before, in the order in which they come.
#[verifier::external_body]
fn unique_strings(items: Vec<String>) -> (out: Vec<String>)
    ensures
        out.deep_view() == first_occurrences(items.deep_view()),
{
    items.into_iter().unique().collect()
}

/// The flags at the front of `white` up to the first that is not set, or up
/// to the end, are the leading ones.
proof fn lemma_leading_white(white: Seq<bool>, start: int)
    requires
        0 <= start <= white.len(),
        forall|k: int| 0 <= k < start ==> white[k],
        start < white.len() ==> !white[start],
    ensures
        leading_white(white) == start,
    decreases start,
{
    if start > 0 {
        let rest = white.skip(1);
        assert forall|k: int| 0 <= k < start - 1 implies rest[k] by {
            assert(rest[k] == white[k + 1]);
        }
        if start < white.len() {
            assert(rest[start - 1] == white[start]);
        }
        lemma_leading_white(rest, start - 1);
    }
}

/// The flags at the end of `white` back to the last that is not set, or back
/// to the front, are the trailing ones.
proof fn lemma_trailing_white(white: Seq<bool>, end: int)
    requires
        0 <= end <= white.len(),
        forall|k: int| end <= k < white.len() ==> white[k],
        end > 0 ==> !white[end - 1],
    ensures
        trailing_white(white) == white.len() - end,
    decreases white.len() - end,
{
    if end < white.len() {
        let rest = white.drop_last();
        assert(white[white.len() - 1]);
        if end > 0 {
            assert(rest[end - 1] == white[end - 1]);
        }
        lemma_trailing_white(rest, end);
    }
}

/// Finds the range that trimming keeps, from the flags that say which
/// characters are white space.
pub fn trim_bounds(white: &Vec<bool>) -> (bounds: (usize, usize))
    ensures
        (bounds.0 as int, bounds.1 as int) == kept_range(white@),
        bounds.0 <= bounds.1 <= white.len(),
{
    let len = white.len();
    let mut start: usize = 0;
    while start < len && white[start]
        invariant
            start <= len,
            len == white.len(),
            forall|k: int| 0 <= k < start ==> white@[k],
        decreases len - start,
    {
        start += 1;
    }
    let mut end: usize = len;
    while end > start && white[end - 1]
        invariant
            start <= end <= len,
            len == white.len(),
            forall|k: int| end <= k < len ==> white@[k],
        decreases end,
    {
        end -= 1;
    }
    proof {
        lemma_leading_white(white@, start as int);
        if start < len {
            assert(end > start) by {
                if end == start {
                    assert(white@[start as int]);
                }
            }
            lemma_trailing_white(white@, end as int);
        }
    }
    (start, end)
}

/// Asks for each character of `text` whether it is white space.
fn white_space_flags(text: &str) -> (flags: Vec<bool>)
    ensures
        flags@ == white_flags(text@),
{
    let mut flags: Vec<bool> = Vec::new();
    for c in chars: text.chars()
        invariant
            chars.seq() == text@,
            flags@.len() == chars.index(),
            forall|k: int| 0 <= k < flags@.len() ==> flags@[k] == is_white_space(text@[k]),
    {
        flags.push(is_whitespace(c));
    }
    assert(flags@ =~= white_flags(text@));
    flags
}

/// Removes the white space at the front and at the end of `text`.
pub fn trim(text: &str) -> (out: String)
    ensures
        out@ == trimmed(text@),
{
    let white = white_space_flags(text);
    let (start, end) = trim_bounds(&white);
    text.substring_char(start, end).to_owned()
}

/// The entries of `lines`: each line trimmed, blank lines dropped.
pub fn collect_entries(lines: &Vec<String>) -> (out: Vec<String>)
    ensures
        out.deep_view() == entries(lines.deep_view()),
{
    let mut out: Vec<String> = Vec::new();
    let mut at: usize = 0;
    while at < lines.len()
        invariant
            at <= lines.len(),
            out.deep_view() == entries(lines.deep_view().take(at as int)),
        decreases lines.len() - at,
    {
        let entry = trim(lines[at].as_str());
        proof {
            let seen = lines.deep_view().take(at + 1);
            assert(seen.drop_last() =~= lines.deep_view().take(at as int));
            assert(seen.last() == lines[at as int]@);
        }
        if !entry.as_str().is_empty() {
            let ghost before = out.deep_view();
            out.push(entry);
            assert(out.deep_view() =~= before.push(entry@));
        }
        at += 1;
    }
    assert(lines.deep_view().take(at as int) =~= lines.deep_view());
    out
}

/// Collapses duplicates: each address of `urls` once, at the place of its
/// first occurrence.
pub fn dedup_urls(urls: Vec<String>) -> (out: Vec<String>)
    ensures
        out.deep_view() == first_occurrences(urls.deep_view()),
        out.deep_view().no_duplicates(),
        out.deep_view().to_set() == urls.deep_view().to_set(),
{
    proof {
        lemma_first_occurrences(urls.deep_view());
    }
    unique_strings(urls)
}

/// Reads the raw addresses out of the text of an input list: the text is cut
/// into lines, each line is trimmed, blank lines are dropped, and of equal
/// addresses only the first is kept.
pub fn parse_url_list(contents: &str) -> (urls: Vec<String>)
    ensures
        urls.deep_view() == url_entries(contents@),
        urls.deep_view().no_duplicates(),
{
    let lines = split_on(contents, '\n');
    let found = collect_entries(&lines);
    dedup_urls(found)
}

} // verus!
