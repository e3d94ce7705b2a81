//! Sorted listings of addresses, and the text they are rendered to.

use crate::text::{
    ascending, joined, lemma_pieces_of_joined, lemma_precedes_total, lemma_precedes_transitive,
    lemma_strictly_ascending_unique, lemma_without_repeats_of_ascending, pieces, precedes,
    same_lines, strictly_ascending, without_repeats,
};
use itertools::Itertools;
use vstd::prelude::*;

verus! {

/// `lines` lists the members of `set`: each once, in strictly ascending
/// order.
pub open spec fn is_listing_of(lines: Seq<Seq<char>>, set: Set<Seq<char>>) -> bool {
    &&& strictly_ascending(lines)
    &&& forall|line: Seq<char>| lines.contains(line) <==> set.contains(line)
}

/// The listing of `set`, where it has one; a finite set has exactly one.
pub open spec fn listing(set: Set<Seq<char>>) -> Seq<Seq<char>> {
    choose|lines: Seq<Seq<char>>| is_listing_of(lines, set)
}

/// The character that ends a line.
pub open spec fn line_break() -> Seq<char> {
    seq!['\n']
}

/// The text of one section of the report: the listing of `set`, one address
/// to a line.
pub open spec fn section_text(set: Set<Seq<char>>) -> Seq<char> {
    joined(listing(set), line_break())
}

/// A set has at most one listing.
pub proof fn lemma_listing_unique(lines: Seq<Seq<char>>, set: Set<Seq<char>>)
    requires
        is_listing_of(lines, set),
    ensures
        listing(set) == lines,
{
    let chosen = listing(set);
    assert(is_listing_of(chosen, set));
    assert(same_lines(chosen, lines));
    lemma_strictly_ascending_unique(chosen, lines);
}

/// Where `line` belongs in a list in strictly ascending order that does not
/// hold it: behind the lines that come before it and in front of the rest.
proof fn lemma_place_in_listing(lines: Seq<Seq<char>>, line: Seq<char>) -> (at: int)
    requires
        strictly_ascending(lines),
        !lines.contains(line),
    ensures
        0 <= at <= lines.len(),
        forall|k: int| 0 <= k < at ==> precedes(#[trigger] lines[k], line),
        forall|k: int| at <= k < lines.len() ==> precedes(line, #[trigger] lines[k]),
    decreases lines.len(),
{
    if lines.len() == 0 {
        0
    } else {
        let last = lines.last();
        let front = lines.drop_last();
        assert(lines.contains(last));
        lemma_precedes_total(last, line);
        if precedes(last, line) {
            assert forall|k: int| 0 <= k < lines.len() implies precedes(
                #[trigger] lines[k],
                line,
            ) by {
                if k < lines.len() - 1 {
                    assert(precedes(lines[k], lines[lines.len() - 1]));
                    lemma_precedes_transitive(lines[k], last, line);
                }
            }
            lines.len() as int
        } else {
            assert(strictly_ascending(front)) by {
                assert forall|i: int, j: int| 0 <= i < j < front.len() implies precedes(
                    front[i],
                    front[j],
                ) by {
                    assert(precedes(lines[i], lines[j]));
                }
            }
            if front.contains(line) {
                let k = choose|k: int| 0 <= k < front.len() && front[k] == line;
                assert(lines[k] == line);
            }
            let at = lemma_place_in_listing(front, line);
            assert forall|k: int| 0 <= k < at implies precedes(#[trigger] lines[k], line) by {
                assert(front[k] == lines[k]);
            }
            assert forall|k: int| at <= k < lines.len() implies precedes(
                line,
                #[trigger] lines[k],
            ) by {
                if k < front.len() {
                    assert(front[k] == lines[k]);
                }
            }
            at
        }
    }
}

/// Every finite set has a listing.
pub proof fn lemma_listing_exists(set: Set<Seq<char>>)
    requires
        set.finite(),
    ensures
        is_listing_of(listing(set), set),
    decreases set.len(),
{
    if set.len() == 0 {
        let none = Seq::<Seq<char>>::empty();
        assert(set =~= Set::empty());
        assert(is_listing_of(none, set));
    } else {
        let line = set.choose();
        let rest = set.remove(line);
        lemma_listing_exists(rest);
        let lines = listing(rest);
        let at = lemma_place_in_listing(lines, line);
        let grown = lines.take(at).push(line) + lines.skip(at);
        assert forall|i: int, j: int| 0 <= i < j < grown.len() implies precedes(
            grown[i],
            grown[j],
        ) by {
            if j < at {
                assert(precedes(lines[i], lines[j]));
            } else if j == at {
                assert(precedes(lines[i], line));
            } else if i < at {
                assert(precedes(lines[i], line));
                assert(precedes(line, lines[j - 1]));
                lemma_precedes_transitive(lines[i], line, lines[j - 1]);
            } else if i == at {
                assert(precedes(line, lines[j - 1]));
            } else {
                assert(precedes(lines[i - 1], lines[j - 1]));
            }
        }
        assert forall|other: Seq<char>| grown.contains(other) <==> set.contains(other) by {
            if grown.contains(other) {
                let k = choose|k: int| 0 <= k < grown.len() && grown[k] == other;
                if k < at {
                    assert(lines[k] == other);
                    assert(lines.contains(other));
                } else if k > at {
                    assert(lines[k - 1] == other);
                    assert(lines.contains(other));
                }
            }
            if set.contains(other) {
                if other == line {
                    assert(grown[at] == other);
                } else {
                    assert(rest.contains(other));
                    assert(lines.contains(other));
                    let k = choose|k: int| 0 <= k < lines.len() && lines[k] == other;
                    if k < at {
                        assert(grown[k] == other);
                    } else {
                        assert(grown[k + 1] == other);
                    }
                }
            }
        }
        assert(is_listing_of(grown, set));
    }
}

/// The lines of a section are in ascending order and none occurs twice: cut
/// at its line breaks, the text of a section gives back the listing of the
/// set, which holds each member once in strictly ascending order. (A section
/// of no address is the empty text; an address is taken to hold no line
/// break.)
pub proof fn lemma_section_lines(set: Set<Seq<char>>)
    requires
        set.finite(),
        set.len() > 0,
        forall|url: Seq<char>| set.contains(url) ==> !url.contains('\n'),
    ensures
        pieces(section_text(set), '\n') == listing(set),
        is_listing_of(listing(set), set),
{
    lemma_listing_exists(set);
    let lines = listing(set);
    assert(set.contains(set.choose()));
    assert(lines.contains(set.choose()));
    assert forall|k: int| 0 <= k < lines.len() implies !(#[trigger] lines[k]).contains('\n') by {
        assert(lines.contains(lines[k]));
    }
    lemma_pieces_of_joined(lines, '\n');
    assert(line_break() =~= seq!['\n']);
}

/// Calls `Itertools::sorted` on the items of `items`. It collects them and
/// sorts them with `slice::sort`, so what comes back holds the same items,
/// each as often as before, in ascending order. Strings are ordered by their
/// bytes, which is the order of their code points.
#[verifier::external_body]
fn sorted_strings(items: &Vec<String>) -> (out: Vec<String>)
    ensures
        ascending(out.deep_view()),
        out.deep_view().to_multiset() == items.deep_view().to_multiset(),
{
    items.iter().sorted().cloned().collect()
}

/// Calls `Itertools::dedup` on the items of `items`, which drops every item
/// that equals the item just before it.
#[verifier::external_body]
fn dedup_strings(items: Vec<String>) -> (out: Vec<String>)
    ensures
        out.deep_view() == without_repeats(items.deep_view()),
{
    items.into_iter().dedup().collect()
}

/// Calls `Itertools::join` on the items of `items`, which writes them one
/// after another with `separator` between each two.
#[verifier::external_body]
fn join_strings(items: &Vec<String>, separator: &str) -> (out: String)
    ensures
        out@ == joined(items.deep_view(), separator@),
{
    items.iter().join(separator)
}

/// The addresses of `urls` in ascending order, each once.
pub fn sorted_listing(urls: &Vec<String>) -> (out: Vec<String>)
    ensures
        out.deep_view() == listing(urls.deep_view().to_set()),
        is_listing_of(out.deep_view(), urls.deep_view().to_set()),
{
    let sorted = sorted_strings(urls);
    let distinct = dedup_strings(sorted);
    proof {
        let given = urls.deep_view();
        let ordered = sorted.deep_view();
        given.to_multiset_ensures();
        ordered.to_multiset_ensures();
        assert(same_lines(ordered, given)) by {
            assert forall|line: Seq<char>| ordered.contains(line) <==> given.contains(line) by {
                assert(ordered.to_multiset().count(line) == given.to_multiset().count(line));
            }
        }
        lemma_without_repeats_of_ascending(ordered);
        assert(is_listing_of(distinct.deep_view(), given.to_set()));
        lemma_listing_unique(distinct.deep_view(), given.to_set());
    }
    distinct
}

/// Renders one section of the report: the addresses of `urls` sorted, each
/// once, one to a line. The text depends on which addresses `urls` holds and
/// on nothing else.
pub fn render_section(urls: &Vec<String>) -> (out: String)
    ensures
        out@ == section_text(urls.deep_view().to_set()),
{
    let lines = sorted_listing(urls);
    proof {
        reveal_strlit("\n");
        assert("\n"@ =~= line_break());
    }
    join_strings(&lines, "\n")
}

} // verus!
