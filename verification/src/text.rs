//! The order of texts, and lists of texts in that order.

use vstd::prelude::*;

verus! {

/// `a` comes before `b` in the order of texts: character by character from
/// the front, a character with the lower code point first, and a text before
/// every longer text it begins.
pub open spec fn precedes(a: Seq<char>, b: Seq<char>) -> bool
    decreases a.len(),
{
    if b.len() == 0 {
        false
    } else if a.len() == 0 {
        true
    } else if a[0] != b[0] {
        (a[0] as int) < (b[0] as int)
    } else {
        precedes(a.skip(1), b.skip(1))
    }
}

/// No text comes before itself.
pub proof fn lemma_precedes_irreflexive(a: Seq<char>)
    ensures
        !precedes(a, a),
    decreases a.len(),
{
    if a.len() > 0 {
        lemma_precedes_irreflexive(a.skip(1));
    }
}

/// Of two texts at most one comes before the other.
pub proof fn lemma_precedes_asymmetric(a: Seq<char>, b: Seq<char>)
    requires
        precedes(a, b),
    ensures
        !precedes(b, a),
    decreases a.len(),
{
    if a.len() > 0 && b.len() > 0 && a[0] == b[0] {
        lemma_precedes_asymmetric(a.skip(1), b.skip(1));
    }
}

/// The order of texts is transitive.
pub proof fn lemma_precedes_transitive(a: Seq<char>, b: Seq<char>, c: Seq<char>)
    requires
        precedes(a, b),
        precedes(b, c),
    ensures
        precedes(a, c),
    decreases a.len(),
{
    if a.len() > 0 && a[0] == b[0] && b[0] == c[0] {
        lemma_precedes_transitive(a.skip(1), b.skip(1), c.skip(1));
    }
}

/// Of two different texts one comes before the other.
pub proof fn lemma_precedes_total(a: Seq<char>, b: Seq<char>)
    ensures
        a == b || precedes(a, b) || precedes(b, a),
    decreases a.len(),
{
    if a.len() == 0 || b.len() == 0 {
        if a.len() == 0 && b.len() == 0 {
            assert(a =~= b);
        }
    } else if a[0] == b[0] {
        lemma_precedes_total(a.skip(1), b.skip(1));
        if a.skip(1) == b.skip(1) {
            assert(a =~= seq![a[0]] + a.skip(1));
            assert(b =~= seq![b[0]] + b.skip(1));
        }
    }
}

/// `a` comes before `c` where `a` comes before `b` and `c` does not.
pub proof fn lemma_precedes_then_not_after(a: Seq<char>, b: Seq<char>, c: Seq<char>)
    requires
        precedes(a, b),
        !precedes(c, b),
    ensures
        precedes(a, c),
{
    lemma_precedes_total(b, c);
    if b != c {
        lemma_precedes_transitive(a, b, c);
    }
}

/// What a list holds is what its front holds, and its last item.
pub proof fn lemma_contains_front_or_last<T>(items: Seq<T>)
    requires
        items.len() > 0,
    ensures
        forall|item: T| #[trigger]
            items.contains(item) <==> (items.drop_last().contains(item) || item == items.last()),
{
    assert(items =~= items.drop_last().push(items.last()));
    assert forall|item: T| #[trigger]
        items.contains(item) <==> (items.drop_last().contains(item) || item
            == items.last()) by {
        vstd::seq_lib::lemma_seq_contains_after_push(items.drop_last(), items.last(), item);
    }
}

/// No line of `lines` comes before a line that stands earlier.
pub open spec fn ascending(lines: Seq<Seq<char>>) -> bool {
    forall|i: int, j: int| 0 <= i < j < lines.len() ==> !precedes(lines[j], lines[i])
}

/// Every line of `lines` comes before each line that stands later; so no
/// line occurs twice.
pub open spec fn strictly_ascending(lines: Seq<Seq<char>>) -> bool {
    forall|i: int, j: int| 0 <= i < j < lines.len() ==> precedes(lines[i], lines[j])
}

/// Two lists hold the same lines, in whatever order and however often.
pub open spec fn same_lines(a: Seq<Seq<char>>, b: Seq<Seq<char>>) -> bool {
    forall|line: Seq<char>| a.contains(line) <==> b.contains(line)
}

/// `lines` with each run of equal neighbours reduced to one line.
pub open spec fn without_repeats(lines: Seq<Seq<char>>) -> Seq<Seq<char>>
    decreases lines.len(),
{
    if lines.len() == 0 {
        lines
    } else if lines.len() >= 2 && lines[lines.len() - 2] == lines.last() {
        without_repeats(lines.drop_last())
    } else {
        without_repeats(lines.drop_last()).push(lines.last())
    }
}

/// `lines` with `separator` between each two neighbours.
pub open spec fn joined(lines: Seq<Seq<char>>, separator: Seq<char>) -> Seq<char>
    decreases lines.len(),
{
    if lines.len() == 0 {
        Seq::empty()
    } else if lines.len() == 1 {
        lines[0]
    } else {
        joined(lines.drop_last(), separator) + separator + lines.last()
    }
}

/// `text` cut at every `separator`: the pieces between the separators, in
/// order, empty ones included. A text with n separators has n + 1 pieces.
pub open spec fn pieces(text: Seq<char>, separator: char) -> Seq<Seq<char>>
    decreases text.len(),
{
    if text.len() == 0 {
        seq![Seq::empty()]
    } else {
        let front = pieces(text.drop_last(), separator);
        if text.last() == separator {
            front.push(Seq::empty())
        } else {
            front.drop_last().push(front.last().push(text.last()))
        }
    }
}

/// Cutting never yields an empty list of pieces.
pub proof fn lemma_pieces_nonempty(text: Seq<char>, separator: char)
    ensures
        pieces(text, separator).len() > 0,
    decreases text.len(),
{
    if text.len() > 0 {
        lemma_pieces_nonempty(text.drop_last(), separator);
    }
}

/// Text without a separator, put behind `text`, lengthens the last piece.
pub proof fn lemma_pieces_extended(text: Seq<char>, tail: Seq<char>, separator: char)
    requires
        !tail.contains(separator),
    ensures
        pieces(text + tail, separator) == pieces(text, separator).drop_last().push(
            pieces(text, separator).last() + tail,
        ),
    decreases tail.len(),
{
    let cut = pieces(text, separator);
    lemma_pieces_nonempty(text, separator);
    if tail.len() == 0 {
        assert(text + tail =~= text);
        assert(cut.last() + tail =~= cut.last());
        assert(cut.drop_last().push(cut.last()) =~= cut);
    } else {
        let front = tail.drop_last();
        assert(tail[tail.len() - 1] != separator);
        if front.contains(separator) {
            let k = choose|k: int| 0 <= k < front.len() && front[k] == separator;
            assert(tail[k] == separator);
        }
        lemma_pieces_extended(text, front, separator);
        assert((text + tail).drop_last() =~= text + front);
        assert((text + tail).last() == tail.last());
        let before = pieces(text + front, separator);
        assert(before.last() == cut.last() + front);
        assert(before.last().push(tail.last()) =~= cut.last() + tail);
        assert(before.drop_last() =~= cut.drop_last());
    }
}

/// Lines that hold no line break are what their joined text is cut into.
pub proof fn lemma_pieces_of_joined(lines: Seq<Seq<char>>, separator: char)
    requires
        lines.len() > 0,
        forall|k: int| 0 <= k < lines.len() ==> !(#[trigger] lines[k]).contains(separator),
    ensures
        pieces(joined(lines, seq![separator]), separator) == lines,
    decreases lines.len(),
{
    let nothing = Seq::<char>::empty();
    if lines.len() == 1 {
        lemma_pieces_extended(nothing, lines[0], separator);
        assert(nothing + lines[0] =~= lines[0]);
        assert(pieces(nothing, separator) =~= seq![nothing]);
        assert(seq![nothing].drop_last().push(nothing + lines[0]) =~= lines);
    } else {
        let front = lines.drop_last();
        let last = lines.last();
        assert forall|k: int| 0 <= k < front.len() implies !(#[trigger] front[k]).contains(
            separator,
        ) by {
            assert(front[k] == lines[k]);
        }
        lemma_pieces_of_joined(front, separator);
        let head = joined(front, seq![separator]);
        let opened = head + seq![separator];
        assert(opened.drop_last() =~= head);
        assert(opened.last() == separator);
        assert(pieces(opened, separator) == front.push(nothing));
        lemma_pieces_extended(opened, last, separator);
        assert(front.push(nothing).drop_last() =~= front);
        assert(nothing + last =~= last);
        assert(front.push(last) =~= lines);
    }
}

/// Two lists in strictly ascending order that hold the same lines are the
/// same list.
pub proof fn lemma_strictly_ascending_unique(a: Seq<Seq<char>>, b: Seq<Seq<char>>)
    requires
        strictly_ascending(a),
        strictly_ascending(b),
        same_lines(a, b),
    ensures
        a == b,
    decreases a.len(),
{
    if a.len() == 0 {
        if b.len() > 0 {
            assert(b.contains(b[0]));
        }
        assert(a =~= b);
    } else {
        assert(a.contains(a[0]));
        assert(b.contains(a[0]));
        let j = choose|j: int| 0 <= j < b.len() && b[j] == a[0];
        assert(b.contains(b[0]));
        assert(a.contains(b[0]));
        let i = choose|i: int| 0 <= i < a.len() && a[i] == b[0];
        if a[0] != b[0] {
            assert(precedes(b[0], b[j]));
            assert(precedes(a[0], a[i]));
            lemma_precedes_asymmetric(a[0], b[0]);
        }
        let rest_a = a.skip(1);
        let rest_b = b.skip(1);
        assert forall|line: Seq<char>| rest_a.contains(line) <==> rest_b.contains(line) by {
            lemma_precedes_irreflexive(line);
            if rest_a.contains(line) {
                let k = choose|k: int| 0 <= k < rest_a.len() && rest_a[k] == line;
                assert(a[k + 1] == line);
                assert(precedes(a[0], a[k + 1]));
                assert(a.contains(line));
                let m = choose|m: int| 0 <= m < b.len() && b[m] == line;
                assert(rest_b[m - 1] == line);
            }
            if rest_b.contains(line) {
                let k = choose|k: int| 0 <= k < rest_b.len() && rest_b[k] == line;
                assert(b[k + 1] == line);
                assert(precedes(b[0], b[k + 1]));
                assert(b.contains(line));
                let m = choose|m: int| 0 <= m < a.len() && a[m] == line;
                assert(rest_a[m - 1] == line);
            }
        }
        assert(strictly_ascending(rest_a)) by {
            assert forall|i: int, j: int| 0 <= i < j < rest_a.len() implies precedes(
                rest_a[i],
                rest_a[j],
            ) by {
                assert(precedes(a[i + 1], a[j + 1]));
            }
        }
        assert(strictly_ascending(rest_b)) by {
            assert forall|i: int, j: int| 0 <= i < j < rest_b.len() implies precedes(
                rest_b[i],
                rest_b[j],
            ) by {
                assert(precedes(b[i + 1], b[j + 1]));
            }
        }
        lemma_strictly_ascending_unique(rest_a, rest_b);
        assert(a =~= seq![a[0]] + rest_a);
        assert(b =~= seq![b[0]] + rest_b);
    }
}

/// Reducing the runs of equal neighbours of a list in ascending order leaves
/// the same lines in strictly ascending order.
pub proof fn lemma_without_repeats_of_ascending(lines: Seq<Seq<char>>)
    requires
        ascending(lines),
    ensures
        strictly_ascending(without_repeats(lines)),
        same_lines(without_repeats(lines), lines),
        lines.len() > 0 ==> without_repeats(lines).len() > 0 && without_repeats(lines).last()
            == lines.last(),
    decreases lines.len(),
{
    if lines.len() > 0 {
        let front = lines.drop_last();
        let last = lines.last();
        let reduced = without_repeats(front);
        assert(ascending(front)) by {
            assert forall|i: int, j: int| 0 <= i < j < front.len() implies !precedes(
                front[j],
                front[i],
            ) by {
                assert(!precedes(lines[j], lines[i]));
            }
        }
        lemma_without_repeats_of_ascending(front);
        lemma_contains_front_or_last(lines);
        if lines.len() >= 2 && lines[lines.len() - 2] == last {
            assert(front.last() == last);
            assert(front.contains(last));
        } else {
            let result = reduced.push(last);
            assert(result == without_repeats(lines));
            assert forall|i: int, j: int| 0 <= i < j < result.len() implies precedes(
                result[i],
                result[j],
            ) by {
                if j < reduced.len() {
                    assert(precedes(reduced[i], reduced[j]));
                } else {
                    assert(reduced.contains(reduced[i]));
                    assert(front.contains(reduced[i]));
                    let k = choose|k: int| 0 <= k < front.len() && front[k] == reduced[i];
                    assert(!precedes(lines[lines.len() - 1], lines[k]));
                    assert(front.len() > 0);
                    assert(reduced.last() == front.last());
                    assert(front.last() == lines[lines.len() - 2]);
                    if i == reduced.len() - 1 {
                        lemma_precedes_total(reduced[i], last);
                    } else {
                        assert(precedes(reduced[i], reduced[reduced.len() - 1]));
                        assert(!precedes(lines[lines.len() - 1], lines[lines.len() - 2]));
                        lemma_precedes_then_not_after(reduced[i], reduced.last(), last);
                    }
                }
            }
            assert(result.drop_last() =~= reduced);
            lemma_contains_front_or_last(result);
            assert forall|line: Seq<char>| result.contains(line) <==> lines.contains(line) by {
                assert(reduced.contains(line) <==> front.contains(line));
            }
        }
    }
}

} // verus!
