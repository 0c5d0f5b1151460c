//! The mathematical model: substrings, lines, and the lines a query selects.
//!
//! Everything here is stated over `Seq<char>`, the view of `str` and `String`.

use crate::folding::lowercase_of;
use vstd::prelude::*;

verus! {

/// `needle` occurs in `hay` as a contiguous run that starts at index `at`.
pub open spec fn occurs_at<T>(needle: Seq<T>, hay: Seq<T>, at: int) -> bool {
    &&& 0 <= at
    &&& at + needle.len() <= hay.len()
    &&& hay.subrange(at, at + needle.len()) == needle
}

/// `needle` occurs somewhere in `hay` as a contiguous run.
///
/// The empty sequence occurs in every sequence.
pub open spec fn is_substring<T>(needle: Seq<T>, hay: Seq<T>) -> bool {
    exists|at: int| occurs_at(needle, hay, at)
}

/// Index of the first line feed in `text`, or `text.len()` if it has none.
pub open spec fn first_line_feed(text: Seq<char>) -> int
    decreases text.len(),
{
    if text.len() == 0 || text[0] == '\n' {
        0
    } else {
        1 + first_line_feed(text.drop_first())
    }
}

/// The first line of `text`, without its terminator.
///
/// A line ends at a line feed; a carriage return directly before that line
/// feed belongs to the terminator. A last line need not be terminated, and
/// then keeps a trailing carriage return.
pub open spec fn first_line(text: Seq<char>) -> Seq<char> {
    let end = first_line_feed(text);
    if 0 < end < text.len() && text[end - 1] == '\r' {
        text.subrange(0, end - 1)
    } else {
        text.subrange(0, end)
    }
}

/// What is left of `text` after its first line and that line's terminator.
pub open spec fn after_first_line(text: Seq<char>) -> Seq<char> {
    let end = first_line_feed(text);
    if 0 <= end < text.len() {
        text.subrange(end + 1, text.len() as int)
    } else {
        Seq::empty()
    }
}

/// The lines of `text`, in order, without their terminators.
///
/// The empty text has no lines. A terminator at the very end of the text
/// does not start another, empty line.
pub open spec fn lines_of(text: Seq<char>) -> Seq<Seq<char>>
    decreases text.len(),
{
    if text.len() == 0 {
        Seq::empty()
    } else {
        seq![first_line(text)] + lines_of(after_first_line(text))
    }
}

/// The first line feed is where the text says it is: everything before
/// `end` is no line feed, and `end` is a line feed or the end of the text.
pub proof fn lemma_first_line_feed_at(text: Seq<char>, end: int)
    requires
        0 <= end <= text.len(),
        forall|k: int| 0 <= k < end ==> text[k] != '\n',
        end < text.len() ==> text[end] == '\n',
    ensures
        first_line_feed(text) == end,
    decreases end,
{
    if end > 0 {
        let rest = text.drop_first();
        assert forall|k: int| 0 <= k < end - 1 implies rest[k] != '\n' by {
            assert(rest[k] == text[k + 1]);
        }
        lemma_first_line_feed_at(rest, end - 1);
    }
}

/// The test "this line contains `query` as written".
pub open spec fn mentions(query: Seq<char>) -> spec_fn(Seq<char>) -> bool {
    |line: Seq<char>| is_substring(query, line)
}

/// The test "this line, in lowercase, contains `query` in lowercase".
pub open spec fn mentions_folded(query: Seq<char>) -> spec_fn(Seq<char>) -> bool {
    |line: Seq<char>| is_substring(lowercase_of(query), lowercase_of(line))
}

/// The lines of `text` that contain `query` as written, in the order of the
/// text, each as often as it occurs there.
pub open spec fn matching_lines(query: Seq<char>, text: Seq<char>) -> Seq<Seq<char>> {
    lines_of(text).filter(mentions(query))
}

/// The lines of `text` whose lowercase form contains the lowercase form of
/// `query`, in the order of the text. The lines themselves are as written.
pub open spec fn folded_matching_lines(query: Seq<char>, text: Seq<char>) -> Seq<Seq<char>> {
    lines_of(text).filter(mentions_folded(query))
}

/// `chosen` is a selection from `all` by `keep`, witnessed by `positions`:
/// `positions` lists, in increasing order, exactly the positions of `all`
/// whose element passes `keep`, and `chosen` holds the elements at these
/// positions. So every element that passes is chosen once for each place
/// where it stands, in the order of `all`, and nothing else is chosen.
pub open spec fn selects<T>(
    all: Seq<T>,
    keep: spec_fn(T) -> bool,
    positions: Seq<int>,
    chosen: Seq<T>,
) -> bool {
    &&& positions.len() == chosen.len()
    &&& forall|k: int|
        0 <= k < positions.len() ==> 0 <= #[trigger] positions[k] < all.len() && chosen[k]
            == all[positions[k]]
    &&& forall|j: int, k: int|
        0 <= j < k < positions.len() ==> #[trigger] positions[j] < #[trigger] positions[k]
    &&& forall|i: int|
        0 <= i < all.len() ==> (keep(#[trigger] all[i]) <==> positions.contains(i))
}

/// Selecting from the lines of a non-empty text is deciding on the first
/// line and then selecting from the lines of the remainder.
pub proof fn lemma_filter_lines_step(text: Seq<char>, keep: spec_fn(Seq<char>) -> bool)
    requires
        text.len() > 0,
    ensures
        lines_of(text).filter(keep) == (if keep(first_line(text)) {
            seq![first_line(text)]
        } else {
            Seq::empty()
        }) + lines_of(after_first_line(text)).filter(keep),
{
    lines_of(after_first_line(text)).lemma_filter_prepend(first_line(text), keep);
}

/// Nothing is selected from the empty text.
pub proof fn lemma_filter_lines_empty(text: Seq<char>, keep: spec_fn(Seq<char>) -> bool)
    requires
        text.len() == 0,
    ensures
        lines_of(text).filter(keep) == Seq::<Seq<char>>::empty(),
{
    reveal(Seq::filter);
}

} // verus!
