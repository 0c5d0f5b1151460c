//! What holds of the searches for every query and every text.
//!
//! The statements are over the model in [`crate::text`], in which the
//! contracts of [`crate::search`] and [`crate::search_case_insensitive`]
//! are written.

use crate::folding::lowercase_of;
use crate::text::{
    folded_matching_lines, is_substring, lines_of, matching_lines, mentions, mentions_folded,
    occurs_at, selects,
};
use vstd::prelude::*;

verus! {

/// Filtering is selecting.
pub proof fn lemma_filter_selects<T>(all: Seq<T>, keep: spec_fn(T) -> bool)
    ensures
        exists|positions: Seq<int>| selects(all, keep, positions, all.filter(keep)),
    decreases all.len(),
{
    reveal(Seq::filter);
    if all.len() == 0 {
        assert(selects(all, keep, Seq::<int>::empty(), all.filter(keep)));
    } else {
        let front = all.drop_last();
        let end = all.len() - 1;
        lemma_filter_selects(front, keep);
        let earlier = choose|positions: Seq<int>|
            selects(front, keep, positions, front.filter(keep));
        if keep(all.last()) {
            let positions = earlier.push(end);
            assert forall|i: int| 0 <= i < all.len() implies (keep(#[trigger] all[i])
                <==> positions.contains(i)) by {
                if i < end {
                    assert(front[i] == all[i]);
                    if earlier.contains(i) {
                        let k = choose|k: int| 0 <= k < earlier.len() && earlier[k] == i;
                        assert(positions[k] == i);
                    }
                } else {
                    assert(positions[earlier.len() as int] == end);
                }
            }
            assert(selects(all, keep, positions, all.filter(keep)));
        } else {
            assert forall|i: int| 0 <= i < all.len() implies (keep(#[trigger] all[i])
                <==> earlier.contains(i)) by {
                if i < end {
                    assert(front[i] == all[i]);
                }
            }
            assert(selects(all, keep, earlier, all.filter(keep)));
        }
    }
}

/// Filtering by a test, after filtering by a test that passes whatever the
/// first passes, is filtering by the first test alone.
pub proof fn lemma_filter_after_wider_filter<T>(
    all: Seq<T>,
    narrow: spec_fn(T) -> bool,
    wide: spec_fn(T) -> bool,
)
    requires
        forall|i: int| 0 <= i < all.len() && narrow(#[trigger] all[i]) ==> wide(all[i]),
    ensures
        all.filter(wide).filter(narrow) == all.filter(narrow),
    decreases all.len(),
{
    reveal(Seq::filter);
    if all.len() > 0 {
        let front = all.drop_last();
        assert forall|i: int| 0 <= i < front.len() && narrow(#[trigger] front[i]) implies wide(
            front[i],
        ) by {
            assert(front[i] == all[i]);
        }
        lemma_filter_after_wider_filter(front, narrow, wide);
        if wide(all.last()) {
            front.filter(wide).lemma_filter_push(all.last(), narrow);
        }
    }
}

/// The exact search is sound and complete.
///
/// Every line it yields contains the query as written. And the lines it
/// yields are the lines of the text that contain the query as written:
/// each of them once for each place where it stands in the text, in the
/// order of the text.
pub proof fn lemma_search_sound_and_complete(query: Seq<char>, text: Seq<char>)
    ensures
        forall|k: int|
            0 <= k < matching_lines(query, text).len() ==> is_substring(
                query,
                #[trigger] matching_lines(query, text)[k],
            ),
        exists|positions: Seq<int>|
            selects(lines_of(text), mentions(query), positions, matching_lines(query, text)),
{
    lemma_filter_selects(lines_of(text), mentions(query));
    let positions = choose|positions: Seq<int>|
        selects(lines_of(text), mentions(query), positions, matching_lines(query, text));
    assert forall|k: int| 0 <= k < matching_lines(query, text).len() implies is_substring(
        query,
        #[trigger] matching_lines(query, text)[k],
    ) by {
        assert(positions.contains(positions[k]));
    }
}

/// The case-insensitive search is sound and complete.
///
/// The lowercase form of every line it yields contains the lowercase form
/// of the query. And the lines it yields are the lines of the text of which
/// that is true: each of them, as written in the text, once for each place
/// where it stands there, in the order of the text.
pub proof fn lemma_folded_search_sound_and_complete(query: Seq<char>, text: Seq<char>)
    ensures
        forall|k: int|
            0 <= k < folded_matching_lines(query, text).len() ==> is_substring(
                lowercase_of(query),
                lowercase_of(#[trigger] folded_matching_lines(query, text)[k]),
            ),
        exists|positions: Seq<int>|
            selects(
                lines_of(text),
                mentions_folded(query),
                positions,
                folded_matching_lines(query, text),
            ),
{
    lemma_filter_selects(lines_of(text), mentions_folded(query));
    let positions = choose|positions: Seq<int>|
        selects(
            lines_of(text),
            mentions_folded(query),
            positions,
            folded_matching_lines(query, text),
        );
    assert forall|k: int|
        0 <= k < folded_matching_lines(query, text).len() implies is_substring(
        lowercase_of(query),
        lowercase_of(#[trigger] folded_matching_lines(query, text)[k]),
    ) by {
        assert(positions.contains(positions[k]));
    }
}

/// Lowercasing loses no occurrence of `query` in `text`: every line of the
/// text that contains the query as written still contains the lowercase
/// query once the line is in lowercase.
pub open spec fn folding_keeps_matches(query: Seq<char>, text: Seq<char>) -> bool {
    forall|i: int|
        0 <= i < lines_of(text).len() && is_substring(query, #[trigger] lines_of(text)[i])
            ==> is_substring(lowercase_of(query), lowercase_of(lines_of(text)[i]))
}

/// Where lowercasing loses no occurrence of the query in the text, the
/// case-insensitive search yields every line that the exact search yields.
///
/// More exactly: keeping, of the lines that the case-insensitive search
/// yields, those that contain the query as written gives what the exact
/// search yields; so each line of the exact result stands in the
/// case-insensitive result too.
pub proof fn lemma_folded_search_yields_exact_matches(query: Seq<char>, text: Seq<char>)
    ensures
        folding_keeps_matches(query, text) ==> folded_matching_lines(query, text).filter(
            mentions(query),
        ) == matching_lines(query, text),
        folding_keeps_matches(query, text) ==> forall|k: int|
            0 <= k < matching_lines(query, text).len() ==> folded_matching_lines(
                query,
                text,
            ).contains(#[trigger] matching_lines(query, text)[k]),
{
    let lines = lines_of(text);
    let folded = folded_matching_lines(query, text);
    let exact = matching_lines(query, text);
    if folding_keeps_matches(query, text) {
        assert forall|i: int|
            0 <= i < lines.len() && mentions(query)(#[trigger] lines[i]) implies mentions_folded(
            query,
        )(lines[i]) by {
            assert(is_substring(query, lines_of(text)[i]));
        }
        lemma_filter_after_wider_filter(lines, mentions(query), mentions_folded(query));
        lemma_filter_selects(folded, mentions(query));
        let positions = choose|positions: Seq<int>|
            selects(folded, mentions(query), positions, exact);
        assert forall|k: int| 0 <= k < exact.len() implies folded.contains(
            #[trigger] exact[k],
        ) by {
            assert(folded[positions[k]] == exact[k]);
        }
    }
}

/// Filtering by a test that every element passes changes nothing.
pub proof fn lemma_filter_keeps_all<T>(all: Seq<T>, keep: spec_fn(T) -> bool)
    requires
        forall|i: int| 0 <= i < all.len() ==> keep(#[trigger] all[i]),
    ensures
        all.filter(keep) == all,
    decreases all.len(),
{
    reveal(Seq::filter);
    if all.len() > 0 {
        let front = all.drop_last();
        assert forall|i: int| 0 <= i < front.len() implies keep(#[trigger] front[i]) by {
            assert(front[i] == all[i]);
        }
        lemma_filter_keeps_all(front, keep);
        assert(keep(all[all.len() - 1]));
        assert(front.push(all.last()) =~= all);
    }
}

/// The empty query is contained in every line: the exact search for it
/// yields all the lines of the text.
pub proof fn lemma_empty_query_yields_every_line(text: Seq<char>)
    ensures
        matching_lines(Seq::empty(), text) == lines_of(text),
{
    let lines = lines_of(text);
    let query = Seq::<char>::empty();
    assert forall|i: int| 0 <= i < lines.len() implies mentions(query)(#[trigger] lines[i]) by {
        assert(lines[i].subrange(0, 0) =~= query);
        assert(occurs_at(query, lines[i], 0));
    }
    lemma_filter_keeps_all(lines, mentions(query));
}

/// Both searches yield nothing from the empty text, and nothing from a text
/// that has no line for them to yield.
pub proof fn lemma_nothing_found(query: Seq<char>, text: Seq<char>)
    ensures
        text.len() == 0 ==> matching_lines(query, text).len() == 0 && folded_matching_lines(
            query,
            text,
        ).len() == 0,
        (forall|i: int|
            0 <= i < lines_of(text).len() ==> !is_substring(query, #[trigger] lines_of(text)[i]))
            ==> matching_lines(query, text).len() == 0,
        (forall|i: int|
            0 <= i < lines_of(text).len() ==> !is_substring(
                lowercase_of(query),
                lowercase_of(#[trigger] lines_of(text)[i]),
            )) ==> folded_matching_lines(query, text).len() == 0,
{
    let lines = lines_of(text);
    if text.len() == 0 {
        reveal(Seq::filter);
    }
    if forall|i: int| 0 <= i < lines.len() ==> !is_substring(query, #[trigger] lines[i]) {
        lemma_filter_selects(lines, mentions(query));
        let positions = choose|positions: Seq<int>|
            selects(lines, mentions(query), positions, matching_lines(query, text));
        if positions.len() > 0 {
            assert(positions.contains(positions[0]));
        }
    }
    if forall|i: int|
        0 <= i < lines.len() ==> !is_substring(
            lowercase_of(query),
            lowercase_of(#[trigger] lines[i]),
        ) {
        lemma_filter_selects(lines, mentions_folded(query));
        let positions = choose|positions: Seq<int>|
            selects(lines, mentions_folded(query), positions, folded_matching_lines(query, text));
        if positions.len() > 0 {
            assert(positions.contains(positions[0]));
        }
    }
}

} // verus!
