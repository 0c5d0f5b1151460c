//! The line matcher: substring test, line splitting, and the two searches.
//!
//! The executable code scans the UTF-8 bytes of its arguments; its contracts
//! speak of characters only.

use crate::encoding::{
    lemma_absent_byte_absent_char, lemma_ascii_byte_boundaries, lemma_encode_around_ascii,
    lemma_encode_injective, lemma_single_ascii_byte, lemma_split_encoding,
    lemma_substring_of_encoding,
};
use crate::folding::{lowercase, lowercase_of};
use crate::laws::{
    lemma_folded_search_sound_and_complete, lemma_nothing_found, lemma_search_sound_and_complete,
};
use crate::text::{
    after_first_line, first_line, folded_matching_lines, is_substring,
    lemma_filter_lines_empty, lemma_filter_lines_step, lemma_first_line_feed_at, lines_of,
    matching_lines, mentions, mentions_folded, occurs_at, selects,
};
use vstd::prelude::*;
use vstd::string::*;
use vstd::utf8::*;

verus! {

const LINE_FEED: u8 = 0x0a;

const CARRIAGE_RETURN: u8 = 0x0d;

/// Whether `needle` stands in `hay` at position `at`.
fn matches_at(hay: &[u8], needle: &[u8], at: usize) -> (found: bool)
    requires
        at + needle@.len() <= hay@.len(),
    ensures
        found == occurs_at(needle@, hay@, at as int),
{
    let width: usize = needle.len();
    let bound: usize = hay.len();
    let mut k: usize = 0;
    while k < width
        invariant
            width == needle@.len(),
            bound == hay@.len(),
            k <= width,
            at + width <= bound,
            forall|j: int| 0 <= j < k ==> hay@[at + j] == needle@[j],
        decreases width - k,
    {
        if hay[at + k] != needle[k] {
            return false;
        }
        k += 1;
    }
    assert(hay@.subrange(at as int, at + needle@.len()) =~= needle@);
    true
}

/// Whether the bytes of `needle` occur in `hay` as a contiguous run.
fn occurs_in(hay: &[u8], needle: &[u8]) -> (found: bool)
    ensures
        found == is_substring(needle@, hay@),
{
    if needle.len() > hay.len() {
        return false;
    }
    let last: usize = hay.len() - needle.len();
    let mut at: usize = 0;
    loop
        invariant
            last == hay@.len() - needle@.len(),
            at <= last,
            forall|j: int| 0 <= j < at ==> !occurs_at(needle@, hay@, j),
        decreases last - at,
    {
        if matches_at(hay, needle, at) {
            return true;
        }
        if at == last {
            return false;
        }
        at += 1;
    }
}

/// Whether `needle` occurs in `haystack` as a contiguous run of characters.
///
/// The comparison is exact: no case folding, no normalisation. The empty
/// needle occurs in every haystack.
pub fn contains(haystack: &str, needle: &str) -> (found: bool)
    ensures
        found == is_substring(needle@, haystack@),
{
    proof {
        lemma_substring_of_encoding(needle@, haystack@);
    }
    occurs_in(haystack.as_bytes(), needle.as_bytes())
}

/// Splits the first line off a text.
///
/// Returns the first line without its terminator, and what follows the
/// terminator; `None` for the empty text, which has no line. A line is
/// terminated by a line feed, or by a carriage return and a line feed.
pub fn split_first_line<'a>(text: &'a str) -> (parts: Option<(&'a str, &'a str)>)
    ensures
        match parts {
            Some((line, rest)) => {
                &&& text@.len() > 0
                &&& line@ == first_line(text@)
                &&& rest@ == after_first_line(text@)
                &&& rest@.len() < text@.len()
            },
            None => text@.len() == 0,
        },
{
    let bytes = text.as_bytes();
    let len: usize = bytes.len();
    proof {
        encode_utf8_valid_utf8(text@);
    }
    if len == 0 {
        return None;
    }
    let mut end: usize = 0;
    while end < len && bytes[end] != LINE_FEED
        invariant
            end <= len,
            len == bytes@.len(),
            forall|j: int| 0 <= j < end ==> bytes@[j] != LINE_FEED,
        decreases len - end,
    {
        end += 1;
    }
    if end == len {
        proof {
            is_char_boundary_start_end_of_seq(bytes@);
        }
        let (line, rest) = text.split_at(len);
        proof {
            // No line feed: the text is its own first line.
            assert(bytes@.subrange(0, len as int) =~= bytes@);
            lemma_encode_injective(line@, text@);
            lemma_absent_byte_absent_char(text@, '\n');
            lemma_first_line_feed_at(text@, text@.len() as int);
        }
        Some((line, rest))
    } else {
        proof {
            lemma_ascii_byte_boundaries(bytes@, end as int);
        }
        let (head, tail) = text.split_at(end);
        let (feed, rest) = tail.split_at(1);
        proof {
            // The text is `head`, a line feed, and `rest`; `head` has no
            // line feed.
            assert(feed.spec_bytes() =~= seq![LINE_FEED]);
            lemma_single_ascii_byte(feed@, '\n');
            assert(tail.spec_bytes() =~= feed.spec_bytes() + rest.spec_bytes());
            lemma_split_encoding(tail@, feed@, rest@);
            assert(bytes@ =~= head.spec_bytes() + tail.spec_bytes());
            lemma_split_encoding(text@, head@, tail@);
            assert(text@ =~= head@ + seq!['\n'] + rest@);
            lemma_absent_byte_absent_char(head@, '\n');
            lemma_first_line_feed_at(text@, head@.len() as int);
            encode_utf8_valid_utf8(head@);
        }
        if end > 0 && bytes[end - 1] == CARRIAGE_RETURN {
            proof {
                lemma_ascii_byte_boundaries(head.spec_bytes(), end - 1);
            }
            let (line, back) = head.split_at(end - 1);
            proof {
                // `head` is `line` and a carriage return.
                lemma_single_ascii_byte(back@, '\r');
                assert(head.spec_bytes() =~= line.spec_bytes() + back.spec_bytes());
                lemma_split_encoding(head@, line@, back@);
            }
            Some((line, rest))
        } else {
            proof {
                // Had `head` ended in a carriage return, so had its bytes.
                if head@.len() > 0 && head@.last() == '\r' {
                    lemma_encode_around_ascii(head@, head@.len() as int - 1);
                }
            }
            Some((head, rest))
        }
    }
}

/// The lines of `contents` that contain `query` as written.
///
/// The lines come in the order of the text, each as it stands there and
/// without its terminator; they borrow from `contents`. The empty query is
/// contained in every line.
///
/// The first clause says what is returned. The others spell out what it
/// implies: every line returned contains the query; the lines returned are
/// exactly the lines of the text that contain it, each once for each place
/// where it stands, in the order of the text; and nothing is returned for
/// the empty text.
pub fn search<'a>(query: &str, contents: &'a str) -> (results: Vec<&'a str>)
    ensures
        results.deep_view() == matching_lines(query@, contents@),
        forall|k: int|
            0 <= k < results@.len() ==> is_substring(query@, (#[trigger] results@[k])@),
        exists|positions: Seq<int>|
            selects(lines_of(contents@), mentions(query@), positions, results.deep_view()),
        contents@.len() == 0 ==> results@.len() == 0,
{
    let mut results: Vec<&'a str> = Vec::new();
    let mut rest: &'a str = contents;
    loop
        invariant
            results.deep_view() + matching_lines(query@, rest@) == matching_lines(
                query@,
                contents@,
            ),
        decreases rest@.len(),
    {
        match split_first_line(rest) {
            None => {
                proof {
                    // Nothing is left to select from.
                    lemma_filter_lines_empty(rest@, mentions(query@));
                    lemma_search_sound_and_complete(query@, contents@);
                    lemma_nothing_found(query@, contents@);
                    assert forall|k: int| 0 <= k < results@.len() implies is_substring(
                        query@,
                        (#[trigger] results@[k])@,
                    ) by {
                        assert(results.deep_view()[k] == results@[k]@);
                    }
                }
                return results;
            },
            Some((line, tail)) => {
                let ghost before = results.deep_view();
                proof {
                    lemma_filter_lines_step(rest@, mentions(query@));
                }
                if contains(line, query) {
                    results.push(line);
                    assert(results.deep_view() =~= before.push(line@));
                }
                rest = tail;
            },
        }
    }
}

/// The lines of `contents` that contain `query` when case is ignored.
///
/// A line is kept if its lowercase form contains the lowercase form of the
/// query. The lines come in the order of the text, each as it stands there,
/// in its own casing, and without its terminator; they borrow from
/// `contents`.
///
/// The first clause says what is returned. The others spell out what it
/// implies: the lowercase form of every line returned contains the
/// lowercase query; the lines returned are exactly the lines of the text of
/// which that is true, each once for each place where it stands, in the
/// order of the text; and nothing is returned for the empty text.
pub fn search_case_insensitive<'a>(query: &str, contents: &'a str) -> (results: Vec<&'a str>)
    ensures
        results.deep_view() == folded_matching_lines(query@, contents@),
        forall|k: int|
            0 <= k < results@.len() ==> is_substring(
                lowercase_of(query@),
                lowercase_of((#[trigger] results@[k])@),
            ),
        exists|positions: Seq<int>|
            selects(lines_of(contents@), mentions_folded(query@), positions, results.deep_view()),
        contents@.len() == 0 ==> results@.len() == 0,
{
    let folded_query = lowercase(query);
    let mut results: Vec<&'a str> = Vec::new();
    let mut rest: &'a str = contents;
    loop
        invariant
            folded_query@ == lowercase_of(query@),
            results.deep_view() + folded_matching_lines(query@, rest@) == folded_matching_lines(
                query@,
                contents@,
            ),
        decreases rest@.len(),
    {
        match split_first_line(rest) {
            None => {
                proof {
                    // Nothing is left to select from.
                    lemma_filter_lines_empty(rest@, mentions_folded(query@));
                    lemma_folded_search_sound_and_complete(query@, contents@);
                    lemma_nothing_found(query@, contents@);
                    assert forall|k: int| 0 <= k < results@.len() implies is_substring(
                        lowercase_of(query@),
                        lowercase_of((#[trigger] results@[k])@),
                    ) by {
                        assert(results.deep_view()[k] == results@[k]@);
                    }
                }
                return results;
            },
            Some((line, tail)) => {
                let ghost before = results.deep_view();
                proof {
                    lemma_filter_lines_step(rest@, mentions_folded(query@));
                }
                let folded_line = lowercase(line);
                if contains(folded_line.as_str(), folded_query.as_str()) {
                    results.push(line);
                    assert(results.deep_view() =~= before.push(line@));
                }
                rest = tail;
            },
        }
    }
}

} // verus!
