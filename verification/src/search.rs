//! The search engine: returns the lines of the contents that match the
//! query, in original file order, case-sensitively or case-insensitively.

use vstd::prelude::*;

use crate::config::Config;
use crate::lines::{lines_of, split_lines};
use crate::subseq::{
    lemma_filter_all, lemma_filter_monotonic, lemma_filter_subsequence, lemma_subsequence_contains,
    lemma_subsequence_len, subsequence_of,
};
use crate::text::{
    contains_substring, has_substring, lemma_empty_needle, lemma_lower_preserves_substring, lower,
    to_lowercase,
};

verus! {

/// The lines of `ls` that contain `query` as a substring, in order.
pub open spec fn matching_lines(query: Seq<char>, ls: Seq<Seq<char>>) -> Seq<Seq<char>> {
    ls.filter(|l: Seq<char>| has_substring(l, query))
}

/// The lines of `ls` whose lowercase folding contains the lowercase
/// folding of `query`, in order.
pub open spec fn matching_lines_ci(query: Seq<char>, ls: Seq<Seq<char>>) -> Seq<Seq<char>> {
    ls.filter(|l: Seq<char>| has_substring(lower(l), lower(query)))
}

/// What `search` returns: the lines of `contents` that contain `query`.
pub open spec fn search_results(query: Seq<char>, contents: Seq<char>) -> Seq<Seq<char>> {
    matching_lines(query, lines_of(contents))
}

/// What `search_case_insensitive` returns: the lines of `contents` that
/// contain `query` up to lowercase folding, themselves unfolded.
pub open spec fn search_results_ci(query: Seq<char>, contents: Seq<char>) -> Seq<Seq<char>> {
    matching_lines_ci(query, lines_of(contents))
}

/// Returns the lines of `contents` that contain `query` as a substring,
/// in original file order and with their original text.
pub fn search<'a>(query: &str, contents: &'a str) -> (r: Vec<&'a str>)
    ensures
        r.deep_view() == search_results(query@, contents@),
{
    let lines = split_lines(contents);
    let mut r: Vec<&'a str> = Vec::new();
    let mut i: usize = 0;
    proof {
        assert(lines.deep_view().take(0) =~= Seq::<Seq<char>>::empty());
        reveal(Seq::filter);
    }
    while i < lines.len()
        invariant
            i <= lines.len(),
            lines.deep_view() == lines_of(contents@),
            lines@.len() == lines.deep_view().len(),
            r.deep_view() == matching_lines(query@, lines.deep_view().take(i as int)),
        decreases lines.len() - i,
    {
        let ghost prev = r.deep_view();
        let line = lines[i];
        let matched = contains_substring(line, query);
        if matched {
            r.push(line);
        }
        proof {
            let lv = lines.deep_view();
            assert(lv[i as int] == lines@[i as int]@);
            assert(lv.take(i + 1) =~= lv.take(i as int).push(line@));
            lv.take(i as int).lemma_filter_push(line@, |l: Seq<char>| has_substring(l, query@));
            if matched {
                assert(r.deep_view() =~= prev.push(line@));
            }
        }
        i += 1;
    }
    proof {
        assert(lines.deep_view().take(lines@.len() as int) =~= lines.deep_view());
    }
    r
}

/// Returns the lines of `contents` whose lowercase folding contains the
/// lowercase folding of `query`, in original file order and with their
/// original, unfolded text.
pub fn search_case_insensitive<'a>(query: &str, contents: &'a str) -> (r: Vec<&'a str>)
    ensures
        r.deep_view() == search_results_ci(query@, contents@),
{
    let lower_query = to_lowercase(query);
    let lines = split_lines(contents);
    let mut r: Vec<&'a str> = Vec::new();
    let mut i: usize = 0;
    proof {
        assert(lines.deep_view().take(0) =~= Seq::<Seq<char>>::empty());
        reveal(Seq::filter);
    }
    while i < lines.len()
        invariant
            i <= lines.len(),
            lines.deep_view() == lines_of(contents@),
            lines@.len() == lines.deep_view().len(),
            lower_query@ == lower(query@),
            r.deep_view() == matching_lines_ci(query@, lines.deep_view().take(i as int)),
        decreases lines.len() - i,
    {
        let ghost prev = r.deep_view();
        let line = lines[i];
        let lower_line = to_lowercase(line);
        let matched = contains_substring(lower_line.as_str(), lower_query.as_str());
        if matched {
            r.push(line);
        }
        proof {
            let lv = lines.deep_view();
            assert(lv[i as int] == lines@[i as int]@);
            assert(lv.take(i + 1) =~= lv.take(i as int).push(line@));
            lv.take(i as int).lemma_filter_push(
                line@,
                |l: Seq<char>| has_substring(lower(l), lower(query@)),
            );
            if matched {
                assert(r.deep_view() =~= prev.push(line@));
            }
        }
        i += 1;
    }
    proof {
        assert(lines.deep_view().take(lines@.len() as int) =~= lines.deep_view());
    }
    r
}

/// Runs the search variant that the configuration selects on the full
/// contents of the file, and returns the matching lines in file order.
pub fn search_with_config<'a>(config: &Config, contents: &'a str) -> (r: Vec<&'a str>)
    ensures
        config.ignore_case ==> r.deep_view() == search_results_ci(config.query@, contents@),
        !config.ignore_case ==> r.deep_view() == search_results(config.query@, contents@),
{
    if config.ignore_case {
        search_case_insensitive(config.query.as_str(), contents)
    } else {
        search(config.query.as_str(), contents)
    }
}

/// Every line that `search` returns contains the query as a substring, and
/// the returned lines form a subsequence of the contents' lines: original
/// file order, nothing invented.
pub proof fn lemma_search_sound(query: Seq<char>, contents: Seq<char>)
    ensures
        forall|i: int|
            0 <= i < search_results(query, contents).len() ==> has_substring(
                #[trigger] search_results(query, contents)[i],
                query,
            ),
        subsequence_of(search_results(query, contents), lines_of(contents)),
{
    let p = |l: Seq<char>| has_substring(l, query);
    let ls = lines_of(contents);
    assert forall|i: int| 0 <= i < ls.filter(p).len() implies has_substring(
        #[trigger] ls.filter(p)[i],
        query,
    ) by {
        ls.lemma_filter_pred(p, i);
    }
    lemma_filter_subsequence(ls, p);
}

/// Case-insensitive search returns a superset of case-sensitive search:
/// everything `search` returns, `search_case_insensitive` returns too, in
/// the same order, so its result is at least as long; and every line it
/// returns contains the query up to lowercase folding.
pub proof fn lemma_search_ci_superset(query: Seq<char>, contents: Seq<char>)
    ensures
        subsequence_of(search_results(query, contents), search_results_ci(query, contents)),
        search_results(query, contents).len() <= search_results_ci(query, contents).len(),
        forall|x: Seq<char>|
            search_results(query, contents).contains(x) ==> #[trigger] search_results_ci(
                query,
                contents,
            ).contains(x),
        forall|i: int|
            0 <= i < search_results_ci(query, contents).len() ==> has_substring(
                lower(#[trigger] search_results_ci(query, contents)[i]),
                lower(query),
            ),
{
    let p = |l: Seq<char>| has_substring(l, query);
    let q = |l: Seq<char>| has_substring(lower(l), lower(query));
    let ls = lines_of(contents);
    assert forall|l: Seq<char>| #[trigger] p(l) implies q(l) by {
        lemma_lower_preserves_substring(l, query);
    }
    lemma_filter_monotonic(ls, p, q);
    lemma_subsequence_len(ls.filter(p), ls.filter(q));
    assert forall|x: Seq<char>| ls.filter(p).contains(x) implies #[trigger] ls.filter(q).contains(
        x,
    ) by {
        lemma_subsequence_contains(ls.filter(p), ls.filter(q), x);
    }
    assert forall|i: int| 0 <= i < ls.filter(q).len() implies has_substring(
        lower(#[trigger] ls.filter(q)[i]),
        lower(query),
    ) by {
        ls.lemma_filter_pred(q, i);
    }
}

/// Searching for the empty query returns every line of the contents,
/// unchanged and in order.
pub proof fn lemma_search_empty_query(query: Seq<char>, contents: Seq<char>)
    requires
        query.len() == 0,
    ensures
        search_results(query, contents) == lines_of(contents),
{
    let p = |l: Seq<char>| has_substring(l, query);
    assert forall|l: Seq<char>| #[trigger] p(l) by {
        lemma_empty_needle(l, query);
    }
    lemma_filter_all(lines_of(contents), p);
}

} // verus!
