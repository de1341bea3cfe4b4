//! The search engine: returns the lines of a body that contain a query,
//! either by character-exact comparison or after a Unicode-aware
//! lowercase fold of both sides. A pure function of its inputs.

use vstd::prelude::*;
use crate::text::contains_str;
use crate::text::has_substring;
use crate::text::lemma_empty_needle;
use crate::text::lines_of;
use crate::text::split_lines;

verus! {

/// What a non-empty sequence of characters lowercases to. The fold
/// depends on the characters alone, so the result has a name; nothing
/// more is assumed of it.
pub uninterp spec fn unicode_lower(s: Seq<char>) -> Seq<char>;

/// The Unicode-aware lowercase fold of a sequence of characters. An
/// empty sequence folds to itself.
pub open spec fn lower_of(s: Seq<char>) -> Seq<char> {
    if s.len() == 0 {
        Seq::empty()
    } else {
        unicode_lower(s)
    }
}

/// Relies on str::to_lowercase: a locale-independent lowercase fold whose
/// result depends on the characters alone, and which maps the empty
/// string to the empty string.
#[verifier::external_body]
fn to_lowercase(s: &str) -> (r: String)
    ensures
        r@ == lower_of(s@),
        s@.len() != 0 ==> r@ == unicode_lower(s@),
{
    s.to_lowercase()
}

/// The line is kept by the search, under the given comparison mode.
pub open spec fn line_matches(l: Seq<char>, query: Seq<char>, case_sensitive: bool) -> bool {
    if case_sensitive {
        has_substring(l, query)
    } else {
        has_substring(lower_of(l), lower_of(query))
    }
}

/// The predicate that the search filters the body's lines with.
pub open spec fn line_pred(query: Seq<char>, case_sensitive: bool) -> spec_fn(Seq<char>) -> bool {
    |l: Seq<char>| line_matches(l, query, case_sensitive)
}

/// What a search returns: exactly the lines of the body that match the
/// query under the given mode, in their original order.
pub open spec fn search_matches(query: Seq<char>, body: Seq<char>, case_sensitive: bool) -> Seq<
    Seq<char>,
> {
    lines_of(body).filter(line_pred(query, case_sensitive))
}

/// Filtering a sequence extended by one element keeps the filtered prefix
/// and appends the element exactly when the predicate holds of it.
pub proof fn lemma_filter_push<A>(s: Seq<A>, x: A, pred: spec_fn(A) -> bool)
    ensures
        s.push(x).filter(pred) == if pred(x) {
            s.filter(pred).push(x)
        } else {
            s.filter(pred)
        },
{
    reveal(Seq::filter);
    assert(s.push(x).drop_last() =~= s);
    assert(s.push(x).last() == x);
    assert(s.push(x).len() == s.len() + 1);
}

/// A filter whose predicate holds of every element changes nothing.
pub proof fn lemma_filter_all<A>(s: Seq<A>, pred: spec_fn(A) -> bool)
    requires
        forall|i: int| 0 <= i < s.len() ==> pred(s[i]),
    ensures
        s.filter(pred) == s,
    decreases s.len(),
{
    reveal(Seq::filter);
    if s.len() == 0 {
        assert(s.filter(pred) == s);
    } else {
        assert(pred(s.last()));
        lemma_filter_all(s.drop_last(), pred);
        assert(s.filter(pred) == s.drop_last().filter(pred).push(s.last()));
        assert(s.drop_last().push(s.last()) =~= s);
    }
}

/// A filter whose predicate holds of no element leaves nothing.
pub proof fn lemma_filter_none<A>(s: Seq<A>, pred: spec_fn(A) -> bool)
    requires
        forall|i: int| 0 <= i < s.len() ==> !pred(s[i]),
    ensures
        s.filter(pred) == Seq::<A>::empty(),
    decreases s.len(),
{
    reveal(Seq::filter);
    if s.len() == 0 {
        assert(s.filter(pred) =~= Seq::<A>::empty());
    } else {
        assert(!pred(s.last()));
        lemma_filter_none(s.drop_last(), pred);
        assert(s.filter(pred) == s.drop_last().filter(pred));
    }
}

/// Returns exactly the lines of `contents` that contain `query` as a
/// character-exact contiguous substring, in their original order.
pub fn case_sensitive_search<'a>(query: &str, contents: &'a str) -> (result: Vec<&'a str>)
    ensures
        result.deep_view() == search_matches(query@, contents@, true),
{
    let lines = split_lines(contents);
    let mut result: Vec<&'a str> = Vec::new();
    proof {
        assert(lines.deep_view().subrange(0, 0) =~= Seq::<Seq<char>>::empty());
        assert(result.deep_view() =~= Seq::<Seq<char>>::empty());
        assert(Seq::<Seq<char>>::empty().filter(line_pred(query@, true))
            =~= Seq::<Seq<char>>::empty());
    }
    let mut i: usize = 0;
    while i < lines.len()
        invariant
            lines.deep_view() == lines_of(contents@),
            i <= lines@.len(),
            lines@.len() == lines.deep_view().len(),
            result.deep_view() == lines.deep_view().subrange(0, i as int).filter(
                line_pred(query@, true),
            ),
        decreases lines@.len() - i,
    {
        let ghost prefix = lines.deep_view().subrange(0, i as int);
        let line = lines[i];
        proof {
            assert(line@ == lines.deep_view()[i as int]);
        }
        if contains_str(line, query) {
            result.push(line);
        }
        proof {
            lemma_filter_push(prefix, line@, line_pred(query@, true));
            assert(lines.deep_view().subrange(0, i + 1) =~= prefix.push(line@));
        }
        i = i + 1;
    }
    proof {
        assert(lines.deep_view().subrange(0, lines@.len() as int) =~= lines.deep_view());
    }
    result
}

/// Returns exactly the lines of `contents` whose lowercase fold contains
/// the lowercase fold of `query` as a contiguous substring, in their
/// original order. The lines come back as they stand in the body, not
/// folded.
pub fn case_insensitive_search<'a>(query: &str, contents: &'a str) -> (result: Vec<&'a str>)
    ensures
        result.deep_view() == search_matches(query@, contents@, false),
{
    let folded_query = to_lowercase(query);
    let lines = split_lines(contents);
    let mut result: Vec<&'a str> = Vec::new();
    proof {
        assert(lines.deep_view().subrange(0, 0) =~= Seq::<Seq<char>>::empty());
        assert(result.deep_view() =~= Seq::<Seq<char>>::empty());
        assert(Seq::<Seq<char>>::empty().filter(line_pred(query@, false))
            =~= Seq::<Seq<char>>::empty());
    }
    let mut i: usize = 0;
    while i < lines.len()
        invariant
            folded_query@ == lower_of(query@),
            lines.deep_view() == lines_of(contents@),
            i <= lines@.len(),
            lines@.len() == lines.deep_view().len(),
            result.deep_view() == lines.deep_view().subrange(0, i as int).filter(
                line_pred(query@, false),
            ),
        decreases lines@.len() - i,
    {
        let ghost prefix = lines.deep_view().subrange(0, i as int);
        let line = lines[i];
        proof {
            assert(line@ == lines.deep_view()[i as int]);
        }
        let folded_line = to_lowercase(line);
        if contains_str(folded_line.as_str(), folded_query.as_str()) {
            result.push(line);
        }
        proof {
            lemma_filter_push(prefix, line@, line_pred(query@, false));
            assert(lines.deep_view().subrange(0, i + 1) =~= prefix.push(line@));
        }
        i = i + 1;
    }
    proof {
        assert(lines.deep_view().subrange(0, lines@.len() as int) =~= lines.deep_view());
    }
    result
}

/// Returns the matching lines of `contents` under the mode that
/// `case_sensitive` selects: character-exact comparison when true, a
/// lowercase fold of both sides when false.
pub fn search<'a>(query: &str, contents: &'a str, case_sensitive: bool) -> (result: Vec<&'a str>)
    ensures
        result.deep_view() == search_matches(query@, contents@, case_sensitive),
{
    if case_sensitive {
        case_sensitive_search(query, contents)
    } else {
        case_insensitive_search(query, contents)
    }
}

/// Law: an empty query matches every line, so a search with it returns
/// the body's whole line sequence unchanged and in order, in either
/// comparison mode.
pub proof fn lemma_empty_query_keeps_all(query: Seq<char>, body: Seq<char>, case_sensitive: bool)
    requires
        query.len() == 0,
    ensures
        search_matches(query, body, case_sensitive) == lines_of(body),
{
    let all = lines_of(body);
    assert forall|i: int| 0 <= i < all.len() implies line_pred(query, case_sensitive)(all[i]) by {
        if case_sensitive {
            lemma_empty_needle(all[i], query);
        } else {
            lemma_empty_needle(lower_of(all[i]), lower_of(query));
        }
    }
    lemma_filter_all(all, line_pred(query, case_sensitive));
}

/// Law: a body none of whose lines matches the query yields the empty
/// result sequence — an absent match is not an error.
pub proof fn lemma_no_match_gives_empty(query: Seq<char>, body: Seq<char>, case_sensitive: bool)
    requires
        forall|i: int| 0 <= i < lines_of(body).len() ==> !line_matches(
            #[trigger] lines_of(body)[i],
            query,
            case_sensitive,
        ),
    ensures
        search_matches(query, body, case_sensitive) == Seq::<Seq<char>>::empty(),
{
    lemma_filter_none(lines_of(body), line_pred(query, case_sensitive));
}

/// Law: the search is deterministic. Its contract pins the result to a
/// function of the inputs alone, so any two results obtained for the
/// same query, body and mode are the same sequence.
pub proof fn lemma_search_deterministic(
    query: Seq<char>,
    body: Seq<char>,
    case_sensitive: bool,
    r1: Seq<Seq<char>>,
    r2: Seq<Seq<char>>,
)
    requires
        r1 == search_matches(query, body, case_sensitive),
        r2 == search_matches(query, body, case_sensitive),
    ensures
        r1 == r2,
{
}

} // verus!
