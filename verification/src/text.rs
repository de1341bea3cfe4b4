//! The mathematical model of a text body — its division into lines and
//! substring containment — together with the verified scanning functions
//! that realise it.
//!
//! Line-terminator convention: a line ends at a line feed (`'\n'`); a
//! carriage return immediately before the line feed is not part of the
//! line. A body that ends with a terminator yields no extra empty final
//! line. This matches the usual line-iteration semantics of Rust's
//! `str::lines`.

use vstd::prelude::*;
use vstd::string::StrSliceExecFns;

verus! {

/// The needle occurs in the haystack starting at position `i`.
pub open spec fn contains_at(hay: Seq<char>, needle: Seq<char>, i: int) -> bool {
    &&& 0 <= i
    &&& i + needle.len() <= hay.len()
    &&& hay.subrange(i, i + needle.len() as int) == needle
}

/// The needle occurs somewhere in the haystack as a contiguous substring.
/// An empty needle occurs in every haystack.
pub open spec fn has_substring(hay: Seq<char>, needle: Seq<char>) -> bool {
    exists|i: int| contains_at(hay, needle, i)
}

/// An empty needle occurs in every haystack (at position 0).
pub proof fn lemma_empty_needle(hay: Seq<char>, needle: Seq<char>)
    requires
        needle.len() == 0,
    ensures
        has_substring(hay, needle),
{
    assert(hay.subrange(0, 0) =~= needle);
    assert(contains_at(hay, needle, 0));
}

/// The position of the first line feed in `s`, or `s.len()` if there is none.
pub open spec fn first_newline(s: Seq<char>) -> nat
    decreases s.len(),
{
    if s.len() == 0 {
        0
    } else if s[0] == '\n' {
        0
    } else {
        1 + first_newline(s.subrange(1, s.len() as int))
    }
}

/// `first_newline` is determined by a scan: if nothing before `i` is a
/// line feed, and `i` is the end or a line feed, then `i` is it.
pub proof fn lemma_first_newline_is(s: Seq<char>, i: int)
    requires
        0 <= i <= s.len(),
        i < s.len() ==> s[i] == '\n',
        forall|k: int| 0 <= k < i ==> s[k] != '\n',
    ensures
        first_newline(s) == i,
    decreases s.len(),
{
    if s.len() == 0 {
    } else if s[0] == '\n' {
        assert(i == 0);
    } else {
        let tail = s.subrange(1, s.len() as int);
        assert(i >= 1);
        assert forall|k: int| 0 <= k < i - 1 implies tail[k] != '\n' by {
            assert(tail[k] == s[k + 1]);
        }
        lemma_first_newline_is(tail, i - 1);
    }
}

/// A line as delivered: the segment without a carriage return that
/// immediately precedes its line feed.
pub open spec fn trim_cr(l: Seq<char>) -> Seq<char> {
    if l.len() > 0 && l[l.len() - 1] == '\r' {
        l.drop_last()
    } else {
        l
    }
}

/// The ordered sequence of lines of a text body, split at line feeds.
/// A final segment without a terminator is a line as it stands (its
/// carriage return, if any, is kept, since no line feed follows); a body
/// that ends with a terminator yields no extra empty line.
pub open spec fn lines_of(s: Seq<char>) -> Seq<Seq<char>>
    decreases s.len(),
{
    if s.len() == 0 {
        Seq::empty()
    } else {
        let nl = first_newline(s) as int;
        if nl >= s.len() {
            seq![s]
        } else {
            seq![trim_cr(s.subrange(0, nl))] + lines_of(s.subrange(nl + 1, s.len() as int))
        }
    }
}

/// Reports whether `needle` occurs in `hay` as a contiguous substring,
/// by character-exact comparison.
pub fn contains_str(hay: &str, needle: &str) -> (found: bool)
    ensures
        found == has_substring(hay@, needle@),
{
    let n = hay.unicode_len();
    let m = needle.unicode_len();
    if m > n {
        proof {
            assert forall|k: int| !contains_at(hay@, needle@, k) by {}
        }
        return false;
    }
    let mut i: usize = 0;
    loop
        invariant
            n == hay@.len(),
            m == needle@.len(),
            m <= n,
            i <= n - m,
            forall|k: int| 0 <= k < i ==> !contains_at(hay@, needle@, k),
        decreases n - m - i,
    {
        let mut j: usize = 0;
        let mut matched = true;
        while matched && j < m
            invariant
                n == hay@.len(),
                m == needle@.len(),
                m <= n,
                i <= n - m,
                j <= m,
                matched ==> forall|k: int| 0 <= k < j ==> hay@[i + k] == needle@[k],
                !matched ==> !contains_at(hay@, needle@, i as int),
                !matched ==> m > 0,
            decreases m - j + (if matched { 1int } else { 0int }),
        {
            if hay.get_char(i + j) == needle.get_char(j) {
                j = j + 1;
            } else {
                proof {
                    if contains_at(hay@, needle@, i as int) {
                        assert(hay@.subrange(i as int, i + needle@.len() as int)[j as int]
                            == hay@[i + j]);
                    }
                }
                matched = false;
            }
        }
        if matched {
            proof {
                assert(hay@.subrange(i as int, i + needle@.len() as int) =~= needle@);
                assert(contains_at(hay@, needle@, i as int));
            }
            return true;
        }
        if i == n - m {
            proof {
                assert forall|k: int| !contains_at(hay@, needle@, k) by {}
            }
            return false;
        }
        i = i + 1;
    }
}

/// Splits a text body into its lines, as `lines_of` describes them.
pub fn split_lines<'a>(contents: &'a str) -> (lines: Vec<&'a str>)
    ensures
        lines.deep_view() == lines_of(contents@),
{
    let n = contents.unicode_len();
    let mut lines: Vec<&'a str> = Vec::new();
    proof {
        assert(contents@.subrange(0, n as int) =~= contents@);
        assert(lines.deep_view() =~= Seq::<Seq<char>>::empty());
        assert(Seq::<Seq<char>>::empty() + lines_of(contents@) =~= lines_of(contents@));
    }
    let mut start: usize = 0;
    while start < n
        invariant
            n == contents@.len(),
            start <= n,
            lines.deep_view() + lines_of(contents@.subrange(start as int, n as int))
                == lines_of(contents@),
        decreases n - start,
    {
        let ghost s = contents@;
        let ghost suffix = s.subrange(start as int, n as int);
        let mut j: usize = start;
        while j < n && contents.get_char(j) != '\n'
            invariant
                n == contents@.len(),
                start <= j <= n,
                forall|k: int| start <= k < j ==> contents@[k] != '\n',
            decreases n - j,
        {
            j = j + 1;
        }
        proof {
            assert forall|k: int| 0 <= k < j - start implies suffix[k] != '\n' by {
                assert(suffix[k] == s[start + k]);
            }
            if (j as int) - (start as int) < suffix.len() {
                assert(suffix[j - start] == s[j as int]);
            }
            lemma_first_newline_is(suffix, j as int - start as int);
        }
        let ghost old_dv = lines.deep_view();
        if j >= n {
            let line = contents.substring_char(start, n);
            lines.push(line);
            proof {
                assert(line@ =~= suffix);
                assert(lines_of(suffix) == seq![suffix]);
                assert(lines.deep_view() =~= old_dv.push(suffix));
                assert(s.subrange(n as int, n as int) =~= Seq::<char>::empty());
                assert(lines_of(Seq::<char>::empty()) =~= Seq::<Seq<char>>::empty());
                assert(old_dv.push(suffix) + Seq::<Seq<char>>::empty() =~= old_dv + seq![suffix]);
            }
            start = n;
        } else {
            let has_cr = j > start && contents.get_char(j - 1) == '\r';
            let end = if has_cr {
                j - 1
            } else {
                j
            };
            let line = contents.substring_char(start, end);
            lines.push(line);
            proof {
                let nl = (j as int) - (start as int);
                assert(suffix.subrange(0, nl) =~= s.subrange(start as int, j as int));
                assert(suffix.subrange(nl + 1, suffix.len() as int)
                    =~= s.subrange(j + 1, n as int));
                let segment = s.subrange(start as int, j as int);
                if has_cr {
                    assert(segment[segment.len() - 1] == s[j - 1]);
                    assert(segment.drop_last() =~= s.subrange(start as int, j - 1));
                } else {
                    if segment.len() > 0 {
                        assert(segment[segment.len() - 1] == s[j - 1]);
                    }
                }
                assert(line@ == trim_cr(segment));
                let rest = lines_of(s.subrange(j + 1, n as int));
                assert(lines_of(suffix) == seq![line@] + rest);
                assert(lines.deep_view() =~= old_dv.push(line@));
                assert(old_dv.push(line@) + rest =~= old_dv + (seq![line@] + rest));
            }
            start = j + 1;
        }
    }
    proof {
        assert(contents@.subrange(n as int, n as int) =~= Seq::<char>::empty());
        assert(lines_of(Seq::<char>::empty()) =~= Seq::<Seq<char>>::empty());
        assert(lines.deep_view() + Seq::<Seq<char>>::empty() =~= lines.deep_view());
    }
    lines
}

} // verus!
