//! Splitting a document into lines and testing substring containment.
//!
//! A document is a sequence of characters; its lines are the maximal
//! stretches between line feeds, with a carriage return immediately
//! before a line feed (or at the end of the document) not counted as
//! line content.

use vstd::prelude::*;

use crate::views_of;

verus! {

/// Index of the first line feed in `s`, or `s.len()` if there is none.
pub open spec fn first_newline(s: Seq<char>) -> int
    decreases s.len(),
{
    if s.len() == 0 {
        0
    } else if s[0] == '\n' {
        0
    } else {
        1 + first_newline(s.drop_first())
    }
}

/// `first_newline` points at the first line feed: it is a valid position
/// (or the length), everything before it is not a line feed, and the
/// character there, if any, is a line feed.
pub proof fn lemma_first_newline_bounds(s: Seq<char>)
    ensures
        0 <= first_newline(s) <= s.len(),
        first_newline(s) < s.len() ==> s[first_newline(s)] == '\n',
        forall|k: int| 0 <= k < first_newline(s) ==> s[k] != '\n',
    decreases s.len(),
{
    if s.len() == 0 {
    } else if s[0] == '\n' {
    } else {
        lemma_first_newline_bounds(s.drop_first());
        assert forall|k: int| 0 <= k < first_newline(s) implies s[k] != '\n' by {
            if k > 0 {
                assert(s.drop_first()[k - 1] == s[k]);
            }
        }
    }
}

/// `first_newline` is determined by a witness: if nothing before `j` is a
/// line feed and `j` is a line feed (or the end), then `j` is the answer.
pub proof fn lemma_first_newline_at(s: Seq<char>, j: int)
    requires
        0 <= j <= s.len(),
        forall|k: int| 0 <= k < j ==> s[k] != '\n',
        j < s.len() ==> s[j] == '\n',
    ensures
        first_newline(s) == j,
    decreases s.len(),
{
    if s.len() == 0 {
    } else if s[0] == '\n' {
        assert(j == 0);
    } else {
        assert(j >= 1);
        assert forall|k: int| 0 <= k < j - 1 implies s.drop_first()[k] != '\n' by {
            assert(s.drop_first()[k] == s[k + 1]);
        }
        assert(j - 1 < s.drop_first().len() ==> s.drop_first()[j - 1] == s[j]);
        lemma_first_newline_at(s.drop_first(), j - 1);
    }
}

/// A line's content: the line itself, with one trailing carriage return
/// removed if present.
pub open spec fn strip_cr(line: Seq<char>) -> Seq<char> {
    if line.len() > 0 && line.last() == '\r' {
        line.drop_last()
    } else {
        line
    }
}

/// The lines of a document, in order: the stretches between line feeds,
/// each with a trailing carriage return stripped. A final stretch without
/// a trailing line feed is still a line; the empty document has no lines.
pub open spec fn split_lines(s: Seq<char>) -> Seq<Seq<char>>
    decreases s.len(),
{
    if s.len() == 0 {
        Seq::empty()
    } else {
        let i = first_newline(s);
        if i == s.len() {
            seq![strip_cr(s)]
        } else {
            proof {
                lemma_first_newline_bounds(s);
            }
            seq![strip_cr(s.take(i))] + split_lines(s.skip(i + 1))
        }
    }
}

/// Borrows the stretch of `contents` between the character positions
/// `start` and `end`, with a trailing carriage return stripped.
fn extract_line<'a>(contents: &'a str, start: usize, end: usize) -> (line: &'a str)
    requires
        start <= end <= contents@.len(),
    ensures
        line@ == strip_cr(contents@.subrange(start as int, end as int)),
{
    let ghost stretch = contents@.subrange(start as int, end as int);
    if end > start && contents.get_char(end - 1) == '\r' {
        assert(stretch.last() == contents@[end - 1]);
        let line = contents.substring_char(start, end - 1);
        assert(line@ =~= stretch.drop_last());
        line
    } else {
        contents.substring_char(start, end)
    }
}

/// The lines of `contents`, in document order, as borrowed slices whose
/// character sequences are exactly `split_lines` of the document.
pub fn split_into_lines<'a>(contents: &'a str) -> (r: Vec<&'a str>)
    ensures
        views_of(r@) == split_lines(contents@),
{
    let ghost text = contents@;
    let n = contents.unicode_len();
    let mut r: Vec<&'a str> = Vec::new();
    proof {
        assert(text.skip(0) =~= text);
        assert(views_of(r@) + split_lines(text) =~= split_lines(text));
    }
    let mut start: usize = 0;
    let mut i: usize = 0;
    while i < n
        invariant
            n == text.len(),
            text == contents@,
            start <= i <= n,
            forall|k: int| start <= k < i ==> text[k] != '\n',
            split_lines(text) == views_of(r@) + split_lines(text.skip(start as int)),
        decreases n - i,
    {
        let c = contents.get_char(i);
        if c == '\n' {
            let line = extract_line(contents, start, i);
            proof {
                let s = text.skip(start as int);
                assert forall|k: int| 0 <= k < i - start implies s[k] != '\n' by {
                    assert(s[k] == text[start + k]);
                }
                assert(s[i - start] == text[i as int]);
                lemma_first_newline_at(s, i - start);
                assert(s.take(i - start) =~= text.subrange(start as int, i as int));
                assert(s.skip(i - start + 1) =~= text.skip(i + 1));
                assert(split_lines(s) == seq![strip_cr(s.take(i - start))] + split_lines(
                    s.skip(i - start + 1),
                ));
                assert(views_of(r@.push(line)) =~= views_of(r@).push(line@));
                assert(views_of(r@) + split_lines(s) =~= views_of(r@).push(line@) + split_lines(
                    text.skip(i + 1),
                ));
            }
            r.push(line);
            start = i + 1;
        }
        i += 1;
    }
    if start < n {
        let line = extract_line(contents, start, n);
        proof {
            let s = text.skip(start as int);
            assert forall|k: int| 0 <= k < s.len() implies s[k] != '\n' by {
                assert(s[k] == text[start + k]);
            }
            lemma_first_newline_at(s, s.len() as int);
            assert(strip_cr(s) == strip_cr(text.subrange(start as int, n as int))) by {
                assert(s =~= text.subrange(start as int, n as int));
            }
            assert(split_lines(s) == seq![strip_cr(s)]);
            assert(views_of(r@.push(line)) =~= views_of(r@).push(line@));
            assert(views_of(r@) + split_lines(s) =~= views_of(r@).push(line@));
        }
        r.push(line);
    } else {
        proof {
            assert(text.skip(start as int).len() == 0);
            assert(split_lines(text.skip(start as int)) =~= Seq::<Seq<char>>::empty());
            assert(views_of(r@) + split_lines(text.skip(start as int)) =~= views_of(r@));
        }
    }
    r
}

/// `pat` occurs in `text` starting at position `i`.
pub open spec fn contains_at(text: Seq<char>, pat: Seq<char>, i: int) -> bool {
    0 <= i && i + pat.len() <= text.len() && text.subrange(i, i + pat.len() as int) == pat
}

/// `pat` occurs somewhere in `text` as a contiguous substring.
/// The empty pattern occurs in every text, at position zero.
pub open spec fn contains_seq(text: Seq<char>, pat: Seq<char>) -> bool {
    exists|i: int| contains_at(text, pat, i)
}

/// Compares `query` against the characters of `line` starting at `i`.
fn match_at(line: &str, query: &str, i: usize) -> (r: bool)
    requires
        i + query@.len() <= line@.len(),
        line@.len() <= usize::MAX,
    ensures
        r == contains_at(line@, query@, i as int),
{
    let m = query.unicode_len();
    let mut k: usize = 0;
    while k < m
        invariant
            m == query@.len(),
            i + m <= line@.len(),
            line@.len() <= usize::MAX,
            k <= m,
            forall|t: int| 0 <= t < k ==> line@[i + t] == query@[t],
        decreases m - k,
    {
        if line.get_char(i + k) != query.get_char(k) {
            assert(!contains_at(line@, query@, i as int)) by {
                if line@.subrange(i as int, i + m) == query@ {
                    assert(line@.subrange(i as int, i + m)[k as int] == line@[i + k]);
                }
            }
            return false;
        }
        k += 1;
    }
    assert(line@.subrange(i as int, i + m) =~= query@);
    true
}

/// Whether `line` contains `query` as a contiguous substring of its
/// characters. The empty query is contained in every line.
pub fn contains_query(line: &str, query: &str) -> (r: bool)
    ensures
        r == contains_seq(line@, query@),
{
    let n = line.unicode_len();
    let m = query.unicode_len();
    if m > n {
        assert(!contains_seq(line@, query@)) by {
            assert forall|i: int| !contains_at(line@, query@, i) by {}
        }
        return false;
    }
    if m == 0 {
        assert(contains_at(line@, query@, 0)) by {
            assert(line@.subrange(0, 0) =~= query@);
        }
        return true;
    }
    let mut i: usize = 0;
    while i <= n - m
        invariant
            n == line@.len(),
            m == query@.len(),
            1 <= m <= n,
            i <= n - m + 1,
            forall|j: int| 0 <= j < i ==> !contains_at(line@, query@, j),
        decreases n - m - i + 1,
    {
        if match_at(line, query, i) {
            assert(contains_seq(line@, query@));
            return true;
        }
        i += 1;
    }
    assert(!contains_seq(line@, query@)) by {
        assert forall|j: int| !contains_at(line@, query@, j) by {
            if 0 <= j && j + m <= n {
                assert(j < i);
            }
        }
    }
    false
}

} // verus!
