//! A small line-oriented substring searcher.
//!
//! Given a query string and a body of text, `search` returns every line of
//! the text that contains the query as a contiguous substring, in document
//! order; `search_case_insensitive` does the same after lower-casing both
//! the query and each line. The returned lines are borrowed slices into the
//! document, so they must not outlive it. Both functions are total: any
//! query and any document, including empty ones, are accepted.

use vstd::prelude::*;

pub mod fold;
pub mod laws;
pub mod text;

use crate::fold::lower_of;
use crate::fold::to_lowercase_string;
use crate::laws::lemma_filter_push;
use crate::text::contains_query;
use crate::text::contains_seq;
use crate::text::split_into_lines;
use crate::text::split_lines;

verus! {

/// The character sequences of a sequence of string slices.
pub open spec fn views_of(lines: Seq<&str>) -> Seq<Seq<char>> {
    lines.map_values(|s: &str| s@)
}

/// A line matches query `q` exactly when it contains `q` as a substring.
pub open spec fn exact_pred(q: Seq<char>) -> spec_fn(Seq<char>) -> bool {
    |l: Seq<char>| contains_seq(l, q)
}

/// A line matches query `q` case-insensitively when its lower-cased form
/// contains the lower-cased form of `q` as a substring.
pub open spec fn folded_pred(q: Seq<char>) -> spec_fn(Seq<char>) -> bool {
    |l: Seq<char>| contains_seq(lower_of(l), lower_of(q))
}

/// The lines of document `d` that contain query `q` exactly, in document
/// order.
pub open spec fn matching_lines(q: Seq<char>, d: Seq<char>) -> Seq<Seq<char>> {
    split_lines(d).filter(exact_pred(q))
}

/// The lines of document `d` whose lower-cased form contains the
/// lower-cased form of query `q`, in document order.
pub open spec fn matching_lines_ci(q: Seq<char>, d: Seq<char>) -> Seq<Seq<char>> {
    split_lines(d).filter(folded_pred(q))
}

/// What one invocation of the searcher needs: the query, the path of the
/// file to search, and whether case is ignored.
pub struct Config {
    pub query: String,
    pub file_path: String,
    pub ignore_case: bool,
}

impl Config {
    /// Builds a `Config` from the command-line arguments (the first entry
    /// is the program name and is skipped) and the case toggle the caller
    /// read from the environment. Fails, with a message saying which, when
    /// the query or the file path is missing; succeeds on any longer list.
    pub fn build(args: Vec<String>, ignore_case: bool) -> (r: Result<Config, &'static str>)
        ensures
            args@.len() >= 3 ==> (r matches Ok(c) && c.query@ == args@[1]@ && c.file_path@
                == args@[2]@ && c.ignore_case == ignore_case),
            args@.len() < 2 ==> (r matches Err(e) && e@ == "Missing the query character/word"@),
            args@.len() == 2 ==> (r matches Err(e) && e@
                == "Missing the file path to search for"@),
    {
        if args.len() < 2 {
            return Err("Missing the query character/word");
        }
        if args.len() < 3 {
            return Err("Missing the file path to search for");
        }
        let query = args[1].clone();
        let file_path = args[2].clone();
        Ok(Config { query, file_path, ignore_case })
    }
}

/// The search results for an already-read document under `config`'s policy:
/// the case-insensitive matches when `config.ignore_case` is set, the exact
/// matches otherwise.
pub fn run_search<'a>(config: &Config, contents: &'a str) -> (r: Vec<&'a str>)
    ensures
        config.ignore_case ==> views_of(r@) == matching_lines_ci(config.query@, contents@),
        !config.ignore_case ==> views_of(r@) == matching_lines(config.query@, contents@),
{
    if config.ignore_case {
        search_case_insensitive(config.query.as_str(), contents)
    } else {
        search(config.query.as_str(), contents)
    }
}

/// Every line of `contents` that contains `query` as a contiguous
/// substring, in document order, one entry per matching line. Total: any
/// query and any document are accepted, and nothing is mutated. The
/// returned lines borrow from `contents`.
pub fn search<'a>(query: &str, contents: &'a str) -> (r: Vec<&'a str>)
    ensures
        views_of(r@) == matching_lines(query@, contents@),
{
    let lines = split_into_lines(contents);
    let ghost pred = exact_pred(query@);
    let mut r: Vec<&'a str> = Vec::new();
    proof {
        reveal(Seq::filter);
        assert(views_of(lines@).take(0) =~= Seq::<Seq<char>>::empty());
        assert(views_of(r@) =~= Seq::<Seq<char>>::empty());
    }
    let mut i: usize = 0;
    while i < lines.len()
        invariant
            i <= lines@.len(),
            pred == exact_pred(query@),
            views_of(lines@) == split_lines(contents@),
            views_of(r@) == views_of(lines@).take(i as int).filter(pred),
        decreases lines@.len() - i,
    {
        let line = lines[i];
        let m = contains_query(line, query);
        proof {
            lemma_filter_push(views_of(lines@).take(i as int), line@, pred);
            assert(views_of(lines@).take(i + 1) =~= views_of(lines@).take(i as int).push(line@));
            assert(pred(line@) == contains_seq(line@, query@));
            if m {
                assert(views_of(r@.push(line)) =~= views_of(r@).push(line@));
            }
        }
        if m {
            r.push(line);
        }
        i += 1;
    }
    proof {
        assert(views_of(lines@).take(lines@.len() as int) =~= views_of(lines@));
    }
    r
}

/// Every line of `contents` whose lower-cased form contains the
/// lower-cased form of `query` as a contiguous substring, in document
/// order. Lower-casing is applied per call and only for the test: the
/// returned lines are the original ones, borrowed from `contents`. Total:
/// any query and any document are accepted.
pub fn search_case_insensitive<'a>(query: &str, contents: &'a str) -> (r: Vec<&'a str>)
    ensures
        views_of(r@) == matching_lines_ci(query@, contents@),
{
    let folded_query = to_lowercase_string(query);
    let lines = split_into_lines(contents);
    let ghost pred = folded_pred(query@);
    let mut r: Vec<&'a str> = Vec::new();
    proof {
        reveal(Seq::filter);
        assert(views_of(lines@).take(0) =~= Seq::<Seq<char>>::empty());
        assert(views_of(r@) =~= Seq::<Seq<char>>::empty());
    }
    let mut i: usize = 0;
    while i < lines.len()
        invariant
            i <= lines@.len(),
            pred == folded_pred(query@),
            folded_query@ == lower_of(query@),
            views_of(lines@) == split_lines(contents@),
            views_of(r@) == views_of(lines@).take(i as int).filter(pred),
        decreases lines@.len() - i,
    {
        let line = lines[i];
        let folded_line = to_lowercase_string(line);
        let m = contains_query(folded_line.as_str(), folded_query.as_str());
        proof {
            lemma_filter_push(views_of(lines@).take(i as int), line@, pred);
            assert(views_of(lines@).take(i + 1) =~= views_of(lines@).take(i as int).push(line@));
            assert(pred(line@) == contains_seq(lower_of(line@), lower_of(query@)));
            if m {
                assert(views_of(r@.push(line)) =~= views_of(r@).push(line@));
            }
        }
        if m {
            r.push(line);
        }
        i += 1;
    }
    proof {
        assert(views_of(lines@).take(lines@.len() as int) =~= views_of(lines@));
    }
    r
}

} // verus!
