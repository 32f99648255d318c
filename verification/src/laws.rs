//! General facts about filtering, and the laws of the searcher.

use vstd::prelude::*;

use crate::exact_pred;
use crate::folded_pred;
use crate::fold::lower_of;
use crate::matching_lines;
use crate::matching_lines_ci;
use crate::text::contains_at;
use crate::text::contains_seq;
use crate::text::split_lines;

verus! {

/// `xs` can be obtained from `ys` by deleting elements, keeping the order
/// of the rest.
pub open spec fn is_subsequence<A>(xs: Seq<A>, ys: Seq<A>) -> bool
    decreases xs.len() + ys.len(),
{
    if xs.len() == 0 {
        true
    } else if ys.len() == 0 {
        false
    } else if xs.last() == ys.last() {
        is_subsequence(xs.drop_last(), ys.drop_last())
    } else {
        is_subsequence(xs, ys.drop_last())
    }
}

/// A subsequence survives extending the larger sequence, and dropping the
/// last element of the smaller one.
proof fn lemma_subsequence_extend<A>(xs: Seq<A>, ys: Seq<A>, y: A)
    requires
        is_subsequence(xs, ys),
    ensures
        is_subsequence(xs, ys.push(y)),
        xs.len() > 0 ==> is_subsequence(xs.drop_last(), ys),
    decreases xs.len() + ys.len(),
{
    if xs.len() > 0 {
        if xs.last() == ys.last() {
            lemma_subsequence_extend(xs.drop_last(), ys.drop_last(), ys.last());
            assert(ys.drop_last().push(ys.last()) =~= ys);
        } else {
            lemma_subsequence_extend(xs, ys.drop_last(), y);
            if xs.drop_last().len() > 0 && xs.drop_last().last() == ys.last() {
                lemma_subsequence_extend(xs.drop_last(), ys.drop_last(), y);
            }
        }
        assert(is_subsequence(xs.drop_last(), ys));
    }
    assert(ys.push(y).drop_last() =~= ys);
    assert(is_subsequence(xs, ys.push(y)));
}

/// Filtering a sequence yields a subsequence of it.
proof fn lemma_filter_is_subsequence<A>(s: Seq<A>, pred: spec_fn(A) -> bool)
    ensures
        is_subsequence(s.filter(pred), s),
    decreases s.len(),
{
    reveal(Seq::filter);
    if s.len() > 0 {
        lemma_filter_is_subsequence(s.drop_last(), pred);
        let rest = s.drop_last().filter(pred);
        if pred(s.last()) {
            assert(rest.push(s.last()).drop_last() =~= rest);
            assert(is_subsequence(s.filter(pred), s));
        } else {
            lemma_subsequence_extend(rest, s.drop_last(), s.last());
            assert(s.drop_last().push(s.last()) =~= s);
        }
    }
}

/// Order preservation: under either policy, the result's lines form a
/// subsequence of the document's lines — nothing is reordered or invented.
pub proof fn lemma_search_preserves_order(q: Seq<char>, d: Seq<char>)
    ensures
        is_subsequence(matching_lines(q, d), split_lines(d)),
        is_subsequence(matching_lines_ci(q, d), split_lines(d)),
{
    lemma_filter_is_subsequence(split_lines(d), exact_pred(q));
    lemma_filter_is_subsequence(split_lines(d), folded_pred(q));
}

/// Substring containment: every line of an exact result contains the query;
/// every line of a case-insensitive result contains it after lower-casing.
pub proof fn lemma_search_result_matches(q: Seq<char>, d: Seq<char>)
    ensures
        forall|i: int|
            0 <= i < matching_lines(q, d).len() ==> contains_seq(
                #[trigger] matching_lines(q, d)[i],
                q,
            ),
        forall|i: int|
            0 <= i < matching_lines_ci(q, d).len() ==> contains_seq(
                lower_of(#[trigger] matching_lines_ci(q, d)[i]),
                lower_of(q),
            ),
{
    assert forall|i: int| 0 <= i < matching_lines(q, d).len() implies contains_seq(
        #[trigger] matching_lines(q, d)[i],
        q,
    ) by {
        split_lines(d).lemma_filter_pred(exact_pred(q), i);
    }
    assert forall|i: int| 0 <= i < matching_lines_ci(q, d).len() implies contains_seq(
        lower_of(#[trigger] matching_lines_ci(q, d)[i]),
        lower_of(q),
    ) by {
        split_lines(d).lemma_filter_pred(folded_pred(q), i);
    }
}

/// Completeness: a document line left out of the result does not contain
/// the query (after lower-casing, for the case-insensitive policy).
pub proof fn lemma_search_complete(q: Seq<char>, d: Seq<char>)
    ensures
        forall|i: int|
            0 <= i < split_lines(d).len() && !matching_lines(q, d).contains(
                #[trigger] split_lines(d)[i],
            ) ==> !contains_seq(split_lines(d)[i], q),
        forall|i: int|
            0 <= i < split_lines(d).len() && !matching_lines_ci(q, d).contains(
                #[trigger] split_lines(d)[i],
            ) ==> !contains_seq(lower_of(split_lines(d)[i]), lower_of(q)),
{
    assert forall|i: int|
        0 <= i < split_lines(d).len() && contains_seq(
            #[trigger] split_lines(d)[i],
            q,
        ) implies matching_lines(q, d).contains(split_lines(d)[i]) by {
        split_lines(d).lemma_filter_contains(exact_pred(q), i);
    }
    assert forall|i: int|
        0 <= i < split_lines(d).len() && contains_seq(
            lower_of(#[trigger] split_lines(d)[i]),
            lower_of(q),
        ) implies matching_lines_ci(q, d).contains(split_lines(d)[i]) by {
        split_lines(d).lemma_filter_contains(folded_pred(q), i);
    }
}

/// Empty query: the empty query matches every line, so searching for it
/// returns the whole document, line by line, in order.
pub proof fn lemma_empty_query_matches_all(d: Seq<char>)
    ensures
        matching_lines(Seq::empty(), d) == split_lines(d),
{
    let q = Seq::<char>::empty();
    let lines = split_lines(d);
    assert forall|i: int| 0 <= i < lines.len() implies #[trigger] exact_pred(q)(lines[i]) by {
        assert(lines[i].subrange(0, 0) =~= q);
        assert(contains_at(lines[i], q, 0));
    }
    lemma_filter_all(lines, exact_pred(q));
}

/// Empty document: searching an empty document returns no lines, under
/// either policy and for any query.
pub proof fn lemma_empty_document(q: Seq<char>)
    ensures
        matching_lines(q, Seq::empty()) == Seq::<Seq<char>>::empty(),
        matching_lines_ci(q, Seq::empty()) == Seq::<Seq<char>>::empty(),
{
    reveal(Seq::filter);
    assert(split_lines(Seq::empty()) == Seq::<Seq<char>>::empty());
}

/// Idempotence: the contract of `search` (and of `search_case_insensitive`)
/// pins the result's line content to a function of the query and the
/// document alone, so two calls on identical inputs return equal results.
pub proof fn lemma_search_deterministic(
    q: Seq<char>,
    d: Seq<char>,
    ignore_case: bool,
    r1: Seq<Seq<char>>,
    r2: Seq<Seq<char>>,
)
    requires
        r1 == if ignore_case {
            matching_lines_ci(q, d)
        } else {
            matching_lines(q, d)
        },
        r2 == if ignore_case {
            matching_lines_ci(q, d)
        } else {
            matching_lines(q, d)
        },
    ensures
        r1 == r2,
{
}

/// Filtering a sequence extended by one element keeps the filtered prefix
/// and appends the element exactly when it satisfies the predicate.
pub proof fn lemma_filter_push<A>(s: Seq<A>, x: A, pred: spec_fn(A) -> bool)
    ensures
        s.push(x).filter(pred) == if pred(x) {
            s.filter(pred).push(x)
        } else {
            s.filter(pred)
        },
{
    reveal(Seq::filter);
    assert(s.push(x).drop_last() =~= s);
    assert(s.push(x).last() == x);
}

/// Filtering with a predicate that holds of every element returns the
/// sequence unchanged.
pub proof fn lemma_filter_all<A>(s: Seq<A>, pred: spec_fn(A) -> bool)
    requires
        forall|i: int| 0 <= i < s.len() ==> pred(s[i]),
    ensures
        s.filter(pred) == s,
    decreases s.len(),
{
    reveal(Seq::filter);
    if s.len() == 0 {
        assert(s.filter(pred) =~= s);
    } else {
        assert forall|i: int| 0 <= i < s.drop_last().len() implies pred(s.drop_last()[i]) by {
            assert(s.drop_last()[i] == s[i]);
        }
        lemma_filter_all(s.drop_last(), pred);
        assert(pred(s.last()));
        assert(s.filter(pred) =~= s);
    }
}

} // verus!
