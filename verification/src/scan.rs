//! The line scanner: return the lines of a text that contain a query,
//! case-sensitively or case-insensitively.

use vstd::prelude::*;
use vstd::string::StrSliceExecFns;

use crate::config::Config;
use crate::fold::lemma_lower_of_concat;
use crate::fold::lower_of;
use crate::fold::lowercase_chars;
use crate::lines::spec_lines;
use crate::lines::split_lines;
use crate::matching::contains_at;
use crate::matching::contains_chars;
use crate::matching::contains_substring;
use crate::matching::lemma_empty_needle;

verus! {

/// The match predicate of the case-sensitive search: the line contains the
/// query as an exact substring.
pub open spec fn sensitive_pred(query: Seq<char>) -> spec_fn(Seq<char>) -> bool {
    |line: Seq<char>| contains_substring(line, query)
}

/// The match predicate of the case-insensitive search: the folded line
/// contains the folded query.
pub open spec fn insensitive_pred(query: Seq<char>) -> spec_fn(Seq<char>) -> bool {
    |line: Seq<char>| contains_substring(lower_of(line), lower_of(query))
}

/// The lines of `contents` that contain `query`, in original order.
pub open spec fn spec_search(query: Seq<char>, contents: Seq<char>) -> Seq<Seq<char>> {
    spec_lines(contents).filter(sensitive_pred(query))
}

/// The lines of `contents` whose lowercase folding contains the lowercase
/// folding of `query`, in original order and in their original casing.
pub open spec fn spec_search_ci(query: Seq<char>, contents: Seq<char>) -> Seq<Seq<char>> {
    spec_lines(contents).filter(insensitive_pred(query))
}

/// A filtered sequence keeps only elements that satisfy the predicate.
proof fn lemma_filter_pred_holds<A>(s: Seq<A>, p: spec_fn(A) -> bool, i: int)
    requires
        0 <= i < s.filter(p).len(),
    ensures
        p(s.filter(p)[i]),
{
    s.lemma_filter_pred(p, i);
}

/// Every element of a filtered sequence is an element of the sequence.
proof fn lemma_filter_elements<A>(s: Seq<A>, p: spec_fn(A) -> bool, i: int)
    requires
        0 <= i < s.filter(p).len(),
    ensures
        s.contains(s.filter(p)[i]),
    decreases s.len(),
{
    reveal(Seq::filter);
    let f = s.filter(p);
    let t = s.drop_last();
    if p(s.last()) && i == f.len() - 1 {
        assert(s[s.len() - 1] == f[i]);
    } else {
        assert(f[i] == t.filter(p)[i]);
        lemma_filter_elements(t, p, i);
        let j = choose|j: int| 0 <= j < t.len() && t[j] == t.filter(p)[i];
        assert(s[j] == f[i]);
    }
}

/// A filter whose predicate holds of every element keeps the sequence whole.
proof fn lemma_filter_all<A>(s: Seq<A>, p: spec_fn(A) -> bool)
    requires
        forall|i: int| 0 <= i < s.len() ==> p(#[trigger] s[i]),
    ensures
        s.filter(p) == s,
    decreases s.len(),
{
    reveal(Seq::filter);
    if s.len() > 0 {
        let t = s.drop_last();
        assert(forall|i: int| 0 <= i < t.len() ==> #[trigger] t[i] == s[i]);
        lemma_filter_all(t, p);
        assert(p(s[s.len() - 1]));
        assert(t.push(s.last()) =~= s);
    }
}

/// A weaker predicate filters out no more than a stronger one: the weaker
/// filter's multiset contains the stronger filter's, so every kept line is
/// kept at least as often.
proof fn lemma_filter_multiset_subset<A>(s: Seq<A>, p1: spec_fn(A) -> bool, p2: spec_fn(A) -> bool)
    requires
        forall|x: A| #[trigger] p1(x) ==> p2(x),
    ensures
        s.filter(p1).to_multiset().subset_of(s.filter(p2).to_multiset()),
    decreases s.len(),
{
    reveal(Seq::filter);
    broadcast use vstd::seq_lib::to_multiset_build;
    broadcast use vstd::multiset::group_multiset_axioms;

    if s.len() > 0 {
        let t = s.drop_last();
        lemma_filter_multiset_subset(t, p1, p2);
        let m1 = t.filter(p1).to_multiset();
        let m2 = t.filter(p2).to_multiset();
        let x = s.last();
        if p1(x) {
            assert(p2(x));
            assert(s.filter(p1).to_multiset() == m1.insert(x));
            assert(s.filter(p2).to_multiset() == m2.insert(x));
            assert forall|v: A| m1.insert(x).count(v) <= #[trigger] m2.insert(x).count(v) by {
                assert(m1.count(v) <= m2.count(v));
            }
        } else if p2(x) {
            assert(s.filter(p1).to_multiset() == m1);
            assert(s.filter(p2).to_multiset() == m2.insert(x));
            assert forall|v: A| m1.count(v) <= #[trigger] m2.insert(x).count(v) by {
                assert(m1.count(v) <= m2.count(v));
            }
        }
    }
}

/// `f` places every element of `sub` at a position of `s` holding the same
/// element, and keeps the order: later elements of `sub` stand later in `s`.
pub open spec fn selection_map_ok<A>(sub: Seq<A>, s: Seq<A>, f: spec_fn(int) -> int) -> bool {
    &&& forall|i: int| 0 <= i < sub.len() ==> 0 <= #[trigger] f(i) < s.len() && sub[i] == s[f(i)]
    &&& forall|i: int, j: int| 0 <= i < j < sub.len() ==> #[trigger] f(i) < #[trigger] f(j)
}

/// A filtered sequence is an order-preserving selection from the original.
proof fn lemma_filter_ordered_selection<A>(s: Seq<A>, p: spec_fn(A) -> bool) -> (f: spec_fn(
    int,
) -> int)
    ensures
        selection_map_ok(s.filter(p), s, f),
    decreases s.len(),
{
    reveal(Seq::filter);
    if s.len() == 0 {
        let f = |i: int| 0int;
        f
    } else {
        let t = s.drop_last();
        let f0 = lemma_filter_ordered_selection(t, p);
        let sub = s.filter(p);
        if p(s.last()) {
            let f = |i: int|
                if i == sub.len() - 1 {
                    s.len() - 1
                } else {
                    f0(i)
                };
            assert(sub == t.filter(p).push(s.last()));
            assert forall|i: int| 0 <= i < sub.len() implies 0 <= #[trigger] f(i) < s.len()
                && sub[i] == s[f(i)] by {
                if i < sub.len() - 1 {
                    assert(sub[i] == t.filter(p)[i]);
                    assert(s[f0(i)] == t[f0(i)]);
                }
            }
            f
        } else {
            assert(sub == t.filter(p));
            assert forall|i: int| 0 <= i < sub.len() implies 0 <= #[trigger] f0(i) < s.len()
                && sub[i] == s[f0(i)] by {
                assert(s[f0(i)] == t[f0(i)]);
            }
            f0
        }
    }
}

/// Law: both searches keep the original line order — the returned lines stand
/// in the contents' line sequence at strictly increasing positions.
pub proof fn lemma_search_order_preserved(query: Seq<char>, contents: Seq<char>) -> (r: (
    spec_fn(int) -> int,
    spec_fn(int) -> int,
))
    ensures
        selection_map_ok(spec_search(query, contents), spec_lines(contents), r.0),
        selection_map_ok(spec_search_ci(query, contents), spec_lines(contents), r.1),
{
    let f0 = lemma_filter_ordered_selection(spec_lines(contents), sensitive_pred(query));
    let f1 = lemma_filter_ordered_selection(spec_lines(contents), insensitive_pred(query));
    (f0, f1)
}

/// Law: the case-sensitive search is sound — every returned line contains the
/// query as an exact substring, and is a line of the contents, unchanged.
pub proof fn lemma_search_sound(query: Seq<char>, contents: Seq<char>, i: int)
    requires
        0 <= i < spec_search(query, contents).len(),
    ensures
        contains_substring(spec_search(query, contents)[i], query),
        spec_lines(contents).contains(spec_search(query, contents)[i]),
{
    lemma_filter_pred_holds(spec_lines(contents), sensitive_pred(query), i);
    lemma_filter_elements(spec_lines(contents), sensitive_pred(query), i);
}

/// Law: the case-sensitive search is complete — every line of the contents
/// that contains the query appears in the result.
pub proof fn lemma_search_complete(query: Seq<char>, contents: Seq<char>, i: int)
    requires
        0 <= i < spec_lines(contents).len(),
        contains_substring(spec_lines(contents)[i], query),
    ensures
        spec_search(query, contents).contains(spec_lines(contents)[i]),
{
    spec_lines(contents).lemma_filter_contains(sensitive_pred(query), i);
}

/// An exact match is also a folded match: a line that contains the query
/// contains it after both are folded to lowercase.
pub proof fn lemma_sensitive_implies_insensitive(line: Seq<char>, query: Seq<char>)
    requires
        contains_substring(line, query),
    ensures
        contains_substring(lower_of(line), lower_of(query)),
{
    let i = choose|i: int| contains_at(line, i, query);
    let pre = line.subrange(0, i);
    let suf = line.subrange(i + query.len(), line.len() as int);
    assert(line =~= (pre + query) + suf);
    lemma_lower_of_concat(pre + query, suf);
    lemma_lower_of_concat(pre, query);
    let lp = lower_of(pre);
    let lq = lower_of(query);
    assert(lower_of(line) == (lp + lq) + lower_of(suf));
    assert(lower_of(line).subrange(lp.len() as int, lp.len() + lq.len() as int) =~= lq);
    assert(contains_at(lower_of(line), lp.len() as int, lq));
}

/// Law: the case-insensitive search returns, counted per line, at least what
/// the case-sensitive search returns on the same inputs.
pub proof fn lemma_insensitive_superset(query: Seq<char>, contents: Seq<char>)
    ensures
        spec_search(query, contents).to_multiset().subset_of(
            spec_search_ci(query, contents).to_multiset(),
        ),
{
    assert forall|l: Seq<char>| #[trigger] sensitive_pred(query)(l) implies insensitive_pred(
        query,
    )(l) by {
        lemma_sensitive_implies_insensitive(l, query);
    }
    lemma_filter_multiset_subset(spec_lines(contents), sensitive_pred(query), insensitive_pred(query));
}

/// Law: the case-insensitive search returns lines in their original casing —
/// every returned line is a line of the contents, unchanged.
pub proof fn lemma_insensitive_original_casing(query: Seq<char>, contents: Seq<char>, i: int)
    requires
        0 <= i < spec_search_ci(query, contents).len(),
    ensures
        spec_lines(contents).contains(spec_search_ci(query, contents)[i]),
{
    lemma_filter_elements(spec_lines(contents), insensitive_pred(query), i);
}

/// Law: both searches are functions of their inputs alone; two runs on
/// identical inputs yield identical results. Together with the contracts of
/// `search` and `search_case_insensitive`, which equate the returned lines
/// with these models, repeated calls agree.
pub proof fn lemma_search_deterministic(
    q1: Seq<char>,
    c1: Seq<char>,
    q2: Seq<char>,
    c2: Seq<char>,
)
    requires
        q1 == q2,
        c1 == c2,
    ensures
        spec_search(q1, c1) == spec_search(q2, c2),
        spec_search_ci(q1, c1) == spec_search_ci(q2, c2),
{
}

/// Law: an empty query matches every line, in either mode.
pub proof fn lemma_empty_query(query: Seq<char>, contents: Seq<char>)
    requires
        query.len() == 0,
    ensures
        spec_search(query, contents) == spec_lines(contents),
        spec_search_ci(query, contents) == spec_lines(contents),
{
    assert(query =~= Seq::<char>::empty());
    assert(lower_of(query) =~= Seq::<char>::empty());
    assert forall|i: int| 0 <= i < spec_lines(contents).len() implies sensitive_pred(query)(
        #[trigger] spec_lines(contents)[i],
    ) by {
        lemma_empty_needle(spec_lines(contents)[i]);
    }
    assert forall|i: int| 0 <= i < spec_lines(contents).len() implies insensitive_pred(query)(
        #[trigger] spec_lines(contents)[i],
    ) by {
        lemma_empty_needle(lower_of(spec_lines(contents)[i]));
    }
    lemma_filter_all(spec_lines(contents), sensitive_pred(query));
    lemma_filter_all(spec_lines(contents), insensitive_pred(query));
}

/// Law: empty contents yield an empty result, in either mode and for any
/// query.
pub proof fn lemma_empty_contents(query: Seq<char>, contents: Seq<char>)
    requires
        contents.len() == 0,
    ensures
        spec_search(query, contents) == Seq::<Seq<char>>::empty(),
        spec_search_ci(query, contents) == Seq::<Seq<char>>::empty(),
{
    reveal(Seq::filter);
    assert(contents =~= Seq::<char>::empty());
    assert(spec_lines(contents) == Seq::<Seq<char>>::empty());
}

/// The characters of a string, as a vector.
fn chars_of(s: &str) -> (r: Vec<char>)
    ensures
        r@ == s@,
{
    let n = s.unicode_len();
    let mut r: Vec<char> = Vec::new();
    let mut i: usize = 0;
    proof {
        assert(r@ =~= s@.subrange(0, 0));
    }
    while i < n
        invariant
            n == s@.len(),
            i <= n,
            r@ == s@.subrange(0, i as int),
        decreases n - i,
    {
        let c = s.get_char(i);
        r.push(c);
        proof {
            assert(s@.subrange(0, i as int).push(s@[i as int]) =~= s@.subrange(0, i + 1));
        }
        i += 1;
    }
    proof {
        assert(s@.subrange(0, n as int) =~= s@);
    }
    r
}

/// Return, in original order, every line of `contents` that contains `query`
/// as an exact substring. The returned lines borrow from `contents`.
pub fn search<'a>(query: &str, contents: &'a str) -> (r: Vec<&'a str>)
    ensures
        r.deep_view() == spec_search(query@, contents@),
{
    let lines = split_lines(contents);
    let qc = chars_of(query);
    let mut r: Vec<&'a str> = Vec::new();
    let mut i: usize = 0;
    let ghost lv = lines.deep_view();
    proof {
        assert(r.deep_view() =~= Seq::<Seq<char>>::empty());
        reveal(Seq::filter);
        assert(lv.subrange(0, 0) =~= Seq::<Seq<char>>::empty());
    }
    while i < lines.len()
        invariant
            qc@ == query@,
            lv == lines.deep_view(),
            lv == spec_lines(contents@),
            i <= lines@.len(),
            r.deep_view() == lv.subrange(0, i as int).filter(sensitive_pred(query@)),
        decreases lines@.len() - i,
    {
        let line = lines[i];
        proof {
            assert(lv[i as int] == lines@[i as int]@);
        }
        let lc = chars_of(line);
        let ghost dv = r.deep_view();
        if contains_chars(&lc, &qc) {
            r.push(line);
            proof {
                assert(r.deep_view() =~= dv.push(line@));
            }
        }
        proof {
            reveal(Seq::filter);
            assert(lv.subrange(0, i + 1).drop_last() =~= lv.subrange(0, i as int));
            assert(lv.subrange(0, i + 1).last() == line@);
        }
        i += 1;
    }
    proof {
        assert(lv.subrange(0, lines@.len() as int) =~= lv);
    }
    r
}

/// Return, in original order and in their original casing, every line of
/// `contents` whose lowercase folding contains the lowercase folding of
/// `query`. The returned lines borrow from `contents`.
pub fn search_case_insensitive<'a>(query: &str, contents: &'a str) -> (r: Vec<&'a str>)
    ensures
        r.deep_view() == spec_search_ci(query@, contents@),
{
    let lines = split_lines(contents);
    let qc = chars_of(query);
    let lq = lowercase_chars(&qc);
    let mut r: Vec<&'a str> = Vec::new();
    let mut i: usize = 0;
    let ghost lv = lines.deep_view();
    proof {
        assert(r.deep_view() =~= Seq::<Seq<char>>::empty());
        reveal(Seq::filter);
        assert(lv.subrange(0, 0) =~= Seq::<Seq<char>>::empty());
    }
    while i < lines.len()
        invariant
            lq@ == lower_of(query@),
            lv == lines.deep_view(),
            lv == spec_lines(contents@),
            i <= lines@.len(),
            r.deep_view() == lv.subrange(0, i as int).filter(insensitive_pred(query@)),
        decreases lines@.len() - i,
    {
        let line = lines[i];
        proof {
            assert(lv[i as int] == lines@[i as int]@);
        }
        let lc = chars_of(line);
        let ll = lowercase_chars(&lc);
        let ghost dv = r.deep_view();
        if contains_chars(&ll, &lq) {
            r.push(line);
            proof {
                assert(r.deep_view() =~= dv.push(line@));
            }
        }
        proof {
            reveal(Seq::filter);
            assert(lv.subrange(0, i + 1).drop_last() =~= lv.subrange(0, i as int));
            assert(lv.subrange(0, i + 1).last() == line@);
        }
        i += 1;
    }
    proof {
        assert(lv.subrange(0, lines@.len() as int) =~= lv);
    }
    r
}

/// Return the matching lines of `contents` under the configuration's mode:
/// case-insensitive when `ignore_case` is set, case-sensitive otherwise.
pub fn matching_lines<'a>(config: &Config, contents: &'a str) -> (r: Vec<&'a str>)
    ensures
        config.ignore_case ==> r.deep_view() == spec_search_ci(config.query@, contents@),
        !config.ignore_case ==> r.deep_view() == spec_search(config.query@, contents@),
{
    if config.ignore_case {
        search_case_insensitive(config.query.as_str(), contents)
    } else {
        search(config.query.as_str(), contents)
    }
}

} // verus!
