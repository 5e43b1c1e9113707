use vstd::prelude::*;

use crate::search::{contains, line_has, lower_text, lines_containing, lines_containing_ignoring_case};
use crate::text::{lines_of, views_of};

verus! {

/// `idx` picks, in increasing order, positions of `s` that hold the items of
/// `sub`.
pub open spec fn embeds<A>(sub: Seq<A>, s: Seq<A>, idx: Seq<int>) -> bool {
    &&& idx.len() == sub.len()
    &&& forall|j: int| 0 <= j < idx.len() ==> 0 <= #[trigger] idx[j] < s.len() && s[idx[j]] == sub[j]
    &&& forall|j: int, k: int| 0 <= j < k < idx.len() ==> #[trigger] idx[j] < #[trigger] idx[k]
}

/// `sub` is `s` with some items left out, the others kept in order.
pub open spec fn is_subsequence<A>(sub: Seq<A>, s: Seq<A>) -> bool {
    exists|idx: Seq<int>| embeds(sub, s, idx)
}

proof fn lemma_filter_weaker<A>(s: Seq<A>, p: spec_fn(A) -> bool, q: spec_fn(A) -> bool) -> (idx:
    Seq<int>)
    requires
        forall|x: A| #[trigger] p(x) ==> q(x),
    ensures
        embeds(s.filter(p), s.filter(q), idx),
    decreases s.len(),
{
    reveal(Seq::filter);
    if s.len() == 0 {
        Seq::empty()
    } else {
        let x = s.last();
        let fq = s.drop_last().filter(q);
        let idx = lemma_filter_weaker(s.drop_last(), p, q);
        if p(x) {
            let r = idx.push(fq.len() as int);
            assert(s.filter(q) == fq.push(x));
            assert forall|j: int, k: int| 0 <= j < k < r.len() implies #[trigger] r[j]
                < #[trigger] r[k] by {
                if k < idx.len() {
                    assert(r[j] == idx[j] && r[k] == idx[k]);
                }
            }
            r
        } else {
            idx
        }
    }
}

proof fn lemma_filter_all<A>(s: Seq<A>, p: spec_fn(A) -> bool)
    requires
        forall|x: A| #[trigger] p(x),
    ensures
        s.filter(p) == s,
    decreases s.len(),
{
    reveal(Seq::filter);
    if s.len() > 0 {
        lemma_filter_all(s.drop_last(), p);
        assert(s.drop_last().push(s.last()) =~= s);
    }
}

proof fn lemma_lower_concat(a: Seq<char>, b: Seq<char>)
    ensures
        lower_text(a + b) == lower_text(a) + lower_text(b),
    decreases b.len(),
{
    if b.len() == 0 {
        assert(a + b =~= a);
        assert(lower_text(a) + lower_text(b) =~= lower_text(a));
    } else {
        assert((a + b).drop_last() =~= a + b.drop_last());
        lemma_lower_concat(a, b.drop_last());
        assert(lower_text(a + b) =~= lower_text(a) + lower_text(b));
    }
}

/// A line that contains a query still contains it after both are lowercased.
pub proof fn lowercase_keeps_containment(line: Seq<char>, query: Seq<char>)
    requires
        contains(line, query),
    ensures
        contains(lower_text(line), lower_text(query)),
{
    let i = choose|i: int|
        0 <= i && i + query.len() <= line.len() && #[trigger] line.subrange(i, i + query.len())
            == query;
    let pre = line.subrange(0, i);
    let post = line.subrange(i + query.len(), line.len() as int);
    assert(line =~= pre + query + post);
    lemma_lower_concat(pre + query, post);
    lemma_lower_concat(pre, query);
    let low = lower_text(line);
    let at = lower_text(pre).len() as int;
    assert(low.subrange(at, at + lower_text(query).len()) =~= lower_text(query));
}

/// With an empty query, `search` returns every line of the content, in order.
pub proof fn empty_query_matches_every_line(content: Seq<char>)
    ensures
        lines_containing(Seq::empty(), content) == lines_of(content),
{
    assert forall|l: Seq<char>| #[trigger] line_has(Seq::empty(), false)(l) by {
        let e = Seq::<char>::empty();
        assert(l.subrange(0, 0 + e.len() as int) =~= e);
        assert(contains(l, e));
    }
    lemma_filter_all(lines_of(content), line_has(Seq::empty(), false));
}

/// What `search` returns is a subsequence of the lines of the content, in
/// their order, and each line returned contains the query.
pub proof fn matches_are_ordered_lines_with_query(query: Seq<char>, content: Seq<char>)
    ensures
        is_subsequence(lines_containing(query, content), lines_of(content)),
        forall|i: int|
            0 <= i < lines_containing(query, content).len() ==> contains(
                #[trigger] lines_containing(query, content)[i],
                query,
            ),
{
    let ls = lines_of(content);
    let all = |l: Seq<char>| true;
    lemma_filter_all(ls, all);
    let idx = lemma_filter_weaker(ls, line_has(query, false), all);
    assert(embeds(lines_containing(query, content), ls, idx));
    assert forall|i: int| 0 <= i < lines_containing(query, content).len() implies contains(
        #[trigger] lines_containing(query, content)[i],
        query,
    ) by {
        ls.lemma_filter_pred(line_has(query, false), i);
    }
}

/// What `search` returns is a subsequence of what `search_case_insensitive`
/// returns for the same query and content.
pub proof fn exact_matches_within_case_insensitive(query: Seq<char>, content: Seq<char>)
    ensures
        is_subsequence(lines_containing(query, content), lines_containing_ignoring_case(query, content)),
{
    let p = line_has(query, false);
    let q = line_has(lower_text(query), true);
    assert forall|l: Seq<char>| #[trigger] p(l) implies q(l) by {
        lowercase_keeps_containment(l, query);
    }
    let idx = lemma_filter_weaker(lines_of(content), p, q);
    assert(embeds(lines_containing(query, content), lines_containing_ignoring_case(query, content), idx));
}

/// Two queries with the same lowercase form select the same lines when case
/// is ignored.
pub proof fn case_insensitive_depends_on_lowercase_query(
    query1: Seq<char>,
    query2: Seq<char>,
    content: Seq<char>,
)
    requires
        lower_text(query1) == lower_text(query2),
    ensures
        lines_containing_ignoring_case(query1, content) == lines_containing_ignoring_case(query2, content),
{
}

/// Two results of `search` on the same query and content hold the same lines.
pub proof fn search_is_deterministic(
    r1: Seq<&str>,
    r2: Seq<&str>,
    query: Seq<char>,
    content: Seq<char>,
)
    requires
        views_of(r1) == lines_containing(query, content),
        views_of(r2) == lines_containing(query, content),
    ensures
        views_of(r1) == views_of(r2),
{
}

} // verus!
