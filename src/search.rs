use vstd::prelude::*;

use crate::config::Config;
use crate::text::{chars_of, lines, lines_of, views_of};

verus! {

/// `needle` occurs in `hay` as a contiguous run of characters.
pub open spec fn contains(hay: Seq<char>, needle: Seq<char>) -> bool {
    exists|i: int|
        0 <= i && i + needle.len() <= hay.len() && #[trigger] hay.subrange(i, i + needle.len())
            == needle
}

/// The characters that `char::to_lowercase` yields for `c`.
pub uninterp spec fn lower_of(c: char) -> Seq<char>;

/// `s` with each character replaced by its lowercase mapping.
pub open spec fn lower_text(s: Seq<char>) -> Seq<char>
    decreases s.len(),
{
    if s.len() == 0 {
        Seq::empty()
    } else {
        lower_text(s.drop_last()) + lower_of(s.last())
    }
}

/// Whether a line is kept: it contains `needle`, after lowercasing the line
/// when `fold` is set.
pub open spec fn line_has(needle: Seq<char>, fold: bool) -> spec_fn(Seq<char>) -> bool {
    |l: Seq<char>|
        if fold {
            contains(lower_text(l), needle)
        } else {
            contains(l, needle)
        }
}

/// The lines of `content` that contain `query`, in order.
pub open spec fn lines_containing(query: Seq<char>, content: Seq<char>) -> Seq<Seq<char>> {
    lines_of(content).filter(line_has(query, false))
}

/// The lines of `content` whose lowercase form contains the lowercase form of
/// `query`, in order.
pub open spec fn lines_containing_ignoring_case(query: Seq<char>, content: Seq<char>) -> Seq<Seq<char>> {
    lines_of(content).filter(line_has(lower_text(query), true))
}

/// Relies on `char::to_lowercase`: the lowercase mapping of a character,
/// which depends on the character alone.
#[verifier::external_body]
fn lowercase_char(c: char) -> (r: Vec<char>)
    ensures
        r@ == lower_of(c),
{
    c.to_lowercase().collect()
}

/// The lowercase form of `s`, character by character.
pub fn lower_chars(s: &Vec<char>) -> (r: Vec<char>)
    ensures
        r@ == lower_text(s@),
{
    let mut r: Vec<char> = Vec::new();
    let mut i: usize = 0;
    assert(s@.take(0) =~= Seq::<char>::empty());
    while i < s.len()
        invariant
            i <= s.len(),
            r@ == lower_text(s@.take(i as int)),
        decreases s.len() - i,
    {
        let mut low = lowercase_char(s[i]);
        assert(s@.take(i + 1).drop_last() =~= s@.take(i as int));
        r.append(&mut low);
        i = i + 1;
    }
    assert(s@.take(s.len() as int) =~= s@);
    r
}

/// Whether `needle` occurs in `hay` as a contiguous run of characters.
pub fn contains_chars(hay: &Vec<char>, needle: &Vec<char>) -> (r: bool)
    ensures
        r == contains(hay@, needle@),
{
    if needle.len() > hay.len() {
        return false;
    }
    let last = hay.len() - needle.len();
    let mut i: usize = 0;
    while i <= last
        invariant
            last == hay.len() - needle.len(),
            needle.len() <= hay.len(),
            i <= last + 1,
            forall|k: int| 0 <= k < i ==> #[trigger] hay@.subrange(k, k + needle.len()) != needle@,
        decreases last + 1 - i,
    {
        let mut j: usize = 0;
        while j < needle.len() && hay[i + j] == needle[j]
            invariant
                i <= last,
                last == hay.len() - needle.len(),
                j <= needle.len(),
                forall|m: int| 0 <= m < j ==> hay@[i + m] == needle@[m],
            decreases needle.len() - j,
        {
            j = j + 1;
        }
        if j == needle.len() {
            assert(hay@.subrange(i as int, i + needle.len()) =~= needle@);
            return true;
        }
        assert(hay@.subrange(i as int, i + needle.len())[j as int] != needle@[j as int]);
        i = i + 1;
    }
    proof {
        assert forall|k: int| 0 <= k && k + needle.len() <= hay.len() implies #[trigger] hay@.subrange(
            k,
            k + needle.len(),
        ) != needle@ by {}
    }
    false
}

proof fn lemma_filter_push<A>(s: Seq<A>, pred: spec_fn(A) -> bool, x: A)
    ensures
        s.push(x).filter(pred) == if pred(x) {
            s.filter(pred).push(x)
        } else {
            s.filter(pred)
        },
{
    reveal(Seq::filter);
    assert(s.push(x).drop_last() =~= s);
}

/// The lines of `content` that contain `needle`, after lowercasing each line
/// when `fold` is set.
fn select_lines<'a>(content: &'a str, needle: &Vec<char>, fold: bool) -> (r: Vec<&'a str>)
    ensures
        views_of(r@) == lines_of(content@).filter(line_has(needle@, fold)),
{
    let all = lines(content);
    let ghost ls = views_of(all@);
    let mut r: Vec<&'a str> = Vec::new();
    let mut k: usize = 0;
    assert(ls.take(0) =~= Seq::<Seq<char>>::empty());
    reveal(Seq::filter);
    while k < all.len()
        invariant
            k <= all.len(),
            ls == views_of(all@),
            views_of(r@) == ls.take(k as int).filter(line_has(needle@, fold)),
        decreases all.len() - k,
    {
        let line = all[k];
        let chars = chars_of(line);
        let keep = if fold {
            let low = lower_chars(&chars);
            contains_chars(&low, needle)
        } else {
            contains_chars(&chars, needle)
        };
        proof {
            assert(ls.take(k + 1) =~= ls.take(k as int).push(line@));
            lemma_filter_push(ls.take(k as int), line_has(needle@, fold), line@);
        }
        if keep {
            r.push(line);
            assert(views_of(r@) =~= views_of(r@.drop_last()).push(line@));
        }
        k = k + 1;
    }
    assert(ls.take(all.len() as int) =~= ls);
    r
}

/// The lines of `content` that contain `query` exactly, in their order in
/// `content`.
pub fn search<'a>(query: &str, content: &'a str) -> (r: Vec<&'a str>)
    ensures
        views_of(r@) == lines_containing(query@, content@),
{
    let needle = chars_of(query);
    select_lines(content, &needle, false)
}

/// The lines of `content` that contain `query` when both are lowercased, in
/// their order in `content`; the lines are returned as they stand.
pub fn search_case_insensitive<'a>(query: &str, content: &'a str) -> (r: Vec<&'a str>)
    ensures
        views_of(r@) == lines_containing_ignoring_case(query@, content@),
{
    let needle = lower_chars(&chars_of(query));
    select_lines(content, &needle, true)
}

/// The lines that a run with `config` prints for `content`: those of
/// `search_case_insensitive` when `config` asks to ignore case, else those of
/// `search`.
pub fn matching_lines<'a>(config: &Config, content: &'a str) -> (r: Vec<&'a str>)
    ensures
        views_of(r@) == if config.ignore_case {
            lines_containing_ignoring_case(config.query@, content@)
        } else {
            lines_containing(config.query@, content@)
        },
{
    if config.ignore_case {
        search_case_insensitive(config.query.as_str(), content)
    } else {
        search(config.query.as_str(), content)
    }
}

} // verus!
