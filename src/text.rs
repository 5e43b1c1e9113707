use vstd::prelude::*;
use vstd::utf8::*;

verus! {

/// `l` without one carriage return at its end.
pub open spec fn strip_cr(l: Seq<char>) -> Seq<char> {
    if l.len() > 0 && l.last() == '\r' {
        l.drop_last()
    } else {
        l
    }
}

/// The characters of `s` after its last line feed (all of `s` when it has none).
pub open spec fn last_piece(s: Seq<char>) -> Seq<char>
    decreases s.len(),
{
    if s.len() == 0 {
        s
    } else if s.last() == '\n' {
        Seq::empty()
    } else {
        last_piece(s.drop_last()).push(s.last())
    }
}

/// The lines of `s` that a line feed ends, each without its line ending
/// (`"\n"` or `"\r\n"`).
pub open spec fn ended_lines(s: Seq<char>) -> Seq<Seq<char>>
    decreases s.len(),
{
    if s.len() == 0 {
        Seq::empty()
    } else if s.last() == '\n' {
        ended_lines(s.drop_last()).push(strip_cr(last_piece(s.drop_last())))
    } else {
        ended_lines(s.drop_last())
    }
}

/// The lines of `s`: the pieces between line feeds, a `"\r\n"` ending counting
/// as one line ending, and a final line ending being optional (no empty line
/// follows it).
pub open spec fn lines_of(s: Seq<char>) -> Seq<Seq<char>> {
    if last_piece(s).len() == 0 {
        ended_lines(s)
    } else {
        ended_lines(s).push(last_piece(s))
    }
}

/// The views of a sequence of string slices.
pub open spec fn views_of(v: Seq<&str>) -> Seq<Seq<char>> {
    v.map_values(|l: &str| l@)
}

/// The characters of `s`, in order.
pub fn chars_of(s: &str) -> (r: Vec<char>)
    ensures
        r@ == s@,
{
    let mut r: Vec<char> = Vec::new();
    for c in it: s.chars()
        invariant
            r@ == it.seq().take(it.index() as int),
    {
        r.push(c);
    }
    r
}

/// The number of bytes in the UTF-8 encoding of `c`.
fn utf8_width(c: char) -> (w: usize)
    ensures
        w == encode_scalar(c as u32).len(),
        1 <= w <= 4,
{
    broadcast use char_is_scalar;

    let u = c as u32;
    if u <= 0x7F {
        1
    } else if u <= 0x7FF {
        2
    } else if u <= 0xFFFF {
        3
    } else {
        4
    }
}

proof fn lemma_encode_concat(a: Seq<char>, b: Seq<char>)
    ensures
        encode_utf8(a + b) == encode_utf8(a) + encode_utf8(b),
    decreases a.len(),
{
    if a.len() == 0 {
        assert(a + b =~= b);
        assert(encode_utf8(a) + encode_utf8(b) =~= encode_utf8(b));
    } else {
        assert((a + b).drop_first() =~= a.drop_first() + b);
        lemma_encode_concat(a.drop_first(), b);
        assert(encode_utf8(a + b) =~= encode_utf8(a) + encode_utf8(b));
    }
}

proof fn lemma_encode_boundary(a: Seq<char>, b: Seq<char>)
    ensures
        is_char_boundary(encode_utf8(a + b), encode_utf8(a).len() as int),
    decreases a.len(),
{
    let bytes = encode_utf8(a + b);
    encode_utf8_valid_utf8(a + b);
    lemma_encode_concat(a, b);
    if a.len() > 0 {
        encode_utf8_first_scalar(a + b);
        let rest = a.drop_first();
        assert((a + b).drop_first() =~= rest + b);
        assert(pop_first_scalar(bytes) =~= encode_utf8(rest + b));
        lemma_encode_boundary(rest, b);
    }
}

/// The byte offset of character position `k` splits the encoding of `s`
/// into the encodings of the two parts.
proof fn lemma_split_point(s: Seq<char>, k: int)
    requires
        0 <= k <= s.len(),
    ensures
        is_char_boundary(encode_utf8(s), encode_utf8(s.take(k)).len() as int),
        encode_utf8(s).subrange(0, encode_utf8(s.take(k)).len() as int) == encode_utf8(s.take(k)),
        encode_utf8(s).subrange(encode_utf8(s.take(k)).len() as int, encode_utf8(s).len() as int)
            == encode_utf8(s.skip(k)),
{
    assert(s =~= s.take(k) + s.skip(k));
    lemma_encode_concat(s.take(k), s.skip(k));
    lemma_encode_boundary(s.take(k), s.skip(k));
    assert(encode_utf8(s).subrange(0, encode_utf8(s.take(k)).len() as int) =~= encode_utf8(
        s.take(k),
    ));
    assert(encode_utf8(s).subrange(encode_utf8(s.take(k)).len() as int, encode_utf8(s).len() as int)
        =~= encode_utf8(s.skip(k)));
}

/// One more character adds its own width to the encoded length of a prefix.
proof fn lemma_prefix_width(s: Seq<char>, k: int)
    requires
        0 <= k < s.len(),
    ensures
        encode_utf8(s.take(k + 1)).len() == encode_utf8(s.take(k)).len() + encode_scalar(
            s[k] as u32,
        ).len(),
        encode_utf8(s.take(k + 1)).len() <= encode_utf8(s).len(),
{
    let one = seq![s[k]];
    assert(s.take(k + 1) =~= s.take(k) + one);
    lemma_encode_concat(s.take(k), one);
    assert(one.drop_first() =~= Seq::<char>::empty());
    assert(one[0] == s[k]);
    assert(encode_utf8(one.drop_first()) =~= Seq::<u8>::empty());
    assert(encode_utf8(one) =~= encode_scalar(s[k] as u32));
    assert(s =~= s.take(k + 1) + s.skip(k + 1));
    lemma_encode_concat(s.take(k + 1), s.skip(k + 1));
}

/// The part of `s` from character position `from` to `to`, given the byte
/// offsets of those positions.
fn slice_chars<'a>(
    s: &'a str,
    Ghost(from): Ghost<int>,
    Ghost(to): Ghost<int>,
    from_byte: usize,
    to_byte: usize,
) -> (r: &'a str)
    requires
        0 <= from <= to <= s@.len(),
        from_byte == encode_utf8(s@.take(from)).len(),
        to_byte == encode_utf8(s@.take(to)).len(),
    ensures
        r@ == s@.subrange(from, to),
{
    broadcast use encode_utf8_decode_utf8;

    proof {
        lemma_split_point(s@, from);
    }
    let (_, tail) = s.split_at(from_byte);
    assert(tail@ == s@.skip(from)) by {
        assert(encode_utf8(tail@) == encode_utf8(s@.skip(from)));
        assert(decode_utf8(encode_utf8(tail@)) == tail@);
        assert(decode_utf8(encode_utf8(s@.skip(from))) == s@.skip(from));
    }
    let ghost mid = s@.subrange(from, to);
    proof {
        assert(s@.take(to) =~= s@.take(from) + mid);
        lemma_encode_concat(s@.take(from), mid);
        assert(tail@.take(to - from) =~= mid);
        lemma_split_point(tail@, to - from);
    }
    let (r, _) = tail.split_at(to_byte - from_byte);
    assert(r@ == mid) by {
        assert(encode_utf8(r@) == encode_utf8(mid));
        assert(decode_utf8(encode_utf8(r@)) == r@);
        assert(decode_utf8(encode_utf8(mid)) == mid);
    }
    r
}

/// The lines of `content`, as slices of it, in order.
pub fn lines<'a>(content: &'a str) -> (r: Vec<&'a str>)
    ensures
        views_of(r@) == lines_of(content@),
{
    let ghost s = content@;
    let chars = chars_of(content);
    let n = chars.len();
    let total = content.as_bytes().len();
    assert(total == encode_utf8(s).len());
    let mut r: Vec<&'a str> = Vec::new();
    let mut start: usize = 0;
    let mut start_byte: usize = 0;
    let mut pos: usize = 0;
    let mut i: usize = 0;
    assert(s.take(0) =~= Seq::<char>::empty());
    while i < n
        invariant
            n == chars@.len() == s.len(),
            chars@ == s,
            s == content@,
            total == encode_utf8(s).len(),
            start <= i <= n,
            start_byte == encode_utf8(s.take(start as int)).len(),
            pos == encode_utf8(s.take(i as int)).len(),
            s.subrange(start as int, i as int) == last_piece(s.take(i as int)),
            views_of(r@) == ended_lines(s.take(i as int)),
        decreases n - i,
    {
        let c = chars[i];
        let w = utf8_width(c);
        proof {
            lemma_prefix_width(s, i as int);
            assert(s.take(i + 1).drop_last() =~= s.take(i as int));
            assert(s.take(i + 1).last() == c);
        }
        if c == '\n' {
            let line = if i > start && chars[i - 1] == '\r' {
                proof {
                    lemma_prefix_width(s, i - 1);
                    assert(s.subrange(start as int, i - 1) =~= s.subrange(
                        start as int,
                        i as int,
                    ).drop_last());
                }
                slice_chars(content, Ghost(start as int), Ghost(i - 1), start_byte, pos - 1)
            } else {
                slice_chars(content, Ghost(start as int), Ghost(i as int), start_byte, pos)
            };
            assert(line@ == strip_cr(last_piece(s.take(i as int))));
            r.push(line);
            assert(views_of(r@) =~= views_of(r@.drop_last()).push(line@));
            start = i + 1;
            start_byte = pos + w;
            assert(s.subrange(start as int, i + 1) =~= Seq::<char>::empty());
        } else {
            assert(s.subrange(start as int, i + 1) =~= s.subrange(start as int, i as int).push(c));
        }
        pos = pos + w;
        i = i + 1;
    }
    assert(s.take(n as int) =~= s);
    if start < n {
        let line = slice_chars(content, Ghost(start as int), Ghost(n as int), start_byte, pos);
        r.push(line);
        assert(views_of(r@) =~= views_of(r@.drop_last()).push(line@));
    }
    r
}

} // verus!
