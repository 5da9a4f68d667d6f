use vstd::prelude::*;
use vstd::string::*;
use vstd::std_specs::iter::IteratorSpec;

verus! {

broadcast use {vstd::string::axiom_spec_iter, vstd::string::next_postcondition};

/// The line-break convention of the protocol: a carriage return followed by a line feed.
pub open spec fn is_crlf_at(s: Seq<char>, i: int) -> bool {
    0 <= i && i + 1 < s.len() && s[i] == '\r' && s[i + 1] == '\n'
}

/// `r` with `p` prepended to its first element.
pub open spec fn prepend_first(p: Seq<char>, r: Seq<Seq<char>>) -> Seq<Seq<char>>
    recommends
        r.len() > 0,
{
    r.update(0, p + r[0])
}

/// The segments of `s` between its line breaks, in order. There is always at
/// least one segment; a text without line breaks is its own single segment.
pub open spec fn split_crlf(s: Seq<char>) -> Seq<Seq<char>>
    decreases s.len(),
{
    if s.len() == 0 {
        seq![Seq::<char>::empty()]
    } else if is_crlf_at(s, 0) {
        seq![Seq::<char>::empty()] + split_crlf(s.skip(2))
    } else {
        prepend_first(seq![s[0]], split_crlf(s.skip(1)))
    }
}

pub proof fn lemma_split_crlf_nonempty(s: Seq<char>)
    ensures
        split_crlf(s).len() >= 1,
    decreases s.len(),
{
    if s.len() == 0 {
    } else if is_crlf_at(s, 0) {
        lemma_split_crlf_nonempty(s.skip(2));
    } else {
        lemma_split_crlf_nonempty(s.skip(1));
    }
}

/// The lines joined back together, a line break between each two.
pub open spec fn join_crlf(lines: Seq<Seq<char>>) -> Seq<char>
    decreases lines.len(),
{
    if lines.len() <= 1 {
        if lines.len() == 1 {
            lines[0]
        } else {
            Seq::empty()
        }
    } else {
        lines[0] + seq!['\r', '\n'] + join_crlf(lines.skip(1))
    }
}

proof fn lemma_join_prepend_first(p: Seq<char>, r: Seq<Seq<char>>)
    requires
        r.len() >= 1,
    ensures
        join_crlf(prepend_first(p, r)) == p + join_crlf(r),
{
    let q = prepend_first(p, r);
    if r.len() == 1 {
    } else {
        assert(q.skip(1) =~= r.skip(1));
        assert(p + r[0] + seq!['\r', '\n'] + join_crlf(r.skip(1)) =~= p + (r[0] + seq!['\r', '\n'] + join_crlf(
            r.skip(1),
        )));
    }
}

/// Splitting loses nothing: joining the segments with line breaks gives the
/// text back.
pub proof fn lemma_join_split(s: Seq<char>)
    ensures
        join_crlf(split_crlf(s)) == s,
    decreases s.len(),
{
    if s.len() == 0 {
    } else if is_crlf_at(s, 0) {
        lemma_join_split(s.skip(2));
        lemma_split_crlf_nonempty(s.skip(2));
        let r = split_crlf(s.skip(2));
        let whole = seq![Seq::<char>::empty()] + r;
        assert(whole.skip(1) =~= r);
        assert(Seq::<char>::empty() + seq!['\r', '\n'] + s.skip(2) =~= s);
    } else {
        lemma_join_split(s.skip(1));
        lemma_split_crlf_nonempty(s.skip(1));
        lemma_join_prepend_first(seq![s[0]], split_crlf(s.skip(1)));
        assert(seq![s[0]] + s.skip(1) =~= s);
    }
}

/// The characters of `s`, one element each.
pub fn chars_of(s: &str) -> (r: Vec<char>)
    ensures
        r@ == s@,
{
    let mut it = s.chars();
    let mut r: Vec<char> = Vec::new();
    loop
        invariant
            it.obeys_prophetic_iter_laws(),
            r@ + it.remaining() == s@,
            it.decrease() is Some,
        decreases it.decrease()->0,
    {
        let ghost before = it.remaining();
        match it.next() {
            Some(c) => {
                assert(r@.push(c) + it.remaining() =~= r@ + before);
                r.push(c);
            },
            None => {
                assert(r@ =~= s@);
                return r;
            },
        }
    }
}

/// The character sequences of a sequence of strings.
pub open spec fn lines_view(v: Seq<String>) -> Seq<Seq<char>> {
    v.map_values(|l: String| l@)
}

/// Splits `text` on the line-break convention; the pieces hold no line breaks.
pub fn split_lines(text: &str) -> (r: Vec<String>)
    ensures
        lines_view(r@) == split_crlf(text@),
{
    let cs = chars_of(text);
    let n = cs.len();
    let ghost s = text@;
    let mut r: Vec<String> = Vec::new();
    let mut start: usize = 0;
    let mut i: usize = 0;
    assert(s.skip(0) =~= s);
    proof {
        lemma_split_crlf_nonempty(s);
    }
    assert(prepend_first(s.subrange(0, 0), split_crlf(s)) =~= split_crlf(s));
    assert(lines_view(r@) + split_crlf(s) =~= split_crlf(s));
    while i < n
        invariant
            cs@ == s,
            n == s.len(),
            s == text@,
            start <= i <= n,
            split_crlf(s) == lines_view(r@) + prepend_first(s.subrange(start as int, i as int), split_crlf(s.skip(i as int))),
        decreases n - i,
    {
        let ghost rest = s.skip(i as int);
        proof {
            lemma_split_crlf_nonempty(rest);
        }
        if i + 1 < n && cs[i] == '\r' && cs[i + 1] == '\n' {
            assert(is_crlf_at(rest, 0));
            assert(rest.skip(2) =~= s.skip(i + 2));
            let piece = text.substring_char(start, i);
            let line = String::from_str(piece);
            let ghost old_r = r@;
            r.push(line);
            proof {
                lemma_split_crlf_nonempty(s.skip(i + 2));
                let tail = split_crlf(s.skip(i + 2));
                assert(lines_view(r@) =~= lines_view(old_r).push(s.subrange(start as int, i as int)));
                assert(prepend_first(s.subrange(i + 2, i + 2), tail) =~= tail);
                assert(prepend_first(s.subrange(start as int, i as int), split_crlf(rest))
                    =~= seq![s.subrange(start as int, i as int)] + tail);
            }
            i = i + 2;
            start = i;
        } else {
            assert(!is_crlf_at(rest, 0));
            assert(rest.skip(1) =~= s.skip(i + 1));
            proof {
                lemma_split_crlf_nonempty(s.skip(i + 1));
                let tail = split_crlf(s.skip(i + 1));
                let p = s.subrange(start as int, i as int);
                assert(rest[0] == s[i as int]);
                assert(split_crlf(rest) == prepend_first(seq![s[i as int]], tail));
                assert(p + seq![s[i as int]] =~= s.subrange(start as int, i + 1));
                assert(p + (seq![s[i as int]] + tail[0]) =~= (p + seq![s[i as int]]) + tail[0]);
                assert(prepend_first(s.subrange(start as int, i as int), split_crlf(rest))
                    =~= prepend_first(s.subrange(start as int, i + 1), tail));
            }
            i = i + 1;
        }
    }
    assert(s.skip(n as int) =~= Seq::<char>::empty());
    let piece = text.substring_char(start, n);
    let line = String::from_str(piece);
    let ghost old_r = r@;
    r.push(line);
    assert(lines_view(r@) =~= lines_view(old_r).push(s.subrange(start as int, n as int)));
    assert(prepend_first(s.subrange(start as int, n as int), seq![Seq::<char>::empty()])
        =~= seq![s.subrange(start as int, n as int)]);
    r
}

} // verus!
