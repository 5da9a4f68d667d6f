use vstd::prelude::*;
use vstd::string::*;

use crate::structures::{Position, Range};
use crate::text::{lines_view, split_crlf, split_lines, lemma_split_crlf_nonempty};

verus! {

/// A document's text as a sequence of lines, without their line breaks.
#[derive(Debug)]
pub struct TextDocument {
    pub lines: Vec<String>,
}

impl View for TextDocument {
    type V = Seq<Seq<char>>;

    open spec fn view(&self) -> Seq<Seq<char>> {
        lines_view(self.lines@)
    }
}

/// `p` addresses a line of `lines` and a character offset within it (the end
/// of the line included).
pub open spec fn position_in_bounds(lines: Seq<Seq<char>>, p: Position) -> bool {
    &&& (p.line as int) < lines.len()
    &&& (p.character as int) <= lines[p.line as int].len()
}

/// Both ends of `r` lie inside `lines`, and `r.start` does not come after `r.end`.
pub open spec fn range_in_bounds(lines: Seq<Seq<char>>, r: Range) -> bool {
    &&& position_in_bounds(lines, r.start)
    &&& position_in_bounds(lines, r.end)
    &&& r.start.line <= r.end.line
    &&& (r.start.line == r.end.line ==> r.start.character <= r.end.character)
}

/// `lines` without the text spanned by `r`: the start line keeps its head
/// before `r.start`, which is joined to the end line's tail from `r.end`, and
/// the lines in between are gone.
pub open spec fn erased(lines: Seq<Seq<char>>, r: Range) -> Seq<Seq<char>> {
    let sl = r.start.line as int;
    let el = r.end.line as int;
    lines.take(sl) + seq![lines[sl].take(r.start.character as int) + lines[el].skip(r.end.character as int)]
        + lines.skip(el + 1)
}

/// `lines` with `text` put in at `p`: the addressed line is broken at `p`, its
/// head goes before the first segment of `text`, its tail after the last, and
/// each segment in between is a line of its own.
pub open spec fn inserted(lines: Seq<Seq<char>>, p: Position, text: Seq<char>) -> Seq<Seq<char>> {
    let line = lines[p.line as int];
    let segs = split_crlf(text);
    let n = segs.len() as int;
    let with_head = segs.update(0, line.take(p.character as int) + segs[0]);
    let with_both = with_head.update(n - 1, with_head[n - 1] + line.skip(p.character as int));
    lines.take(p.line as int) + with_both + lines.skip(p.line as int + 1)
}

/// `lines` with the text of `r` replaced by `text`.
pub open spec fn edited(lines: Seq<Seq<char>>, r: Range, text: Seq<char>) -> Seq<Seq<char>> {
    inserted(erased(lines, r), r.start, text)
}

proof fn lemma_lines_view_concat(a: Seq<String>, b: Seq<String>)
    ensures
        lines_view(a + b) == lines_view(a) + lines_view(b),
{
    assert(lines_view(a + b) =~= lines_view(a) + lines_view(b));
}

/// After erasing a range, its start still addresses the document.
pub proof fn lemma_erase_keeps_start(lines: Seq<Seq<char>>, r: Range)
    requires
        range_in_bounds(lines, r),
    ensures
        position_in_bounds(erased(lines, r), r.start),
{
    let e = erased(lines, r);
    assert(e[r.start.line as int] == lines[r.start.line as int].take(r.start.character as int)
        + lines[r.end.line as int].skip(r.end.character as int));
}

/// Replacing a range by empty text is erasing it.
pub proof fn lemma_edit_empty_is_erase(lines: Seq<Seq<char>>, r: Range)
    requires
        range_in_bounds(lines, r),
    ensures
        edited(lines, r, Seq::empty()) == erased(lines, r),
{
    let e = erased(lines, r);
    let sl = r.start.line as int;
    let sc = r.start.character as int;
    let line = e[sl];
    assert(split_crlf(Seq::<char>::empty()) == seq![Seq::<char>::empty()]);
    assert(line =~= lines[sl].take(sc) + lines[r.end.line as int].skip(r.end.character as int));
    assert(line.take(sc) + Seq::<char>::empty() + line.skip(sc) =~= line);
    assert(e.take(sl) + seq![line] + e.skip(sl + 1) =~= e);
    assert(inserted(e, r.start, Seq::empty()) =~= e);
}

impl PartialEq for TextDocument {
    fn eq(&self, other: &TextDocument) -> (r: bool) {
        let n = self.lines.len();
        if n != other.lines.len() {
            assert(self@.len() != other@.len());
            return false;
        }
        let mut i: usize = 0;
        while i < n
            invariant
                n == self.lines@.len(),
                n == other.lines@.len(),
                i <= n,
                forall|j: int| 0 <= j < i ==> self.lines@[j]@ == other.lines@[j]@,
            decreases n - i,
        {
            if self.lines[i] != other.lines[i] {
                assert(self@[i as int] != other@[i as int]);
                return false;
            }
            i = i + 1;
        }
        assert(self@ =~= other@);
        true
    }
}

impl vstd::std_specs::cmp::PartialEqSpecImpl for TextDocument {
    open spec fn obeys_eq_spec() -> bool {
        true
    }

    open spec fn eq_spec(&self, other: &TextDocument) -> bool {
        self@ == other@
    }
}

impl TextDocument {
    /// A document whose lines are `text` split on the line-break convention.
    pub fn from_text(text: &str) -> (r: TextDocument)
        ensures
            r@ == split_crlf(text@),
            r.wf(),
    {
        proof {
            lemma_split_crlf_nonempty(text@);
        }
        TextDocument { lines: split_lines(text) }
    }

    /// A copy of this document.
    pub fn copy(&self) -> (r: TextDocument)
        ensures
            r@ == self@,
            r.lines@.len() == self.lines@.len(),
    {
        let mut lines: Vec<String> = Vec::new();
        let mut i: usize = 0;
        while i < self.lines.len()
            invariant
                i <= self.lines@.len(),
                lines_view(lines@) == self@.take(i as int),
            decreases self.lines@.len() - i,
        {
            let c = self.lines[i].clone();
            assert(c@ == self@[i as int]);
            let ghost prev = lines@;
            lines.push(c);
            assert(lines_view(lines@) =~= lines_view(prev).push(c@));
            assert(lines_view(lines@) =~= self@.take(i + 1));
            i = i + 1;
        }
        assert(self@.take(i as int) =~= self@);
        TextDocument { lines }
    }

    /// Whether `position` addresses this document.
    pub fn position_fits(&self, position: &Position) -> (r: bool)
        ensures
            r == position_in_bounds(self@, *position),
    {
        let pl = position.line as usize;
        if pl >= self.lines.len() {
            return false;
        }
        let len = self.lines[pl].as_str().unicode_len();
        (position.character as usize) <= len
    }

    /// Whether `range` lies inside this document, its start not after its end.
    pub fn range_fits(&self, range: &Range) -> (r: bool)
        ensures
            r == range_in_bounds(self@, *range),
    {
        self.position_fits(&range.start) && self.position_fits(&range.end) && range.start.line
            <= range.end.line && (range.start.line != range.end.line || range.start.character
            <= range.end.character)
    }

    /// The text of the addressed line from `position` to the line's end.
    pub fn value_at(&self, position: &Position) -> (r: String)
        requires
            position_in_bounds(self@, *position),
        ensures
            r@ == self@[position.line as int].skip(position.character as int),
    {
        let pl = position.line as usize;
        assert(self.lines@[pl as int]@ == self@[pl as int]);
        let len = self.lines[pl].as_str().unicode_len();
        let tail = self.lines[pl].as_str().substring_char(position.character as usize, len);
        String::from_str(tail)
    }

    /// A document always holds at least one line.
    pub open spec fn wf(&self) -> bool {
        self.lines@.len() >= 1
    }

    /// Removes the text spanned by `range`.
    pub fn erase(&mut self, range: &Range)
        requires
            range_in_bounds(old(self)@, *range),
        ensures
            final(self)@ == erased(old(self)@, *range),
            final(self).wf(),
    {
        let sl = range.start.line as usize;
        let el = range.end.line as usize;
        let sc = range.start.character as usize;
        let ec = range.end.character as usize;
        let ghost old_lines = self.lines@;
        let ghost v = self@;
        assert(self.lines@[sl as int]@ == v[sl as int]);
        assert(self.lines@[el as int]@ == v[el as int]);
        let head = self.lines[sl].as_str().substring_char(0, sc);
        let last_len = self.lines[el].as_str().unicode_len();
        let tail = self.lines[el].as_str().substring_char(ec, last_len);
        let mut joined = String::from_str(head);
        joined.append(tail);
        assert(joined@ =~= v[sl as int].take(sc as int) + v[el as int].skip(ec as int));
        let mut k: usize = sl;
        while k < el
            invariant
                sl <= k <= el,
                el < old_lines.len(),
                self.lines@ == old_lines.take(sl as int + 1) + old_lines.skip(k as int + 1),
            decreases el - k,
        {
            self.lines.remove(sl + 1);
            assert(self.lines@ =~= old_lines.take(sl as int + 1) + old_lines.skip(k as int + 2));
            k = k + 1;
        }
        self.lines.set(sl, joined);
        proof {
            assert(self.lines@ =~= old_lines.take(sl as int) + seq![joined] + old_lines.skip(el as int + 1));
            lemma_lines_view_concat(old_lines.take(sl as int) + seq![joined], old_lines.skip(el as int + 1));
            lemma_lines_view_concat(old_lines.take(sl as int), seq![joined]);
            assert(lines_view(old_lines.take(sl as int)) =~= v.take(sl as int));
            assert(lines_view(old_lines.skip(el as int + 1)) =~= v.skip(el as int + 1));
            assert(lines_view(seq![joined]) =~= seq![joined@]);
        }
    }

    /// Puts `text` in at `position`; each line break in `text` breaks the line.
    pub fn insert(&mut self, position: &Position, text: &str)
        requires
            position_in_bounds(old(self)@, *position),
        ensures
            final(self)@ == inserted(old(self)@, *position, text@),
            final(self).wf(),
    {
        let pl = position.line as usize;
        let pc = position.character as usize;
        let ghost old_lines = self.lines@;
        let ghost v = self@;
        let ghost line = v[pl as int];
        assert(self.lines@[pl as int]@ == line);
        let segs = split_lines(text);
        let n = segs.len();
        proof {
            lemma_split_crlf_nonempty(text@);
        }
        let ghost sv = split_crlf(text@);
        assert(forall|j: int| 0 <= j < n ==> #[trigger] segs@[j]@ == sv[j]);
        let line_len = self.lines[pl].as_str().unicode_len();
        let mut head = String::from_str(self.lines[pl].as_str().substring_char(0, pc));
        let tail = String::from_str(self.lines[pl].as_str().substring_char(pc, line_len));
        let ghost with_head = sv.update(0, line.take(pc as int) + sv[0]);
        let ghost with_both = with_head.update(n - 1, with_head[n - 1] + line.skip(pc as int));
        let ghost after = old_lines.skip(pl as int + 1);
        if n == 1 {
            head.append(segs[0].as_str());
            head.append(tail.as_str());
            self.lines.set(pl, head);
            proof {
                assert(self.lines@ =~= old_lines.take(pl as int) + seq![head] + after);
                assert(lines_view(seq![head]) =~= with_both);
            }
        } else {
            head.append(segs[0].as_str());
            self.lines.set(pl, head);
            let mut j: usize = 1;
            while j < n - 1
                invariant
                    1 <= j <= n - 1,
                    n == segs@.len(),
                    n == sv.len(),
                    pl < old_lines.len(),
                    after == old_lines.skip(pl as int + 1),
                    forall|i: int| 0 <= i < n ==> #[trigger] segs@[i]@ == sv[i],
                    head@ == line.take(pc as int) + sv[0],
                    self.lines@ == old_lines.take(pl as int) + seq![head] + segs@.subrange(1, j as int) + after,
                decreases n - 1 - j,
            {
                let piece = segs[j].clone();
                let cur_len = self.lines.len();
                assert(old_lines.take(pl as int).len() == pl);
                assert(after.len() == old_lines.len() - pl - 1);
                assert(segs@.subrange(1, j as int).len() == j - 1);
                assert(cur_len == old_lines.len() + j - 1);
                self.lines.insert(pl + j, piece);
                assert(self.lines@ =~= old_lines.take(pl as int) + seq![head] + segs@.subrange(1, j + 1) + after);
                j = j + 1;
            }
            let mut last = String::from_str(segs[n - 1].as_str());
            last.append(tail.as_str());
            let cur_len = self.lines.len();
            assert(old_lines.take(pl as int).len() == pl);
            assert(after.len() == old_lines.len() - pl - 1);
            assert(segs@.subrange(1, n - 1).len() == n - 2);
            assert(cur_len == old_lines.len() + n - 2);
            self.lines.insert(pl + (n - 1), last);
            proof {
                let mid = seq![head] + segs@.subrange(1, n - 1) + seq![last];
                assert(self.lines@ =~= old_lines.take(pl as int) + mid + after);
                assert(lines_view(mid) =~= with_both);
            }
        }
        proof {
            let cur = self.lines@;
            let k = (cur.len() - after.len()) as int;
            assert(cur.skip(k) =~= after);
            lemma_lines_view_concat(cur.take(k), after);
            assert(cur =~= cur.take(k) + after);
            lemma_lines_view_concat(old_lines.take(pl as int), cur.take(k).skip(pl as int));
            assert(cur.take(k) =~= old_lines.take(pl as int) + cur.take(k).skip(pl as int));
            assert(lines_view(old_lines.take(pl as int)) =~= v.take(pl as int));
            assert(lines_view(after) =~= v.skip(pl as int + 1));
            assert(lines_view(cur.take(k).skip(pl as int)) =~= with_both);
        }
    }

    /// Replaces the text spanned by `range` with `text`: the range is erased
    /// first, then `text` is put in at its start.
    pub fn edit(&mut self, range: &Range, text: &str)
        requires
            range_in_bounds(old(self)@, *range),
        ensures
            final(self)@ == edited(old(self)@, *range, text@),
            final(self).wf(),
    {
        self.erase(range);
        proof {
            lemma_erase_keeps_start(old(self)@, *range);
        }
        self.insert(&range.start, text);
    }
}

} // verus!
