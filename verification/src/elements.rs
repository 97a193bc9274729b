//! A turn's output as a list of elements: its text, with pictures and screen clears between
//! the lines they fall on.

use crate::art::{ImageView, InlineImage};
use crate::text::{from_chars, slice_chars, to_chars};
use crate::transcript::{clamp_runs, cutting_runs_keeps_the_styles, lemma_runs_after_len,
    lemma_runs_after_twice, min_len, runs_after, runs_before, runs_len, skip_runs, CaptureRun};
use vstd::prelude::*;

verus! {

/// One piece of a turn's output, in the order of its emission.
#[derive(Debug)]
pub enum TranscriptElem {
    /// Text, with the styles it was printed in.
    Text { text: String, runs: Vec<CaptureRun> },
    /// A picture between two lines.
    Image(InlineImage),
    /// A screen clear inside the turn's output: what stands above it is scrollback, and the
    /// live screen begins below it.
    ScreenClear,
}

/// The mathematical model of a [`TranscriptElem`].
pub enum ElemView {
    Text { text: Seq<char>, runs: Seq<CaptureRun> },
    Image(ImageView),
    ScreenClear,
}

impl TranscriptElem {
    /// The model of the element.
    pub open spec fn view(&self) -> ElemView {
        match *self {
            TranscriptElem::Text { text, runs } => ElemView::Text { text: text@, runs: runs@ },
            TranscriptElem::Image(i) => ElemView::Image(i@),
            TranscriptElem::ScreenClear => ElemView::ScreenClear,
        }
    }
}

/// The models of a list of elements.
pub open spec fn elem_views(v: Seq<TranscriptElem>) -> Seq<ElemView> {
    v.map_values(|e: TranscriptElem| e@)
}

/// The text of an element; a picture and a screen clear have none.
pub open spec fn elem_text(e: ElemView) -> Seq<char> {
    match e {
        ElemView::Text { text, runs } => text,
        _ => seq![],
    }
}

/// The texts of a list of elements, one after the other.
pub open spec fn all_text(elems: Seq<ElemView>) -> Seq<char>
    decreases elems.len(),
{
    if elems.len() == 0 {
        seq![]
    } else {
        all_text(elems.drop_last()) + elem_text(elems.last())
    }
}

/// The elements that are not text.
pub open spec fn marks_of(elems: Seq<ElemView>) -> Seq<ElemView> {
    elems.filter(|e: ElemView| !(e is Text))
}

/// The texts of two lists, one after the other.
pub proof fn lemma_all_text_add(a: Seq<ElemView>, b: Seq<ElemView>)
    ensures
        all_text(a + b) == all_text(a) + all_text(b),
    decreases b.len(),
{
    if b.len() == 0 {
        assert(a + b =~= a);
        assert(all_text(a) + all_text(b) =~= all_text(a));
    } else {
        assert((a + b).drop_last() =~= a + b.drop_last());
        lemma_all_text_add(a, b.drop_last());
        assert(all_text(a + b) =~= all_text(a) + all_text(b));
    }
}

// ── Placing the marks ─────────────────────────────────────────────────────────
/// Where the line begins that position `off` lies on.
pub open spec fn line_start(t: Seq<char>, off: int) -> int
    decreases off,
{
    if 0 < off && t[off - 1] != '\n' {
        line_start(t, off - 1)
    } else {
        off
    }
}

/// Where in the text a mark stamped at `abs` falls, when the text began at `base`. A
/// picture stands before the line it was drawn on; a screen clear splits the text where it
/// was stamped.
pub open spec fn mark_offset(t: Seq<char>, abs: u64, base: u64, e: ElemView) -> int {
    let ahead = if abs < base {
        0
    } else {
        abs - base
    };
    let off = min_len(ahead, t.len() as int);
    if e is ScreenClear {
        off
    } else {
        line_start(t, off)
    }
}

/// A list of marks in the order of their offsets, with one more put behind those that fall
/// no later.
pub open spec fn placed(s: Seq<(int, ElemView)>, x: (int, ElemView)) -> Seq<(int, ElemView)>
    decreases s.len(),
{
    if s.len() == 0 || s.last().0 <= x.0 {
        s.push(x)
    } else {
        placed(s.drop_last(), x).push(s.last())
    }
}

/// The marks with their offsets, in the order of the offsets; marks that fall together keep
/// the order they came in.
pub open spec fn placed_marks(
    t: Seq<char>,
    marks: Seq<(u64, ElemView)>,
    base: u64,
) -> Seq<(int, ElemView)>
    decreases marks.len(),
{
    if marks.len() == 0 {
        seq![]
    } else {
        let m = marks.last();
        placed(placed_marks(t, marks.drop_last(), base), (mark_offset(t, m.0, base, m.1), m.1))
    }
}

/// Whether the offsets of a list of marks ascend and lie in a text of length `n`.
pub open spec fn in_order(s: Seq<(int, ElemView)>, n: int) -> bool {
    &&& forall|i: int| 0 <= i < s.len() ==> 0 <= (#[trigger] s[i]).0 <= n
    &&& forall|i: int, j: int| 0 <= i <= j < s.len() ==> (#[trigger] s[i]).0 <= (#[trigger] s[j]).0
}

/// A line begins in the text, no later than the position.
pub proof fn lemma_line_start(t: Seq<char>, off: int)
    requires
        0 <= off,
    ensures
        0 <= line_start(t, off) <= off,
        line_start(t, off) > 0 ==> t[line_start(t, off) - 1] == '\n',
    decreases off,
{
    if 0 < off && t[off - 1] != '\n' {
        lemma_line_start(t, off - 1);
    }
}

/// Putting a mark in place keeps the order, and adds the mark and nothing else.
pub proof fn lemma_placed(s: Seq<(int, ElemView)>, x: (int, ElemView), n: int)
    requires
        in_order(s, n),
        0 <= x.0 <= n,
    ensures
        in_order(placed(s, x), n),
        placed(s, x).len() == s.len() + 1,
        placed(s, x).to_multiset() == s.to_multiset().insert(x),
        s.len() > 0 ==> placed(s, x).last().0 >= s.last().0,
        placed(s, x).last().0 >= x.0,
        placed(s, x).last() == x || (s.len() > 0 && placed(s, x).last() == s.last()),
    decreases s.len(),
{
    broadcast use vstd::seq_lib::group_to_multiset_ensures;

    if s.len() == 0 || s.last().0 <= x.0 {
        vstd::seq_lib::to_multiset_build(s, x);
    } else {
        let p = placed(s.drop_last(), x);
        lemma_placed(s.drop_last(), x, n);
        vstd::seq_lib::to_multiset_build(p, s.last());
        vstd::seq_lib::to_multiset_build(s.drop_last(), s.last());
        assert(s.drop_last().push(s.last()) =~= s);
        assert(p.push(s.last()).to_multiset() =~= s.to_multiset().insert(x));
    }
}

/// Every mark is placed once, in the order of the offsets.
pub proof fn marks_are_placed_in_order(t: Seq<char>, marks: Seq<(u64, ElemView)>, base: u64)
    ensures
        in_order(placed_marks(t, marks, base), t.len() as int),
        placed_marks(t, marks, base).to_multiset() == marks.map_values(
            |m: (u64, ElemView)| (mark_offset(t, m.0, base, m.1), m.1),
        ).to_multiset(),
    decreases marks.len(),
{
    broadcast use vstd::seq_lib::group_to_multiset_ensures;

    let f = |m: (u64, ElemView)| (mark_offset(t, m.0, base, m.1), m.1);
    if marks.len() == 0 {
        assert(marks.map_values(f) =~= seq![]);
    } else {
        let m = marks.last();
        marks_are_placed_in_order(t, marks.drop_last(), base);
        let ahead = if m.0 < base {
            0
        } else {
            m.0 - base
        };
        lemma_line_start(t, min_len(ahead, t.len() as int));
        lemma_placed(placed_marks(t, marks.drop_last(), base), f(m), t.len() as int);
        assert(marks.map_values(f) =~= marks.drop_last().map_values(f).push(f(m)));
        vstd::seq_lib::to_multiset_build(marks.drop_last().map_values(f), f(m));
    }
}

/// The models of a list of placed marks.
pub open spec fn placed_views(v: Seq<(usize, TranscriptElem)>) -> Seq<(int, ElemView)> {
    v.map_values(|m: (usize, TranscriptElem)| (m.0 as int, m.1@))
}

/// The models of a list of stamped marks.
pub open spec fn mark_views(v: Seq<(u64, TranscriptElem)>) -> Seq<(u64, ElemView)> {
    v.map_values(|m: (u64, TranscriptElem)| (m.0, m.1@))
}

/// Where a mark goes is behind the last one that falls no later.
proof fn lemma_placed_is_insert(s: Seq<(int, ElemView)>, x: (int, ElemView), p: int)
    requires
        0 <= p <= s.len(),
        p > 0 ==> s[p - 1].0 <= x.0,
        forall|i: int| p <= i < s.len() ==> (#[trigger] s[i]).0 > x.0,
    ensures
        placed(s, x) == s.insert(p, x),
    decreases s.len(),
{
    if p == s.len() {
        assert(s.insert(p, x) =~= s.push(x));
    } else {
        assert(s[s.len() - 1].0 > x.0);
        lemma_placed_is_insert(s.drop_last(), x, p);
        assert(s.insert(p, x) =~= s.drop_last().insert(p, x).push(s.last()));
    }
}

/// Puts each mark where it falls in the text.
fn place_marks(t: &Vec<char>, marks: Vec<(u64, TranscriptElem)>, base: u64) -> (r: Vec<
    (usize, TranscriptElem),
>)
    ensures
        placed_views(r@) == placed_marks(t@, mark_views(marks@), base),
{
    let total: usize = t.len();
    let ghost all = mark_views(marks@);
    let mut rest: Vec<(u64, TranscriptElem)> = marks;
    let mut r: Vec<(usize, TranscriptElem)> = Vec::new();
    let ghost mut n: int = 0;
    assert(all.take(0) =~= seq![]);
    assert(placed_views(r@) =~= placed_marks(t@, all.take(0), base));
    while rest.len() > 0
        invariant
            total == t@.len(),
            0 <= n <= all.len(),
            rest@.len() == all.len() - n,
            mark_views(rest@) == all.skip(n),
            placed_views(r@) == placed_marks(t@, all.take(n), base),
        decreases rest.len(),
    {
        let ghost rest0 = rest@;
        let (abs, elem) = rest.remove(0);
        let ahead: u64 = abs.saturating_sub(base);
        let mut off: usize = if ahead as u128 > total as u128 {
            total
        } else {
            ahead as usize
        };
        let ghost stamped = off as int;
        let is_clear: bool = matches!(elem, TranscriptElem::ScreenClear);
        if !is_clear {
            while off > 0 && t[off - 1] != '\n'
                invariant
                    off <= t@.len(),
                    line_start(t@, off as int) == line_start(t@, stamped),
                decreases off,
            {
                off = off - 1;
            }
        }
        let ghost x = (off as int, elem@);
        let ghost before = placed_views(r@);
        proof {
            assert(mark_views(rest0)[0] == (abs, elem@));
            assert(all.skip(n)[0] == all[n]);
            assert(off == mark_offset(t@, abs, base, elem@));
            assert(all.take(n + 1).drop_last() =~= all.take(n));
            assert(placed_marks(t@, all.take(n + 1), base) == placed(before, x));
        }
        let mut p: usize = r.len();
        while p > 0 && r[p - 1].0 > off
            invariant
                p <= r@.len(),
                forall|i: int| p <= i < r@.len() ==> (#[trigger] r@[i]).0 > off,
            decreases p,
        {
            p = p - 1;
        }
        proof {
            assert forall|i: int| p <= i < before.len() implies (#[trigger] before[i]).0 > x.0 by {
                assert(before[i].0 == r@[i].0);
            }
            if p > 0 {
                assert(before[p - 1].0 == r@[p - 1].0);
            }
            lemma_placed_is_insert(before, x, p as int);
        }
        r.insert(p, (off, elem));
        proof {
            assert(placed_views(r@) =~= before.insert(p as int, x));
            assert(mark_views(rest@) =~= all.skip(n + 1)) by {
                assert(rest@ =~= rest0.skip(1));
                assert(mark_views(rest0).skip(1) =~= all.skip(n + 1));
            }
            n = n + 1;
        }
    }
    assert(all.take(n) =~= all);
    r
}

// ── Weaving ───────────────────────────────────────────────────────────────────
/// The elements for the text from `pos` on, with the marks between them. The line feed
/// before a mark goes, since the boundary between two elements is a line break itself.
/// Text that ends no later than `frozen` is already painted on the screen, and goes too.
pub open spec fn woven(
    t: Seq<char>,
    runs: Seq<CaptureRun>,
    marks: Seq<(int, ElemView)>,
    pos: int,
    frozen: Option<usize>,
) -> Seq<ElemView>
    decreases marks.len(),
{
    if marks.len() == 0 {
        if pos < t.len() {
            seq![piece(t, runs, pos, t.len() as int)]
        } else {
            seq![]
        }
    } else {
        let off = marks[0].0;
        let next = if off > pos {
            off
        } else {
            pos
        };
        text_before(t, runs, pos, off, frozen) + seq![marks[0].1] + woven(
            t,
            runs,
            marks.drop_first(),
            next,
            frozen,
        )
    }
}

/// The text from `from` to `to` as an element, with its runs.
pub open spec fn piece(t: Seq<char>, runs: Seq<CaptureRun>, from: int, to: int) -> ElemView {
    ElemView::Text {
        text: t.subrange(from, to),
        runs: runs_before(runs_after(runs, from), to - from),
    }
}

/// Where the text before a mark ends: before the line feed that the mark stands behind.
pub open spec fn text_end(t: Seq<char>, off: int) -> int {
    if t[off - 1] == '\n' {
        off - 1
    } else {
        off
    }
}

/// The element, if any, for the text between `pos` and a mark at `off`.
pub open spec fn text_before(
    t: Seq<char>,
    runs: Seq<CaptureRun>,
    pos: int,
    off: int,
    frozen: Option<usize>,
) -> Seq<ElemView> {
    if off > pos && text_end(t, off) > pos && !(frozen matches Some(f) && text_end(t, off) <= f) {
        seq![piece(t, runs, pos, text_end(t, off))]
    } else {
        seq![]
    }
}

/// Weaves pictures and screen clears into a turn's text. Each mark carries the position it
/// was stamped at, counted from where `base` was counted from; the styles are cut along
/// with the text.
pub fn interleave_story_elems(
    text: &str,
    runs: &Vec<CaptureRun>,
    marks: Vec<(u64, TranscriptElem)>,
    base: u64,
    frozen_through: Option<usize>,
) -> (r: Vec<TranscriptElem>)
    ensures
        elem_views(r@) == woven(
            text@,
            runs@,
            placed_marks(text@, mark_views(marks@), base),
            0,
            frozen_through,
        ),
{
    let chars: Vec<char> = to_chars(text);
    let total: usize = chars.len();
    let ghost all = placed_marks(text@, mark_views(marks@), base);
    proof {
        marks_are_placed_in_order(text@, mark_views(marks@), base);
    }
    let mut rest: Vec<(usize, TranscriptElem)> = place_marks(&chars, marks, base);
    let mut left: Vec<CaptureRun> = skip_runs(runs, 0);
    let mut elems: Vec<TranscriptElem> = Vec::new();
    let mut pos: usize = 0;
    let ghost goal = woven(text@, runs@, all, 0, frozen_through);
    assert(elem_views(elems@) + goal =~= goal);
    while rest.len() > 0
        invariant
            chars@ == text@,
            total == chars@.len(),
            pos <= total,
            left@ == runs_after(runs@, pos as int),
            forall|i: int| 0 <= i < rest@.len() ==> (#[trigger] placed_views(rest@)[i]).0 <= total,
            elem_views(elems@) + woven(text@, runs@, placed_views(rest@), pos as int, frozen_through)
                == goal,
        decreases rest.len(),
    {
        let ghost rest0 = rest@;
        let ghost views0 = placed_views(rest0);
        let ghost elems0 = elem_views(elems@);
        let ghost pos0 = pos as int;
        let (off, mark) = rest.remove(0);
        proof {
            assert(views0[0] == (off as int, mark@));
            assert(placed_views(rest@) =~= views0.drop_first());
            assert forall|i: int| 0 <= i < rest@.len() implies (#[trigger] placed_views(
                rest@,
            )[i]).0 <= total by {
                assert(views0[i + 1] == placed_views(rest@)[i]);
            }
        }
        if off > pos {
            let end: usize = if chars[off - 1] == '\n' {
                off - 1
            } else {
                off
            };
            let keep: bool = match frozen_through {
                Some(f) => end > f,
                None => true,
            };
            if end > pos && keep {
                let chunk: String = from_chars(&slice_chars(&chars, pos, end));
                let chunk_runs: Vec<CaptureRun> = clamp_runs(&left, end - pos);
                elems.push(TranscriptElem::Text { text: chunk, runs: chunk_runs });
                assert(elem_views(elems@) =~= elems0 + text_before(
                    text@,
                    runs@,
                    pos0,
                    off as int,
                    frozen_through,
                ));
            } else {
                assert(elem_views(elems@) =~= elems0 + text_before(
                    text@,
                    runs@,
                    pos0,
                    off as int,
                    frozen_through,
                ));
            }
            proof {
                lemma_runs_after_twice(runs@, pos as int, off - pos);
            }
            left = skip_runs(&left, off - pos);
            pos = off;
        } else {
            assert(elem_views(elems@) =~= elems0 + text_before(
                text@,
                runs@,
                pos0,
                off as int,
                frozen_through,
            ));
        }
        let ghost elems1 = elem_views(elems@);
        elems.push(mark);
        proof {
            assert(elem_views(elems@) =~= elems1 + seq![mark@]);
            let tail = woven(text@, runs@, placed_views(rest@), pos as int, frozen_through);
            assert(elem_views(elems@) + tail =~= elems0 + woven(
                text@,
                runs@,
                views0,
                pos0,
                frozen_through,
            ));
        }
    }
    let ghost elems0 = elem_views(elems@);
    assert(placed_views(rest@) =~= seq![]);
    if pos < total {
        let tail: String = from_chars(&slice_chars(&chars, pos, total));
        let tail_runs: Vec<CaptureRun> = clamp_runs(&left, total - pos);
        elems.push(TranscriptElem::Text { text: tail, runs: tail_runs });
        assert(elem_views(elems@) =~= elems0 + seq![piece(text@, runs@, pos as int, total as int)]);
    } else {
        assert(elems0 + seq![] =~= elems0);
    }
    elems
}

// ── Laws of weaving ───────────────────────────────────────────────────────────
/// Whether no mark is text.
pub open spec fn bare_marks(marks: Seq<(int, ElemView)>) -> bool {
    forall|i: int| 0 <= i < marks.len() ==> !((#[trigger] marks[i]).1 is Text)
}

/// Weaving keeps every mark, in order, and adds none.
pub proof fn weaving_keeps_the_marks(
    t: Seq<char>,
    runs: Seq<CaptureRun>,
    marks: Seq<(int, ElemView)>,
    pos: int,
    frozen: Option<usize>,
)
    requires
        bare_marks(marks),
    ensures
        marks_of(woven(t, runs, marks, pos, frozen)) == marks.map_values(|m: (int, ElemView)| m.1),
    decreases marks.len(),
{
    let p = |e: ElemView| !(e is Text);
    reveal(Seq::filter);
    if marks.len() == 0 {
        assert(marks.map_values(|m: (int, ElemView)| m.1) =~= seq![]);
        let w = woven(t, runs, marks, pos, frozen);
        if pos < t.len() {
            assert(w.drop_last() =~= seq![]);
            assert(w.drop_last().filter(p) =~= seq![]);
        }
        assert(w.filter(p) =~= seq![]);
    } else {
        let off = marks[0].0;
        let next = if off > pos {
            off
        } else {
            pos
        };
        let a = text_before(t, runs, pos, off, frozen);
        let b = seq![marks[0].1];
        let c = woven(t, runs, marks.drop_first(), next, frozen);
        assert(bare_marks(marks.drop_first())) by {
            assert forall|i: int| 0 <= i < marks.drop_first().len() implies !((
            #[trigger] marks.drop_first()[i]).1 is Text) by {
                assert(marks.drop_first()[i] == marks[i + 1]);
            }
        }
        weaving_keeps_the_marks(t, runs, marks.drop_first(), next, frozen);
        Seq::filter_distributes_over_add(a + b, c, p);
        Seq::filter_distributes_over_add(a, b, p);
        if a.len() > 0 {
            assert(a.drop_last() =~= seq![]);
            assert(a.drop_last().filter(p) =~= seq![]);
        }
        assert(a.filter(p) =~= seq![]);
        assert(b.drop_last() =~= seq![]);
        assert(b.drop_last().filter(p) =~= seq![]);
        assert(b.filter(p) =~= b);
        assert((a + b + c).filter(p) =~= marks.map_values(|m: (int, ElemView)| m.1));
    }
}

/// The characters of a text that are no line feeds.
pub open spec fn printed(s: Seq<char>) -> Seq<char> {
    s.filter(|c: char| c != '\n')
}

/// Splitting a text splits what is printed of it.
proof fn lemma_printed_add(a: Seq<char>, b: Seq<char>)
    ensures
        printed(a + b) == printed(a) + printed(b),
{
    Seq::filter_distributes_over_add(a, b, |c: char| c != '\n');
}

/// Weaving with nothing frozen loses, doubles and moves no character but line feeds: the
/// texts of the elements print what the text prints.
pub proof fn weaving_keeps_the_text(
    t: Seq<char>,
    runs: Seq<CaptureRun>,
    marks: Seq<(int, ElemView)>,
    pos: int,
)
    requires
        bare_marks(marks),
        0 <= pos <= t.len(),
        forall|i: int| 0 <= i < marks.len() ==> (#[trigger] marks[i]).0 <= t.len(),
    ensures
        printed(all_text(woven(t, runs, marks, pos, None))) == printed(t.skip(pos)),
    decreases marks.len(),
{
    let w = woven(t, runs, marks, pos, None);
    if marks.len() == 0 {
        if pos < t.len() {
            assert(w.drop_last() =~= seq![]);
            assert(all_text(w.drop_last()) =~= seq![]);
            assert(all_text(w) =~= t.skip(pos));
        } else {
            assert(all_text(w) =~= t.skip(pos));
        }
    } else {
        let off = marks[0].0;
        let next = if off > pos {
            off
        } else {
            pos
        };
        let a = text_before(t, runs, pos, off, None);
        let b = seq![marks[0].1];
        let c = woven(t, runs, marks.drop_first(), next, None);
        assert forall|i: int| 0 <= i < marks.drop_first().len() implies !((
        #[trigger] marks.drop_first()[i]).1 is Text) && marks.drop_first()[i].0 <= t.len() by {
            assert(marks.drop_first()[i] == marks[i + 1]);
        }
        weaving_keeps_the_text(t, runs, marks.drop_first(), next);
        lemma_all_text_add(a + b, c);
        lemma_all_text_add(a, b);
        assert(b.drop_last() =~= seq![]);
        assert(all_text(b.drop_last()) =~= seq![]);
        assert(all_text(b) =~= seq![]);
        assert(all_text(a + b) =~= all_text(a));
        lemma_printed_add(all_text(a), all_text(c));
        reveal(Seq::filter);
        if off > pos {
            let e = text_end(t, off);
            let gap = t.subrange(e, off);
            assert(t.skip(pos) =~= t.subrange(pos, e) + (gap + t.skip(off)));
            lemma_printed_add(t.subrange(pos, e), gap + t.skip(off));
            lemma_printed_add(gap, t.skip(off));
            if e < off {
                assert(gap.drop_last() =~= seq![]);
                assert(printed(gap.drop_last()) =~= seq![]);
            }
            assert(printed(gap) =~= seq![]);
            if e > pos {
                assert(a.drop_last() =~= seq![]);
                assert(all_text(a.drop_last()) =~= seq![]);
                assert(all_text(a) =~= t.subrange(pos, e));
            } else {
                assert(a =~= seq![]);
                assert(t.subrange(pos, e) =~= seq![]);
            }
            assert(printed(t.skip(pos)) =~= printed(all_text(a)) + printed(t.skip(off)));
        } else {
            assert(a =~= seq![]);
            assert(printed(all_text(a)) + printed(all_text(c)) =~= printed(all_text(c)));
        }
    }
}

/// Weaving keeps the styles in step with the text: where the runs cover the text, the runs
/// of every text element cover that element.
pub proof fn weaving_keeps_runs_in_step(
    t: Seq<char>,
    runs: Seq<CaptureRun>,
    marks: Seq<(int, ElemView)>,
    pos: int,
    frozen: Option<usize>,
    i: int,
)
    requires
        bare_marks(marks),
        runs_len(runs) >= t.len(),
        0 <= pos <= t.len(),
        forall|j: int| 0 <= j < marks.len() ==> (#[trigger] marks[j]).0 <= t.len(),
        0 <= i < woven(t, runs, marks, pos, frozen).len(),
    ensures
        woven(t, runs, marks, pos, frozen)[i] matches ElemView::Text { text, runs: own }
            ==> runs_len(own) == text.len(),
    decreases marks.len(),
{
    if marks.len() == 0 {
        lemma_piece_in_step(t, runs, pos, t.len() as int);
    } else {
        let off = marks[0].0;
        let next = if off > pos {
            off
        } else {
            pos
        };
        let a = text_before(t, runs, pos, off, frozen);
        let c = woven(t, runs, marks.drop_first(), next, frozen);
        if off > pos {
            lemma_piece_in_step(t, runs, pos, text_end(t, off));
        }
        if i > a.len() {
            assert forall|j: int| 0 <= j < marks.drop_first().len() implies !((
            #[trigger] marks.drop_first()[j]).1 is Text) && marks.drop_first()[j].0 <= t.len() by {
                assert(marks.drop_first()[j] == marks[j + 1]);
            }
            weaving_keeps_runs_in_step(t, runs, marks.drop_first(), next, frozen, i - a.len() - 1);
        }
    }
}

/// The runs of a piece of a text cover the piece.
proof fn lemma_piece_in_step(t: Seq<char>, runs: Seq<CaptureRun>, from: int, to: int)
    requires
        runs_len(runs) >= t.len(),
        0 <= from <= to <= t.len(),
    ensures
        runs_len(runs_before(runs_after(runs, from), to - from)) == to - from,
{
    lemma_runs_after_len(runs, from);
    cutting_runs_keeps_the_styles(runs_after(runs, from), to - from);
}

// ── Trimming ──────────────────────────────────────────────────────────────────
/// The elements without the last `remove` characters of their text.
pub open spec fn without_tail(elems: Seq<ElemView>, remove: int) -> Seq<ElemView>
    decreases elems.len(),
{
    if elems.len() == 0 || remove <= 0 {
        elems
    } else {
        match elems.last() {
            ElemView::Text { text, runs } => {
                if text.len() <= remove {
                    without_tail(elems.drop_last(), remove - text.len()).push(
                        ElemView::Text { text: seq![], runs: seq![] },
                    )
                } else {
                    let n = text.len() - remove;
                    elems.drop_last().push(
                        ElemView::Text { text: text.take(n), runs: runs_before(runs, n) },
                    )
                }
            },
            e => without_tail(elems.drop_last(), remove).push(e),
        }
    }
}

/// Trims the texts of the elements from the end, so that together they are `keep`
/// characters long, or as long as they were if that is shorter. The styles are cut along
/// with the text; pictures and screen clears stay.
pub fn trim_elems_to_len(elems: &mut Vec<TranscriptElem>, keep: usize)
    ensures
        elem_views(final(elems)@) == without_tail(
            elem_views(old(elems)@),
            all_text(elem_views(old(elems)@)).len() - keep,
        ),
{
    let ghost orig = elem_views(elems@);
    let mut total: u128 = 0;
    let mut i: usize = 0;
    while i < elems.len()
        invariant
            i <= elems@.len(),
            orig == elem_views(elems@),
            elems@ == old(elems)@,
            total == all_text(orig.take(i as int)).len(),
            total <= i * usize::MAX,
        decreases elems.len() - i,
    {
        assert(orig.take(i + 1).drop_last() =~= orig.take(i as int));
        assert(orig.take(i + 1).last() == elems@[i as int]@);
        assert(i * usize::MAX + usize::MAX <= u64::MAX * u64::MAX + u64::MAX) by (nonlinear_arith)
            requires
                i <= u64::MAX,
                usize::MAX <= u64::MAX,
        ;
        assert((i + 1) * usize::MAX == i * usize::MAX + usize::MAX) by (nonlinear_arith);
        if let TranscriptElem::Text { text, .. } = &elems[i] {
            let n: usize = text.as_str().unicode_len();
            total = total + n as u128;
        }
        i = i + 1;
    }
    assert(orig.take(i as int) =~= orig);
    if total <= keep as u128 {
        return ;
    }
    let mut remove: u128 = total - keep as u128;
    let ghost goal = without_tail(orig, remove as int);
    assert(orig.skip(i as int) =~= seq![]);
    assert(without_tail(orig.take(i as int), remove as int) + elem_views(elems@).skip(i as int) =~= goal);
    while i > 0 && remove > 0
        invariant
            i <= elems@.len(),
            orig.len() == elems@.len(),
            orig.take(i as int) == elem_views(elems@).take(i as int),
            without_tail(orig.take(i as int), remove as int) + elem_views(elems@).skip(i as int) == goal,
        decreases i,
    {
        let ghost views0 = elem_views(elems@);
        let ghost head = orig.take(i as int);
        let ghost tail0 = views0.skip(i as int);
        proof {
            assert(head.drop_last() =~= orig.take(i - 1));
            assert(views0.take(i as int)[i - 1] == views0[i - 1]);
            assert(head.last() == elems@[i - 1]@);
        }
        let (n, short): (usize, Option<TranscriptElem>) = match &elems[i - 1] {
            TranscriptElem::Text { text, runs } => {
                let n: usize = text.as_str().unicode_len();
                if n as u128 <= remove {
                    (n, Some(TranscriptElem::Text { text: String::new(), runs: Vec::new() }))
                } else {
                    let here: usize = n - remove as usize;
                    let chars: Vec<char> = to_chars(text.as_str());
                    let cut: String = from_chars(&slice_chars(&chars, 0, here));
                    assert(cut@ =~= text@.take(here as int));
                    (n, Some(TranscriptElem::Text { text: cut, runs: clamp_runs(runs, here) }))
                }
            },
            _ => (0, None),
        };
        let ghost remove0 = remove as int;
        if let Some(e) = short {
            elems.set(i - 1, e);
            remove = if n as u128 <= remove {
                remove - n as u128
            } else {
                0
            };
        }
        proof {
            let views1 = elem_views(elems@);
            assert(views1.take(i - 1) =~= views0.take(i - 1));
            assert(views0.take(i - 1) =~= orig.take(i - 1)) by {
                assert(views0.take(i as int).take(i - 1) =~= views0.take(i - 1));
                assert(orig.take(i as int).take(i - 1) =~= orig.take(i - 1));
            }
            assert(views1.skip(i - 1) =~= seq![views1[i - 1]] + tail0);
            assert(without_tail(head, remove0) =~= without_tail(orig.take(i - 1), remove as int).push(
                views1[i - 1],
            ));
            assert(without_tail(orig.take(i - 1), remove as int) + views1.skip(i - 1) =~= goal);
        }
        i = i - 1;
    }
    proof {
        assert(without_tail(orig.take(i as int), remove as int) =~= elem_views(elems@).take(i as int));
        assert(elem_views(elems@) =~= elem_views(elems@).take(i as int) + elem_views(elems@).skip(
            i as int,
        ));
    }
}

/// Trimming leaves the head of the text, at the length asked for, and every mark.
pub proof fn trimming_keeps_the_head(elems: Seq<ElemView>, keep: int)
    requires
        keep >= 0,
    ensures
        all_text(without_tail(elems, all_text(elems).len() - keep)) == all_text(elems).take(
            min_len(keep, all_text(elems).len() as int),
        ),
        marks_of(without_tail(elems, all_text(elems).len() - keep)) == marks_of(elems),
{
    let total = all_text(elems).len() as int;
    if total <= keep {
        assert(all_text(elems).take(total) =~= all_text(elems));
    } else {
        lemma_without_tail(elems, total - keep);
    }
}

/// Cutting the tail of the texts.
proof fn lemma_without_tail(elems: Seq<ElemView>, remove: int)
    requires
        0 <= remove <= all_text(elems).len(),
    ensures
        all_text(without_tail(elems, remove)) == all_text(elems).take(
            all_text(elems).len() - remove,
        ),
        marks_of(without_tail(elems, remove)) == marks_of(elems),
    decreases elems.len(),
{
    reveal(Seq::filter);
    let t = all_text(elems);
    if elems.len() == 0 || remove <= 0 {
        assert(t.take(t.len() - remove) =~= t);
    } else {
        let r = without_tail(elems, remove);
        let front = elems.drop_last();
        match elems.last() {
            ElemView::Text { text, runs } => {
                if text.len() <= remove {
                    lemma_without_tail(front, remove - text.len());
                    assert(r.drop_last() =~= without_tail(front, remove - text.len()));
                    assert(all_text(r) =~= t.take(t.len() - remove));
                } else {
                    assert(r.drop_last() =~= front);
                    assert(all_text(r) =~= t.take(t.len() - remove));
                }
            },
            e => {
                lemma_without_tail(front, remove);
                assert(r.drop_last() =~= without_tail(front, remove));
                assert(all_text(r) =~= t.take(t.len() - remove));
            },
        }
    }
}

/// Marks that fall no earlier than others keep their place behind them: of two marks where
/// the first falls no later, the first is placed first.
pub proof fn lemma_placed_keeps_order(
    t: Seq<char>,
    marks: Seq<(u64, ElemView)>,
    base: u64,
    i: int,
    k: int,
) -> (at: (int, int))
    requires
        0 <= i < k < marks.len(),
        mark_offset(t, marks[i].0, base, marks[i].1) <= mark_offset(
            t,
            marks[k].0,
            base,
            marks[k].1,
        ),
    ensures
        0 <= at.0 < at.1 < placed_marks(t, marks, base).len(),
        placed_marks(t, marks, base)[at.0] == (
            mark_offset(t, marks[i].0, base, marks[i].1),
            marks[i].1,
        ),
        placed_marks(t, marks, base)[at.1] == (
            mark_offset(t, marks[k].0, base, marks[k].1),
            marks[k].1,
        ),
    decreases marks.len(),
{
    let m = marks.last();
    let x = (mark_offset(t, m.0, base, m.1), m.1);
    let before = placed_marks(t, marks.drop_last(), base);
    marks_are_placed_in_order(t, marks.drop_last(), base);
    let p = lemma_placed_at(before, x);
    if k == marks.len() - 1 {
        let a = lemma_one_placed(t, marks.drop_last(), base, i);
        assert(a < p) by {
            if a >= p {
                assert(before[a].0 > x.0);
            }
        }
        (a, p)
    } else {
        let at = lemma_placed_keeps_order(t, marks.drop_last(), base, i, k);
        (
            if at.0 < p {
                at.0
            } else {
                at.0 + 1
            },
            if at.1 < p {
                at.1
            } else {
                at.1 + 1
            },
        )
    }
}

/// Where a mark is put.
proof fn lemma_placed_at(s: Seq<(int, ElemView)>, x: (int, ElemView)) -> (p: int)
    requires
        forall|i: int, j: int|
            0 <= i <= j < s.len() ==> (#[trigger] s[i]).0 <= (#[trigger] s[j]).0,
    ensures
        0 <= p <= s.len(),
        placed(s, x) == s.insert(p, x),
        forall|i: int| p <= i < s.len() ==> (#[trigger] s[i]).0 > x.0,
    decreases s.len(),
{
    if s.len() == 0 || s.last().0 <= x.0 {
        lemma_placed_is_insert(s, x, s.len() as int);
        s.len() as int
    } else {
        let front = s.drop_last();
        assert forall|i: int, j: int| 0 <= i <= j < front.len() implies (#[trigger] front[i]).0
            <= (#[trigger] front[j]).0 by {
            assert(front[i] == s[i] && front[j] == s[j]);
        }
        let p = lemma_placed_at(front, x);
        assert forall|i: int| p <= i < s.len() implies (#[trigger] s[i]).0 > x.0 by {
            if i < front.len() {
                assert(front[i] == s[i]);
            }
        }
        assert(s.insert(p, x) =~= front.insert(p, x).push(s.last()));
        p
    }
}

/// Where one of the marks is put.
proof fn lemma_one_placed(t: Seq<char>, marks: Seq<(u64, ElemView)>, base: u64, i: int) -> (a: int)
    requires
        0 <= i < marks.len(),
    ensures
        0 <= a < placed_marks(t, marks, base).len(),
        placed_marks(t, marks, base)[a] == (
            mark_offset(t, marks[i].0, base, marks[i].1),
            marks[i].1,
        ),
    decreases marks.len(),
{
    let m = marks.last();
    let x = (mark_offset(t, m.0, base, m.1), m.1);
    let before = placed_marks(t, marks.drop_last(), base);
    marks_are_placed_in_order(t, marks.drop_last(), base);
    let p = lemma_placed_at(before, x);
    if i == marks.len() - 1 {
        p
    } else {
        let a = lemma_one_placed(t, marks.drop_last(), base, i);
        if a < p {
            a
        } else {
            a + 1
        }
    }
}

} // verus!
