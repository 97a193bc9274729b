//! Where in a turn's output its pictures and its screen clears stand.

use crate::art::{scaled_art, ImageView};
use crate::elements::{all_text, bare_marks, elem_text, elem_views, in_order, lemma_all_text_add,
    lemma_placed_keeps_order, line_start, mark_offset, marks_are_placed_in_order, marks_of, placed_marks, printed, text_before,
    text_end, weaving_keeps_the_marks, woven, ElemView, TranscriptElem};
use crate::floats::float_x;
use crate::layers::{EraseFill, LayersView};
use crate::machine::Machine;
use crate::pacing::{after_all_fills, after_events, after_fills, art_views, covers_of, holds_of};
use crate::pict::{art_in, dims_in};
use crate::raster::Grid;
use crate::session::{also, clear_marks, clear_positions, given, mid_turn_clear, picture_marks,
    retired_offset, GameSession, TurnOutput};
use crate::transcript::{char_styles, cutting_runs_keeps_the_styles, lemma_char_styles_len,
    lemma_runs_after_len, runs_after, runs_before, skipping_runs_keeps_the_styles, CaptureRun};
use crate::turn::{PictureEvent, TurnResult};
use crate::windows::WINDOW_NUMBERS;
use vstd::prelude::*;

verus! {

// ── What stays as it was ──────────────────────────────────────────────────────
/// Erasing boxes keeps the pictures in the prose and the scale.
proof fn lemma_erasing_keeps_prose(
    l: LayersView,
    m: &Machine,
    rect: (u32, u32, u32, u32),
    skip: Option<u8>,
    n: nat,
)
    ensures
        l.erased_below(m, rect, skip, n).story_pics == l.story_pics,
        l.erased_below(m, rect, skip, n).art_scale == l.art_scale,
    decreases n,
{
    if n > 0 {
        lemma_erasing_keeps_prose(l, m, rect, skip, (n - 1) as nat);
    }
}

/// Fills keep the pictures in the prose and the scale.
proof fn lemma_fills_keep_prose(l: LayersView, m: &Machine, fills: Seq<EraseFill>, k: int, i: int)
    ensures
        after_fills(l, m, fills, k, i).0.story_pics == l.story_pics,
        after_fills(l, m, fills, k, i).0.art_scale == l.art_scale,
    decreases fills.len() - k,
{
    if 0 <= k < fills.len() && fills[k].pics_before <= i {
        lemma_fills_keep_prose(l.painted(m, fills[k]), m, fills, k + 1, i);
    }
}

/// Fills keep the pictures in the prose and the scale.
proof fn lemma_all_fills_keep_prose(l: LayersView, m: &Machine, fills: Seq<EraseFill>, k: int)
    ensures
        after_all_fills(l, m, fills, k).story_pics == l.story_pics,
        after_all_fills(l, m, fills, k).art_scale == l.art_scale,
    decreases fills.len() - k,
{
    if 0 <= k < fills.len() {
        lemma_all_fills_keep_prose(l.painted(m, fills[k]), m, fills, k + 1);
    }
}

/// Settling the canvases keeps the pictures in the prose.
proof fn lemma_settling_keeps_prose(l: LayersView, m: &Machine, n: nat)
    ensures
        l.settled_below(m, n).story_pics == l.story_pics,
    decreases n,
{
    if n > 0 {
        lemma_settling_keeps_prose(l, m, (n - 1) as nat);
    }
}

/// Drawing the canvases again keeps the pictures in the prose.
proof fn lemma_redrawing_keeps_prose(l: LayersView, art: Map<u16, Grid>, n: nat)
    ensures
        l.redrawn_below(art, n).story_pics == l.story_pics,
    decreases n,
{
    if n > 0 {
        lemma_redrawing_keeps_prose(l, art, (n - 1) as nat);
    }
}

// ── The pictures of a turn ────────────────────────────────────────────────────
/// Whether a turn anchors a picture in the prose: it draws the picture, in a window that
/// exists, the picture resolves, and it belongs to the flow of the prose.
pub open spec fn anchors_in_prose(s: &GameSession, out: &TurnOutput, i: int) -> bool {
    let ev = out.pictures@[i];
    &&& !ev.erase
    &&& s.machine.has_window(ev.window)
    &&& out.art@[i] is Some
    &&& float_x(
        &s.machine,
        dims_in(s.pict_source, ev.number),
        s.layers.art_scale,
        ev,
    ) is Some
}

/// Whether a picture in the prose is the one that an event drew, at the scale of the screen.
pub open spec fn is_picture_of(s: &GameSession, out: &TurnOutput, i: int, img: ImageView) -> bool {
    let a = out.art@[i]->0;
    &&& img.w == a.width * s.layers.art_scale.0
    &&& img.h == a.height * s.layers.art_scale.1
    &&& img.grid == scaled_art(a.grid(), a.width, a.height, s.layers.art_scale)
    &&& img.margin_px is Some ==> out.pictures@[i].margin_after is Some && img.margin_px->0
        == out.pictures@[i].margin_after->0 && img.align is MarginLeft
    &&& img.align is MarginLeft && out.pictures@[i].margin_after is Some ==> img.margin_px is Some
}

/// What one event does to the pictures in the prose.
proof fn lemma_event_in_prose(
    l: LayersView,
    m: &Machine,
    ev: PictureEvent,
    dims: Option<(u32, u32)>,
    art: Option<(u32, u32, Grid)>,
)
    ensures
        l.after(m, ev, dims, art).art_scale == l.art_scale,
        !(!ev.erase && m.has_window(ev.window) && art is Some && float_x(m, dims, l.art_scale, ev)
            is Some) ==> l.after(m, ev, dims, art).story_pics == l.story_pics,
        !ev.erase && m.has_window(ev.window) && art is Some && float_x(m, dims, l.art_scale, ev)
            is Some ==> {
            let a = art->0;
            let pics = l.after(m, ev, dims, art).story_pics;
            let img = pics.last().1;
            &&& pics.len() == l.story_pics.len() + 1
            &&& pics.drop_last() == l.story_pics
            &&& pics.last().0 == ev.out_chars
            &&& img.w == (a.0 * l.art_scale.0) as u32
            &&& img.h == (a.1 * l.art_scale.1) as u32
            &&& img.grid == scaled_art(a.2, a.0, a.1, l.art_scale)
            &&& img.margin_px is Some ==> ev.margin_after is Some && img.margin_px->0
                == ev.margin_after->0 && img.align is MarginLeft
            &&& img.align is MarginLeft && ev.margin_after is Some ==> img.margin_px is Some
        },
{
    let r = l.retired(m, ev.window, (ev.win_box.0, ev.win_box.1));
    if ev.erase && ev.number == 0 {
        let bare = LayersView {
            canvases: r.canvases.remove(ev.window),
            anchors: r.anchors.remove(ev.window),
            ops: r.ops.remove(ev.window),
            unreplayable: r.unreplayable.remove(ev.window),
            ..r
        };
        if let Some(rect) = m.screen_rect(ev.window) {
            lemma_erasing_keeps_prose(bare, m, rect, Some(ev.window), WINDOW_NUMBERS as nat);
        }
    } else if ev.erase && m.has_window(ev.window) {
        let e = crate::layers::erase_box(dims, r.art_scale, ev);
        let mid = LayersView {
            canvases: r.canvases.insert(ev.window, r.canvas_for(ev).erased(e.0, e.1, e.2, e.3)),
            ..r
        }.recorded(
            ev.window,
            crate::oplist::V6Op::Erase {
                dx: e.0 as i32,
                dy: e.1 as i32,
                w: e.2 as u32,
                h: e.3 as u32,
            },
        );
        let rect = m.screen_rect(ev.window)->0;
        lemma_erasing_keeps_prose(
            mid,
            m,
            ((rect.0 + e.0) as u32, (rect.1 + e.1) as u32, e.2 as u32, e.3 as u32),
            Some(ev.window),
            WINDOW_NUMBERS as nat,
        );
    }
    let pics = l.after(m, ev, dims, art).story_pics;
    if !ev.erase && m.has_window(ev.window) && art is Some && float_x(m, dims, l.art_scale, ev)
        is Some {
        assert(pics.drop_last() =~= l.story_pics);
    }
}

/// The pictures that the first `n` events of a turn put into the prose: those of the events
/// that anchor one, in the order of the events, each stamped with its event's own count of
/// characters, behind those that waited before.
proof fn lemma_events_in_prose(
    s: &GameSession,
    out: &TurnOutput,
    l: LayersView,
    holds: Seq<Option<u64>>,
    covers: Seq<bool>,
    n: nat,
) -> (idx: Seq<int>)
    requires
        out.wf(s.layers.art_scale),
        l.art_scale == s.layers.art_scale,
        n <= out.pictures@.len(),
    ensures
        ({
            let after = after_events(
                l,
                &s.machine,
                s.pict_source,
                out.pictures@,
                art_views(out.art@),
                out.fills@,
                holds,
                covers,
                n,
            ).layers;
            let k0 = l.story_pics.len() as int;
            &&& after.art_scale == l.art_scale
            &&& after.story_pics.len() == k0 + idx.len()
            &&& after.story_pics.take(k0) == l.story_pics
            &&& forall|i: int, j: int| 0 <= i < j < idx.len() ==> #[trigger] idx[i] < #[trigger] idx[j]
            &&& forall|k: int|
                0 <= k < idx.len() ==> 0 <= #[trigger] idx[k] < n && anchors_in_prose(
                    s,
                    out,
                    idx[k],
                ) && after.story_pics[k0 + k].0 == out.pictures@[idx[k]].out_chars && is_picture_of(
                    s,
                    out,
                    idx[k],
                    after.story_pics[k0 + k].1,
                )
            &&& forall|i: int|
                0 <= i < n && #[trigger] anchors_in_prose(s, out, i) ==> idx.contains(i)
        }),
    decreases n,
{
    if n == 0 {
        assert(l.story_pics.take(l.story_pics.len() as int) =~= l.story_pics);
        seq![]
    } else {
        let i = n - 1;
        let before = lemma_events_in_prose(s, out, l, holds, covers, i as nat);
        let arts = art_views(out.art@);
        let d = after_events(
            l,
            &s.machine,
            s.pict_source,
            out.pictures@,
            arts,
            out.fills@,
            holds,
            covers,
            i as nat,
        );
        lemma_fills_keep_prose(d.layers, &s.machine, out.fills@, d.fills_done, i);
        let f = after_fills(d.layers, &s.machine, out.fills@, d.fills_done, i).0;
        let ev = out.pictures@[i];
        let dims = dims_in(s.pict_source, ev.number);
        lemma_event_in_prose(f, &s.machine, ev, dims, arts[i]);
        let after = f.after(&s.machine, ev, dims, arts[i]);
        let k0 = l.story_pics.len() as int;
        assert(arts[i] is Some <==> out.art@[i] is Some);
        if anchors_in_prose(s, out, i) {
            let idx = before.push(i);
            let a = out.art@[i]->0;
            assert(crate::layers::art_ok(out.art@[i], s.layers.art_scale));
            assert(0 <= a.width * s.layers.art_scale.0) by (nonlinear_arith)
                requires
                    a.width >= 0,
                    s.layers.art_scale.0 >= 0,
            ;
            assert(0 <= a.height * s.layers.art_scale.1) by (nonlinear_arith)
                requires
                    a.height >= 0,
                    s.layers.art_scale.1 >= 0,
            ;
            assert(after.story_pics.take(k0) =~= l.story_pics) by {
                assert(after.story_pics.drop_last().take(k0) =~= after.story_pics.take(k0));
            }
            assert forall|k: int| 0 <= k < idx.len() implies 0 <= #[trigger] idx[k] < n
                && anchors_in_prose(s, out, idx[k]) && after.story_pics[k0 + k].0
                == out.pictures@[idx[k]].out_chars && is_picture_of(
                s,
                out,
                idx[k],
                after.story_pics[k0 + k].1,
            ) by {
                if k < before.len() {
                    assert(idx[k] == before[k]);
                    assert(after.story_pics.drop_last()[k0 + k] == after.story_pics[k0 + k]);
                } else {
                    assert(after.story_pics[k0 + k] == after.story_pics.last());
                }
            }
            assert forall|j: int| 0 <= j < n && #[trigger] anchors_in_prose(s, out, j) implies
                idx.contains(j) by {
                if j < i {
                    assert(before.contains(j));
                    let p = choose|p: int| 0 <= p < before.len() && before[p] == j;
                    assert(idx[p] == j);
                } else {
                    assert(idx[before.len() as int] == j);
                }
            }
            idx
        } else {
            before
        }
    }
}

/// The pictures that wait to be woven into a turn's text.
proof fn lemma_turn_in_prose(s: &GameSession, out: &TurnOutput) -> (idx: Seq<int>)
    requires
        out.wf(s.layers.art_scale),
    ensures
        ({
            let pics = s.turn_screen(out).0.story_pics;
            let k0 = waiting(s, out).len() as int;
            &&& pics.len() == k0 + idx.len()
            &&& pics.take(k0) == waiting(s, out)
            &&& forall|i: int, j: int| 0 <= i < j < idx.len() ==> #[trigger] idx[i] < #[trigger] idx[j]
            &&& forall|k: int|
                0 <= k < idx.len() ==> 0 <= #[trigger] idx[k] < out.pictures@.len()
                    && anchors_in_prose(s, out, idx[k]) && pics[k0 + k].0
                    == out.pictures@[idx[k]].out_chars && is_picture_of(
                    s,
                    out,
                    idx[k],
                    pics[k0 + k].1,
                )
            &&& forall|i: int|
                0 <= i < out.pictures@.len() && #[trigger] anchors_in_prose(s, out, i)
                    ==> idx.contains(i)
        }),
{
    let l = if out.restarted {
        s.layers@.wiped()
    } else {
        s.layers@
    };
    let n = out.pictures@.len();
    let holds = holds_of(&s.machine, s.pict_source, l.art_scale, out.pictures@);
    let covers = covers_of(&s.machine, s.pict_source, l.art_scale, out.pictures@);
    let idx = lemma_events_in_prose(s, out, l, holds, covers, n);
    let d = after_events(
        l,
        &s.machine,
        s.pict_source,
        out.pictures@,
        art_views(out.art@),
        out.fills@,
        holds,
        covers,
        n,
    );
    lemma_all_fills_keep_prose(d.layers, &s.machine, out.fills@, d.fills_done);
    let filled_up = after_all_fills(d.layers, &s.machine, out.fills@, d.fills_done);
    lemma_settling_keeps_prose(filled_up, &s.machine, WINDOW_NUMBERS as nat);
    let settled = filled_up.settled_below(&s.machine, WINDOW_NUMBERS as nat);
    lemma_redrawing_keeps_prose(
        settled,
        art_in(s.pict_source, l.art_scale),
        WINDOW_NUMBERS as nat,
    );
    assert(l.story_pics =~= waiting(s, out));
    idx
}

/// The pictures that waited for the text before the turn; a restart drops them.
pub open spec fn waiting(s: &GameSession, out: &TurnOutput) -> Seq<(u64, ImageView)> {
    if out.restarted {
        seq![]
    } else {
        s.layers@.story_pics
    }
}

// ── Where a mark stands ───────────────────────────────────────────────────────
/// A text with nothing but a line feed prints nothing.
proof fn lemma_line_feed_prints_nothing(t: Seq<char>, from: int, to: int)
    requires
        0 <= from <= to <= t.len(),
        to <= from + 1,
        to > from ==> t[from] == '\n',
    ensures
        printed(t.subrange(from, to)) == Seq::<char>::empty(),
{
    reveal(Seq::filter);
    let g = t.subrange(from, to);
    if to > from {
        assert(g.drop_last() =~= seq![]);
        assert(printed(g.drop_last()) =~= seq![]);
    }
    assert(printed(g) =~= seq![]);
}

/// What is printed of two pieces of a text that follow one another.
proof fn lemma_printed_pieces(t: Seq<char>, a: int, b: int, c: int)
    requires
        0 <= a <= b <= c <= t.len(),
    ensures
        printed(t.subrange(a, c)) == printed(t.subrange(a, b)) + printed(t.subrange(b, c)),
{
    assert(t.subrange(a, c) =~= t.subrange(a, b) + t.subrange(b, c));
    Seq::filter_distributes_over_add(t.subrange(a, b), t.subrange(b, c), |c: char| c != '\n');
}

/// Where a mark stands among the woven elements: what is printed before it is the text up to
/// where it falls, from where the text that is not yet painted begins.
proof fn lemma_mark_stands(
    t: Seq<char>,
    runs: Seq<CaptureRun>,
    marks: Seq<(int, ElemView)>,
    pos: int,
    frozen: Option<usize>,
    p: int,
) -> (j: int)
    requires
        in_order(marks, t.len() as int),
        bare_marks(marks),
        0 <= pos <= t.len(),
        forall|i: int| 0 <= i < marks.len() ==> (#[trigger] marks[i]).0 >= pos,
        0 <= p < marks.len(),
        frozen matches Some(f) ==> f <= t.len() && (pos >= f || exists|q: int|
            0 <= q < marks.len() && #[trigger] marks[q].0 == f),
    ensures
        ({
            let w = woven(t, runs, marks, pos, frozen);
            let lo = if frozen is Some && frozen->0 > pos {
                frozen->0 as int
            } else {
                pos
            };
            let hi = if marks[p].0 > lo {
                marks[p].0
            } else {
                lo
            };
            &&& 0 <= j < w.len()
            &&& w[j] == marks[p].1
            &&& printed(all_text(w.take(j))) == printed(t.subrange(lo, hi))
            &&& marks_of(w.take(j)).len() == p
        }),
    decreases marks.len(),
{
    let w = woven(t, runs, marks, pos, frozen);
    let off = marks[0].0;
    let a = text_before(t, runs, pos, off, frozen);
    let b = seq![marks[0].1];
    let rest = marks.drop_first();
    let c = woven(t, runs, rest, off, frozen);
    assert(off >= pos);
    assert(w == a + b + c);
    let lo = if frozen is Some && frozen->0 > pos {
        frozen->0 as int
    } else {
        pos
    };
    if frozen is Some && frozen->0 > pos {
        let q = choose|q: int| 0 <= q < marks.len() && #[trigger] marks[q].0 == frozen->0;
        assert(marks[0].0 <= marks[q].0);
    }
    // What the element before the first mark prints.
    let lo1 = if off > lo {
        off
    } else {
        lo
    };
    assert(printed(all_text(a)) == printed(t.subrange(lo, lo1))) by {
        reveal(Seq::filter);
        if off > pos {
            let e = text_end(t, off);
            if a.len() > 0 {
                assert(a.drop_last() =~= seq![]);
                assert(all_text(a.drop_last()) =~= seq![]);
                assert(all_text(a) =~= t.subrange(pos, e));
                lemma_printed_pieces(t, pos, e, off);
                lemma_line_feed_prints_nothing(t, e, off);
                assert(printed(t.subrange(pos, e)) + Seq::<char>::empty() =~= printed(
                    t.subrange(pos, e),
                ));
                assert(lo == pos);
            } else {
                assert(all_text(a) =~= seq![]);
                if lo == pos {
                    assert(e <= pos);
                    lemma_line_feed_prints_nothing(t, pos, off);
                } else {
                    assert(t.subrange(lo, lo1) =~= seq![]);
                }
            }
        } else {
            assert(a =~= seq![]);
            assert(t.subrange(lo, lo1) =~= seq![]);
        }
    }
    assert(marks_of(a).len() == 0) by {
        reveal(Seq::filter);
        if a.len() > 0 {
            assert(a.drop_last() =~= seq![]);
            assert(marks_of(a.drop_last()) =~= seq![]);
        }
    }
    if p == 0 {
        let j = a.len() as int;
        assert(w.take(j) =~= a);
        assert(w[j] == marks[0].1);
        j
    } else {
        assert forall|i: int| 0 <= i < rest.len() implies (#[trigger] rest[i]).0 >= off && !(
        rest[i].1 is Text) by {
            assert(rest[i] == marks[i + 1]);
            assert(marks[0].0 <= marks[i + 1].0);
        }
        assert(in_order(rest, t.len() as int)) by {
            assert forall|i: int| 0 <= i < rest.len() implies 0 <= (#[trigger] rest[i]).0
                <= t.len() by {
                assert(rest[i] == marks[i + 1]);
            }
            assert forall|i: int, k: int| 0 <= i <= k < rest.len() implies (#[trigger] rest[i]).0
                <= (#[trigger] rest[k]).0 by {
                assert(rest[i] == marks[i + 1]);
                assert(rest[k] == marks[k + 1]);
            }
        }
        if frozen is Some && off < frozen->0 {
            let q = choose|q: int| 0 <= q < marks.len() && #[trigger] marks[q].0 == frozen->0;
            assert(rest[q - 1] == marks[q]);
        }
        let j1 = lemma_mark_stands(t, runs, rest, off, frozen, p - 1);
        let j = a.len() + 1 + j1;
        assert(rest[p - 1] == marks[p]);
        assert(w[j] == c[j1]);
        assert(w.take(j) =~= a + b + c.take(j1));
        lemma_all_text_add(a + b, c.take(j1));
        lemma_all_text_add(a, b);
        assert(b.drop_last() =~= seq![]);
        assert(all_text(b.drop_last()) =~= seq![]);
        assert(elem_text(marks[0].1) =~= seq![]);
        assert(all_text(b) =~= seq![]);
        assert(all_text(a + b) =~= all_text(a));
        Seq::filter_distributes_over_add(all_text(a), all_text(c.take(j1)), |c: char| c != '\n');
        let hi = if marks[p].0 > lo {
            marks[p].0
        } else {
            lo
        };
        lemma_printed_pieces(t, lo, lo1, hi);
        assert(marks_of(w.take(j)).len() == p) by {
            let f = |e: ElemView| !(e is Text);
            Seq::filter_distributes_over_add(a + b, c.take(j1), f);
            Seq::filter_distributes_over_add(a, b, f);
            reveal(Seq::filter);
            assert(b.drop_last() =~= seq![]);
            assert(b.drop_last().filter(f) =~= seq![]);
            assert(b.filter(f) =~= b);
        }
        j
    }
}

/// The start of a line lies behind a line feed or at the start, with no line feed between it
/// and the position.
proof fn lemma_line_begins(t: Seq<char>, off: int)
    requires
        0 <= off <= t.len(),
    ensures
        begins_line(t, line_start(t, off), off),
    decreases off,
{
    if 0 < off && t[off - 1] != '\n' {
        lemma_line_begins(t, off - 1);
    }
}

/// Whether the line that position `off` of a text lies on begins at `at`.
pub open spec fn begins_line(t: Seq<char>, at: int, off: int) -> bool {
    &&& 0 <= at <= off <= t.len()
    &&& at > 0 ==> t[at - 1] == '\n'
    &&& forall|k: int| at <= k < off ==> #[trigger] t[k] != '\n'
}

/// A position that is counted as the story's characters are, in the text of a turn: at its
/// start where it lies before it, and at its end where it lies behind it.
pub open spec fn place_in_turn(s: &GameSession, out: &TurnOutput, len: int, c: u64) -> int {
    let base = if out.restarted {
        0
    } else {
        s.v6_win0_chars_seen as int
    };
    if c < base {
        0
    } else if c > base + len {
        len
    } else {
        c - base
    }
}

/// Where the elements of a turn begin to tell its text: behind what is already painted on the
/// screen, where a window left all of its text behind, and at the start otherwise.
pub open spec fn told_from(s: &GameSession, out: &TurnOutput, len: int) -> int {
    match out.prose_retired {
        Some(c) => if out.prose_retired_whole {
            place_in_turn(s, out, len, c)
        } else {
            0
        },
        None => 0,
    }
}

/// Whether the elements before `j` print the text of a turn up to `to`, from where it is told.
pub open spec fn tells_up_to(
    s: &GameSession,
    out: &TurnOutput,
    r: &TurnResult,
    j: int,
    to: int,
) -> bool {
    let t = r.transcript@;
    let from = told_from(s, out, t.len() as int);
    printed(all_text(elem_views(r.transcript_elems@.take(j)))) == printed(
        t.subrange(
            from,
            if to > from {
                to
            } else {
                from
            },
        ),
    )
}

/// A mark of a turn stands where it was stamped.
proof fn lemma_turn_mark(
    s: &GameSession,
    out: &TurnOutput,
    after: &GameSession,
    r: &TurnResult,
    q: int,
) -> (j: int)
    requires
        s.drained_to(*out, after, r),
        out.wf(s.layers.art_scale),
        r.transcript@.len() <= usize::MAX,
        0 <= q < turn_marks_of(s, out, r).len(),
    ensures
        0 <= j < r.transcript_elems@.len(),
        r.transcript_elems@[j]@ == turn_marks_of(s, out, r)[q].1,
        tells_up_to(
            s,
            out,
            r,
            j,
            mark_offset(
                r.transcript@,
                turn_marks_of(s, out, r)[q].0,
                s.turn_base(out),
                turn_marks_of(s, out, r)[q].1,
            ),
        ),
{
    let t = r.transcript@;
    let base = s.turn_base(out);
    let marks = turn_marks_of(s, out, r);
    let x = (mark_offset(t, marks[q].0, base, marks[q].1), marks[q].1);
    lemma_placed_somewhere(t, marks, base, q);
    let placed = placed_marks(t, marks, base);
    let p = choose|p: int| 0 <= p < placed.len() && placed[p] == x;
    lemma_turn_mark_at(s, out, after, r, p)
}

/// The marks of a turn.
spec fn turn_marks_of(s: &GameSession, out: &TurnOutput, r: &TurnResult) -> Seq<(u64, ElemView)> {
    picture_marks(s.turn_screen(out).0.story_pics) + clear_marks(
        clear_positions(out, s.sink.cleared_at, s.turn_base(out), r.transcript@.len() as int),
    )
}

/// A placed mark of a turn stands where it was placed.
proof fn lemma_turn_mark_at(
    s: &GameSession,
    out: &TurnOutput,
    after: &GameSession,
    r: &TurnResult,
    p: int,
) -> (j: int)
    requires
        s.drained_to(*out, after, r),
        out.wf(s.layers.art_scale),
        r.transcript@.len() <= usize::MAX,
        0 <= p < placed_marks(
            r.transcript@,
            turn_marks_of(s, out, r),
            s.turn_base(out),
        ).len(),
    ensures
        ({
            let m = placed_marks(
                r.transcript@,
                turn_marks_of(s, out, r),
                s.turn_base(out),
            )[p];
            &&& 0 <= j < r.transcript_elems@.len()
            &&& r.transcript_elems@[j]@ == m.1
            &&& tells_up_to(s, out, r, j, m.0)
            &&& marks_of(elem_views(r.transcript_elems@).take(j)).len() == p
        }),
{
    let t = r.transcript@;
    let n = t.len() as int;
    let base = s.turn_base(out);
    let pics = s.turn_screen(out).0.story_pics;
    let clears = clear_positions(out, s.sink.cleared_at, base, n);
    let marks = picture_marks(pics) + clear_marks(clears);
    let runs = r.transcript_runs@;
    let retired = retired_offset(out, base, n);
    let frozen = given(retired, out.prose_retired_whole);
    let f = |m: (u64, ElemView)| (mark_offset(t, m.0, base, m.1), m.1);
    let placed = placed_marks(t, marks, base);
    assert(pics.len() > 0 || clears.len() > 0) by {
        if marks.len() == 0 {
            assert(placed_marks(t, marks, base).len() == 0);
        }
    }
    let w = woven(t, runs, placed, 0, frozen);
    assert(elem_views(r.transcript_elems@) == w);
    marks_are_placed_in_order(t, marks, base);
    assert forall|i: int| 0 <= i < marks.len() implies placed.contains(f(#[trigger] marks[i])) by {
        lemma_placed_somewhere(t, marks, base, i);
    }
    assert(bare_marks(placed)) by {
        lemma_placed_bare(pics, clears, t, base);
    }
    if let Some(at) = frozen {
        let c = out.prose_retired->0;
        assert(clears.contains(c)) by {
            let c1 = also(seq![], given(out.prose_retired, out.prose_retired_whole));
            assert(c1 =~= seq![c]);
            assert(c1[0] == c);
            let c2 = also(c1, out.screen_cleared);
            assert(c2[0] == c);
            assert(clears[0] == c);
        }
        let k = choose|k: int| 0 <= k < clears.len() && clears[k] == c;
        let i = pics.len() + k;
        assert(marks[i] == (c, ElemView::ScreenClear));
        assert(placed.contains(f(marks[i])));
        let x = choose|x: int| 0 <= x < placed.len() && placed[x] == f(marks[i]);
        assert(placed[x].0 == at);
    }
    assert forall|i: int| 0 <= i < placed.len() implies (#[trigger] placed[i]).0 >= 0 by {}
    let j = lemma_mark_stands(t, runs, placed, 0, frozen, p);
    assert(elem_views(r.transcript_elems@)[j] == r.transcript_elems@[j]@);
    assert(elem_views(r.transcript_elems@.take(j)) =~= w.take(j));
    j
}

/// Every mark is among the placed ones, with the offset where it falls.
proof fn lemma_placed_somewhere(t: Seq<char>, marks: Seq<(u64, ElemView)>, base: u64, i: int)
    requires
        0 <= i < marks.len(),
    ensures
        placed_marks(t, marks, base).contains(
            (mark_offset(t, marks[i].0, base, marks[i].1), marks[i].1),
        ),
{
    broadcast use vstd::seq_lib::group_to_multiset_ensures;

    let f = |m: (u64, ElemView)| (mark_offset(t, m.0, base, m.1), m.1);
    marks_are_placed_in_order(t, marks, base);
    let mapped = marks.map_values(f);
    assert(mapped[i] == f(marks[i]));
    assert(mapped.contains(f(marks[i])));
    assert(mapped.to_multiset().count(f(marks[i])) > 0);
    assert(placed_marks(t, marks, base).to_multiset().count(f(marks[i])) > 0);
}

/// None of the placed marks of a turn is text.
proof fn lemma_placed_bare(
    pics: Seq<(u64, ImageView)>,
    clears: Seq<u64>,
    t: Seq<char>,
    base: u64,
)
    ensures
        bare_marks(placed_marks(t, picture_marks(pics) + clear_marks(clears), base)),
{
    broadcast use vstd::seq_lib::group_to_multiset_ensures;

    let marks = picture_marks(pics) + clear_marks(clears);
    let f = |m: (u64, ElemView)| (mark_offset(t, m.0, base, m.1), m.1);
    let placed = placed_marks(t, marks, base);
    marks_are_placed_in_order(t, marks, base);
    let mapped = marks.map_values(f);
    assert forall|i: int| 0 <= i < placed.len() implies !((#[trigger] placed[i]).1 is Text) by {
        assert(placed.contains(placed[i]));
        assert(placed.to_multiset().count(placed[i]) > 0);
        assert(mapped.to_multiset().count(placed[i]) > 0);
        assert(mapped.contains(placed[i]));
        let k = choose|k: int| 0 <= k < mapped.len() && mapped[k] == placed[i];
        assert(mapped[k] == f(marks[k]));
        if k < pics.len() {
            assert(marks[k] == picture_marks(pics)[k]);
        } else {
            assert(marks[k] == clear_marks(clears)[k - pics.len()]);
        }
    }
}

// ── Laws ──────────────────────────────────────────────────────────────────────
/// A picture that a turn anchors in the prose stands before the line it was drawn on: among
/// the elements of the turn there is the picture that the event drew, and the texts before it
/// print what the transcript prints before the start of the line that the event's count of
/// characters lies on.
///
/// The result is the place of the picture among the elements, and where that line begins.
pub proof fn a_picture_stands_before_its_line(
    s: &GameSession,
    out: &TurnOutput,
    after: &GameSession,
    r: &TurnResult,
    i: int,
) -> (at: (int, int))
    requires
        s.drained_to(*out, after, r),
        out.wf(s.layers.art_scale),
        r.transcript@.len() <= usize::MAX,
        0 <= i < out.pictures@.len(),
        anchors_in_prose(s, out, i),
    ensures
        0 <= at.0 < r.transcript_elems@.len(),
        r.transcript_elems@[at.0] matches TranscriptElem::Image(img) && is_picture_of(
            s,
            out,
            i,
            img@,
        ),
        begins_line(
            r.transcript@,
            at.1,
            place_in_turn(s, out, r.transcript@.len() as int, out.pictures@[i].out_chars),
        ),
        tells_up_to(s, out, r, at.0, at.1),
{
    let t = r.transcript@;
    let n = t.len() as int;
    let base = s.turn_base(out);
    let pics = s.turn_screen(out).0.story_pics;
    let marks = picture_marks(pics) + clear_marks(
        clear_positions(out, s.sink.cleared_at, base, n),
    );
    let idx = lemma_turn_in_prose(s, out);
    let k = choose|k: int| 0 <= k < idx.len() && idx[k] == i;
    let q = waiting(s, out).len() + k;
    assert(marks[q] == (pics[q].0, ElemView::Image(pics[q].1)));
    let j = lemma_turn_mark(s, out, after, r, q);
    let c = out.pictures@[i].out_chars;
    lemma_line_begins(t, place_in_turn(s, out, n, c));
    (j, line_start(t, place_in_turn(s, out, n, c)))
}

/// A picture that waited for the text before the turn stands before the line it was drawn on.
pub proof fn a_waiting_picture_stands_before_its_line(
    s: &GameSession,
    out: &TurnOutput,
    after: &GameSession,
    r: &TurnResult,
    k: int,
) -> (at: (int, int))
    requires
        s.drained_to(*out, after, r),
        out.wf(s.layers.art_scale),
        r.transcript@.len() <= usize::MAX,
        !out.restarted,
        0 <= k < s.layers.story_pics@.len(),
    ensures
        0 <= at.0 < r.transcript_elems@.len(),
        r.transcript_elems@[at.0] matches TranscriptElem::Image(img) && img@
            == s.layers.story_pics@[k].1@,
        begins_line(
            r.transcript@,
            at.1,
            place_in_turn(s, out, r.transcript@.len() as int, s.layers.story_pics@[k].0),
        ),
        tells_up_to(s, out, r, at.0, at.1),
{
    let t = r.transcript@;
    let n = t.len() as int;
    let base = s.turn_base(out);
    let pics = s.turn_screen(out).0.story_pics;
    let marks = picture_marks(pics) + clear_marks(
        clear_positions(out, s.sink.cleared_at, base, n),
    );
    let _ = lemma_turn_in_prose(s, out);
    assert(pics.take(waiting(s, out).len() as int)[k] == pics[k]);
    assert(marks[k] == (pics[k].0, ElemView::Image(pics[k].1)));
    let j = lemma_turn_mark(s, out, after, r, k);
    let c = s.layers.story_pics@[k].0;
    lemma_line_begins(t, place_in_turn(s, out, n, c));
    (j, line_start(t, place_in_turn(s, out, n, c)))
}

/// A screen clear of a turn stands where it happened: the texts before it print what the
/// transcript prints up to there, in the middle of a line if need be. The clears are those of
/// a window that left all its text behind, those of the story window that the game erased,
/// and those of the lower window after something was printed.
pub proof fn a_screen_clear_stands_where_it_happened(
    s: &GameSession,
    out: &TurnOutput,
    after: &GameSession,
    r: &TurnResult,
    c: u64,
) -> (j: int)
    requires
        s.drained_to(*out, after, r),
        out.wf(s.layers.art_scale),
        r.transcript@.len() <= usize::MAX,
        s.v6_win0_chars_seen + s.sink.text@.len() <= u64::MAX,
        r.transcript@.len() <= s.sink.text@.len(),
        ({
            let base = if out.restarted {
                0
            } else {
                s.v6_win0_chars_seen as int
            };
            ||| out.screen_cleared == Some(c)
            ||| out.prose_retired == Some(c) && out.prose_retired_whole
            ||| s.sink.cleared_at is Some && s.sink.cleared_at->0 > 0 && s.sink.cleared_at->0
                <= r.transcript@.len() && c == base + s.sink.cleared_at->0
            ||| s.sink.cleared_at is Some && s.sink.cleared_at->0 > r.transcript@.len() && c == base
                + r.transcript@.len()
        }),
    ensures
        0 <= j < r.transcript_elems@.len(),
        r.transcript_elems@[j] is ScreenClear,
        tells_up_to(s, out, r, j, place_in_turn(s, out, r.transcript@.len() as int, c)),
{
    let t = r.transcript@;
    let n = t.len() as int;
    let base = s.turn_base(out);
    let pics = s.turn_screen(out).0.story_pics;
    let clears = clear_positions(out, s.sink.cleared_at, base, n);
    let marks = picture_marks(pics) + clear_marks(clears);
    assert(clears.contains(c)) by {
        let c1 = also(seq![], given(out.prose_retired, out.prose_retired_whole));
        let c2 = also(c1, out.screen_cleared);
        lemma_also(seq![], given(out.prose_retired, out.prose_retired_whole), c);
        lemma_also(c1, out.screen_cleared, c);
        lemma_also(c2, mid_turn_clear(s.sink.cleared_at, base, n), c);
    }
    let k = choose|k: int| 0 <= k < clears.len() && clears[k] == c;
    let q = pics.len() + k;
    assert(marks[q] == (c, ElemView::ScreenClear));
    lemma_turn_mark(s, out, after, r, q)
}

/// Adding a position to a list keeps those on it.
proof fn lemma_also(v: Seq<u64>, o: Option<u64>, c: u64)
    ensures
        v.contains(c) || o == Some(c) ==> also(v, o).contains(c),
        also(v, o).contains(c) ==> v.contains(c) || o == Some(c),
{
    let a = also(v, o);
    if let Some(x) = o {
        if !v.contains(x) {
            assert(a[v.len() as int] == x);
            if v.contains(c) {
                let k = choose|k: int| 0 <= k < v.len() && v[k] == c;
                assert(a[k] == c);
            }
        }
    }
}

/// The elements of a turn hold the pictures that waited and those that its events anchor,
/// and as many screen clears as there were positions to clear at, and nothing else but text:
/// no picture is lost, doubled or made up.
///
/// The result lists the events that anchor a picture.
pub proof fn no_picture_is_lost(
    s: &GameSession,
    out: &TurnOutput,
    after: &GameSession,
    r: &TurnResult,
) -> (idx: Seq<int>)
    requires
        s.drained_to(*out, after, r),
        out.wf(s.layers.art_scale),
    ensures
        forall|i: int, j: int| 0 <= i < j < idx.len() ==> #[trigger] idx[i] < #[trigger] idx[j],
        forall|i: int|
            #![trigger idx.contains(i)]
            #![trigger anchors_in_prose(s, out, i)]
            0 <= i < out.pictures@.len() ==> (anchors_in_prose(s, out, i) <==> idx.contains(i)),
        forall|k: int| 0 <= k < idx.len() ==> 0 <= #[trigger] idx[k] < out.pictures@.len(),
        marks_of(elem_views(r.transcript_elems@)).filter(|e: ElemView| e is Image).len()
            == waiting(s, out).len() + idx.len(),
{
    broadcast use vstd::seq_lib::group_to_multiset_ensures;

    let t = r.transcript@;
    let n = t.len() as int;
    let base = s.turn_base(out);
    let pics = s.turn_screen(out).0.story_pics;
    let clears = clear_positions(out, s.sink.cleared_at, base, n);
    let marks = picture_marks(pics) + clear_marks(clears);
    let idx = lemma_turn_in_prose(s, out);
    let p = |e: ElemView| e is Image;
    let of = |m: (int, ElemView)| m.1;
    assert forall|i: int| 0 <= i < out.pictures@.len() && idx.contains(i) implies anchors_in_prose(
        s,
        out,
        i,
    ) by {
        let k = choose|k: int| 0 <= k < idx.len() && idx[k] == i;
    }
    let elems = elem_views(r.transcript_elems@);
    if pics.len() == 0 && clears.len() == 0 {
        reveal(Seq::filter);
        assert(elems =~= seq![]);
        assert(marks_of(elems) =~= seq![]);
        assert(marks_of(elems).filter(p) =~= seq![]);
    } else {
        let placed = placed_marks(t, marks, base);
        let frozen = given(retired_offset(out, base, n), out.prose_retired_whole);
        lemma_placed_bare(pics, clears, t, base);
        weaving_keeps_the_marks(t, r.transcript_runs@, placed, 0, frozen);
        assert(marks_of(elems) == placed.map_values(of));
        lemma_images_among(t, marks, base);
        lemma_images_of_marks(pics, clears);
    }
    idx
}

/// Placing a mark keeps the number of pictures.
proof fn lemma_images_placed(v: Seq<(int, ElemView)>, x: (int, ElemView))
    ensures
        images(crate::elements::placed(v, x)) == images(v) + (if x.1 is Image {
            1int
        } else {
            0int
        }),
    decreases v.len(),
{
    if v.len() == 0 || v.last().0 <= x.0 {
        assert(v.push(x).drop_last() =~= v);
    } else {
        lemma_images_placed(v.drop_last(), x);
        let q = crate::elements::placed(v.drop_last(), x);
        assert(q.push(v.last()).drop_last() =~= q);
    }
}

/// How many pictures are among some marks.
spec fn images(v: Seq<(int, ElemView)>) -> int
    decreases v.len(),
{
    if v.len() == 0 {
        0
    } else {
        images(v.drop_last()) + (if v.last().1 is Image {
            1int
        } else {
            0int
        })
    }
}

/// How many pictures are among some stamped marks.
spec fn stamped_images(v: Seq<(u64, ElemView)>) -> int
    decreases v.len(),
{
    if v.len() == 0 {
        0
    } else {
        stamped_images(v.drop_last()) + (if v.last().1 is Image {
            1int
        } else {
            0int
        })
    }
}

/// Placing marks keeps the number of pictures.
proof fn lemma_images_among(t: Seq<char>, marks: Seq<(u64, ElemView)>, base: u64)
    ensures
        images(placed_marks(t, marks, base)) == stamped_images(marks),
        placed_marks(t, marks, base).map_values(|m: (int, ElemView)| m.1).filter(
            |e: ElemView| e is Image,
        ).len() == stamped_images(marks),
    decreases marks.len(),
{
    if marks.len() > 0 {
        let m = marks.last();
        lemma_images_among(t, marks.drop_last(), base);
        lemma_images_placed(
            placed_marks(t, marks.drop_last(), base),
            (mark_offset(t, m.0, base, m.1), m.1),
        );
    }
    lemma_images_filtered(placed_marks(t, marks, base));
}

/// Counting pictures is counting the elements that are pictures.
proof fn lemma_images_filtered(v: Seq<(int, ElemView)>)
    ensures
        v.map_values(|m: (int, ElemView)| m.1).filter(|e: ElemView| e is Image).len() == images(v),
    decreases v.len(),
{
    reveal(Seq::filter);
    let of = |m: (int, ElemView)| m.1;
    if v.len() > 0 {
        lemma_images_filtered(v.drop_last());
        assert(v.map_values(of).drop_last() =~= v.drop_last().map_values(of));
    }
}

/// The pictures among the marks of a turn.
proof fn lemma_images_of_marks(pics: Seq<(u64, ImageView)>, clears: Seq<u64>)
    ensures
        stamped_images(picture_marks(pics) + clear_marks(clears)) == pics.len(),
    decreases pics.len() + clears.len(),
{
    let v = picture_marks(pics) + clear_marks(clears);
    if clears.len() > 0 {
        assert(v.drop_last() =~= picture_marks(pics) + clear_marks(clears.drop_last()));
        lemma_images_of_marks(pics, clears.drop_last());
    } else if pics.len() > 0 {
        assert(v.drop_last() =~= picture_marks(pics.drop_last()) + clear_marks(clears));
        lemma_images_of_marks(pics.drop_last(), clears);
    }
}

/// Cutting a list shorter leaves no more marks in it.
proof fn lemma_fewer_marks(w: Seq<ElemView>, a: int, b: int)
    requires
        0 <= a <= b <= w.len(),
    ensures
        marks_of(w.take(a)).len() <= marks_of(w.take(b)).len(),
{
    let f = |e: ElemView| !(e is Text);
    assert(w.take(b) =~= w.take(a) + w.subrange(a, b));
    Seq::filter_distributes_over_add(w.take(a), w.subrange(a, b), f);
}

/// Pictures keep their order: of two pictures that a turn anchors in the prose, the one that
/// was drawn first stands first, unless it was drawn on a later line.
///
/// The result is the place of each among the elements.
pub proof fn pictures_keep_their_order(
    s: &GameSession,
    out: &TurnOutput,
    after: &GameSession,
    r: &TurnResult,
    i: int,
    k: int,
    lines: (int, int),
) -> (at: (int, int))
    requires
        s.drained_to(*out, after, r),
        out.wf(s.layers.art_scale),
        r.transcript@.len() <= usize::MAX,
        0 <= i < k < out.pictures@.len(),
        anchors_in_prose(s, out, i),
        anchors_in_prose(s, out, k),
        begins_line(
            r.transcript@,
            lines.0,
            place_in_turn(s, out, r.transcript@.len() as int, out.pictures@[i].out_chars),
        ),
        begins_line(
            r.transcript@,
            lines.1,
            place_in_turn(s, out, r.transcript@.len() as int, out.pictures@[k].out_chars),
        ),
        lines.0 <= lines.1,
    ensures
        0 <= at.0 < at.1 < r.transcript_elems@.len(),
        r.transcript_elems@[at.0] matches TranscriptElem::Image(img) && is_picture_of(
            s,
            out,
            i,
            img@,
        ),
        r.transcript_elems@[at.1] matches TranscriptElem::Image(img) && is_picture_of(
            s,
            out,
            k,
            img@,
        ),
        tells_up_to(s, out, r, at.0, lines.0),
        tells_up_to(s, out, r, at.1, lines.1),
{
    let t = r.transcript@;
    let n = t.len() as int;
    let base = s.turn_base(out);
    let pics = s.turn_screen(out).0.story_pics;
    let marks = turn_marks_of(s, out, r);
    let idx = lemma_turn_in_prose(s, out);
    let x = choose|x: int| 0 <= x < idx.len() && idx[x] == i;
    let y = choose|y: int| 0 <= y < idx.len() && idx[y] == k;
    assert(x < y);
    let qi = waiting(s, out).len() + x;
    let qk = waiting(s, out).len() + y;
    assert(marks[qi] == (pics[qi].0, ElemView::Image(pics[qi].1)));
    assert(marks[qk] == (pics[qk].0, ElemView::Image(pics[qk].1)));
    let ci = place_in_turn(s, out, n, out.pictures@[i].out_chars);
    let ck = place_in_turn(s, out, n, out.pictures@[k].out_chars);
    lemma_line_begins(t, ci);
    lemma_line_begins(t, ck);
    lemma_one_line_start(t, lines.0, line_start(t, ci), ci);
    lemma_one_line_start(t, lines.1, line_start(t, ck), ck);
    let ps = lemma_placed_keeps_order(t, marks, base, qi, qk);
    let ji = lemma_turn_mark_at(s, out, after, r, ps.0);
    let jk = lemma_turn_mark_at(s, out, after, r, ps.1);
    if jk <= ji {
        lemma_fewer_marks(elem_views(r.transcript_elems@), jk, ji);
    }
    (ji, jk)
}

/// A line has one start.
proof fn lemma_one_line_start(t: Seq<char>, a: int, b: int, off: int)
    requires
        begins_line(t, a, off),
        begins_line(t, b, off),
    ensures
        a == b,
{
    if a < b {
        assert(t[b - 1] == '\n');
    } else if b < a {
        assert(t[a - 1] == '\n');
    }
}

/// Every text among the elements of a turn is a piece of the transcript, as it was printed:
/// the characters of the piece, each in its own style. The texts before it print what the
/// transcript prints before the piece, and a text is followed by no other text.
///
/// The result is where in the transcript the piece begins and ends.
pub proof fn a_text_is_a_piece_of_the_transcript(
    s: &GameSession,
    out: &TurnOutput,
    after: &GameSession,
    r: &TurnResult,
    j: int,
) -> (at: (int, int))
    requires
        s.drained_to(*out, after, r),
        s.sink.wf(),
        out.wf(s.layers.art_scale),
        r.transcript@.len() <= usize::MAX,
        r.transcript@.len() <= s.sink.text@.len(),
        0 <= j < r.transcript_elems@.len(),
        r.transcript_elems@[j] is Text,
    ensures
        told_from(s, out, r.transcript@.len() as int) <= at.0 < at.1 <= r.transcript@.len(),
        r.transcript_elems@[j] matches TranscriptElem::Text { text, runs } && text@
            == r.transcript@.subrange(at.0, at.1) && char_styles(runs@) == char_styles(
            r.transcript_runs@,
        ).subrange(at.0, at.1),
        tells_up_to(s, out, r, j, at.0),
        j + 1 < r.transcript_elems@.len() ==> !(r.transcript_elems@[j + 1] is Text),
        j + 1 == r.transcript_elems@.len() ==> at.1 == r.transcript@.len(),
{
    let t = r.transcript@;
    let n = t.len() as int;
    let base = s.turn_base(out);
    let pics = s.turn_screen(out).0.story_pics;
    let clears = clear_positions(out, s.sink.cleared_at, base, n);
    let marks = turn_marks_of(s, out, r);
    let runs = r.transcript_runs@;
    let placed = placed_marks(t, marks, base);
    let frozen = given(retired_offset(out, base, n), out.prose_retired_whole);
    let w = woven(t, runs, placed, 0, frozen);
    assert(elem_views(r.transcript_elems@).len() == r.transcript_elems@.len());
    assert(elem_views(r.transcript_elems@) == w);
    marks_are_placed_in_order(t, marks, base);
    lemma_placed_bare(pics, clears, t, base);
    if let Some(at) = frozen {
        let c = out.prose_retired->0;
        lemma_also(seq![], given(out.prose_retired, out.prose_retired_whole), c);
        let c1 = also(seq![], given(out.prose_retired, out.prose_retired_whole));
        lemma_also(c1, out.screen_cleared, c);
        lemma_also(also(c1, out.screen_cleared), mid_turn_clear(s.sink.cleared_at, base, n), c);
        let k = choose|k: int| 0 <= k < clears.len() && clears[k] == c;
        let i = pics.len() + k;
        assert(marks[i] == (c, ElemView::ScreenClear));
        lemma_placed_somewhere(t, marks, base, i);
        let f = (mark_offset(t, marks[i].0, base, marks[i].1), marks[i].1);
        let x = choose|x: int| 0 <= x < placed.len() && placed[x] == f;
        assert(placed[x].0 == at);
    }
    assert(elem_views(r.transcript_elems@)[j] == r.transcript_elems@[j]@);
    let at = lemma_piece_stands(t, runs, placed, 0, frozen, j);
    assert(elem_views(r.transcript_elems@.take(j)) =~= w.take(j));
    cutting_runs_keeps_the_styles(s.sink.runs@, n);
    lemma_char_styles_len(runs);
    skipping_runs_keeps_the_styles(runs, at.0);
    cutting_runs_keeps_the_styles(runs_after(runs, at.0), at.1 - at.0);
    lemma_runs_after_len(runs, at.0);
    assert(char_styles(runs).skip(at.0).take(at.1 - at.0) =~= char_styles(runs).subrange(
        at.0,
        at.1,
    ));
    if j + 1 < w.len() {
        assert(elem_views(r.transcript_elems@)[j + 1] == r.transcript_elems@[j + 1]@);
    }
    at
}

/// Where a text stands among the woven elements.
proof fn lemma_piece_stands(
    t: Seq<char>,
    runs: Seq<CaptureRun>,
    marks: Seq<(int, ElemView)>,
    pos: int,
    frozen: Option<usize>,
    j: int,
) -> (at: (int, int))
    requires
        in_order(marks, t.len() as int),
        bare_marks(marks),
        0 <= pos <= t.len(),
        forall|i: int| 0 <= i < marks.len() ==> (#[trigger] marks[i]).0 >= pos,
        frozen matches Some(f) ==> f <= t.len() && (pos >= f || exists|q: int|
            0 <= q < marks.len() && #[trigger] marks[q].0 == f),
        0 <= j < woven(t, runs, marks, pos, frozen).len(),
        woven(t, runs, marks, pos, frozen)[j] is Text,
    ensures
        ({
            let w = woven(t, runs, marks, pos, frozen);
            let lo = if frozen is Some && frozen->0 > pos {
                frozen->0 as int
            } else {
                pos
            };
            &&& lo <= at.0 < at.1 <= t.len()
            &&& w[j] == (ElemView::Text {
                text: t.subrange(at.0, at.1),
                runs: runs_before(runs_after(runs, at.0), at.1 - at.0),
            })
            &&& printed(all_text(w.take(j))) == printed(t.subrange(lo, at.0))
            &&& j + 1 < w.len() ==> !(w[j + 1] is Text)
            &&& j + 1 == w.len() ==> at.1 == t.len()
        }),
    decreases marks.len(),
{
    let w = woven(t, runs, marks, pos, frozen);
    reveal(Seq::filter);
    if marks.len() == 0 {
        assert(w.take(0) =~= seq![]);
        assert(all_text(w.take(0)) =~= seq![]);
        assert(t.subrange(pos, pos) =~= seq![]);
        (pos, t.len() as int)
    } else {
        let off = marks[0].0;
        let a = text_before(t, runs, pos, off, frozen);
        let b = seq![marks[0].1];
        let rest = marks.drop_first();
        let c = woven(t, runs, rest, off, frozen);
        assert(off >= pos);
        assert(w == a + b + c);
        if frozen is Some && frozen->0 > pos {
            let q = choose|q: int| 0 <= q < marks.len() && #[trigger] marks[q].0 == frozen->0;
            assert(marks[0].0 <= marks[q].0);
        }
        if j < a.len() {
            assert(w.take(0) =~= seq![]);
            assert(all_text(w.take(0)) =~= seq![]);
            assert(t.subrange(pos, pos) =~= seq![]);
            assert(w[j] == a[0]);
            assert(w[j + 1] == marks[0].1);
            (pos, text_end(t, off))
        } else {
            assert(j != a.len()) by {
                assert(w[a.len() as int] == marks[0].1);
            }
            assert forall|i: int| 0 <= i < rest.len() implies (#[trigger] rest[i]).0 >= off && !(
            rest[i].1 is Text) by {
                assert(rest[i] == marks[i + 1]);
                assert(marks[0].0 <= marks[i + 1].0);
            }
            assert(in_order(rest, t.len() as int)) by {
                assert forall|i: int| 0 <= i < rest.len() implies 0 <= (#[trigger] rest[i]).0
                    <= t.len() by {
                    assert(rest[i] == marks[i + 1]);
                }
                assert forall|i: int, k: int| 0 <= i <= k < rest.len() implies (
                #[trigger] rest[i]).0 <= (#[trigger] rest[k]).0 by {
                    assert(rest[i] == marks[i + 1]);
                    assert(rest[k] == marks[k + 1]);
                }
            }
            if frozen is Some && off < frozen->0 {
                let q = choose|q: int| 0 <= q < marks.len() && #[trigger] marks[q].0 == frozen->0;
                assert(rest[q - 1] == marks[q]);
            }
            let j1 = j - a.len() - 1;
            assert(w[j] == c[j1]);
            let at = lemma_piece_stands(t, runs, rest, off, frozen, j1);
            let j0 = lemma_mark_stands(t, runs, marks, pos, frozen, 0);
            lemma_first_mark(t, runs, marks, pos, frozen, j0);
            assert(w.take(j0) =~= a);
            assert(w.take(j) =~= a + b + c.take(j1));
            lemma_all_text_add(a + b, c.take(j1));
            lemma_all_text_add(a, b);
            assert(b.drop_last() =~= seq![]);
            assert(all_text(b.drop_last()) =~= seq![]);
            assert(elem_text(marks[0].1) =~= seq![]);
            assert(all_text(b) =~= seq![]);
            assert(all_text(a + b) =~= all_text(a));
            Seq::filter_distributes_over_add(
                all_text(a),
                all_text(c.take(j1)),
                |c: char| c != '\n',
            );
            let lo = if frozen is Some && frozen->0 > pos {
                frozen->0 as int
            } else {
                pos
            };
            let lo1 = if off > lo {
                off
            } else {
                lo
            };
            lemma_printed_pieces(t, lo, lo1, at.0);
            if j + 1 < w.len() {
                assert(w[j + 1] == c[j1 + 1]);
            }
            at
        }
    }
}

/// The first mark stands right behind the text before it.
proof fn lemma_first_mark(
    t: Seq<char>,
    runs: Seq<CaptureRun>,
    marks: Seq<(int, ElemView)>,
    pos: int,
    frozen: Option<usize>,
    j: int,
)
    requires
        marks.len() > 0,
        bare_marks(marks),
        0 <= j < woven(t, runs, marks, pos, frozen).len(),
        woven(t, runs, marks, pos, frozen)[j] == marks[0].1,
        marks_of(woven(t, runs, marks, pos, frozen).take(j)).len() == 0,
    ensures
        j == text_before(t, runs, pos, marks[0].0, frozen).len(),
{
    let w = woven(t, runs, marks, pos, frozen);
    let a = text_before(t, runs, pos, marks[0].0, frozen);
    let k = a.len() as int;
    assert(w[k] == marks[0].1);
    if j < k {
        assert(w[j] == a[j]);
    } else if j > k {
        let f = |e: ElemView| !(e is Text);
        assert(w.take(j)[k] == marks[0].1);
        assert(f(w.take(j)[k]));
        w.take(j).lemma_filter_contains(f, k);
    }
}

} // verus!
