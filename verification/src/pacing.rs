//! A turn's sequence of pictures: the order it is applied in, the frames it passes through,
//! and drawing the screen again under another palette.

use crate::canvas::{Canvas, CanvasView};
use crate::floats::{float_x, is_win0_inline_float};
use crate::layers::{art_ok, art_view, EraseFill, Layers, LayersView};
use crate::machine::{larger, Machine};
use crate::oplist::{replayed, V6Op};
use crate::pict::{art_from, art_in, dims_from, dims_in, source_wf, PictSource};
use crate::pixels::{full_canvases, in_event_picture};
use crate::raster::{blank, has_extent, Grid, Raster};
use crate::turn::PictureEvent;
use crate::windows::{WindowMap, WINDOW_NUMBERS};
use vstd::prelude::*;

verus! {

// ── Replaying a display list ──────────────────────────────────────────────────
impl CanvasView {
    /// The canvas after one entry of its display list.
    pub open spec fn after_op(self, art: Map<u16, Grid>, op: V6Op) -> CanvasView {
        match op {
            V6Op::Erase { dx, dy, w, h } => self.erased(dx as int, dy as int, w as int, h as int),
            V6Op::Draw { number, dx, dy } => if art.dom().contains(number) {
                self.drawn(art[number], dx as int, dy as int, self.w as int, self.h as int)
            } else {
                self
            },
        }
    }

    /// The canvas after a display list.
    pub open spec fn after_ops(self, art: Map<u16, Grid>, ops: Seq<V6Op>) -> CanvasView
        decreases ops.len(),
    {
        if ops.len() == 0 {
            self
        } else {
            self.after_ops(art, ops.drop_last()).after_op(art, ops.last())
        }
    }

    /// The canvas, cleared and drawn again from its display list.
    pub open spec fn redrawn(self, art: Map<u16, Grid>, ops: Seq<V6Op>) -> CanvasView {
        self.erased(0, 0, self.w as int, self.h as int).after_ops(art, ops)
    }
}

/// Drawing a canvas again gives what its display list draws on a blank one, and keeps its
/// place in the order of drawings: a change of palette recolours what is on the screen and
/// leaves what covers what.
pub proof fn redrawing_shows_the_display_list(c: CanvasView, art: Map<u16, Grid>, ops: Seq<V6Op>)
    requires
        has_extent(c.grid, c.w as int, c.h as int),
    ensures
        c.redrawn(art, ops).grid == replayed(ops, art, c.w as nat, c.h as nat),
        c.redrawn(art, ops).z_seq == c.z_seq,
        c.redrawn(art, ops).w == c.w,
        c.redrawn(art, ops).h == c.h,
    decreases ops.len(),
{
    let start = c.erased(0, 0, c.w as int, c.h as int);
    if ops.len() == 0 {
        let b = blank(c.w as nat, c.h as nat);
        assert forall|y: int| 0 <= y < c.h implies start.grid[y] =~= b[y] by {}
        assert(start.grid =~= b);
    } else {
        redrawing_shows_the_display_list(c, art, ops.drop_last());
    }
}

/// Draws the entries of a display list on a canvas.
fn draw_ops(c: &mut Canvas, ops: &Vec<V6Op>, src: &Option<PictSource>, scale: (u32, u32))
    requires
        old(c).wf(),
        source_wf(*src, scale),
    ensures
        final(c).wf(),
        final(c)@ == old(c)@.after_ops(art_in(*src, scale), ops@),
{
    let ghost art = art_in(*src, scale);
    let w: u32 = c.img.width;
    let h: u32 = c.img.height;
    let mut i: usize = 0;
    assert(ops@.take(0) =~= seq![]);
    while i < ops.len()
        invariant
            i <= ops@.len(),
            c.wf(),
            source_wf(*src, scale),
            art == art_in(*src, scale),
            c@ == old(c)@.after_ops(art, ops@.take(i as int)),
            c.img.width == w,
            c.img.height == h,
        decreases ops.len() - i,
    {
        assert(ops@.take(i + 1).drop_last() =~= ops@.take(i as int));
        match ops[i] {
            V6Op::Erase { dx, dy, w: ew, h: eh } => {
                c.erase_rect(dx, dy, ew, eh);
            },
            V6Op::Draw { number, dx, dy } => {
                if let Some(img) = art_from(src, number, scale) {
                    c.draw_image_clipped(&img, dx, dy, (w, h));
                }
            },
        }
        i = i + 1;
    }
    assert(ops@.take(i as int) =~= ops@);
}

/// Draws a display list on a fresh canvas, under the current palette.
pub fn replay_into_scratch(
    ops: &Vec<V6Op>,
    w: u32,
    h: u32,
    src: &Option<PictSource>,
    scale: (u32, u32),
) -> (r: Canvas)
    requires
        source_wf(*src, scale),
    ensures
        r.wf(),
        r@ == CanvasView::blank(w, h).redrawn(art_in(*src, scale), ops@),
        r@.grid == replayed(ops@, art_in(*src, scale), w as nat, h as nat),
{
    let mut c: Canvas = Canvas::new(w, h);
    c.erase_rect(0, 0, w, h);
    draw_ops(&mut c, ops, src, scale);
    proof {
        redrawing_shows_the_display_list(CanvasView::blank(w, h), art_in(*src, scale), ops@);
    }
    c
}

impl LayersView {
    /// The layers with the canvas of one window drawn again.
    pub open spec fn redrawn_in(self, art: Map<u16, Grid>, win: u8) -> LayersView {
        if self.ops.dom().contains(win) && !self.unreplayable.contains(win)
            && self.canvases.dom().contains(win) {
            LayersView {
                canvases: self.canvases.insert(
                    win,
                    self.canvases[win].redrawn(art, self.ops[win]),
                ),
                ..self
            }
        } else {
            self
        }
    }

    /// The layers with the canvases of the first `n` windows drawn again.
    pub open spec fn redrawn_below(self, art: Map<u16, Grid>, n: nat) -> LayersView
        decreases n,
    {
        if n == 0 {
            self
        } else {
            self.redrawn_below(art, (n - 1) as nat).redrawn_in(art, (n - 1) as u8)
        }
    }
}

impl Layers {
    /// Draws every window again from its display list, under the current palette. A window
    /// whose list does not tell how its canvas came about keeps its pixels.
    pub fn replay_under_current_palette(&mut self, src: &Option<PictSource>)
        requires
            old(self).wf(),
            source_wf(*src, old(self).art_scale),
        ensures
            final(self).wf(),
            final(self)@ == old(self)@.redrawn_below(
                art_in(*src, old(self).art_scale),
                WINDOW_NUMBERS as nat,
            ),
            final(self).art_scale == old(self).art_scale,
    {
        let ghost l0 = self@;
        let ghost art = art_in(*src, self.art_scale);
        let mut n: usize = 0;
        while n < WINDOW_NUMBERS
            invariant
                n <= WINDOW_NUMBERS,
                self.wf(),
                source_wf(*src, self.art_scale),
                self.art_scale == old(self).art_scale,
                art == art_in(*src, self.art_scale),
                self@ == l0.redrawn_below(art, n as nat),
            decreases WINDOW_NUMBERS - n,
        {
            let win: u8 = n as u8;
            let ghost before = self@;
            if self.display_ops.contains(win) && !self.unreplayable.contains(win) {
                if let Some(mut c) = self.pictures_canvas.remove(win) {
                    let (w, h) = (c.img.width, c.img.height);
                    c.erase_rect(0, 0, w, h);
                    if let Some(ops) = self.display_ops.get(win) {
                        draw_ops(&mut c, ops, src, self.art_scale);
                    }
                    self.pictures_canvas.insert(win, c);
                    assert(self@.canvases =~= before.redrawn_in(art, win).canvases);
                } else {
                    assert(self@.canvases =~= before.canvases);
                }
            }
            assert(self@ =~= before.redrawn_in(art, win));
            n = n + 1;
        }
    }
}

// ── Pacing ────────────────────────────────────────────────────────────────────
/// How many pixels a picture paints in a millisecond.
pub const PACE_PX_PER_MS: u64 = 800;

/// The shortest time that a frame is held, in milliseconds.
pub const PACE_MIN_MS: u64 = 40;

/// The longest time that a frame is held, in milliseconds.
pub const PACE_MAX_MS: u64 = 350;

/// The most frames that a turn passes through on its way to the settled screen.
pub const PACE_MAX_FRAMES: usize = 8;

/// One screen that a turn's sequence of pictures passes through, and how long it is held.
#[derive(Debug)]
pub struct PacedFrame {
    pub canvas: WindowMap<Canvas>,
    pub hold_ms: u64,
}

/// The model of a [`PacedFrame`].
#[verifier::ext_equal]
pub struct FrameView {
    pub canvases: Map<u8, CanvasView>,
    pub hold_ms: u64,
}

impl PacedFrame {
    /// The model of the frame.
    pub open spec fn view(&self) -> FrameView {
        FrameView {
            canvases: Map::new(
                |k: u8| self.canvas@.dom().contains(k),
                |k: u8| self.canvas@[k]@,
            ),
            hold_ms: self.hold_ms,
        }
    }

    /// Every canvas has the pixels of its extent.
    pub open spec fn wf(&self) -> bool {
        &&& self.canvas.wf()
        &&& forall|k: u8| self.canvas@.dom().contains(k) ==> (#[trigger] self.canvas@[k]).wf()
    }
}

/// Copies the canvases of a screen.
fn copy_canvases(from: &WindowMap<Canvas>) -> (r: WindowMap<Canvas>)
    requires
        from.wf(),
        forall|k: u8| from@.dom().contains(k) ==> (#[trigger] from@[k]).wf(),
    ensures
        r.wf(),
        r@.dom() == from@.dom(),
        forall|k: u8|
            from@.dom().contains(k) ==> (#[trigger] r@[k]).wf() && r@[k]@ == from@[k]@,
{
    let mut r: WindowMap<Canvas> = WindowMap::new();
    let mut n: usize = 0;
    while n < WINDOW_NUMBERS
        invariant
            n <= WINDOW_NUMBERS,
            from.wf(),
            forall|k: u8| from@.dom().contains(k) ==> (#[trigger] from@[k]).wf(),
            r.wf(),
            forall|k: u8| r@.dom().contains(k) <==> k < n && from@.dom().contains(k),
            forall|k: u8|
                k < n && from@.dom().contains(k) ==> (#[trigger] r@[k]).wf() && r@[k]@ == from@[k]@,
        decreases WINDOW_NUMBERS - n,
    {
        if let Some(c) = from.get(n as u8) {
            assert(from@[n as u8].wf());
            r.insert(n as u8, c.copy());
        }
        n = n + 1;
    }
    assert(r@.dom() =~= from@.dom());
    r
}

/// Whether an event paints a canvas: it draws a picture that resolves, and the picture is
/// not in the flow of the prose.
pub open spec fn paints_canvas(
    m: &Machine,
    dims: Option<(u32, u32)>,
    scale: (u32, u32),
    ev: PictureEvent,
) -> bool {
    !ev.erase && ev.number != 0 && float_x(m, dims, scale, ev) is None && dims is Some
}

/// The number, brought into a range.
pub open spec fn between(n: int, lo: int, hi: int) -> int {
    if n < lo {
        lo
    } else if n > hi {
        hi
    } else {
        n
    }
}

/// How long the screen rests on an event, in milliseconds: in proportion to the painted
/// area. An event that paints no canvas cannot be watched.
pub open spec fn hold_of(
    m: &Machine,
    dims: Option<(u32, u32)>,
    scale: (u32, u32),
    ev: PictureEvent,
) -> Option<u64> {
    if paints_canvas(m, dims, scale, ev) {
        let d = dims->0;
        let area = (d.0 * scale.0) * (d.1 * scale.1);
        Some(
            between(
                area / PACE_PX_PER_MS as int,
                PACE_MIN_MS as int,
                PACE_MAX_MS as int,
            ) as u64,
        )
    } else {
        None
    }
}

/// The box that an event paints in its window, from its corner to its end.
pub open spec fn painted_box(
    m: &Machine,
    dims: Option<(u32, u32)>,
    scale: (u32, u32),
    ev: PictureEvent,
) -> Option<(int, int, int, int)> {
    if paints_canvas(m, dims, scale, ev) {
        let d = dims->0;
        let x0 = larger(ev.x as int, 1) - 1;
        let y0 = larger(ev.y as int, 1) - 1;
        Some((x0, y0, x0 + d.0 * scale.0, y0 + d.1 * scale.1))
    } else {
        None
    }
}

/// Whether two boxes share a pixel.
pub open spec fn overlap(a: (int, int, int, int), b: (int, int, int, int)) -> bool {
    a.0 < b.2 && b.0 < a.2 && a.1 < b.3 && b.1 < a.3
}

/// The box that the event at an index paints.
pub open spec fn box_at(
    m: &Machine,
    src: Option<PictSource>,
    scale: (u32, u32),
    events: Seq<PictureEvent>,
    i: int,
) -> Option<(int, int, int, int)> {
    painted_box(m, dims_in(src, events[i].number), scale, events[i])
}

/// How long the screen rests on the event at an index.
pub open spec fn hold_at(
    m: &Machine,
    src: Option<PictSource>,
    scale: (u32, u32),
    events: Seq<PictureEvent>,
    i: int,
) -> Option<u64> {
    hold_of(m, dims_in(src, events[i].number), scale, events[i])
}

/// Whether an event paints over ground that an earlier event of the turn covered in the same
/// window.
pub open spec fn repaints(
    m: &Machine,
    src: Option<PictSource>,
    scale: (u32, u32),
    events: Seq<PictureEvent>,
    i: int,
) -> bool {
    exists|j: int|
        0 <= j < i && #[trigger] events[j].window == events[i].window && box_at(
            m,
            src,
            scale,
            events,
            j,
        ) is Some && box_at(m, src, scale, events, i) is Some && overlap(
            box_at(m, src, scale, events, i)->0,
            box_at(m, src, scale, events, j)->0,
        )
}

/// A length in the picture's pixels, in the screen's.
fn on_screen(n: u32, scale: u32) -> (r: u128)
    ensures
        r == n * scale,
        r <= 0xffff_ffff * 0xffff_ffff,
{
    assert(n * scale <= 0xffff_ffff * 0xffff_ffff) by (nonlinear_arith)
        requires
            n <= 0xffff_ffff,
            scale <= 0xffff_ffff,
    ;
    n as u128 * scale as u128
}

/// How long the screen rests on an event before the next one lands, in milliseconds.
pub fn picture_hold(
    m: &Machine,
    dims: Option<(u32, u32)>,
    scale: (u32, u32),
    ev: &PictureEvent,
) -> (r: Option<u64>)
    ensures
        r == hold_of(m, dims, scale, *ev),
{
    if ev.erase || ev.number == 0 || is_win0_inline_float(m, dims, scale, ev) {
        return None;
    }
    let d: (u32, u32) = match dims {
        Some(d) => d,
        None => {
            return None;
        },
    };
    let w: u128 = on_screen(d.0, scale.0);
    let h: u128 = on_screen(d.1, scale.1);
    assert(w * h <= (0xffff_ffff * 0xffff_ffff) * (0xffff_ffff * 0xffff_ffff)) by (nonlinear_arith)
        requires
            0 <= w <= 0xffff_ffff * 0xffff_ffff,
            0 <= h <= 0xffff_ffff * 0xffff_ffff,
    ;
    let ms: u128 = (w * h) / PACE_PX_PER_MS as u128;
    let held: u64 = if ms < PACE_MIN_MS as u128 {
        PACE_MIN_MS
    } else if ms > PACE_MAX_MS as u128 {
        PACE_MAX_MS
    } else {
        ms as u64
    };
    Some(held)
}

/// The box that an event paints in its window.
fn painted_area(
    m: &Machine,
    dims: Option<(u32, u32)>,
    scale: (u32, u32),
    ev: &PictureEvent,
) -> (r: Option<(u128, u128, u128, u128)>)
    ensures
        box_view(r) == painted_box(m, dims, scale, *ev),
{
    if ev.erase || ev.number == 0 || is_win0_inline_float(m, dims, scale, ev) {
        return None;
    }
    match dims {
        Some(d) => {
            let x0: u128 = if ev.x < 1 {
                0
            } else {
                ev.x as u128 - 1
            };
            let y0: u128 = if ev.y < 1 {
                0
            } else {
                ev.y as u128 - 1
            };
            Some((x0, y0, x0 + on_screen(d.0, scale.0), y0 + on_screen(d.1, scale.1)))
        },
        None => None,
    }
}

/// The model of a box that may be missing.
pub open spec fn box_view(r: Option<(u128, u128, u128, u128)>) -> Option<(int, int, int, int)> {
    match r {
        Some(b) => Some((b.0 as int, b.1 as int, b.2 as int, b.3 as int)),
        None => None,
    }
}

/// Finds which of a turn's pictures paint over ground that an earlier one of the same turn
/// covered in the same window: those are the ones worth watching land.
pub fn events_that_repaint_covered_ground(
    m: &Machine,
    src: &Option<PictSource>,
    scale: (u32, u32),
    events: &Vec<PictureEvent>,
) -> (r: Vec<bool>)
    ensures
        r@.len() == events@.len(),
        forall|i: int|
            0 <= i < events@.len() ==> #[trigger] r@[i] == repaints(m, *src, scale, events@, i),
{
    let mut boxes: Vec<Option<(u128, u128, u128, u128)>> = Vec::new();
    let mut covers: Vec<bool> = Vec::new();
    let mut i: usize = 0;
    while i < events.len()
        invariant
            i <= events@.len(),
            boxes@.len() == i,
            covers@.len() == i,
            forall|j: int|
                0 <= j < i ==> box_view(#[trigger] boxes@[j]) == box_at(m, *src, scale, events@, j),
            forall|j: int|
                0 <= j < i ==> #[trigger] covers@[j] == repaints(m, *src, scale, events@, j),
        decreases events.len() - i,
    {
        let ev: PictureEvent = events[i];
        let b = painted_area(m, dims_from(src, ev.number), scale, &ev);
        let mut hit: bool = false;
        if let Some(mine) = b {
            let mut j: usize = 0;
            while j < i
                invariant
                    j <= i,
                    i < events@.len(),
                    ev == events@[i as int],
                    boxes@.len() == i,
                    box_view(b) == box_at(m, *src, scale, events@, i as int),
                    b == Some(mine),
                    forall|k: int|
                        0 <= k < i ==> box_view(#[trigger] boxes@[k]) == box_at(
                            m,
                            *src,
                            scale,
                            events@,
                            k,
                        ),
                    hit == exists|k: int|
                        0 <= k < j && #[trigger] events@[k].window == events@[i as int].window
                            && box_at(m, *src, scale, events@, k) is Some && overlap(
                            box_at(m, *src, scale, events@, i as int)->0,
                            box_at(m, *src, scale, events@, k)->0,
                        ),
                decreases i - j,
            {
                assert(box_view(boxes@[j as int]) == box_at(m, *src, scale, events@, j as int));
                if let Some(o) = boxes[j] {
                    if events[j].window == ev.window && mine.0 < o.2 && o.0 < mine.2 && mine.1 < o.3
                        && o.1 < mine.3 {
                        assert(events@[j as int].window == events@[i as int].window);
                        hit = true;
                    }
                }
                j = j + 1;
            }
        }
        assert(hit == repaints(m, *src, scale, events@, i as int));
        boxes.push(b);
        covers.push(hit);
        i = i + 1;
    }
    covers
}

/// The index of the first event from `i` on that can be watched; the number of events if
/// there is none.
pub open spec fn next_held(holds: Seq<Option<u64>>, i: int) -> int
    decreases holds.len() - i,
{
    if i >= holds.len() || holds[i] is Some {
        i
    } else {
        next_held(holds, i + 1)
    }
}

/// Whether the screen is held after the event at an index: the event can be watched, and the
/// next one that can paints over covered ground.
pub open spec fn pauses_after(holds: Seq<Option<u64>>, covers: Seq<bool>, i: int) -> bool {
    let j = next_held(holds, i + 1);
    holds[i] is Some && j < holds.len() && covers[j]
}

/// What a turn's sequence of events has come to.
#[verifier::ext_equal]
pub struct DrainView {
    pub layers: LayersView,
    /// How many fills were painted.
    pub fills_done: int,
    pub frames: Seq<FrameView>,
}

/// The layers after the fills from `k` on that the game issued before the event at an index.
pub open spec fn after_fills(
    l: LayersView,
    m: &Machine,
    fills: Seq<EraseFill>,
    k: int,
    i: int,
) -> (LayersView, int)
    decreases fills.len() - k,
{
    if 0 <= k < fills.len() && fills[k].pics_before <= i {
        after_fills(l.painted(m, fills[k]), m, fills, k + 1, i)
    } else {
        (l, k)
    }
}

/// The layers after all fills from `k` on.
pub open spec fn after_all_fills(l: LayersView, m: &Machine, fills: Seq<EraseFill>, k: int) -> LayersView
    decreases fills.len() - k,
{
    if 0 <= k < fills.len() {
        after_all_fills(l.painted(m, fills[k]), m, fills, k + 1)
    } else {
        l
    }
}

/// What the first `n` events of a turn come to, with the fills between them.
pub open spec fn after_events(
    l: LayersView,
    m: &Machine,
    src: Option<PictSource>,
    events: Seq<PictureEvent>,
    art: Seq<Option<(u32, u32, Grid)>>,
    fills: Seq<EraseFill>,
    holds: Seq<Option<u64>>,
    covers: Seq<bool>,
    n: nat,
) -> DrainView
    decreases n,
{
    if n == 0 {
        DrainView { layers: l, fills_done: 0, frames: seq![] }
    } else {
        let i = n - 1;
        let d = after_events(l, m, src, events, art, fills, holds, covers, i as nat);
        let f = after_fills(d.layers, m, fills, d.fills_done, i);
        let done = f.0.after(m, events[i], dims_in(src, events[i].number), art[i]);
        DrainView {
            layers: done,
            fills_done: f.1,
            frames: if pauses_after(holds, covers, i) && d.frames.len() < PACE_MAX_FRAMES {
                d.frames.push(FrameView { canvases: done.canvases, hold_ms: holds[i]->0 })
            } else {
                d.frames
            },
        }
    }
}

impl LayersView {
    /// The layers after the canvases of the first `n` windows were settled where they were
    /// painted.
    pub open spec fn settled_below(self, m: &Machine, n: nat) -> LayersView
        decreases n,
    {
        if n == 0 {
            self
        } else {
            let l = self.settled_below(m, (n - 1) as nat);
            match m.origin((n - 1) as u8) {
                Some(now) => l.retired(m, (n - 1) as u8, now),
                None => l,
            }
        }
    }
}

/// The pictures of a batch of events, as far as they resolve.
pub open spec fn art_views(art: Seq<Option<Raster>>) -> Seq<Option<(u32, u32, Grid)>> {
    art.map_values(|o: Option<Raster>| art_view(o))
}

/// How long the screen rests on each event of a turn.
pub open spec fn holds_of(
    m: &Machine,
    src: Option<PictSource>,
    scale: (u32, u32),
    events: Seq<PictureEvent>,
) -> Seq<Option<u64>> {
    Seq::new(events.len(), |i: int| hold_at(m, src, scale, events, i))
}

/// Which events of a turn paint over covered ground.
pub open spec fn covers_of(
    m: &Machine,
    src: Option<PictSource>,
    scale: (u32, u32),
    events: Seq<PictureEvent>,
) -> Seq<bool> {
    Seq::new(events.len(), |i: int| repaints(m, src, scale, events, i))
}

/// What a turn's events and fills come to.
pub open spec fn drained(
    l: LayersView,
    m: &Machine,
    src: Option<PictSource>,
    events: Seq<PictureEvent>,
    art: Seq<Option<(u32, u32, Grid)>>,
    fills: Seq<EraseFill>,
    palette_changed: bool,
) -> (LayersView, Seq<FrameView>) {
    let d = after_events(
        l,
        m,
        src,
        events,
        art,
        fills,
        holds_of(m, src, l.art_scale, events),
        covers_of(m, src, l.art_scale, events),
        events.len(),
    );
    let filled_up = after_all_fills(d.layers, m, fills, d.fills_done);
    let settled = filled_up.settled_below(m, WINDOW_NUMBERS as nat);
    (
        if palette_changed {
            settled.redrawn_below(art_in(src, l.art_scale), WINDOW_NUMBERS as nat)
        } else {
            settled
        },
        d.frames,
    )
}

/// The models of a list of frames.
pub open spec fn frame_views(v: Seq<PacedFrame>) -> Seq<FrameView> {
    v.map_values(|f: PacedFrame| f@)
}

/// Whether every frame is well formed.
pub open spec fn frames_wf(v: Seq<PacedFrame>) -> bool {
    forall|i: int| 0 <= i < v.len() ==> (#[trigger] v[i]).wf()
}

/// An event keeps the scale of the layers.
pub proof fn lemma_after_keeps_scale(
    l: LayersView,
    m: &Machine,
    ev: PictureEvent,
    dims: Option<(u32, u32)>,
    art: Option<(u32, u32, Grid)>,
)
    ensures
        l.after(m, ev, dims, art).art_scale == l.art_scale,
{
    let r = l.retired(m, ev.window, (ev.win_box.0, ev.win_box.1));
    if ev.erase && ev.number == 0 {
        let bare = LayersView {
            canvases: r.canvases.remove(ev.window),
            anchors: r.anchors.remove(ev.window),
            ops: r.ops.remove(ev.window),
            unreplayable: r.unreplayable.remove(ev.window),
            ..r
        };
        if let Some(rect) = m.screen_rect(ev.window) {
            lemma_erased_keeps_scale(bare, m, rect, Some(ev.window), WINDOW_NUMBERS as nat);
        }
    } else if ev.erase && m.has_window(ev.window) {
        let e = crate::layers::erase_box(dims, r.art_scale, ev);
        let mid = LayersView {
            canvases: r.canvases.insert(ev.window, r.canvas_for(ev).erased(e.0, e.1, e.2, e.3)),
            ..r
        }.recorded(
            ev.window,
            V6Op::Erase { dx: e.0 as i32, dy: e.1 as i32, w: e.2 as u32, h: e.3 as u32 },
        );
        let rect = m.screen_rect(ev.window)->0;
        lemma_erased_keeps_scale(
            mid,
            m,
            ((rect.0 + e.0) as u32, (rect.1 + e.1) as u32, e.2 as u32, e.3 as u32),
            Some(ev.window),
            WINDOW_NUMBERS as nat,
        );
    }
}

/// Erasing a box keeps the scale of the layers.
proof fn lemma_erased_keeps_scale(
    l: LayersView,
    m: &Machine,
    rect: (u32, u32, u32, u32),
    skip: Option<u8>,
    n: nat,
)
    ensures
        l.erased_below(m, rect, skip, n).art_scale == l.art_scale,
    decreases n,
{
    if n > 0 {
        lemma_erased_keeps_scale(l, m, rect, skip, (n - 1) as nat);
    }
}

impl Layers {
    /// Applies a turn's events and fills to the screen in the order the game issued them,
    /// and returns the frames that the sequence passes through. The two queues are one
    /// timeline: each fill says how many pictures came before it. What a window drew before
    /// it moved is settled on the ground at the end, and a change of the palette draws the
    /// windows again.
    pub fn drain_pictures(
        &mut self,
        m: &Machine,
        src: &Option<PictSource>,
        events: &Vec<PictureEvent>,
        art: &Vec<Option<Raster>>,
        fills: &Vec<EraseFill>,
        palette_changed: bool,
    ) -> (r: Vec<PacedFrame>)
        requires
            old(self).wf(),
            source_wf(*src, old(self).art_scale),
            art@.len() == events@.len(),
            forall|i: int|
                0 <= i < art@.len() ==> art_ok(#[trigger] art@[i], old(self).art_scale),
        ensures
            final(self).wf(),
            (final(self)@, frame_views(r@)) == drained(
                old(self)@,
                m,
                *src,
                events@,
                art_views(art@),
                fills@,
                palette_changed,
            ),
            frames_wf(r@),
            final(self).art_scale == old(self).art_scale,
    {
        let scale: (u32, u32) = self.art_scale;
        let ghost l0 = self@;
        let ghost views = art_views(art@);
        let ghost holds_v = holds_of(m, *src, scale, events@);
        let ghost covers_v = covers_of(m, *src, scale, events@);
        let mut holds: Vec<Option<u64>> = Vec::new();
        let mut i: usize = 0;
        while i < events.len()
            invariant
                i <= events@.len(),
                holds@ == holds_v.take(i as int),
                holds_v == holds_of(m, *src, scale, events@),
            decreases events.len() - i,
        {
            let ev: PictureEvent = events[i];
            holds.push(picture_hold(m, dims_from(src, ev.number), scale, &ev));
            i = i + 1;
            assert(holds@ =~= holds_v.take(i as int));
        }
        assert(holds@ =~= holds_v);
        let covers: Vec<bool> = events_that_repaint_covered_ground(m, src, scale, events);
        assert(covers@ =~= covers_v);
        let mut frames: Vec<PacedFrame> = Vec::new();
        let mut done: usize = 0;
        let mut n: usize = 0;
        assert(frame_views(frames@) =~= seq![]);
        while n < events.len()
            invariant
                n <= events@.len(),
                self.wf(),
                self.art_scale == scale,
                source_wf(*src, scale),
                art@.len() == events@.len(),
                forall|i: int| 0 <= i < art@.len() ==> art_ok(#[trigger] art@[i], scale),
                views == art_views(art@),
                holds@ == holds_v,
                covers@ == covers_v,
                holds_v.len() == events@.len(),
                covers_v.len() == events@.len(),
                done <= fills@.len(),
                frames_wf(frames@),
                frames@.len() <= PACE_MAX_FRAMES,
                (DrainView {
                    layers: self@,
                    fills_done: done as int,
                    frames: frame_views(frames@),
                }) == after_events(
                    l0,
                    m,
                    *src,
                    events@,
                    views,
                    fills@,
                    holds_v,
                    covers_v,
                    n as nat,
                ),
            decreases events.len() - n,
        {
            let ghost d = after_events(
                l0,
                m,
                *src,
                events@,
                views,
                fills@,
                holds_v,
                covers_v,
                n as nat,
            );
            while done < fills.len() && fills[done].pics_before as u64 <= n as u64
                invariant
                    done <= fills@.len(),
                    self.wf(),
                    self.art_scale == scale,
                    after_fills(self@, m, fills@, done as int, n as int) == after_fills(
                        d.layers,
                        m,
                        fills@,
                        d.fills_done,
                        n as int,
                    ),
                decreases fills.len() - done,
            {
                let f: EraseFill = fills[done];
                let ghost before = self@;
                self.apply_erase_fill(m, &f);
                assert(self@.art_scale == before.art_scale);
                done = done + 1;
            }
            let ev: PictureEvent = events[n];
            assert(views[n as int] == art_view(art@[n as int]));
            assert(art_ok(art@[n as int], scale));
            proof {
                lemma_after_keeps_scale(
                    self@,
                    m,
                    ev,
                    dims_in(*src, ev.number),
                    art_view(art@[n as int]),
                );
            }
            self.apply_picture_event(m, &ev, dims_from(src, ev.number), &art[n]);
            assert(self@.art_scale == scale);
            let mut j: usize = n + 1;
            while j < holds.len() && holds[j].is_none()
                invariant
                    n < j <= holds@.len(),
                    next_held(holds@, n + 1) == next_held(holds@, j as int),
                decreases holds.len() - j,
            {
                j = j + 1;
            }
            if let Some(hold_ms) = holds[n] {
                if j < holds.len() && covers[j] && frames.len() < PACE_MAX_FRAMES {
                    let canvas: WindowMap<Canvas> = copy_canvases(&self.pictures_canvas);
                    let frame = PacedFrame { canvas, hold_ms };
                    let ghost before = frames@;
                    frames.push(frame);
                    proof {
                        assert(frame@.canvases =~= self@.canvases);
                        assert(frame_views(frames@) =~= frame_views(before).push(
                            FrameView { canvases: self@.canvases, hold_ms },
                        ));
                        assert forall|k: int| 0 <= k < frames@.len() implies (
                        #[trigger] frames@[k]).wf() by {
                            if k < before.len() {
                                assert(frames@[k] == before[k]);
                            }
                        }
                    }
                }
            }
            n = n + 1;
        }
        let ghost d = after_events(
            l0,
            m,
            *src,
            events@,
            views,
            fills@,
            holds_v,
            covers_v,
            n as nat,
        );
        while done < fills.len()
            invariant
                done <= fills@.len(),
                self.wf(),
                self.art_scale == scale,
                after_all_fills(self@, m, fills@, done as int) == after_all_fills(
                    d.layers,
                    m,
                    fills@,
                    d.fills_done,
                ),
            decreases fills.len() - done,
        {
            let f: EraseFill = fills[done];
            let ghost before = self@;
            self.apply_erase_fill(m, &f);
            assert(self@.art_scale == before.art_scale);
            done = done + 1;
        }
        let ghost filled_up = self@;
        let mut w: usize = 0;
        while w < WINDOW_NUMBERS
            invariant
                w <= WINDOW_NUMBERS,
                self.wf(),
                self.art_scale == scale,
                self@ == filled_up.settled_below(m, w as nat),
            decreases WINDOW_NUMBERS - w,
        {
            let ghost before = self@;
            if let Some(now) = m.window_origin(w as u8) {
                self.retire_stranded_canvas(m, w as u8, now);
            }
            assert(self@.art_scale == before.art_scale);
            w = w + 1;
        }
        if palette_changed {
            self.replay_under_current_palette(src);
        }
        frames
    }
}

// ── Laws ──────────────────────────────────────────────────────────────────────
/// A turn passes through a bounded number of frames.
pub proof fn frames_are_bounded(
    l: LayersView,
    m: &Machine,
    src: Option<PictSource>,
    events: Seq<PictureEvent>,
    art: Seq<Option<(u32, u32, Grid)>>,
    fills: Seq<EraseFill>,
    holds: Seq<Option<u64>>,
    covers: Seq<bool>,
    n: nat,
)
    ensures
        after_events(l, m, src, events, art, fills, holds, covers, n).frames.len()
            <= PACE_MAX_FRAMES,
    decreases n,
{
    if n > 0 {
        frames_are_bounded(l, m, src, events, art, fills, holds, covers, (n - 1) as nat);
    }
}

/// A turn none of whose pictures paints over another shows its settled screen at once.
pub proof fn disjoint_pictures_are_not_paced(
    l: LayersView,
    m: &Machine,
    src: Option<PictSource>,
    events: Seq<PictureEvent>,
    art: Seq<Option<(u32, u32, Grid)>>,
    fills: Seq<EraseFill>,
    palette_changed: bool,
)
    requires
        forall|i: int|
            0 <= i < events.len() ==> !#[trigger] repaints(m, src, l.art_scale, events, i),
    ensures
        drained(l, m, src, events, art, fills, palette_changed).1 == Seq::<FrameView>::empty(),
{
    lemma_no_frames(
        l,
        m,
        src,
        events,
        art,
        fills,
        holds_of(m, src, l.art_scale, events),
        covers_of(m, src, l.art_scale, events),
        events.len(),
    );
}

/// Where nothing is painted over, no frame is held.
proof fn lemma_no_frames(
    l: LayersView,
    m: &Machine,
    src: Option<PictSource>,
    events: Seq<PictureEvent>,
    art: Seq<Option<(u32, u32, Grid)>>,
    fills: Seq<EraseFill>,
    holds: Seq<Option<u64>>,
    covers: Seq<bool>,
    n: nat,
)
    requires
        n <= events.len(),
        holds.len() == events.len(),
        covers.len() == events.len(),
        forall|i: int| 0 <= i < covers.len() ==> !#[trigger] covers[i],
    ensures
        after_events(l, m, src, events, art, fills, holds, covers, n).frames == Seq::<
            FrameView,
        >::empty(),
    decreases n,
{
    if n > 0 {
        lemma_no_frames(l, m, src, events, art, fills, holds, covers, (n - 1) as nat);
        lemma_next_held(holds, n as int);
    }
}

/// The next event that can be watched lies ahead.
proof fn lemma_next_held(holds: Seq<Option<u64>>, i: int)
    ensures
        next_held(holds, i) >= i,
    decreases holds.len() - i,
{
    if i < holds.len() && holds[i] is None {
        lemma_next_held(holds, i + 1);
    }
}

/// How long a frame is held lies between the shortest and the longest time.
pub proof fn a_hold_is_bounded(
    m: &Machine,
    dims: Option<(u32, u32)>,
    scale: (u32, u32),
    ev: PictureEvent,
)
    ensures
        hold_of(m, dims, scale, ev) matches Some(ms) ==> PACE_MIN_MS <= ms <= PACE_MAX_MS,
{
}

/// Whether an event paints a point of a window's canvas: it draws a picture whose extent is
/// known, outside the flow of the prose, and the point lies where the picture stands.
pub open spec fn paints_point(
    m: &Machine,
    src: Option<PictSource>,
    scale: (u32, u32),
    ev: PictureEvent,
    x: int,
    y: int,
) -> bool {
    let dims = dims_in(src, ev.number);
    &&& !ev.erase && ev.number != 0
    &&& float_x(m, dims, scale, ev) is None
    &&& dims matches Some(d) && in_event_picture(ev, d.0 as int, d.1 as int, scale, x, y)
}

/// A picture is worth watching exactly where it paints a point that an earlier picture of the
/// turn painted in the same window, where no picture is without an extent.
pub proof fn a_repaint_shares_a_point(
    m: &Machine,
    src: Option<PictSource>,
    scale: (u32, u32),
    events: Seq<PictureEvent>,
    i: int,
)
    requires
        0 <= i < events.len(),
        forall|j: int|
            0 <= j <= i ==> (dims_in(src, (#[trigger] events[j]).number) matches Some(d) ==> d.0
                * scale.0 > 0 && d.1 * scale.1 > 0),
    ensures
        repaints(m, src, scale, events, i) ==> exists|j: int, x: int, y: int|
            0 <= j < i && events[j].window == events[i].window && #[trigger] paints_point(
                m,
                src,
                scale,
                events[j],
                x,
                y,
            ) && paints_point(m, src, scale, events[i], x, y),
        forall|j: int, x: int, y: int|
            0 <= j < i && events[j].window == events[i].window && #[trigger] paints_point(
                m,
                src,
                scale,
                events[j],
                x,
                y,
            ) && paints_point(m, src, scale, events[i], x, y) ==> repaints(
                m,
                src,
                scale,
                events,
                i,
            ),
{
    if repaints(m, src, scale, events, i) {
        let j = choose|j: int|
            0 <= j < i && #[trigger] events[j].window == events[i].window && box_at(
                m,
                src,
                scale,
                events,
                j,
            ) is Some && box_at(m, src, scale, events, i) is Some && overlap(
                box_at(m, src, scale, events, i)->0,
                box_at(m, src, scale, events, j)->0,
            );
        let a = box_at(m, src, scale, events, i)->0;
        let b = box_at(m, src, scale, events, j)->0;
        let x = larger(a.0, b.0);
        let y = larger(a.1, b.1);
        assert(paints_point(m, src, scale, events[j], x, y));
        assert(paints_point(m, src, scale, events[i], x, y));
    }
    assert forall|j: int, x: int, y: int|
        0 <= j < i && events[j].window == events[i].window && #[trigger] paints_point(
            m,
            src,
            scale,
            events[j],
            x,
            y,
        ) && paints_point(m, src, scale, events[i], x, y) implies repaints(
        m,
        src,
        scale,
        events,
        i,
    ) by {
        assert(box_at(m, src, scale, events, i) is Some);
        assert(box_at(m, src, scale, events, j) is Some);
        assert(events[j].window == events[i].window);
    }
}

/// A picture is held for a millisecond for every 800 points that it paints, but no shorter
/// than 40 and no longer than 350 milliseconds; an event that paints nothing on a canvas is
/// not held.
pub proof fn a_hold_follows_the_painted_area(
    m: &Machine,
    dims: Option<(u32, u32)>,
    scale: (u32, u32),
    ev: PictureEvent,
)
    ensures
        hold_of(m, dims, scale, ev) is Some <==> !ev.erase && ev.number != 0 && dims is Some
            && float_x(m, dims, scale, ev) is None,
        hold_of(m, dims, scale, ev) matches Some(ms) ==> {
            let points = ((dims->0).0 * scale.0) * ((dims->0).1 * scale.1);
            &&& points < 40 * 800 ==> ms == 40
            &&& points >= 350 * 800 ==> ms == 350
            &&& 40 * 800 <= points < 350 * 800 ==> ms * 800 <= points < (ms + 1) * 800
        },
{
    if hold_of(m, dims, scale, ev) is Some {
        let d = dims->0;
        let points = (d.0 * scale.0) * (d.1 * scale.1);
        assert(points >= 0) by (nonlinear_arith)
            requires
                points == (d.0 * scale.0) * (d.1 * scale.1),
                d.0 >= 0,
                d.1 >= 0,
                scale.0 >= 0,
                scale.1 >= 0,
        ;
    }
}

/// The screen is held after a picture exactly where the next picture that can be watched
/// paints over covered ground.
pub proof fn a_frame_is_held_before_covered_ground(
    holds: Seq<Option<u64>>,
    covers: Seq<bool>,
    i: int,
)
    requires
        0 <= i < holds.len(),
    ensures
        pauses_after(holds, covers, i) <==> holds[i] is Some && exists|j: int|
            i < j < holds.len() && #[trigger] holds[j] is Some && covers[j] && (forall|k: int|
                i < k < j ==> (#[trigger] holds[k]) is None),
{
    lemma_next_held_is_next(holds, i + 1);
    let n = next_held(holds, i + 1);
    if pauses_after(holds, covers, i) {
        assert(holds[n] is Some);
    }
    if holds[i] is Some && exists|j: int|
        i < j < holds.len() && #[trigger] holds[j] is Some && covers[j] && (forall|k: int|
            i < k < j ==> (#[trigger] holds[k]) is None) {
        let j = choose|j: int|
            i < j < holds.len() && #[trigger] holds[j] is Some && covers[j] && (forall|k: int|
                i < k < j ==> (#[trigger] holds[k]) is None);
        assert(n == j) by {
            if n < j {
                assert(holds[n] is None);
            } else if j < n {
                assert(holds[j] is None);
            }
        }
    }
}

/// The next event that can be watched is the first.
proof fn lemma_next_held_is_next(holds: Seq<Option<u64>>, i: int)
    requires
        0 <= i <= holds.len(),
    ensures
        i <= next_held(holds, i) <= holds.len(),
        next_held(holds, i) < holds.len() ==> holds[next_held(holds, i)] is Some,
        forall|k: int| i <= k < next_held(holds, i) ==> (#[trigger] holds[k]) is None,
    decreases holds.len() - i,
{
    if i < holds.len() && holds[i] is None {
        lemma_next_held_is_next(holds, i + 1);
    }
}

/// A frame shows the canvases as the event before it left them, for as long as that event is
/// held; and a turn keeps the frames it has had.
pub proof fn a_frame_shows_what_was_drawn(
    l: LayersView,
    m: &Machine,
    src: Option<PictSource>,
    events: Seq<PictureEvent>,
    art: Seq<Option<(u32, u32, Grid)>>,
    fills: Seq<EraseFill>,
    holds: Seq<Option<u64>>,
    covers: Seq<bool>,
    n: nat,
)
    requires
        n > 0,
    ensures
        ({
            let was = after_events(l, m, src, events, art, fills, holds, covers, (n - 1) as nat);
            let is = after_events(l, m, src, events, art, fills, holds, covers, n);
            let held = pauses_after(holds, covers, n - 1) && was.frames.len() < 8;
            &&& held ==> is.frames.len() == was.frames.len() + 1 && is.frames.last().canvases
                == is.layers.canvases && Some(is.frames.last().hold_ms) == holds[n - 1]
                && is.frames.drop_last() == was.frames
            &&& !held ==> is.frames == was.frames
        }),
{
    let was = after_events(l, m, src, events, art, fills, holds, covers, (n - 1) as nat);
    let is = after_events(l, m, src, events, art, fills, holds, covers, n);
    if pauses_after(holds, covers, n - 1) && was.frames.len() < 8 {
        assert(is.frames.drop_last() =~= was.frames);
    }
}

/// The fills and the pictures of a turn are one timeline: once the first `n` pictures are
/// drawn, exactly those fills are painted that the game issued before the last of them.
pub proof fn fills_and_pictures_are_one_timeline(
    l: LayersView,
    m: &Machine,
    src: Option<PictSource>,
    events: Seq<PictureEvent>,
    art: Seq<Option<(u32, u32, Grid)>>,
    fills: Seq<EraseFill>,
    holds: Seq<Option<u64>>,
    covers: Seq<bool>,
    n: nat,
    k: int,
)
    requires
        n > 0,
        0 <= k < fills.len(),
        forall|i: int, j: int|
            0 <= i <= j < fills.len() ==> (#[trigger] fills[i]).pics_before <= (
            #[trigger] fills[j]).pics_before,
    ensures
        ({
            let done = after_events(l, m, src, events, art, fills, holds, covers, n).fills_done;
            &&& 0 <= done <= fills.len()
            &&& k < done <==> fills[k].pics_before < n
        }),
    decreases n,
{
    let d = after_events(l, m, src, events, art, fills, holds, covers, (n - 1) as nat);
    if n > 1 {
        fills_and_pictures_are_one_timeline(
            l,
            m,
            src,
            events,
            art,
            fills,
            holds,
            covers,
            (n - 1) as nat,
            k,
        );
        if d.fills_done > 0 {
            fills_and_pictures_are_one_timeline(
                l,
                m,
                src,
                events,
                art,
                fills,
                holds,
                covers,
                (n - 1) as nat,
                d.fills_done - 1,
            );
        }
    }
    lemma_fills_done(d.layers, m, fills, d.fills_done, n - 1);
    let done = after_fills(d.layers, m, fills, d.fills_done, n - 1).1;
    if k < done && k >= d.fills_done {
        assert(fills[k].pics_before <= n - 1);
    }
    if k >= done {
        assert(fills[done].pics_before <= fills[k].pics_before);
    }
}

/// How far the fills are painted before an event.
proof fn lemma_fills_done(l: LayersView, m: &Machine, fills: Seq<EraseFill>, k: int, i: int)
    requires
        0 <= k <= fills.len(),
    ensures
        k <= after_fills(l, m, fills, k, i).1 <= fills.len(),
        forall|j: int|
            k <= j < after_fills(l, m, fills, k, i).1 ==> (#[trigger] fills[j]).pics_before <= i,
        after_fills(l, m, fills, k, i).1 < fills.len() ==> fills[after_fills(
            l,
            m,
            fills,
            k,
            i,
        ).1].pics_before > i,
    decreases fills.len() - k,
{
    if k < fills.len() && fills[k].pics_before <= i {
        lemma_fills_done(l.painted(m, fills[k]), m, fills, k + 1, i);
    }
}

/// After a change of the palette every window shows what its display list draws under the new
/// one, in the order in which the windows lay; a window whose list does not tell how its
/// canvas came about keeps its pixels.
pub proof fn a_new_palette_recolours_the_screen(l: LayersView, art: Map<u16, Grid>, win: u8)
    requires
        full_canvases(l),
    ensures
        ({
            let a = l.redrawn_below(art, WINDOW_NUMBERS as nat);
            let tells = l.ops.dom().contains(win) && !l.unreplayable.contains(win);
            &&& a.canvases.dom() == l.canvases.dom()
            &&& l.canvases.dom().contains(win) && tells ==> a.canvases[win].grid == replayed(
                l.ops[win],
                art,
                l.canvases[win].w as nat,
                l.canvases[win].h as nat,
            ) && a.canvases[win].z_seq == l.canvases[win].z_seq
            &&& l.canvases.dom().contains(win) && !tells ==> a.canvases[win] == l.canvases[win]
        }),
{
    lemma_redrawn(l, art, WINDOW_NUMBERS as nat, win);
}

/// Drawing the canvases of the first `n` windows again.
proof fn lemma_redrawn(l: LayersView, art: Map<u16, Grid>, n: nat, win: u8)
    requires
        full_canvases(l),
        n <= 256,
    ensures
        ({
            let a = l.redrawn_below(art, n);
            let tells = l.ops.dom().contains(win) && !l.unreplayable.contains(win);
            &&& a.canvases.dom() == l.canvases.dom()
            &&& a.ops == l.ops
            &&& a.unreplayable == l.unreplayable
            &&& l.canvases.dom().contains(win) && tells && win < n ==> a.canvases[win].grid
                == replayed(
                l.ops[win],
                art,
                l.canvases[win].w as nat,
                l.canvases[win].h as nat,
            ) && a.canvases[win].z_seq == l.canvases[win].z_seq
            &&& l.canvases.dom().contains(win) && (!tells || win >= n) ==> a.canvases[win]
                == l.canvases[win]
        }),
    decreases n,
{
    if n > 0 {
        lemma_redrawn(l, art, (n - 1) as nat, win);
        let b = l.redrawn_below(art, (n - 1) as nat);
        let a = b.redrawn_in(art, (n - 1) as u8);
        assert(a.canvases.dom() =~= l.canvases.dom());
        if win == (n - 1) as u8 && l.canvases.dom().contains(win) {
            assert(has_extent(
                l.canvases[win].grid,
                l.canvases[win].w as int,
                l.canvases[win].h as int,
            ));
            assert(b.canvases[win] == l.canvases[win]);
            redrawing_shows_the_display_list(l.canvases[win], art, l.ops[win]);
        }
    }
}

} // verus!
