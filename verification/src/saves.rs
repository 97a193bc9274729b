//! The screen in a save: display lists, pictures, the ground, fills and anchors.

use crate::art::{bytes_view, decode_image, encode_png, image_in, png_of, png_sized, read_back};
use crate::canvas::{count_on, next, Canvas, CanvasView};
use crate::layers::{anchor_ok, CanvasAnchor, GroundView, Layers, LayersView, WindowFill};
use crate::oplist::{replayed, V6Op, V6_OPS_CAP};
use crate::order::{order_windows, stamp_order, the_order_follows_the_stamps};
use crate::raster::Grid;
use crate::text::dec;
use crate::windows::{WindowMap, WINDOW_NUMBERS};
use vstd::prelude::*;

verus! {

// ── What a save holds ─────────────────────────────────────────────────────────
/// The display list of a window, and the extent of the canvas that it draws.
#[derive(Debug)]
pub struct V6WindowOpsDto {
    pub win: u8,
    pub w: u32,
    pub h: u32,
    pub ops: Vec<V6Op>,
}

/// A fill that still covers its window.
#[derive(Clone, Copy, Debug, PartialEq, Eq, Structural)]
pub struct V6FillDto {
    pub win: u8,
    pub x: u32,
    pub y: u32,
    pub w: u32,
    pub h: u32,
    pub bg: u32,
}

/// Where a window's canvas was painted.
#[derive(Clone, Copy, Debug, PartialEq, Eq, Structural)]
pub struct V6AnchorDto {
    pub win: u8,
    pub origin_x: u16,
    pub origin_y: u16,
    pub x: u32,
    pub y: u32,
    pub w: u32,
    pub h: u32,
}

/// The layers beside the canvases: the fills from the oldest to the newest, and the anchors
/// in the order of their windows.
#[derive(Debug)]
pub struct V6LayersDto {
    pub fills: Vec<V6FillDto>,
    pub anchors: Vec<V6AnchorDto>,
}

/// A screen as its display lists tell it.
#[derive(Debug)]
pub struct DisplayListDto {
    /// The palette that is current.
    pub palette: Option<Vec<u8>>,
    /// The windows that can be drawn again, from the back to the front.
    pub windows: Vec<V6WindowOpsDto>,
    pub layers: V6LayersDto,
}

/// The model of a [`V6WindowOpsDto`].
#[verifier::ext_equal]
pub struct OpsView {
    pub win: u8,
    pub w: u32,
    pub h: u32,
    pub ops: Seq<V6Op>,
}

/// The models of a list of display lists.
pub open spec fn ops_views(v: Seq<V6WindowOpsDto>) -> Seq<OpsView> {
    v.map_values(|d: V6WindowOpsDto| OpsView { win: d.win, w: d.w, h: d.h, ops: d.ops@ })
}

/// The models of a list of encoded pictures.
pub open spec fn png_views(v: Seq<(u8, Vec<u8>)>) -> Seq<(u8, Seq<u8>)> {
    v.map_values(|p: (u8, Vec<u8>)| (p.0, p.1@))
}

// ── Pictures ──────────────────────────────────────────────────────────────────
/// When each canvas was last drawn on.
pub open spec fn draw_stamps(canvases: Map<u8, CanvasView>) -> Map<u8, u64> {
    Map::new(|k: u8| canvases.dom().contains(k), |k: u8| canvases[k].z_seq)
}

/// The windows with a canvas, from the back to the front.
pub open spec fn paint_order(canvases: Map<u8, CanvasView>) -> Seq<u8> {
    stamp_order(draw_stamps(canvases))
}

/// The encoded pictures of windows, of those that can be encoded.
pub open spec fn encoded(canvases: Map<u8, CanvasView>, wins: Seq<u8>) -> Seq<(u8, Seq<u8>)>
    decreases wins.len(),
{
    if wins.len() == 0 {
        seq![]
    } else {
        let before = encoded(canvases, wins.drop_last());
        let c = canvases[wins.last()];
        match png_of(c.w, c.h, c.grid) {
            Some(b) => before.push((wins.last(), b)),
            None => before,
        }
    }
}

/// Whether every canvas is small enough to be laid out in memory.
pub open spec fn all_fit(canvases: Map<u8, CanvasView>) -> bool {
    forall|k: u8|
        #![trigger canvases[k]]
        canvases.dom().contains(k) ==> canvases[k].w * canvases[k].h * 4 <= isize::MAX
}

/// Whether encoded pictures read back as the canvases they were made from, as far as those
/// are neither empty nor over-large.
pub open spec fn faithful(canvases: Map<u8, CanvasView>, blobs: Seq<(u8, Seq<u8>)>) -> bool {
    forall|i: int|
        0 <= i < blobs.len() ==> ({
            let c = canvases[(#[trigger] blobs[i]).0];
            png_sized(c.w, c.h) ==> image_in(blobs[i].1) == Some((c.w, c.h, c.grid))
        })
}

/// Whether every canvas of some windows that is neither empty nor over-large can be encoded.
pub open spec fn encodable(canvases: Map<u8, CanvasView>, wins: Seq<u8>) -> bool {
    forall|i: int|
        0 <= i < wins.len() ==> ({
            let c = canvases[#[trigger] wins[i]];
            png_sized(c.w, c.h) ==> png_of(c.w, c.h, c.grid) is Some
        })
}

/// The canvases that encoded pictures give, and the next place in the order of drawings.
/// Each is the front-most so far; one that cannot be read is left out.
pub open spec fn canvases_from(blobs: Seq<(u8, Seq<u8>)>, seq0: u64) -> (Map<u8, CanvasView>, u64)
    decreases blobs.len(),
{
    if blobs.len() == 0 {
        (Map::empty(), seq0)
    } else {
        let before = canvases_from(blobs.drop_last(), seq0);
        let b = blobs.last();
        match image_in(b.1) {
            Some(p) => (
                before.0.insert(
                    b.0,
                    CanvasView { w: p.0, h: p.1, grid: p.2, version: 1, z_seq: before.1 },
                ),
                next(before.1),
            ),
            None => before,
        }
    }
}

/// Whether a window is among those of a list of encoded pictures.
pub open spec fn names(blobs: Seq<(u8, Seq<u8>)>, win: u8) -> bool {
    exists|i: int| 0 <= i < blobs.len() && (#[trigger] blobs[i]).0 == win
}

impl LayersView {
    /// The layers with canvases from encoded pictures in place of all others. What came as
    /// pixels has no history: none of the windows can be drawn again.
    pub open spec fn from_pngs(self, blobs: Seq<(u8, Seq<u8>)>) -> LayersView {
        let loaded = canvases_from(blobs, self.next_seq);
        LayersView {
            canvases: loaded.0,
            next_seq: loaded.1,
            ops: Map::empty(),
            unreplayable: Set::new(|w: u8| names(blobs, w)),
            ..self
        }
    }

    /// The layers with a window drawn from its display list.
    pub open spec fn with_window(self, art: Map<u16, Grid>, d: OpsView) -> LayersView {
        let c = CanvasView::blank(d.w, d.h).redrawn(art, d.ops);
        LayersView {
            canvases: self.canvases.insert(
                d.win,
                CanvasView { version: next(c.version), z_seq: self.next_seq, ..c },
            ),
            ops: self.ops.insert(d.win, d.ops),
            unreplayable: self.unreplayable.remove(d.win),
            next_seq: next(self.next_seq),
            ..self
        }
    }

    /// The layers with windows drawn from their display lists, in order.
    pub open spec fn with_windows(self, art: Map<u16, Grid>, ds: Seq<OpsView>) -> LayersView
        decreases ds.len(),
    {
        if ds.len() == 0 {
            self
        } else {
            self.with_windows(art, ds.drop_last()).with_window(art, ds.last())
        }
    }

    /// Whether a window's display list draws what is on its canvas.
    pub open spec fn replays(self, art: Map<u16, Grid>, win: u8) -> bool {
        let c = self.canvases[win];
        !self.unreplayable.contains(win) && replayed(
            self.ops_of(win),
            art,
            c.w as nat,
            c.h as nat,
        ) == c.grid
    }

    /// The display lists of those windows that their lists draw.
    pub open spec fn kept_lists(self, art: Map<u16, Grid>, wins: Seq<u8>) -> Seq<OpsView>
        decreases wins.len(),
    {
        if wins.len() == 0 {
            seq![]
        } else {
            let before = self.kept_lists(art, wins.drop_last());
            let win = wins.last();
            if self.replays(art, win) {
                before.push(
                    OpsView {
                        win,
                        w: self.canvases[win].w,
                        h: self.canvases[win].h,
                        ops: self.ops_of(win),
                    },
                )
            } else {
                before
            }
        }
    }

    /// The windows that have to be kept as pictures.
    pub open spec fn kept_pictures(self, art: Map<u16, Grid>, wins: Seq<u8>) -> Seq<u8> {
        wins.filter(|w: u8| !self.replays(art, w))
    }

    /// What is said of a window that has to be kept as a picture.
    pub open spec fn why_picture(self, win: u8) -> Seq<char> {
        let n = self.ops_of(win).len();
        if self.unreplayable.contains(win) && n >= V6_OPS_CAP {
            "v6 window "@ + dec(win as nat) + ": display list hit the "@ + dec(V6_OPS_CAP as nat)
                + "-op cap, so it cannot be replayed — storing its canvas as a PNG. Its colours will not follow a later palette change. If a real game reaches this, the cap is too low."@
        } else if self.unreplayable.contains(win) {
            "v6 window "@ + dec(win as nat)
                + ": restored from pixels, so it has no draw history to replay ("@ + dec(n)
                + " op(s) recorded) — storing its canvas as a PNG. Expected for a save made before the display list was persisted."@
        } else {
            "v6 window "@ + dec(win as nat) + ": replaying its "@ + dec(n)
                + " recorded op(s) does not reproduce the live canvas — storing a PNG for it, and its colours will not follow a later palette change. A draw path that is not being recorded."@
        }
    }

    /// What is said of the windows that have to be kept as pictures.
    pub open spec fn why_pictures(self, art: Map<u16, Grid>, wins: Seq<u8>) -> Seq<Seq<char>> {
        self.kept_pictures(art, wins).map_values(|w: u8| self.why_picture(w))
    }
}

// ── Fills and anchors ─────────────────────────────────────────────────────────
/// When each fill that still covers its window was painted.
pub open spec fn live_stamps(fills: Map<u8, WindowFill>, now: u64) -> Map<u8, u64> {
    Map::new(
        |k: u8| fills.dom().contains(k) && fills[k].out_chars == now,
        |k: u8| fills[k].seq,
    )
}

/// A fill, as it is saved.
pub open spec fn saved_fill(win: u8, f: WindowFill) -> V6FillDto {
    V6FillDto { win, x: f.x, y: f.y, w: f.w, h: f.h, bg: f.bg }
}

/// The fills that are saved: those that still cover, from the oldest to the newest.
pub open spec fn saved_fills(fills: Map<u8, WindowFill>, now: u64) -> Seq<V6FillDto> {
    stamp_order(live_stamps(fills, now)).map_values(|k: u8| saved_fill(k, fills[k]))
}

/// An anchor, as it is saved.
pub open spec fn saved_anchor(win: u8, a: CanvasAnchor) -> V6AnchorDto {
    V6AnchorDto {
        win,
        origin_x: a.origin_x,
        origin_y: a.origin_y,
        x: a.x,
        y: a.y,
        w: a.w,
        h: a.h,
    }
}

/// The anchors of the windows below `n`, in the order of the windows.
pub open spec fn saved_anchors(anchors: Map<u8, CanvasAnchor>, n: nat) -> Seq<V6AnchorDto>
    decreases n,
{
    if n == 0 {
        seq![]
    } else {
        let k = (n - 1) as u8;
        let before = saved_anchors(anchors, (n - 1) as nat);
        if anchors.dom().contains(k) {
            before.push(saved_anchor(k, anchors[k]))
        } else {
            before
        }
    }
}

/// The fills that are read back, and the next place in the order of drawings. Each gets a
/// place of its own, in their order, and covers its window.
pub open spec fn loaded_fills(fills: Seq<V6FillDto>, now: u64, seq0: u64) -> (
    Map<u8, WindowFill>,
    u64,
)
    decreases fills.len(),
{
    if fills.len() == 0 {
        (Map::empty(), seq0)
    } else {
        let before = loaded_fills(fills.drop_last(), now, seq0);
        let f = fills.last();
        (
            before.0.insert(
                f.win,
                WindowFill {
                    x: f.x,
                    y: f.y,
                    w: f.w,
                    h: f.h,
                    bg: f.bg,
                    seq: before.1,
                    out_chars: now,
                },
            ),
            next(before.1),
        )
    }
}

/// An anchor that is read back.
pub open spec fn loaded_anchor(a: V6AnchorDto) -> CanvasAnchor {
    CanvasAnchor {
        origin_x: a.origin_x,
        origin_y: a.origin_y,
        x: a.x,
        y: a.y,
        w: a.w,
        h: a.h,
    }
}

/// The anchors that are read back.
pub open spec fn loaded_anchors(anchors: Seq<V6AnchorDto>) -> Map<u8, CanvasAnchor>
    decreases anchors.len(),
{
    if anchors.len() == 0 {
        Map::empty()
    } else {
        loaded_anchors(anchors.drop_last()).insert(
            anchors.last().win,
            loaded_anchor(anchors.last()),
        )
    }
}

impl LayersView {
    /// What a save keeps of the fills, from the back to the front, and of the anchors.
    pub open spec fn saved_layers(self, now: u64) -> (Seq<V6FillDto>, Seq<V6AnchorDto>) {
        (saved_fills(self.fills, now), saved_anchors(self.anchors, WINDOW_NUMBERS as nat))
    }

    /// The layers with saved fills and anchors in place of their own.
    pub open spec fn with_saved(
        self,
        s: (Seq<V6FillDto>, Seq<V6AnchorDto>),
        now: u64,
    ) -> LayersView {
        LayersView {
            fills: loaded_fills(s.0, now, self.next_seq).0,
            next_seq: loaded_fills(s.0, now, self.next_seq).1,
            anchors: loaded_anchors(s.1),
            ..self
        }
    }

    /// The layers without fills and anchors.
    pub open spec fn without_saved(self) -> LayersView {
        LayersView { fills: Map::empty(), anchors: Map::empty(), ..self }
    }
}

/// Whether the boxes of the anchors in a save have an end.
pub open spec fn anchors_end(anchors: Seq<V6AnchorDto>) -> bool {
    forall|i: int|
        0 <= i < anchors.len() ==> anchor_ok(loaded_anchor(#[trigger] anchors[i]))
}

impl Layers {
    /// The windows with a canvas, from the back to the front.
    pub(crate) fn windows_in_paint_order(&self) -> (r: Vec<u8>)
        requires
            self.wf(),
        ensures
            r@ == paint_order(self@.canvases),
    {
        let mut stamps: WindowMap<u64> = WindowMap::new();
        let ghost goal = draw_stamps(self@.canvases);
        let mut n: usize = 0;
        while n < WINDOW_NUMBERS
            invariant
                n <= WINDOW_NUMBERS,
                self.wf(),
                stamps.wf(),
                goal == draw_stamps(self@.canvases),
                forall|k: u8| #[trigger]
                    stamps@.dom().contains(k) <==> k < n && goal.dom().contains(k),
                forall|k: u8| #[trigger] stamps@.dom().contains(k) ==> stamps@[k] == goal[k],
            decreases WINDOW_NUMBERS - n,
        {
            let k: u8 = n as u8;
            if let Some(c) = self.pictures_canvas.get(k) {
                stamps.insert(k, c.z_seq);
            }
            n = n + 1;
        }
        assert(stamps@ =~= goal);
        order_windows(&stamps)
    }

    /// Encodes the canvas of every window, from the back to the front, so that the order of
    /// the pictures tells what covers what. A canvas that cannot be encoded is left out.
    pub fn pictures_png(&self) -> (r: Vec<(u8, Vec<u8>)>)
        requires
            self.wf(),
            all_fit(self@.canvases),
        ensures
            png_views(r@) == encoded(self@.canvases, paint_order(self@.canvases)),
            faithful(self@.canvases, png_views(r@)),
            encodable(self@.canvases, paint_order(self@.canvases)),
    {
        let wins: Vec<u8> = self.windows_in_paint_order();
        let ghost canvases = self@.canvases;
        proof {
            the_order_follows_the_stamps(draw_stamps(canvases));
        }
        let mut out: Vec<(u8, Vec<u8>)> = Vec::new();
        let mut i: usize = 0;
        assert(png_views(out@) =~= encoded(canvases, wins@.take(0)));
        while i < wins.len()
            invariant
                i <= wins@.len(),
                self.wf(),
                canvases == self@.canvases,
                all_fit(canvases),
                wins@ == stamp_order(draw_stamps(canvases)),
                forall|k: u8| #[trigger]
                    stamp_order(draw_stamps(canvases)).contains(k) <==> draw_stamps(
                        canvases,
                    ).dom().contains(k),
                png_views(out@) == encoded(canvases, wins@.take(i as int)),
                faithful(canvases, png_views(out@)),
                encodable(canvases, wins@.take(i as int)),
            decreases wins.len() - i,
        {
            let k: u8 = wins[i];
            let ghost out0 = out@;
            assert(wins@.take(i + 1).drop_last() =~= wins@.take(i as int));
            assert(stamp_order(draw_stamps(canvases)).contains(k));
            assert(draw_stamps(canvases).dom().contains(k));
            if let Some(c) = self.pictures_canvas.get(k) {
                assert(self.pictures_canvas@[k].wf());
                assert(canvases[k] == c@);
                if let Some(bytes) = encode_png(&c.img) {
                    out.push((k, bytes));
                    assert(png_views(out@) =~= png_views(out0).push((k, bytes@)));
                }
            }
            assert forall|j: int| 0 <= j < wins@.take(i + 1).len() implies ({
                let c = canvases[#[trigger] wins@.take(i + 1)[j]];
                png_sized(c.w, c.h) ==> png_of(c.w, c.h, c.grid) is Some
            }) by {
                if j < i {
                    assert(wins@.take(i + 1)[j] == wins@.take(i as int)[j]);
                }
            }
            i = i + 1;
        }
        assert(wins@.take(i as int) =~= wins@);
        out
    }

    /// Encodes the ground, where there is one.
    pub fn paint_ground_png(&self) -> (r: Option<Vec<u8>>)
        requires
            self.wf(),
            self@.paint matches Some(g) ==> g.w * g.h * 4 <= isize::MAX,
        ensures
            bytes_view(r) == match self@.paint {
                Some(g) => png_of(g.w, g.h, g.grid),
                None => None,
            },
            self@.paint matches Some(g) ==> (png_sized(g.w, g.h) ==> read_back(r) == Some(
                (g.w, g.h, g.grid),
            )),
    {
        match &self.paint {
            Some(p) => encode_png(p),
            None => None,
        }
    }

    /// Puts an encoded ground in place of the one on the screen; without one, or with one
    /// that cannot be read, there is none.
    pub fn load_paint_ground(&mut self, png: Option<&[u8]>)
        requires
            old(self).wf(),
        ensures
            final(self).wf(),
            final(self)@ == (LayersView {
                paint: match png {
                    Some(b) => match image_in(b@) {
                        Some(p) => Some(GroundView { w: p.0, h: p.1, grid: p.2 }),
                        None => None,
                    },
                    None => None,
                },
                ..old(self)@
            }),
            final(self).art_scale == old(self).art_scale,
    {
        let ghost l0 = self@;
        self.paint = match png {
            Some(b) => decode_image(b),
            None => None,
        };
        assert(self@.canvases =~= l0.canvases);
        assert(self@.ops =~= l0.ops);
    }

    /// Puts canvases from encoded pictures in place of all that are on the screen. They come
    /// from the back to the front, and are stacked in that order.
    pub fn load_pictures_png(&mut self, blobs: &Vec<(u8, Vec<u8>)>)
        requires
            old(self).wf(),
        ensures
            final(self).wf(),
            final(self)@ == old(self)@.from_pngs(png_views(blobs@)),
            final(self).art_scale == old(self).art_scale,
    {
        let ghost l0 = self@;
        let ghost views = png_views(blobs@);
        self.pictures_canvas.clear();
        self.display_ops.clear();
        self.unreplayable.clear();
        let mut i: usize = 0;
        assert(views.take(0) =~= seq![]);
        assert(self@.canvases =~= Map::empty());
        assert(self@.ops =~= Map::empty());
        assert(self@.unreplayable =~= Set::new(|w: u8| names(views.take(0), w)));
        while i < blobs.len()
            invariant
                i <= blobs@.len(),
                views == png_views(blobs@),
                self.wf(),
                self.art_scale == old(self).art_scale,
                self@ == l0.from_pngs(views.take(i as int)),
            decreases blobs.len() - i,
        {
            let (win, png) = (&blobs[i].0, &blobs[i].1);
            let ghost before = self@;
            assert(views[i as int] == (*win, png@));
            assert(views.take(i + 1).drop_last() =~= views.take(i as int));
            if let Some(img) = decode_image(png.as_slice()) {
                let mut c: Canvas = Canvas::of(img);
                c.version = count_on(c.version);
                c.z_seq = self.next_seq;
                self.next_seq = count_on(self.next_seq);
                self.pictures_canvas.insert(*win, c);
            }
            self.unreplayable.insert(*win, ());
            proof {
                let now = views.take(i + 1);
                assert(self@.canvases =~= canvases_from(now, l0.next_seq).0);
                assert(self@.ops =~= Map::empty());
                assert forall|w: u8| #[trigger] self@.unreplayable.contains(w) <==> names(now, w) by {
                    assert(before.unreplayable.contains(w) <==> names(views.take(i as int), w));
                    if names(views.take(i as int), w) {
                        let j = choose|j: int|
                            0 <= j < i && (#[trigger] views.take(i as int)[j]).0 == w;
                        assert(now[j].0 == w);
                    }
                    if w == *win {
                        assert(now[i as int].0 == w);
                    }
                    if names(now, w) {
                        let j = choose|j: int| 0 <= j < now.len() && (#[trigger] now[j]).0 == w;
                        if j < i {
                            assert(views.take(i as int)[j].0 == w);
                        }
                    }
                }
                assert(self@.unreplayable =~= Set::new(|w: u8| names(now, w)));
                assert(self@ =~= l0.from_pngs(now));
            }
            i = i + 1;
        }
        assert(views.take(i as int) =~= views);
    }

    /// Lists the fills that still cover their windows and the anchors of the canvases. Of a
    /// fill's stamps only what they decide is kept: the order, and that it covers.
    pub fn v6_screen_layers(&self, now: u64) -> (r: V6LayersDto)
        requires
            self.wf(),
        ensures
            (r.fills@, r.anchors@) == self@.saved_layers(now),
            anchors_end(r.anchors@),
    {
        let mut stamps: WindowMap<u64> = WindowMap::new();
        let mut anchors: Vec<V6AnchorDto> = Vec::new();
        let ghost goal = live_stamps(self@.fills, now);
        let mut n: usize = 0;
        while n < WINDOW_NUMBERS
            invariant
                n <= WINDOW_NUMBERS,
                self.wf(),
                stamps.wf(),
                goal == live_stamps(self@.fills, now),
                forall|k: u8| #[trigger]
                    stamps@.dom().contains(k) <==> k < n && goal.dom().contains(k),
                forall|k: u8| #[trigger] stamps@.dom().contains(k) ==> stamps@[k] == goal[k],
                anchors@ == saved_anchors(self@.anchors, n as nat),
                anchors_end(anchors@),
            decreases WINDOW_NUMBERS - n,
        {
            let k: u8 = n as u8;
            if let Some(f) = self.window_fills.get(k) {
                if f.out_chars == now {
                    stamps.insert(k, f.seq);
                }
            }
            if let Some(a) = self.canvas_anchor.get(k) {
                assert(anchor_ok(self.canvas_anchor@[k]));
                let ghost before = anchors@;
                anchors.push(
                    V6AnchorDto {
                        win: k,
                        origin_x: a.origin_x,
                        origin_y: a.origin_y,
                        x: a.x,
                        y: a.y,
                        w: a.w,
                        h: a.h,
                    },
                );
                assert forall|i: int| 0 <= i < anchors@.len() implies anchor_ok(
                    loaded_anchor(#[trigger] anchors@[i]),
                ) by {
                    if i < before.len() {
                        assert(anchors@[i] == before[i]);
                    }
                }
            }
            n = n + 1;
        }
        assert(stamps@ =~= goal);
        let order: Vec<u8> = order_windows(&stamps);
        proof {
            the_order_follows_the_stamps(goal);
        }
        let mut fills: Vec<V6FillDto> = Vec::new();
        let mut i: usize = 0;
        while i < order.len()
            invariant
                i <= order@.len(),
                self.wf(),
                goal == live_stamps(self@.fills, now),
                order@ == stamp_order(goal),
                forall|k: u8| #[trigger]
                    stamp_order(goal).contains(k) <==> goal.dom().contains(k),
                fills@.len() == i,
                forall|j: int|
                    0 <= j < i ==> #[trigger] fills@[j] == saved_fill(
                        order@[j],
                        self@.fills[order@[j]],
                    ),
            decreases order.len() - i,
        {
            let k: u8 = order[i];
            assert(stamp_order(goal).contains(k));
            assert(goal.dom().contains(k));
            if let Some(f) = self.window_fills.get(k) {
                fills.push(V6FillDto { win: k, x: f.x, y: f.y, w: f.w, h: f.h, bg: f.bg });
            }
            i = i + 1;
        }
        assert(fills@ =~= saved_fills(self@.fills, now));
        V6LayersDto { fills, anchors }
    }

    /// Puts saved fills and anchors in place of those on the screen; without any, there are
    /// none. What the earlier screen left behind goes in either case.
    pub fn load_v6_screen_layers(&mut self, dto: Option<&V6LayersDto>, now: u64)
        requires
            old(self).wf(),
            dto matches Some(d) ==> anchors_end(d.anchors@),
        ensures
            final(self).wf(),
            final(self)@ == (match dto {
                Some(d) => old(self)@.with_saved((d.fills@, d.anchors@), now),
                None => old(self)@.without_saved(),
            }),
            final(self).art_scale == old(self).art_scale,
    {
        let ghost l0 = self@;
        self.window_fills.clear();
        self.canvas_anchor.clear();
        assert(self@ =~= (LayersView { fills: Map::empty(), anchors: Map::empty(), ..l0 }));
        if let Some(d) = dto {
            let mut i: usize = 0;
            assert(d.fills@.take(0) =~= seq![]);
            while i < d.fills.len()
                invariant
                    i <= d.fills@.len(),
                    self.wf(),
                    self.art_scale == old(self).art_scale,
                    self@ == (LayersView {
                        fills: loaded_fills(d.fills@.take(i as int), now, l0.next_seq).0,
                        next_seq: loaded_fills(d.fills@.take(i as int), now, l0.next_seq).1,
                        anchors: Map::empty(),
                        ..l0
                    }),
                decreases d.fills.len() - i,
            {
                let f: V6FillDto = d.fills[i];
                assert(d.fills@.take(i + 1).drop_last() =~= d.fills@.take(i as int));
                let ghost before = self@;
                self.window_fills.insert(
                    f.win,
                    WindowFill {
                        x: f.x,
                        y: f.y,
                        w: f.w,
                        h: f.h,
                        bg: f.bg,
                        seq: self.next_seq,
                        out_chars: now,
                    },
                );
                self.next_seq = count_on(self.next_seq);
                assert(self@.canvases =~= before.canvases);
                assert(self@.ops =~= before.ops);
                i = i + 1;
            }
            assert(d.fills@.take(i as int) =~= d.fills@);
            let ghost filled = self@;
            let mut k: usize = 0;
            assert(d.anchors@.take(0) =~= seq![]);
            while k < d.anchors.len()
                invariant
                    k <= d.anchors@.len(),
                    anchors_end(d.anchors@),
                    self.wf(),
                    self.art_scale == old(self).art_scale,
                    self@ == (LayersView {
                        anchors: loaded_anchors(d.anchors@.take(k as int)),
                        ..filled
                    }),
                decreases d.anchors.len() - k,
            {
                let a: V6AnchorDto = d.anchors[k];
                assert(d.anchors@.take(k + 1).drop_last() =~= d.anchors@.take(k as int));
                let ghost before = self@;
                assert(anchor_ok(loaded_anchor(d.anchors@[k as int])));
                self.canvas_anchor.insert(
                    a.win,
                    CanvasAnchor {
                        origin_x: a.origin_x,
                        origin_y: a.origin_y,
                        x: a.x,
                        y: a.y,
                        w: a.w,
                        h: a.h,
                    },
                );
                assert(self@.canvases =~= before.canvases);
                assert(self@.ops =~= before.ops);
                k = k + 1;
            }
            assert(d.anchors@.take(k as int) =~= d.anchors@);
        }
    }

    /// The length of the longest display list, and how many of them are full.
    pub fn display_ops_extent(&self) -> (r: (usize, usize))
        requires
            self.wf(),
        ensures
            r.0 == longest_below(self@, WINDOW_NUMBERS as nat),
            r.1 == full_below(self@, WINDOW_NUMBERS as nat),
    {
        let mut longest: usize = 0;
        let mut at_cap: usize = 0;
        let mut n: usize = 0;
        while n < WINDOW_NUMBERS
            invariant
                n <= WINDOW_NUMBERS,
                self.wf(),
                longest == longest_below(self@, n as nat),
                at_cap == full_below(self@, n as nat),
                at_cap <= n,
            decreases WINDOW_NUMBERS - n,
        {
            if let Some(ops) = self.display_ops.get(n as u8) {
                assert(self@.ops_of(n as u8) == ops@);
                if ops.len() > longest {
                    longest = ops.len();
                }
                if ops.len() >= V6_OPS_CAP {
                    at_cap = at_cap + 1;
                }
            }
            n = n + 1;
        }
        (longest, at_cap)
    }
}

/// The length of the longest display list of the windows below `n`.
pub open spec fn longest_below(l: LayersView, n: nat) -> nat
    decreases n,
{
    if n == 0 {
        0
    } else {
        let before = longest_below(l, (n - 1) as nat);
        let len = l.ops_of((n - 1) as u8).len();
        if len > before {
            len
        } else {
            before
        }
    }
}

/// How many of the windows below `n` have a full display list.
pub open spec fn full_below(l: LayersView, n: nat) -> nat
    decreases n,
{
    if n == 0 {
        0
    } else if l.ops_of((n - 1) as u8).len() >= V6_OPS_CAP {
        full_below(l, (n - 1) as nat) + 1
    } else {
        full_below(l, (n - 1) as nat)
    }
}

// ── Laws ──────────────────────────────────────────────────────────────────────
/// A saved fill is the window's own: its number, its box and its page colour, each under its
/// own name; and it was still the newest paint when it was saved.
pub proof fn a_saved_fill_is_the_windows_own(fills: Map<u8, WindowFill>, now: u64, i: int)
    requires
        0 <= i < saved_fills(fills, now).len(),
    ensures
        ({
            let d = saved_fills(fills, now)[i];
            let f = fills[d.win];
            &&& fills.dom().contains(d.win)
            &&& f.out_chars == now
            &&& d.x == f.x
            &&& d.y == f.y
            &&& d.w == f.w
            &&& d.h == f.h
            &&& d.bg == f.bg
        }),
{
    let stamps = live_stamps(fills, now);
    the_order_follows_the_stamps(stamps);
    let k = stamp_order(stamps)[i];
    assert(stamp_order(stamps).contains(k));
    assert(stamps.dom().contains(k));
}

/// A fill that is read back is the saved one, as the newest paint of its window.
pub proof fn a_loaded_fill_is_the_saved_one(
    fills: Seq<V6FillDto>,
    now: u64,
    seq0: u64,
    i: int,
)
    requires
        0 <= i < fills.len(),
        forall|j: int| i < j < fills.len() ==> (#[trigger] fills[j]).win != fills[i].win,
    ensures
        ({
            let back = loaded_fills(fills, now, seq0).0;
            let f = back[fills[i].win];
            &&& back.dom().contains(fills[i].win)
            &&& f.x == fills[i].x
            &&& f.y == fills[i].y
            &&& f.w == fills[i].w
            &&& f.h == fills[i].h
            &&& f.bg == fills[i].bg
            &&& f.out_chars == now
        }),
    decreases fills.len(),
{
    let front = fills.drop_last();
    if i < front.len() {
        assert forall|j: int| i < j < front.len() implies (#[trigger] front[j]).win
            != front[i].win by {
            assert(front[j] == fills[j]);
        }
        a_loaded_fill_is_the_saved_one(front, now, seq0, i);
        assert(fills[fills.len() - 1].win != fills[i].win);
    }
}

/// A saved anchor is the window's own: where the window stood, and the box that was drawn on,
/// each under its own name; and it reads back as what it is.
pub proof fn a_saved_anchor_is_the_windows_own(win: u8, a: CanvasAnchor, d: V6AnchorDto)
    ensures
        saved_anchor(win, a).win == win,
        saved_anchor(win, a).origin_x == a.origin_x,
        saved_anchor(win, a).origin_y == a.origin_y,
        saved_anchor(win, a).x == a.x,
        saved_anchor(win, a).y == a.y,
        saved_anchor(win, a).w == a.w,
        saved_anchor(win, a).h == a.h,
        loaded_anchor(d).origin_x == d.origin_x,
        loaded_anchor(d).origin_y == d.origin_y,
        loaded_anchor(d).x == d.x,
        loaded_anchor(d).y == d.y,
        loaded_anchor(d).w == d.w,
        loaded_anchor(d).h == d.h,
{
}

/// Every anchor is saved, in the order of the windows, and nothing else is.
pub proof fn every_anchor_is_saved(anchors: Map<u8, CanvasAnchor>, n: nat, k: u8)
    requires
        k < n <= 256,
    ensures
        anchors.dom().contains(k) <==> exists|i: int|
            0 <= i < saved_anchors(anchors, n).len() && (#[trigger] saved_anchors(anchors, n)[i]).win
                == k && saved_anchors(anchors, n)[i] == saved_anchor(k, anchors[k]),
    decreases n,
{
    lemma_anchor_windows(anchors, n);
    lemma_anchor_windows(anchors, (n - 1) as nat);
    let before = saved_anchors(anchors, (n - 1) as nat);
    let now = saved_anchors(anchors, n);
    if k == n - 1 {
        if anchors.dom().contains(k) {
            assert(now[now.len() - 1] == saved_anchor(k, anchors[k]));
        } else {
            assert forall|i: int| 0 <= i < now.len() implies (#[trigger] now[i]).win != k by {
                assert(before[i].win < n - 1);
            }
        }
    } else {
        every_anchor_is_saved(anchors, (n - 1) as nat, k);
        if anchors.dom().contains(k) {
            let i = choose|i: int|
                0 <= i < before.len() && (#[trigger] before[i]).win == k && before[i]
                    == saved_anchor(k, anchors[k]);
            assert(now[i] == before[i]);
        } else {
            assert forall|i: int| 0 <= i < now.len() implies !((#[trigger] now[i]).win == k
                && now[i] == saved_anchor(k, anchors[k])) by {
                if i < before.len() {
                    assert(now[i] == before[i]);
                }
            }
        }
    }
}

/// Saved anchors are of the windows below.
proof fn lemma_anchor_windows(anchors: Map<u8, CanvasAnchor>, n: nat)
    requires
        n <= 256,
    ensures
        forall|i: int|
            0 <= i < saved_anchors(anchors, n).len() ==> (#[trigger] saved_anchors(
                anchors,
                n,
            )[i]).win < n,
    decreases n,
{
    if n > 0 {
        lemma_anchor_windows(anchors, (n - 1) as nat);
        let before = saved_anchors(anchors, (n - 1) as nat);
        let now = saved_anchors(anchors, n);
        assert forall|i: int| 0 <= i < now.len() implies (#[trigger] now[i]).win < n by {
            if i < before.len() {
                assert(now[i] == before[i]);
            }
        }
    }
}

/// A display list is kept for each window that its list draws, with the extent of the window's
/// canvas and the list as it is; every other window is kept as a picture.
pub proof fn a_window_is_kept_as_list_or_picture(
    l: LayersView,
    art: Map<u16, Grid>,
    wins: Seq<u8>,
    k: u8,
)
    requires
        wins.contains(k),
    ensures
        l.replays(art, k) <==> exists|i: int|
            0 <= i < l.kept_lists(art, wins).len() && (#[trigger] l.kept_lists(art, wins)[i]).win
                == k,
        !l.replays(art, k) <==> l.kept_pictures(art, wins).contains(k),
        forall|i: int|
            0 <= i < l.kept_lists(art, wins).len() ==> {
                let d = #[trigger] l.kept_lists(art, wins)[i];
                &&& d.w == l.canvases[d.win].w
                &&& d.h == l.canvases[d.win].h
                &&& d.ops == l.ops_of(d.win)
                &&& l.replays(art, d.win)
            },
{
    lemma_kept_lists(l, art, wins, k);
    let p = |w: u8| !l.replays(art, w);
    let kept = wins.filter(p);
    let i = choose|i: int| 0 <= i < wins.len() && wins[i] == k;
    if p(k) {
        wins.lemma_filter_contains(p, i);
    }
    if kept.contains(k) {
        let j = choose|j: int| 0 <= j < kept.len() && kept[j] == k;
        wins.lemma_filter_pred(p, j);
    }
}

/// Which display lists are kept.
proof fn lemma_kept_lists(l: LayersView, art: Map<u16, Grid>, wins: Seq<u8>, k: u8)
    ensures
        (wins.contains(k) && l.replays(art, k)) <==> exists|i: int|
            0 <= i < l.kept_lists(art, wins).len() && (#[trigger] l.kept_lists(art, wins)[i]).win
                == k,
        forall|i: int|
            0 <= i < l.kept_lists(art, wins).len() ==> {
                let d = #[trigger] l.kept_lists(art, wins)[i];
                &&& d.w == l.canvases[d.win].w
                &&& d.h == l.canvases[d.win].h
                &&& d.ops == l.ops_of(d.win)
                &&& l.replays(art, d.win)
            },
    decreases wins.len(),
{
    if wins.len() > 0 {
        let front = wins.drop_last();
        lemma_kept_lists(l, art, front, k);
        let before = l.kept_lists(art, front);
        let now = l.kept_lists(art, wins);
        if wins.contains(k) && l.replays(art, k) {
            let i = choose|i: int| 0 <= i < wins.len() && wins[i] == k;
            if i < front.len() {
                assert(front[i] == k);
                let j = choose|j: int| 0 <= j < before.len() && (#[trigger] before[j]).win == k;
                assert(now[j] == before[j]);
            } else {
                assert(now[now.len() - 1].win == k);
            }
        }
        if exists|i: int| 0 <= i < now.len() && (#[trigger] now[i]).win == k {
            let j = choose|j: int| 0 <= j < now.len() && (#[trigger] now[j]).win == k;
            if j < before.len() {
                assert(before[j].win == k);
                let i = choose|i: int| 0 <= i < front.len() && front[i] == k;
                assert(wins[i] == k);
            } else {
                assert(wins[wins.len() - 1] == k);
            }
        }
        assert forall|i: int| 0 <= i < now.len() implies {
            let d = #[trigger] now[i];
            &&& d.w == l.canvases[d.win].w
            &&& d.h == l.canvases[d.win].h
            &&& d.ops == l.ops_of(d.win)
            &&& l.replays(art, d.win)
        } by {
            if i < before.len() {
                assert(now[i] == before[i]);
            }
        }
    }
}

/// The longest display list is as long as any, and one is as long; the full ones are counted
/// from the first window on.
pub proof fn the_longest_list_is_as_long_as_any(l: LayersView, n: nat, k: u8)
    requires
        n <= 256,
        k < n,
    ensures
        l.ops_of(k).len() <= longest_below(l, n),
        longest_below(l, n) > 0 ==> exists|j: u8|
            j < n && #[trigger] l.ops_of(j).len() == longest_below(l, n),
        full_below(l, n) <= n,
        full_below(l, n) == 0 <==> forall|j: u8| j < n ==> #[trigger] l.ops_of(j).len() < V6_OPS_CAP,
        full_below(l, n) == n <==> forall|j: u8| j < n ==> #[trigger] l.ops_of(j).len()
            >= V6_OPS_CAP,
    decreases n,
{
    let last = (n - 1) as u8;
    if n > 1 {
        the_longest_list_is_as_long_as_any(l, (n - 1) as nat, if k < n - 1 {
            k
        } else {
            0
        });
        if longest_below(l, (n - 1) as nat) == longest_below(l, n) && longest_below(l, n) > 0 {
            let j = choose|j: u8| j < n - 1 && #[trigger] l.ops_of(j).len() == longest_below(l, n);
            assert(l.ops_of(j).len() == longest_below(l, n));
        }
    } else {
        assert(longest_below(l, 0) == 0);
        assert(full_below(l, 0) == 0);
    }
    assert(l.ops_of(last).len() <= longest_below(l, n));
}

} // verus!
