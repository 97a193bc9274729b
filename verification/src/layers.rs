//! The layers of a screen with pictures: the windows' canvases, what they were drawn from,
//! the ground painted behind them and the fills that erased windows left.

use crate::art::{pic_align, scalable, scaled_art, ImageView, InlineImage};
use crate::canvas::{next, Canvas, CanvasView};
use crate::floats::float_x;
use crate::machine::{larger, smaller, Machine};
use crate::oplist::{covers_canvas, is_full_erase, prune, pruned, V6Op, V6_OPS_CAP};
use crate::raster::{blank, filled, stamped, Grid, Raster, Rgba};
use crate::turn::PictureEvent;
use crate::windows::{WindowMap, WINDOW_NUMBERS};
use vstd::prelude::*;

verus! {

/// The fill that erasing a window left: the box on the screen, the window's packed page
/// colour, and when it was painted.
#[derive(Clone, Copy, Debug, PartialEq, Eq, Structural)]
pub struct WindowFill {
    pub x: u32,
    pub y: u32,
    pub w: u32,
    pub h: u32,
    pub bg: u32,
    /// Its place in the order of all drawings.
    pub seq: u64,
    /// How many characters the story window had taken. One more, and the fill is no longer
    /// the newest paint on the screen.
    pub out_chars: u64,
}

/// Where a window's canvas was painted: the window's origin on the screen, counted from
/// one, and the box of the canvas that the drawings cover.
#[derive(Clone, Copy, Debug, PartialEq, Eq, Structural)]
pub struct CanvasAnchor {
    pub origin_x: u16,
    pub origin_y: u16,
    pub x: u32,
    pub y: u32,
    pub w: u32,
    pub h: u32,
}

/// The fill of an erased window: a box of the screen, counted from one, and the colour, if
/// the game named one outright.
#[derive(Clone, Copy, Debug, PartialEq, Eq, Structural)]
pub struct EraseFill {
    pub window: u8,
    pub x: u16,
    pub y: u16,
    pub w: u16,
    pub h: u16,
    pub rgba: Option<Rgba>,
    /// How many pictures of the turn were drawn before it.
    pub pics_before: u32,
}

/// The longest side of a window's canvas.
pub const CANVAS_PX_CAP: u32 = 4096;

/// The layers of the screen.
#[derive(Debug)]
pub struct Layers {
    /// The canvas of each window that was drawn into.
    pub pictures_canvas: WindowMap<Canvas>,
    /// Where each canvas was painted.
    pub canvas_anchor: WindowMap<CanvasAnchor>,
    /// The display list of each window.
    pub display_ops: WindowMap<Vec<V6Op>>,
    /// The windows whose display list does not tell how their canvas came about.
    pub unreplayable: WindowMap<()>,
    /// The last fill of each window.
    pub window_fills: WindowMap<WindowFill>,
    /// The ground painted on the screen, behind the canvases.
    pub paint: Option<Raster>,
    /// Pictures in the flow of the prose, each with the place it was drawn at.
    pub story_pics: Vec<(u64, InlineImage)>,
    /// The factors that pictures are scaled by.
    pub art_scale: (u32, u32),
    /// The next place in the order of all drawings.
    pub next_seq: u64,
}

/// The model of a ground: its extent and its pixels.
#[verifier::ext_equal]
pub struct GroundView {
    pub w: u32,
    pub h: u32,
    pub grid: Grid,
}

/// The mathematical model of [`Layers`].
#[verifier::ext_equal]
pub struct LayersView {
    pub canvases: Map<u8, CanvasView>,
    pub anchors: Map<u8, CanvasAnchor>,
    pub ops: Map<u8, Seq<V6Op>>,
    pub unreplayable: Set<u8>,
    pub fills: Map<u8, WindowFill>,
    pub paint: Option<GroundView>,
    pub story_pics: Seq<(u64, ImageView)>,
    pub art_scale: (u32, u32),
    pub next_seq: u64,
}

/// The model of the pictures in the flow of the prose.
pub open spec fn story_views(v: Seq<(u64, InlineImage)>) -> Seq<(u64, ImageView)> {
    v.map_values(|p: (u64, InlineImage)| (p.0, p.1@))
}

/// The model of a ground that may be missing.
pub open spec fn ground_view(o: Option<Raster>) -> Option<GroundView> {
    match o {
        Some(r) => Some(GroundView { w: r.width, h: r.height, grid: r.grid() }),
        None => None,
    }
}

/// Whether the box of an anchor has an end.
pub open spec fn anchor_ok(a: CanvasAnchor) -> bool {
    a.x + a.w <= u32::MAX && a.y + a.h <= u32::MAX
}

// ── The model ─────────────────────────────────────────────────────────────────
/// The box that an event's window had, cut to the longest side of a canvas.
pub open spec fn canvas_box(ev: PictureEvent) -> (int, int) {
    (
        smaller(larger(ev.win_box.2 as int, 1), CANVAS_PX_CAP as int),
        smaller(larger(ev.win_box.3 as int, 1), CANVAS_PX_CAP as int),
    )
}

/// Where on the canvas an event happened, counted from zero.
pub open spec fn canvas_pos(ev: PictureEvent) -> (int, int) {
    (larger(ev.x as int, 1) - 1, larger(ev.y as int, 1) - 1)
}

/// What is left of a length behind a position, or zero.
pub open spec fn room(n: int, pos: int) -> int {
    if n < pos {
        0
    } else {
        n - pos
    }
}

/// The box that erasing a picture clears: that of the picture where it was drawn, cut to the
/// window, or the whole window where the picture's extent is unknown.
pub open spec fn erase_box(dims: Option<(u32, u32)>, scale: (u32, u32), ev: PictureEvent) -> (
    int,
    int,
    int,
    int,
) {
    let b = canvas_box(ev);
    let p = canvas_pos(ev);
    match dims {
        Some(d) => (
            p.0,
            p.1,
            smaller(d.0 * scale.0, room(b.0, p.0)),
            smaller(d.1 * scale.1, room(b.1, p.1)),
        ),
        None => (0, 0, b.0, b.1),
    }
}

impl LayersView {
    /// The display list of a window; an empty one where there is none.
    pub open spec fn ops_of(self, win: u8) -> Seq<V6Op> {
        if self.ops.dom().contains(win) {
            self.ops[win]
        } else {
            seq![]
        }
    }

    /// The layers after an entry in a window's display list. An erasure of the whole canvas
    /// starts the list afresh; any other drops the erasures inside it. A list that is full
    /// takes no more, and its window can no longer be drawn again.
    pub open spec fn recorded(self, win: u8, op: V6Op) -> LayersView {
        let full = self.canvases.dom().contains(win) && is_full_erase(
            op,
            self.canvases[win].w,
            self.canvases[win].h,
        );
        let ops = if full {
            seq![]
        } else {
            pruned(self.ops_of(win), op)
        };
        let lost = if full {
            self.unreplayable.remove(win)
        } else {
            self.unreplayable
        };
        if ops.len() >= V6_OPS_CAP {
            LayersView { ops: self.ops.insert(win, ops), unreplayable: lost.insert(win), ..self }
        } else {
            LayersView { ops: self.ops.insert(win, ops.push(op)), unreplayable: lost, ..self }
        }
    }

    /// The layers after a box of the screen was erased from one window's canvas.
    pub open spec fn erased_in(
        self,
        m: &Machine,
        win: u8,
        rect: (u32, u32, u32, u32),
        skip: Option<u8>,
    ) -> LayersView {
        if !self.canvases.dom().contains(win) || skip == Some(win) || m.screen_rect(win) is None {
            self
        } else {
            let c = self.canvases[win];
            let r = m.screen_rect(win)->0;
            let x0 = larger(rect.0 as int, r.0 as int);
            let y0 = larger(rect.1 as int, r.1 as int);
            let x1 = smaller(rect.0 + rect.2, r.0 + c.w);
            let y1 = smaller(rect.1 + rect.3, r.1 + c.h);
            if x1 <= x0 || y1 <= y0 {
                self
            } else {
                let dx = x0 - r.0;
                let dy = y0 - r.1;
                LayersView {
                    canvases: self.canvases.insert(win, c.erased(dx, dy, x1 - x0, y1 - y0)),
                    ..self
                }.recorded(
                    win,
                    V6Op::Erase {
                        dx: dx as i32,
                        dy: dy as i32,
                        w: (x1 - x0) as u32,
                        h: (y1 - y0) as u32,
                    },
                )
            }
        }
    }

    /// The layers after a box of the screen was erased from the canvases of the first `n`
    /// windows.
    pub open spec fn erased_below(
        self,
        m: &Machine,
        rect: (u32, u32, u32, u32),
        skip: Option<u8>,
        n: nat,
    ) -> LayersView
        decreases n,
    {
        if n == 0 {
            self
        } else {
            self.erased_below(m, rect, skip, (n - 1) as nat).erased_in(m, (n - 1) as u8, rect, skip)
        }
    }

    /// The layers after a box of the screen was erased from every canvas but one. A box
    /// without an area erases nothing.
    pub open spec fn erased_everywhere(
        self,
        m: &Machine,
        rect: (u32, u32, u32, u32),
        skip: Option<u8>,
    ) -> LayersView {
        if rect.2 == 0 || rect.3 == 0 {
            self
        } else {
            self.erased_below(m, rect, skip, WINDOW_NUMBERS as nat)
        }
    }

    /// The ground, or a blank one of the screen's extent.
    pub open spec fn ground(self, m: &Machine) -> GroundView {
        match self.paint {
            Some(g) => g,
            None => {
                let e = m.native_extent();
                GroundView { w: e.0, h: e.1, grid: blank(e.0 as nat, e.1 as nat) }
            },
        }
    }

    /// The layers after a window was found at `now`: if it has moved since its canvas was
    /// painted, the pixels stay on the ground where they were painted, and the canvas goes.
    pub open spec fn retired(self, m: &Machine, win: u8, now: (u16, u16)) -> LayersView {
        if !self.anchors.dom().contains(win) || (self.anchors[win].origin_x == now.0
            && self.anchors[win].origin_y == now.1) {
            self
        } else if !self.canvases.dom().contains(win) {
            LayersView { anchors: self.anchors.remove(win), ..self }
        } else {
            let a = self.anchors[win];
            let g = self.ground(m);
            LayersView {
                anchors: self.anchors.remove(win),
                canvases: self.canvases.remove(win),
                ops: self.ops.remove(win),
                unreplayable: self.unreplayable.remove(win),
                paint: Some(
                    GroundView {
                        grid: stamped(
                            g.grid,
                            self.canvases[win].grid,
                            a.x as int,
                            a.y as int,
                            a.x + a.w,
                            a.y + a.h,
                            larger(a.origin_x as int, 1) - 1,
                            larger(a.origin_y as int, 1) - 1,
                        ),
                        ..g
                    },
                ),
                ..self
            }
        }
    }

    /// The layers after a drawing on a window's canvas was noted: the drawings' box is the
    /// union of the old one and the new.
    pub open spec fn anchored(
        self,
        win: u8,
        origin: (u16, u16),
        x: int,
        y: int,
        w: int,
        h: int,
    ) -> LayersView {
        let a = if self.anchors.dom().contains(win) {
            let o = self.anchors[win];
            let x0 = smaller(o.x as int, x);
            let y0 = smaller(o.y as int, y);
            let x1 = larger(o.x + o.w, x + w);
            let y1 = larger(o.y + o.h, y + h);
            CanvasAnchor {
                origin_x: origin.0,
                origin_y: origin.1,
                x: x0 as u32,
                y: y0 as u32,
                w: (x1 - x0) as u32,
                h: (y1 - y0) as u32,
            }
        } else {
            CanvasAnchor {
                origin_x: origin.0,
                origin_y: origin.1,
                x: x as u32,
                y: y as u32,
                w: w as u32,
                h: h as u32,
            }
        };
        LayersView { anchors: self.anchors.insert(win, a), ..self }
    }

    /// The layers after a fill. A fill without a colour of its own, or without an area,
    /// paints nothing; one that spans the screen clears the ground.
    pub open spec fn painted(self, m: &Machine, f: EraseFill) -> LayersView {
        let e = m.native_extent();
        if f.rgba is None || f.w == 0 || f.h == 0 {
            self
        } else if f.w >= e.0 && f.h >= e.1 {
            LayersView { paint: None, ..self }
        } else {
            let g = self.ground(m);
            let x0 = larger(f.x as int, 1) - 1;
            let y0 = larger(f.y as int, 1) - 1;
            LayersView {
                paint: Some(
                    GroundView { grid: filled(g.grid, x0, y0, x0 + f.w, y0 + f.h, f.rgba->0), ..g },
                ),
                ..self
            }
        }
    }

    /// The layers after a window was erased: its canvas goes with all that describes it, its
    /// box goes from the other canvases, and the fill is noted.
    pub open spec fn window_erased(self, m: &Machine, ev: PictureEvent) -> LayersView {
        let win = ev.window;
        let bare = LayersView {
            canvases: self.canvases.remove(win),
            anchors: self.anchors.remove(win),
            ops: self.ops.remove(win),
            unreplayable: self.unreplayable.remove(win),
            ..self
        };
        match m.screen_rect(win) {
            None => bare,
            Some(r) => {
                let l = bare.erased_everywhere(m, r, Some(win));
                if r.2 > 0 && r.3 > 0 {
                    LayersView {
                        fills: l.fills.insert(
                            win,
                            WindowFill {
                                x: r.0,
                                y: r.1,
                                w: r.2,
                                h: r.3,
                                bg: m.window(win).bg,
                                seq: l.next_seq,
                                out_chars: ev.out_chars,
                            },
                        ),
                        next_seq: next(l.next_seq),
                        ..l
                    }
                } else {
                    LayersView { fills: l.fills.remove(win), ..l }
                }
            },
        }
    }

    /// The layers after a picture was anchored in the prose.
    pub open spec fn floated(
        self,
        m: &Machine,
        ev: PictureEvent,
        x: u16,
        art: (u32, u32, Grid),
    ) -> LayersView {
        let w = (art.0 * self.art_scale.0) as u32;
        let h = (art.1 * self.art_scale.1) as u32;
        let s = m.screen_px();
        let w0 = m.window(0);
        let align = pic_align(
            w as int,
            h as int,
            s.0 as int,
            s.1 as int,
            x as int,
            w0.left_margin as int,
            w0.right_margin as int,
            w0.x_size as int,
        );
        LayersView {
            story_pics: self.story_pics.push(
                (
                    ev.out_chars,
                    ImageView {
                        w,
                        h,
                        grid: scaled_art(art.2, art.0, art.1, self.art_scale),
                        align,
                        margin_px: if align is MarginLeft && ev.margin_after is Some {
                            Some(ev.margin_after->0 as u32)
                        } else {
                            None
                        },
                    },
                ),
            ),
            ..self
        }
    }

    /// The canvas that an event finds: the window's own or a blank one, at least as large as
    /// the window.
    pub open spec fn canvas_for(self, ev: PictureEvent) -> CanvasView {
        let b = canvas_box(ev);
        let c = if self.canvases.dom().contains(ev.window) {
            self.canvases[ev.window]
        } else {
            CanvasView::blank(b.0 as u32, b.1 as u32)
        };
        c.grown(b.0 as u32, b.1 as u32)
    }

    /// The layers after a picture was erased from a window.
    pub open spec fn picture_erased(
        self,
        m: &Machine,
        ev: PictureEvent,
        dims: Option<(u32, u32)>,
    ) -> LayersView {
        let e = erase_box(dims, self.art_scale, ev);
        let l = LayersView {
            canvases: self.canvases.insert(
                ev.window,
                self.canvas_for(ev).erased(e.0, e.1, e.2, e.3),
            ),
            ..self
        }.recorded(
            ev.window,
            V6Op::Erase { dx: e.0 as i32, dy: e.1 as i32, w: e.2 as u32, h: e.3 as u32 },
        );
        let r = m.screen_rect(ev.window)->0;
        l.erased_everywhere(
            m,
            ((r.0 + e.0) as u32, (r.1 + e.1) as u32, e.2 as u32, e.3 as u32),
            Some(ev.window),
        )
    }

    /// The layers after a picture was drawn into a window.
    pub open spec fn picture_drawn(self, ev: PictureEvent, art: (u32, u32, Grid)) -> LayersView {
        let p = canvas_pos(ev);
        let b = canvas_box(ev);
        let w = art.0 * self.art_scale.0;
        let h = art.1 * self.art_scale.1;
        let c = self.canvas_for(ev).drawn(
            scaled_art(art.2, art.0, art.1, self.art_scale),
            p.0,
            p.1,
            b.0,
            b.1,
        );
        LayersView {
            canvases: self.canvases.insert(ev.window, CanvasView { z_seq: self.next_seq, ..c }),
            next_seq: next(self.next_seq),
            ..self
        }.anchored(
            ev.window,
            (ev.win_box.0, ev.win_box.1),
            p.0,
            p.1,
            smaller(w, room(b.0, p.0)),
            smaller(h, room(b.1, p.1)),
        ).recorded(ev.window, V6Op::Draw { number: ev.number, dx: p.0 as i32, dy: p.1 as i32 })
    }

    /// The layers after one event, where `dims` is the extent of its picture and `art` the
    /// picture, as far as they resolve.
    pub open spec fn after(
        self,
        m: &Machine,
        ev: PictureEvent,
        dims: Option<(u32, u32)>,
        art: Option<(u32, u32, Grid)>,
    ) -> LayersView {
        let l = self.retired(m, ev.window, (ev.win_box.0, ev.win_box.1));
        let fx = float_x(m, dims, l.art_scale, ev);
        if ev.erase && ev.number == 0 {
            l.window_erased(m, ev)
        } else if !m.has_window(ev.window) {
            l
        } else if fx is Some {
            if ev.erase || art is None {
                l
            } else {
                l.floated(m, ev, fx->0, art->0)
            }
        } else if ev.erase {
            l.picture_erased(m, ev, dims)
        } else if art is Some {
            l.picture_drawn(ev, art->0)
        } else {
            l
        }
    }
}

/// The extent and the pixels of a picture that may be missing.
pub open spec fn art_view(o: Option<Raster>) -> Option<(u32, u32, Grid)> {
    match o {
        Some(i) => Some((i.width, i.height, i.grid())),
        None => None,
    }
}

/// Whether a picture that may be missing can be drawn at a scale.
pub open spec fn art_ok(o: Option<Raster>, scale: (u32, u32)) -> bool {
    o matches Some(i) ==> i.wf() && scalable(i.width as int, i.height as int, scale)
}

// ── The layers ────────────────────────────────────────────────────────────────
impl Layers {
    /// The model of the layers.
    pub open spec fn view(&self) -> LayersView {
        LayersView {
            canvases: Map::new(
                |k: u8| self.pictures_canvas@.dom().contains(k),
                |k: u8| self.pictures_canvas@[k]@,
            ),
            anchors: self.canvas_anchor@,
            ops: Map::new(
                |k: u8| self.display_ops@.dom().contains(k),
                |k: u8| self.display_ops@[k]@,
            ),
            unreplayable: self.unreplayable@.dom(),
            fills: self.window_fills@,
            paint: ground_view(self.paint),
            story_pics: story_views(self.story_pics@),
            art_scale: self.art_scale,
            next_seq: self.next_seq,
        }
    }

    /// Every canvas and the ground have the pixels of their extent, and every anchor's box
    /// has an end.
    pub open spec fn wf(&self) -> bool {
        &&& self.pictures_canvas.wf()
        &&& self.canvas_anchor.wf()
        &&& self.display_ops.wf()
        &&& self.unreplayable.wf()
        &&& self.window_fills.wf()
        &&& forall|k: u8|
            self.pictures_canvas@.dom().contains(k) ==> (#[trigger] self.pictures_canvas@[k]).wf()
        &&& forall|k: u8|
            self.canvas_anchor@.dom().contains(k) ==> anchor_ok(#[trigger] self.canvas_anchor@[k])
        &&& self.paint matches Some(p) ==> p.wf()
        &&& forall|i: int|
            0 <= i < self.story_pics@.len() ==> (#[trigger] self.story_pics@[i]).1.pixels.wf()
    }

    /// A screen with nothing on it.
    pub fn new(art_scale: (u32, u32)) -> (r: Layers)
        ensures
            r.wf(),
            r@.is_bare(),
            r.art_scale == art_scale,
    {
        let r = Layers {
            pictures_canvas: WindowMap::new(),
            canvas_anchor: WindowMap::new(),
            display_ops: WindowMap::new(),
            unreplayable: WindowMap::new(),
            window_fills: WindowMap::new(),
            paint: None,
            story_pics: Vec::new(),
            art_scale,
            next_seq: 1,
        };
        assert(r@.canvases =~= Map::empty());
        assert(r@.ops =~= Map::empty());
        assert(r@.unreplayable =~= Set::empty());
        assert(r@.story_pics =~= seq![]);
        r
    }

    /// Appends an entry to a window's display list.
    pub fn record_op(&mut self, win: u8, op: V6Op)
        requires
            old(self).wf(),
        ensures
            final(self).wf(),
            final(self)@ == old(self)@.recorded(win, op),
    {
        let full: bool = match self.pictures_canvas.get(win) {
            Some(c) => covers_canvas(op, c.img.width, c.img.height),
            None => false,
        };
        let ghost l0 = self@;
        let mut ops: Vec<V6Op> = match self.display_ops.remove(win) {
            Some(v) => v,
            None => Vec::new(),
        };
        assert(ops@ =~= l0.ops_of(win));
        if full {
            ops = Vec::new();
            let _ = self.unreplayable.remove(win);
        } else {
            ops = prune(&ops, op);
        }
        if ops.len() >= V6_OPS_CAP {
            self.unreplayable.insert(win, ());
        } else {
            ops.push(op);
        }
        self.display_ops.insert(win, ops);
        proof {
            let l1 = l0.recorded(win, op);
            assert(self@.ops =~= l1.ops);
            assert(self@.unreplayable =~= l1.unreplayable);
            assert(self@.canvases =~= l1.canvases);
            assert(self@ =~= l1);
        }
    }

    /// Erases a box of the screen from one window's canvas.
    fn erase_in(
        &mut self,
        m: &Machine,
        win: u8,
        rect: (u32, u32, u32, u32),
        skip: Option<u8>,
    )
        requires
            old(self).wf(),
            rect.0 <= 0x4_0000,
            rect.1 <= 0x4_0000,
        ensures
            final(self).wf(),
            final(self)@ == old(self)@.erased_in(m, win, rect, skip),
    {
        let skipped: bool = match skip {
            Some(s) => s == win,
            None => false,
        };
        if skipped || !self.pictures_canvas.contains(win) {
            return ;
        }
        let (wx, wy) = match m.window_screen_rect(win) {
            Some(r) => (r.0, r.1),
            None => {
                return ;
            },
        };
        let (cw, ch): (u32, u32) = match self.pictures_canvas.get(win) {
            Some(c) => (c.img.width, c.img.height),
            None => {
                return ;
            },
        };
        let x0: u32 = if rect.0 < wx {
            wx
        } else {
            rect.0
        };
        let y0: u32 = if rect.1 < wy {
            wy
        } else {
            rect.1
        };
        let rx1: u64 = rect.0 as u64 + rect.2 as u64;
        let ry1: u64 = rect.1 as u64 + rect.3 as u64;
        let cx1: u64 = wx as u64 + cw as u64;
        let cy1: u64 = wy as u64 + ch as u64;
        let x1: u64 = if rx1 < cx1 {
            rx1
        } else {
            cx1
        };
        let y1: u64 = if ry1 < cy1 {
            ry1
        } else {
            cy1
        };
        if x1 <= x0 as u64 || y1 <= y0 as u64 {
            return ;
        }
        let dx: i32 = (x0 - wx) as i32;
        let dy: i32 = (y0 - wy) as i32;
        let w: u32 = (x1 - x0 as u64) as u32;
        let h: u32 = (y1 - y0 as u64) as u32;
        let ghost l0 = self@;
        if let Some(mut c) = self.pictures_canvas.remove(win) {
            c.erase_rect(dx, dy, w, h);
            self.pictures_canvas.insert(win, c);
            proof {
                let l1 = LayersView {
                    canvases: l0.canvases.insert(
                        win,
                        l0.canvases[win].erased(dx as int, dy as int, w as int, h as int),
                    ),
                    ..l0
                };
                assert(self@.canvases =~= l1.canvases);
                assert(self@ =~= l1);
            }
            self.record_op(win, V6Op::Erase { dx, dy, w, h });
        }
    }

    /// Erases a box of the screen from every window's canvas but one: windows are openings
    /// over one screen, so that what is erased there goes whichever window put it there.
    pub fn erase_screen_rect(
        &mut self,
        m: &Machine,
        rect: (u32, u32, u32, u32),
        skip: Option<u8>,
    )
        requires
            old(self).wf(),
            rect.0 <= 0x4_0000,
            rect.1 <= 0x4_0000,
        ensures
            final(self).wf(),
            final(self)@ == old(self)@.erased_everywhere(m, rect, skip),
    {
        if rect.2 == 0 || rect.3 == 0 {
            return ;
        }
        let ghost l0 = self@;
        let mut n: usize = 0;
        while n < WINDOW_NUMBERS
            invariant
                n <= WINDOW_NUMBERS,
                self.wf(),
                rect.0 <= 0x4_0000,
                rect.1 <= 0x4_0000,
                self@ == l0.erased_below(m, rect, skip, n as nat),
            decreases WINDOW_NUMBERS - n,
        {
            self.erase_in(m, n as u8, rect, skip);
            n = n + 1;
        }
    }

    /// Takes the ground, or a blank one of the screen's extent.
    fn take_ground(&mut self, m: &Machine) -> (r: Raster)
        requires
            old(self).wf(),
        ensures
            r.wf(),
            ground_view(Some(r)) == Some(old(self)@.ground(m)),
            final(self).wf(),
            final(self)@ == (LayersView { paint: None, ..old(self)@ }),
    {
        let r: Raster = match self.paint.take() {
            Some(g) => g,
            None => {
                let e = m.v6_native_extent();
                Raster::new(e.0, e.1)
            },
        };
        assert(self@ =~= LayersView { paint: None, ..old(self)@ });
        r
    }

    /// Freezes a window's canvas onto the ground if the window has moved since the pixels
    /// were drawn: what is on the screen does not move with the window.
    pub fn retire_stranded_canvas(&mut self, m: &Machine, win: u8, now: (u16, u16))
        requires
            old(self).wf(),
        ensures
            final(self).wf(),
            final(self)@ == old(self)@.retired(m, win, now),
    {
        let a: CanvasAnchor = match self.canvas_anchor.get(win) {
            Some(a) => *a,
            None => {
                return ;
            },
        };
        if now.0 == a.origin_x && now.1 == a.origin_y {
            return ;
        }
        let ghost l0 = self@;
        let _ = self.canvas_anchor.remove(win);
        let canvas: Canvas = match self.pictures_canvas.remove(win) {
            Some(c) => c,
            None => {
                assert(self@.canvases =~= l0.canvases);
                assert(self@ =~= l0.retired(m, win, now));
                return ;
            },
        };
        let _ = self.display_ops.remove(win);
        let _ = self.unreplayable.remove(win);
        let ox: u32 = if a.origin_x < 1 {
            0
        } else {
            a.origin_x as u32 - 1
        };
        let oy: u32 = if a.origin_y < 1 {
            0
        } else {
            a.origin_y as u32 - 1
        };
        let mut ground: Raster = self.take_ground(m);
        ground.stamp(&canvas.img, (a.x, a.y, a.w, a.h), ox, oy);
        self.paint = Some(ground);
        proof {
            let l1 = l0.retired(m, win, now);
            assert(self@.canvases =~= l1.canvases);
            assert(self@.ops =~= l1.ops);
            assert(self@.unreplayable =~= l1.unreplayable);
            assert(self@ =~= l1);
        }
    }

    /// Notes that a window's canvas holds pixels drawn while the window stood at `origin`,
    /// in a box of the canvas.
    pub fn anchor_canvas_draw(
        &mut self,
        win: u8,
        origin: (u16, u16),
        x: u32,
        y: u32,
        w: u32,
        h: u32,
    )
        requires
            old(self).wf(),
            x + w <= u32::MAX,
            y + h <= u32::MAX,
        ensures
            final(self).wf(),
            final(self)@ == old(self)@.anchored(
                win,
                origin,
                x as int,
                y as int,
                w as int,
                h as int,
            ),
    {
        let a: CanvasAnchor = match self.canvas_anchor.get(win) {
            Some(o) => {
                assert(anchor_ok(self.canvas_anchor@[win]));
                let x0: u32 = if o.x < x {
                    o.x
                } else {
                    x
                };
                let y0: u32 = if o.y < y {
                    o.y
                } else {
                    y
                };
                let x1: u32 = if o.x + o.w < x + w {
                    x + w
                } else {
                    o.x + o.w
                };
                let y1: u32 = if o.y + o.h < y + h {
                    y + h
                } else {
                    o.y + o.h
                };
                CanvasAnchor {
                    origin_x: origin.0,
                    origin_y: origin.1,
                    x: x0,
                    y: y0,
                    w: x1 - x0,
                    h: y1 - y0,
                }
            },
            None => CanvasAnchor { origin_x: origin.0, origin_y: origin.1, x, y, w, h },
        };
        let ghost l0 = self@;
        self.canvas_anchor.insert(win, a);
        assert(self@ =~= l0.anchored(win, origin, x as int, y as int, w as int, h as int));
    }

    /// Paints one fill onto the ground.
    pub fn apply_erase_fill(&mut self, m: &Machine, f: &EraseFill)
        requires
            old(self).wf(),
        ensures
            final(self).wf(),
            final(self)@ == old(self)@.painted(m, *f),
    {
        let c: Rgba = match f.rgba {
            Some(c) => c,
            None => {
                return ;
            },
        };
        if f.w == 0 || f.h == 0 {
            return ;
        }
        let e = m.v6_native_extent();
        let ghost l0 = self@;
        if f.w as u32 >= e.0 && f.h as u32 >= e.1 {
            self.paint = None;
            assert(self@ =~= l0.painted(m, *f));
            return ;
        }
        let x0: i64 = if f.x < 1 {
            0
        } else {
            f.x as i64 - 1
        };
        let y0: i64 = if f.y < 1 {
            0
        } else {
            f.y as i64 - 1
        };
        let mut ground: Raster = self.take_ground(m);
        ground.fill_rect(x0, y0, x0 + f.w as i64, y0 + f.h as i64, c);
        self.paint = Some(ground);
        assert(self@ =~= l0.painted(m, *f));
    }
}

impl LayersView {
    /// Whether nothing is on the screen.
    pub open spec fn is_bare(self) -> bool {
        &&& self.canvases == Map::<u8, CanvasView>::empty()
        &&& self.anchors == Map::<u8, CanvasAnchor>::empty()
        &&& self.ops == Map::<u8, Seq<V6Op>>::empty()
        &&& self.unreplayable == Set::<u8>::empty()
        &&& self.fills == Map::<u8, WindowFill>::empty()
        &&& self.paint is None
        &&& self.story_pics == Seq::<(u64, ImageView)>::empty()
    }
}

} // verus!
