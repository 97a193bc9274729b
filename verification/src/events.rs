//! Applying a turn's picture events to the layers of the screen.

use crate::art::{v6_scaled_art, win0_pic_align, ImageAlign, InlineImage};
use crate::canvas::{count_on, Canvas};
use crate::floats::win0_inline_float_x;
use crate::layers::{art_ok, art_view, erase_box, room, story_views, Layers,
    LayersView, WindowFill, CANVAS_PX_CAP};
use crate::machine::{larger, smaller, Machine};
use crate::oplist::V6Op;
use crate::raster::Raster;
use crate::turn::PictureEvent;
use vstd::prelude::*;

verus! {

/// The number, or one if that is larger, counted from zero.
fn from_one(n: u16) -> (r: u32)
    ensures
        r == larger(n as int, 1) - 1,
        r < 0xffff,
{
    if n < 1 {
        0
    } else {
        n as u32 - 1
    }
}

/// A side of a window's canvas.
fn canvas_side(n: u16) -> (r: u32)
    ensures
        r == smaller(larger(n as int, 1), CANVAS_PX_CAP as int),
        1 <= r <= CANVAS_PX_CAP,
{
    if n < 1 {
        1
    } else if n as u32 > CANVAS_PX_CAP {
        CANVAS_PX_CAP
    } else {
        n as u32
    }
}

/// A length in the screen's pixels, cut to the room behind a position.
fn cut_to_room(n: u32, scale: u32, side: u32, pos: u32) -> (r: u32)
    ensures
        r == smaller(n * scale, room(side as int, pos as int)),
        r <= side,
{
    let left: u32 = side.saturating_sub(pos);
    assert(n * scale <= 0xffff_ffff * 0xffff_ffff) by (nonlinear_arith)
        requires
            n <= 0xffff_ffff,
            scale <= 0xffff_ffff,
    ;
    let full: u64 = n as u64 * scale as u64;
    if full < left as u64 {
        full as u32
    } else {
        left
    }
}

impl Layers {
    /// Removes a window's canvas with all that describes it, takes the window's box out of
    /// the other canvases and notes the fill.
    fn erase_window(&mut self, m: &Machine, ev: &PictureEvent)
        requires
            old(self).wf(),
        ensures
            final(self).wf(),
            final(self)@ == old(self)@.window_erased(m, *ev),
    {
        let ghost l0 = self@;
        let win: u8 = ev.window;
        let _ = self.pictures_canvas.remove(win);
        let _ = self.canvas_anchor.remove(win);
        let _ = self.display_ops.remove(win);
        let _ = self.unreplayable.remove(win);
        proof {
            let bare = LayersView {
                canvases: l0.canvases.remove(win),
                anchors: l0.anchors.remove(win),
                ops: l0.ops.remove(win),
                unreplayable: l0.unreplayable.remove(win),
                ..l0
            };
            assert(self@.canvases =~= bare.canvases);
            assert(self@.ops =~= bare.ops);
            assert(self@.unreplayable =~= bare.unreplayable);
            assert(self@ =~= bare);
        }
        if let Some(r) = m.window_screen_rect(win) {
            self.erase_screen_rect(m, r, Some(win));
            let ghost l1 = self@;
            if r.2 > 0 && r.3 > 0 {
                let mut bg: u32 = 0;
                if let Some(v6) = &m.v6 {
                    if (win as usize) < v6.windows.len() {
                        bg = v6.windows[win as usize].bg;
                    }
                }
                let fill = WindowFill {
                    x: r.0,
                    y: r.1,
                    w: r.2,
                    h: r.3,
                    bg,
                    seq: self.next_seq,
                    out_chars: ev.out_chars,
                };
                self.window_fills.insert(win, fill);
                self.next_seq = count_on(self.next_seq);
                assert(self@ =~= l0.window_erased(m, *ev));
            } else {
                let _ = self.window_fills.remove(win);
                assert(self@ =~= l0.window_erased(m, *ev));
            }
        }
    }

    /// Anchors a picture in the prose.
    fn float_picture(&mut self, m: &Machine, ev: &PictureEvent, x: u16, art: &Raster)
        requires
            old(self).wf(),
            m.has_window(0),
            art_ok(Some(*art), old(self).art_scale),
        ensures
            final(self).wf(),
            final(self)@ == old(self)@.floated(
                m,
                *ev,
                x,
                (art.width, art.height, art.grid()),
            ),
    {
        let ghost l0 = self@;
        let (left, right, win_w): (u16, u16, u16) = match &m.v6 {
            Some(v6) => (
                v6.windows[0].left_margin,
                v6.windows[0].right_margin,
                v6.windows[0].x_size,
            ),
            None => (0, 0, 0),
        };
        let img: Raster = v6_scaled_art(art, self.art_scale);
        let s = m.v6_screen_px();
        let align: ImageAlign = win0_pic_align(
            img.width,
            img.height,
            s.0,
            s.1,
            x,
            left,
            right,
            win_w,
        );
        let margin_px: Option<u32> = match (align, ev.margin_after) {
            (ImageAlign::MarginLeft, Some(n)) => Some(n as u32),
            _ => None,
        };
        let pics0: Ghost<Seq<(u64, InlineImage)>> = Ghost(self.story_pics@);
        self.story_pics.push((ev.out_chars, InlineImage { pixels: img, align, margin_px }));
        proof {
            let l1 = l0.floated(m, *ev, x, (art.width, art.height, art.grid()));
            assert(story_views(self.story_pics@) =~= l1.story_pics);
            assert(self@ =~= l1);
            assert forall|i: int| 0 <= i < self.story_pics@.len() implies (
            #[trigger] self.story_pics@[i]).1.pixels.wf() by {
                if i < pics0@.len() {
                    assert(self.story_pics@[i] == pics0@[i]);
                }
            }
        }
    }

    /// Takes the canvas that an event finds out of the layers.
    fn take_canvas(&mut self, ev: &PictureEvent) -> (r: Canvas)
        requires
            old(self).wf(),
        ensures
            r.wf(),
            r@ == old(self)@.canvas_for(*ev),
            final(self).wf(),
            final(self)@ == (LayersView {
                canvases: old(self)@.canvases.remove(ev.window),
                ..old(self)@
            }),
    {
        let ghost l0 = self@;
        let pw: u32 = canvas_side(ev.win_box.2);
        let ph: u32 = canvas_side(ev.win_box.3);
        let mut c: Canvas = match self.pictures_canvas.remove(ev.window) {
            Some(c) => c,
            None => Canvas::new(pw, ph),
        };
        c.grow_to(pw, ph);
        assert(self@.canvases =~= l0.canvases.remove(ev.window));
        assert(self@ =~= LayersView { canvases: l0.canvases.remove(ev.window), ..l0 });
        c
    }

    /// Puts a canvas into the layers.
    fn put_canvas(&mut self, win: u8, c: Canvas)
        requires
            old(self).wf(),
            c.wf(),
        ensures
            final(self).wf(),
            final(self)@ == (LayersView {
                canvases: old(self)@.canvases.insert(win, c@),
                ..old(self)@
            }),
    {
        let ghost l0 = self@;
        self.pictures_canvas.insert(win, c);
        assert(self@.canvases =~= l0.canvases.insert(win, c@));
        assert(self@ =~= LayersView { canvases: l0.canvases.insert(win, c@), ..l0 });
    }

    /// Erases a picture from a window, and its footprint from the other canvases.
    fn erase_picture(&mut self, m: &Machine, ev: &PictureEvent, dims: Option<(u32, u32)>)
        requires
            old(self).wf(),
            m.has_window(ev.window),
        ensures
            final(self).wf(),
            final(self)@ == old(self)@.picture_erased(m, *ev, dims),
    {
        let ghost l0 = self@;
        let pw: u32 = canvas_side(ev.win_box.2);
        let ph: u32 = canvas_side(ev.win_box.3);
        let (ex, ey, ew, eh): (u32, u32, u32, u32) = match dims {
            Some(d) => {
                let px: u32 = from_one(ev.x);
                let py: u32 = from_one(ev.y);
                (
                    px,
                    py,
                    cut_to_room(d.0, self.art_scale.0, pw, px),
                    cut_to_room(d.1, self.art_scale.1, ph, py),
                )
            },
            None => (0, 0, pw, ph),
        };
        assert((ex as int, ey as int, ew as int, eh as int) == erase_box(
            dims,
            l0.art_scale,
            *ev,
        ));
        let mut c: Canvas = self.take_canvas(ev);
        c.erase_rect(ex as i32, ey as i32, ew, eh);
        self.put_canvas(ev.window, c);
        assert(l0.canvases.remove(ev.window).insert(ev.window, c@) =~= l0.canvases.insert(
            ev.window,
            c@,
        ));
        self.record_op(ev.window, V6Op::Erase { dx: ex as i32, dy: ey as i32, w: ew, h: eh });
        if let Some(r) = m.window_screen_rect(ev.window) {
            self.erase_screen_rect(m, (r.0 + ex, r.1 + ey, ew, eh), Some(ev.window));
        }
    }

    /// Draws a picture into a window.
    fn draw_picture(&mut self, ev: &PictureEvent, art: &Raster)
        requires
            old(self).wf(),
            art_ok(Some(*art), old(self).art_scale),
        ensures
            final(self).wf(),
            final(self)@ == old(self)@.picture_drawn(*ev, (art.width, art.height, art.grid())),
    {
        let ghost l0 = self@;
        let pw: u32 = canvas_side(ev.win_box.2);
        let ph: u32 = canvas_side(ev.win_box.3);
        let px: u32 = from_one(ev.x);
        let py: u32 = from_one(ev.y);
        let img: Raster = v6_scaled_art(art, self.art_scale);
        let mut c: Canvas = self.take_canvas(ev);
        c.draw_image_clipped(&img, px as i32, py as i32, (pw, ph));
        c.z_seq = self.next_seq;
        self.next_seq = count_on(self.next_seq);
        self.put_canvas(ev.window, c);
        assert(l0.canvases.remove(ev.window).insert(ev.window, c@) =~= l0.canvases.insert(
            ev.window,
            c@,
        ));
        let w: u32 = cut_to_room(img.width, 1, pw, px);
        let h: u32 = cut_to_room(img.height, 1, ph, py);
        self.anchor_canvas_draw(ev.window, (ev.win_box.0, ev.win_box.1), px, py, w, h);
        self.record_op(ev.window, V6Op::Draw { number: ev.number, dx: px as i32, dy: py as i32 });
    }

    /// Applies one picture event: `dims` is the extent of the picture and `art` the picture
    /// under the palette of the moment, as far as they resolve.
    ///
    /// A window that has moved leaves its canvas on the ground first. Erasing picture zero
    /// erases the window. A picture in the flow of the prose is anchored there; any other is
    /// drawn on, or erased from, the window's canvas, clipped to the box that the window had
    /// when the call was made. To erase a picture of unknown extent erases the box; to draw a picture that does not resolve does nothing.
    pub fn apply_picture_event(
        &mut self,
        m: &Machine,
        ev: &PictureEvent,
        dims: Option<(u32, u32)>,
        art: &Option<Raster>,
    )
        requires
            old(self).wf(),
            art_ok(*art, old(self).art_scale),
        ensures
            final(self).wf(),
            final(self)@ == old(self)@.after(m, *ev, dims, art_view(*art)),
    {
        self.retire_stranded_canvas(m, ev.window, (ev.win_box.0, ev.win_box.1));
        if ev.erase && ev.number == 0 {
            self.erase_window(m, ev);
            return ;
        }
        let float: Option<u16> = win0_inline_float_x(m, dims, self.art_scale, ev);
        let known: bool = match &m.v6 {
            Some(v6) => (ev.window as usize) < v6.windows.len(),
            None => false,
        };
        if !known {
            return ;
        }
        if let Some(x) = float {
            if ev.erase {
                return ;
            }
            if let Some(img) = art {
                self.float_picture(m, ev, x, img);
            }
            return ;
        }
        if ev.erase {
            self.erase_picture(m, ev, dims);
        } else if let Some(img) = art {
            self.draw_picture(ev, img);
        }
    }
}

} // verus!
