//! The surface of a window: its pixels, how often they changed, and when they were last
//! drawn on.

use crate::raster::{blank, blitted, clear_pixel, clear, filled, grown, Grid, Raster};
use vstd::prelude::*;

verus! {

/// A window's surface.
#[derive(Debug)]
pub struct Canvas {
    pub img: Raster,
    /// Counts the changes of the pixels.
    pub version: u64,
    /// The place of the last drawing in the order of all drawings.
    pub z_seq: u64,
}

/// The mathematical model of a [`Canvas`].
#[verifier::ext_equal]
pub struct CanvasView {
    pub w: u32,
    pub h: u32,
    pub grid: Grid,
    pub version: u64,
    pub z_seq: u64,
}

/// The number after `n`, where counting starts again behind the largest.
pub open spec fn next(n: u64) -> u64 {
    if n == u64::MAX {
        0
    } else {
        (n + 1) as u64
    }
}

/// Counts on by one.
pub fn count_on(n: u64) -> (r: u64)
    ensures
        r == next(n),
{
    if n == u64::MAX {
        0
    } else {
        n + 1
    }
}

impl CanvasView {
    /// A blank canvas.
    pub open spec fn blank(w: u32, h: u32) -> CanvasView {
        CanvasView { w, h, grid: blank(w as nat, h as nat), version: 0, z_seq: 0 }
    }

    /// The canvas with a box cleared.
    pub open spec fn erased(self, dx: int, dy: int, w: int, h: int) -> CanvasView {
        CanvasView {
            grid: filled(self.grid, dx, dy, dx + w, dy + h, clear()),
            version: next(self.version),
            ..self
        }
    }

    /// The canvas with a picture drawn on it.
    pub open spec fn drawn(self, src: Grid, dx: int, dy: int, cw: int, ch: int) -> CanvasView {
        CanvasView {
            grid: blitted(self.grid, src, dx, dy, cw, ch),
            version: next(self.version),
            ..self
        }
    }

    /// The canvas, at least as large as asked for.
    pub open spec fn grown(self, w: u32, h: u32) -> CanvasView {
        if self.w >= w && self.h >= h {
            self
        } else {
            CanvasView {
                w: if self.w < w {
                    w
                } else {
                    self.w
                },
                h: if self.h < h {
                    h
                } else {
                    self.h
                },
                grid: grown(self.grid, self.w as int, w as int, h as int),
                version: next(self.version),
                ..self
            }
        }
    }
}

impl Canvas {
    /// The model of the canvas.
    pub open spec fn view(&self) -> CanvasView {
        CanvasView {
            w: self.img.width,
            h: self.img.height,
            grid: self.img.grid(),
            version: self.version,
            z_seq: self.z_seq,
        }
    }

    /// The pixels fit the extent.
    pub open spec fn wf(&self) -> bool {
        self.img.wf()
    }

    /// A blank canvas.
    pub fn new(w: u32, h: u32) -> (r: Canvas)
        ensures
            r.wf(),
            r@ == CanvasView::blank(w, h),
    {
        Canvas { img: Raster::new(w, h), version: 0, z_seq: 0 }
    }

    /// A canvas with the given pixels, not yet drawn on.
    pub fn of(img: Raster) -> (r: Canvas)
        requires
            img.wf(),
        ensures
            r.wf(),
            r@ == (CanvasView {
                w: img.width,
                h: img.height,
                grid: img.grid(),
                version: 0,
                z_seq: 0,
            }),
    {
        Canvas { img, version: 0, z_seq: 0 }
    }

    /// Clears the part of a box that lies on the canvas.
    pub fn erase_rect(&mut self, dx: i32, dy: i32, w: u32, h: u32)
        requires
            old(self).wf(),
        ensures
            final(self).wf(),
            final(self)@ == old(self)@.erased(dx as int, dy as int, w as int, h as int),
    {
        self.img.fill_rect(
            dx as i64,
            dy as i64,
            dx as i64 + w as i64,
            dy as i64 + h as i64,
            clear_pixel(),
        );
        self.version = count_on(self.version);
    }

    /// Draws a picture, clipped to a box at the canvas's origin.
    pub fn draw_image_clipped(&mut self, src: &Raster, dx: i32, dy: i32, clip: (u32, u32))
        requires
            old(self).wf(),
            src.wf(),
        ensures
            final(self).wf(),
            final(self)@ == old(self)@.drawn(
                src.grid(),
                dx as int,
                dy as int,
                clip.0 as int,
                clip.1 as int,
            ),
    {
        self.img.blit(src, dx as i64, dy as i64, clip);
        self.version = count_on(self.version);
    }

    /// Makes the canvas at least as large as asked for, keeping what is on it.
    pub fn grow_to(&mut self, w: u32, h: u32)
        requires
            old(self).wf(),
        ensures
            final(self).wf(),
            final(self)@ == old(self)@.grown(w, h),
    {
        if self.img.width < w || self.img.height < h {
            self.img.grow_to(w, h);
            self.version = count_on(self.version);
        }
    }

    /// A copy of the canvas.
    pub fn copy(&self) -> (r: Canvas)
        requires
            self.wf(),
        ensures
            r.wf(),
            r@ == self@,
    {
        Canvas { img: self.img.copy(), version: self.version, z_seq: self.z_seq }
    }
}

// ── Laws ──────────────────────────────────────────────────────────────────────
/// Every change of a canvas is counted: one that is drawn on, erased from or grown has another
/// count than before, and keeps its place in the order of drawings; one that is large enough
/// already does not change.
pub proof fn every_change_is_counted(
    c: CanvasView,
    src: Grid,
    x: int,
    y: int,
    w: int,
    h: int,
    nw: u32,
    nh: u32,
)
    ensures
        c.erased(x, y, w, h).version != c.version,
        c.drawn(src, x, y, w, h).version != c.version,
        c.grown(nw, nh) == c || c.grown(nw, nh).version != c.version,
        c.w < nw || c.h < nh ==> c.grown(nw, nh).version != c.version,
        c.w >= nw && c.h >= nh ==> c.grown(nw, nh) == c,
        c.erased(x, y, w, h).z_seq == c.z_seq,
        c.drawn(src, x, y, w, h).z_seq == c.z_seq,
        c.grown(nw, nh).z_seq == c.z_seq,
        c.erased(x, y, w, h).w == c.w && c.erased(x, y, w, h).h == c.h,
        c.drawn(src, x, y, w, h).w == c.w && c.drawn(src, x, y, w, h).h == c.h,
        c.grown(nw, nh).w >= nw && c.grown(nw, nh).h >= nh,
{
}

} // verus!
