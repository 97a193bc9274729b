//! Pixel surfaces: filling, blitting, growing and comparing.

use vstd::prelude::*;

verus! {

/// One pixel: red, green, blue and opacity.
#[derive(Clone, Copy, Debug, PartialEq, Eq, Structural)]
pub struct Rgba {
    pub r: u8,
    pub g: u8,
    pub b: u8,
    pub a: u8,
}

/// A pixel that nothing was drawn on.
pub open spec fn clear() -> Rgba {
    Rgba { r: 0, g: 0, b: 0, a: 0 }
}

/// Makes a pixel that nothing was drawn on.
pub fn clear_pixel() -> (r: Rgba)
    ensures
        r == clear(),
{
    Rgba { r: 0, g: 0, b: 0, a: 0 }
}

/// The mathematical model of a surface: its rows of pixels, from the top.
pub type Grid = Seq<Seq<Rgba>>;

/// A surface of `width` × `height` pixels.
#[derive(Debug)]
pub struct Raster {
    pub width: u32,
    pub height: u32,
    pub rows: Vec<Vec<Rgba>>,
}

/// Whether a grid has the given extent.
pub open spec fn has_extent(g: Grid, w: int, h: int) -> bool {
    g.len() == h && forall|y: int| 0 <= y < h ==> (#[trigger] g[y]).len() == w
}

/// A grid of pixels that nothing was drawn on.
pub open spec fn blank(w: nat, h: nat) -> Grid {
    Seq::new(h, |y: int| Seq::new(w, |x: int| clear()))
}

/// Whether a point lies in the box from `(x0, y0)` up to, not including, `(x1, y1)`.
pub open spec fn in_box(x: int, y: int, x0: int, y0: int, x1: int, y1: int) -> bool {
    x0 <= x < x1 && y0 <= y < y1
}

/// The grid with the part of a box that lies on it painted in one colour.
pub open spec fn filled(g: Grid, x0: int, y0: int, x1: int, y1: int, c: Rgba) -> Grid {
    Seq::new(
        g.len(),
        |y: int|
            Seq::new(
                g[y].len(),
                |x: int|
                    if in_box(x, y, x0, y0, x1, y1) {
                        c
                    } else {
                        g[y][x]
                    },
            ),
    )
}

/// Whether a picture placed at `(dx, dy)` paints the point: the point lies in the clip, the
/// picture reaches it, and the picture's pixel there is not transparent.
pub open spec fn paints(src: Grid, dx: int, dy: int, cw: int, ch: int, x: int, y: int) -> bool {
    &&& in_box(x, y, 0, 0, cw, ch)
    &&& 0 <= y - dy < src.len()
    &&& 0 <= x - dx < src[y - dy].len()
    &&& src[y - dy][x - dx].a != 0
}

/// The grid with a picture drawn at `(dx, dy)`, clipped to `cw` × `ch`.
pub open spec fn blitted(g: Grid, src: Grid, dx: int, dy: int, cw: int, ch: int) -> Grid {
    Seq::new(
        g.len(),
        |y: int|
            Seq::new(
                g[y].len(),
                |x: int|
                    if paints(src, dx, dy, cw, ch, x, y) {
                        src[y - dy][x - dx]
                    } else {
                        g[y][x]
                    },
            ),
    )
}

/// The grid on a surface of at least `w` × `h`: what was there keeps its place, and what is
/// new is blank.
pub open spec fn grown(g: Grid, gw: int, w: int, h: int) -> Grid {
    let nw = if gw < w { w } else { gw };
    let nh = if g.len() < h { h } else { g.len() as int };
    Seq::new(
        nh as nat,
        |y: int|
            Seq::new(
                nw as nat,
                |x: int|
                    if y < g.len() && x < gw {
                        g[y][x]
                    } else {
                        clear()
                    },
            ),
    )
}

/// Whether the point of a ground is covered by a piece of a picture: the picture's point
/// that falls on it lies in the piece and is not transparent.
pub open spec fn covers(src: Grid, x0: int, y0: int, x1: int, y1: int, sx: int, sy: int) -> bool {
    &&& in_box(sx, sy, x0, y0, x1, y1)
    &&& 0 <= sy < src.len()
    &&& 0 <= sx < src[sy].len()
    &&& src[sy][sx].a != 0
}

/// The ground with the piece of a picture from `(x0, y0)` to `(x1, y1)` put on it, where the
/// picture's origin falls on `(ox, oy)`.
pub open spec fn stamped(
    g: Grid,
    src: Grid,
    x0: int,
    y0: int,
    x1: int,
    y1: int,
    ox: int,
    oy: int,
) -> Grid {
    Seq::new(
        g.len(),
        |y: int|
            Seq::new(
                g[y].len(),
                |x: int|
                    if covers(src, x0, y0, x1, y1, x - ox, y - oy) {
                        src[y - oy][x - ox]
                    } else {
                        g[y][x]
                    },
            ),
    )
}

/// Paints the pixels of a row from `x0` up to, not including, `x1`.
fn fill_row(row: &mut Vec<Rgba>, x0: usize, x1: usize, c: Rgba)
    requires
        x0 <= x1 <= old(row)@.len(),
    ensures
        final(row)@ == Seq::new(
            old(row)@.len(),
            |x: int|
                if x0 <= x < x1 {
                    c
                } else {
                    old(row)@[x]
                },
        ),
{
    let mut x: usize = x0;
    while x < x1
        invariant
            x0 <= x <= x1 <= old(row)@.len(),
            row@.len() == old(row)@.len(),
            forall|i: int|
                0 <= i < row@.len() ==> #[trigger] row@[i] == if x0 <= i < x {
                    c
                } else {
                    old(row)@[i]
                },
        decreases x1 - x,
    {
        row.set(x, c);
        x = x + 1;
    }
    assert(row@ =~= Seq::new(
        old(row)@.len(),
        |x: int|
            if x0 <= x < x1 {
                c
            } else {
                old(row)@[x]
            },
    ));
}

/// The whole number nearest to `v` in the range from 0 to `hi`.
fn clamp_index(v: i64, hi: usize) -> (r: usize)
    ensures
        r <= hi,
        0 <= v <= hi ==> r == v,
        v < 0 ==> r == 0,
        v > hi ==> r == hi,
{
    if v <= 0 {
        0
    } else if (v as u64) as u128 > hi as u128 {
        hi
    } else {
        v as usize
    }
}

impl Raster {
    /// The pixels, as rows.
    pub open spec fn grid(&self) -> Grid {
        self.rows@.map_values(|r: Vec<Rgba>| r@)
    }

    /// Every row is as long as the surface is wide, and there are as many rows as it is high.
    pub open spec fn wf(&self) -> bool {
        has_extent(self.grid(), self.width as int, self.height as int)
    }

    /// A blank surface.
    pub fn new(width: u32, height: u32) -> (r: Raster)
        ensures
            r.wf(),
            r.width == width,
            r.height == height,
            r.grid() == blank(width as nat, height as nat),
    {
        let mut rows: Vec<Vec<Rgba>> = Vec::new();
        let mut y: u32 = 0;
        while y < height
            invariant
                y <= height,
                rows@.len() == y,
                forall|j: int| 0 <= j < y ==> (#[trigger] rows@[j])@.len() == width,
                forall|j: int, i: int|
                    0 <= j < y && 0 <= i < width ==> #[trigger] rows@[j]@[i] == clear(),
            decreases height - y,
        {
            let mut row: Vec<Rgba> = Vec::new();
            let mut x: u32 = 0;
            while x < width
                invariant
                    x <= width,
                    row@.len() == x,
                    forall|i: int| 0 <= i < x ==> #[trigger] row@[i] == clear(),
                decreases width - x,
            {
                row.push(clear_pixel());
                x = x + 1;
            }
            rows.push(row);
            y = y + 1;
        }
        let r = Raster { width, height, rows };
        assert(r.grid() =~~= blank(width as nat, height as nat));
        r
    }

    /// The pixel at a point of the surface.
    pub fn get(&self, x: u32, y: u32) -> (r: Rgba)
        requires
            self.wf(),
            x < self.width,
            y < self.height,
        ensures
            r == self.grid()[y as int][x as int],
    {
        assert(self.grid()[y as int] == self.rows@[y as int]@);
        self.rows[y as usize][x as usize]
    }

    /// Paints the part of a box that lies on the surface.
    pub fn fill_rect(&mut self, x0: i64, y0: i64, x1: i64, y1: i64, c: Rgba)
        requires
            old(self).wf(),
        ensures
            final(self).wf(),
            final(self).width == old(self).width,
            final(self).height == old(self).height,
            final(self).grid() == filled(
                old(self).grid(),
                x0 as int,
                y0 as int,
                x1 as int,
                y1 as int,
                c,
            ),
    {
        let ghost g = self.grid();
        assert(forall|j: int| 0 <= j < g.len() ==> #[trigger] g[j] == self.rows@[j]@);
        let left: usize = clamp_index(x0, self.width as usize);
        let mut right: usize = clamp_index(x1, self.width as usize);
        if right < left {
            right = left;
        }
        let top: usize = clamp_index(y0, self.height as usize);
        let bottom: usize = clamp_index(y1, self.height as usize);
        let mut y: usize = top;
        while y < bottom
            invariant
                top <= y,
                y <= bottom || y == top,
                bottom <= self.height,
                left <= right <= self.width,
                self.width == old(self).width,
                self.height == old(self).height,
                self.rows@.len() == self.height,
                g == old(self).grid(),
                has_extent(g, self.width as int, self.height as int),
                forall|j: int|
                    0 <= j < self.height && !(top <= j < y) ==> (#[trigger] self.rows@[j])@ == g[j],
                forall|j: int|
                    0 <= j < self.height && top <= j < y ==> (#[trigger] self.rows@[j])@ == Seq::new(
                        g[j].len(),
                        |x: int|
                            if left <= x < right {
                                c
                            } else {
                                g[j][x]
                            },
                    ),
            decreases bottom - y,
        {
            let row = &mut self.rows[y];
            fill_row(row, left, right, c);
            y = y + 1;
        }
        proof {
            let f = filled(g, x0 as int, y0 as int, x1 as int, y1 as int, c);
            assert forall|j: int| 0 <= j < self.height implies #[trigger] self.rows@[j]@ =~= f[j] by {
                assert(g[j].len() == self.width);
            }
            assert(self.grid() =~= f);
        }
    }

    /// Draws a picture at `(dx, dy)`, clipped to `clip`, leaving what lies under its
    /// transparent pixels.
    pub fn blit(&mut self, src: &Raster, dx: i64, dy: i64, clip: (u32, u32))
        requires
            old(self).wf(),
            src.wf(),
            -0x1_0000_0000 <= dx <= 0x1_0000_0000,
            -0x1_0000_0000 <= dy <= 0x1_0000_0000,
        ensures
            final(self).wf(),
            final(self).width == old(self).width,
            final(self).height == old(self).height,
            final(self).grid() == blitted(
                old(self).grid(),
                src.grid(),
                dx as int,
                dy as int,
                clip.0 as int,
                clip.1 as int,
            ),
    {
        let ghost g = self.grid();
        let ghost s = src.grid();
        let ghost f = blitted(g, s, dx as int, dy as int, clip.0 as int, clip.1 as int);
        assert(forall|j: int| 0 <= j < g.len() ==> #[trigger] g[j] == self.rows@[j]@);
        assert(forall|j: int| 0 <= j < s.len() ==> #[trigger] s[j] == src.rows@[j]@);
        let mut y: u32 = 0;
        while y < self.height
            invariant
                y <= self.height,
                self.width == old(self).width,
                self.height == old(self).height,
                self.rows@.len() == self.height,
                src.wf(),
                s == src.grid(),
                forall|j: int| 0 <= j < s.len() ==> #[trigger] s[j] == src.rows@[j]@,
                -0x1_0000_0000 <= dx <= 0x1_0000_0000,
                -0x1_0000_0000 <= dy <= 0x1_0000_0000,
                has_extent(g, self.width as int, self.height as int),
                f == blitted(g, s, dx as int, dy as int, clip.0 as int, clip.1 as int),
                forall|j: int| 0 <= j < y ==> (#[trigger] self.rows@[j])@ == f[j],
                forall|j: int| y <= j < self.height ==> (#[trigger] self.rows@[j])@ == g[j],
            decreases self.height - y,
        {
            let sy: i64 = y as i64 - dy;
            let ghost rows_before = self.rows@;
            if y < clip.1 && 0 <= sy && sy < src.height as i64 {
                let from: &Vec<Rgba> = &src.rows[sy as usize];
                let row = &mut self.rows[y as usize];
                let ghost row0 = row@;
                let mut x: u32 = 0;
                let w: u32 = self.width;
                while x < w
                    invariant
                        x <= w,
                        row@.len() == w,
                        row0.len() == w,
                        row0 == g[y as int],
                        w == f[y as int].len(),
                        y < clip.1,
                        y < g.len(),
                        from@ == s[sy as int],
                        sy == y - dy,
                        0 <= sy < s.len(),
                        -0x1_0000_0000 <= dx <= 0x1_0000_0000,
                        f == blitted(g, s, dx as int, dy as int, clip.0 as int, clip.1 as int),
                        from@.len() == src.width,
                        forall|i: int| 0 <= i < x ==> #[trigger] row@[i] == f[y as int][i],
                        forall|i: int| x <= i < w ==> #[trigger] row@[i] == row0[i],
                    decreases w - x,
                {
                    let sx: i64 = x as i64 - dx;
                    if x < clip.0 && 0 <= sx && sx < src.width as i64 {
                        let c: Rgba = from[sx as usize];
                        if c.a != 0 {
                            row.set(x as usize, c);
                        }
                    }
                    x = x + 1;
                }
                assert(row@ =~= f[y as int]);
            } else {
                assert(self.rows@[y as int]@ =~= f[y as int]);
            }
            y = y + 1;
        }
        assert(self.grid() =~= f);
    }

    /// Puts a piece of a picture on the surface, leaving what lies under its transparent
    /// pixels. The piece is the box `(x, y, w, h)` of the picture, and the picture's origin
    /// falls on `(ox, oy)`.
    pub fn stamp(&mut self, src: &Raster, piece: (u32, u32, u32, u32), ox: u32, oy: u32)
        requires
            old(self).wf(),
            src.wf(),
        ensures
            final(self).wf(),
            final(self).width == old(self).width,
            final(self).height == old(self).height,
            final(self).grid() == stamped(
                old(self).grid(),
                src.grid(),
                piece.0 as int,
                piece.1 as int,
                piece.0 + piece.2,
                piece.1 + piece.3,
                ox as int,
                oy as int,
            ),
    {
        let ghost g = self.grid();
        let ghost s = src.grid();
        let x1: i64 = piece.0 as i64 + piece.2 as i64;
        let y1: i64 = piece.1 as i64 + piece.3 as i64;
        let ghost f = stamped(
            g,
            s,
            piece.0 as int,
            piece.1 as int,
            x1 as int,
            y1 as int,
            ox as int,
            oy as int,
        );
        assert(forall|j: int| 0 <= j < g.len() ==> #[trigger] g[j] == self.rows@[j]@);
        assert(forall|j: int| 0 <= j < s.len() ==> #[trigger] s[j] == src.rows@[j]@);
        let mut y: u32 = 0;
        while y < self.height
            invariant
                y <= self.height,
                self.width == old(self).width,
                self.height == old(self).height,
                self.rows@.len() == self.height,
                src.wf(),
                s == src.grid(),
                forall|j: int| 0 <= j < s.len() ==> #[trigger] s[j] == src.rows@[j]@,
                x1 == piece.0 + piece.2,
                y1 == piece.1 + piece.3,
                has_extent(g, self.width as int, self.height as int),
                f == stamped(
                    g,
                    s,
                    piece.0 as int,
                    piece.1 as int,
                    x1 as int,
                    y1 as int,
                    ox as int,
                    oy as int,
                ),
                forall|j: int| 0 <= j < y ==> (#[trigger] self.rows@[j])@ == f[j],
                forall|j: int| y <= j < self.height ==> (#[trigger] self.rows@[j])@ == g[j],
            decreases self.height - y,
        {
            let sy: i64 = y as i64 - oy as i64;
            if piece.1 as i64 <= sy && sy < y1 && sy < src.height as i64 {
                let from: &Vec<Rgba> = &src.rows[sy as usize];
                assert(s[sy as int] == from@);
                let row = &mut self.rows[y as usize];
                let ghost row0 = row@;
                let mut x: u32 = 0;
                let w: u32 = self.width;
                while x < w
                    invariant
                        x <= w,
                        row@.len() == w,
                        row0.len() == w,
                        row0 == g[y as int],
                        w == f[y as int].len(),
                        y < g.len(),
                        from@ == s[sy as int],
                        sy == y - oy,
                        0 <= sy < s.len(),
                        piece.1 <= sy < y1,
                        x1 == piece.0 + piece.2,
                        f == stamped(
                            g,
                            s,
                            piece.0 as int,
                            piece.1 as int,
                            x1 as int,
                            y1 as int,
                            ox as int,
                            oy as int,
                        ),
                        from@.len() == src.width,
                        forall|i: int| 0 <= i < x ==> #[trigger] row@[i] == f[y as int][i],
                        forall|i: int| x <= i < w ==> #[trigger] row@[i] == row0[i],
                    decreases w - x,
                {
                    let sx: i64 = x as i64 - ox as i64;
                    if piece.0 as i64 <= sx && sx < x1 && sx < src.width as i64 {
                        let c: Rgba = from[sx as usize];
                        if c.a != 0 {
                            row.set(x as usize, c);
                        }
                    }
                    x = x + 1;
                }
                assert(row@ =~= f[y as int]);
            } else {
                assert(self.rows@[y as int]@ =~= f[y as int]);
            }
            y = y + 1;
        }
        assert(self.grid() =~= f);
    }

    /// Makes the surface at least `w` × `h`, keeping what is on it.
    pub fn grow_to(&mut self, w: u32, h: u32)
        requires
            old(self).wf(),
        ensures
            final(self).wf(),
            final(self).width == if old(self).width < w {
                w
            } else {
                old(self).width
            },
            final(self).height == if old(self).height < h {
                h
            } else {
                old(self).height
            },
            final(self).grid() == grown(
                old(self).grid(),
                old(self).width as int,
                w as int,
                h as int,
            ),
    {
        let nw: u32 = if self.width < w {
            w
        } else {
            self.width
        };
        let nh: u32 = if self.height < h {
            h
        } else {
            self.height
        };
        let mut bigger = Raster::new(nw, nh);
        let ghost g = self.grid();
        let ghost f = grown(g, self.width as int, w as int, h as int);
        assert(forall|j: int| 0 <= j < g.len() ==> #[trigger] g[j] == self.rows@[j]@);
        assert forall|j: int| 0 <= j < nh implies (#[trigger] bigger.rows@[j])@ == Seq::new(
            nw as nat,
            |x: int| clear(),
        ) by {
            assert(bigger.grid()[j] == bigger.rows@[j]@);
        }
        let mut y: u32 = 0;
        while y < self.height
            invariant
                y <= self.height <= nh,
                self.width <= nw,
                self.wf(),
                g == self.grid(),
                forall|j: int| 0 <= j < g.len() ==> #[trigger] g[j] == self.rows@[j]@,
                bigger.rows@.len() == nh,
                f.len() == nh,
                f == grown(g, self.width as int, w as int, h as int),
                forall|j: int| 0 <= j < nh ==> (#[trigger] f[j]).len() == nw,
                forall|j: int| 0 <= j < y ==> (#[trigger] bigger.rows@[j])@ == f[j],
                forall|j: int|
                    y <= j < nh ==> (#[trigger] bigger.rows@[j])@ == Seq::new(
                        nw as nat,
                        |x: int| clear(),
                    ),
            decreases self.height - y,
        {
            let row = &mut bigger.rows[y as usize];
            let from: &Vec<Rgba> = &self.rows[y as usize];
            assert(g[y as int] == from@);
            let mut x: u32 = 0;
            while x < self.width
                invariant
                    x <= self.width <= nw,
                    y < self.height,
                    row@.len() == nw,
                    from@ == g[y as int],
                    from@.len() == self.width,
                    g.len() == self.height,
                    y < f.len(),
                    f == grown(g, self.width as int, w as int, h as int),
                    f[y as int].len() == nw,
                    forall|i: int| 0 <= i < x ==> #[trigger] row@[i] == f[y as int][i],
                    forall|i: int| x <= i < nw ==> #[trigger] row@[i] == clear(),
                decreases self.width - x,
            {
                row.set(x as usize, from[x as usize]);
                x = x + 1;
            }
            assert(row@ =~= f[y as int]);
            y = y + 1;
        }
        assert forall|j: int| 0 <= j < nh implies (#[trigger] bigger.rows@[j])@ =~= f[j] by {}
        bigger.width = nw;
        bigger.height = nh;
        assert(bigger.grid() =~= f);
        *self = bigger;
    }

    /// Compares the extents and the pixels of two surfaces.
    pub fn same_as(&self, other: &Raster) -> (r: bool)
        requires
            self.wf(),
            other.wf(),
        ensures
            r == (self.width == other.width && self.height == other.height && self.grid()
                == other.grid()),
    {
        if self.width != other.width || self.height != other.height {
            return false;
        }
        let ghost a = self.grid();
        let ghost b = other.grid();
        assert(forall|j: int| 0 <= j < a.len() ==> #[trigger] a[j] == self.rows@[j]@);
        assert(forall|j: int| 0 <= j < b.len() ==> #[trigger] b[j] == other.rows@[j]@);
        let mut y: u32 = 0;
        while y < self.height
            invariant
                y <= self.height,
                self.wf(),
                other.wf(),
                a == self.grid(),
                b == other.grid(),
                self.width == other.width,
                self.height == other.height,
                forall|j: int| 0 <= j < a.len() ==> #[trigger] a[j] == self.rows@[j]@,
                forall|j: int| 0 <= j < b.len() ==> #[trigger] b[j] == other.rows@[j]@,
                forall|j: int| 0 <= j < y ==> #[trigger] a[j] == b[j],
            decreases self.height - y,
        {
            let p: &Vec<Rgba> = &self.rows[y as usize];
            let q: &Vec<Rgba> = &other.rows[y as usize];
            assert(p@ == a[y as int] && q@ == b[y as int]);
            let mut x: u32 = 0;
            while x < self.width
                invariant
                    x <= self.width,
                    p@.len() == self.width,
                    q@.len() == self.width,
                    a == self.grid(),
                    b == other.grid(),
                    y < a.len(),
                    y < b.len(),
                    p@ == a[y as int],
                    q@ == b[y as int],
                    forall|i: int| 0 <= i < x ==> #[trigger] p@[i] == q@[i],
                decreases self.width - x,
            {
                if p[x as usize] != q[x as usize] {
                    assert(a[y as int][x as int] != b[y as int][x as int]);
                    return false;
                }
                x = x + 1;
            }
            assert(p@ =~= q@);
            y = y + 1;
        }
        assert(a =~= b);
        true
    }

    /// A copy of the surface.
    pub fn copy(&self) -> (r: Raster)
        requires
            self.wf(),
        ensures
            r.wf(),
            r.width == self.width,
            r.height == self.height,
            r.grid() == self.grid(),
    {
        let mut rows: Vec<Vec<Rgba>> = Vec::new();
        let mut y: usize = 0;
        while y < self.rows.len()
            invariant
                y <= self.rows@.len(),
                rows@.len() == y,
                forall|j: int| 0 <= j < y ==> (#[trigger] rows@[j])@ == self.rows@[j]@,
            decreases self.rows.len() - y,
        {
            let mut row: Vec<Rgba> = Vec::new();
            let src: &Vec<Rgba> = &self.rows[y];
            let mut x: usize = 0;
            while x < src.len()
                invariant
                    x <= src@.len(),
                    row@ == src@.take(x as int),
                decreases src.len() - x,
            {
                row.push(src[x]);
                x = x + 1;
            }
            assert(row@ =~= src@);
            rows.push(row);
            y = y + 1;
        }
        let r = Raster { width: self.width, height: self.height, rows };
        assert(r.grid() =~= self.grid());
        r
    }
}

} // verus!
