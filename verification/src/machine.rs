//! What the session reads of the interpreter: its header, its screen and its windows.

use vstd::prelude::*;

verus! {

/// One character on a grid, with its style and its packed colours; colour zero is the
/// page's own.
#[derive(Clone, Copy, Debug, PartialEq, Eq, Structural)]
pub struct CharCell {
    pub ch: char,
    pub style: u8,
    pub fg: u32,
    pub bg: u32,
}

/// A grid of characters.
#[derive(Debug)]
pub struct CharGrid {
    pub cols: u16,
    pub rows: u16,
    pub cells: Vec<CharCell>,
}

/// A run of text painted on the screen, at a position counted from one, in pixels.
#[derive(Debug)]
pub struct PaintRun {
    pub y: u16,
    pub x: u16,
    pub text: String,
    pub style: u8,
    pub fg: u32,
    pub bg: u32,
    /// The row and the column it was painted at.
    pub grow: u16,
    pub gcol: u16,
    /// How wide the pen made it.
    pub width_px: u32,
}

/// A window. Positions are counted from one, in pixels; colours are packed, and zero is
/// the page's own.
#[derive(Debug)]
pub struct ZWindow {
    pub x_coord: u16,
    pub y_coord: u16,
    pub x_size: u16,
    pub y_size: u16,
    pub x_cursor: u16,
    pub y_cursor: u16,
    pub left_margin: u16,
    pub right_margin: u16,
    /// Wrapping, scrolling, copying to the transcript and buffering, from the lowest bit.
    pub attributes: u16,
    pub font_number: u16,
    /// The height of the font, times 256, and its width.
    pub font_size: u16,
    pub fg: u32,
    pub bg: u32,
    pub grid: CharGrid,
    /// Text painted at positions.
    pub texts: Vec<PaintRun>,
    /// Text that stayed behind when the window was moved.
    pub retired: Vec<PaintRun>,
    /// Where the text that flowed through the window is sitting.
    pub streamed: Vec<PaintRun>,
    /// The lines of text that flow in the window and not in the transcript.
    pub prose: Vec<String>,
    /// Whether text that flows through the window stays in the window.
    pub diverts_prose: bool,
    /// Where the next character would be printed.
    pub pen: (u16, u16),
    /// Where the last burst of flowing text began.
    pub stream_origin: Option<(u16, u16)>,
}

/// The windows of a screen.
#[derive(Debug)]
pub struct V6Windows {
    pub windows: Vec<ZWindow>,
    pub current: u8,
}

/// The right half of an automatic status line.
#[derive(Clone, Copy, Debug, PartialEq, Eq, Structural)]
pub enum StatusRight {
    ScoreTurns { score: i16, turns: u16 },
    Time { hours: u8, minutes: u8 },
}

/// An automatic status line.
#[derive(Debug)]
pub struct StatusLine {
    pub location: String,
    pub right: StatusRight,
}

/// The interpreter, as the session sees it.
#[derive(Debug)]
pub struct Machine {
    /// The version of the story file.
    pub version: u8,
    /// The header's word of requests.
    pub flags2: u16,
    /// The screen's size in characters, as the header states it.
    pub screen_rows: u8,
    pub screen_cols: u8,
    /// The screen's size in pixels, as the header states it; zero is unset.
    pub screen_w_px: u16,
    pub screen_h_px: u16,
    /// How many characters the story window has taken.
    pub win0_out_chars: u64,
    /// The window that input is read through.
    pub input_window: u8,
    /// The size of a character in pixels.
    pub cell: (u16, u16),
    /// The windows of a screen that has more than two.
    pub v6: Option<V6Windows>,
    /// Advances with every change of the windows.
    pub v6_generation: u64,
    /// The packed ink and page of a machine with one pair for the whole screen.
    pub page_pair: Option<(u32, u32)>,
    /// The upper window of a screen with two.
    pub upper: CharGrid,
    /// How many rows the game asked for when it split the screen.
    pub upper_window_rows: u16,
    pub cursor_row: u16,
    pub cursor_col: u16,
    pub current_window: u8,
    /// The packed colours that text is printed in.
    pub current_fg: u32,
    pub current_bg: u32,
    /// What the colours are called.
    pub current_fg_name: String,
    pub current_bg_name: String,
    /// Whether output is buffered.
    pub buffer_mode: bool,
    pub status_line: StatusLine,
    /// The codes of the keys that end a line read.
    pub terminators: Vec<u16>,
}

/// The size of the screen where nothing states it, in pixels.
pub const ERA_SCREEN_W: u32 = 640;

/// The height of the screen where nothing states it, in pixels.
pub const ERA_SCREEN_H: u32 = 400;

/// The larger of two numbers.
pub open spec fn larger(a: int, b: int) -> int {
    if a < b {
        b
    } else {
        a
    }
}

/// The smaller of two numbers.
pub open spec fn smaller(a: int, b: int) -> int {
    if a < b {
        a
    } else {
        b
    }
}

/// A coordinate counted from one, counted from zero; a coordinate of zero stays.
pub open spec fn from_zero(n: u16) -> u16 {
    if n == 0 {
        0
    } else {
        (n - 1) as u16
    }
}

/// The visible length of a box on a screen: what is left of the screen behind the box's
/// position, at most. A length with its highest bit set is no length but an unresolved
/// mark, and stays; a screen without a stated size clips nothing.
pub open spec fn clipped(size: u16, pos: u16, screen: u16) -> u16 {
    let s = if screen == 0 {
        0xffffu16
    } else {
        screen
    };
    let room = if s < pos {
        0u16
    } else {
        (s - pos) as u16
    };
    if size >= 0x8000 || size <= room {
        size
    } else {
        room
    }
}

/// Clips a length to the screen.
fn clip(size: u16, pos: u16, screen: u16) -> (r: u16)
    ensures
        r == clipped(size, pos, screen),
{
    let s: u16 = if screen == 0 {
        0xffff
    } else {
        screen
    };
    let room: u16 = s.saturating_sub(pos);
    if size >= 0x8000 || size <= room {
        size
    } else {
        room
    }
}

impl Machine {
    /// The window's number names a window, and a character has a size.
    pub open spec fn wf(&self) -> bool {
        &&& self.cell.0 > 0
        &&& self.cell.1 > 0
        &&& self.v6 matches Some(v6) ==> v6.current < v6.windows@.len() <= 256
    }

    /// Whether the screen has the window.
    pub open spec fn has_window(&self, win: u8) -> bool {
        self.v6 matches Some(v6) && win < v6.windows@.len()
    }

    /// The window.
    pub open spec fn window(&self, win: u8) -> ZWindow {
        self.v6->0.windows@[win as int]
    }

    /// The extent of the screen in its own pixels: what the header states, or else the box
    /// of the story window, or else what the era took for granted. A stated extent is one
    /// of more than a pixel either way.
    pub open spec fn native_extent(&self) -> (u32, u32) {
        if self.screen_w_px > 1 && self.screen_h_px > 1 {
            (self.screen_w_px as u32, self.screen_h_px as u32)
        } else if self.has_window(0) && self.window(0).x_size > 1 && self.window(0).y_size > 1 {
            (self.window(0).x_size as u32, self.window(0).y_size as u32)
        } else {
            (ERA_SCREEN_W, ERA_SCREEN_H)
        }
    }

    /// The extent of the screen in its own pixels.
    pub fn v6_native_extent(&self) -> (r: (u32, u32))
        ensures
            r == self.native_extent(),
    {
        if self.screen_w_px > 1 && self.screen_h_px > 1 {
            return (self.screen_w_px as u32, self.screen_h_px as u32);
        }
        if let Some(v6) = &self.v6 {
            if v6.windows.len() > 0 {
                let w = &v6.windows[0];
                if w.x_size > 1 && w.y_size > 1 {
                    return (w.x_size as u32, w.y_size as u32);
                }
            }
        }
        (ERA_SCREEN_W, ERA_SCREEN_H)
    }

    /// The extent of the screen that pictures are measured against: what the header states,
    /// or the classic 320 × 200 where it is silent.
    pub open spec fn screen_px(&self) -> (u32, u32) {
        (
            if self.screen_w_px == 0 {
                320u32
            } else {
                self.screen_w_px as u32
            },
            if self.screen_h_px == 0 {
                200u32
            } else {
                self.screen_h_px as u32
            },
        )
    }

    /// The extent of the screen that pictures are measured against.
    pub fn v6_screen_px(&self) -> (r: (u32, u32))
        ensures
            r == self.screen_px(),
    {
        (
            if self.screen_w_px == 0 {
                320
            } else {
                self.screen_w_px as u32
            },
            if self.screen_h_px == 0 {
                200
            } else {
                self.screen_h_px as u32
            },
        )
    }

    /// The part of a window's box that lies on the screen.
    pub open spec fn clip_box(&self, x_px: u16, y_px: u16, x_size: u16, y_size: u16) -> (u16, u16) {
        (clipped(x_size, x_px, self.screen_w_px), clipped(y_size, y_px, self.screen_h_px))
    }

    /// The part of a window's box that lies on the screen. A game may size a window past
    /// the screen to measure text in it; only the part that exists is shown.
    pub fn v6_clip_box(&self, x_px: u16, y_px: u16, x_size: u16, y_size: u16) -> (r: (u16, u16))
        ensures
            r == self.clip_box(x_px, y_px, x_size, y_size),
    {
        (clip(x_size, x_px, self.screen_w_px), clip(y_size, y_px, self.screen_h_px))
    }

    /// Where a window stands, counted from one.
    pub open spec fn origin(&self, win: u8) -> Option<(u16, u16)> {
        if self.has_window(win) {
            let w = self.window(win);
            Some((larger(w.x_coord as int, 1) as u16, larger(w.y_coord as int, 1) as u16))
        } else {
            None
        }
    }

    /// Where a window stands, counted from one.
    pub fn window_origin(&self, win: u8) -> (r: Option<(u16, u16)>)
        ensures
            r == self.origin(win),
    {
        if let Some(v6) = &self.v6 {
            if (win as usize) < v6.windows.len() {
                let w = &v6.windows[win as usize];
                let x: u16 = if w.x_coord < 1 {
                    1
                } else {
                    w.x_coord
                };
                let y: u16 = if w.y_coord < 1 {
                    1
                } else {
                    w.y_coord
                };
                return Some((x, y));
            }
        }
        None
    }

    /// The box of a window on the screen, counted from zero: its position and its size.
    pub open spec fn screen_rect(&self, win: u8) -> Option<(u32, u32, u32, u32)> {
        if self.has_window(win) {
            let w = self.window(win);
            Some(
                (
                    from_zero(w.x_coord) as u32,
                    from_zero(w.y_coord) as u32,
                    w.x_size as u32,
                    w.y_size as u32,
                ),
            )
        } else {
            None
        }
    }

    /// The box of a window on the screen, counted from zero.
    pub fn window_screen_rect(&self, win: u8) -> (r: Option<(u32, u32, u32, u32)>)
        ensures
            r == self.screen_rect(win),
    {
        if let Some(v6) = &self.v6 {
            if (win as usize) < v6.windows.len() {
                let w = &v6.windows[win as usize];
                return Some(
                    (
                        w.x_coord.saturating_sub(1) as u32,
                        w.y_coord.saturating_sub(1) as u32,
                        w.x_size as u32,
                        w.y_size as u32,
                    ),
                );
            }
        }
        None
    }

    /// Whether the story wants the mouse: bit 5 of the header's word of requests.
    pub open spec fn asks_for_mouse(&self) -> bool {
        self.flags2 & 0x20 != 0
    }

    /// Whether a key ends a line read.
    pub fn is_terminator(&self, ch: u16) -> (r: bool)
        ensures
            r == self.terminators@.contains(ch),
    {
        let mut i: usize = 0;
        while i < self.terminators.len()
            invariant
                i <= self.terminators@.len(),
                forall|j: int| 0 <= j < i ==> self.terminators@[j] != ch,
            decreases self.terminators.len() - i,
        {
            if self.terminators[i] == ch {
                assert(self.terminators@[i as int] == ch);
                return true;
            }
            i = i + 1;
        }
        false
    }
}

/// What is shown of a window never reaches past a screen with a stated size, unless its
/// length is an unresolved mark.
pub proof fn a_clipped_box_stays_on_screen(size: u16, pos: u16, screen: u16)
    requires
        screen > 0,
        size < 0x8000,
    ensures
        clipped(size, pos, screen) <= size,
        pos <= screen ==> pos + clipped(size, pos, screen) <= screen,
        pos > screen ==> clipped(size, pos, screen) == 0,
{
}

/// The extent of a screen is what its header states, the width first, where it states more
/// than a point either way; otherwise that of the story window; and otherwise 640 by 400.
pub proof fn a_screen_has_the_extent_stated(m: &Machine)
    ensures
        m.screen_w_px > 1 && m.screen_h_px > 1 ==> m.native_extent().0 == m.screen_w_px
            && m.native_extent().1 == m.screen_h_px,
        !(m.screen_w_px > 1 && m.screen_h_px > 1) && m.has_window(0) && m.window(0).x_size > 1
            && m.window(0).y_size > 1 ==> m.native_extent().0 == m.window(0).x_size
            && m.native_extent().1 == m.window(0).y_size,
        !(m.screen_w_px > 1 && m.screen_h_px > 1) && !(m.has_window(0) && m.window(0).x_size > 1
            && m.window(0).y_size > 1) ==> m.native_extent().0 == 640 && m.native_extent().1 == 400,
        m.screen_w_px > 0 ==> m.screen_px().0 == m.screen_w_px,
        m.screen_h_px > 0 ==> m.screen_px().1 == m.screen_h_px,
        m.screen_w_px == 0 ==> m.screen_px().0 == 320,
        m.screen_h_px == 0 ==> m.screen_px().1 == 200,
{
}

/// A window stands where it was put, counted from one, the column first; and its box on the
/// screen is the same place, counted from zero, with its width and its height.
pub proof fn a_window_stands_where_it_was_put(m: &Machine, win: u8)
    requires
        m.has_window(win),
    ensures
        ({
            let w = m.window(win);
            let o = m.origin(win)->0;
            let r = m.screen_rect(win)->0;
            &&& m.origin(win) is Some && m.screen_rect(win) is Some
            &&& w.x_coord > 0 ==> o.0 == w.x_coord && r.0 == w.x_coord - 1
            &&& w.y_coord > 0 ==> o.1 == w.y_coord && r.1 == w.y_coord - 1
            &&& w.x_coord == 0 ==> o.0 == 1 && r.0 == 0
            &&& w.y_coord == 0 ==> o.1 == 1 && r.1 == 0
            &&& r.2 == w.x_size
            &&& r.3 == w.y_size
        }),
{
}

/// A story asks for the mouse by the sixth bit of its word of requests, and by no other.
pub proof fn the_mouse_is_asked_for_by_one_bit(m: &Machine)
    ensures
        m.asks_for_mouse() <==> (m.flags2 / 32) % 2 == 1,
{
    let f = m.flags2;
    assert(f & 0x20 != 0 <==> (f / 32) % 2 == 1) by (bit_vector);
}

/// What is shown of a window is all of it that the screen has room for: the whole of one that
/// fits, or of an unresolved length, and what lies before the edge of one that does not. A
/// screen without a stated size has room for any window.
pub proof fn a_clipped_box_is_no_smaller_than_it_must_be(size: u16, pos: u16, screen: u16)
    ensures
        screen > 0 && pos + size <= screen ==> clipped(size, pos, screen) == size,
        screen == 0 && pos + size <= 0xffff ==> clipped(size, pos, screen) == size,
        size >= 0x8000 ==> clipped(size, pos, screen) == size,
        screen > 0 && size < 0x8000 && pos <= screen < pos + size ==> pos + clipped(
            size,
            pos,
            screen,
        ) == screen,
{
}

/// A box is clipped across by the width of the screen and down by its height.
pub proof fn a_box_is_clipped_on_both_sides(m: &Machine, x: u16, y: u16, w: u16, h: u16)
    requires
        w < 0x8000,
        h < 0x8000,
        x <= m.screen_w_px,
        y <= m.screen_h_px,
        m.screen_w_px > 0,
        m.screen_h_px > 0,
    ensures
        m.clip_box(x, y, w, h).0 == (if x + w <= m.screen_w_px {
            w as int
        } else {
            m.screen_w_px - x
        }),
        m.clip_box(x, y, w, h).1 == (if y + h <= m.screen_h_px {
            h as int
        } else {
            m.screen_h_px - y
        }),
{
}

} // verus!
