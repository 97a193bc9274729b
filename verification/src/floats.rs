//! Which pictures belong to the flow of the prose, and where in the story window they stand.

use crate::machine::{larger, Machine};
use crate::turn::PictureEvent;
use vstd::prelude::*;

verus! {

/// Whether the game meant a picture in the story window to belong to the prose: it stands on
/// the line of a cursor that text has moved, or the game reserved a margin beside it.
pub open spec fn meant_inline(ev: PictureEvent) -> bool {
    (ev.at_cursor && ev.out_chars > 0) || ev.margin_after is Some
}

/// Whether a picture begins at the left edge of the story window and reaches the right one,
/// so that no text can flow beside it.
pub open spec fn spans_window(m: &Machine, ev: PictureEvent, pic_w: u32, scale: (u32, u32)) -> bool {
    let win_w = if m.has_window(0) {
        m.window(0).x_size as int
    } else {
        0
    };
    ev.x <= 1 && pic_w * scale.0 >= larger(win_w, 1)
}

/// Whether a box of the screen contains the story window.
pub open spec fn contains_story(m: &Machine, x: int, y: int, w: int, h: int) -> bool {
    let s = m.window(0);
    let sx = larger(s.x_coord as int, 1);
    let sy = larger(s.y_coord as int, 1);
    x <= sx && y <= sy && x + w >= sx + s.x_size && y + h >= sy + s.y_size
}

/// Whether a picture that spans the columns from `px` to `px + pw` lies in a margin that the
/// story window has given up.
pub open spec fn in_margin(m: &Machine, px: int, pw: int) -> bool {
    let s = m.window(0);
    let sx = larger(s.x_coord as int, 1);
    ||| s.right_margin > 0 && px >= sx + s.x_size - s.right_margin && px + pw <= sx + s.x_size
    ||| s.left_margin > 0 && px >= sx && px + pw <= sx + s.left_margin
}

/// Where in the story window a picture stands that was drawn into another window, as far as
/// it is a margin picture of the story window: the other window contains the story window,
/// and the picture lies in a margin of it, beside its text.
pub open spec fn ceded_x(
    m: &Machine,
    dims: Option<(u32, u32)>,
    scale: (u32, u32),
    ev: PictureEvent,
) -> Option<u16> {
    if ev.erase || ev.number == 0 || ev.window == 1 || !m.has_window(0) || dims is None {
        None
    } else {
        let s = m.window(0);
        let sx = larger(s.x_coord as int, 1);
        let sy = larger(s.y_coord as int, 1);
        let dx = larger(ev.win_box.0 as int, 1);
        let dy = larger(ev.win_box.1 as int, 1);
        let d = dims->0;
        let pw = d.0 * scale.0;
        let ph = d.1 * scale.1;
        let px = dx + larger(ev.x as int, 1) - 1;
        let py = dy + larger(ev.y as int, 1) - 1;
        let inside = px - sx + 1;
        if s.x_size > 0 && s.y_size > 0 && s.left_margin + s.right_margin < s.x_size
            && contains_story(m, dx, dy, ev.win_box.2 as int, ev.win_box.3 as int) && py + ph > sy
            && py < sy + s.y_size && in_margin(m, px, pw) && 0 <= inside <= u16::MAX {
            Some(inside as u16)
        } else {
            None
        }
    }
}

/// Where in the story window a picture stands, if it belongs to the flow of the prose.
pub open spec fn float_x(
    m: &Machine,
    dims: Option<(u32, u32)>,
    scale: (u32, u32),
    ev: PictureEvent,
) -> Option<u16> {
    if ev.window != 0 {
        ceded_x(m, dims, scale, ev)
    } else if !meant_inline(ev) {
        None
    } else {
        match dims {
            None => Some(ev.x),
            Some(d) => if spans_window(m, ev, d.0, scale) {
                None
            } else {
                Some(ev.x)
            },
        }
    }
}

/// The number, or one if that is larger.
fn one_or_more(n: u16) -> (r: i128)
    ensures
        r == larger(n as int, 1),
{
    if n < 1 {
        1
    } else {
        n as i128
    }
}

/// A length in the picture's pixels, in the screen's.
fn on_screen(n: u32, scale: u32) -> (r: i128)
    ensures
        r == n * scale,
        0 <= r <= 0xffff_ffff * 0xffff_ffff,
{
    assert(0 <= n * scale <= 0xffff_ffff * 0xffff_ffff) by (nonlinear_arith)
        requires
            n <= 0xffff_ffff,
            scale <= 0xffff_ffff,
    ;
    n as i128 * scale as i128
}

/// Where in the story window a picture stands that a graphics window painted for it.
pub fn ceded_margin_float_x(
    m: &Machine,
    dims: Option<(u32, u32)>,
    scale: (u32, u32),
    ev: &PictureEvent,
) -> (r: Option<u16>)
    ensures
        r == ceded_x(m, dims, scale, *ev),
{
    if ev.erase || ev.number == 0 || ev.window == 1 {
        return None;
    }
    let v6 = match &m.v6 {
        Some(v6) => v6,
        None => {
            return None;
        },
    };
    if v6.windows.len() == 0 {
        return None;
    }
    let s = &v6.windows[0];
    let d: (u32, u32) = match dims {
        Some(d) => d,
        None => {
            return None;
        },
    };
    let sx: i128 = one_or_more(s.x_coord);
    let sy: i128 = one_or_more(s.y_coord);
    let sw: i128 = s.x_size as i128;
    let sh: i128 = s.y_size as i128;
    let left: i128 = s.left_margin as i128;
    let right: i128 = s.right_margin as i128;
    if sw <= 0 || sh <= 0 || left + right >= sw {
        return None;
    }
    let dx: i128 = one_or_more(ev.win_box.0);
    let dy: i128 = one_or_more(ev.win_box.1);
    let dw: i128 = ev.win_box.2 as i128;
    let dh: i128 = ev.win_box.3 as i128;
    if dx > sx || dy > sy || dx + dw < sx + sw || dy + dh < sy + sh {
        return None;
    }
    let pw: i128 = on_screen(d.0, scale.0);
    let ph: i128 = on_screen(d.1, scale.1);
    let px: i128 = dx + one_or_more(ev.x) - 1;
    let py: i128 = dy + one_or_more(ev.y) - 1;
    if py + ph <= sy || py >= sy + sh {
        return None;
    }
    let in_right: bool = right > 0 && px >= sx + sw - right && px + pw <= sx + sw;
    let in_left: bool = left > 0 && px >= sx && px + pw <= sx + left;
    if !(in_right || in_left) {
        return None;
    }
    let inside: i128 = px - sx + 1;
    if 0 <= inside && inside <= 0xffff {
        Some(inside as u16)
    } else {
        None
    }
}

/// Where in the story window a picture stands, if it belongs to the flow of the prose and
/// is not placed on the window.
pub fn win0_inline_float_x(
    m: &Machine,
    dims: Option<(u32, u32)>,
    scale: (u32, u32),
    ev: &PictureEvent,
) -> (r: Option<u16>)
    ensures
        r == float_x(m, dims, scale, *ev),
{
    if ev.window != 0 {
        return ceded_margin_float_x(m, dims, scale, ev);
    }
    let intent: bool = (ev.at_cursor && ev.out_chars > 0) || ev.margin_after.is_some();
    if !intent {
        return None;
    }
    let mut win_w: i128 = 0;
    if let Some(v6) = &m.v6 {
        if v6.windows.len() > 0 {
            win_w = v6.windows[0].x_size as i128;
        }
    }
    if win_w < 1 {
        win_w = 1;
    }
    match dims {
        None => Some(ev.x),
        Some(d) => {
            if ev.x <= 1 && on_screen(d.0, scale.0) >= win_w {
                None
            } else {
                Some(ev.x)
            }
        },
    }
}

/// Whether a picture belongs to the flow of the prose.
pub fn is_win0_inline_float(
    m: &Machine,
    dims: Option<(u32, u32)>,
    scale: (u32, u32),
    ev: &PictureEvent,
) -> (r: bool)
    ensures
        r == (float_x(m, dims, scale, *ev) is Some),
{
    win0_inline_float_x(m, dims, scale, ev).is_some()
}

/// A picture that spans the story window never flows with its prose.
pub proof fn a_spanning_picture_is_placed(
    m: &Machine,
    dims: (u32, u32),
    scale: (u32, u32),
    ev: PictureEvent,
)
    requires
        ev.window == 0,
        spans_window(m, ev, dims.0, scale),
    ensures
        float_x(m, Some(dims), scale, ev) is None,
{
}

/// An erasure of a picture in a graphics window is never part of the prose.
pub proof fn an_erasure_is_no_margin_picture(
    m: &Machine,
    dims: Option<(u32, u32)>,
    scale: (u32, u32),
    ev: PictureEvent,
)
    requires
        ev.window != 0,
        ev.erase,
    ensures
        float_x(m, dims, scale, ev) is None,
{
}

} // verus!
