//! What the picture events of a turn do to the pixels of the screen.

use crate::art::scaled_art;
use crate::canvas::CanvasView;
use crate::floats::{ceded_x, float_x};
use crate::layers::{art_view, erase_box, CanvasAnchor, EraseFill, Layers, LayersView};
use crate::machine::Machine;
use crate::oplist::V6Op;
use crate::raster::{has_extent, Raster, Rgba};
use crate::turn::PictureEvent;
use crate::windows::WINDOW_NUMBERS;
use vstd::prelude::*;

verus! {

// ── Pixels ────────────────────────────────────────────────────────────────────
/// The pixel of a surface, where the point lies on it.
pub open spec fn pixel_of(img: &Raster, x: int, y: int) -> Option<Rgba> {
    if 0 <= y < img.rows@.len() && 0 <= x < img.rows@[y]@.len() {
        Some(img.rows@[y]@[x])
    } else {
        None
    }
}

/// The pixel of a window's canvas, where the point lies on it.
pub open spec fn canvas_pixel(l: &Layers, win: u8, x: int, y: int) -> Option<Rgba> {
    if l.pictures_canvas@.dom().contains(win) {
        pixel_of(&l.pictures_canvas@[win].img, x, y)
    } else {
        None
    }
}

/// The pixel of the painted ground, where there is one and the point lies on it.
pub open spec fn ground_pixel(l: &Layers, x: int, y: int) -> Option<Rgba> {
    match l.paint {
        Some(g) => pixel_of(&g, x, y),
        None => None,
    }
}

/// A pixel that shows what is behind it.
pub open spec fn see_through() -> Option<Rgba> {
    Some(Rgba { r: 0, g: 0, b: 0, a: 0 })
}

/// A coordinate that is counted from one, counted from zero.
pub open spec fn zero_based(n: u16) -> int {
    if n > 0 {
        n - 1
    } else {
        0
    }
}

/// Whether a point of a canvas lies in the window as it was when the event happened. A window
/// has at least one pixel, and no more than a canvas can have.
pub open spec fn in_event_window(ev: PictureEvent, x: int, y: int) -> bool {
    &&& 0 <= x < 4096 && 0 <= y < 4096
    &&& x == 0 || x < ev.win_box.2
    &&& y == 0 || y < ev.win_box.3
}

/// Whether a point of a canvas lies where a picture of `w` × `h` pixels stands that an event
/// placed, at the scale of the screen.
pub open spec fn in_event_picture(
    ev: PictureEvent,
    w: int,
    h: int,
    scale: (u32, u32),
    x: int,
    y: int,
) -> bool {
    &&& zero_based(ev.x) <= x < zero_based(ev.x) + w * scale.0
    &&& zero_based(ev.y) <= y < zero_based(ev.y) + h * scale.1
}

/// Whether a window's canvas was painted with the window elsewhere than the event found it.
pub open spec fn was_moved(l: &Layers, ev: PictureEvent) -> bool {
    l.canvas_anchor@.dom().contains(ev.window) && !(l.canvas_anchor@[ev.window].origin_x
        == ev.win_box.0 && l.canvas_anchor@[ev.window].origin_y == ev.win_box.1)
}

/// Whether the game left a picture of the story window to the flow of the prose: it stands
/// on the line of a cursor that text has moved, or beside a margin made for it, and it does
/// not fill the window's width from its left edge on.
pub open spec fn flows_in_story(
    m: &Machine,
    dims: Option<(u32, u32)>,
    scale: (u32, u32),
    ev: PictureEvent,
) -> bool {
    &&& ev.window == 0
    &&& ev.at_cursor && ev.out_chars > 0 || ev.margin_after is Some
    &&& !(dims matches Some(d) && ev.x <= 1 && d.0 * scale.0 >= 1 && (m.has_window(0) ==> d.0
        * scale.0 >= m.window(0).x_size))
}

/// Whether a column of the screen, counted from one, lies in a margin of the story window.
pub open spec fn in_story_margin(m: &Machine, c: int) -> bool {
    let s = m.window(0);
    let left = zero_based(s.x_coord) + 1;
    ||| left <= c < left + s.left_margin
    ||| left + s.x_size - s.right_margin <= c < left + s.x_size
}

/// Whether a window that an event drew into has the story window inside it.
pub open spec fn holds_story(m: &Machine, ev: PictureEvent) -> bool {
    let s = m.window(0);
    &&& zero_based(ev.win_box.0) <= zero_based(s.x_coord)
    &&& zero_based(ev.win_box.1) <= zero_based(s.y_coord)
    &&& zero_based(ev.win_box.0) + ev.win_box.2 >= zero_based(s.x_coord) + s.x_size
    &&& zero_based(ev.win_box.1) + ev.win_box.3 >= zero_based(s.y_coord) + s.y_size
}

// ── Which pictures flow ───────────────────────────────────────────────────────
/// A picture of the story window flows with the prose exactly where the game left it to the
/// prose, and stands at the column it was drawn at.
pub proof fn a_story_picture_flows_where_it_was_left_to(
    m: &Machine,
    dims: Option<(u32, u32)>,
    scale: (u32, u32),
    ev: PictureEvent,
)
    requires
        ev.window == 0,
    ensures
        float_x(m, dims, scale, ev) is Some <==> flows_in_story(m, dims, scale, ev),
        float_x(m, dims, scale, ev) matches Some(x) ==> x == ev.x,
{
}

/// A picture of another window that flows with the prose was drawn, not erased, in a window
/// around the story's; each of its columns lies in a margin of the story window, some row of
/// it beside the story's text, and it stands in the story window where it stands on the
/// screen.
pub proof fn a_margin_picture_lies_in_the_margin(
    m: &Machine,
    dims: Option<(u32, u32)>,
    scale: (u32, u32),
    ev: PictureEvent,
    c: int,
)
    requires
        ev.window != 0,
        float_x(m, dims, scale, ev) is Some,
    ensures
        !ev.erase,
        ev.number != 0,
        ev.window != 1,
        m.has_window(0),
        dims is Some,
        holds_story(m, ev),
        ({
            let s = m.window(0);
            let d = dims->0;
            let left = zero_based(ev.win_box.0) + zero_based(ev.x) + 1;
            let top = zero_based(ev.win_box.1) + zero_based(ev.y) + 1;
            &&& left <= c < left + d.0 * scale.0 ==> in_story_margin(m, c)
            &&& top < zero_based(s.y_coord) + 1 + s.y_size
            &&& top + d.1 * scale.1 > zero_based(s.y_coord) + 1
            &&& zero_based(s.x_coord) + (float_x(m, dims, scale, ev)->0) == left
        }),
{
}

/// A picture that was drawn beside the story's text, inside the left or the right margin of
/// a story window whose margins leave room for text, flows with the prose.
pub proof fn a_picture_in_the_margin_flows(
    m: &Machine,
    dims: (u32, u32),
    scale: (u32, u32),
    ev: PictureEvent,
)
    requires
        !ev.erase,
        ev.number != 0,
        ev.window > 1,
        m.has_window(0),
        holds_story(m, ev),
        m.window(0).y_size > 0,
        m.window(0).left_margin + m.window(0).right_margin < m.window(0).x_size,
        ({
            let s = m.window(0);
            let edge = zero_based(s.x_coord);
            let left = zero_based(ev.win_box.0) + zero_based(ev.x);
            let top = zero_based(ev.win_box.1) + zero_based(ev.y);
            &&& top < zero_based(s.y_coord) + s.y_size
            &&& top + dims.1 * scale.1 > zero_based(s.y_coord)
            &&& left - edge < 0xffff
            &&& {
                ||| s.left_margin > 0 && edge <= left && left + dims.0 * scale.0 <= edge
                    + s.left_margin
                ||| s.right_margin > 0 && edge + s.x_size - s.right_margin <= left && left + dims.0
                    * scale.0 <= edge + s.x_size
            }
        }),
    ensures
        float_x(m, Some(dims), scale, ev) is Some,
{
    assert(ceded_x(m, Some(dims), scale, ev) is Some);
}

// ── Erasing a box of the screen ───────────────────────────────────────────────
/// Whether a point of a window's canvas shows on a box of the screen, counted from zero.
pub open spec fn shows_in(m: &Machine, k: u8, rect: (u32, u32, u32, u32), x: int, y: int) -> bool {
    &&& m.has_window(k)
    &&& rect.0 <= zero_based(m.window(k).x_coord) + x < rect.0 + rect.2
    &&& rect.1 <= zero_based(m.window(k).y_coord) + y < rect.1 + rect.3
}

/// Whether every canvas of the layers has the pixels of its extent.
pub open spec fn full_canvases(l: LayersView) -> bool {
    forall|k: u8|
        #![trigger l.canvases[k]]
        l.canvases.dom().contains(k) ==> has_extent(
            l.canvases[k].grid,
            l.canvases[k].w as int,
            l.canvases[k].h as int,
        )
}

/// Erasing a box of the screen from a canvas.
proof fn lemma_erased_in(
    l: LayersView,
    m: &Machine,
    win: u8,
    rect: (u32, u32, u32, u32),
    skip: Option<u8>,
)
    requires
        full_canvases(l),
    ensures
        ({
            let a = l.erased_in(m, win, rect, skip);
            &&& full_canvases(a)
            &&& a.canvases.dom() == l.canvases.dom()
            &&& a.anchors == l.anchors
            &&& a.fills == l.fills
            &&& a.paint == l.paint
            &&& a.story_pics == l.story_pics
            &&& a.art_scale == l.art_scale
            &&& a.next_seq == l.next_seq
            &&& forall|k: u8| k != win ==> #[trigger] a.canvases[k] == l.canvases[k]
            &&& a.canvases[win].w == l.canvases[win].w
            &&& a.canvases[win].h == l.canvases[win].h
            &&& a.canvases[win].z_seq == l.canvases[win].z_seq
            &&& l.canvases.dom().contains(win) ==> forall|x: int, y: int|
                0 <= y < l.canvases[win].h && 0 <= x < l.canvases[win].w
                    ==> #[trigger] a.canvases[win].grid[y][x] == (if skip != Some(win) && shows_in(
                    m,
                    win,
                    rect,
                    x,
                    y,
                ) {
                    see_through()->0
                } else {
                    l.canvases[win].grid[y][x]
                })
        }),
{
    let a = l.erased_in(m, win, rect, skip);
    assert(a.canvases.dom() =~= l.canvases.dom());
    if l.canvases.dom().contains(win) {
        let c = l.canvases[win];
        assert(has_extent(c.grid, c.w as int, c.h as int));
        let b = a.canvases[win];
        assert forall|x: int, y: int| 0 <= y < c.h && 0 <= x < c.w implies #[trigger] b.grid[y][x]
            == (if skip != Some(win) && shows_in(m, win, rect, x, y) {
            see_through()->0
        } else {
            c.grid[y][x]
        }) by {
            assert(c.grid[y].len() == c.w);
        }
        assert(has_extent(b.grid, b.w as int, b.h as int)) by {
            assert forall|y: int| 0 <= y < b.h implies (#[trigger] b.grid[y]).len() == b.w by {
                assert(c.grid[y].len() == c.w);
            }
        }
    }
    assert forall|k: u8| #![trigger a.canvases[k]] a.canvases.dom().contains(k) implies has_extent(
        a.canvases[k].grid,
        a.canvases[k].w as int,
        a.canvases[k].h as int,
    ) by {
        if k != win {
            assert(a.canvases[k] == l.canvases[k]);
        }
    }
}

/// Erasing a box of the screen from the canvases of the first `n` windows.
proof fn lemma_erased_below(
    l: LayersView,
    m: &Machine,
    rect: (u32, u32, u32, u32),
    skip: Option<u8>,
    n: nat,
    k: u8,
)
    requires
        full_canvases(l),
        n <= 256,
    ensures
        ({
            let a = l.erased_below(m, rect, skip, n);
            &&& full_canvases(a)
            &&& a.canvases.dom() == l.canvases.dom()
            &&& a.anchors == l.anchors
            &&& a.fills == l.fills
            &&& a.paint == l.paint
            &&& a.story_pics == l.story_pics
            &&& a.art_scale == l.art_scale
            &&& a.next_seq == l.next_seq
            &&& a.canvases[k].w == l.canvases[k].w
            &&& a.canvases[k].h == l.canvases[k].h
            &&& a.canvases[k].z_seq == l.canvases[k].z_seq
            &&& skip == Some(k) ==> a.canvases[k] == l.canvases[k]
            &&& l.canvases.dom().contains(k) ==> forall|x: int, y: int|
                0 <= y < l.canvases[k].h && 0 <= x < l.canvases[k].w
                    ==> #[trigger] a.canvases[k].grid[y][x] == (if k < n && skip != Some(k)
                    && shows_in(m, k, rect, x, y) {
                    see_through()->0
                } else {
                    l.canvases[k].grid[y][x]
                })
        }),
    decreases n,
{
    if n > 0 {
        let b = l.erased_below(m, rect, skip, (n - 1) as nat);
        lemma_erased_below(l, m, rect, skip, (n - 1) as nat, k);
        lemma_erased_in(b, m, (n - 1) as u8, rect, skip);
        let a = l.erased_below(m, rect, skip, n);
        assert(a == b.erased_in(m, (n - 1) as u8, rect, skip));
        if k == (n - 1) as u8 {
            if l.canvases.dom().contains(k) {
                assert forall|x: int, y: int|
                    0 <= y < l.canvases[k].h && 0 <= x < l.canvases[k].w implies
                    #[trigger] a.canvases[k].grid[y][x] == (if k < n && skip != Some(k) && shows_in(
                    m,
                    k,
                    rect,
                    x,
                    y,
                ) {
                    see_through()->0
                } else {
                    l.canvases[k].grid[y][x]
                }) by {
                    assert(b.canvases[k].grid[y][x] == l.canvases[k].grid[y][x]);
                }
            }
        } else {
            assert(a.canvases[k] == b.canvases[k]);
        }
    }
}

/// Erasing a box of the screen from every canvas but one.
proof fn lemma_erased_everywhere(
    l: LayersView,
    m: &Machine,
    rect: (u32, u32, u32, u32),
    skip: Option<u8>,
    k: u8,
)
    requires
        full_canvases(l),
    ensures
        ({
            let a = l.erased_everywhere(m, rect, skip);
            &&& full_canvases(a)
            &&& a.canvases.dom() == l.canvases.dom()
            &&& a.anchors == l.anchors
            &&& a.fills == l.fills
            &&& a.paint == l.paint
            &&& a.story_pics == l.story_pics
            &&& a.art_scale == l.art_scale
            &&& a.next_seq == l.next_seq
            &&& a.canvases[k].w == l.canvases[k].w
            &&& a.canvases[k].h == l.canvases[k].h
            &&& a.canvases[k].z_seq == l.canvases[k].z_seq
            &&& skip == Some(k) ==> a.canvases[k] == l.canvases[k]
            &&& l.canvases.dom().contains(k) ==> forall|x: int, y: int|
                0 <= y < l.canvases[k].h && 0 <= x < l.canvases[k].w
                    ==> #[trigger] a.canvases[k].grid[y][x] == (if skip != Some(k) && shows_in(
                    m,
                    k,
                    rect,
                    x,
                    y,
                ) {
                    see_through()->0
                } else {
                    l.canvases[k].grid[y][x]
                })
        }),
{
    if rect.2 != 0 && rect.3 != 0 {
        lemma_erased_below(l, m, rect, skip, WINDOW_NUMBERS as nat, k);
    }
}

// ── From the model to the pixels ──────────────────────────────────────────────
/// The canvases of well-formed layers have the pixels of their extents.
pub proof fn lemma_full_canvases(l: &Layers)
    requires
        l.wf(),
    ensures
        full_canvases(l@),
{
    assert forall|k: u8| #![trigger l@.canvases[k]] l@.canvases.dom().contains(k) implies has_extent(
        l@.canvases[k].grid,
        l@.canvases[k].w as int,
        l@.canvases[k].h as int,
    ) by {
        assert(l.pictures_canvas@[k].wf());
    }
}

/// The pixel of a window's canvas is that of its model.
pub proof fn lemma_canvas_pixel(l: &Layers, k: u8, x: int, y: int)
    requires
        l.wf(),
    ensures
        l.pictures_canvas@.dom().contains(k) <==> l@.canvases.dom().contains(k),
        canvas_pixel(l, k, x, y) == (if l@.canvases.dom().contains(k) && 0 <= y < l@.canvases[k].h
            && 0 <= x < l@.canvases[k].w {
            Some(l@.canvases[k].grid[y][x])
        } else {
            None
        }),
{
    if l.pictures_canvas@.dom().contains(k) {
        let img = l.pictures_canvas@[k].img;
        assert(l.pictures_canvas@[k].wf());
        assert(img.grid().len() == img.rows@.len());
        if 0 <= y < img.rows@.len() {
            assert(img.grid()[y] == img.rows@[y]@);
        }
    }
}

/// The pixel of a ground is that of its model.
proof fn lemma_ground_pixel(l: &Layers, x: int, y: int)
    requires
        l.wf(),
    ensures
        l.paint is Some <==> l@.paint is Some,
        ground_pixel(l, x, y) == (match l@.paint {
            Some(g) => if 0 <= y < g.h && 0 <= x < g.w {
                Some(g.grid[y][x])
            } else {
                None
            },
            None => None,
        }),
        l@.paint matches Some(g) ==> has_extent(g.grid, g.w as int, g.h as int),
{
    if let Some(p) = l.paint {
        assert(p.wf());
        assert(p.grid().len() == p.rows@.len());
        if 0 <= y < p.rows@.len() {
            assert(p.grid()[y] == p.rows@[y]@);
        }
    }
}

/// The canvas that an event finds has the pixels of the window's own canvas, and is blank
/// beyond them, as far as the window reaches.
proof fn lemma_canvas_for(l: LayersView, ev: PictureEvent, x: int, y: int)
    requires
        full_canvases(l),
    ensures
        ({
            let c = l.canvas_for(ev);
            let on_old = l.canvases.dom().contains(ev.window) && 0 <= y < l.canvases[ev.window].h
                && 0 <= x < l.canvases[ev.window].w;
            &&& has_extent(c.grid, c.w as int, c.h as int)
            &&& in_event_window(ev, x, y) || on_old ==> 0 <= y < c.h && 0 <= x < c.w
            &&& on_old ==> c.grid[y][x] == l.canvases[ev.window].grid[y][x]
            &&& 0 <= y < c.h && 0 <= x < c.w && !on_old ==> c.grid[y][x] == see_through()->0
        }),
{
    let b = crate::layers::canvas_box(ev);
    let c0 = if l.canvases.dom().contains(ev.window) {
        l.canvases[ev.window]
    } else {
        CanvasView::blank(b.0 as u32, b.1 as u32)
    };
    assert(has_extent(c0.grid, c0.w as int, c0.h as int));
    let c = l.canvas_for(ev);
    assert(c == c0.grown(b.0 as u32, b.1 as u32));
    assert(has_extent(c.grid, c.w as int, c.h as int)) by {
        assert forall|j: int| 0 <= j < c.h implies (#[trigger] c.grid[j]).len() == c.w by {
            if j < c0.h {
                assert(c0.grid[j].len() == c0.w);
            }
        }
    }
    if 0 <= y < c0.h {
        assert(c0.grid[y].len() == c0.w);
    }
}

// ── Erasing a picture ─────────────────────────────────────────────────────────
/// Erasing a picture of known extent clears the part of the window's canvas that the picture
/// covers inside the window, and nothing else on it: every other pixel is what it was before
/// the event.
pub proof fn erasing_a_picture_clears_its_box(
    before: &Layers,
    after: &Layers,
    m: &Machine,
    ev: PictureEvent,
    dims: (u32, u32),
    art: Option<Raster>,
    x: int,
    y: int,
)
    requires
        before.wf(),
        after.wf(),
        after@ == before@.after(m, ev, Some(dims), art_view(art)),
        ev.erase,
        ev.number != 0,
        m.has_window(ev.window),
        !flows_in_story(m, Some(dims), before.art_scale, ev),
        !was_moved(before, ev),
    ensures
        in_event_picture(ev, dims.0 as int, dims.1 as int, before.art_scale, x, y)
            && in_event_window(ev, x, y) ==> canvas_pixel(after, ev.window, x, y) == see_through(),
        !(in_event_picture(ev, dims.0 as int, dims.1 as int, before.art_scale, x, y)
            && in_event_window(ev, x, y)) && canvas_pixel(before, ev.window, x, y) is Some
            ==> canvas_pixel(after, ev.window, x, y) == canvas_pixel(before, ev.window, x, y),
        canvas_pixel(after, ev.window, x, y) is Some && canvas_pixel(before, ev.window, x, y) is None
            ==> canvas_pixel(after, ev.window, x, y) == see_through(),
{
    lemma_picture_erased(before, after, m, ev, Some(dims), art, ev.window, x, y);
}

/// Erasing a picture takes what other windows show in the same place of the screen, and
/// nothing else of them: windows are openings over one screen.
pub proof fn erasing_a_picture_reaches_through_the_windows(
    before: &Layers,
    after: &Layers,
    m: &Machine,
    ev: PictureEvent,
    dims: (u32, u32),
    art: Option<Raster>,
    k: u8,
    x: int,
    y: int,
)
    requires
        before.wf(),
        after.wf(),
        after@ == before@.after(m, ev, Some(dims), art_view(art)),
        ev.erase,
        ev.number != 0,
        m.has_window(ev.window),
        !flows_in_story(m, Some(dims), before.art_scale, ev),
        !was_moved(before, ev),
        k != ev.window,
    ensures
        ({
            // The point, on the canvas of the window that the picture was erased from.
            let px = zero_based(m.window(k).x_coord) + x - zero_based(m.window(ev.window).x_coord);
            let py = zero_based(m.window(k).y_coord) + y - zero_based(m.window(ev.window).y_coord);
            let hit = m.has_window(k) && in_event_picture(
                ev,
                dims.0 as int,
                dims.1 as int,
                before.art_scale,
                px,
                py,
            ) && in_event_window(ev, px, py);
            &&& canvas_pixel(before, k, x, y) is Some && hit ==> canvas_pixel(after, k, x, y)
                == see_through()
            &&& !(canvas_pixel(before, k, x, y) is Some && hit) ==> canvas_pixel(after, k, x, y)
                == canvas_pixel(before, k, x, y)
        }),
{
    lemma_picture_erased(before, after, m, ev, Some(dims), art, k, x, y);
}

/// Erasing a picture of unknown extent clears the window's canvas as far as the window
/// reaches, and nothing beyond.
pub proof fn erasing_an_unknown_picture_clears_the_window(
    before: &Layers,
    after: &Layers,
    m: &Machine,
    ev: PictureEvent,
    art: Option<Raster>,
    x: int,
    y: int,
)
    requires
        before.wf(),
        after.wf(),
        after@ == before@.after(m, ev, None, art_view(art)),
        ev.erase,
        ev.number != 0,
        m.has_window(ev.window),
        !flows_in_story(m, None, before.art_scale, ev),
        !was_moved(before, ev),
    ensures
        in_event_window(ev, x, y) ==> canvas_pixel(after, ev.window, x, y) == see_through(),
        !in_event_window(ev, x, y) && canvas_pixel(before, ev.window, x, y) is Some
            ==> canvas_pixel(after, ev.window, x, y) == canvas_pixel(before, ev.window, x, y),
{
    lemma_picture_erased(before, after, m, ev, None, art, ev.window, x, y);
}

/// What erasing a picture does to a pixel of a canvas.
proof fn lemma_picture_erased(
    before: &Layers,
    after: &Layers,
    m: &Machine,
    ev: PictureEvent,
    dims: Option<(u32, u32)>,
    art: Option<Raster>,
    k: u8,
    x: int,
    y: int,
)
    requires
        before.wf(),
        after.wf(),
        after@ == before@.after(m, ev, dims, art_view(art)),
        ev.erase,
        ev.number != 0,
        m.has_window(ev.window),
        !flows_in_story(m, dims, before.art_scale, ev),
        !was_moved(before, ev),
    ensures
        ({
            let px = if k == ev.window {
                x
            } else {
                zero_based(m.window(k).x_coord) + x - zero_based(m.window(ev.window).x_coord)
            };
            let py = if k == ev.window {
                y
            } else {
                zero_based(m.window(k).y_coord) + y - zero_based(m.window(ev.window).y_coord)
            };
            let hit = m.has_window(k) && in_event_window(ev, px, py) && (dims matches Some(d)
                ==> in_event_picture(ev, d.0 as int, d.1 as int, before.art_scale, px, py));
            let was = canvas_pixel(before, k, x, y);
            let is = canvas_pixel(after, k, x, y);
            &&& k == ev.window && in_event_window(ev, x, y) ==> is is Some
            &&& k != ev.window && was is None ==> is is None
            &&& is is Some && hit ==> is == see_through()
            &&& was is Some && !hit ==> is == was
            &&& was is Some ==> is is Some
            &&& is is Some && was is None ==> is == see_through()
        }),
{
    let l = before@;
    let win = ev.window;
    let scale = before.art_scale;
    assert(float_x(m, dims, scale, ev) is None);
    assert(l.retired(m, win, (ev.win_box.0, ev.win_box.1)) == l);
    assert(after@ == l.picture_erased(m, ev, dims));
    lemma_full_canvases(before);
    lemma_full_canvases(after);
    lemma_canvas_pixel(before, k, x, y);
    lemma_canvas_pixel(after, k, x, y);
    lemma_canvas_for(l, ev, x, y);
    lemma_canvas_for(l, ev, 0, 0);
    let e = erase_box(dims, scale, ev);
    if let Some(d) = dims {
        assert(d.0 * scale.0 >= 0 && d.1 * scale.1 >= 0) by (nonlinear_arith)
            requires
                d.0 >= 0,
                d.1 >= 0,
                scale.0 >= 0,
                scale.1 >= 0,
        ;
    }
    let c = l.canvas_for(ev);
    let ce = c.erased(e.0, e.1, e.2, e.3);
    let l1 = LayersView { canvases: l.canvases.insert(win, ce), ..l };
    let l2 = l1.recorded(
        win,
        V6Op::Erase { dx: e.0 as i32, dy: e.1 as i32, w: e.2 as u32, h: e.3 as u32 },
    );
    assert(l2.canvases == l1.canvases);
    assert(has_extent(ce.grid, ce.w as int, ce.h as int)) by {
        assert forall|j: int| 0 <= j < ce.h implies (#[trigger] ce.grid[j]).len() == ce.w by {
            assert(c.grid[j].len() == c.w);
        }
    }
    assert(full_canvases(l2)) by {
        assert forall|j: u8| #![trigger l2.canvases[j]] l2.canvases.dom().contains(j) implies
            has_extent(l2.canvases[j].grid, l2.canvases[j].w as int, l2.canvases[j].h as int) by {
            if j != win {
                assert(l2.canvases[j] == l.canvases[j]);
            }
        }
    }
    let r = m.screen_rect(win)->0;
    let rect = ((r.0 + e.0) as u32, (r.1 + e.1) as u32, e.2 as u32, e.3 as u32);
    lemma_erased_everywhere(l2, m, rect, Some(win), k);
    assert(after@ == l2.erased_everywhere(m, rect, Some(win)));
    if k == win {
        assert(after@.canvases[win] == ce);
        if 0 <= y < c.h && 0 <= x < c.w {
            assert(c.grid[y].len() == c.w);
        }
    } else {
        assert(l2.canvases[k] == l.canvases[k]);
    }
}

// ── Drawing a picture ─────────────────────────────────────────────────────────
/// Drawing a picture puts each of its pixels that can be seen where the event placed it,
/// inside the window, and leaves every other pixel of the window's canvas as it was.
pub proof fn drawing_a_picture_shows_it(
    before: &Layers,
    after: &Layers,
    m: &Machine,
    ev: PictureEvent,
    dims: Option<(u32, u32)>,
    art: Raster,
    x: int,
    y: int,
)
    requires
        before.wf(),
        after.wf(),
        after@ == before@.after(m, ev, dims, art_view(Some(art))),
        !ev.erase,
        float_x(m, dims, before.art_scale, ev) is None,
        m.has_window(ev.window),
        !was_moved(before, ev),
    ensures
        ({
            let shown = scaled_art(art.grid(), art.width, art.height, before.art_scale);
            let i = x - zero_based(ev.x);
            let j = y - zero_based(ev.y);
            let seen = 0 <= j < shown.len() && 0 <= i < shown[j].len() && shown[j][i].a > 0;
            &&& before.art_scale == (1u32, 1u32) ==> shown == art.grid()
            &&& in_event_window(ev, x, y) && seen ==> canvas_pixel(after, ev.window, x, y) == Some(
                shown[j][i],
            )
            &&& !(in_event_window(ev, x, y) && seen) && canvas_pixel(before, ev.window, x, y) is Some
                ==> canvas_pixel(after, ev.window, x, y) == canvas_pixel(before, ev.window, x, y)
            &&& in_event_window(ev, x, y) && !seen && canvas_pixel(before, ev.window, x, y) is None
                ==> canvas_pixel(after, ev.window, x, y) == see_through()
        }),
        forall|k: u8, u: int, v: int|
            k != ev.window ==> #[trigger] canvas_pixel(after, k, u, v) == canvas_pixel(
                before,
                k,
                u,
                v,
            ),
        ground_same(before, after),
        after.pictures_canvas@[ev.window].z_seq == before.next_seq,
{
    let l = before@;
    let win = ev.window;
    assert(l.retired(m, win, (ev.win_box.0, ev.win_box.1)) == l);
    let a = art_view(Some(art))->0;
    assert(after@ == l.picture_drawn(ev, a));
    lemma_full_canvases(before);
    lemma_canvas_pixel(before, win, x, y);
    lemma_canvas_pixel(after, win, x, y);
    lemma_canvas_for(l, ev, x, y);
    let c = l.canvas_for(ev);
    if 0 <= y < c.h {
        assert(c.grid[y].len() == c.w);
    }
    assert forall|k: u8, u: int, v: int| k != win implies #[trigger] canvas_pixel(after, k, u, v)
        == canvas_pixel(before, k, u, v) by {
        lemma_canvas_pixel(before, k, u, v);
        lemma_canvas_pixel(after, k, u, v);
    }
    assert(after@.paint == l.paint);
    assert forall|u: int, v: int| #[trigger] ground_pixel(after, u, v) == ground_pixel(
        before,
        u,
        v,
    ) by {
        lemma_ground_pixel(before, u, v);
        lemma_ground_pixel(after, u, v);
    }
    lemma_ground_pixel(before, 0, 0);
    lemma_ground_pixel(after, 0, 0);
}

/// Whether two screens have the same ground.
pub open spec fn ground_same(a: &Layers, b: &Layers) -> bool {
    &&& a.paint is Some <==> b.paint is Some
    &&& forall|u: int, v: int| #[trigger] ground_pixel(a, u, v) == ground_pixel(b, u, v)
}

// ── Erasing a window ──────────────────────────────────────────────────────────
/// Erasing a window takes its canvas, and what other windows show in its box on the screen,
/// and nothing else of them; the fill that it leaves is the window's box in its own page
/// colour, the newest of all drawings.
pub proof fn erasing_a_window_clears_its_box(
    before: &Layers,
    after: &Layers,
    m: &Machine,
    ev: PictureEvent,
    dims: Option<(u32, u32)>,
    art: Option<Raster>,
    k: u8,
    x: int,
    y: int,
)
    requires
        before.wf(),
        after.wf(),
        after@ == before@.after(m, ev, dims, art_view(art)),
        ev.erase,
        ev.number == 0,
        !was_moved(before, ev),
    ensures
        canvas_pixel(after, ev.window, x, y) is None,
        ({
            let s = m.window(ev.window);
            let px = zero_based(m.window(k).x_coord) + x - zero_based(s.x_coord);
            let py = zero_based(m.window(k).y_coord) + y - zero_based(s.y_coord);
            let hit = m.has_window(ev.window) && m.has_window(k) && 0 <= px < s.x_size && 0 <= py
                < s.y_size;
            &&& k != ev.window && hit && canvas_pixel(before, k, x, y) is Some ==> canvas_pixel(
                after,
                k,
                x,
                y,
            ) == see_through()
            &&& k != ev.window && !hit ==> canvas_pixel(after, k, x, y) == canvas_pixel(
                before,
                k,
                x,
                y,
            )
        }),
        m.has_window(ev.window) && m.window(ev.window).x_size > 0 && m.window(ev.window).y_size > 0
            ==> {
            let s = m.window(ev.window);
            &&& after.window_fills@.dom().contains(ev.window)
            &&& after.window_fills@[ev.window].x == zero_based(s.x_coord)
            &&& after.window_fills@[ev.window].y == zero_based(s.y_coord)
            &&& after.window_fills@[ev.window].w == s.x_size
            &&& after.window_fills@[ev.window].h == s.y_size
            &&& after.window_fills@[ev.window].bg == s.bg
            &&& after.window_fills@[ev.window].seq == before.next_seq
            &&& after.window_fills@[ev.window].out_chars == ev.out_chars
        },
        forall|j: u8| #![trigger after.window_fills@[j]]
            j != ev.window ==> (after.window_fills@.dom().contains(j)
                <==> before.window_fills@.dom().contains(j)) && (before.window_fills@.dom().contains(
                j,
            ) ==> after.window_fills@[j] == before.window_fills@[j]),
{
    let l = before@;
    let win = ev.window;
    assert(l.retired(m, win, (ev.win_box.0, ev.win_box.1)) == l);
    let bare = LayersView {
        canvases: l.canvases.remove(win),
        anchors: l.anchors.remove(win),
        ops: l.ops.remove(win),
        unreplayable: l.unreplayable.remove(win),
        ..l
    };
    lemma_full_canvases(before);
    lemma_full_canvases(after);
    assert(full_canvases(bare)) by {
        assert forall|j: u8| #![trigger bare.canvases[j]] bare.canvases.dom().contains(j) implies
            has_extent(bare.canvases[j].grid, bare.canvases[j].w as int, bare.canvases[j].h as int) by {
            assert(bare.canvases[j] == l.canvases[j]);
        }
    }
    lemma_canvas_pixel(before, k, x, y);
    lemma_canvas_pixel(after, k, x, y);
    lemma_canvas_pixel(after, win, x, y);
    if let Some(r) = m.screen_rect(win) {
        lemma_erased_everywhere(bare, m, r, Some(win), k);
        lemma_erased_everywhere(bare, m, r, Some(win), win);
        assert(bare.erased_everywhere(m, r, Some(win)).canvases.dom() == bare.canvases.dom());
    }
    if k != win {
        assert(bare.canvases[k] == l.canvases[k]);
    }
    assert(after@.fills == after.window_fills@);
    assert(l.fills == before.window_fills@);
}

// ── The ground ────────────────────────────────────────────────────────────────
/// A window that has moved leaves its pixels on the ground where they were painted: each that
/// can be seen, in the part that was drawn on, stands on the screen where it stood, and the
/// ground is otherwise as it was. The window's canvas is gone.
pub proof fn a_moved_window_leaves_its_pixels(
    before: &Layers,
    after: &Layers,
    m: &Machine,
    win: u8,
    now: (u16, u16),
    x: int,
    y: int,
)
    requires
        before.wf(),
        after.wf(),
        after@ == before@.retired(m, win, now),
        before.canvas_anchor@.dom().contains(win),
        before.canvas_anchor@[win].origin_x != now.0 || before.canvas_anchor@[win].origin_y
            != now.1,
        before.pictures_canvas@.dom().contains(win),
    ensures
        canvas_pixel(after, win, x, y) is None,
        !after.canvas_anchor@.dom().contains(win),
        ({
            let a = before.canvas_anchor@[win];
            let px = x - zero_based(a.origin_x);
            let py = y - zero_based(a.origin_y);
            let painted = canvas_pixel(before, win, px, py);
            let stands = a.x <= px < a.x + a.w && a.y <= py < a.y + a.h && painted is Some && (
            painted->0).a > 0;
            &&& after.paint is Some
            &&& before.paint is Some && stands && ground_pixel(before, x, y) is Some
                ==> ground_pixel(after, x, y) == painted
            &&& before.paint is Some && !stands ==> ground_pixel(after, x, y) == ground_pixel(
                before,
                x,
                y,
            )
            &&& before.paint is None && stands && ground_pixel(after, x, y) is Some ==> ground_pixel(
                after,
                x,
                y,
            ) == painted
            &&& before.paint is None && !stands && ground_pixel(after, x, y) is Some
                ==> ground_pixel(after, x, y) == see_through()
        }),
        forall|k: u8, u: int, v: int|
            k != win ==> #[trigger] canvas_pixel(after, k, u, v) == canvas_pixel(before, k, u, v),
{
    let l = before@;
    let a = l.anchors[win];
    lemma_full_canvases(before);
    lemma_canvas_pixel(before, win, x - zero_based(a.origin_x), y - zero_based(a.origin_y));
    lemma_canvas_pixel(after, win, x, y);
    lemma_ground_pixel(before, x, y);
    lemma_ground_pixel(after, x, y);
    let c = l.canvases[win];
    assert(has_extent(c.grid, c.w as int, c.h as int));
    let g = l.ground(m);
    assert(has_extent(g.grid, g.w as int, g.h as int));
    if 0 <= y < g.h {
        assert(g.grid[y].len() == g.w);
    }
    let py = y - zero_based(a.origin_y);
    if 0 <= py < c.h {
        assert(c.grid[py].len() == c.w);
    }
    assert forall|k: u8, u: int, v: int| k != win implies #[trigger] canvas_pixel(after, k, u, v)
        == canvas_pixel(before, k, u, v) by {
        lemma_canvas_pixel(before, k, u, v);
        lemma_canvas_pixel(after, k, u, v);
    }
}

/// A fill in a colour of its own paints its box of the ground in that colour and leaves the
/// rest; one that spans the screen clears the ground.
pub proof fn a_fill_paints_its_box(
    before: &Layers,
    after: &Layers,
    m: &Machine,
    f: EraseFill,
    x: int,
    y: int,
)
    requires
        before.wf(),
        after.wf(),
        after@ == before@.painted(m, f),
    ensures
        f.rgba is None || f.w == 0 || f.h == 0 ==> ground_same(before, after),
        f.rgba is Some && f.w > 0 && f.h > 0 && f.w >= m.native_extent().0 && f.h
            >= m.native_extent().1 ==> after.paint is None,
        f.rgba is Some && f.w > 0 && f.h > 0 && !(f.w >= m.native_extent().0 && f.h
            >= m.native_extent().1) ==> {
            let hit = zero_based(f.x) <= x < zero_based(f.x) + f.w && zero_based(f.y) <= y
                < zero_based(f.y) + f.h;
            &&& after.paint is Some
            &&& hit && ground_pixel(after, x, y) is Some ==> ground_pixel(after, x, y) == f.rgba
            &&& !hit && before.paint is Some ==> ground_pixel(after, x, y) == ground_pixel(
                before,
                x,
                y,
            )
            &&& before.paint is Some ==> (ground_pixel(after, x, y) is Some <==> ground_pixel(
                before,
                x,
                y,
            ) is Some)
            &&& !hit && before.paint is None && ground_pixel(after, x, y) is Some ==> ground_pixel(
                after,
                x,
                y,
            ) == see_through()
            &&& before.paint is None ==> (ground_pixel(after, x, y) is Some <==> 0 <= x
                < m.native_extent().0 && 0 <= y < m.native_extent().1)
        },
        forall|k: u8, u: int, v: int| #[trigger]
            canvas_pixel(after, k, u, v) == canvas_pixel(before, k, u, v),
{
    let l = before@;
    lemma_ground_pixel(before, x, y);
    lemma_ground_pixel(after, x, y);
    let g = l.ground(m);
    assert(has_extent(g.grid, g.w as int, g.h as int));
    if 0 <= y < g.h {
        assert(g.grid[y].len() == g.w);
    }
    assert forall|u: int, v: int| f.rgba is None || f.w == 0 || f.h == 0 implies
        #[trigger] ground_pixel(before, u, v) == ground_pixel(after, u, v) by {
        lemma_ground_pixel(before, u, v);
        lemma_ground_pixel(after, u, v);
    }
    assert forall|k: u8, u: int, v: int| #[trigger]
        canvas_pixel(after, k, u, v) == canvas_pixel(before, k, u, v) by {
        lemma_canvas_pixel(before, k, u, v);
        lemma_canvas_pixel(after, k, u, v);
    }
}

// ── What is remembered of a drawing ───────────────────────────────────────────
/// Whether a point of a canvas lies in the box of an anchor.
pub open spec fn in_anchor(a: CanvasAnchor, x: int, y: int) -> bool {
    a.x <= x < a.x + a.w && a.y <= y < a.y + a.h
}

/// What a drawing leaves for later: where the window stood, a box that encloses all that can
/// be seen of the picture and of what was drawn before, and reaches no further than they do,
/// and an entry in the window's display list with the picture's number and place, as far as
/// the list has room.
pub proof fn a_drawing_is_remembered(
    before: &Layers,
    after: &Layers,
    m: &Machine,
    ev: PictureEvent,
    dims: Option<(u32, u32)>,
    art: Raster,
    x: int,
    y: int,
)
    requires
        before.wf(),
        after.wf(),
        after@ == before@.after(m, ev, dims, art_view(Some(art))),
        !ev.erase,
        float_x(m, dims, before.art_scale, ev) is None,
        m.has_window(ev.window),
        !was_moved(before, ev),
    ensures
        after.canvas_anchor@.dom().contains(ev.window),
        ({
            let a = after.canvas_anchor@[ev.window];
            let o = before.canvas_anchor@[ev.window];
            let had = before.canvas_anchor@.dom().contains(ev.window);
            let seen = in_event_picture(
                ev,
                art.width as int,
                art.height as int,
                before.art_scale,
                x,
                y,
            ) && in_event_window(ev, x, y);
            &&& a.origin_x == ev.win_box.0
            &&& a.origin_y == ev.win_box.1
            &&& seen ==> in_anchor(a, x, y)
            &&& had && in_anchor(o, x, y) ==> in_anchor(a, x, y)
            &&& !had && in_anchor(a, x, y) ==> seen
            &&& had ==> (a.x == o.x || a.x == zero_based(ev.x)) && (a.y == o.y || a.y == zero_based(
                ev.y,
            ))
        }),
        ({
            let had = if before.display_ops@.dom().contains(ev.window) {
                before.display_ops@[ev.window]@
            } else {
                seq![]
            };
            &&& after.display_ops@.dom().contains(ev.window)
            &&& had.len() < 512 ==> after.display_ops@[ev.window]@ == had.push(
                V6Op::Draw {
                    number: ev.number,
                    dx: zero_based(ev.x) as i32,
                    dy: zero_based(ev.y) as i32,
                },
            )
            &&& had.len() >= 512 ==> after.unreplayable@.dom().contains(ev.window)
            &&& had.len() < 512 ==> (after.unreplayable@.dom().contains(ev.window)
                <==> before.unreplayable@.dom().contains(ev.window))
        }),
        after.story_pics@.len() == before.story_pics@.len(),
        before.next_seq < u64::MAX ==> after.next_seq == before.next_seq + 1,
{
    let l = before@;
    let win = ev.window;
    assert(l.retired(m, win, (ev.win_box.0, ev.win_box.1)) == l);
    let a = art_view(Some(art))->0;
    assert(after@ == l.picture_drawn(ev, a));
    assert(after@.anchors == after.canvas_anchor@);
    assert(l.anchors == before.canvas_anchor@);
    let s = before.art_scale;
    assert(art.width * s.0 >= 0 && art.height * s.1 >= 0) by (nonlinear_arith)
        requires
            art.width >= 0,
            art.height >= 0,
            s.0 >= 0,
            s.1 >= 0,
    ;
    if l.anchors.dom().contains(win) {
        assert(crate::layers::anchor_ok(before.canvas_anchor@[win]));
    }
    let op = V6Op::Draw {
        number: ev.number,
        dx: zero_based(ev.x) as i32,
        dy: zero_based(ev.y) as i32,
    };
    let had = l.ops_of(win);
    assert(crate::oplist::pruned(had, op) =~= had) by {
        lemma_nothing_pruned(had, op);
    }
    assert(after@.ops.dom().contains(win));
    assert(after.display_ops@.dom().contains(win));
    assert(after@.ops[win] == after.display_ops@[win]@);
    assert(after@.unreplayable == after.unreplayable@.dom());
    assert(l.unreplayable == before.unreplayable@.dom());
    assert(crate::layers::story_views(after.story_pics@).len() == after.story_pics@.len());
    assert(crate::layers::story_views(before.story_pics@).len() == before.story_pics@.len());
}

/// A drawing makes no earlier entry pointless.
proof fn lemma_nothing_pruned(ops: Seq<V6Op>, op: V6Op)
    requires
        op is Draw,
    ensures
        crate::oplist::pruned(ops, op) == ops,
    decreases ops.len(),
{
    reveal(Seq::filter);
    if ops.len() > 0 {
        lemma_nothing_pruned(ops.drop_last(), op);
        assert(ops.drop_last().push(ops.last()) =~= ops);
    } else {
        assert(crate::oplist::pruned(ops, op) =~= ops);
    }
}

/// After a turn no canvas is stranded: what is left of a window's drawings was painted where
/// the window stands now.
pub proof fn no_canvas_is_stranded(l: LayersView, m: &Machine, win: u8)
    requires
        m.has_window(win),
    ensures
        ({
            let a = l.settled_below(m, WINDOW_NUMBERS as nat);
            a.anchors.dom().contains(win) ==> {
                &&& zero_based(a.anchors[win].origin_x) == zero_based(m.window(win).x_coord)
                &&& zero_based(a.anchors[win].origin_y) == zero_based(m.window(win).y_coord)
                &&& l.anchors.dom().contains(win) && a.anchors[win] == l.anchors[win]
            }
        }),
{
    lemma_settled(l, m, WINDOW_NUMBERS as nat, win);
}

/// Settling the canvases of the first `n` windows.
proof fn lemma_settled(l: LayersView, m: &Machine, n: nat, win: u8)
    requires
        m.has_window(win),
        n <= 256,
    ensures
        ({
            let a = l.settled_below(m, n);
            &&& win >= n ==> (a.anchors.dom().contains(win) <==> l.anchors.dom().contains(win))
            &&& a.anchors.dom().contains(win) ==> l.anchors.dom().contains(win) && a.anchors[win]
                == l.anchors[win]
            &&& win < n && a.anchors.dom().contains(win) ==> Some(
                (a.anchors[win].origin_x, a.anchors[win].origin_y),
            ) == m.origin(win)
        }),
    decreases n,
{
    if n > 0 {
        lemma_settled(l, m, (n - 1) as nat, win);
    }
}

} // verus!
