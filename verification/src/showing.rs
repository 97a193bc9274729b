//! What a screen shows of the interpreter's windows.

use crate::canvas::CanvasView;
use crate::layers::WindowFill;
use crate::machine::{Machine, PaintRun, ZWindow};
use crate::model::{all_layers, extent, left_out, picture_layers, placed_window, pos_views,
    retired_layer, runs_box, shown_runs, shown_stamps, text_layers, text_node, v6_model,
    BufferWindow, GridWindow, Layout, PosView, PositionedWindow, PxText, ScreenModel, StatusModel,
    WinNode};
use crate::order::{stamp_order, the_order_follows_the_stamps};
use crate::pixels::zero_based;
use crate::screen::split_model;
use crate::text::string_views;
use vstd::prelude::*;

verus! {

// ── What is to be shown ───────────────────────────────────────────────────────
/// Whether a run of a screen is a run that the interpreter painted: the same text at the same
/// place, in the same style and colours.
pub open spec fn is_run(p: PxText, t: PaintRun) -> bool {
    &&& p.y == t.y
    &&& p.x == t.x
    &&& p.text@ == t.text@
    &&& p.style == t.style
    &&& p.fg == t.fg
    &&& p.bg == t.bg
    &&& p.grow == t.grow
    &&& p.gcol == t.gcol
}

/// Whether the runs of a screen are those that the interpreter painted, one for one.
pub open spec fn are_runs(p: Seq<PxText>, t: Seq<PaintRun>) -> bool {
    &&& p.len() == t.len()
    &&& forall|i: int| 0 <= i < t.len() ==> is_run(#[trigger] p[i], t[i])
}

/// Whether the story's text flows through a window: the one that the game prints into, where
/// text wraps and scrolls in it and does not stay in it; or else window 0.
pub open spec fn tells_story(m: &Machine, win: u8) -> bool {
    let v6 = m.v6->0;
    let cur = v6.windows@[v6.current as int];
    if cur.attributes & 3 == 3 && !cur.diverts_prose {
        win == v6.current
    } else {
        win == 0
    }
}

/// Whether a window is shown: it has painted text; or it has a size, and it is not window 0,
/// or a picture was drawn in it, or the story flows through it and it is more than the
/// untouched screen.
pub open spec fn is_shown(m: &Machine, drawn: Set<u8>, win: u8) -> bool {
    let w = m.window(win);
    ||| w.texts@.len() > 0
    ||| w.x_size > 0 && w.y_size > 0 && {
        ||| win != 0
        ||| drawn.contains(win)
        ||| tells_story(m, win) && (m.win0_out_chars > 0 || w.x_coord != 1 || w.y_coord != 1
            || w.x_size != m.screen_w_px || w.y_size != m.screen_h_px)
    }
}

/// Whether a length on the screen is a window's, cut where the screen ends. A screen without
/// a stated length ends nowhere, and a length that is an unresolved mark is left alone.
pub open spec fn is_visible_length(shown: u16, size: u16, at: int, screen: u16) -> bool {
    if size >= 0x8000 {
        shown == size
    } else {
        let end = if screen == 0 {
            0xffffint
        } else {
            screen as int
        };
        if at + size <= end {
            shown == size
        } else if at <= end {
            at + shown == end
        } else {
            shown == 0
        }
    }
}

/// Whether a layer has the box of a window.
pub open spec fn has_box_of(m: &Machine, p: PositionedWindow, w: ZWindow) -> bool {
    &&& p.x_px == zero_based(w.x_coord)
    &&& p.y_px == zero_based(w.y_coord)
    &&& is_visible_length(p.w_px, w.x_size, p.x_px as int, m.screen_w_px)
    &&& is_visible_length(p.h_px, w.y_size, p.y_px as int, m.screen_h_px)
    &&& p.x * m.cell.0 <= p.x_px < (p.x + 1) * m.cell.0
    &&& p.y * m.cell.1 <= p.y_px < (p.y + 1) * m.cell.1
    &&& p.w == w.grid.cols
    &&& p.h == w.grid.rows
    &&& p.left_margin == w.left_margin
    &&& p.right_margin == w.right_margin
}

/// Whether a colour that may be missing is a packed one, where zero is the page's own.
pub open spec fn is_colour(o: Option<u32>, c: u32) -> bool {
    match o {
        Some(x) => x == c && c != 0,
        None => c == 0,
    }
}

/// Whether a grid shows a window: its characters, its painted text at its places, its cursor,
/// counted in characters from one, and its colours.
pub open spec fn is_grid_of(m: &Machine, g: GridWindow, win: u8) -> bool {
    let w = m.window(win);
    &&& g.cols == w.grid.cols
    &&& g.rows == w.grid.rows
    &&& g.active_rows == w.grid.rows
    &&& g.cells@ == w.grid.cells@
    &&& are_runs(g.px_texts@, w.texts@)
    &&& g.cursor.0 >= 1 && (g.cursor.0 - 1) * m.cell.1 <= zero_based(w.y_cursor) < g.cursor.0
        * m.cell.1
    &&& g.cursor.1 >= 1 && (g.cursor.1 - 1) * m.cell.0 <= zero_based(w.x_cursor) < g.cursor.1
        * m.cell.0
    &&& g.cursor_active <==> m.v6->0.current == win
    &&& is_colour(g.bg, w.bg)
    &&& is_colour(g.fg, w.fg)
}

/// Whether a grid bears the fill that a window was erased with: the fill is noted, it covers
/// the window as it stands, the story has printed nothing since, and the story does not flow
/// through the window.
pub open spec fn bears_fill(
    m: &Machine,
    fills: Map<u8, WindowFill>,
    g: GridWindow,
    win: u8,
) -> bool {
    let w = m.window(win);
    let f = fills[win];
    let newest = fills.dom().contains(win) && f.out_chars == m.win0_out_chars && !tells_story(
        m,
        win,
    ) && f.x <= zero_based(w.x_coord) && f.y <= zero_based(w.y_coord) && f.x + f.w >= zero_based(
        w.x_coord,
    ) + w.x_size && f.y + f.h >= zero_based(w.y_coord) + w.y_size;
    &&& g.fill is Some <==> newest
    &&& newest ==> (g.fill->0).bg == f.bg && (g.fill->0).seq == f.seq
}

/// Whether a window of flowing text shows the story: the host keeps its lines, and the text
/// that is sitting in the window keeps its places.
pub open spec fn is_story_of(b: BufferWindow, w: ZWindow) -> bool {
    &&& b.primary
    &&& !b.panel
    &&& !b.reads_input
    &&& b.lines@.len() == 0
    &&& are_runs(b.px_runs@, w.streamed@)
    &&& is_colour(b.bg, w.bg)
    &&& is_colour(b.fg, w.fg)
}

/// Whether a window of flowing text shows the lines that a window kept to itself.
pub open spec fn is_text_of(m: &Machine, b: BufferWindow, win: u8) -> bool {
    let w = m.window(win);
    &&& !b.primary
    &&& !b.panel
    &&& b.reads_input <==> m.input_window == win
    &&& b.lines@.len() == w.prose@.len()
    &&& forall|i: int| 0 <= i < w.prose@.len() ==> (#[trigger] b.lines@[i])@ == w.prose@[i]@
    &&& b.px_runs@.len() == 0
    &&& is_colour(b.bg, w.bg)
    &&& is_colour(b.fg, w.fg)
}

/// Whether a layer shows the text of a window.
pub open spec fn shows_text_of(
    m: &Machine,
    fills: Map<u8, WindowFill>,
    p: PositionedWindow,
    win: u8,
) -> bool {
    let w = m.window(win);
    &&& has_box_of(m, p, w)
    &&& if tells_story(m, win) && w.attributes & 1 != 0 {
        p.node matches WinNode::Buffer(b) && is_story_of(b, w)
    } else if w.prose@.len() > 0 {
        p.node matches WinNode::Buffer(b) && is_text_of(m, b, win)
    } else {
        p.node matches WinNode::Grid(g) && is_grid_of(m, g, win) && bears_fill(m, fills, g, win)
    }
}

/// Whether a layer shows what a window left behind when it was moved: the runs at their
/// places, in a box that encloses them.
pub open spec fn shows_left_behind(m: &Machine, p: PositionedWindow, w: ZWindow) -> bool {
    &&& p.node matches WinNode::Grid(g) && are_runs(g.px_texts@, w.retired@) && g.cells@.len() == 0
        && g.fill is None && g.bg is None && g.fg is None && !g.cursor_active
    &&& forall|i: int|
        0 <= i < w.retired@.len() ==> {
            let t = #[trigger] w.retired@[i];
            &&& p.x_px <= zero_based(t.x)
            &&& p.y_px <= zero_based(t.y)
            &&& zero_based(t.x) + t.width_px <= 0xffff ==> zero_based(t.x) + t.width_px <= p.x_px
                + p.w_px
            &&& zero_based(t.y) + m.cell.1 <= 0xffff ==> zero_based(t.y) + m.cell.1 <= p.y_px
                + p.h_px
        }
    &&& exists|i: int| 0 <= i < w.retired@.len() && zero_based((#[trigger] w.retired@[i]).x) == p.x_px
    &&& exists|i: int| 0 <= i < w.retired@.len() && zero_based((#[trigger] w.retired@[i]).y) == p.y_px
    &&& p.left_margin == w.left_margin
    &&& p.right_margin == w.right_margin
}

/// Whether a layer shows the canvas of a window: its pixels, in the window's box.
pub open spec fn shows_canvas_of(
    m: &Machine,
    canvases: Map<u8, CanvasView>,
    p: PositionedWindow,
    win: u8,
) -> bool {
    let c = canvases[win];
    &&& has_box_of(m, p, m.window(win))
    &&& p.node matches WinNode::Graphics(g) && {
        &&& g.win == win
        &&& g.version == c.version
        &&& !g.upscale
        &&& g.canvas.width == c.w
        &&& g.canvas.height == c.h
        &&& g.canvas.grid() == c.grid
    }
}

// ── From the model to what is shown ───────────────────────────────────────────
/// A window is left out exactly where it is not to be shown.
proof fn lemma_left_out(m: &Machine, drawn: Set<u8>, win: u8)
    requires
        m.wf(),
        m.has_window(win),
    ensures
        left_out(m, drawn, win) == !is_shown(m, drawn, win),
{
}

/// Where a number goes when it is divided.
proof fn lemma_div_place(a: int, b: int)
    requires
        a >= 0,
        b > 0,
    ensures
        (a / b) * b <= a < (a / b + 1) * b,
        0 <= a / b <= a,
{
    assert((a / b) * b <= a < (a / b + 1) * b && 0 <= a / b <= a) by (nonlinear_arith)
        requires
            a >= 0,
            b > 0,
    ;
}

/// A window's box.
proof fn lemma_box(m: &Machine, p: PositionedWindow, w: ZWindow)
    requires
        m.wf(),
        p@ == placed_window(m, w, p.node@),
    ensures
        has_box_of(m, p, w),
{
    lemma_div_place(zero_based(w.x_coord), m.cell.0 as int);
    lemma_div_place(zero_based(w.y_coord), m.cell.1 as int);
}

/// Runs are shown one for one.
proof fn lemma_runs(p: Seq<PxText>, t: Seq<PaintRun>)
    requires
        crate::model::px_views(p) == shown_runs(t),
    ensures
        are_runs(p, t),
{
    assert(crate::model::px_views(p).len() == p.len());
    assert forall|i: int| 0 <= i < t.len() implies is_run(#[trigger] p[i], t[i]) by {
        assert(crate::model::px_views(p)[i] == p[i]@);
        assert(shown_runs(t)[i] == crate::model::shown_run(t[i]));
    }
}

/// A layer that has the model of a window's text shows it.
proof fn lemma_shows_text(m: &Machine, fills: Map<u8, WindowFill>, p: PositionedWindow, win: u8)
    requires
        m.wf(),
        m.has_window(win),
        p@ == placed_window(m, m.window(win), text_node(m, fills, win)),
    ensures
        shows_text_of(m, fills, p, win),
{
    let w = m.window(win);
    lemma_box(m, p, w);
    lemma_div_place(zero_based(w.x_cursor), m.cell.0 as int);
    lemma_div_place(zero_based(w.y_cursor), m.cell.1 as int);
    match p.node {
        WinNode::Grid(g) => {
            lemma_runs(g.px_texts@, w.texts@);
        },
        WinNode::Buffer(b) => {
            assert(b@.lines == string_views(b.lines@));
            assert(string_views(b.lines@).len() == b.lines@.len());
            if tells_story(m, win) && w.attributes & 1 != 0 {
                lemma_runs(b.px_runs@, w.streamed@);
            } else {
                assert(crate::model::px_views(b.px_runs@).len() == b.px_runs@.len());
                assert(string_views(w.prose@).len() == w.prose@.len());
                assert forall|i: int| 0 <= i < w.prose@.len() implies (#[trigger] b.lines@[i])@
                    == w.prose@[i]@ by {
                    assert(string_views(b.lines@)[i] == b.lines@[i]@);
                    assert(string_views(w.prose@)[i] == w.prose@[i]@);
                }
            }
        },
        WinNode::Graphics(_) => {},
    }
}

/// The box around some runs encloses each of them and touches some of them.
proof fn lemma_runs_enclosed(v: Seq<PaintRun>, font_h: u16, n: nat)
    requires
        0 < n <= v.len(),
    ensures
        ({
            let b = runs_box(v, font_h, n);
            &&& 0 <= b.0 <= b.2 <= 0xffff
            &&& 0 <= b.1 <= b.3 <= 0xffff
            &&& forall|i: int|
                0 <= i < n ==> {
                    let t = #[trigger] v[i];
                    &&& b.0 <= zero_based(t.x)
                    &&& b.1 <= zero_based(t.y)
                    &&& zero_based(t.x) + t.width_px <= 0xffff ==> zero_based(t.x) + t.width_px
                        <= b.2
                    &&& zero_based(t.y) + font_h <= 0xffff ==> zero_based(t.y) + font_h <= b.3
                }
            &&& exists|i: int| 0 <= i < n && zero_based((#[trigger] v[i]).x) == b.0
            &&& exists|i: int| 0 <= i < n && zero_based((#[trigger] v[i]).y) == b.1
        }),
    decreases n,
{
    let t = v[n - 1];
    let b = runs_box(v, font_h, n);
    let b0 = runs_box(v, font_h, (n - 1) as nat);
    if n > 1 {
        lemma_runs_enclosed(v, font_h, (n - 1) as nat);
        let i = choose|i: int| 0 <= i < n - 1 && zero_based((#[trigger] v[i]).x) == b0.0;
        let j = choose|j: int| 0 <= j < n - 1 && zero_based((#[trigger] v[j]).y) == b0.1;
        assert(zero_based(v[i].x) == b.0 || zero_based(v[n - 1].x) == b.0);
        assert(zero_based(v[j].y) == b.1 || zero_based(v[n - 1].y) == b.1);
    } else {
        assert(b0 == (0xffffint, 0xffffint, 0int, 0int));
        assert(zero_based(v[0].x) == b.0);
        assert(zero_based(v[0].y) == b.1);
    }
}

/// A layer that has the model of what a window left behind shows it.
proof fn lemma_shows_left_behind(m: &Machine, p: PositionedWindow, w: ZWindow)
    requires
        m.wf(),
        w.retired@.len() > 0,
        p@ == retired_layer(m, w),
    ensures
        shows_left_behind(m, p, w),
{
    lemma_runs_enclosed(w.retired@, m.cell.1, w.retired@.len());
    if let WinNode::Grid(g) = p.node {
        lemma_runs(g.px_texts@, w.retired@);
    }
}

/// The layer of a window that is shown, among those of the first `n` windows.
proof fn lemma_layer_of(
    m: &Machine,
    drawn: Set<u8>,
    fills: Map<u8, WindowFill>,
    n: nat,
    win: u8,
) -> (k: int)
    requires
        m.wf(),
        m.v6 is Some,
        win < n <= m.v6->0.windows@.len(),
        is_shown(m, drawn, win),
    ensures
        ({
            let v = text_layers(m, drawn, fills, n);
            let w = m.window(win);
            &&& 0 <= k < v.len()
            &&& v[k] == placed_window(m, w, text_node(m, fills, win))
            &&& w.retired@.len() > 0 ==> k > 0 && v[k - 1] == retired_layer(m, w)
            &&& k == layers_due(m, drawn, win as nat + 1) - 1
        }),
    decreases n,
{
    lemma_left_out(m, drawn, (n - 1) as u8);
    lemma_layers_due(m, drawn, fills, n);
    let v = text_layers(m, drawn, fills, n);
    let before = text_layers(m, drawn, fills, (n - 1) as nat);
    if win == n - 1 {
        v.len() - 1
    } else {
        let k = lemma_layer_of(m, drawn, fills, (n - 1) as nat, win);
        assert(v[k] == before[k]);
        if m.window(win).retired@.len() > 0 {
            assert(v[k - 1] == before[k - 1]);
        }
        k
    }
}

/// The window of a text layer, and whether the layer is what the window left behind.
proof fn lemma_window_of(
    m: &Machine,
    drawn: Set<u8>,
    fills: Map<u8, WindowFill>,
    n: nat,
    k: int,
) -> (of: (u8, bool))
    requires
        m.wf(),
        m.v6 is Some,
        n <= m.v6->0.windows@.len(),
        0 <= k < text_layers(m, drawn, fills, n).len(),
    ensures
        of.0 < n,
        is_shown(m, drawn, of.0),
        !of.1 ==> text_layers(m, drawn, fills, n)[k] == placed_window(
            m,
            m.window(of.0),
            text_node(m, fills, of.0),
        ),
        of.1 ==> m.window(of.0).retired@.len() > 0 && text_layers(m, drawn, fills, n)[k]
            == retired_layer(m, m.window(of.0)),
    decreases n,
{
    lemma_left_out(m, drawn, (n - 1) as u8);
    let v = text_layers(m, drawn, fills, n);
    let before = text_layers(m, drawn, fills, (n - 1) as nat);
    if k < before.len() {
        assert(v[k] == before[k]);
        lemma_window_of(m, drawn, fills, (n - 1) as nat, k)
    } else {
        ((n - 1) as u8, k < v.len() - 1)
    }
}

/// How many text layers the first `n` windows have: one for each that is shown, and one more
/// for each of those that left something behind.
pub open spec fn layers_due(m: &Machine, drawn: Set<u8>, n: nat) -> int
    decreases n,
{
    if n == 0 {
        0
    } else {
        let win = (n - 1) as u8;
        layers_due(m, drawn, (n - 1) as nat) + (if !is_shown(m, drawn, win) {
            0int
        } else if m.window(win).retired@.len() > 0 {
            2int
        } else {
            1int
        })
    }
}

/// The number of text layers.
proof fn lemma_layers_due(m: &Machine, drawn: Set<u8>, fills: Map<u8, WindowFill>, n: nat)
    requires
        m.wf(),
        m.v6 is Some,
        n <= m.v6->0.windows@.len(),
    ensures
        text_layers(m, drawn, fills, n).len() == layers_due(m, drawn, n),
    decreases n,
{
    if n > 0 {
        lemma_left_out(m, drawn, (n - 1) as u8);
        lemma_layers_due(m, drawn, fills, (n - 1) as nat);
    }
}

/// The extent that layers cover encloses each of them and ends where one of them ends.
proof fn lemma_extent(layers: Seq<PosView>, n: nat)
    requires
        n <= layers.len(),
    ensures
        ({
            let e = extent(layers, n);
            &&& forall|i: int|
                0 <= i < n ==> (#[trigger] layers[i]).x + layers[i].w <= e.0 && layers[i].y
                    + layers[i].h <= e.1
            &&& e.0 == 0 || exists|i: int|
                0 <= i < n && (#[trigger] layers[i]).x + layers[i].w == e.0
            &&& e.1 == 0 || exists|i: int|
                0 <= i < n && (#[trigger] layers[i]).y + layers[i].h == e.1
            &&& e.0 >= 0 && e.1 >= 0
        }),
    decreases n,
{
    if n > 0 {
        lemma_extent(layers, (n - 1) as nat);
        let e = extent(layers, n);
        let e0 = extent(layers, (n - 1) as nat);
        let p = layers[n - 1];
        if e.0 > 0 {
            if p.x + p.w == e.0 {
                assert(layers[n - 1].x + layers[n - 1].w == e.0);
            } else {
                let i = choose|i: int|
                    0 <= i < n - 1 && (#[trigger] layers[i]).x + layers[i].w == e0.0;
                assert(layers[i].x + layers[i].w == e.0);
            }
        }
        if e.1 > 0 {
            if p.y + p.h == e.1 {
                assert(layers[n - 1].y + layers[n - 1].h == e.1);
            } else {
                let i = choose|i: int|
                    0 <= i < n - 1 && (#[trigger] layers[i]).y + layers[i].h == e0.1;
                assert(layers[i].y + layers[i].h == e.1);
            }
        }
    }
}

// ── Laws ──────────────────────────────────────────────────────────────────────
/// The layers of a screen.
pub open spec fn layers_of(r: &ScreenModel) -> Seq<PositionedWindow> {
    match r.root {
        Layout::Layered(v) => v@,
        Layout::Stacked(_, _) => seq![],
    }
}

/// Every window that is to be shown is shown, with its own text: a grid has as many runs as
/// were painted in the window, each with the text, the place, the style and the colours of its
/// own; text that flows is the story's or the window's own. What the window left behind lies
/// right behind it. The texts lie in the order of the windows, in front of all pictures.
///
/// The result is the place of the window among the layers.
pub proof fn a_window_shows_its_own_text(
    r: &ScreenModel,
    m: &Machine,
    canvases: Map<u8, CanvasView>,
    fills: Map<u8, WindowFill>,
    win: u8,
) -> (k: int)
    requires
        r@ == v6_model(m, canvases, fills),
        m.wf(),
        m.has_window(win),
        is_shown(m, canvases.dom(), win),
    ensures
        0 <= k < layers_of(r).len(),
        shows_text_of(m, fills, layers_of(r)[k], win),
        m.window(win).retired@.len() > 0 ==> k > 0 && shows_left_behind(
            m,
            layers_of(r)[k - 1],
            m.window(win),
        ),
        k == layers_of(r).len() - layers_due(m, canvases.dom(), m.v6->0.windows@.len())
            + layers_due(m, canvases.dom(), win as nat + 1) - 1,
{
    let n = m.v6->0.windows@.len();
    let pics = picture_layers(m, canvases);
    let j = lemma_layer_of(m, canvases.dom(), fills, n, win);
    let k = pics.len() + j;
    lemma_layers_due(m, canvases.dom(), fills, n);
    let all = all_layers(m, canvases, fills);
    lemma_layers_are(r, m, canvases, fills);
    assert(all[k] == text_layers(m, canvases.dom(), fills, n)[j]);
    assert(layers_of(r)[k]@ == all[k]);
    lemma_shows_text(m, fills, layers_of(r)[k], win);
    if m.window(win).retired@.len() > 0 {
        assert(all[k - 1] == text_layers(m, canvases.dom(), fills, n)[j - 1]);
        assert(layers_of(r)[k - 1]@ == all[k - 1]);
        lemma_shows_left_behind(m, layers_of(r)[k - 1], m.window(win));
    }
    k
}

/// The layers of a screen have the models of the layers.
proof fn lemma_layers_are(
    r: &ScreenModel,
    m: &Machine,
    canvases: Map<u8, CanvasView>,
    fills: Map<u8, WindowFill>,
)
    requires
        r@ == v6_model(m, canvases, fills),
        all_layers(m, canvases, fills).len() > 0,
    ensures
        layers_of(r).len() == all_layers(m, canvases, fills).len(),
        forall|k: int|
            0 <= k < layers_of(r).len() ==> (#[trigger] layers_of(r)[k])@ == all_layers(
                m,
                canvases,
                fills,
            )[k],
{
    if let Layout::Layered(v) = r.root {
        assert(r.root@ == crate::model::LayoutView::Layered(pos_views(v@)));
        assert(pos_views(v@) == all_layers(m, canvases, fills));
        assert(pos_views(v@).len() == v@.len());
        assert forall|k: int| 0 <= k < v@.len() implies (#[trigger] v@[k])@ == all_layers(
            m,
            canvases,
            fills,
        )[k] by {
            assert(pos_views(v@)[k] == v@[k]@);
        }
    } else {
        assert(false);
    }
}

/// Every layer of a screen with windows is of a window that is shown: its canvas, its text, or
/// what it left behind. Nothing else is shown, and nothing twice: there are as many layers as
/// the windows have, and only a screen without any shows the story over all of it.
///
/// The result is the window, and which of its layers it is: none of the two, its text, or what
/// it left behind.
pub proof fn a_layer_is_of_a_window(
    r: &ScreenModel,
    m: &Machine,
    canvases: Map<u8, CanvasView>,
    fills: Map<u8, WindowFill>,
    k: int,
) -> (of: (u8, bool, bool))
    requires
        r@ == v6_model(m, canvases, fills),
        m.wf(),
        m.v6 is Some,
        all_layers(m, canvases, fills).len() > 0,
        0 <= k < layers_of(r).len(),
    ensures
        m.has_window(of.0),
        is_shown(m, canvases.dom(), of.0),
        !of.1 && !of.2 ==> canvases.dom().contains(of.0) && shows_canvas_of(
            m,
            canvases,
            layers_of(r)[k],
            of.0,
        ),
        of.1 ==> shows_text_of(m, fills, layers_of(r)[k], of.0),
        of.2 ==> shows_left_behind(m, layers_of(r)[k], m.window(of.0)),
{
    let n = m.v6->0.windows@.len();
    let pics = picture_layers(m, canvases);
    let text = text_layers(m, canvases.dom(), fills, n);
    let all = all_layers(m, canvases, fills);
    lemma_layers_are(r, m, canvases, fills);
    let p = layers_of(r)[k];
    assert(p@ == all[k]);
    if k < pics.len() {
        let stamps = shown_stamps(m, canvases);
        the_order_follows_the_stamps(stamps);
        let win = stamp_order(stamps)[k];
        assert(stamp_order(stamps).contains(win));
        assert(stamps.dom().contains(win));
        lemma_left_out(m, canvases.dom(), win);
        assert(all[k] == pics[k]);
        lemma_box(m, p, m.window(win));
        (win, false, false)
    } else {
        assert(all[k] == text[k - pics.len()]);
        let of = lemma_window_of(m, canvases.dom(), fills, n, k - pics.len());
        if of.1 {
            lemma_shows_left_behind(m, p, m.window(of.0));
        } else {
            lemma_shows_text(m, fills, p, of.0);
        }
        (of.0, !of.1, of.1)
    }
}

/// The canvas of every window that is shown is shown, pixel for pixel, in the window's box.
pub proof fn a_canvas_is_shown_in_its_window(
    r: &ScreenModel,
    m: &Machine,
    canvases: Map<u8, CanvasView>,
    fills: Map<u8, WindowFill>,
    win: u8,
) -> (k: int)
    requires
        r@ == v6_model(m, canvases, fills),
        m.wf(),
        m.has_window(win),
        is_shown(m, canvases.dom(), win),
        canvases.dom().contains(win),
    ensures
        0 <= k < layers_of(r).len(),
        shows_canvas_of(m, canvases, layers_of(r)[k], win),
{
    let pics = picture_layers(m, canvases);
    let stamps = shown_stamps(m, canvases);
    the_order_follows_the_stamps(stamps);
    lemma_left_out(m, canvases.dom(), win);
    assert(stamps.dom().contains(win));
    assert(stamp_order(stamps).contains(win));
    let k = choose|k: int| 0 <= k < stamp_order(stamps).len() && stamp_order(stamps)[k] == win;
    let all = all_layers(m, canvases, fills);
    assert(all[k] == pics[k]);
    lemma_layers_are(r, m, canvases, fills);
    assert(layers_of(r)[k]@ == all[k]);
    lemma_box(m, layers_of(r)[k], m.window(win));
    k
}

/// The layers in front of the pictures are one for each window that is shown and one more for
/// each of those that left something behind; and the extent of the screen encloses every
/// layer and ends where one ends, or is the interpreter's own where the layers cover nothing.
/// The page and the ink are those of the screen's one pair of colours, where it has one.
pub proof fn a_screen_is_made_of_its_windows(
    r: &ScreenModel,
    m: &Machine,
    canvases: Map<u8, CanvasView>,
    fills: Map<u8, WindowFill>,
)
    requires
        r@ == v6_model(m, canvases, fills),
        m.wf(),
        m.v6 is Some,
        all_layers(m, canvases, fills).len() > 0,
        forall|i: int|
            0 <= i < layers_of(r).len() ==> (#[trigger] layers_of(r)[i]).x + layers_of(r)[i].w
                <= 0xffff && layers_of(r)[i].y + layers_of(r)[i].h <= 0xffff,
    ensures
        layers_of(r).len() == stamp_order(shown_stamps(m, canvases)).len() + layers_due(
            m,
            canvases.dom(),
            m.v6->0.windows@.len(),
        ),
        ({
            let flat = forall|i: int|
                0 <= i < layers_of(r).len() ==> (#[trigger] layers_of(r)[i]).x + layers_of(r)[i].w
                    == 0;
            let low = forall|i: int|
                0 <= i < layers_of(r).len() ==> (#[trigger] layers_of(r)[i]).y + layers_of(r)[i].h
                    == 0;
            if flat || low {
                r.content_size.0 == m.screen_cols && r.content_size.1 == m.screen_rows
            } else {
                &&& forall|i: int|
                    0 <= i < layers_of(r).len() ==> (#[trigger] layers_of(r)[i]).x
                        + layers_of(r)[i].w <= r.content_size.0 && layers_of(r)[i].y
                        + layers_of(r)[i].h <= r.content_size.1
                &&& exists|i: int|
                    0 <= i < layers_of(r).len() && (#[trigger] layers_of(r)[i]).x
                        + layers_of(r)[i].w == r.content_size.0
                &&& exists|i: int|
                    0 <= i < layers_of(r).len() && (#[trigger] layers_of(r)[i]).y
                        + layers_of(r)[i].h == r.content_size.1
            }
        }),
        m.page_pair matches Some(p) ==> r.fg == p.0 && r.bg == p.1,
        m.page_pair is None ==> r.fg == 0 && r.bg == 0,
{
    let all = all_layers(m, canvases, fills);
    let v = layers_of(r);
    lemma_layers_are(r, m, canvases, fills);
    lemma_layers_due(m, canvases.dom(), fills, m.v6->0.windows@.len());
    lemma_extent(all, all.len());
    let e = extent(all, all.len());
    assert forall|i: int| 0 <= i < v.len() implies (#[trigger] v[i]).x == all[i].x && v[i].w
        == all[i].w && v[i].y == all[i].y && v[i].h == all[i].h by {
        assert(v[i]@ == all[i]);
    }
    if e.0 > 0 {
        let i = choose|i: int| 0 <= i < all.len() && (#[trigger] all[i]).x + all[i].w == e.0;
        assert(v[i].x + v[i].w == e.0);
    }
    if e.1 > 0 {
        let i = choose|i: int| 0 <= i < all.len() && (#[trigger] all[i]).y + all[i].h == e.1;
        assert(v[i].y + v[i].h == e.1);
    }
    if e.0 == 0 {
        assert forall|i: int| 0 <= i < v.len() implies (#[trigger] v[i]).x + v[i].w == 0 by {
            assert(all[i].x + all[i].w <= e.0);
        }
    }
    if e.1 == 0 {
        assert forall|i: int| 0 <= i < v.len() implies (#[trigger] v[i]).y + v[i].h == 0 by {
            assert(all[i].y + all[i].h <= e.1);
        }
    }
}

/// The status of a game up to version 3 is the place and the score or the time of its status
/// line; a later game shows its own.
pub proof fn the_status_is_that_of_the_game(s: StatusModel, m: &Machine)
    requires
        s@ == crate::model::status_of(m),
    ensures
        m.version <= 3 ==> (s matches StatusModel::Classic { location, right } && location@
            == m.status_line.location@ && right == m.status_line.right),
        m.version > 3 ==> s is HostManaged,
{
}

/// A screen with two windows shows all rows of the upper one, its characters as they are, its
/// cursor where it stands, above a window that the host fills with the transcript.
pub proof fn the_upper_window_is_shown_whole(r: &ScreenModel, m: &Machine)
    requires
        r@ == split_model(m),
    ensures
        r.root matches Layout::Stacked(bands, rest) && {
            &&& bands@.len() == 1
            &&& bands@[0].rows == m.upper.rows
            &&& !bands@[0].border
            &&& bands@[0].node matches WinNode::Grid(g) && {
                &&& g.cols == m.upper.cols
                &&& g.rows == m.upper.rows
                &&& g.active_rows == m.upper.rows
                &&& g.cells@ == m.upper.cells@
                &&& g.cursor.0 == m.cursor_row
                &&& g.cursor.1 == m.cursor_col
                &&& g.cursor_active <==> m.current_window == 1
                &&& g.px_texts@.len() == 0
                &&& g.fill is None && g.bg is None && g.fg is None
            }
            &&& rest matches WinNode::Buffer(b) && b.lines@.len() == 0 && b.px_runs@.len() == 0
                && !b.panel && !b.reads_input
        },
        r.bg == m.current_bg,
        r.fg == m.current_fg,
        r.content_size.0 == 0 && r.content_size.1 == 0,
{
    if let Layout::Stacked(bands, rest) = r.root {
        let views = crate::model::band_views(bands@);
        assert(views.len() == bands@.len());
        assert(views[0] == (bands@[0].rows, bands@[0].border, bands@[0].node@));
        if let WinNode::Grid(g) = bands@[0].node {
            assert(crate::model::px_views(g.px_texts@).len() == g.px_texts@.len());
        }
        if let WinNode::Buffer(b) = rest {
            assert(string_views(b.lines@).len() == b.lines@.len());
            assert(crate::model::px_views(b.px_runs@).len() == b.px_runs@.len());
        }
    } else {
        assert(false);
    }
}

/// A screen without a layer shows the story over all of it.
pub proof fn an_empty_screen_is_the_storys(
    r: &ScreenModel,
    m: &Machine,
    canvases: Map<u8, CanvasView>,
    fills: Map<u8, WindowFill>,
)
    requires
        r@ == v6_model(m, canvases, fills),
        m.wf(),
        m.v6 is Some,
        forall|win: u8| m.has_window(win) ==> !#[trigger] is_shown(m, canvases.dom(), win),
    ensures
        layers_of(r).len() == 1,
        ({
            let p = layers_of(r)[0];
            &&& p.x == 0 && p.y == 0 && p.x_px == 0 && p.y_px == 0
            &&& p.w == m.screen_cols && p.h == m.screen_rows
            &&& p.w_px == m.screen_w_px && p.h_px == m.screen_h_px
            &&& p.left_margin == 0 && p.right_margin == 0
            &&& p.node matches WinNode::Buffer(b) && b.primary && b.lines@.len() == 0
        }),
        r.content_size.0 == m.screen_cols && r.content_size.1 == m.screen_rows,
{
    let n = m.v6->0.windows@.len();
    let all = all_layers(m, canvases, fills);
    lemma_layers_due(m, canvases.dom(), fills, n);
    lemma_none_due(m, canvases.dom(), n);
    let stamps = shown_stamps(m, canvases);
    assert forall|k: u8| !stamps.dom().contains(k) by {
        if m.has_window(k) {
            assert(!is_shown(m, canvases.dom(), k));
            lemma_left_out(m, canvases.dom(), k);
        }
    }
    the_order_follows_the_stamps(stamps);
    let order = stamp_order(stamps);
    if order.len() > 0 {
        assert(order.contains(order[0]));
    }
    assert(all.len() == 0);
    if let Layout::Layered(v) = r.root {
        assert(r.root@ == crate::model::LayoutView::Layered(pos_views(v@)));
        assert(pos_views(v@).len() == 1);
        assert(pos_views(v@)[0] == v@[0]@);
    }
}

/// Where no window is shown, no text layer is due.
proof fn lemma_none_due(m: &Machine, drawn: Set<u8>, n: nat)
    requires
        m.wf(),
        m.v6 is Some,
        n <= m.v6->0.windows@.len(),
        forall|win: u8| m.has_window(win) ==> !#[trigger] is_shown(m, drawn, win),
    ensures
        layers_due(m, drawn, n) == 0,
    decreases n,
{
    if n > 0 {
        lemma_none_due(m, drawn, (n - 1) as nat);
        let win = (n - 1) as u8;
        assert(m.has_window(win));
        assert(!is_shown(m, drawn, win));
    }
}

} // verus!
