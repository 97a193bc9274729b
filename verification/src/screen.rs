//! Building the screen as it is shown.

use crate::canvas::{Canvas, CanvasView};
use crate::layers::WindowFill;
use crate::machine::{from_zero, larger, smaller, CharCell, Machine, PaintRun, ZWindow};
use crate::model::{
    all_layers, boxes_end, canvas_node, ceil_div, covered, extent, left_out, live_fill, own_colour,
    picture_layers, placed_window, plain_buffer, plus16, pos_views, prose_window, px_views,
    retired_layer, runs_box, shown_run, shown_runs, shown_stamps, status_of, text_layers, text_node,
    v6_model, whole_screen, Band, BufferWindow, ErasedFill, GraphicsWindow, GridView, GridWindow,
    Layout, LayoutView, ModelView, NodeView, PosView, PositionedWindow, PxText, ScreenModel,
    StatusModel, WinNode,
};
use crate::order::{order_windows, stamp_order, the_order_follows_the_stamps};
use crate::text::string_views;
use crate::windows::WindowMap;
use vstd::prelude::*;

verus! {

/// The models of a map of canvases.
pub open spec fn canvas_views(m: Map<u8, Canvas>) -> Map<u8, CanvasView> {
    Map::new(|k: u8| m.dom().contains(k), |k: u8| m[k]@)
}

/// Every canvas has the pixels of its extent.
pub open spec fn canvases_wf(m: &WindowMap<Canvas>) -> bool {
    &&& m.wf()
    &&& forall|k: u8| m@.dom().contains(k) ==> (#[trigger] m@[k]).wf()
}

/// Shows painted runs.
fn show_runs(v: &Vec<PaintRun>) -> (r: Vec<PxText>)
    ensures
        px_views(r@) == shown_runs(v@),
{
    let mut r: Vec<PxText> = Vec::new();
    let mut i: usize = 0;
    while i < v.len()
        invariant
            i <= v@.len(),
            r@.len() == i,
            forall|j: int| 0 <= j < i ==> (#[trigger] px_views(r@)[j]) == shown_run(v@[j]),
        decreases v.len() - i,
    {
        let ghost r0 = r@;
        let t = &v[i];
        r.push(
            PxText {
                y: t.y,
                x: t.x,
                text: t.text.as_str().to_owned(),
                style: t.style,
                fg: t.fg,
                bg: t.bg,
                grow: t.grow,
                gcol: t.gcol,
            },
        );
        assert forall|j: int| 0 <= j < r@.len() implies (#[trigger] px_views(r@)[j]) == shown_run(
            v@[j],
        ) by {
            if j < r0.len() {
                assert(px_views(r0)[j] == px_views(r@)[j]);
            }
        }
        i = i + 1;
    }
    assert(px_views(r@) =~= shown_runs(v@));
    r
}

/// Copies characters.
fn copy_cells(v: &Vec<CharCell>) -> (r: Vec<CharCell>)
    ensures
        r@ == v@,
{
    let mut r: Vec<CharCell> = Vec::new();
    let mut i: usize = 0;
    while i < v.len()
        invariant
            i <= v@.len(),
            r@ == v@.take(i as int),
        decreases v.len() - i,
    {
        r.push(v[i]);
        assert(v@.take(i + 1) =~= v@.take(i as int).push(v@[i as int]));
        i = i + 1;
    }
    assert(v@.take(i as int) =~= v@);
    r
}

/// Copies lines.
pub(crate) fn copy_lines(v: &Vec<String>) -> (r: Vec<String>)
    ensures
        string_views(r@) == string_views(v@),
{
    let mut r: Vec<String> = Vec::new();
    let mut i: usize = 0;
    while i < v.len()
        invariant
            i <= v@.len(),
            r@.len() == i,
            forall|j: int| 0 <= j < i ==> (#[trigger] r@[j])@ == v@[j]@,
        decreases v.len() - i,
    {
        r.push(v[i].as_str().to_owned());
        i = i + 1;
    }
    assert(string_views(r@) =~= string_views(v@));
    r
}

/// A packed colour, where it is not the page's own.
fn colour_of_its_own(c: u32) -> (r: Option<u32>)
    ensures
        r == own_colour(c),
{
    if c == 0 {
        None
    } else {
        Some(c)
    }
}

/// Divides, counting a part as a whole.
fn div_up(a: u16, b: u16) -> (r: u16)
    requires
        b > 0,
    ensures
        r == ceil_div(a as int, b as int),
{
    assert(a as int / b as int <= a && (a % b != 0 ==> (a as int / b as int) < a))
        by (nonlinear_arith)
        requires
            b > 0,
    ;
    if a % b == 0 {
        a / b
    } else {
        a / b + 1
    }
}

/// A sum within the range.
fn sum16(a: u16, b: u16) -> (r: u16)
    ensures
        r == plus16(a as int, b as int),
{
    a.saturating_add(b)
}

/// The box around a list of runs.
fn box_of_runs(v: &Vec<PaintRun>, font_h: u16) -> (r: (u16, u16, u16, u16))
    ensures
        ({
            let b = runs_box(v@, font_h, v@.len());
            r.0 == b.0 && r.1 == b.1 && r.2 == b.2 && r.3 == b.3
        }),
        v@.len() > 0 ==> r.0 <= r.2 && r.1 <= r.3,
{
    let mut x0: u16 = 0xffff;
    let mut y0: u16 = 0xffff;
    let mut x1: u16 = 0;
    let mut y1: u16 = 0;
    let mut i: usize = 0;
    while i < v.len()
        invariant
            i <= v@.len(),
            ({
                let b = runs_box(v@, font_h, i as nat);
                x0 == b.0 && y0 == b.1 && x1 == b.2 && y1 == b.3
            }),
            i > 0 ==> x0 <= x1 && y0 <= y1,
        decreases v.len() - i,
    {
        let t = &v[i];
        let w: u16 = if t.width_px > 0xffff {
            0xffff
        } else {
            t.width_px as u16
        };
        let left: u16 = t.x.saturating_sub(1);
        let top: u16 = t.y.saturating_sub(1);
        let right: u16 = sum16(left, w);
        let bottom: u16 = sum16(top, font_h);
        assert(runs_box(v@, font_h, (i + 1) as nat) == {
            let b = runs_box(v@, font_h, i as nat);
            let t = v@[i as int];
            (
                smaller(b.0, from_zero(t.x) as int),
                smaller(b.1, from_zero(t.y) as int),
                larger(b.2, plus16(from_zero(t.x) as int, smaller(t.width_px as int, 0xffff))),
                larger(b.3, plus16(from_zero(t.y) as int, font_h as int)),
            )
        });
        if left < x0 {
            x0 = left;
        }
        if top < y0 {
            y0 = top;
        }
        if right > x1 {
            x1 = right;
        }
        if bottom > y1 {
            y1 = bottom;
        }
        i = i + 1;
    }
    (x0, y0, x1, y1)
}

/// The layer of the text that a window left behind when it was moved.
fn layer_left_behind(m: &Machine, win: &ZWindow) -> (r: PositionedWindow)
    requires
        m.wf(),
        win.retired@.len() > 0,
    ensures
        r@ == retired_layer(m, *win),
        r.node.wf(),
{
    let (x0, y0, x1, y1) = box_of_runs(&win.retired, m.cell.1);
    let r = PositionedWindow {
        x: x0 / m.cell.0,
        y: y0 / m.cell.1,
        w: div_up(x1 - x0, m.cell.0),
        h: div_up(y1 - y0, m.cell.1),
        x_px: x0,
        y_px: y0,
        w_px: x1 - x0,
        h_px: y1 - y0,
        left_margin: win.left_margin,
        right_margin: win.right_margin,
        node: WinNode::Grid(
            GridWindow {
                cols: 0,
                rows: 0,
                cells: Vec::new(),
                active_rows: 0,
                cursor: (1, 1),
                cursor_active: false,
                bg: None,
                fg: None,
                fill: None,
                px_texts: show_runs(&win.retired),
            },
        ),
    };
    assert(r@ =~~= retired_layer(m, *win));
    r
}

/// A window's box with something in it.
fn place(m: &Machine, win: &ZWindow, node: WinNode) -> (r: PositionedWindow)
    requires
        m.wf(),
        node.wf(),
    ensures
        r@ == placed_window(m, *win, node@),
        r.node.wf(),
{
    let x_px: u16 = win.x_coord.saturating_sub(1);
    let y_px: u16 = win.y_coord.saturating_sub(1);
    let (w_px, h_px) = m.v6_clip_box(x_px, y_px, win.x_size, win.y_size);
    PositionedWindow {
        x: x_px / m.cell.0,
        y: y_px / m.cell.1,
        w: win.grid.cols,
        h: win.grid.rows,
        x_px,
        y_px,
        w_px,
        h_px,
        left_margin: win.left_margin,
        right_margin: win.right_margin,
        node,
    }
}

/// The fill that is still the newest paint on a window.
fn fill_on_top(m: &Machine, fills: &WindowMap<WindowFill>, i: u8, win: &ZWindow, prose: usize) -> (r:
    Option<ErasedFill>)
    requires
        m.has_window(i),
        *win == m.window(i),
        prose == prose_window(m),
        fills.wf(),
    ensures
        r == live_fill(m, fills@, i),
{
    match fills.get(i) {
        Some(f) => {
            let x: u64 = win.x_coord.saturating_sub(1) as u64;
            let y: u64 = win.y_coord.saturating_sub(1) as u64;
            let covers: bool = f.x as u64 <= x && f.y as u64 <= y && f.x as u64 + f.w as u64 >= x
                + win.x_size as u64 && f.y as u64 + f.h as u64 >= y + win.y_size as u64;
            if i as usize != prose && covers && f.out_chars == m.win0_out_chars {
                Some(ErasedFill { bg: f.bg, seq: f.seq })
            } else {
                None
            }
        },
        None => None,
    }
}

/// What a window shows of its text.
fn node_for_text(
    m: &Machine,
    fills: &WindowMap<WindowFill>,
    i: u8,
    win: &ZWindow,
    prose: usize,
    current: u8,
) -> (r: WinNode)
    requires
        m.wf(),
        m.has_window(i),
        *win == m.window(i),
        prose == prose_window(m),
        current == m.v6->0.current,
        fills.wf(),
    ensures
        r@ == text_node(m, fills@, i),
        r.wf(),
{
    if i as usize == prose && win.attributes & 1 != 0 {
        let mut b: BufferWindow = BufferWindow::plain(Vec::new());
        b.primary = true;
        b.bg = colour_of_its_own(win.bg);
        b.fg = colour_of_its_own(win.fg);
        b.px_runs = show_runs(&win.streamed);
        let r = WinNode::Buffer(b);
        assert(r@->Buffer_0.lines =~= seq![]);
        assert(r@ =~~= text_node(m, fills@, i));
        r
    } else if win.prose.len() > 0 {
        let mut b: BufferWindow = BufferWindow::plain(copy_lines(&win.prose));
        b.bg = colour_of_its_own(win.bg);
        b.fg = colour_of_its_own(win.fg);
        b.reads_input = m.input_window == i;
        WinNode::Buffer(b)
    } else {
        let row: u16 = win.y_cursor.saturating_sub(1) / m.cell.1;
        let col: u16 = win.x_cursor.saturating_sub(1) / m.cell.0;
        assert(row <= 0xfffe) by (nonlinear_arith)
            requires
                m.cell.1 > 0,
                row == from_zero(win.y_cursor) as int / m.cell.1 as int,
                from_zero(win.y_cursor) <= 0xfffe,
        ;
        assert(col <= 0xfffe) by (nonlinear_arith)
            requires
                m.cell.0 > 0,
                col == from_zero(win.x_cursor) as int / m.cell.0 as int,
                from_zero(win.x_cursor) <= 0xfffe,
        ;
        WinNode::Grid(
            GridWindow {
                cols: win.grid.cols,
                rows: win.grid.rows,
                cells: copy_cells(&win.grid.cells),
                active_rows: win.grid.rows,
                cursor: (row + 1, col + 1),
                cursor_active: current == i,
                bg: colour_of_its_own(win.bg),
                fg: colour_of_its_own(win.fg),
                fill: fill_on_top(m, fills, i, win, prose),
                px_texts: show_runs(&win.texts),
            },
        )
    }
}

/// Whether a window is left out.
fn is_left_out(m: &Machine, visible: &WindowMap<Canvas>, i: u8, win: &ZWindow, prose: usize) -> (r:
    bool)
    requires
        m.has_window(i),
        *win == m.window(i),
        prose == prose_window(m),
        visible.wf(),
    ensures
        r == left_out(m, visible@.dom(), i),
{
    let bare: bool = win.texts.len() == 0;
    let blank: bool = bare && !visible.contains(0);
    (i == 0 && prose != 0 && blank) || ((win.x_size == 0 || win.y_size == 0) && bare) || (i == 0
        && blank && m.win0_out_chars == 0 && win.x_coord == 1 && win.y_coord == 1 && win.x_size
        == m.screen_w_px && win.y_size == m.screen_h_px)
}

/// The window that the story's text flows through.
fn prose_window_of(m: &Machine) -> (r: usize)
    requires
        m.wf(),
        m.v6 is Some,
    ensures
        r == prose_window(m),
        r < m.v6->0.windows@.len(),
{
    match &m.v6 {
        Some(v6) => {
            let cur: usize = v6.current as usize;
            let w = &v6.windows[cur];
            if w.attributes & 3 == 3 && !w.diverts_prose {
                cur
            } else {
                0
            }
        },
        None => 0,
    }
}

/// The text layers of a screen with windows.
fn layers_of_text(m: &Machine, visible: &WindowMap<Canvas>, fills: &WindowMap<WindowFill>) -> (r: Vec<
    PositionedWindow,
>)
    requires
        m.wf(),
        m.v6 is Some,
        visible.wf(),
        fills.wf(),
    ensures
        pos_views(r@) == text_layers(m, visible@.dom(), fills@, m.v6->0.windows@.len()),
        forall|i: int| 0 <= i < r@.len() ==> (#[trigger] r@[i]).node.wf(),
{
    let mut r: Vec<PositionedWindow> = Vec::new();
    assert(pos_views(r@) =~= seq![]);
    let prose: usize = prose_window_of(m);
    if let Some(v6) = &m.v6 {
        let mut n: usize = 0;
        while n < v6.windows.len()
            invariant
                m.wf(),
                m.v6 == Some(*v6),
                visible.wf(),
                fills.wf(),
                prose == prose_window(m),
                n <= v6.windows@.len() <= 256,
                pos_views(r@) == text_layers(m, visible@.dom(), fills@, n as nat),
                forall|i: int| 0 <= i < r@.len() ==> (#[trigger] r@[i]).node.wf(),
            decreases v6.windows.len() - n,
        {
            let i: u8 = n as u8;
            let win = &v6.windows[n];
            let ghost before = pos_views(r@);
            assert(text_layers(m, visible@.dom(), fills@, (n + 1) as nat) == {
                let w = m.window(i);
                let shown = placed_window(m, w, text_node(m, fills@, i));
                if left_out(m, visible@.dom(), i) {
                    before
                } else if w.retired@.len() > 0 {
                    before.push(retired_layer(m, w)).push(shown)
                } else {
                    before.push(shown)
                }
            });
            if !is_left_out(m, visible, i, win, prose) {
                if win.retired.len() > 0 {
                    let ghost r0 = r@;
                    r.push(layer_left_behind(m, win));
                    assert(pos_views(r@) =~= pos_views(r0).push(r@.last()@));
                }
                let node: WinNode = node_for_text(m, fills, i, win, prose, v6.current);
                let ghost r1 = r@;
                r.push(place(m, win, node));
                assert(pos_views(r@) =~= pos_views(r1).push(r@.last()@));
            }
            n = n + 1;
        }
    }
    r
}

/// When the canvas of each window that is shown was last drawn into.
fn stamps_of_shown(m: &Machine, visible: &WindowMap<Canvas>) -> (r: WindowMap<u64>)
    requires
        m.wf(),
        m.v6 is Some,
        visible.wf(),
    ensures
        r.wf(),
        r@ == shown_stamps(m, canvas_views(visible@)),
{
    let mut r: WindowMap<u64> = WindowMap::new();
    let prose: usize = prose_window_of(m);
    let ghost goal = shown_stamps(m, canvas_views(visible@));
    assert(canvas_views(visible@).dom() =~= visible@.dom());
    if let Some(v6) = &m.v6 {
        let mut n: usize = 0;
        while n < v6.windows.len()
            invariant
                m.wf(),
                m.v6 == Some(*v6),
                visible.wf(),
                prose == prose_window(m),
                n <= v6.windows@.len() <= 256,
                r.wf(),
                goal == shown_stamps(m, canvas_views(visible@)),
                canvas_views(visible@).dom() == visible@.dom(),
                forall|k: u8| #[trigger] r@.dom().contains(k) <==> k < n && goal.dom().contains(k),
                forall|k: u8| #[trigger] r@.dom().contains(k) ==> r@[k] == goal[k],
            decreases v6.windows.len() - n,
        {
            let i: u8 = n as u8;
            if !is_left_out(m, visible, i, &v6.windows[n], prose) {
                if let Some(c) = visible.get(i) {
                    r.insert(i, c.z_seq);
                }
            }
            n = n + 1;
        }
        assert forall|k: u8| #[trigger] goal.dom().contains(k) implies k < n by {
            assert(m.has_window(k));
        }
    }
    assert(r@ =~= goal);
    r
}

/// The picture layers of a screen with windows.
fn layers_of_pictures(m: &Machine, visible: &WindowMap<Canvas>) -> (r: Vec<PositionedWindow>)
    requires
        m.wf(),
        m.v6 is Some,
        canvases_wf(visible),
    ensures
        pos_views(r@) == picture_layers(m, canvas_views(visible@)),
        forall|i: int| 0 <= i < r@.len() ==> (#[trigger] r@[i]).node.wf(),
{
    let stamps: WindowMap<u64> = stamps_of_shown(m, visible);
    let order: Vec<u8> = order_windows(&stamps);
    let mut r: Vec<PositionedWindow> = Vec::new();
    let ghost canvases = canvas_views(visible@);
    proof {
        the_order_follows_the_stamps(stamps@);
    }
    if let Some(v6) = &m.v6 {
        let mut n: usize = 0;
        while n < order.len()
            invariant
                m.wf(),
                m.v6 == Some(*v6),
                canvases_wf(visible),
                canvases == canvas_views(visible@),
                stamps@ == shown_stamps(m, canvases),
                order@ == stamp_order(stamps@),
                forall|k: u8| #[trigger]
                    stamp_order(stamps@).contains(k) <==> stamps@.dom().contains(k),
                n <= order@.len(),
                r@.len() == n,
                forall|j: int|
                    0 <= j < n ==> (#[trigger] pos_views(r@)[j]) == placed_window(
                        m,
                        m.window(order@[j]),
                        canvas_node(order@[j], canvases[order@[j]]),
                    ),
                forall|i: int| 0 <= i < r@.len() ==> (#[trigger] r@[i]).node.wf(),
            decreases order.len() - n,
        {
            let k: u8 = order[n];
            let ghost r0 = r@;
            assert(stamp_order(stamps@).contains(k));
            assert(m.has_window(k) && visible@.dom().contains(k));
            if let Some(c) = visible.get(k) {
                assert(visible@[k].wf());
                let node = WinNode::Graphics(
                    GraphicsWindow {
                        win: k as u32,
                        canvas: c.img.copy(),
                        version: c.version,
                        upscale: false,
                    },
                );
                assert(node@ =~~= canvas_node(k, canvases[k]));
                r.push(place(m, &v6.windows[k as usize], node));
            }
            assert forall|j: int| 0 <= j < r@.len() implies (#[trigger] pos_views(r@)[j])
                == placed_window(
                m,
                m.window(order@[j]),
                canvas_node(order@[j], canvases[order@[j]]),
            ) by {
                if j < r0.len() {
                    assert(pos_views(r@)[j] == pos_views(r0)[j]);
                }
            }
            n = n + 1;
        }
    }
    assert(pos_views(r@) =~= picture_layers(m, canvases));
    r
}

/// Whether a layer's box ends within the range of 16-bit numbers.
pub open spec fn ends(p: PosView) -> bool {
    p.x + p.w <= 0xffff && p.y + p.h <= 0xffff
}

/// Dividing makes no larger, and neither does dividing with a part counted as a whole.
proof fn lemma_div_shrinks(a: int, b: int)
    requires
        a >= 0,
        b > 0,
    ensures
        0 <= a / b <= a,
        0 <= ceil_div(a, b) <= a,
{
    assert(0 <= a / b <= a && (a % b != 0 ==> a / b < a)) by (nonlinear_arith)
        requires
            a >= 0,
            b > 0,
    ;
}

/// The box around some runs lies within the range, and its left is no further right than
/// its right.
proof fn lemma_runs_box(v: Seq<PaintRun>, font_h: u16, n: nat)
    requires
        n <= v.len(),
    ensures
        ({
            let b = runs_box(v, font_h, n);
            &&& 0 <= b.0 <= 0xffff
            &&& 0 <= b.1 <= 0xffff
            &&& 0 <= b.2 <= 0xffff
            &&& 0 <= b.3 <= 0xffff
            &&& n > 0 ==> b.0 <= b.2 && b.1 <= b.3
        }),
    decreases n,
{
    if n > 0 {
        lemma_runs_box(v, font_h, (n - 1) as nat);
    }
}

/// The layer that a window left behind ends within the range.
proof fn lemma_retired_ends(m: &Machine, win: ZWindow)
    requires
        m.wf(),
        win.retired@.len() > 0,
    ensures
        ends(retired_layer(m, win)),
{
    let b = runs_box(win.retired@, m.cell.1, win.retired@.len());
    lemma_runs_box(win.retired@, m.cell.1, win.retired@.len());
    lemma_div_shrinks(b.0, m.cell.0 as int);
    lemma_div_shrinks(b.1, m.cell.1 as int);
    lemma_div_shrinks(b.2 - b.0, m.cell.0 as int);
    lemma_div_shrinks(b.3 - b.1, m.cell.1 as int);
}

/// A window's box ends within the range.
proof fn lemma_placed_ends(m: &Machine, win: u8, node: NodeView)
    requires
        m.wf(),
        boxes_end(m),
        m.has_window(win),
    ensures
        ends(placed_window(m, m.window(win), node)),
{
    let w = m.v6->0.windows@[win as int];
    lemma_div_shrinks(from_zero(w.x_coord) as int, m.cell.0 as int);
    lemma_div_shrinks(from_zero(w.y_coord) as int, m.cell.1 as int);
}

/// Every text layer ends within the range.
proof fn lemma_text_ends(m: &Machine, drawn: Set<u8>, fills: Map<u8, WindowFill>, n: nat)
    requires
        m.wf(),
        m.v6 is Some,
        boxes_end(m),
        n <= m.v6->0.windows@.len(),
    ensures
        forall|i: int|
            0 <= i < text_layers(m, drawn, fills, n).len() ==> ends(
                #[trigger] text_layers(m, drawn, fills, n)[i],
            ),
    decreases n,
{
    if n > 0 {
        lemma_text_ends(m, drawn, fills, (n - 1) as nat);
        let win = (n - 1) as u8;
        lemma_placed_ends(m, win, text_node(m, fills, win));
        if m.window(win).retired@.len() > 0 {
            lemma_retired_ends(m, m.window(win));
        }
        let before = text_layers(m, drawn, fills, (n - 1) as nat);
        let now = text_layers(m, drawn, fills, n);
        assert forall|i: int| 0 <= i < now.len() implies ends(#[trigger] now[i]) by {
            if i < before.len() {
                assert(now[i] == before[i]);
            }
        }
    }
}

/// Every picture layer ends within the range.
proof fn lemma_pictures_end(m: &Machine, canvases: Map<u8, CanvasView>)
    requires
        m.wf(),
        m.v6 is Some,
        boxes_end(m),
    ensures
        forall|i: int|
            0 <= i < picture_layers(m, canvases).len() ==> ends(
                #[trigger] picture_layers(m, canvases)[i],
            ),
{
    let stamps = shown_stamps(m, canvases);
    the_order_follows_the_stamps(stamps);
    assert forall|i: int| 0 <= i < picture_layers(m, canvases).len() implies ends(
        #[trigger] picture_layers(m, canvases)[i],
    ) by {
        let k = stamp_order(stamps)[i];
        assert(stamp_order(stamps).contains(k));
        assert(stamps.dom().contains(k));
        lemma_placed_ends(m, k, canvas_node(k, canvases[k]));
    }
}

/// The extent in characters that layers cover, or that of the screen where they cover none.
fn size_covered(m: &Machine, layers: &Vec<PositionedWindow>) -> (r: (u16, u16))
    requires
        forall|i: int| 0 <= i < layers@.len() ==> ends(#[trigger] pos_views(layers@)[i]),
    ensures
        r == covered(m, pos_views(layers@)),
{
    let mut max_x: u16 = 0;
    let mut max_y: u16 = 0;
    let mut n: usize = 0;
    while n < layers.len()
        invariant
            n <= layers@.len(),
            forall|i: int| 0 <= i < layers@.len() ==> ends(#[trigger] pos_views(layers@)[i]),
            max_x == extent(pos_views(layers@), n as nat).0,
            max_y == extent(pos_views(layers@), n as nat).1,
        decreases layers.len() - n,
    {
        let p = &layers[n];
        assert(pos_views(layers@)[n as int] == layers@[n as int]@);
        assert(extent(pos_views(layers@), (n + 1) as nat) == {
            let e = extent(pos_views(layers@), n as nat);
            let p = pos_views(layers@)[n as int];
            (larger(e.0, p.x + p.w), larger(e.1, p.y + p.h))
        });
        if p.x + p.w > max_x {
            max_x = p.x + p.w;
        }
        if p.y + p.h > max_y {
            max_y = p.y + p.h;
        }
        n = n + 1;
    }
    if max_x == 0 || max_y == 0 {
        (m.screen_cols as u16, m.screen_rows as u16)
    } else {
        (max_x, max_y)
    }
}

/// Builds the status of the game: an automatic line with the place and the score or the
/// time up to version 3; later games show their own.
pub fn status_model_from_machine(machine: &Machine) -> (r: StatusModel)
    ensures
        r@ == status_of(machine),
{
    if machine.version <= 3 {
        StatusModel::Classic {
            location: machine.status_line.location.as_str().to_owned(),
            right: machine.status_line.right,
        }
    } else {
        StatusModel::HostManaged
    }
}

/// Builds a screen with windows over a set of canvases: the settled ones, or those of a
/// frame that is still on its way. All else is read from the windows as they are.
///
/// The pictures lie behind, in the order in which they were drawn, and the text in front,
/// in the order of the windows.
pub fn v6_screen_model(
    m: &Machine,
    visible: &WindowMap<Canvas>,
    fills: &WindowMap<WindowFill>,
) -> (r: ScreenModel)
    requires
        m.wf(),
        m.v6 is Some,
        boxes_end(m),
        canvases_wf(visible),
        fills.wf(),
    ensures
        r@ == v6_model(m, canvas_views(visible@), fills@),
        r.root.wf(),
{
    let mut layers: Vec<PositionedWindow> = layers_of_pictures(m, visible);
    let mut text: Vec<PositionedWindow> = layers_of_text(m, visible, fills);
    let ghost canvases = canvas_views(visible@);
    let ghost pics0 = layers@;
    let ghost text0 = text@;
    assert(canvases.dom() =~= visible@.dom());
    layers.append(&mut text);
    proof {
        assert(layers@ == pics0 + text0);
        assert(pos_views(layers@) =~= pos_views(pics0) + pos_views(text0));
        assert(pos_views(layers@) == all_layers(m, canvases, fills@));
        lemma_pictures_end(m, canvases);
        lemma_text_ends(m, canvases.dom(), fills@, m.v6->0.windows@.len());
        let n = pics0.len();
        assert forall|i: int| 0 <= i < layers@.len() implies ends(
            #[trigger] pos_views(layers@)[i],
        ) by {
            if i < n {
                assert(pos_views(layers@)[i] == picture_layers(m, canvases)[i]);
            } else {
                assert(pos_views(layers@)[i] == pos_views(text0)[i - n]);
                assert(pos_views(text0)[i - n] == text_layers(
                    m,
                    canvases.dom(),
                    fills@,
                    m.v6->0.windows@.len(),
                )[i - n]);
            }
        }
        assert forall|i: int| 0 <= i < layers@.len() implies (#[trigger] layers@[i]).node.wf() by {
            if i < n {
                assert(layers@[i] == pics0[i]);
            } else {
                assert(layers@[i] == text0[i - n]);
            }
        }
    }
    let content_size: (u16, u16) = size_covered(m, &layers);
    if layers.len() == 0 {
        let mut story: BufferWindow = BufferWindow::plain(Vec::new());
        story.primary = true;
        let ghost none: Seq<String> = seq![];
        assert(string_views(none) =~= seq![]);
        layers.push(
            PositionedWindow {
                x: 0,
                y: 0,
                w: content_size.0,
                h: content_size.1,
                x_px: 0,
                y_px: 0,
                w_px: m.screen_w_px,
                h_px: m.screen_h_px,
                left_margin: 0,
                right_margin: 0,
                node: WinNode::Buffer(story),
            },
        );
        assert(pos_views(layers@) =~~= seq![whole_screen(m, content_size)]);
    }
    let (fg, bg) = match m.page_pair {
        Some(p) => p,
        None => (0, 0),
    };
    ScreenModel {
        root: Layout::Layered(layers),
        status: status_model_from_machine(m),
        bg,
        fg,
        content_size,
    }
}

/// A screen with two windows, as it is shown: the upper one above the story.
pub open spec fn split_model(m: &Machine) -> ModelView {
    ModelView {
        root: LayoutView::Stacked(
            seq![
                (
                    m.upper.rows,
                    false,
                    NodeView::Grid(
                        GridView {
                            cols: m.upper.cols,
                            rows: m.upper.rows,
                            cells: m.upper.cells@,
                            active_rows: m.upper.rows,
                            cursor: (m.cursor_row, m.cursor_col),
                            cursor_active: m.current_window == 1,
                            bg: None,
                            fg: None,
                            fill: None,
                            px_texts: seq![],
                        },
                    ),
                ),
            ],
            NodeView::Buffer(plain_buffer(seq![])),
        ),
        status: status_of(m),
        bg: m.current_bg,
        fg: m.current_fg,
        content_size: (0, 0),
    }
}

/// Builds a screen with two windows. The upper one is shown with all of its rows, also
/// those that it grew by when the game drew below the split; the lower one is a place for
/// the transcript, which the host keeps.
pub fn screen_model_from_machine(machine: &Machine) -> (r: ScreenModel)
    ensures
        r@ == split_model(machine),
        r.root.wf(),
{
    let upper = GridWindow {
        cols: machine.upper.cols,
        rows: machine.upper.rows,
        cells: copy_cells(&machine.upper.cells),
        active_rows: machine.upper.rows,
        cursor: (machine.cursor_row, machine.cursor_col),
        cursor_active: machine.current_window == 1,
        bg: None,
        fg: None,
        fill: None,
        px_texts: Vec::new(),
    };
    assert(px_views(upper.px_texts@) =~= seq![]);
    let mut bands: Vec<Band> = Vec::new();
    bands.push(Band { rows: machine.upper.rows, border: false, node: WinNode::Grid(upper) });
    let none: Vec<String> = Vec::new();
    assert(string_views(none@) =~= seq![]);
    let r = ScreenModel {
        root: Layout::Stacked(bands, WinNode::Buffer(BufferWindow::plain(none))),
        status: status_model_from_machine(machine),
        bg: machine.current_bg,
        fg: machine.current_fg,
        content_size: (0, 0),
    };
    assert(r@.root->Stacked_0 =~~= split_model(machine).root->Stacked_0);
    r
}

// ── Laws ──────────────────────────────────────────────────────────────────────
/// A screen with windows always shows something: no story is left with a blank screen.
pub proof fn a_screen_is_never_empty(
    m: &Machine,
    canvases: Map<u8, CanvasView>,
    fills: Map<u8, WindowFill>,
)
    ensures
        v6_model(m, canvases, fills).root matches LayoutView::Layered(layers) && layers.len() > 0,
{
}

/// Every picture lies behind every text, and of two pictures the one drawn later lies in
/// front.
pub proof fn pictures_lie_behind_text(
    m: &Machine,
    canvases: Map<u8, CanvasView>,
    fills: Map<u8, WindowFill>,
    i: int,
    j: int,
)
    requires
        0 <= i < j < all_layers(m, canvases, fills).len(),
        all_layers(m, canvases, fills)[j].node is Graphics,
    ensures
        all_layers(m, canvases, fills)[i].node is Graphics,
        ({
            let a = all_layers(m, canvases, fills)[i].node->Graphics_0.win as u8;
            let b = all_layers(m, canvases, fills)[j].node->Graphics_0.win as u8;
            canvases[a].z_seq <= canvases[b].z_seq
        }),
{
    let pics = picture_layers(m, canvases);
    let n = m.v6->0.windows@.len();
    let text = text_layers(m, canvases.dom(), fills, n);
    if j >= pics.len() {
        lemma_text_is_no_picture(m, canvases.dom(), fills, n);
        assert(all_layers(m, canvases, fills)[j] == text[j - pics.len()]);
        assert(false);
    }
    let stamps = shown_stamps(m, canvases);
    the_order_follows_the_stamps(stamps);
    let order = stamp_order(stamps);
    assert(pics[i].node == canvas_node(order[i], canvases[order[i]]));
    assert(pics[j].node == canvas_node(order[j], canvases[order[j]]));
    assert(order.contains(order[i]));
    assert(order.contains(order[j]));
    assert(stamps[order[i]] <= stamps[order[j]]);
}

/// No text layer is a picture.
proof fn lemma_text_is_no_picture(m: &Machine, drawn: Set<u8>, fills: Map<u8, WindowFill>, n: nat)
    ensures
        forall|i: int|
            0 <= i < text_layers(m, drawn, fills, n).len() ==> !((#[trigger] text_layers(
                m,
                drawn,
                fills,
                n,
            )[i]).node is Graphics),
    decreases n,
{
    if n > 0 {
        lemma_text_is_no_picture(m, drawn, fills, (n - 1) as nat);
    }
}

/// At most one text layer is the window of the story, and none before its turn.
proof fn lemma_one_story(m: &Machine, drawn: Set<u8>, fills: Map<u8, WindowFill>, n: nat)
    requires
        n <= 256,
    ensures
        forall|i: int, j: int|
            0 <= i < text_layers(m, drawn, fills, n).len() && 0 <= j < text_layers(
                m,
                drawn,
                fills,
                n,
            ).len() && is_story(#[trigger] text_layers(m, drawn, fills, n)[i]) && is_story(
                #[trigger] text_layers(m, drawn, fills, n)[j],
            ) ==> i == j,
        n <= prose_window(m) ==> forall|i: int|
            0 <= i < text_layers(m, drawn, fills, n).len() ==> !is_story(
                #[trigger] text_layers(m, drawn, fills, n)[i],
            ),
    decreases n,
{
    if n > 0 {
        lemma_one_story(m, drawn, fills, (n - 1) as nat);
        let before = text_layers(m, drawn, fills, (n - 1) as nat);
        let now = text_layers(m, drawn, fills, n);
        assert forall|i: int| 0 <= i < before.len() implies now[i] == before[i] by {}
    }
}

/// At most one window of the story is shown.
pub proof fn at_most_one_story_window(
    m: &Machine,
    canvases: Map<u8, CanvasView>,
    fills: Map<u8, WindowFill>,
    i: int,
    j: int,
)
    requires
        m.wf(),
        m.v6 is Some,
        ({
            let layers = v6_model(m, canvases, fills).root->Layered_0;
            &&& 0 <= i < layers.len()
            &&& 0 <= j < layers.len()
            &&& is_story(layers[i])
            &&& is_story(layers[j])
        }),
    ensures
        i == j,
{
    let n = m.v6->0.windows@.len();
    let pics = picture_layers(m, canvases);
    let text = text_layers(m, canvases.dom(), fills, n);
    lemma_one_story(m, canvases.dom(), fills, n);
    if (pics + text).len() > 0 {
        assert(i >= pics.len() && j >= pics.len());
        assert((pics + text)[i] == text[i - pics.len()]);
        assert((pics + text)[j] == text[j - pics.len()]);
    }
}

/// Whether a layer is the window of the story.
pub open spec fn is_story(p: PosView) -> bool {
    p.node matches NodeView::Buffer(b) && b.primary
}

} // verus!
