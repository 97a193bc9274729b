//! The screen as it is shown: windows with their boxes, their text and their pictures.

use crate::art::{ImageView, InlineImage};
use crate::canvas::CanvasView;
use crate::layers::WindowFill;
use crate::machine::{from_zero, larger, smaller, CharCell, Machine, PaintRun, StatusRight, ZWindow};
use crate::order::stamp_order;
use crate::raster::{Grid, Raster};
use crate::text::string_views;
use crate::transcript::{CaptureRun, ParaFmt};
use vstd::prelude::*;

verus! {

// ── The model ─────────────────────────────────────────────────────────────────
/// A run of text at a position of the screen, counted from one, in pixels.
#[derive(Debug)]
pub struct PxText {
    pub y: u16,
    pub x: u16,
    pub text: String,
    pub style: u8,
    pub fg: u32,
    pub bg: u32,
    pub grow: u16,
    pub gcol: u16,
}

/// A fill that is still the newest paint on a window.
#[derive(Clone, Copy, Debug, PartialEq, Eq, Structural)]
pub struct ErasedFill {
    pub bg: u32,
    pub seq: u64,
}

/// A window of characters at fixed places.
#[derive(Debug)]
pub struct GridWindow {
    pub cols: u16,
    pub rows: u16,
    pub cells: Vec<CharCell>,
    /// How many rows are shown.
    pub active_rows: u16,
    /// The row and the column of the cursor, counted from one.
    pub cursor: (u16, u16),
    pub cursor_active: bool,
    pub bg: Option<u32>,
    pub fg: Option<u32>,
    pub fill: Option<ErasedFill>,
    /// The text at its own positions.
    pub px_texts: Vec<PxText>,
}

/// A window of flowing text. Each of its lines has its styles, its paragraph and its image.
#[derive(Debug)]
pub struct BufferWindow {
    /// Whether it is the window of the story, whose lines the host keeps.
    pub primary: bool,
    pub lines: Vec<String>,
    pub runs: Vec<Vec<CaptureRun>>,
    pub para: Vec<ParaFmt>,
    pub images: Vec<Option<InlineImage>>,
    pub bg: Option<u32>,
    pub fg: Option<u32>,
    /// Whether it is a panel above the transcript.
    pub panel: bool,
    /// Where the text that flowed through the window is sitting.
    pub px_runs: Vec<PxText>,
    /// Whether the player types into it.
    pub reads_input: bool,
}

/// A window of pixels.
#[derive(Debug)]
pub struct GraphicsWindow {
    pub win: u32,
    pub canvas: Raster,
    /// Advances with every change of the canvas.
    pub version: u64,
    /// Whether the canvas is scaled to fill its place.
    pub upscale: bool,
}

/// What a window shows.
#[derive(Debug)]
pub enum WinNode {
    Grid(GridWindow),
    Buffer(BufferWindow),
    Graphics(GraphicsWindow),
}

/// A window with its box, in characters and in pixels.
#[derive(Debug)]
pub struct PositionedWindow {
    pub x: u16,
    pub y: u16,
    pub w: u16,
    pub h: u16,
    pub x_px: u16,
    pub y_px: u16,
    pub w_px: u16,
    pub h_px: u16,
    pub left_margin: u16,
    pub right_margin: u16,
    pub node: WinNode,
}

/// A window of a fixed number of rows at the top of what is left of the screen.
#[derive(Debug)]
pub struct Band {
    pub rows: u16,
    /// Whether a line is drawn below it.
    pub border: bool,
    pub node: WinNode,
}

/// How the windows share the screen.
#[derive(Debug)]
pub enum Layout {
    /// Windows over one another, from the back to the front.
    Layered(Vec<PositionedWindow>),
    /// Bands from the top down, and the window that takes the rest.
    Stacked(Vec<Band>, WinNode),
}

/// The status of the game.
#[derive(Debug)]
pub enum StatusModel {
    /// An automatic status line.
    Classic { location: String, right: StatusRight },
    /// The game shows its own.
    HostManaged,
}

/// The screen.
#[derive(Debug)]
pub struct ScreenModel {
    pub root: Layout,
    pub status: StatusModel,
    /// The packed page colour of the whole screen.
    pub bg: u32,
    pub fg: u32,
    /// The extent that the windows cover, in characters.
    pub content_size: (u16, u16),
}

// ── Its mathematical model ────────────────────────────────────────────────────
/// The model of a [`PxText`].
#[verifier::ext_equal]
pub struct PxView {
    pub y: u16,
    pub x: u16,
    pub text: Seq<char>,
    pub style: u8,
    pub fg: u32,
    pub bg: u32,
    pub grow: u16,
    pub gcol: u16,
}

/// The model of a [`GridWindow`].
#[verifier::ext_equal]
pub struct GridView {
    pub cols: u16,
    pub rows: u16,
    pub cells: Seq<CharCell>,
    pub active_rows: u16,
    pub cursor: (u16, u16),
    pub cursor_active: bool,
    pub bg: Option<u32>,
    pub fg: Option<u32>,
    pub fill: Option<ErasedFill>,
    pub px_texts: Seq<PxView>,
}

/// The model of a [`BufferWindow`].
#[verifier::ext_equal]
pub struct BufferView {
    pub primary: bool,
    pub lines: Seq<Seq<char>>,
    pub runs: Seq<Seq<CaptureRun>>,
    pub para: Seq<ParaFmt>,
    pub images: Seq<Option<ImageView>>,
    pub bg: Option<u32>,
    pub fg: Option<u32>,
    pub panel: bool,
    pub px_runs: Seq<PxView>,
    pub reads_input: bool,
}

/// The model of a [`GraphicsWindow`].
#[verifier::ext_equal]
pub struct GraphicsView {
    pub win: u32,
    pub w: u32,
    pub h: u32,
    pub grid: Grid,
    pub version: u64,
    pub upscale: bool,
}

/// The model of a [`WinNode`].
#[verifier::ext_equal]
pub enum NodeView {
    Grid(GridView),
    Buffer(BufferView),
    Graphics(GraphicsView),
}

/// The model of a [`PositionedWindow`].
#[verifier::ext_equal]
pub struct PosView {
    pub x: u16,
    pub y: u16,
    pub w: u16,
    pub h: u16,
    pub x_px: u16,
    pub y_px: u16,
    pub w_px: u16,
    pub h_px: u16,
    pub left_margin: u16,
    pub right_margin: u16,
    pub node: NodeView,
}

/// The model of a [`Layout`].
#[verifier::ext_equal]
pub enum LayoutView {
    Layered(Seq<PosView>),
    Stacked(Seq<(u16, bool, NodeView)>, NodeView),
}

/// The model of a [`StatusModel`].
#[verifier::ext_equal]
pub enum StatusView {
    Classic(Seq<char>, StatusRight),
    HostManaged,
}

/// The model of a [`ScreenModel`].
#[verifier::ext_equal]
pub struct ModelView {
    pub root: LayoutView,
    pub status: StatusView,
    pub bg: u32,
    pub fg: u32,
    pub content_size: (u16, u16),
}

impl PxText {
    /// The model of the run.
    pub open spec fn view(&self) -> PxView {
        PxView {
            y: self.y,
            x: self.x,
            text: self.text@,
            style: self.style,
            fg: self.fg,
            bg: self.bg,
            grow: self.grow,
            gcol: self.gcol,
        }
    }
}

/// The models of a list of runs.
pub open spec fn px_views(v: Seq<PxText>) -> Seq<PxView> {
    v.map_values(|t: PxText| t@)
}

impl GridWindow {
    /// The model of the window.
    pub open spec fn view(&self) -> GridView {
        GridView {
            cols: self.cols,
            rows: self.rows,
            cells: self.cells@,
            active_rows: self.active_rows,
            cursor: self.cursor,
            cursor_active: self.cursor_active,
            bg: self.bg,
            fg: self.fg,
            fill: self.fill,
            px_texts: px_views(self.px_texts@),
        }
    }
}

impl BufferWindow {
    /// The model of the window.
    pub open spec fn view(&self) -> BufferView {
        BufferView {
            primary: self.primary,
            lines: string_views(self.lines@),
            runs: self.runs@.map_values(|r: Vec<CaptureRun>| r@),
            para: self.para@,
            images: self.images@.map_values(|i: Option<InlineImage>| opt_image_view(i)),
            bg: self.bg,
            fg: self.fg,
            panel: self.panel,
            px_runs: px_views(self.px_runs@),
            reads_input: self.reads_input,
        }
    }

    /// Every line has its styles, its paragraph and its image, and all of them are plain.
    pub open spec fn is_plain(&self) -> bool {
        let n = self.lines@.len();
        &&& self.runs@.len() == n
        &&& self.para@.len() == n
        &&& self.images@.len() == n
        &&& forall|i: int| 0 <= i < n ==> (#[trigger] self.runs@[i])@.len() == 0
        &&& forall|i: int| 0 <= i < n ==> (#[trigger] self.para@[i]).code == 0
        &&& forall|i: int| 0 <= i < n ==> (#[trigger] self.images@[i]) is None
    }

    /// A window with plain lines and nothing else.
    pub fn plain(lines: Vec<String>) -> (r: BufferWindow)
        ensures
            r.is_plain(),
            r@ == plain_buffer(string_views(lines@)),
    {
        let mut runs: Vec<Vec<CaptureRun>> = Vec::new();
        let mut para: Vec<ParaFmt> = Vec::new();
        let mut images: Vec<Option<InlineImage>> = Vec::new();
        let mut i: usize = 0;
        while i < lines.len()
            invariant
                i <= lines@.len(),
                runs@.len() == i,
                para@.len() == i,
                images@.len() == i,
                forall|j: int| 0 <= j < i ==> (#[trigger] runs@[j])@.len() == 0,
                forall|j: int| 0 <= j < i ==> (#[trigger] para@[j]).code == 0,
                forall|j: int| 0 <= j < i ==> (#[trigger] images@[j]) is None,
            decreases lines.len() - i,
        {
            runs.push(Vec::new());
            para.push(ParaFmt { code: 0 });
            images.push(None);
            i = i + 1;
        }
        let r = BufferWindow {
            primary: false,
            lines,
            runs,
            para,
            images,
            bg: None,
            fg: None,
            panel: false,
            px_runs: Vec::new(),
            reads_input: false,
        };
        assert(px_views(r.px_runs@) =~= seq![]);
        assert(r@.runs =~= plain_buffer(string_views(r.lines@)).runs) by {
            assert forall|j: int| 0 <= j < r.runs@.len() implies (#[trigger] r.runs@[j])@
                == Seq::<CaptureRun>::empty() by {
                assert(r.runs@[j]@ =~= seq![]);
            }
        }
        assert(r@.para =~= plain_buffer(string_views(r.lines@)).para);
        assert(r@.images =~= plain_buffer(string_views(r.lines@)).images);
        r
    }
}

/// The model of an image that may be missing.
pub open spec fn opt_image_view(i: Option<InlineImage>) -> Option<ImageView> {
    match i {
        Some(image) => Some(image@),
        None => None,
    }
}

/// A buffer with plain lines and nothing else: none has styles, a paragraph of its own or an
/// image.
pub open spec fn plain_buffer(lines: Seq<Seq<char>>) -> BufferView {
    BufferView {
        primary: false,
        lines,
        runs: Seq::new(lines.len(), |i: int| seq![]),
        para: Seq::new(lines.len(), |i: int| ParaFmt { code: 0 }),
        images: Seq::new(lines.len(), |i: int| None),
        bg: None,
        fg: None,
        panel: false,
        px_runs: seq![],
        reads_input: false,
    }
}

impl GraphicsWindow {
    /// The model of the window.
    pub open spec fn view(&self) -> GraphicsView {
        GraphicsView {
            win: self.win,
            w: self.canvas.width,
            h: self.canvas.height,
            grid: self.canvas.grid(),
            version: self.version,
            upscale: self.upscale,
        }
    }
}

impl WinNode {
    /// The model of the window.
    pub open spec fn view(&self) -> NodeView {
        match self {
            WinNode::Grid(g) => NodeView::Grid(g@),
            WinNode::Buffer(b) => NodeView::Buffer(b@),
            WinNode::Graphics(g) => NodeView::Graphics(g@),
        }
    }

    /// Text is plain, and a canvas has the pixels of its extent.
    pub open spec fn wf(&self) -> bool {
        match self {
            WinNode::Grid(_) => true,
            WinNode::Buffer(b) => b.is_plain(),
            WinNode::Graphics(g) => g.canvas.wf(),
        }
    }
}

impl PositionedWindow {
    /// The model of the window.
    pub open spec fn view(&self) -> PosView {
        PosView {
            x: self.x,
            y: self.y,
            w: self.w,
            h: self.h,
            x_px: self.x_px,
            y_px: self.y_px,
            w_px: self.w_px,
            h_px: self.h_px,
            left_margin: self.left_margin,
            right_margin: self.right_margin,
            node: self.node@,
        }
    }
}

/// The models of a list of windows.
pub open spec fn pos_views(v: Seq<PositionedWindow>) -> Seq<PosView> {
    v.map_values(|p: PositionedWindow| p@)
}

/// The models of a list of bands.
pub open spec fn band_views(v: Seq<Band>) -> Seq<(u16, bool, NodeView)> {
    v.map_values(|b: Band| (b.rows, b.border, b.node@))
}

impl Layout {
    /// The model of the layout.
    pub open spec fn view(&self) -> LayoutView {
        match self {
            Layout::Layered(v) => LayoutView::Layered(pos_views(v@)),
            Layout::Stacked(v, rest) => LayoutView::Stacked(band_views(v@), rest@),
        }
    }

    /// Every window is well formed.
    pub open spec fn wf(&self) -> bool {
        match self {
            Layout::Layered(v) => forall|i: int| 0 <= i < v@.len() ==> (#[trigger] v@[i]).node.wf(),
            Layout::Stacked(v, rest) => rest.wf() && forall|i: int|
                0 <= i < v@.len() ==> (#[trigger] v@[i]).node.wf(),
        }
    }
}

impl StatusModel {
    /// The model of the status.
    pub open spec fn view(&self) -> StatusView {
        match self {
            StatusModel::Classic { location, right } => StatusView::Classic(location@, *right),
            StatusModel::HostManaged => StatusView::HostManaged,
        }
    }
}

impl ScreenModel {
    /// The model of the screen.
    pub open spec fn view(&self) -> ModelView {
        ModelView {
            root: self.root@,
            status: self.status@,
            bg: self.bg,
            fg: self.fg,
            content_size: self.content_size,
        }
    }
}

// ── The parts of a screen with windows ────────────────────────────────────────
/// A painted run, as it is shown.
pub open spec fn shown_run(t: PaintRun) -> PxView {
    PxView {
        y: t.y,
        x: t.x,
        text: t.text@,
        style: t.style,
        fg: t.fg,
        bg: t.bg,
        grow: t.grow,
        gcol: t.gcol,
    }
}

/// Painted runs, as they are shown.
pub open spec fn shown_runs(v: Seq<PaintRun>) -> Seq<PxView> {
    v.map_values(|t: PaintRun| shown_run(t))
}

/// A packed colour, where it is not the page's own.
pub open spec fn own_colour(c: u32) -> Option<u32> {
    if c == 0 {
        None
    } else {
        Some(c)
    }
}

/// A sum, or the largest 16-bit number if that is smaller.
pub open spec fn plus16(a: int, b: int) -> int {
    smaller(a + b, 0xffff)
}

/// How often a number goes into another, counting a part as a whole.
pub open spec fn ceil_div(a: int, b: int) -> int {
    if a % b == 0 {
        a / b
    } else {
        a / b + 1
    }
}

/// The box around the first `n` of a list of runs: its left, its top, its right and its
/// bottom. The width of a run is what the pen made it, and its height that of a character.
pub open spec fn runs_box(v: Seq<PaintRun>, font_h: u16, n: nat) -> (int, int, int, int)
    decreases n,
{
    if n == 0 {
        (0xffff, 0xffff, 0, 0)
    } else {
        let b = runs_box(v, font_h, (n - 1) as nat);
        let t = v[n - 1];
        (
            smaller(b.0, from_zero(t.x) as int),
            smaller(b.1, from_zero(t.y) as int),
            larger(b.2, plus16(from_zero(t.x) as int, smaller(t.width_px as int, 0xffff))),
            larger(b.3, plus16(from_zero(t.y) as int, font_h as int)),
        )
    }
}

/// The layer of the text that a window left behind when it was moved, in a box of its own.
pub open spec fn retired_layer(m: &Machine, win: ZWindow) -> PosView {
    let b = runs_box(win.retired@, m.cell.1, win.retired@.len());
    PosView {
        x: (b.0 / m.cell.0 as int) as u16,
        y: (b.1 / m.cell.1 as int) as u16,
        w: ceil_div(b.2 - b.0, m.cell.0 as int) as u16,
        h: ceil_div(b.3 - b.1, m.cell.1 as int) as u16,
        x_px: b.0 as u16,
        y_px: b.1 as u16,
        w_px: (b.2 - b.0) as u16,
        h_px: (b.3 - b.1) as u16,
        left_margin: win.left_margin,
        right_margin: win.right_margin,
        node: NodeView::Grid(
            GridView {
                cols: 0,
                rows: 0,
                cells: seq![],
                active_rows: 0,
                cursor: (1, 1),
                cursor_active: false,
                bg: None,
                fg: None,
                fill: None,
                px_texts: shown_runs(win.retired@),
            },
        ),
    }
}

/// A window's box with something in it. The position is counted from zero, in characters
/// and in pixels, and only the part on the screen counts.
pub open spec fn placed_window(m: &Machine, win: ZWindow, node: NodeView) -> PosView {
    let x_px = from_zero(win.x_coord);
    let y_px = from_zero(win.y_coord);
    let box_px = m.clip_box(x_px, y_px, win.x_size, win.y_size);
    PosView {
        x: (x_px as int / m.cell.0 as int) as u16,
        y: (y_px as int / m.cell.1 as int) as u16,
        w: win.grid.cols,
        h: win.grid.rows,
        x_px,
        y_px,
        w_px: box_px.0,
        h_px: box_px.1,
        left_margin: win.left_margin,
        right_margin: win.right_margin,
        node,
    }
}

/// A window's canvas, as it is shown.
pub open spec fn canvas_node(win: u8, c: CanvasView) -> NodeView {
    NodeView::Graphics(
        GraphicsView {
            win: win as u32,
            w: c.w,
            h: c.h,
            grid: c.grid,
            version: c.version,
            upscale: false,
        },
    )
}

/// The window that the story's text flows through: the one the game prints into, where it
/// wraps and scrolls and does not keep its text to itself, or else window 0.
pub open spec fn prose_window(m: &Machine) -> int {
    let v6 = m.v6->0;
    let cur = v6.windows@[v6.current as int];
    if cur.attributes & 3 == 3 && !cur.diverts_prose {
        v6.current as int
    } else {
        0
    }
}

/// Whether a fill is still the newest paint on a window: it covers the window's box, nothing
/// was printed in the story since, and the window is not the story's own.
pub open spec fn live_fill(m: &Machine, fills: Map<u8, WindowFill>, win: u8) -> Option<ErasedFill> {
    let w = m.window(win);
    let f = fills[win];
    if fills.dom().contains(win) && win != prose_window(m) && f.x <= from_zero(w.x_coord) && f.y
        <= from_zero(w.y_coord) && f.x + f.w >= from_zero(w.x_coord) + w.x_size && f.y + f.h
        >= from_zero(w.y_coord) + w.y_size && f.out_chars == m.win0_out_chars {
        Some(ErasedFill { bg: f.bg, seq: f.seq })
    } else {
        None
    }
}

/// What a window shows of its text: the story in the window it flows through, where that
/// wraps; lines of its own, where it keeps some; and otherwise characters and runs at their
/// places.
pub open spec fn text_node(m: &Machine, fills: Map<u8, WindowFill>, win: u8) -> NodeView {
    let w = m.window(win);
    if win == prose_window(m) && w.attributes & 1 != 0 {
        NodeView::Buffer(
            BufferView {
                primary: true,
                bg: own_colour(w.bg),
                fg: own_colour(w.fg),
                px_runs: shown_runs(w.streamed@),
                ..plain_buffer(seq![])
            },
        )
    } else if w.prose@.len() > 0 {
        NodeView::Buffer(
            BufferView {
                bg: own_colour(w.bg),
                fg: own_colour(w.fg),
                reads_input: m.input_window == win,
                ..plain_buffer(string_views(w.prose@))
            },
        )
    } else {
        NodeView::Grid(
            GridView {
                cols: w.grid.cols,
                rows: w.grid.rows,
                cells: w.grid.cells@,
                active_rows: w.grid.rows,
                cursor: (
                    (from_zero(w.y_cursor) as int / m.cell.1 as int + 1) as u16,
                    (from_zero(w.x_cursor) as int / m.cell.0 as int + 1) as u16,
                ),
                cursor_active: m.v6->0.current == win,
                bg: own_colour(w.bg),
                fg: own_colour(w.fg),
                fill: live_fill(m, fills, win),
                px_texts: shown_runs(w.texts@),
            },
        )
    }
}

/// Whether a window is left out. Window 0 is, while the story flows elsewhere and it has
/// nothing of its own, and while it covers the untouched screen with nothing in it. A window
/// without a size is, unless text is painted in it.
pub open spec fn left_out(m: &Machine, drawn: Set<u8>, win: u8) -> bool {
    let w = m.window(win);
    let bare = w.texts@.len() == 0;
    let blank = bare && !drawn.contains(0);
    ||| win == 0 && prose_window(m) != 0 && blank
    ||| (w.x_size == 0 || w.y_size == 0) && bare
    ||| win == 0 && blank && m.win0_out_chars == 0 && w.x_coord == 1 && w.y_coord == 1 && w.x_size
        == m.screen_w_px && w.y_size == m.screen_h_px
}

/// The text layers of the windows below `n`, in the order of the windows. What a window left
/// behind comes before what it shows.
pub open spec fn text_layers(
    m: &Machine,
    drawn: Set<u8>,
    fills: Map<u8, WindowFill>,
    n: nat,
) -> Seq<PosView>
    decreases n,
{
    if n == 0 {
        seq![]
    } else {
        let win = (n - 1) as u8;
        let w = m.window(win);
        let before = text_layers(m, drawn, fills, (n - 1) as nat);
        if left_out(m, drawn, win) {
            before
        } else if w.retired@.len() > 0 {
            before.push(retired_layer(m, w)).push(placed_window(m, w, text_node(m, fills, win)))
        } else {
            before.push(placed_window(m, w, text_node(m, fills, win)))
        }
    }
}

/// When the canvas of each window that is shown was last drawn into.
pub open spec fn shown_stamps(m: &Machine, canvases: Map<u8, CanvasView>) -> Map<u8, u64> {
    Map::new(
        |k: u8| m.has_window(k) && !left_out(m, canvases.dom(), k) && canvases.dom().contains(k),
        |k: u8| canvases[k].z_seq,
    )
}

/// The picture layers, in the order in which they were drawn.
pub open spec fn picture_layers(m: &Machine, canvases: Map<u8, CanvasView>) -> Seq<PosView> {
    stamp_order(shown_stamps(m, canvases)).map_values(
        |k: u8| placed_window(m, m.window(k), canvas_node(k, canvases[k])),
    )
}

/// The extent in characters that the first `n` layers cover.
pub open spec fn extent(layers: Seq<PosView>, n: nat) -> (int, int)
    decreases n,
{
    if n == 0 {
        (0, 0)
    } else {
        let e = extent(layers, (n - 1) as nat);
        let p = layers[n - 1];
        (larger(e.0, p.x + p.w), larger(e.1, p.y + p.h))
    }
}

/// The extent that a screen of layers covers, or that of the screen where they cover none.
pub open spec fn covered(m: &Machine, layers: Seq<PosView>) -> (u16, u16) {
    let e = extent(layers, layers.len());
    if e.0 == 0 || e.1 == 0 {
        (m.screen_cols as u16, m.screen_rows as u16)
    } else {
        (e.0 as u16, e.1 as u16)
    }
}

/// A window of the story over the whole screen.
pub open spec fn whole_screen(m: &Machine, size: (u16, u16)) -> PosView {
    PosView {
        x: 0,
        y: 0,
        w: size.0,
        h: size.1,
        x_px: 0,
        y_px: 0,
        w_px: m.screen_w_px,
        h_px: m.screen_h_px,
        left_margin: 0,
        right_margin: 0,
        node: NodeView::Buffer(BufferView { primary: true, ..plain_buffer(seq![]) }),
    }
}

/// The status of the game: an automatic line up to version 3.
pub open spec fn status_of(m: &Machine) -> StatusView {
    if m.version <= 3 {
        StatusView::Classic(m.status_line.location@, m.status_line.right)
    } else {
        StatusView::HostManaged
    }
}

/// All layers of a screen with windows: the pictures behind, the text in front.
pub open spec fn all_layers(
    m: &Machine,
    canvases: Map<u8, CanvasView>,
    fills: Map<u8, WindowFill>,
) -> Seq<PosView> {
    picture_layers(m, canvases) + text_layers(
        m,
        canvases.dom(),
        fills,
        m.v6->0.windows@.len(),
    )
}

/// A screen with windows, as it is shown. Where no window is left, the story has the whole
/// screen. The page is that of a machine with one pair of colours for the screen.
pub open spec fn v6_model(
    m: &Machine,
    canvases: Map<u8, CanvasView>,
    fills: Map<u8, WindowFill>,
) -> ModelView {
    let layers = all_layers(m, canvases, fills);
    let size = covered(m, layers);
    ModelView {
        root: LayoutView::Layered(
            if layers.len() == 0 {
                seq![whole_screen(m, size)]
            } else {
                layers
            },
        ),
        status: status_of(m),
        bg: match m.page_pair {
            Some(p) => p.1,
            None => 0,
        },
        fg: match m.page_pair {
            Some(p) => p.0,
            None => 0,
        },
        content_size: size,
    }
}

/// The windows' boxes end within the range of 16-bit numbers.
pub open spec fn boxes_end(m: &Machine) -> bool {
    m.v6 matches Some(v6) ==> forall|i: int|
        0 <= i < v6.windows@.len() ==> from_zero((#[trigger] v6.windows@[i]).x_coord) as int
            / m.cell.0 as int + v6.windows@[i].grid.cols <= 0xffff && from_zero(
            v6.windows@[i].y_coord,
        ) as int / m.cell.1 as int + v6.windows@[i].grid.rows <= 0xffff
}

} // verus!
