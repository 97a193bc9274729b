//! The screen in words: what the game asked for, what became of it, and where it was drawn.

use crate::layers::Layers;
use crate::machine::{Machine, PaintRun, ZWindow};
use crate::session::GameSession;
use crate::text::{
    bin_pad, dec, flush_right, from_chars, is_space, push_bin, push_dec, push_flush_right,
    slice_chars, string_views, to_chars, trim_end_by, trimmed_len,
};
use crate::windows::WINDOW_NUMBERS;
use vstd::prelude::*;

verus! {

// ── Quoting ───────────────────────────────────────────────────────────────────
/// What the `Debug` form of a string is: the string in quotes, with escapes.
pub uninterp spec fn debug_form(s: Seq<char>) -> Seq<char>;

/// Whether a string has nothing in it that its `Debug` form escapes: only printable ASCII
/// characters, and no quotes and backslashes.
pub open spec fn needs_no_escape(s: Seq<char>) -> bool {
    forall|i: int|
        0 <= i < s.len() ==> 0x20 <= (#[trigger] s[i]) as u32 <= 0x7e && s[i] != '"' && s[i] != '\\'
            && s[i] != '\''
}

/// `format!` with `{:?}` on a string: the result is a function of the string, and of one
/// that needs no escape it is the string in double quotes.
#[verifier::external_body]
pub(crate) fn quote(s: &str) -> (r: String)
    ensures
        r@ == debug_form(s@),
        needs_no_escape(s@) ==> r@ == seq!['"'] + s@ + seq!['"'],
{
    format!("{s:?}")
}

// ── A screen with two windows ─────────────────────────────────────────────────
/// How many rows of the upper window are printed.
pub const PRINTED_ROWS_MAX: usize = 20;

/// The characters of a row of the upper window, without the blanks at its end.
pub open spec fn upper_row(m: &Machine, r: int) -> Seq<char> {
    let start = r * m.upper.cols;
    let len = m.upper.cells@.len() as int;
    let end = if start + m.upper.cols < len {
        start + m.upper.cols
    } else {
        len
    };
    if start < len {
        trim_end_by(
            Seq::new((end - start) as nat, |i: int| m.upper.cells@[start + i].ch),
            |c: char| is_space(c),
        )
    } else {
        seq![]
    }
}

/// The rows below `n` with something in them.
pub open spec fn rows_with_text(m: &Machine, n: nat) -> Seq<int>
    decreases n,
{
    if n == 0 {
        seq![]
    } else if upper_row(m, n - 1).len() > 0 {
        rows_with_text(m, (n - 1) as nat).push(n - 1)
    } else {
        rows_with_text(m, (n - 1) as nat)
    }
}

/// The line of a row; rows are counted from one.
pub open spec fn row_line(m: &Machine, r: int) -> Seq<char> {
    "  row "@ + flush_right(dec((r + 1) as nat), 2) + ": "@ + debug_form(upper_row(m, r))
}

/// A flag as a word.
pub open spec fn bool_word(b: bool) -> Seq<char> {
    if b {
        "true"@
    } else {
        "false"@
    }
}

/// The lines above the rows.
pub open spec fn split_head(m: &Machine) -> Seq<Seq<char>> {
    seq![
        "Z-machine v"@ + dec(m.version as nat) + " layout — Grid over Buffer"@,
        "  split: "@ + dec(m.upper_window_rows as nat) + " row(s) requested  ·  grid: "@ + dec(
            m.upper.rows as nat,
        ) + " row(s) painted"@ + (if m.upper.rows != m.upper_window_rows {
            "  <- diverge"@
        } else {
            ""@
        }),
        "  grid cols: "@ + dec(m.upper.cols as nat),
        "  cursor: row "@ + dec(m.cursor_row as nat) + ", col "@ + dec(m.cursor_col as nat)
            + "  ·  window: "@ + (if m.current_window == 1 {
            "upper"@
        } else {
            "lower"@
        }),
        "  buffer_mode: "@ + bool_word(m.buffer_mode),
        "  colours: fg "@ + m.current_fg_name@ + ", bg "@ + m.current_bg_name@,
    ]
}

/// The lines of a screen with two windows: no more rows than are printed at most, and a
/// last line where there are more.
pub open spec fn split_lines_of(m: &Machine) -> Seq<Seq<char>> {
    let rows = rows_with_text(m, m.upper.rows as nat);
    let shown = if rows.len() > PRINTED_ROWS_MAX {
        rows.take(PRINTED_ROWS_MAX as int)
    } else {
        rows
    };
    split_head(m) + shown.map_values(|r: int| row_line(m, r)) + (if rows.len() > PRINTED_ROWS_MAX {
        seq![
            "  … additional non-blank row(s) not shown (cap "@ + dec(PRINTED_ROWS_MAX as nat) + ")"@,
        ]
    } else {
        seq![]
    })
}

/// Reads a row of the upper window, without the blanks at its end.
fn read_row(m: &Machine, r: usize) -> (out: String)
    requires
        r < 0x1_0000,
    ensures
        out@ == upper_row(m, r as int),
{
    let cols: usize = m.upper.cols as usize;
    assert(r * cols <= 0xffff * 0xffff) by (nonlinear_arith)
        requires
            r <= 0xffff,
            cols <= 0xffff,
    ;
    let start: u64 = r as u64 * cols as u64;
    let len: usize = m.upper.cells.len();
    let mut v: Vec<char> = Vec::new();
    if start >= len as u64 {
        let s: String = String::new();
        assert(s@ =~= seq![]);
        return s;
    }
    let from: usize = start as usize;
    let end: usize = if len - from > cols {
        from + cols
    } else {
        len
    };
    let ghost row = Seq::new((end - from) as nat, |i: int| m.upper.cells@[from + i].ch);
    let mut i: usize = from;
    assert(v@ =~= row.take(0));
    while i < end
        invariant
            from <= i <= end <= m.upper.cells@.len(),
            row == Seq::new((end - from) as nat, |i: int| m.upper.cells@[from + i].ch),
            v@ == row.take(i - from),
        decreases end - i,
    {
        v.push(m.upper.cells[i].ch);
        assert(row.take(i + 1 - from) =~= row.take(i - from).push(m.upper.cells@[i as int].ch));
        i = i + 1;
    }
    assert(row.take(i - from) =~= row);
    let n: usize = trimmed_len(v.as_slice());
    let kept: Vec<char> = slice_chars(v.as_slice(), 0, n);
    assert(v@.subrange(0, n as int) =~= v@.take(n as int));
    from_chars(kept.as_slice())
}

/// Writes a row.
fn write_row(r: usize, text: &str) -> (s: String)
    requires
        r < usize::MAX,
    ensures
        s@ == "  row "@ + flush_right(dec((r + 1) as nat), 2) + ": "@ + debug_form(text@),
{
    let mut number: String = String::new();
    push_dec(&mut number, r as u64 + 1);
    assert(number@ =~= dec((r + 1) as nat));
    let mut s: String = "  row ".to_owned();
    push_flush_right(&mut s, number.as_str(), 2);
    s.append(": ");
    s.append(quote(text).as_str());
    s
}

/// Writes the lines above the rows.
fn write_split_head(m: &Machine) -> (r: Vec<String>)
    ensures
        string_views(r@) == split_head(m),
{
    let mut out: Vec<String> = Vec::new();
    let mut a: String = "Z-machine v".to_owned();
    push_dec(&mut a, m.version as u64);
    a.append(" layout — Grid over Buffer");
    out.push(a);
    let mut b: String = "  split: ".to_owned();
    push_dec(&mut b, m.upper_window_rows as u64);
    b.append(" row(s) requested  ·  grid: ");
    push_dec(&mut b, m.upper.rows as u64);
    b.append(" row(s) painted");
    if m.upper.rows != m.upper_window_rows {
        b.append("  <- diverge");
    } else {
        b.append("");
    }
    out.push(b);
    let mut c: String = "  grid cols: ".to_owned();
    push_dec(&mut c, m.upper.cols as u64);
    out.push(c);
    let mut d: String = "  cursor: row ".to_owned();
    push_dec(&mut d, m.cursor_row as u64);
    d.append(", col ");
    push_dec(&mut d, m.cursor_col as u64);
    d.append("  ·  window: ");
    if m.current_window == 1 {
        d.append("upper");
    } else {
        d.append("lower");
    }
    out.push(d);
    let mut e: String = "  buffer_mode: ".to_owned();
    if m.buffer_mode {
        e.append("true");
    } else {
        e.append("false");
    }
    out.push(e);
    let mut f: String = "  colours: fg ".to_owned();
    f.append(m.current_fg_name.as_str());
    f.append(", bg ");
    f.append(m.current_bg_name.as_str());
    out.push(f);
    assert(string_views(out@) =~= split_head(m));
    out
}

/// Describes a screen with two windows: the split that was asked for and the rows that are
/// painted, the cursor, the colours, and the rows with something in them.
pub fn split_dump(m: &Machine) -> (r: Vec<String>)
    ensures
        string_views(r@) == split_lines_of(m),
{
    let mut out: Vec<String> = write_split_head(m);
    let ghost head = split_head(m);
    let rows: usize = m.upper.rows as usize;
    let mut printed: usize = 0;
    let mut more: bool = false;
    let mut r: usize = 0;
    let ghost mut shown: Seq<int> = seq![];
    assert(string_views(out@) =~= head + shown.map_values(|r: int| row_line(m, r)));
    while r < rows
        invariant
            r <= rows <= 0xffff,
            head == split_head(m),
            printed == shown.len(),
            printed <= PRINTED_ROWS_MAX,
            ({
                let found = rows_with_text(m, r as nat);
                &&& more == (found.len() > PRINTED_ROWS_MAX)
                &&& shown == (if more {
                    found.take(PRINTED_ROWS_MAX as int)
                } else {
                    found
                })
            }),
            string_views(out@) == head + shown.map_values(|r: int| row_line(m, r)),
        decreases rows - r,
    {
        let text: String = read_row(m, r);
        let ghost found = rows_with_text(m, r as nat);
        if text.as_str().unicode_len() > 0 {
            assert(rows_with_text(m, (r + 1) as nat) == found.push(r as int));
            if printed >= PRINTED_ROWS_MAX {
                proof {
                    assert(found.push(r as int).take(PRINTED_ROWS_MAX as int) =~= found.take(
                        PRINTED_ROWS_MAX as int,
                    ));
                    if !more {
                        assert(found.take(PRINTED_ROWS_MAX as int) =~= found);
                    }
                }
                more = true;
            } else {
                let ghost out0 = out@;
                let ghost shown0 = shown;
                out.push(write_row(r, text.as_str()));
                printed = printed + 1;
                proof {
                    shown = shown0.push(r as int);
                    assert(string_views(out@) =~= string_views(out0).push(row_line(m, r as int)));
                    assert(shown.map_values(|r: int| row_line(m, r)) =~= shown0.map_values(
                        |r: int| row_line(m, r),
                    ).push(row_line(m, r as int)));
                    assert(string_views(out@) =~= head + shown.map_values(
                        |r: int| row_line(m, r),
                    ));
                }
            }
        }
        r = r + 1;
    }
    let ghost out0 = out@;
    if more {
        let mut s: String = "  … additional non-blank row(s) not shown (cap ".to_owned();
        push_dec(&mut s, PRINTED_ROWS_MAX as u64);
        s.append(")");
        let ghost last = s@;
        out.push(s);
        assert(string_views(out@) =~= string_views(out0) + seq![last]);
    } else {
        assert(string_views(out@) =~= string_views(out0) + seq![]);
    }
    out
}

// ── The typeface ──────────────────────────────────────────────────────────────
/// Where a typeface came from.
#[derive(Debug)]
pub enum FaceOrigin {
    /// The medium that the story came on.
    Release,
    /// A disk of the machine's own system.
    SystemDisk { disk: String, name: String },
}

/// What a typeface is fitted to.
#[derive(Clone, Copy, Debug, PartialEq, Eq, Structural)]
pub enum FaceFit {
    Metric,
    Cell,
}

/// A typeface: its size in pixels and where it came from.
#[derive(Debug)]
pub struct FaceSize {
    pub width: u32,
    pub height: u32,
    pub origin: Option<FaceOrigin>,
}

/// How the pen moves.
#[derive(Debug)]
pub enum Pen {
    /// By the width of each character: the widths of the printable ASCII characters, and
    /// how much wider bold is made.
    Proportional { advances: Vec<u32>, smear: u8 },
    /// By the width of the cell.
    Fixed,
}

/// The typeface that all windows are set in.
#[derive(Debug)]
pub struct TextFace {
    pub body: Option<FaceSize>,
    pub fit: Option<FaceFit>,
    /// The typeface for text of a fixed pitch.
    pub fixed: Option<FaceSize>,
    pub cell: (u16, u16),
    pub scale: (u32, u32),
    pub pen: Pen,
}

/// Where a typeface came from, in words.
pub open spec fn origin_words(o: Option<FaceOrigin>) -> Seq<char> {
    match o {
        Some(FaceOrigin::Release) => "the release's own medium"@,
        Some(FaceOrigin::SystemDisk { disk, name }) => disk@ + " · "@ + name@,
        None => "nowhere"@,
    }
}

/// What a typeface is fitted to, in words.
pub open spec fn fit_words(f: Option<FaceFit>) -> Seq<char> {
    match f {
        Some(FaceFit::Metric) => "Metric"@,
        Some(FaceFit::Cell) => "Cell"@,
        None => "—"@,
    }
}

/// The smallest of the first `n` widths, and the largest.
pub open spec fn width_range(v: Seq<u32>, n: nat) -> (u32, u32)
    decreases n,
{
    if n == 0 {
        (u32::MAX, 0)
    } else {
        let r = width_range(v, (n - 1) as nat);
        (
            if v[n - 1] < r.0 {
                v[n - 1]
            } else {
                r.0
            },
            if v[n - 1] > r.1 {
                v[n - 1]
            } else {
                r.1
            },
        )
    }
}

/// The line of the body typeface.
pub open spec fn body_line(f: TextFace) -> Seq<char> {
    match f.body {
        None => "    body: none — the built-in render::vga16"@,
        Some(b) => "    body: "@ + dec(b.width as nat) + "x"@ + dec(b.height as nat) + "px from "@
            + origin_words(b.origin) + " · fit "@ + fit_words(f.fit),
    }
}

/// The line of the typeface for text of a fixed pitch.
pub open spec fn fixed_line(f: TextFace) -> Seq<char> {
    match f.fixed {
        Some(b) => "    fixed: "@ + dec(b.width as nat) + "x"@ + dec(b.height as nat)
            + "px from "@ + origin_words(b.origin),
        None => "    fixed: none — a fixed-pitch run takes the body face"@,
    }
}

/// The line of the cell and the scale.
pub open spec fn cell_line(f: TextFace) -> Seq<char> {
    "    declared cell "@ + dec(f.cell.0 as nat) + "x"@ + dec(f.cell.1 as nat)
        + "px · text scale "@ + dec(f.scale.0 as nat) + "x"@ + dec(f.scale.1 as nat)
        + " native px per face px"@
}

/// The line of the pen.
pub open spec fn pen_line(f: TextFace) -> Seq<char> {
    match f.pen {
        Pen::Proportional { advances, smear } => {
            let r = width_range(advances@, advances@.len());
            "    pen: proportional "@ + dec(r.0 as nat) + "–"@ + dec(r.1 as nat)
                + "px over printable ASCII · bold +"@ + dec((smear * f.scale.0) as nat)
                + "px (smear "@ + dec(smear as nat) + ")"@
        },
        Pen::Fixed => "    pen: steps the cell — "@ + dec(f.cell.0 as nat)
            + "px for every character"@,
    }
}

/// The lines of the typeface.
pub open spec fn face_lines(face: Option<TextFace>) -> Seq<Seq<char>> {
    match face {
        None => seq!["  face: not supplied — engine-only view"@],
        Some(f) => seq![
            "  face: one launch fact — every window below is set in it"@,
            body_line(f),
            fixed_line(f),
            cell_line(f),
            pen_line(f),
        ],
    }
}

/// Appends where a typeface came from.
fn push_origin(s: &mut String, o: &Option<FaceOrigin>)
    ensures
        final(s)@ == old(s)@ + origin_words(*o),
{
    match o {
        Some(FaceOrigin::Release) => {
            s.append("the release's own medium");
        },
        Some(FaceOrigin::SystemDisk { disk, name }) => {
            s.append(disk.as_str());
            s.append(" · ");
            s.append(name.as_str());
            assert(s@ =~= old(s)@ + origin_words(*o));
        },
        None => {
            s.append("nowhere");
        },
    }
}

/// Finds the smallest and the largest of some widths.
fn range_of(v: &Vec<u32>) -> (r: (u32, u32))
    ensures
        r == width_range(v@, v@.len()),
{
    let mut lo: u32 = u32::MAX;
    let mut hi: u32 = 0;
    let mut i: usize = 0;
    while i < v.len()
        invariant
            i <= v@.len(),
            (lo, hi) == width_range(v@, i as nat),
        decreases v.len() - i,
    {
        if v[i] < lo {
            lo = v[i];
        }
        if v[i] > hi {
            hi = v[i];
        }
        i = i + 1;
    }
    (lo, hi)
}

/// Describes the typeface that every window is set in: the body and the fixed-pitch one,
/// where each came from, the cell and the scale, and how the pen moves.
pub fn v6_face_lines(face: Option<&TextFace>) -> (r: Vec<String>)
    ensures
        string_views(r@) == face_lines(
            match face {
                Some(f) => Some(*f),
                None => None,
            },
        ),
{
    let mut out: Vec<String> = Vec::new();
    let f: &TextFace = match face {
        None => {
            out.push("  face: not supplied — engine-only view".to_owned());
            assert(string_views(out@) =~= face_lines(None));
            return out;
        },
        Some(f) => f,
    };
    out.push("  face: one launch fact — every window below is set in it".to_owned());
    match &f.body {
        None => {
            out.push("    body: none — the built-in render::vga16".to_owned());
        },
        Some(b) => {
            let mut s: String = "    body: ".to_owned();
            push_dec(&mut s, b.width as u64);
            s.append("x");
            push_dec(&mut s, b.height as u64);
            s.append("px from ");
            push_origin(&mut s, &b.origin);
            s.append(" · fit ");
            match f.fit {
                Some(FaceFit::Metric) => {
                    s.append("Metric");
                },
                Some(FaceFit::Cell) => {
                    s.append("Cell");
                },
                None => {
                    s.append("—");
                },
            }
            out.push(s);
        },
    }
    match &f.fixed {
        Some(b) => {
            let mut s: String = "    fixed: ".to_owned();
            push_dec(&mut s, b.width as u64);
            s.append("x");
            push_dec(&mut s, b.height as u64);
            s.append("px from ");
            push_origin(&mut s, &b.origin);
            out.push(s);
        },
        None => {
            out.push("    fixed: none — a fixed-pitch run takes the body face".to_owned());
        },
    }
    let mut c: String = "    declared cell ".to_owned();
    push_dec(&mut c, f.cell.0 as u64);
    c.append("x");
    push_dec(&mut c, f.cell.1 as u64);
    c.append("px · text scale ");
    push_dec(&mut c, f.scale.0 as u64);
    c.append("x");
    push_dec(&mut c, f.scale.1 as u64);
    c.append(" native px per face px");
    out.push(c);
    match &f.pen {
        Pen::Proportional { advances, smear } => {
            let (lo, hi) = range_of(advances);
            assert(*smear * f.scale.0 <= 255 * 0xffff_ffff) by (nonlinear_arith)
                requires
                    *smear <= 255,
                    f.scale.0 <= 0xffff_ffff,
            ;
            let bold: u64 = *smear as u64 * f.scale.0 as u64;
            let mut s: String = "    pen: proportional ".to_owned();
            push_dec(&mut s, lo as u64);
            s.append("–");
            push_dec(&mut s, hi as u64);
            s.append("px over printable ASCII · bold +");
            push_dec(&mut s, bold);
            s.append("px (smear ");
            push_dec(&mut s, *smear as u64);
            s.append(")");
            out.push(s);
        },
        Pen::Fixed => {
            let mut s: String = "    pen: steps the cell — ".to_owned();
            push_dec(&mut s, f.cell.0 as u64);
            s.append("px for every character");
            out.push(s);
        },
    }
    assert(string_views(out@) =~= face_lines(Some(*f)));
    out
}

// ── A snapshot of the windows ─────────────────────────────────────────────────
/// How many runs of a window a snapshot shows.
pub const SNAPSHOT_RUNS: usize = 20;

/// How many characters of a run a snapshot shows.
pub const SNAPSHOT_CHARS: usize = 60;

/// A text, cut to what a snapshot shows.
pub open spec fn cut_text(s: Seq<char>) -> Seq<char> {
    if s.len() > SNAPSHOT_CHARS {
        s.take(SNAPSHOT_CHARS as int)
    } else {
        s
    }
}

/// Whether a snapshot shows a window.
pub open spec fn in_snapshot(w: ZWindow) -> bool {
    w.x_size != 0 || w.y_size != 0 || w.texts@.len() > 0 || w.attributes != 0
}

/// The line of a window in a snapshot.
pub open spec fn snapshot_line(i: int, w: ZWindow) -> Seq<char> {
    "win"@ + dec(i as nat) + ": pos=("@ + dec(w.x_coord as nat) + ","@ + dec(w.y_coord as nat)
        + ") size="@ + dec(w.x_size as nat) + "x"@ + dec(w.y_size as nat) + " cursor=("@ + dec(
        w.y_cursor as nat,
    ) + ","@ + dec(w.x_cursor as nat) + ") attrs=0b"@ + bin_pad(w.attributes as nat, 4)
        + " margins=("@ + dec(w.left_margin as nat) + ","@ + dec(w.right_margin as nat)
        + ") font=("@ + dec(w.font_number as nat) + ","@ + dec(w.font_size as nat) + ") runs="@
        + dec(w.texts@.len())
}

/// The line of a run in a snapshot.
pub open spec fn snapshot_run(t: PaintRun) -> Seq<char> {
    "  y="@ + dec(t.y as nat) + " x="@ + dec(t.x as nat) + " style="@ + dec(t.style as nat)
        + " "@ + debug_form(cut_text(t.text@))
}

/// The lines of a window in a snapshot: the window, the first of its runs, and how many
/// more there are.
pub open spec fn snapshot_window(i: int, w: ZWindow) -> Seq<Seq<char>> {
    let n = w.texts@.len() as int;
    let shown = if n > SNAPSHOT_RUNS {
        SNAPSHOT_RUNS as int
    } else {
        n
    };
    seq![snapshot_line(i, w)] + w.texts@.take(shown).map_values(|t: PaintRun| snapshot_run(t)) + (
    if n > shown {
        seq!["  ... ("@ + dec((n - shown) as nat) + " more)"@]
    } else {
        seq![]
    })
}

/// The lines of the windows below `n`.
pub open spec fn snapshot_windows(ws: Seq<ZWindow>, n: nat) -> Seq<Seq<char>>
    decreases n,
{
    if n == 0 {
        seq![]
    } else if in_snapshot(ws[n - 1]) {
        snapshot_windows(ws, (n - 1) as nat) + snapshot_window(n - 1, ws[n - 1])
    } else {
        snapshot_windows(ws, (n - 1) as nat)
    }
}

/// The lines of the canvases of the windows below `n`.
pub open spec fn snapshot_canvases(l: &Layers, n: nat) -> Seq<Seq<char>>
    decreases n,
{
    if n == 0 {
        seq![]
    } else {
        let before = snapshot_canvases(l, (n - 1) as nat);
        let k = (n - 1) as u8;
        if l@.canvases.dom().contains(k) {
            let c = l@.canvases[k];
            before.push(
                "canvas win"@ + dec(k as nat) + ": "@ + dec(c.w as nat) + "x"@ + dec(c.h as nat)
                    + " z="@ + dec(c.z_seq as nat),
            )
        } else {
            before
        }
    }
}

/// Writes the line of a window in a snapshot.
fn write_snapshot_line(i: usize, w: &ZWindow) -> (s: String)
    ensures
        s@ == snapshot_line(i as int, *w),
{
    let mut s: String = "win".to_owned();
    push_dec(&mut s, i as u64);
    s.append(": pos=(");
    push_dec(&mut s, w.x_coord as u64);
    s.append(",");
    push_dec(&mut s, w.y_coord as u64);
    s.append(") size=");
    push_dec(&mut s, w.x_size as u64);
    s.append("x");
    push_dec(&mut s, w.y_size as u64);
    s.append(" cursor=(");
    push_dec(&mut s, w.y_cursor as u64);
    s.append(",");
    push_dec(&mut s, w.x_cursor as u64);
    s.append(") attrs=0b");
    push_bin(&mut s, w.attributes as u64, 4);
    s.append(" margins=(");
    push_dec(&mut s, w.left_margin as u64);
    s.append(",");
    push_dec(&mut s, w.right_margin as u64);
    s.append(") font=(");
    push_dec(&mut s, w.font_number as u64);
    s.append(",");
    push_dec(&mut s, w.font_size as u64);
    s.append(") runs=");
    push_dec(&mut s, w.texts.len() as u64);
    s
}

/// Writes the line of a run in a snapshot.
fn write_snapshot_run(t: &PaintRun) -> (s: String)
    ensures
        s@ == snapshot_run(*t),
{
    let v: Vec<char> = to_chars(t.text.as_str());
    let n: usize = if v.len() > SNAPSHOT_CHARS {
        SNAPSHOT_CHARS
    } else {
        v.len()
    };
    let cut: String = from_chars(slice_chars(v.as_slice(), 0, n).as_slice());
    assert(cut@ =~= cut_text(t.text@));
    let mut s: String = "  y=".to_owned();
    push_dec(&mut s, t.y as u64);
    s.append(" x=");
    push_dec(&mut s, t.x as u64);
    s.append(" style=");
    push_dec(&mut s, t.style as u64);
    s.append(" ");
    s.append(quote(cut.as_str()).as_str());
    s
}

/// Appends the lines of a window in a snapshot.
fn push_snapshot_window(out: &mut Vec<String>, i: usize, w: &ZWindow)
    ensures
        string_views(final(out)@) == string_views(old(out)@) + snapshot_window(i as int, *w),
{
    let ghost before = string_views(out@);
    let n: usize = w.texts.len();
    let shown: usize = if n > SNAPSHOT_RUNS {
        SNAPSHOT_RUNS
    } else {
        n
    };
    out.push(write_snapshot_line(i, w));
    let ghost runs = w.texts@.take(shown as int).map_values(|t: PaintRun| snapshot_run(t));
    let ghost head = before + seq![snapshot_line(i as int, *w)];
    let mut k: usize = 0;
    assert(string_views(out@) =~= head + runs.take(0));
    while k < shown
        invariant
            k <= shown <= w.texts@.len(),
            runs == w.texts@.take(shown as int).map_values(|t: PaintRun| snapshot_run(t)),
            string_views(out@) == head + runs.take(k as int),
        decreases shown - k,
    {
        let ghost out0 = out@;
        out.push(write_snapshot_run(&w.texts[k]));
        assert(runs[k as int] == snapshot_run(w.texts@[k as int]));
        assert(runs.take(k + 1) =~= runs.take(k as int).push(runs[k as int]));
        assert(string_views(out@) =~= string_views(out0).push(runs[k as int]));
        assert(string_views(out@) =~= head + runs.take(k + 1));
        k = k + 1;
    }
    assert(runs.take(k as int) =~= runs);
    let ghost out1 = out@;
    if n > shown {
        let mut s: String = "  ... (".to_owned();
        push_dec(&mut s, (n - shown) as u64);
        s.append(" more)");
        let ghost last = s@;
        out.push(s);
        assert(string_views(out@) =~= string_views(out1).push(last));
    }
    assert(string_views(out@) =~= before + snapshot_window(i as int, *w));
}

impl GameSession {
    /// Describes the windows and the canvases in short; nothing for a screen without
    /// windows.
    pub fn v6_snapshot(&self) -> (r: Option<Vec<String>>)
        requires
            self.wf(),
        ensures
            r is Some == self.machine.v6 is Some,
            r matches Some(lines) ==> ({
                let v6 = self.machine.v6->0;
                string_views(lines@) == seq![
                    "turn snapshot (current="@ + dec(v6.current as nat) + ")"@,
                ] + snapshot_windows(v6.windows@, v6.windows@.len()) + snapshot_canvases(
                    &self.layers,
                    WINDOW_NUMBERS as nat,
                )
            }),
    {
        let v6 = match &self.machine.v6 {
            Some(v6) => v6,
            None => {
                return None;
            },
        };
        let mut lines: Vec<String> = Vec::new();
        let mut head: String = "turn snapshot (current=".to_owned();
        push_dec(&mut head, v6.current as u64);
        head.append(")");
        let ghost top = seq![head@];
        lines.push(head);
        let mut i: usize = 0;
        assert(string_views(lines@) =~= top + snapshot_windows(v6.windows@, 0));
        while i < v6.windows.len()
            invariant
                i <= v6.windows@.len(),
                string_views(lines@) == top + snapshot_windows(v6.windows@, i as nat),
            decreases v6.windows.len() - i,
        {
            let w = &v6.windows[i];
            if w.x_size != 0 || w.y_size != 0 || w.texts.len() > 0 || w.attributes != 0 {
                push_snapshot_window(&mut lines, i, w);
            }
            assert(string_views(lines@) =~= top + snapshot_windows(v6.windows@, (i + 1) as nat));
            i = i + 1;
        }
        let ghost above = string_views(lines@);
        let mut n: usize = 0;
        assert(string_views(lines@) =~= above + snapshot_canvases(&self.layers, 0));
        while n < WINDOW_NUMBERS
            invariant
                n <= WINDOW_NUMBERS,
                self.wf(),
                string_views(lines@) == above + snapshot_canvases(&self.layers, n as nat),
            decreases WINDOW_NUMBERS - n,
        {
            let ghost lines0 = lines@;
            if let Some(c) = self.layers.pictures_canvas.get(n as u8) {
                assert(self.layers@.canvases[n as u8] == c@);
                let mut s: String = "canvas win".to_owned();
                push_dec(&mut s, n as u64);
                s.append(": ");
                push_dec(&mut s, c.img.width as u64);
                s.append("x");
                push_dec(&mut s, c.img.height as u64);
                s.append(" z=");
                push_dec(&mut s, c.z_seq);
                let ghost last = s@;
                lines.push(s);
                assert(string_views(lines@) =~= string_views(lines0).push(last));
            }
            assert(string_views(lines@) =~= above + snapshot_canvases(
                &self.layers,
                (n + 1) as nat,
            ));
            n = n + 1;
        }
        Some(lines)
    }
}

// ── Laws ──────────────────────────────────────────────────────────────────────
/// A row of the upper window is read from its own cells, from the first column on; what
/// stands behind its text is blank.
pub proof fn a_row_is_read_from_its_cells(m: &Machine, r: int, i: int)
    requires
        0 <= r,
        0 <= i < m.upper.cols,
        r * m.upper.cols + i < m.upper.cells@.len(),
    ensures
        upper_row(m, r).len() <= m.upper.cols,
        i < upper_row(m, r).len() ==> upper_row(m, r)[i] == m.upper.cells@[r * m.upper.cols + i].ch,
        i >= upper_row(m, r).len() ==> is_space(m.upper.cells@[r * m.upper.cols + i].ch),
        upper_row(m, r).len() > 0 ==> !is_space(upper_row(m, r).last()),
{
    let start = r * m.upper.cols;
    assert(start >= 0) by (nonlinear_arith)
        requires
            start == r * m.upper.cols,
            r >= 0,
            m.upper.cols >= 0,
    ;
    let len = m.upper.cells@.len() as int;
    let end = if start + m.upper.cols < len {
        start + m.upper.cols
    } else {
        len
    };
    let row = Seq::new((end - start) as nat, |i: int| m.upper.cells@[start + i].ch);
    lemma_blank_end(row);
    assert(row[i] == m.upper.cells@[start + i].ch);
}

/// What is cut from the end of a text is blank.
proof fn lemma_blank_end(s: Seq<char>)
    ensures
        ({
            let t = trim_end_by(s, |c: char| is_space(c));
            &&& t.len() <= s.len()
            &&& forall|i: int| 0 <= i < t.len() ==> #[trigger] t[i] == s[i]
            &&& forall|i: int| t.len() <= i < s.len() ==> is_space(#[trigger] s[i])
            &&& t.len() > 0 ==> !is_space(t.last())
        }),
    decreases s.len(),
{
    let p = |c: char| is_space(c);
    if s.len() > 0 && p(s.last()) {
        lemma_blank_end(s.drop_last());
        assert forall|i: int| trim_end_by(s, p).len() <= i < s.len() implies is_space(
            #[trigger] s[i],
        ) by {
            if i < s.len() - 1 {
                assert(s.drop_last()[i] == s[i]);
            }
        }
    }
}

/// The rows that are told are those with text, each once and from the top down.
pub proof fn a_row_is_told_where_it_has_text(m: &Machine, n: nat, r: int)
    ensures
        rows_with_text(m, n).contains(r) <==> 0 <= r < n && upper_row(m, r).len() > 0,
        forall|i: int, j: int|
            0 <= i < j < rows_with_text(m, n).len() ==> #[trigger] rows_with_text(m, n)[i]
                < #[trigger] rows_with_text(m, n)[j],
        forall|i: int| 0 <= i < rows_with_text(m, n).len() ==> #[trigger] rows_with_text(m, n)[i] < n,
    decreases n,
{
    if n > 0 {
        let before = rows_with_text(m, (n - 1) as nat);
        a_row_is_told_where_it_has_text(m, (n - 1) as nat, r);
        if upper_row(m, n - 1).len() > 0 {
            let now = before.push(n - 1);
            assert(now[now.len() - 1] == n - 1);
            if before.contains(r) {
                let k = choose|k: int| 0 <= k < before.len() && before[k] == r;
                assert(now[k] == r);
            }
            if now.contains(r) && r != n - 1 {
                let k = choose|k: int| 0 <= k < now.len() && now[k] == r;
                assert(before[k] == r);
            }
        }
    }
}

/// A snapshot has a block of lines for each window that is in use, in the order of the
/// windows, and in it a line for each of its first runs, in their order.
pub proof fn a_snapshot_has_the_windows_in_use(ws: Seq<ZWindow>, n: nat, i: int, k: int) -> (at: int)
    requires
        0 <= i < n <= ws.len(),
        ws[i].x_size != 0 || ws[i].y_size != 0 || ws[i].texts@.len() > 0 || ws[i].attributes != 0,
    ensures
        at == snapshot_windows(ws, i as nat).len(),
        0 <= at < snapshot_windows(ws, n).len(),
        snapshot_windows(ws, n)[at] == snapshot_line(i, ws[i]),
        0 <= k < ws[i].texts@.len() && k < SNAPSHOT_RUNS ==> at + 1 + k < snapshot_windows(
            ws,
            n,
        ).len() && snapshot_windows(ws, n)[at + 1 + k] == snapshot_run(ws[i].texts@[k]),
    decreases n,
{
    let before = snapshot_windows(ws, (n - 1) as nat);
    let now = snapshot_windows(ws, n);
    if i < n - 1 {
        let at = a_snapshot_has_the_windows_in_use(ws, (n - 1) as nat, i, k);
        assert(now[at] == before[at]);
        if 0 <= k < ws[i].texts@.len() && k < SNAPSHOT_RUNS {
            assert(now[at + 1 + k] == before[at + 1 + k]);
        }
        at
    } else {
        let block = snapshot_window(i, ws[i]);
        assert(now == before + block);
        assert(now[before.len() as int] == block[0]);
        if 0 <= k < ws[i].texts@.len() && k < SNAPSHOT_RUNS {
            assert(block[1 + k] == snapshot_run(ws[i].texts@[k]));
            assert(now[before.len() + 1 + k] == block[1 + k]);
        }
        before.len() as int
    }
}

/// The range of widths holds every width, and its ends are widths.
pub proof fn a_range_holds_every_width(v: Seq<u32>, n: nat)
    requires
        0 < n <= v.len(),
    ensures
        forall|i: int| 0 <= i < n ==> width_range(v, n).0 <= #[trigger] v[i] <= width_range(v, n).1,
        exists|i: int| 0 <= i < n && #[trigger] v[i] == width_range(v, n).0,
        exists|i: int| 0 <= i < n && #[trigger] v[i] == width_range(v, n).1,
    decreases n,
{
    let now = width_range(v, n);
    if n > 1 {
        a_range_holds_every_width(v, (n - 1) as nat);
        let r = width_range(v, (n - 1) as nat);
        let lo = choose|i: int| 0 <= i < n - 1 && #[trigger] v[i] == r.0;
        let hi = choose|i: int| 0 <= i < n - 1 && #[trigger] v[i] == r.1;
        assert(v[lo] == r.0 && v[hi] == r.1);
        assert(v[n - 1] == now.0 || v[lo] == now.0);
        assert(v[n - 1] == now.1 || v[hi] == now.1);
    } else {
        assert(width_range(v, 0) == (u32::MAX, 0u32));
        assert(v[0] == now.0 && v[0] == now.1);
    }
}

} // verus!
