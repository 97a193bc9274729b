//! The windows in words, one block for each: what the game asked for, what is shown of it,
//! and where the last frame put it.

use crate::dump::{face_lines, split_dump, split_lines_of, v6_face_lines, TextFace};
use crate::layers::LayersView;
use crate::machine::{from_zero, Machine, ZWindow};
use crate::model::{
    boxes_end, pos_views, v6_model, Layout, NodeView, PosView, PositionedWindow, ScreenModel,
    WinNode,
};
use crate::session::GameSession;
use crate::text::{bin_pad, dec, from_chars, join, joined, push_bin, push_dec, same_chars,
    slice_chars, string_views, to_chars};
use vstd::prelude::*;

verus! {

/// Where a frame put something: its name, its box in the game's own pixels and its box in
/// characters of the host's screen.
#[derive(Debug)]
pub struct V6CellRect {
    pub label: String,
    pub native: (u16, u16, u16, u16),
    pub cells: (u16, u16, u16, u16),
}

// ── Names ─────────────────────────────────────────────────────────────────────
/// Whether a text starts with another.
pub open spec fn starts(s: Seq<char>, w: Seq<char>) -> bool {
    w.len() <= s.len() && s.take(w.len() as int) == w
}

/// A text without another at its start, however often it stands there.
pub open spec fn without_start(s: Seq<char>, w: Seq<char>) -> Seq<char>
    decreases s.len(),
{
    if w.len() > 0 && starts(s, w) {
        without_start(s.skip(w.len() as int), w)
    } else {
        s
    }
}

/// Tests whether a text starts with another.
fn begins(v: &Vec<char>, w: &Vec<char>, from: usize) -> (r: bool)
    requires
        from <= v@.len(),
    ensures
        r == starts(v@.skip(from as int), w@),
{
    if v.len() - from < w.len() {
        return false;
    }
    let part: Vec<char> = slice_chars(v.as_slice(), from, from + w.len());
    assert(v@.skip(from as int).take(w@.len() as int) =~= part@);
    same_chars(part.as_slice(), w.as_slice())
}

/// Tests whether a text starts with another.
fn text_starts(s: &str, w: &str) -> (r: bool)
    ensures
        r == starts(s@, w@),
{
    let v: Vec<char> = to_chars(s);
    assert(v@.skip(0) =~= v@);
    begins(&v, &to_chars(w), 0)
}

/// Takes another text off the start of a text, as often as it stands there.
fn strip_start(s: &str, w: &str) -> (r: String)
    requires
        w@.len() > 0,
    ensures
        r@ == without_start(s@, w@),
{
    let v: Vec<char> = to_chars(s);
    let p: Vec<char> = to_chars(w);
    let total: usize = v.len();
    let mut at: usize = 0;
    assert(v@.skip(0) =~= v@);
    while begins(&v, &p, at)
        invariant
            at <= v@.len() == total,
            v@ == s@,
            p@ == w@,
            w@.len() > 0,
            without_start(v@.skip(at as int), w@) == without_start(s@, w@),
        decreases v@.len() - at,
    {
        assert(v@.skip(at as int).skip(w@.len() as int) =~= v@.skip(at + w@.len()));
        assert(at + w@.len() <= total);
        at = at + p.len();
    }
    let rest: Vec<char> = slice_chars(v.as_slice(), at, v.len());
    assert(rest@ =~= v@.skip(at as int));
    from_chars(rest.as_slice())
}

/// Where a name is first; the length of the list if it is not there.
pub open spec fn find_label(cells: Seq<V6CellRect>, label: Seq<char>) -> int
    decreases cells.len(),
{
    if cells.len() == 0 || cells[0].label@ == label {
        0
    } else {
        1 + find_label(cells.drop_first(), label)
    }
}

/// Where a name that starts with a text is first; the length of the list if none is there.
pub open spec fn find_start(cells: Seq<V6CellRect>, w: Seq<char>) -> int
    decreases cells.len(),
{
    if cells.len() == 0 || starts(cells[0].label@, w) {
        0
    } else {
        1 + find_start(cells.drop_first(), w)
    }
}

/// The first place with a name is the first place with it.
pub proof fn lemma_find_label(v: Seq<V6CellRect>, label: Seq<char>, k: int)
    requires
        0 <= k <= v.len(),
        k < v.len() ==> v[k].label@ == label,
        forall|i: int| 0 <= i < k ==> (#[trigger] v[i]).label@ != label,
    ensures
        find_label(v, label) == k,
    decreases k,
{
    if k > 0 {
        assert(v[0].label@ != label);
        assert forall|i: int| 0 <= i < k - 1 implies (#[trigger] v.drop_first()[i]).label@
            != label by {
            assert(v.drop_first()[i] == v[i + 1]);
        }
        lemma_find_label(v.drop_first(), label, k - 1);
    }
}

/// The first place with such a name is the first place with one.
proof fn lemma_find_start(v: Seq<V6CellRect>, w: Seq<char>, k: int)
    requires
        0 <= k <= v.len(),
        k < v.len() ==> starts(v[k].label@, w),
        forall|i: int| 0 <= i < k ==> !starts((#[trigger] v[i]).label@, w),
    ensures
        find_start(v, w) == k,
    decreases k,
{
    if k > 0 {
        assert(!starts(v[0].label@, w));
        assert forall|i: int| 0 <= i < k - 1 implies !starts(
            (#[trigger] v.drop_first()[i]).label@,
            w,
        ) by {
            assert(v.drop_first()[i] == v[i + 1]);
        }
        lemma_find_start(v.drop_first(), w, k - 1);
    }
}

/// Looks a name up.
fn place_of_label(cells: &Vec<V6CellRect>, label: &str) -> (r: usize)
    ensures
        r == find_label(cells@, label@),
        r <= cells@.len(),
{
    let want: Vec<char> = to_chars(label);
    let mut i: usize = 0;
    while i < cells.len() && !same_chars(to_chars(cells[i].label.as_str()).as_slice(), want.as_slice())
        invariant
            i <= cells@.len(),
            want@ == label@,
            forall|j: int| 0 <= j < i ==> (#[trigger] cells@[j]).label@ != label@,
        decreases cells.len() - i,
    {
        i = i + 1;
    }
    proof {
        lemma_find_label(cells@, label@, i as int);
    }
    i
}

/// Looks a name up by its start.
fn place_of_start(cells: &Vec<V6CellRect>, w: &str) -> (r: usize)
    ensures
        r == find_start(cells@, w@),
        r <= cells@.len(),
{
    let mut i: usize = 0;
    while i < cells.len() && !text_starts(cells[i].label.as_str(), w)
        invariant
            i <= cells@.len(),
            forall|j: int| 0 <= j < i ==> !starts((#[trigger] cells@[j]).label@, w@),
        decreases cells.len() - i,
    {
        i = i + 1;
    }
    proof {
        lemma_find_start(cells@, w@, i as int);
    }
    i
}

// ── The lines above the windows ───────────────────────────────────────────────
/// A box, in words: its size and its place.
pub open spec fn box_words(c: (u16, u16, u16, u16)) -> Seq<char> {
    dec(c.2 as nat) + "x"@ + dec(c.3 as nat) + " at ("@ + dec(c.0 as nat) + ","@ + dec(c.1 as nat)
        + ")"@
}

/// A number of hundredths as a decimal fraction.
pub open spec fn hundredths(n: nat) -> Seq<char> {
    dec(n / 100) + "."@ + dec(n / 10 % 10) + dec(n % 10)
}

/// What the first line says of the scale.
pub open spec fn scale_words(cells: Seq<V6CellRect>) -> Seq<char> {
    let k = find_label(cells, "scale"@);
    if k < cells.len() {
        let n = cells[k].native;
        ", scale "@ + hundredths(n.0 as nat) + ", cell "@ + dec(n.2 as nat) + "x"@ + dec(
            n.3 as nat,
        ) + "px, y-offset "@ + dec(n.1 as nat)
    } else {
        seq![]
    }
}

/// What the first line says of the way the frame was drawn.
pub open spec fn path_words(cells: Seq<V6CellRect>) -> Seq<char> {
    let k = find_start(cells, "path:"@);
    if k < cells.len() {
        "\n  render path: "@ + without_start(cells[k].label@, "path:"@)
    } else {
        seq![]
    }
}

/// The first line.
pub open spec fn head_line(m: &Machine, cells: Seq<V6CellRect>) -> Seq<char> {
    "v6 layout — current window "@ + dec(m.v6->0.current as nat) + ", input window "@ + dec(
        m.input_window as nat,
    ) + scale_words(cells) + path_words(cells)
}

/// The line of the pane, where the frame has one.
pub open spec fn pane_lines(cells: Seq<V6CellRect>) -> Seq<Seq<char>> {
    let k = find_label(cells, "pane"@);
    let v = find_label(cells, "viewport"@);
    if k < cells.len() {
        seq![
            "  pane "@ + box_words(cells[k].cells) + " · story viewport "@ + (if v < cells.len() {
                box_words(cells[v].cells)
            } else {
                "—"@
            }),
        ]
    } else {
        seq![]
    }
}

/// Appends a box, in words.
fn push_box(s: &mut String, c: (u16, u16, u16, u16))
    ensures
        final(s)@ == old(s)@ + box_words(c),
{
    push_dec(s, c.2 as u64);
    s.append("x");
    push_dec(s, c.3 as u64);
    s.append(" at (");
    push_dec(s, c.0 as u64);
    s.append(",");
    push_dec(s, c.1 as u64);
    s.append(")");
    assert(s@ =~= old(s)@ + box_words(c));
}

/// Writes the first line.
fn write_head(m: &Machine, cells: &Vec<V6CellRect>, current: u8) -> (s: String)
    requires
        m.v6 is Some,
        current == m.v6->0.current,
    ensures
        s@ == head_line(m, cells@),
{
    let mut s: String = "v6 layout — current window ".to_owned();
    push_dec(&mut s, current as u64);
    s.append(", input window ");
    push_dec(&mut s, m.input_window as u64);
    let ghost a = s@;
    let k: usize = place_of_label(cells, "scale");
    if k < cells.len() {
        let n: (u16, u16, u16, u16) = cells[k].native;
        s.append(", scale ");
        push_dec(&mut s, (n.0 / 100) as u64);
        s.append(".");
        push_dec(&mut s, (n.0 / 10 % 10) as u64);
        push_dec(&mut s, (n.0 % 10) as u64);
        s.append(", cell ");
        push_dec(&mut s, n.2 as u64);
        s.append("x");
        push_dec(&mut s, n.3 as u64);
        s.append("px, y-offset ");
        push_dec(&mut s, n.1 as u64);
    }
    assert(s@ =~= a + scale_words(cells@));
    let ghost b = s@;
    let p: usize = place_of_start(cells, "path:");
    if p < cells.len() {
        s.append("\n  render path: ");
        proof {
            reveal_strlit("path:");
        }
        let rest: String = strip_start(cells[p].label.as_str(), "path:");
        s.append(rest.as_str());
    }
    assert(s@ =~= b + path_words(cells@));
    s
}

// ── A window ──────────────────────────────────────────────────────────────────
/// The words of what holds, in order.
pub open spec fn holding(flags: Seq<(bool, Seq<char>)>) -> Seq<Seq<char>>
    decreases flags.len(),
{
    if flags.len() == 0 {
        seq![]
    } else if flags.last().0 {
        holding(flags.drop_last()).push(flags.last().1)
    } else {
        holding(flags.drop_last())
    }
}

/// The words for what a window's attributes say.
pub open spec fn flag_words(w: ZWindow) -> Seq<Seq<char>> {
    holding(
        seq![
            (w.attributes & 1 != 0, "wrap"@),
            (w.attributes & 2 != 0, "scroll"@),
            (w.attributes & 4 != 0, "transcript"@),
            (w.attributes & 8 != 0, "buffered"@),
        ],
    )
}

/// The words for what a window is used for.
pub open spec fn mark_words(m: &Machine, i: int) -> Seq<Seq<char>> {
    holding(seq![(m.v6->0.current == i, "current"@), (m.input_window == i, "input"@)])
}

/// The part of a window's box that lies on the screen.
pub open spec fn shown_box(m: &Machine, w: ZWindow) -> (u16, u16, u16, u16) {
    let b = m.clip_box(from_zero(w.x_coord), from_zero(w.y_coord), w.x_size, w.y_size);
    (from_zero(w.x_coord), from_zero(w.y_coord), b.0, b.1)
}

/// The first line of a window.
pub open spec fn win_line(m: &Machine, i: int, w: ZWindow) -> Seq<char> {
    "  win"@ + dec(i as nat) + "  "@ + dec(w.x_size as nat) + "x"@ + dec(w.y_size as nat)
        + " at ("@ + dec(w.x_coord as nat) + ","@ + dec(w.y_coord as nat) + ")  ["@ + joined(
        flag_words(w),
        " "@,
    ) + "]"@ + (if mark_words(m, i).len() == 0 {
        ""@
    } else {
        "  <- "@ + joined(mark_words(m, i), "+"@)
    })
}

/// The line of what the game asked for.
pub open spec fn game_line(m: &Machine, w: ZWindow) -> Seq<char> {
    let b = shown_box(m, w);
    "          game: attrs="@ + bin_pad(w.attributes as nat, 4) + ", "@ + dec(w.texts@.len())
        + " paint run(s), "@ + dec(w.prose@.len()) + " prose line(s)"@ + (if b.2 == w.x_size && b.3
        == w.y_size {
        ""@
    } else {
        " — off-screen, clipped to "@ + dec(b.2 as nat) + "x"@ + dec(b.3 as nat)
    })
}

/// The width that a window leaves for text between its margins.
pub open spec fn usable_width(w: ZWindow) -> int {
    let a = if w.x_size < w.left_margin {
        0
    } else {
        w.x_size - w.left_margin
    };
    if a < w.right_margin {
        0
    } else {
        a - w.right_margin
    }
}

/// The line of a window's own measures of text.
pub open spec fn text_line(m: &Machine, w: ZWindow) -> Seq<char> {
    "          text: grid "@ + dec(w.grid.cols as nat) + "x"@ + dec(w.grid.rows as nat)
        + " cells of "@ + dec(m.cell.0 as nat) + "x"@ + dec(m.cell.1 as nat) + "px · margins l="@
        + dec(w.left_margin as nat) + " r="@ + dec(w.right_margin as nat) + " · usable "@ + dec(
        usable_width(w) as nat,
    ) + "px = "@ + dec((usable_width(w) / m.cell.0 as int) as nat) + " cols"@
}

/// The line of a window's font.
pub open spec fn font_line(m: &Machine, w: ZWindow) -> Seq<char> {
    let fw = w.font_size as int % 256;
    let fh = w.font_size as int / 256;
    "          font: number "@ + dec(w.font_number as nat) + " · size "@ + dec(fw as nat) + "x"@
        + dec(fh as nat) + "px (props 12/13)"@ + (if fw == m.cell.0 && fh == m.cell.1 {
        ""@
    } else {
        " <- not the "@ + dec(m.cell.0 as nat) + "x"@ + dec(m.cell.1 as nat) + " cell"@
    })
}

/// Whether a layer has a box.
pub open spec fn has_box(p: PosView, b: (u16, u16, u16, u16)) -> bool {
    p.x_px == b.0 && p.y_px == b.1 && p.w_px == b.2 && p.h_px == b.3
}

/// The first layer with a box; the number of layers if there is none.
pub open spec fn find_box(layers: Seq<PosView>, b: (u16, u16, u16, u16)) -> int
    decreases layers.len(),
{
    if layers.len() == 0 || has_box(layers[0], b) {
        0
    } else {
        1 + find_box(layers.drop_first(), b)
    }
}

/// The line of what is shown of a window.
pub open spec fn model_line(layers: Seq<PosView>, b: (u16, u16, u16, u16)) -> Seq<char> {
    let k = find_box(layers, b);
    if k < layers.len() {
        match layers[k].node {
            NodeView::Buffer(b) => if b.primary {
                "          model: Buffer — the story window"@
            } else {
                "          model: Buffer — panel, "@ + dec(b.lines.len()) + " line(s)"@
            },
            NodeView::Grid(g) => "          model: Grid — "@ + dec(g.px_texts.len()) + " run(s)"@
                + (if g.fill is Some {
                ", erase fill live"@
            } else {
                ""@
            }),
            NodeView::Graphics(_) => "          model: Graphics"@,
        }
    } else {
        "          model: not published (empty placeholder)"@
    }
}

/// Whether a frame put something with a box somewhere.
pub open spec fn is_placed(c: V6CellRect, b: (u16, u16, u16, u16)) -> bool {
    c.native == b && c.label@ != "scale"@
}

/// The line of where a frame put something.
pub open spec fn placed_line(c: V6CellRect) -> Seq<char> {
    "          cells: "@ + box_words(c.cells) + " as "@ + c.label@
}

/// The lines of where a frame put a window.
pub open spec fn cell_lines(cells: Seq<V6CellRect>, b: (u16, u16, u16, u16)) -> Seq<Seq<char>> {
    let placed = cells.filter(|c: V6CellRect| is_placed(c, b));
    if placed.len() > 0 {
        placed.map_values(|c: V6CellRect| placed_line(c))
    } else if cells.len() == 0 {
        seq!["          cells: (no frame recorded — render one first)"@]
    } else {
        seq!["          cells: NOT DRAWN this frame"@]
    }
}

/// The lines of a window; none for one without a size that has nothing in it.
pub open spec fn window_lines(
    m: &Machine,
    layers: Seq<PosView>,
    cells: Seq<V6CellRect>,
    i: int,
) -> Seq<Seq<char>> {
    let w = m.v6->0.windows@[i];
    if w.x_size == 0 && w.y_size == 0 && w.texts@.len() == 0 && w.prose@.len() == 0 {
        seq![]
    } else {
        seq![
            win_line(m, i, w),
            game_line(m, w),
            text_line(m, w),
            font_line(m, w),
            model_line(layers, shown_box(m, w)),
        ] + cell_lines(cells, shown_box(m, w))
    }
}

/// The lines of the windows below `n`.
pub open spec fn windows_lines(
    m: &Machine,
    layers: Seq<PosView>,
    cells: Seq<V6CellRect>,
    n: nat,
) -> Seq<Seq<char>>
    decreases n,
{
    if n == 0 {
        seq![]
    } else {
        windows_lines(m, layers, cells, (n - 1) as nat) + window_lines(m, layers, cells, n - 1)
    }
}

/// Whether something is a strip of the frame around the story.
pub open spec fn is_strip(c: V6CellRect) -> bool {
    starts(c.label@, "strip:"@) || starts(c.label@, "menu:"@)
}

/// The line of a strip.
pub open spec fn strip_line(c: V6CellRect) -> Seq<char> {
    "    "@ + c.label@ + " "@ + box_words(c.cells)
}

/// The lines of the strips of the frame around the story.
pub open spec fn strip_lines(cells: Seq<V6CellRect>) -> Seq<Seq<char>> {
    let strips = cells.filter(|c: V6CellRect| is_strip(c));
    if strips.len() > 0 {
        seq!["  chrome ring strips:"@] + strips.map_values(|c: V6CellRect| strip_line(c))
    } else {
        seq![]
    }
}

/// All lines of a screen with windows.
pub open spec fn v6_dump(
    m: &Machine,
    l: LayersView,
    cells: Seq<V6CellRect>,
    face: Option<TextFace>,
) -> Seq<Seq<char>> {
    let layers = v6_model(m, l.canvases, l.fills).root->Layered_0;
    seq![head_line(m, cells)] + pane_lines(cells) + face_lines(face) + windows_lines(
        m,
        layers,
        cells,
        m.v6->0.windows@.len(),
    ) + strip_lines(cells)
}

/// Adds a word to a list, where something holds.
fn add_word(v: &mut Vec<String>, holds: bool, word: &str)
    ensures
        string_views(final(v)@) == (if holds {
            string_views(old(v)@).push(word@)
        } else {
            string_views(old(v)@)
        }),
{
    if holds {
        v.push(word.to_owned());
        assert(string_views(v@) =~= string_views(old(v)@).push(word@));
    }
}

/// Adding what holds, one more.
proof fn lemma_holding(flags: Seq<(bool, Seq<char>)>, f: (bool, Seq<char>))
    ensures
        holding(flags.push(f)) == (if f.0 {
            holding(flags).push(f.1)
        } else {
            holding(flags)
        }),
{
    assert(flags.push(f).drop_last() =~= flags);
}

/// Writes the first line of a window.
fn write_win(m: &Machine, i: usize, w: &ZWindow, current: u8) -> (s: String)
    requires
        m.v6 is Some,
        current == m.v6->0.current,
    ensures
        s@ == win_line(m, i as int, *w),
{
    let mut flags: Vec<String> = Vec::new();
    let ghost none: Seq<(bool, Seq<char>)> = seq![];
    assert(string_views(flags@) =~= holding(none));
    let wrap: bool = w.attributes & 1 != 0;
    let scroll: bool = w.attributes & 2 != 0;
    let copied: bool = w.attributes & 4 != 0;
    let buffered: bool = w.attributes & 8 != 0;
    add_word(&mut flags, wrap, "wrap");
    add_word(&mut flags, scroll, "scroll");
    add_word(&mut flags, copied, "transcript");
    add_word(&mut flags, buffered, "buffered");
    proof {
        let f1 = none.push((wrap, "wrap"@));
        let f2 = f1.push((scroll, "scroll"@));
        let f3 = f2.push((copied, "transcript"@));
        let f4 = f3.push((buffered, "buffered"@));
        lemma_holding(none, (wrap, "wrap"@));
        lemma_holding(f1, (scroll, "scroll"@));
        lemma_holding(f2, (copied, "transcript"@));
        lemma_holding(f3, (buffered, "buffered"@));
        assert(f4 =~= seq![
            (w.attributes & 1 != 0, "wrap"@),
            (w.attributes & 2 != 0, "scroll"@),
            (w.attributes & 4 != 0, "transcript"@),
            (w.attributes & 8 != 0, "buffered"@),
        ]);
        assert(string_views(flags@) == flag_words(*w));
    }
    let mut marks: Vec<String> = Vec::new();
    assert(string_views(marks@) =~= holding(none));
    let is_current: bool = current as usize == i;
    let is_input: bool = m.input_window as usize == i;
    add_word(&mut marks, is_current, "current");
    add_word(&mut marks, is_input, "input");
    proof {
        let f1 = none.push((is_current, "current"@));
        lemma_holding(none, (is_current, "current"@));
        lemma_holding(f1, (is_input, "input"@));
        assert(f1.push((is_input, "input"@)) =~= seq![
            (m.v6->0.current == i, "current"@),
            (m.input_window == i, "input"@),
        ]);
        assert(string_views(marks@) == mark_words(m, i as int));
    }
    let mut s: String = "  win".to_owned();
    push_dec(&mut s, i as u64);
    s.append("  ");
    push_dec(&mut s, w.x_size as u64);
    s.append("x");
    push_dec(&mut s, w.y_size as u64);
    s.append(" at (");
    push_dec(&mut s, w.x_coord as u64);
    s.append(",");
    push_dec(&mut s, w.y_coord as u64);
    s.append(")  [");
    s.append(join(&flags, " ").as_str());
    s.append("]");
    let ghost a = s@;
    if marks.len() == 0 {
        s.append("");
    } else {
        s.append("  <- ");
        s.append(join(&marks, "+").as_str());
        assert(s@ =~= a + ("  <- "@ + joined(mark_words(m, i as int), "+"@)));
    }
    s
}

/// Writes the line of what the game asked for.
fn write_game(m: &Machine, w: &ZWindow, b: (u16, u16, u16, u16)) -> (s: String)
    requires
        b == shown_box(m, *w),
    ensures
        s@ == game_line(m, *w),
{
    let mut s: String = "          game: attrs=".to_owned();
    push_bin(&mut s, w.attributes as u64, 4);
    s.append(", ");
    push_dec(&mut s, w.texts.len() as u64);
    s.append(" paint run(s), ");
    push_dec(&mut s, w.prose.len() as u64);
    s.append(" prose line(s)");
    let ghost a = s@;
    if b.2 == w.x_size && b.3 == w.y_size {
        s.append("");
    } else {
        s.append(" — off-screen, clipped to ");
        push_dec(&mut s, b.2 as u64);
        s.append("x");
        push_dec(&mut s, b.3 as u64);
        assert(s@ =~= a + (" — off-screen, clipped to "@ + dec(b.2 as nat) + "x"@ + dec(
            b.3 as nat,
        )));
    }
    s
}

/// Writes the line of a window's own measures of text.
fn write_text(m: &Machine, w: &ZWindow) -> (s: String)
    requires
        m.cell.0 > 0,
    ensures
        s@ == text_line(m, *w),
{
    let usable: u16 = w.x_size.saturating_sub(w.left_margin).saturating_sub(w.right_margin);
    let mut s: String = "          text: grid ".to_owned();
    push_dec(&mut s, w.grid.cols as u64);
    s.append("x");
    push_dec(&mut s, w.grid.rows as u64);
    s.append(" cells of ");
    push_dec(&mut s, m.cell.0 as u64);
    s.append("x");
    push_dec(&mut s, m.cell.1 as u64);
    s.append("px · margins l=");
    push_dec(&mut s, w.left_margin as u64);
    s.append(" r=");
    push_dec(&mut s, w.right_margin as u64);
    s.append(" · usable ");
    push_dec(&mut s, usable as u64);
    s.append("px = ");
    push_dec(&mut s, (usable / m.cell.0) as u64);
    s.append(" cols");
    s
}

/// Writes the line of a window's font.
fn write_font(m: &Machine, w: &ZWindow) -> (s: String)
    ensures
        s@ == font_line(m, *w),
{
    let fw: u16 = w.font_size % 256;
    let fh: u16 = w.font_size / 256;
    let mut s: String = "          font: number ".to_owned();
    push_dec(&mut s, w.font_number as u64);
    s.append(" · size ");
    push_dec(&mut s, fw as u64);
    s.append("x");
    push_dec(&mut s, fh as u64);
    s.append("px (props 12/13)");
    let ghost a = s@;
    if fw == m.cell.0 && fh == m.cell.1 {
        s.append("");
    } else {
        s.append(" <- not the ");
        push_dec(&mut s, m.cell.0 as u64);
        s.append("x");
        push_dec(&mut s, m.cell.1 as u64);
        s.append(" cell");
        assert(s@ =~= a + (" <- not the "@ + dec(m.cell.0 as nat) + "x"@ + dec(m.cell.1 as nat)
            + " cell"@));
    }
    s
}

/// The first layer with a box is the first one with it.
proof fn lemma_find_box(v: Seq<PosView>, b: (u16, u16, u16, u16), k: int)
    requires
        0 <= k <= v.len(),
        k < v.len() ==> has_box(v[k], b),
        forall|i: int| 0 <= i < k ==> !has_box(#[trigger] v[i], b),
    ensures
        find_box(v, b) == k,
    decreases k,
{
    if k > 0 {
        assert(!has_box(v[0], b));
        assert forall|i: int| 0 <= i < k - 1 implies !has_box(#[trigger] v.drop_first()[i], b) by {
            assert(v.drop_first()[i] == v[i + 1]);
        }
        lemma_find_box(v.drop_first(), b, k - 1);
    }
}

/// Writes the line of what is shown of a window.
fn write_model(layers: &Vec<PositionedWindow>, b: (u16, u16, u16, u16)) -> (s: String)
    ensures
        s@ == model_line(pos_views(layers@), b),
{
    let ghost views = pos_views(layers@);
    let mut i: usize = 0;
    while i < layers.len() && !(layers[i].x_px == b.0 && layers[i].y_px == b.1 && layers[i].w_px
        == b.2 && layers[i].h_px == b.3)
        invariant
            i <= layers@.len(),
            views == pos_views(layers@),
            forall|j: int| 0 <= j < i ==> !has_box(#[trigger] views[j], b),
        decreases layers.len() - i,
    {
        assert(views[i as int] == layers@[i as int]@);
        i = i + 1;
    }
    proof {
        if i < layers@.len() {
            assert(views[i as int] == layers@[i as int]@);
        }
        lemma_find_box(views, b, i as int);
    }
    if i < layers.len() {
        match &layers[i].node {
            WinNode::Buffer(buffer) => {
                if buffer.primary {
                    "          model: Buffer — the story window".to_owned()
                } else {
                    let mut s: String = "          model: Buffer — panel, ".to_owned();
                    push_dec(&mut s, buffer.lines.len() as u64);
                    s.append(" line(s)");
                    s
                }
            },
            WinNode::Grid(grid) => {
                let mut s: String = "          model: Grid — ".to_owned();
                push_dec(&mut s, grid.px_texts.len() as u64);
                s.append(" run(s)");
                if grid.fill.is_some() {
                    s.append(", erase fill live");
                } else {
                    s.append("");
                }
                s
            },
            WinNode::Graphics(_) => "          model: Graphics".to_owned(),
        }
    } else {
        "          model: not published (empty placeholder)".to_owned()
    }
}

/// Appends the lines of where a frame put a window.
fn push_cell_lines(out: &mut Vec<String>, cells: &Vec<V6CellRect>, b: (u16, u16, u16, u16))
    ensures
        string_views(final(out)@) == string_views(old(out)@) + cell_lines(cells@, b),
{
    let ghost before = string_views(out@);
    let ghost p = |c: V6CellRect| is_placed(c, b);
    let ghost f = |c: V6CellRect| placed_line(c);
    let mut any: bool = false;
    let mut i: usize = 0;
    proof {
        reveal(Seq::filter);
        assert(cells@.take(0).filter(p) =~= seq![]);
    }
    assert(string_views(out@) =~= before + cells@.take(0).filter(p).map_values(f));
    while i < cells.len()
        invariant
            i <= cells@.len(),
            p == (|c: V6CellRect| is_placed(c, b)),
            f == (|c: V6CellRect| placed_line(c)),
            any == (cells@.take(i as int).filter(p).len() > 0),
            string_views(out@) == before + cells@.take(i as int).filter(p).map_values(f),
        decreases cells.len() - i,
    {
        let c = &cells[i];
        let ghost found = cells@.take(i as int).filter(p);
        proof {
            reveal(Seq::filter);
            assert(cells@.take(i + 1).drop_last() =~= cells@.take(i as int));
            assert(cells@.take(i + 1).last() == cells@[i as int]);
        }
        let n: (u16, u16, u16, u16) = c.native;
        let scale: bool = same_chars(
            to_chars(c.label.as_str()).as_slice(),
            to_chars("scale").as_slice(),
        );
        if n.0 == b.0 && n.1 == b.1 && n.2 == b.2 && n.3 == b.3 && !scale {
            let ghost out0 = out@;
            let mut s: String = "          cells: ".to_owned();
            push_box(&mut s, c.cells);
            s.append(" as ");
            s.append(c.label.as_str());
            out.push(s);
            any = true;
            assert(string_views(out@) =~= string_views(out0).push(placed_line(*c)));
            assert(found.push(*c).map_values(f) =~= found.map_values(f).push(placed_line(*c)));
            assert(string_views(out@) =~= before + found.push(*c).map_values(f));
        }
        i = i + 1;
    }
    assert(cells@.take(i as int) =~= cells@);
    if !any {
        let ghost out0 = out@;
        assert(string_views(out0) =~= before);
        if cells.len() == 0 {
            out.push("          cells: (no frame recorded — render one first)".to_owned());
        } else {
            out.push("          cells: NOT DRAWN this frame".to_owned());
        }
        assert(string_views(out@) =~= before + cell_lines(cells@, b));
    }
}

/// Appends the lines of the strips of the frame around the story.
fn push_strips(out: &mut Vec<String>, cells: &Vec<V6CellRect>)
    ensures
        string_views(final(out)@) == string_views(old(out)@) + strip_lines(cells@),
{
    let ghost before = string_views(out@);
    let ghost p = |c: V6CellRect| is_strip(c);
    let ghost f = |c: V6CellRect| strip_line(c);
    let ghost top = seq!["  chrome ring strips:"@];
    let mut any: bool = false;
    let mut i: usize = 0;
    proof {
        reveal(Seq::filter);
        assert(cells@.take(0).filter(p) =~= seq![]);
    }
    while i < cells.len()
        invariant
            i <= cells@.len(),
            p == (|c: V6CellRect| is_strip(c)),
            f == (|c: V6CellRect| strip_line(c)),
            top == seq!["  chrome ring strips:"@],
            any == (cells@.take(i as int).filter(p).len() > 0),
            string_views(out@) == (if any {
                before + (top + cells@.take(i as int).filter(p).map_values(f))
            } else {
                before
            }),
        decreases cells.len() - i,
    {
        let c = &cells[i];
        let ghost found = cells@.take(i as int).filter(p);
        proof {
            reveal(Seq::filter);
            assert(cells@.take(i + 1).drop_last() =~= cells@.take(i as int));
            assert(cells@.take(i + 1).last() == cells@[i as int]);
        }
        if text_starts(c.label.as_str(), "strip:") || text_starts(c.label.as_str(), "menu:") {
            if !any {
                out.push("  chrome ring strips:".to_owned());
                assert(string_views(out@) =~= before + (top + found.map_values(f)));
            }
            any = true;
            let ghost out0 = out@;
            let mut s: String = "    ".to_owned();
            s.append(c.label.as_str());
            s.append(" ");
            push_box(&mut s, c.cells);
            out.push(s);
            assert(string_views(out@) =~= string_views(out0).push(strip_line(*c)));
            assert(found.push(*c).map_values(f) =~= found.map_values(f).push(strip_line(*c)));
            assert(string_views(out@) =~= before + (top + found.push(*c).map_values(f)));
        }
        i = i + 1;
    }
    assert(cells@.take(i as int) =~= cells@);
    assert(string_views(out@) =~= before + strip_lines(cells@));
}

/// Appends the lines of a window.
fn push_window(
    out: &mut Vec<String>,
    m: &Machine,
    layers: &Vec<PositionedWindow>,
    cells: &Vec<V6CellRect>,
    i: usize,
    w: &ZWindow,
    current: u8,
)
    requires
        m.wf(),
        m.v6 is Some,
        i < m.v6->0.windows@.len(),
        *w == m.v6->0.windows@[i as int],
        current == m.v6->0.current,
    ensures
        string_views(final(out)@) == string_views(old(out)@) + window_lines(
            m,
            pos_views(layers@),
            cells@,
            i as int,
        ),
{
    let ghost before = string_views(out@);
    if w.x_size == 0 && w.y_size == 0 && w.texts.len() == 0 && w.prose.len() == 0 {
        assert(string_views(out@) =~= before + seq![]);
        return ;
    }
    let x: u16 = w.x_coord.saturating_sub(1);
    let y: u16 = w.y_coord.saturating_sub(1);
    let (cw, chh) = m.v6_clip_box(x, y, w.x_size, w.y_size);
    let b: (u16, u16, u16, u16) = (x, y, cw, chh);
    out.push(write_win(m, i, w, current));
    out.push(write_game(m, w, b));
    out.push(write_text(m, w));
    out.push(write_font(m, w));
    out.push(write_model(layers, b));
    let ghost five = seq![
        win_line(m, i as int, *w),
        game_line(m, *w),
        text_line(m, *w),
        font_line(m, *w),
        model_line(pos_views(layers@), b),
    ];
    assert(string_views(out@) =~= before + five);
    push_cell_lines(out, cells, b);
    assert(string_views(out@) =~= before + (five + cell_lines(cells@, b)));
}

impl GameSession {
    /// Describes a screen with windows: the first line, the pane, the typeface, a block for
    /// each window, and the strips around the story. `cells` is where the last frame put
    /// things, and `face` the typeface it was set in, as far as they are known.
    pub fn v6_window_dump(&self, cells: &Vec<V6CellRect>, face: Option<&TextFace>) -> (r: Vec<String>)
        requires
            self.wf(),
            boxes_end(&self.machine),
        ensures
            string_views(r@) == (if self.machine.v6 is Some {
                v6_dump(
                    &self.machine,
                    self.layers@,
                    cells@,
                    match face {
                        Some(f) => Some(*f),
                        None => None,
                    },
                )
            } else {
                seq![]
            }),
    {
        let mut out: Vec<String> = Vec::new();
        let v6 = match &self.machine.v6 {
            Some(v6) => v6,
            None => {
                assert(string_views(out@) =~= seq![]);
                return out;
            },
        };
        let model: ScreenModel = self.screen();
        let ghost view = v6_model(&self.machine, self.layers@.canvases, self.layers@.fills);
        let items: Vec<PositionedWindow> = match model.root {
            Layout::Layered(items) => items,
            Layout::Stacked(_, _) => Vec::new(),
        };
        assert(pos_views(items@) == view.root->Layered_0);
        out.push(write_head(&self.machine, cells, v6.current));
        let ghost top = seq![head_line(&self.machine, cells@)];
        assert(string_views(out@) =~= top);
        let k: usize = place_of_label(cells, "pane");
        if k < cells.len() {
            let v: usize = place_of_label(cells, "viewport");
            let mut s: String = "  pane ".to_owned();
            push_box(&mut s, cells[k].cells);
            s.append(" · story viewport ");
            if v < cells.len() {
                push_box(&mut s, cells[v].cells);
            } else {
                s.append("—");
            }
            out.push(s);
        }
        assert(string_views(out@) =~= top + pane_lines(cells@));
        let mut lines: Vec<String> = v6_face_lines(face);
        let ghost above = string_views(out@);
        let ghost faces = string_views(lines@);
        let ghost out0 = out@;
        let ghost lines0 = lines@;
        out.append(&mut lines);
        assert(out@ == out0 + lines0);
        assert(string_views(out@) =~= above + faces);
        let ghost above = string_views(out@);
        let mut i: usize = 0;
        assert(string_views(out@) =~= above + windows_lines(
            &self.machine,
            pos_views(items@),
            cells@,
            0,
        ));
        while i < v6.windows.len()
            invariant
                i <= v6.windows@.len(),
                self.wf(),
                self.machine.v6 == Some(*v6),
                string_views(out@) == above + windows_lines(
                    &self.machine,
                    pos_views(items@),
                    cells@,
                    i as nat,
                ),
            decreases v6.windows.len() - i,
        {
            push_window(
                &mut out,
                &self.machine,
                &items,
                cells,
                i,
                &v6.windows[i],
                v6.current,
            );
            assert(string_views(out@) =~= above + windows_lines(
                &self.machine,
                pos_views(items@),
                cells@,
                (i + 1) as nat,
            ));
            i = i + 1;
        }
        push_strips(&mut out, cells);
        out
    }

    /// Describes the screen, whatever it is made of.
    pub fn window_dump(&self) -> (r: Vec<String>)
        requires
            self.wf(),
            boxes_end(&self.machine),
        ensures
            string_views(r@) == (if self.machine.v6 is Some {
                v6_dump(&self.machine, self.layers@, seq![], None)
            } else {
                split_lines_of(&self.machine)
            }),
    {
        if self.machine.v6.is_some() {
            let cells: Vec<V6CellRect> = Vec::new();
            assert(cells@ =~= seq![]);
            self.v6_window_dump(&cells, None)
        } else {
            split_dump(&self.machine)
        }
    }
}

// ── Laws ──────────────────────────────────────────────────────────────────────
/// A window with a size or something in it has a block of lines of its own, and the blocks
/// stand in the order of the windows: first the window, then what the game asked for, its
/// measures, its font, what is shown of it and where a frame put it.
pub proof fn every_window_has_its_lines(
    m: &Machine,
    layers: Seq<PosView>,
    cells: Seq<V6CellRect>,
    n: nat,
    i: int,
) -> (at: int)
    requires
        0 <= i < n <= m.v6->0.windows@.len(),
        ({
            let w = m.v6->0.windows@[i];
            w.x_size > 0 || w.y_size > 0 || w.texts@.len() > 0 || w.prose@.len() > 0
        }),
    ensures
        ({
            let lines = windows_lines(m, layers, cells, n);
            let w = m.v6->0.windows@[i];
            &&& at == windows_lines(m, layers, cells, i as nat).len()
            &&& 0 <= at && at + 5 < lines.len()
            &&& lines[at] == win_line(m, i, w)
            &&& lines[at + 1] == game_line(m, w)
            &&& lines[at + 2] == text_line(m, w)
            &&& lines[at + 3] == font_line(m, w)
            &&& lines[at + 4] == model_line(layers, shown_box(m, w))
            &&& lines[at + 5] == cell_lines(cells, shown_box(m, w))[0]
        }),
    decreases n,
{
    let before = windows_lines(m, layers, cells, (n - 1) as nat);
    if i < n - 1 {
        let at = every_window_has_its_lines(m, layers, cells, (n - 1) as nat, i);
        assert forall|k: int| 0 <= k < before.len() implies windows_lines(m, layers, cells, n)[k]
            == #[trigger] before[k] by {}
        at
    } else {
        let w = m.v6->0.windows@[i];
        assert(cell_lines(cells, shown_box(m, w)).len() > 0);
        before.len() as int
    }
}

/// A window without a size that has nothing in it has no lines.
pub proof fn an_empty_window_has_no_lines(
    m: &Machine,
    layers: Seq<PosView>,
    cells: Seq<V6CellRect>,
    i: nat,
)
    requires
        i < m.v6->0.windows@.len(),
        ({
            let w = m.v6->0.windows@[i as int];
            w.x_size == 0 && w.y_size == 0 && w.texts@.len() == 0 && w.prose@.len() == 0
        }),
    ensures
        windows_lines(m, layers, cells, i + 1) == windows_lines(m, layers, cells, i),
{
    assert(windows_lines(m, layers, cells, i + 1) =~= windows_lines(m, layers, cells, i));
}

/// The words for a window's attributes are those of the bits that are set.
pub proof fn a_flag_is_told_by_its_bit(w: ZWindow)
    ensures
        flag_words(w).contains("wrap"@) <==> w.attributes % 2 == 1,
        flag_words(w).contains("scroll"@) <==> w.attributes / 2 % 2 == 1,
        flag_words(w).contains("transcript"@) <==> w.attributes / 4 % 2 == 1,
        flag_words(w).contains("buffered"@) <==> w.attributes / 8 % 2 == 1,
{
    let a = w.attributes;
    assert((a & 1 != 0 <==> a % 2 == 1) && (a & 2 != 0 <==> a / 2 % 2 == 1) && (a & 4 != 0 <==> a / 4
        % 2 == 1) && (a & 8 != 0 <==> a / 8 % 2 == 1)) by (bit_vector);
    reveal_strlit("wrap");
    reveal_strlit("scroll");
    reveal_strlit("transcript");
    reveal_strlit("buffered");
    assert("wrap"@.len() == 4 && "scroll"@.len() == 6 && "transcript"@.len() == 10
        && "buffered"@.len() == 8);
    let flags = seq![
        (a & 1 != 0, "wrap"@),
        (a & 2 != 0, "scroll"@),
        (a & 4 != 0, "transcript"@),
        (a & 8 != 0, "buffered"@),
    ];
    lemma_holds(flags, 0);
    lemma_holds(flags, 1);
    lemma_holds(flags, 2);
    lemma_holds(flags, 3);
}

/// Of words that differ, those that hold are told, and no others.
proof fn lemma_holds(flags: Seq<(bool, Seq<char>)>, i: int)
    requires
        0 <= i < flags.len(),
        forall|j: int| 0 <= j < flags.len() && j != i ==> (#[trigger] flags[j]).1 != flags[i].1,
    ensures
        holding(flags).contains(flags[i].1) <==> flags[i].0,
{
    lemma_holding_contains(flags, flags[i].1);
    if holding(flags).contains(flags[i].1) {
        let j = choose|j: int|
            0 <= j < flags.len() && (#[trigger] flags[j]).0 && flags[j].1 == flags[i].1;
        assert(flags[j].1 == flags[i].1);
    }
}

/// A word is told where it stands among those that hold.
proof fn lemma_holding_contains(flags: Seq<(bool, Seq<char>)>, word: Seq<char>)
    ensures
        holding(flags).contains(word) <==> exists|j: int|
            0 <= j < flags.len() && (#[trigger] flags[j]).0 && flags[j].1 == word,
    decreases flags.len(),
{
    if flags.len() > 0 {
        let init = flags.drop_last();
        let before = holding(init);
        lemma_holding_contains(init, word);
        let now = holding(flags);
        if before.contains(word) {
            let j = choose|j: int| 0 <= j < init.len() && (#[trigger] init[j]).0 && init[j].1 == word;
            assert(flags[j] == init[j]);
            let k = choose|k: int| 0 <= k < before.len() && before[k] == word;
            assert(now[k] == word);
        }
        if flags.last().0 {
            assert(now[now.len() - 1] == flags.last().1);
        }
        if now.contains(word) && !before.contains(word) {
            let k = choose|k: int| 0 <= k < now.len() && now[k] == word;
            if k < before.len() {
                assert(before[k] == word);
            }
            assert(flags[flags.len() - 1].0 && flags[flags.len() - 1].1 == word);
        }
        if exists|j: int| 0 <= j < flags.len() && (#[trigger] flags[j]).0 && flags[j].1 == word {
            let j = choose|j: int|
                0 <= j < flags.len() && (#[trigger] flags[j]).0 && flags[j].1 == word;
            if j < init.len() {
                assert(init[j] == flags[j]);
            }
        }
    }
}

/// A window is marked as the one that is written to, and as the one that is read from,
/// exactly where it is.
pub proof fn a_mark_is_told_where_it_holds(m: &Machine, i: int)
    ensures
        mark_words(m, i).contains("current"@) <==> m.v6->0.current == i,
        mark_words(m, i).contains("input"@) <==> m.input_window == i,
{
    reveal_strlit("current");
    reveal_strlit("input");
    assert("current"@.len() == 7 && "input"@.len() == 5);
    let flags = seq![(m.v6->0.current == i, "current"@), (m.input_window == i, "input"@)];
    lemma_holds(flags, 0);
    lemma_holds(flags, 1);
}

/// Whatever a frame put where a window is has its line among the window's; and where it put
/// nothing there, the one line says so.
pub proof fn whatever_was_put_there_is_told(
    cells: Seq<V6CellRect>,
    b: (u16, u16, u16, u16),
    i: int,
)
    requires
        0 <= i < cells.len(),
    ensures
        cells[i].native == b && cells[i].label@ != "scale"@ ==> cell_lines(cells, b).contains(
            placed_line(cells[i]),
        ),
        (forall|j: int| 0 <= j < cells.len() ==> (#[trigger] cells[j]).native != b) ==> cell_lines(
            cells,
            b,
        ) == seq!["          cells: NOT DRAWN this frame"@],
{
    let p = |c: V6CellRect| is_placed(c, b);
    let placed = cells.filter(p);
    if cells[i].native == b && cells[i].label@ != "scale"@ {
        assert(p(cells[i]));
        cells.lemma_filter_contains(p, i);
        let k = choose|k: int| 0 <= k < placed.len() && placed[k] == cells[i];
        let lines = placed.map_values(|c: V6CellRect| placed_line(c));
        assert(lines[k] == placed_line(cells[i]));
        assert(lines.contains(placed_line(cells[i])));
    }
    if forall|j: int| 0 <= j < cells.len() ==> (#[trigger] cells[j]).native != b {
        lemma_nothing_kept(cells, p);
    }
}

/// Of a list in which nothing meets a condition, nothing is kept.
proof fn lemma_nothing_kept(cells: Seq<V6CellRect>, p: spec_fn(V6CellRect) -> bool)
    requires
        forall|j: int| 0 <= j < cells.len() ==> !p(#[trigger] cells[j]),
    ensures
        cells.filter(p).len() == 0,
    decreases cells.len(),
{
    reveal(Seq::filter);
    if cells.len() > 0 {
        assert(!p(cells[cells.len() - 1]));
        assert forall|j: int| 0 <= j < cells.drop_last().len() implies !p(
            #[trigger] cells.drop_last()[j],
        ) by {
            assert(cells.drop_last()[j] == cells[j]);
        }
        lemma_nothing_kept(cells.drop_last(), p);
    }
}

/// What is shown of a window is told by the first layer with its box: the story, a panel
/// with its lines, a grid with its runs, or pictures; where no layer has it, nothing is shown.
pub proof fn a_window_is_told_by_its_layer(layers: Seq<PosView>, b: (u16, u16, u16, u16), k: int)
    requires
        0 <= k <= layers.len(),
        k < layers.len() ==> layers[k].x_px == b.0 && layers[k].y_px == b.1 && layers[k].w_px == b.2
            && layers[k].h_px == b.3,
        forall|i: int|
            0 <= i < k ==> !((#[trigger] layers[i]).x_px == b.0 && layers[i].y_px == b.1
                && layers[i].w_px == b.2 && layers[i].h_px == b.3),
    ensures
        k == layers.len() ==> model_line(layers, b)
            == "          model: not published (empty placeholder)"@,
        k < layers.len() ==> (layers[k].node matches NodeView::Graphics(_) ==> model_line(layers, b)
            == "          model: Graphics"@),
        k < layers.len() ==> (layers[k].node matches NodeView::Buffer(p) ==> model_line(layers, b)
            == (if p.primary {
            "          model: Buffer — the story window"@
        } else {
            "          model: Buffer — panel, "@ + dec(p.lines.len()) + " line(s)"@
        })),
{
    lemma_first_box(layers, b, k);
}

/// The first layer with a box is the first that has it.
proof fn lemma_first_box(layers: Seq<PosView>, b: (u16, u16, u16, u16), k: int)
    requires
        0 <= k <= layers.len(),
        k < layers.len() ==> has_box(layers[k], b),
        forall|i: int| 0 <= i < k ==> !has_box(#[trigger] layers[i], b),
    ensures
        find_box(layers, b) == k,
    decreases k,
{
    if k > 0 {
        assert(!has_box(layers[0], b));
        assert forall|i: int| 0 <= i < k - 1 implies !has_box(
            #[trigger] layers.drop_first()[i],
            b,
        ) by {
            assert(layers.drop_first()[i] == layers[i + 1]);
        }
        lemma_first_box(layers.drop_first(), b, k - 1);
    }
}

} // verus!
