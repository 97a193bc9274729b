//! What the lines of the dumps say: the numbers in them, in the order in which they stand.

use crate::debug::{lemma_tells_dec, tells_dec};
use crate::dump::{
    body_line, cell_line, cut_text, debug_form, fit_words, fixed_line, origin_words, snapshot_line,
    snapshot_run, split_head, TextFace,
};
use crate::machine::{from_zero, Machine, PaintRun, ZWindow};
use crate::raster::Raster;
use crate::scott::{ScottSession, PICTURE_ROWS};
use crate::scottdump::{opaque_rows, overlay_words, picture_line, source_words};
use crate::text::{
    a_binary_numeral_denotes_its_number, a_decimal_numeral_denotes_its_number, bin_pad, dec, dec_int,
    joined, numeral_value, string_views,
};
use crate::windump::{
    box_words, flag_words, font_line, game_line, head_line, lemma_find_label, mark_words, path_words,
    placed_line, scale_words, shown_box, text_line, usable_width, win_line, V6CellRect,
};
use vstd::prelude::*;

verus! {

/// Whether a character is a decimal digit.
pub open spec fn is_digit(c: char) -> bool {
    '0' <= c <= '9'
}

/// The runs of digits in a text, in the order in which they stand.
pub open spec fn numerals(s: Seq<char>) -> Seq<Seq<char>>
    decreases s.len(),
{
    if s.len() == 0 {
        seq![]
    } else {
        let before = numerals(s.drop_last());
        if !is_digit(s.last()) {
            before
        } else if s.len() > 1 && is_digit(s[s.len() - 2]) {
            before.drop_last().push(before.last().push(s.last()))
        } else {
            before.push(seq![s.last()])
        }
    }
}

/// The numbers in a text, in the order in which they stand.
pub open spec fn numbers(s: Seq<char>) -> Seq<int> {
    numerals(s).map_values(|d: Seq<char>| numeral_value(d, 10))
}

/// Whether a text has no digit in it.
pub open spec fn no_digit(s: Seq<char>) -> bool {
    forall|i: int| 0 <= i < s.len() ==> !is_digit(#[trigger] s[i])
}

/// Whether the digits of two texts stay apart where one follows the other.
pub open spec fn apart(a: Seq<char>, b: Seq<char>) -> bool {
    a.len() == 0 || b.len() == 0 || !is_digit(a.last()) || !is_digit(b[0])
}

/// A text that ends in a digit has a number.
proof fn lemma_ends_in_a_number(s: Seq<char>)
    requires
        s.len() > 0,
        is_digit(s.last()),
    ensures
        numerals(s).len() > 0,
    decreases s.len(),
{
    if s.len() > 1 && is_digit(s[s.len() - 2]) {
        lemma_ends_in_a_number(s.drop_last());
    }
}

/// The numbers of two texts, one after the other.
proof fn lemma_numerals_of_both(a: Seq<char>, b: Seq<char>)
    requires
        apart(a, b),
    ensures
        numerals(a + b) == numerals(a) + numerals(b),
    decreases b.len(),
{
    if b.len() == 0 {
        assert(a + b =~= a);
        assert(numerals(a) + numerals(b) =~= numerals(a));
    } else {
        let s = a + b;
        assert(s.drop_last() =~= a + b.drop_last());
        assert(b.drop_last().len() > 0 ==> b.drop_last()[0] == b[0]);
        lemma_numerals_of_both(a, b.drop_last());
        let before = numerals(s.drop_last());
        assert(s.last() == b.last());
        if is_digit(b.last()) {
            if b.len() > 1 && is_digit(b[b.len() - 2]) {
                assert(s[s.len() - 2] == b[b.len() - 2]);
                assert(b.drop_last().last() == b[b.len() - 2]);
                lemma_ends_in_a_number(b.drop_last());
                let inner = numerals(b.drop_last());
                assert(before.last() == inner.last());
                assert(before.drop_last() =~= numerals(a) + inner.drop_last());
                assert(numerals(s) =~= numerals(a) + numerals(b));
            } else {
                if b.len() > 1 {
                    assert(s[s.len() - 2] == b[b.len() - 2]);
                } else if a.len() > 0 {
                    assert(s[s.len() - 2] == a.last());
                }
                assert(numerals(s) =~= numerals(a) + numerals(b));
            }
        } else {
            assert(numerals(s) =~= numerals(a) + numerals(b));
        }
    }
}

/// The numbers of two texts, one after the other.
proof fn lemma_both(a: Seq<char>, b: Seq<char>)
    requires
        apart(a, b),
    ensures
        numbers(a + b) == numbers(a) + numbers(b),
{
    lemma_numerals_of_both(a, b);
    assert(numbers(a + b) =~= numbers(a) + numbers(b));
}

/// A text without a digit has no number.
proof fn lemma_no_numbers(t: Seq<char>)
    requires
        no_digit(t),
    ensures
        numerals(t) == Seq::<Seq<char>>::empty(),
        numbers(t) == Seq::<int>::empty(),
    decreases t.len(),
{
    if t.len() > 0 {
        assert(no_digit(t.drop_last())) by {
            assert forall|i: int| 0 <= i < t.drop_last().len() implies !is_digit(
                #[trigger] t.drop_last()[i],
            ) by {
                assert(t.drop_last()[i] == t[i]);
            }
        }
        lemma_no_numbers(t.drop_last());
        assert(!is_digit(t[t.len() - 1]));
    }
    assert(numbers(t) =~= Seq::<int>::empty());
}

/// A run of digits is one numeral.
proof fn lemma_one_numeral(d: Seq<char>)
    requires
        d.len() > 0,
        forall|i: int| 0 <= i < d.len() ==> is_digit(#[trigger] d[i]),
    ensures
        numerals(d) == seq![d],
    decreases d.len(),
{
    assert(is_digit(d[d.len() - 1]));
    if d.len() == 1 {
        assert(d.drop_last() =~= seq![]);
        assert(numerals(d.drop_last()) =~= seq![]);
        assert(seq![d.last()] =~= d);
        assert(numerals(d) =~= seq![d]);
    } else {
        assert(is_digit(d[d.len() - 2]));
        assert forall|i: int| 0 <= i < d.drop_last().len() implies is_digit(
            #[trigger] d.drop_last()[i],
        ) by {
            assert(d.drop_last()[i] == d[i]);
        }
        lemma_one_numeral(d.drop_last());
        assert(d.drop_last().push(d.last()) =~= d);
        assert(numerals(d) =~= seq![d]);
    }
}

/// Appends a text without a digit, and then a number.
proof fn lemma_then(a: Seq<char>, t: Seq<char>, n: nat)
    requires
        no_digit(t),
        t.len() > 0,
    ensures
        numbers(a + t + dec(n)) == numbers(a).push(n as int),
        numerals(a + t + dec(n)) == numerals(a).push(dec(n)),
{
    a_decimal_numeral_denotes_its_number(n);
    lemma_then_digits(a, t, dec(n));
}

/// Appends a text without a digit, and then digits.
proof fn lemma_then_digits(a: Seq<char>, t: Seq<char>, d: Seq<char>)
    requires
        no_digit(t),
        t.len() > 0,
        d.len() > 0,
        forall|i: int| 0 <= i < d.len() ==> is_digit(#[trigger] d[i]),
    ensures
        numbers(a + t + d) == numbers(a).push(numeral_value(d, 10)),
        numerals(a + t + d) == numerals(a).push(d),
{
    assert(!is_digit(t[0]) && !is_digit(t[t.len() - 1]));
    lemma_numerals_of_both(a, t);
    lemma_no_numbers(t);
    lemma_one_numeral(d);
    assert((a + t).last() == t.last());
    lemma_numerals_of_both(a + t, d);
    assert(numerals(a + t + d) =~= numerals(a).push(d));
    assert(numbers(a + t + d) =~= numbers(a).push(numeral_value(d, 10)));
}

/// A number at the start.
proof fn lemma_first(n: nat)
    ensures
        numbers(dec(n)) == seq![n as int],
        dec(n).len() > 0,
{
    a_decimal_numeral_denotes_its_number(n);
    lemma_one_numeral(dec(n));
    assert(numbers(dec(n)) =~= seq![n as int]);
}

/// A number behind a text at the start.
proof fn lemma_start(t: Seq<char>, n: nat)
    requires
        no_digit(t),
        t.len() > 0,
    ensures
        numbers(t + dec(n)) == seq![n as int],
        numerals(t + dec(n)) == seq![dec(n)],
{
    let e = Seq::<char>::empty();
    lemma_then(e, t, n);
    assert(e + t + dec(n) =~= t + dec(n));
    lemma_no_numbers(e);
    assert(numbers(t + dec(n)) =~= seq![n as int]);
    assert(numerals(t + dec(n)) =~= seq![dec(n)]);
}

/// Whether a text starts with something else than a digit, if with anything.
pub open spec fn starts_plain(s: Seq<char>) -> bool {
    s.len() == 0 || !is_digit(s[0])
}

/// Appends anything that does not start with a digit.
proof fn lemma_rest(a: Seq<char>, r: Seq<char>)
    requires
        starts_plain(r),
    ensures
        numbers(a).is_prefix_of(numbers(a + r)),
        forall|k: int| 0 <= k < numbers(a).len() ==> #[trigger] numbers(a + r)[k] == numbers(a)[k],
        numbers(a + r).len() >= numbers(a).len(),
        no_digit(r) ==> numbers(a + r) == numbers(a),
        forall|k: int|
            0 <= k < numerals(a).len() ==> #[trigger] numerals(a + r)[k] == numerals(a)[k],
        numerals(a + r).len() >= numerals(a).len(),
{
    lemma_numerals_of_both(a, r);
    lemma_both(a, r);
    if no_digit(r) {
        lemma_no_numbers(r);
        assert(numbers(a + r) =~= numbers(a));
    }
}

// ── Laws ──────────────────────────────────────────────────────────────────────
/// A box is told by its width, its height, its column and its row.
pub proof fn a_box_is_told_by_its_size_and_place(c: (u16, u16, u16, u16))
    ensures
        numbers(box_words(c)) == seq![c.2 as int, c.3 as int, c.0 as int, c.1 as int],
{
    reveal_strlit("x");
    reveal_strlit(" at (");
    reveal_strlit(",");
    reveal_strlit(")");
    let a = dec(c.2 as nat);
    lemma_first(c.2 as nat);
    lemma_then(a, "x"@, c.3 as nat);
    let b = a + "x"@ + dec(c.3 as nat);
    lemma_then(b, " at ("@, c.0 as nat);
    let d = b + " at ("@ + dec(c.0 as nat);
    lemma_then(d, ","@, c.1 as nat);
    lemma_rest(d + ","@ + dec(c.1 as nat), ")"@);
    assert(numbers(box_words(c)) =~= seq![c.2 as int, c.3 as int, c.0 as int, c.1 as int]);
}

/// The line of a window tells its number, its width and its height, and its column and its
/// row.
pub proof fn a_window_is_told_by_its_size_and_place(m: &Machine, i: int, w: ZWindow)
    requires
        0 <= i,
    ensures
        numbers(win_line(m, i, w)).len() >= 5,
        numbers(win_line(m, i, w))[0] == i,
        numbers(win_line(m, i, w))[1] == w.x_size as int,
        numbers(win_line(m, i, w))[2] == w.y_size as int,
        numbers(win_line(m, i, w))[3] == w.x_coord as int,
        numbers(win_line(m, i, w))[4] == w.y_coord as int,
{
    reveal_strlit("  win");
    reveal_strlit("  ");
    reveal_strlit("x");
    reveal_strlit(" at (");
    reveal_strlit(",");
    reveal_strlit(")  [");
    reveal_strlit("]");
    lemma_start("  win"@, i as nat);
    let a0 = "  win"@ + dec(i as nat);
    lemma_then(a0, "  "@, w.x_size as nat);
    let a1 = a0 + "  "@ + dec(w.x_size as nat);
    lemma_then(a1, "x"@, w.y_size as nat);
    let a2 = a1 + "x"@ + dec(w.y_size as nat);
    lemma_then(a2, " at ("@, w.x_coord as nat);
    let a3 = a2 + " at ("@ + dec(w.x_coord as nat);
    lemma_then(a3, ","@, w.y_coord as nat);
    let a4 = a3 + ","@ + dec(w.y_coord as nat);
    let rest = ")  ["@ + joined(flag_words(w), " "@) + "]"@ + (if mark_words(m, i).len() == 0 {
        ""@
    } else {
        "  <- "@ + joined(mark_words(m, i), "+"@)
    });
    lemma_rest(a4, rest);
    assert(win_line(m, i, w) =~= a4 + rest);
}

/// The line of what the game asked for tells the attributes in binary digits, and then how
/// many runs and lines the window has.
pub proof fn a_window_is_told_by_its_contents(m: &Machine, w: ZWindow)
    ensures
        numerals(game_line(m, w)).len() >= 3,
        numeral_value(numerals(game_line(m, w))[0], 2) == w.attributes,
        numbers(game_line(m, w))[1] == w.texts@.len(),
        numbers(game_line(m, w))[2] == w.prose@.len(),
{
    reveal_strlit("          game: attrs=");
    reveal_strlit(", ");
    reveal_strlit(" paint run(s), ");
    reveal_strlit(" prose line(s)");
    let bits = bin_pad(w.attributes as nat, 4);
    a_binary_numeral_denotes_its_number(w.attributes as nat, 4);
    let e = Seq::<char>::empty();
    lemma_no_numbers(e);
    lemma_then_digits(e, "          game: attrs="@, bits);
    let a0 = e + "          game: attrs="@ + bits;
    lemma_then(a0, ", "@, w.texts@.len());
    let a1 = a0 + ", "@ + dec(w.texts@.len());
    lemma_then(a1, " paint run(s), "@, w.prose@.len());
    let a2 = a1 + " paint run(s), "@ + dec(w.prose@.len());
    let b = shown_box(m, w);
    let rest = " prose line(s)"@ + (if b.2 == w.x_size && b.3 == w.y_size {
        ""@
    } else {
        " — off-screen, clipped to "@ + dec(b.2 as nat) + "x"@ + dec(b.3 as nat)
    });
    lemma_rest(a2, rest);
    assert(game_line(m, w) =~= a2 + rest);
    assert(numerals(a2)[0] == bits);
}

/// The line of a window's measures of text tells its columns and rows, the width and the
/// height of a cell, the left margin and the right, and what these leave of the width, in
/// pixels and in cells.
pub proof fn a_window_is_told_by_its_measures(m: &Machine, w: ZWindow, usable: int)
    requires
        m.cell.0 > 0,
        usable == (if w.x_size >= w.left_margin + w.right_margin {
            w.x_size - w.left_margin - w.right_margin
        } else {
            0
        }),
    ensures
        numbers(text_line(m, w)) == seq![w.grid.cols as int, w.grid.rows as int, m.cell.0 as int, m.cell.1 as int, w.left_margin as int, w.right_margin as int, usable, usable / m.cell.0 as int],
{
    reveal_strlit("          text: grid ");
    reveal_strlit("x");
    reveal_strlit(" cells of ");
    reveal_strlit("px · margins l=");
    reveal_strlit(" r=");
    reveal_strlit(" · usable ");
    reveal_strlit("px = ");
    reveal_strlit(" cols");
    assert(usable / m.cell.0 as int >= 0) by (nonlinear_arith)
        requires
            usable >= 0,
            m.cell.0 > 0,
    ;
    assert(usable_width(w) == usable);
    lemma_start("          text: grid "@, w.grid.cols as nat);
    let a0 = "          text: grid "@ + dec(w.grid.cols as nat);
    lemma_then(a0, "x"@, w.grid.rows as nat);
    let a1 = a0 + "x"@ + dec(w.grid.rows as nat);
    lemma_then(a1, " cells of "@, m.cell.0 as nat);
    let a2 = a1 + " cells of "@ + dec(m.cell.0 as nat);
    lemma_then(a2, "x"@, m.cell.1 as nat);
    let a3 = a2 + "x"@ + dec(m.cell.1 as nat);
    lemma_then(a3, "px · margins l="@, w.left_margin as nat);
    let a4 = a3 + "px · margins l="@ + dec(w.left_margin as nat);
    lemma_then(a4, " r="@, w.right_margin as nat);
    let a5 = a4 + " r="@ + dec(w.right_margin as nat);
    lemma_then(a5, " · usable "@, usable as nat);
    let a6 = a5 + " · usable "@ + dec(usable as nat);
    lemma_then(a6, "px = "@, (usable / m.cell.0 as int) as nat);
    let a7 = a6 + "px = "@ + dec((usable / m.cell.0 as int) as nat);
    let rest = " cols"@;
    lemma_rest(a7, rest);
    assert(text_line(m, w) =~= a7 + rest);
    assert(numbers(text_line(m, w)) =~= seq![w.grid.cols as int, w.grid.rows as int, m.cell.0 as int, m.cell.1 as int, w.left_margin as int, w.right_margin as int, usable, usable / m.cell.0 as int]);
}

/// The line of a window's font tells its number, and its width and height: the lower byte of
/// its size and the upper.
pub proof fn a_font_is_told_by_its_width_and_height(m: &Machine, w: ZWindow)
    ensures
        numbers(font_line(m, w)).len() >= 3,
        numbers(font_line(m, w))[0] == w.font_number as int,
        numbers(font_line(m, w))[1] == w.font_size as int % 256,
        numbers(font_line(m, w))[2] == w.font_size as int / 256,
{
    reveal_strlit("          font: number ");
    reveal_strlit(" · size ");
    reveal_strlit("x");
    reveal_strlit("px (props 12/13)");
    lemma_start("          font: number "@, w.font_number as nat);
    let a0 = "          font: number "@ + dec(w.font_number as nat);
    lemma_then(a0, " · size "@, (w.font_size as int % 256) as nat);
    let a1 = a0 + " · size "@ + dec((w.font_size as int % 256) as nat);
    lemma_then(a1, "x"@, (w.font_size as int / 256) as nat);
    let a2 = a1 + "x"@ + dec((w.font_size as int / 256) as nat);
    let rest = "px (props 12/13)"@ + (if w.font_size as int % 256 == m.cell.0 && w.font_size as int / 256
        == m.cell.1 {
        ""@
    } else {
        " <- not the "@ + dec(m.cell.0 as nat) + "x"@ + dec(m.cell.1 as nat) + " cell"@
    });
    lemma_rest(a2, rest);
    assert(font_line(m, w) =~= a2 + rest);
}

/// The line of where a frame put something tells the box in characters: its width, its
/// height, its column and its row.
pub proof fn a_placed_box_is_told_in_characters(c: V6CellRect)
    ensures
        numbers(placed_line(c)).len() >= 4,
        numbers(placed_line(c))[0] == c.cells.2,
        numbers(placed_line(c))[1] == c.cells.3,
        numbers(placed_line(c))[2] == c.cells.0,
        numbers(placed_line(c))[3] == c.cells.1,
{
    reveal_strlit("          cells: ");
    reveal_strlit(" as ");
    let t = "          cells: "@;
    lemma_no_numbers(t);
    assert(!is_digit(t[t.len() - 1]));
    a_box_is_told_by_its_size_and_place(c.cells);
    lemma_both(t, box_words(c.cells));
    let a = t + box_words(c.cells);
    let rest = " as "@ + c.label@;
    lemma_rest(a, rest);
    assert(placed_line(c) =~= a + rest);
}

/// The first line of a snapshot tells a window by its number, its column and row, its width
/// and height, and the row and column of its cursor.
pub proof fn a_snapshot_tells_the_windows(i: int, w: ZWindow)
    requires
        0 <= i,
    ensures
        numbers(snapshot_line(i, w)).len() >= 7,
        numbers(snapshot_line(i, w))[0] == i,
        numbers(snapshot_line(i, w))[1] == w.x_coord as int,
        numbers(snapshot_line(i, w))[2] == w.y_coord as int,
        numbers(snapshot_line(i, w))[3] == w.x_size as int,
        numbers(snapshot_line(i, w))[4] == w.y_size as int,
        numbers(snapshot_line(i, w))[5] == w.y_cursor as int,
        numbers(snapshot_line(i, w))[6] == w.x_cursor as int,
{
    reveal_strlit("win");
    reveal_strlit(": pos=(");
    reveal_strlit(",");
    reveal_strlit(") size=");
    reveal_strlit("x");
    reveal_strlit(" cursor=(");
    reveal_strlit(") attrs=0b");
    lemma_start("win"@, i as nat);
    let a0 = "win"@ + dec(i as nat);
    lemma_then(a0, ": pos=("@, w.x_coord as nat);
    let a1 = a0 + ": pos=("@ + dec(w.x_coord as nat);
    lemma_then(a1, ","@, w.y_coord as nat);
    let a2 = a1 + ","@ + dec(w.y_coord as nat);
    lemma_then(a2, ") size="@, w.x_size as nat);
    let a3 = a2 + ") size="@ + dec(w.x_size as nat);
    lemma_then(a3, "x"@, w.y_size as nat);
    let a4 = a3 + "x"@ + dec(w.y_size as nat);
    lemma_then(a4, " cursor=("@, w.y_cursor as nat);
    let a5 = a4 + " cursor=("@ + dec(w.y_cursor as nat);
    lemma_then(a5, ","@, w.x_cursor as nat);
    let a6 = a5 + ","@ + dec(w.x_cursor as nat);
    let rest = ") attrs=0b"@ + bin_pad(w.attributes as nat, 4) + " margins=("@ + dec(
        w.left_margin as nat,
    ) + ","@ + dec(w.right_margin as nat) + ") font=("@ + dec(w.font_number as nat) + ","@ + dec(
        w.font_size as nat,
    ) + ") runs="@ + dec(w.texts@.len());
    lemma_rest(a6, rest);
    assert(snapshot_line(i, w) =~= a6 + rest);
}

/// A snapshot tells a run by its row, its column and its style.
pub proof fn a_snapshot_tells_the_runs(t: PaintRun)
    ensures
        numbers(snapshot_run(t)).len() >= 3,
        numbers(snapshot_run(t))[0] == t.y as int,
        numbers(snapshot_run(t))[1] == t.x as int,
        numbers(snapshot_run(t))[2] == t.style as int,
{
    reveal_strlit("  y=");
    reveal_strlit(" x=");
    reveal_strlit(" style=");
    reveal_strlit(" ");
    lemma_start("  y="@, t.y as nat);
    let a0 = "  y="@ + dec(t.y as nat);
    lemma_then(a0, " x="@, t.x as nat);
    let a1 = a0 + " x="@ + dec(t.x as nat);
    lemma_then(a1, " style="@, t.style as nat);
    let a2 = a1 + " style="@ + dec(t.style as nat);
    let rest = " "@ + debug_form(cut_text(t.text@));
    lemma_rest(a2, rest);
    assert(snapshot_run(t) =~= a2 + rest);
}

/// The line of the cell tells its width and height, and the scale across and down.
pub proof fn a_face_is_told_by_its_cell_and_scale(f: TextFace)
    ensures
        numbers(cell_line(f)) == seq![f.cell.0 as int, f.cell.1 as int, f.scale.0 as int, f.scale.1 as int],
{
    reveal_strlit("    declared cell ");
    reveal_strlit("x");
    reveal_strlit("px · text scale ");
    reveal_strlit(" native px per face px");
    lemma_start("    declared cell "@, f.cell.0 as nat);
    let a0 = "    declared cell "@ + dec(f.cell.0 as nat);
    lemma_then(a0, "x"@, f.cell.1 as nat);
    let a1 = a0 + "x"@ + dec(f.cell.1 as nat);
    lemma_then(a1, "px · text scale "@, f.scale.0 as nat);
    let a2 = a1 + "px · text scale "@ + dec(f.scale.0 as nat);
    lemma_then(a2, "x"@, f.scale.1 as nat);
    let a3 = a2 + "x"@ + dec(f.scale.1 as nat);
    let rest = " native px per face px"@;
    lemma_rest(a3, rest);
    assert(cell_line(f) =~= a3 + rest);
    assert(numbers(cell_line(f)) =~= seq![f.cell.0 as int, f.cell.1 as int, f.scale.0 as int, f.scale.1 as int]);
}

/// The line of the body typeface tells its width and its height.
pub proof fn a_body_face_is_told_by_its_size(f: TextFace, width: u32, height: u32)
    requires
        f.body matches Some(b) && b.width == width && b.height == height,
    ensures
        numbers(body_line(f)).len() >= 2,
        numbers(body_line(f))[0] == width as int,
        numbers(body_line(f))[1] == height as int,
{
    reveal_strlit("    body: ");
    reveal_strlit("x");
    reveal_strlit("px from ");
    lemma_start("    body: "@, width as nat);
    let a0 = "    body: "@ + dec(width as nat);
    lemma_then(a0, "x"@, height as nat);
    let a1 = a0 + "x"@ + dec(height as nat);
    let rest = "px from "@ + origin_words(f.body->0.origin) + " · fit "@ + fit_words(f.fit);
    lemma_rest(a1, rest);
    assert(body_line(f) =~= a1 + rest);
}

/// The line of the typeface of a fixed pitch tells its width and its height.
pub proof fn a_fixed_face_is_told_by_its_size(f: TextFace, width: u32, height: u32)
    requires
        f.fixed matches Some(b) && b.width == width && b.height == height,
    ensures
        numbers(fixed_line(f)).len() >= 2,
        numbers(fixed_line(f))[0] == width as int,
        numbers(fixed_line(f))[1] == height as int,
{
    reveal_strlit("    fixed: ");
    reveal_strlit("x");
    reveal_strlit("px from ");
    lemma_start("    fixed: "@, width as nat);
    let a0 = "    fixed: "@ + dec(width as nat);
    lemma_then(a0, "x"@, height as nat);
    let a1 = a0 + "x"@ + dec(height as nat);
    let rest = "px from "@ + origin_words(f.fixed->0.origin);
    lemma_rest(a1, rest);
    assert(fixed_line(f) =~= a1 + rest);
}

/// The first lines of a screen with two windows tell the version, the rows asked for and
/// those painted, the columns, and the row and the column of the cursor.
pub proof fn a_split_screen_is_told_by_its_measures(m: &Machine)
    ensures
        numbers(split_head(m)[0]) == seq![m.version as int],
        numbers(split_head(m)[1]) == seq![m.upper_window_rows as int, m.upper.rows as int],
        numbers(split_head(m)[2]) == seq![m.upper.cols as int],
        numbers(split_head(m)[3]) == seq![m.cursor_row as int, m.cursor_col as int],
{
    reveal_strlit("Z-machine v");
    reveal_strlit(" layout — Grid over Buffer");
    lemma_start("Z-machine v"@, m.version as nat);
    let v = "Z-machine v"@ + dec(m.version as nat);
    lemma_rest(v, " layout — Grid over Buffer"@);
    reveal_strlit("  split: ");
    reveal_strlit(" row(s) requested  ·  grid: ");
    reveal_strlit(" row(s) painted");
    reveal_strlit("  <- diverge");
    reveal_strlit("");
    lemma_start("  split: "@, m.upper_window_rows as nat);
    let r0 = "  split: "@ + dec(m.upper_window_rows as nat);
    lemma_then(r0, " row(s) requested  ·  grid: "@, m.upper.rows as nat);
    let r1 = r0 + " row(s) requested  ·  grid: "@ + dec(m.upper.rows as nat);
    lemma_rest(r1, " row(s) painted"@);
    let r2 = r1 + " row(s) painted"@;
    lemma_rest(r2, "  <- diverge"@);
    lemma_rest(r2, ""@);
    reveal_strlit("  grid cols: ");
    lemma_start("  grid cols: "@, m.upper.cols as nat);
    reveal_strlit("  cursor: row ");
    reveal_strlit(", col ");
    reveal_strlit("  ·  window: ");
    reveal_strlit("upper");
    reveal_strlit("lower");
    lemma_start("  cursor: row "@, m.cursor_row as nat);
    let c0 = "  cursor: row "@ + dec(m.cursor_row as nat);
    lemma_then(c0, ", col "@, m.cursor_col as nat);
    let c1 = c0 + ", col "@ + dec(m.cursor_col as nat);
    lemma_rest(c1, "  ·  window: "@);
    let c2 = c1 + "  ·  window: "@;
    lemma_rest(c2, "upper"@);
    lemma_rest(c2, "lower"@);
    assert(numbers(split_head(m)[1]) =~= seq![m.upper_window_rows as int, m.upper.rows as int]);
    assert(numbers(split_head(m)[3]) =~= seq![m.cursor_row as int, m.cursor_col as int]);
}

/// The line of the picture band tells the rows that it takes, the width and height of the
/// picture, and how often it was drawn anew.
pub proof fn a_picture_band_is_told_by_its_size(s: &ScottSession, c: Raster)
    requires
        s.current_canvas == Some(c),
    ensures
        numbers(picture_line(s)).len() >= 4,
        numbers(picture_line(s))[0] == PICTURE_ROWS as int,
        numbers(picture_line(s))[1] == c.width as int,
        numbers(picture_line(s))[2] == c.height as int,
        numbers(picture_line(s))[3] == s.pic_version as int,
{
    reveal_strlit("  picture: ");
    reveal_strlit(" row(s) reserved  ·  canvas=");
    reveal_strlit("x");
    reveal_strlit(" v");
    reveal_strlit(" opaque=");
    lemma_start("  picture: "@, PICTURE_ROWS as nat);
    let a0 = "  picture: "@ + dec(PICTURE_ROWS as nat);
    lemma_then(a0, " row(s) reserved  ·  canvas="@, c.width as nat);
    let a1 = a0 + " row(s) reserved  ·  canvas="@ + dec(c.width as nat);
    lemma_then(a1, "x"@, c.height as nat);
    let a2 = a1 + "x"@ + dec(c.height as nat);
    lemma_then(a2, " v"@, s.pic_version as nat);
    let a3 = a2 + " v"@ + dec(s.pic_version as nat);
    let rest = " opaque="@ + dec(opaque_rows(c.grid(), c.height as nat)) + " source="@ + source_words(
        s.picts,
    ) + overlay_words(s.picts, string_views(s.current_overlays@));
    lemma_rest(a3, rest);
    assert(picture_line(s) =~= a3 + rest);
}

/// The first line of a window in a snapshot also tells its attributes in binary digits, its
/// left margin and its right, the number of its font and its size, and how many runs it has.
pub proof fn a_snapshot_tells_the_margins_and_fonts(i: int, w: ZWindow) -> (bits: (int, int))
    requires
        0 <= i,
    ensures
        ({
            let line = snapshot_line(i, w);
            &&& 10 <= bits.0 < bits.1 <= line.len()
            &&& line.subrange(bits.0 - 10, bits.0) == ") attrs=0b"@
            &&& numeral_value(line.subrange(bits.0, bits.1), 2) == w.attributes
            &&& line[bits.1] == ' '
            &&& tells_dec(line, " margins=("@, w.left_margin as int, ","@)
            &&& tells_dec(line, ","@, w.right_margin as int, ") font=("@)
            &&& tells_dec(line, ") font=("@, w.font_number as int, ","@)
            &&& tells_dec(line, ","@, w.font_size as int, ") runs="@)
            &&& tells_dec(line, ") runs="@, w.texts@.len() as int, seq![])
        }),
{
    reveal_strlit(") attrs=0b");
    reveal_strlit(" margins=(");
    let line = snapshot_line(i, w);
    let e = Seq::<char>::empty();
    let head = "win"@ + dec(i as nat) + ": pos=("@ + dec(w.x_coord as nat) + ","@ + dec(
        w.y_coord as nat,
    ) + ") size="@ + dec(w.x_size as nat) + "x"@ + dec(w.y_size as nat) + " cursor=("@ + dec(
        w.y_cursor as nat,
    ) + ","@ + dec(w.x_cursor as nat);
    let bits = bin_pad(w.attributes as nat, 4);
    a_binary_numeral_denotes_its_number(w.attributes as nat, 4);
    let left = dec(w.left_margin as nat);
    let right = dec(w.right_margin as nat);
    let number = dec(w.font_number as nat);
    let size = dec(w.font_size as nat);
    let runs = ") runs="@ + dec(w.texts@.len());
    let p0 = head + ") attrs=0b"@ + bits;
    let p1 = p0 + " margins=("@ + left;
    let p2 = p1 + ","@ + right;
    let p3 = p2 + ") font=("@ + number;
    let p4 = p3 + ","@ + size;
    let t3 = number + ","@ + size + runs;
    lemma_tells_dec(p0, " margins=("@, w.left_margin as int, ","@, right + ") font=("@ + t3);
    assert(line =~= p0 + " margins=("@ + left + ","@ + (right + ") font=("@ + t3));
    lemma_tells_dec(p1, ","@, w.right_margin as int, ") font=("@, t3);
    assert(line =~= p1 + ","@ + right + ") font=("@ + t3);
    lemma_tells_dec(p2, ") font=("@, w.font_number as int, ","@, size + runs);
    assert(line =~= p2 + ") font=("@ + number + ","@ + (size + runs));
    lemma_tells_dec(p3, ","@, w.font_size as int, ") runs="@, dec(w.texts@.len()));
    assert(line =~= p3 + ","@ + size + ") runs="@ + dec(w.texts@.len()));
    lemma_tells_dec(p4, ") runs="@, w.texts@.len() as int, e, e);
    assert(line =~= p4 + ") runs="@ + dec_int(w.texts@.len() as int) + e + e);
    let at = head.len() + 10;
    let to = at + bits.len();
    assert(line.subrange(at - 10, at as int) =~= ") attrs=0b"@);
    assert(line.subrange(at as int, to as int) =~= bits);
    assert(line[to as int] == " margins=("@[0]);
    (at as int, to as int)
}

/// Of a window that reaches past the screen, the line tells the width and the height of the
/// part on the screen, and of no other.
pub proof fn a_clipped_window_is_told_by_its_part(m: &Machine, w: ZWindow)
    ensures
        ({
            let b = m.clip_box(from_zero(w.x_coord), from_zero(w.y_coord), w.x_size, w.y_size);
            let line = game_line(m, w);
            &&& b.0 != w.x_size || b.1 != w.y_size ==> tells_dec(
                line,
                " — off-screen, clipped to "@,
                b.0 as int,
                "x"@,
            ) && tells_dec(line, "x"@, b.1 as int, seq![])
            &&& b.0 == w.x_size && b.1 == w.y_size ==> line.last() == ')'
        }),
{
    let b = m.clip_box(from_zero(w.x_coord), from_zero(w.y_coord), w.x_size, w.y_size);
    let line = game_line(m, w);
    let e = Seq::<char>::empty();
    let head = "          game: attrs="@ + bin_pad(w.attributes as nat, 4) + ", "@ + dec(
        w.texts@.len(),
    ) + " paint run(s), "@ + dec(w.prose@.len()) + " prose line(s)"@;
    reveal_strlit(" prose line(s)");
    reveal_strlit("");
    if b.0 != w.x_size || b.1 != w.y_size {
        let t = " — off-screen, clipped to "@;
        lemma_tells_dec(head, t, b.0 as int, "x"@, dec(b.1 as nat));
        assert(line =~= head + t + dec(b.0 as nat) + "x"@ + dec(b.1 as nat));
        lemma_tells_dec(head + t + dec(b.0 as nat), "x"@, b.1 as int, e, e);
        assert(line =~= head + t + dec(b.0 as nat) + "x"@ + dec_int(b.1 as int) + e + e);
    } else {
        assert(line =~= head);
        assert(line.last() == " prose line(s)"@.last());
    }
}

/// The first line tells the window that is written to and the one that is read from.
pub proof fn the_first_line_tells_the_windows_in_use(m: &Machine, cells: Seq<V6CellRect>)
    ensures
        tells_dec(
            head_line(m, cells),
            "v6 layout — current window "@,
            m.v6->0.current as int,
            ", input window "@,
        ),
        exists|rest: Seq<char>|
            #[trigger] tells_behind(
                head_line(m, cells),
                ", input window "@,
                m.input_window as int,
                rest,
            ) && rest == scale_words(cells) + path_words(cells),
{
    let e = Seq::<char>::empty();
    let line = head_line(m, cells);
    let a = dec(m.v6->0.current as nat);
    let b = dec(m.input_window as nat);
    let rest = scale_words(cells) + path_words(cells);
    lemma_tells_dec(
        e,
        "v6 layout — current window "@,
        m.v6->0.current as int,
        ", input window "@,
        b + rest,
    );
    assert(line =~= e + "v6 layout — current window "@ + a + ", input window "@ + (b + rest));
    let head = "v6 layout — current window "@ + a;
    a_decimal_numeral_denotes_its_number(m.input_window as nat);
    assert(line =~= head + ", input window "@ + b + rest);
    assert(tells_behind(line, ", input window "@, m.input_window as int, rest));
}

/// Whether a text ends in a label, a number in decimal digits and a text.
pub open spec fn tells_behind(s: Seq<char>, label: Seq<char>, n: int, rest: Seq<char>) -> bool {
    exists|a: Seq<char>, v: Seq<char>|
        s == #[trigger] (a + label + v + rest) && v.len() > 0 && numeral_value(v, 10) == n
}

/// What the first line says of the scale is the scale in hundredths, the width and height of
/// a cell and the offset down, as the frame has them under that name.
pub proof fn the_scale_is_told_in_hundredths(cells: Seq<V6CellRect>, k: int)
    requires
        0 <= k < cells.len(),
        cells[k].label@ == "scale"@,
        forall|i: int| 0 <= i < k ==> (#[trigger] cells[i]).label@ != "scale"@,
    ensures
        numbers(scale_words(cells)) == seq![
            cells[k].native.0 as int / 100,
            cells[k].native.0 as int % 100,
            cells[k].native.2 as int,
            cells[k].native.3 as int,
            cells[k].native.1 as int,
        ],
{
    lemma_find_label(cells, "scale"@, k);
    reveal_strlit(", scale ");
    reveal_strlit(".");
    reveal_strlit(", cell ");
    reveal_strlit("x");
    reveal_strlit("px, y-offset ");
    let n = cells[k].native;
    let q = n.0 as nat;
    lemma_start(", scale "@, q / 100);
    let a0 = ", scale "@ + dec(q / 100);
    let tens = dec(q / 10 % 10);
    let ones = dec(q % 10);
    let d = tens + ones;
    a_decimal_numeral_denotes_its_number(q / 10 % 10);
    a_decimal_numeral_denotes_its_number(q % 10);
    assert(tens.len() == 1 && ones.len() == 1);
    assert(d.drop_last() =~= tens);
    assert(d.last() == ones[0]);
    assert(tens.drop_last() =~= seq![]);
    assert(ones.drop_last() =~= seq![]);
    assert(numeral_value(ones, 10) == numeral_value(ones.drop_last(), 10) * 10 + (ones[0] as int
        - '0' as int));
    assert(numeral_value(d, 10) == (q / 10 % 10) * 10 + q % 10);
    assert((q / 10 % 10) * 10 + q % 10 == q % 100);
    assert forall|i: int| 0 <= i < d.len() implies is_digit(#[trigger] d[i]) by {
        if i == 0 {
            assert(d[0] == tens[0]);
        } else {
            assert(d[1] == ones[0]);
        }
    }
    lemma_then_digits(a0, "."@, d);
    let a1 = a0 + "."@ + d;
    lemma_then(a1, ", cell "@, n.2 as nat);
    let a2 = a1 + ", cell "@ + dec(n.2 as nat);
    lemma_then(a2, "x"@, n.3 as nat);
    let a3 = a2 + "x"@ + dec(n.3 as nat);
    lemma_then(a3, "px, y-offset "@, n.1 as nat);
    let a4 = a3 + "px, y-offset "@ + dec(n.1 as nat);
    assert(scale_words(cells) =~= a4);
    assert(numbers(a4) =~= seq![
        n.0 as int / 100,
        n.0 as int % 100,
        n.2 as int,
        n.3 as int,
        n.1 as int,
    ]);
}

} // verus!
