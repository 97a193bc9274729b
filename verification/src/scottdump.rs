//! The screen of a two-word adventure in words.

use crate::dump::{debug_form, quote};
use crate::model::BufferWindow;
use crate::raster::{Grid, Raster, Rgba};
use crate::scott::{room_panel, split_at_feeds, SagaPlatform, ScottPicts, ScottSession, PICTURE_ROWS};
use crate::text::{dec, flush_right, from_chars, is_space, join, joined,
    push_dec, push_flush_right, slice_chars, string_views, to_chars, trim_end_by,
    trimmed_len};
use vstd::prelude::*;

verus! {

// ── The screen ────────────────────────────────────────────────────────────────
/// How many of the first `n` pixels of a row are not clear.
pub open spec fn opaque_in_row(row: Seq<Rgba>, n: nat) -> nat
    decreases n,
{
    if n == 0 {
        0
    } else {
        opaque_in_row(row, (n - 1) as nat) + if row[n - 1].a != 0 {
            1nat
        } else {
            0nat
        }
    }
}

/// How many pixels of the first `n` rows are not clear.
pub open spec fn opaque_rows(g: Grid, n: nat) -> nat
    decreases n,
{
    if n == 0 {
        0
    } else {
        opaque_rows(g, (n - 1) as nat) + opaque_in_row(g[n - 1], g[n - 1].len())
    }
}

/// Counts the pixels that are not clear.
fn count_opaque(img: &Raster) -> (r: u64)
    requires
        img.wf(),
    ensures
        r == opaque_rows(img.grid(), img.height as nat),
{
    let ghost g = img.grid();
    let mut total: u64 = 0;
    let mut y: u32 = 0;
    while y < img.height
        invariant
            img.wf(),
            g == img.grid(),
            y <= img.height,
            total == opaque_rows(g, y as nat),
            total <= y * img.width,
        decreases img.height - y,
    {
        let ghost before = total;
        let mut x: u32 = 0;
        let mut here: u64 = 0;
        while x < img.width
            invariant
                img.wf(),
                g == img.grid(),
                y < img.height,
                x <= img.width,
                g[y as int].len() == img.width,
                here == opaque_in_row(g[y as int], x as nat),
                here <= x,
            decreases img.width - x,
        {
            let p: Rgba = img.get(x, y);
            if p.a != 0 {
                here = here + 1;
            }
            x = x + 1;
        }
        assert(y * img.width + img.width == (y + 1) * img.width && (y + 1) * img.width
            <= 0xffff_ffff * 0xffff_ffff) by (nonlinear_arith)
            requires
                y < img.height,
                img.height <= 0xffff_ffff,
                img.width <= 0xffff_ffff,
        ;
        total = total + here;
        y = y + 1;
    }
    total
}

/// Where the pictures came from, in words.
pub open spec fn source_words(p: ScottPicts) -> Seq<char> {
    if p.native_scale is Some && p.native_platform is Some {
        "native "@ + p.native_platform->0@ + " x"@ + dec(p.native_scale->0 as nat)
    } else if p.native_scale is None && p.saga_platform is Some {
        let n = match p.saga_count {
            Some(n) => n,
            None => 0,
        };
        match p.saga_platform->0 {
            SagaPlatform::AppleII => "S.A.G.A. family D (Apple II, "@ + dec(n as nat)
                + " picture(s))"@,
            SagaPlatform::Other(label) => "S.A.G.A. family C ("@ + label@ + ", "@ + dec(n as nat)
                + " record(s))"@,
        }
    } else {
        match p.dos_count {
            Some(n) => "S.A.G.A. family E (MS-DOS, "@ + dec(n as nat) + " picture(s))"@,
            None => "blorb"@,
        }
    }
}

/// What is drawn over the picture, in words; nothing where no such thing can be.
pub open spec fn overlay_words(p: ScottPicts, overlays: Seq<Seq<char>>) -> Seq<char> {
    if p.saga_platform is None && p.dos_count is None {
        ""@
    } else if overlays.len() == 0 {
        "  ·  overlays=none"@
    } else {
        "  ·  overlays="@ + joined(overlays, ","@)
    }
}

/// The line of the picture band.
pub open spec fn picture_line(s: &ScottSession) -> Seq<char> {
    match s.current_canvas {
        Some(c) => "  picture: "@ + dec(PICTURE_ROWS as nat) + " row(s) reserved  ·  canvas="@
            + dec(c.width as nat) + "x"@ + dec(c.height as nat) + " v"@ + dec(s.pic_version as nat)
            + " opaque="@ + dec(opaque_rows(c.grid(), c.height as nat)) + " source="@
            + source_words(s.picts) + overlay_words(
            s.picts,
            string_views(s.current_overlays@),
        ),
        None => if s.vm.saga_database && s.picts.saga_platform is None {
            "  picture: none — a S.A.G.A. release with no picture files on this file (§8.3's are separate files on the release disk)"@
        } else {
            "  picture: none (text-only game, or this room has no art)"@
        },
    }
}

/// A line of the panel without the blanks at its end.
pub open spec fn panel_text(line: Seq<char>) -> Seq<char> {
    trim_end_by(line, |c: char| is_space(c))
}

/// The lines of the first `n` lines of the panel, of those that are not blank.
pub open spec fn panel_lines(lines: Seq<Seq<char>>, n: nat) -> Seq<Seq<char>>
    decreases n,
{
    if n == 0 {
        seq![]
    } else {
        let before = panel_lines(lines, (n - 1) as nat);
        let text = panel_text(lines[n - 1]);
        if text.len() > 0 {
            before.push("  line "@ + flush_right(dec(n), 2) + ": "@ + debug_form(text))
        } else {
            before
        }
    }
}

/// All lines of the screen.
pub open spec fn scott_dump(s: &ScottSession) -> Seq<Seq<char>> {
    let lines = split_at_feeds(s.vm.room_block@);
    seq![
        "Scott Adams layout — picture over room panel over transcript"@,
        picture_line(s),
        "  room panel: "@ + dec(lines.len()) + " line(s)"@,
    ] + panel_lines(lines, lines.len()) + seq![
        "  transcript: primary buffer (host-managed scrollback)"@,
    ]
}

/// Appends where the pictures came from.
fn push_source(s: &mut String, p: &ScottPicts)
    ensures
        final(s)@ == old(s)@ + source_words(*p),
{
    match (p.native_scale, &p.native_platform) {
        (Some(scale), Some(platform)) => {
            s.append("native ");
            s.append(platform.as_str());
            s.append(" x");
            push_dec(s, scale as u64);
            assert(s@ =~= old(s)@ + source_words(*p));
            return ;
        },
        _ => {},
    }
    if p.native_scale.is_none() {
        if let Some(platform) = &p.saga_platform {
            let n: usize = match p.saga_count {
                Some(n) => n,
                None => 0,
            };
            match platform {
                SagaPlatform::AppleII => {
                    s.append("S.A.G.A. family D (Apple II, ");
                    push_dec(s, n as u64);
                    s.append(" picture(s))");
                },
                SagaPlatform::Other(label) => {
                    s.append("S.A.G.A. family C (");
                    s.append(label.as_str());
                    s.append(", ");
                    push_dec(s, n as u64);
                    s.append(" record(s))");
                },
            }
            assert(s@ =~= old(s)@ + source_words(*p));
            return ;
        }
    }
    match p.dos_count {
        Some(n) => {
            s.append("S.A.G.A. family E (MS-DOS, ");
            push_dec(s, n as u64);
            s.append(" picture(s))");
            assert(s@ =~= old(s)@ + source_words(*p));
        },
        None => {
            s.append("blorb");
        },
    }
}

/// Appends what is drawn over the picture.
fn push_overlays(s: &mut String, p: &ScottPicts, overlays: &Vec<String>)
    ensures
        final(s)@ == old(s)@ + overlay_words(*p, string_views(overlays@)),
{
    if p.saga_platform.is_none() && p.dos_count.is_none() {
        s.append("");
    } else if overlays.len() == 0 {
        s.append("  ·  overlays=none");
    } else {
        s.append("  ·  overlays=");
        s.append(join(overlays, ",").as_str());
        assert(s@ =~= old(s)@ + overlay_words(*p, string_views(overlays@)));
    }
}

impl ScottSession {
    /// Writes the line of the picture band.
    fn write_picture(&self) -> (s: String)
        requires
            self.wf(),
        ensures
            s@ == picture_line(self),
    {
        match &self.current_canvas {
            Some(c) => {
                let mut s: String = "  picture: ".to_owned();
                push_dec(&mut s, PICTURE_ROWS as u64);
                s.append(" row(s) reserved  ·  canvas=");
                push_dec(&mut s, c.width as u64);
                s.append("x");
                push_dec(&mut s, c.height as u64);
                s.append(" v");
                push_dec(&mut s, self.pic_version);
                s.append(" opaque=");
                push_dec(&mut s, count_opaque(c));
                s.append(" source=");
                push_source(&mut s, &self.picts);
                push_overlays(&mut s, &self.picts, &self.current_overlays);
                s
            },
            None => if self.vm.saga_database && self.picts.saga_platform.is_none() {
                "  picture: none — a S.A.G.A. release with no picture files on this file (§8.3's are separate files on the release disk)".to_owned()
            } else {
                "  picture: none (text-only game, or this room has no art)".to_owned()
            },
        }
    }

    /// Describes the screen: the picture band, the panel of the room with its lines, and the
    /// transcript.
    pub fn window_dump(&self) -> (r: Vec<String>)
        requires
            self.wf(),
        ensures
            string_views(r@) == scott_dump(self),
    {
        let panel: BufferWindow = room_panel(self.vm.room_block.as_str());
        let ghost lines = split_at_feeds(self.vm.room_block@);
        assert(string_views(panel.lines@) == lines);
        assert(lines.len() == panel.lines@.len());
        let mut out: Vec<String> = Vec::new();
        out.push("Scott Adams layout — picture over room panel over transcript".to_owned());
        out.push(self.write_picture());
        let mut count: String = "  room panel: ".to_owned();
        push_dec(&mut count, panel.lines.len() as u64);
        count.append(" line(s)");
        out.push(count);
        let ghost head = seq![
            "Scott Adams layout — picture over room panel over transcript"@,
            picture_line(self),
            "  room panel: "@ + dec(lines.len()) + " line(s)"@,
        ];
        let mut i: usize = 0;
        assert(string_views(out@) =~= head + panel_lines(lines, 0));
        while i < panel.lines.len()
            invariant
                i <= panel.lines@.len(),
                lines == string_views(panel.lines@),
                string_views(out@) == head + panel_lines(lines, i as nat),
            decreases panel.lines.len() - i,
        {
            let ghost out0 = out@;
            let v: Vec<char> = to_chars(panel.lines[i].as_str());
            assert(lines[i as int] == v@);
            let n: usize = trimmed_len(v.as_slice());
            if n > 0 {
                let text: String = from_chars(slice_chars(v.as_slice(), 0, n).as_slice());
                assert(text@ =~= v@.take(n as int));
                let mut number: String = String::new();
                push_dec(&mut number, i as u64 + 1);
                assert(number@ =~= dec((i + 1) as nat));
                let mut s: String = "  line ".to_owned();
                push_flush_right(&mut s, number.as_str(), 2);
                s.append(": ");
                s.append(quote(text.as_str()).as_str());
                let ghost last = s@;
                out.push(s);
                assert(string_views(out@) =~= string_views(out0).push(last));
            }
            assert(string_views(out@) =~= head + panel_lines(lines, (i + 1) as nat));
            i = i + 1;
        }
        let ghost out1 = out@;
        out.push("  transcript: primary buffer (host-managed scrollback)".to_owned());
        assert(string_views(out@) =~= string_views(out1) + seq![
            "  transcript: primary buffer (host-managed scrollback)"@,
        ]);
        out
    }
}

// ── Laws ──────────────────────────────────────────────────────────────────────
/// A line of the room's panel is told with its number, from one on, where it is not blank.
pub proof fn a_line_of_the_panel_is_told(lines: Seq<Seq<char>>, n: nat, i: int, k: int)
    requires
        0 <= i < n <= lines.len(),
        0 <= k < lines[i].len(),
        !is_space(lines[i][k]),
    ensures
        panel_lines(lines, n).contains(
            "  line "@ + flush_right(dec((i + 1) as nat), 2) + ": "@ + debug_form(
                panel_text(lines[i]),
            ),
        ),
        panel_text(lines[i]).len() > k,
        panel_text(lines[i])[k] == lines[i][k],
    decreases n,
{
    let line = "  line "@ + flush_right(dec((i + 1) as nat), 2) + ": "@ + debug_form(
        panel_text(lines[i]),
    );
    let before = panel_lines(lines, (n - 1) as nat);
    let now = panel_lines(lines, n);
    lemma_keeps_text(lines[i], k);
    if i == n - 1 {
        assert(now[now.len() - 1] == line);
    } else {
        a_line_of_the_panel_is_told(lines, (n - 1) as nat, i, k);
        let j = choose|j: int| 0 <= j < before.len() && before[j] == line;
        assert(now[j] == line);
    }
}

/// A character that is no blank is not cut from the end of a line.
proof fn lemma_keeps_text(s: Seq<char>, k: int)
    requires
        0 <= k < s.len(),
        !is_space(s[k]),
    ensures
        panel_text(s).len() > k,
        panel_text(s)[k] == s[k],
    decreases s.len(),
{
    let p = |c: char| is_space(c);
    if p(s.last()) {
        assert(s.drop_last()[k] == s[k]);
        lemma_keeps_text(s.drop_last(), k);
    }
}

/// A row counts as many pixels as are not clear: none where all are clear, all where none
/// is, and one more than the rest of the row where its last is not.
pub proof fn a_row_counts_what_is_not_clear(row: Seq<Rgba>, n: nat)
    requires
        n <= row.len(),
    ensures
        opaque_in_row(row, n) <= n,
        opaque_in_row(row, n) == 0 <==> forall|i: int| 0 <= i < n ==> (#[trigger] row[i]).a == 0,
        opaque_in_row(row, n) == n <==> forall|i: int| 0 <= i < n ==> (#[trigger] row[i]).a != 0,
        n > 0 && row[n - 1].a != 0 ==> opaque_in_row(row, n) == opaque_in_row(row, (n - 1) as nat)
            + 1,
        n > 0 && row[n - 1].a == 0 ==> opaque_in_row(row, n) == opaque_in_row(row, (n - 1) as nat),
    decreases n,
{
    if n > 0 {
        a_row_counts_what_is_not_clear(row, (n - 1) as nat);
    }
}

} // verus!
