//! A running game: the state between turns, and what a turn's output becomes.

use crate::art::{ImageView, InlineImage, V6_ART_SCALE};
use crate::disasm::DisasmGate;
use crate::elements::{elem_views, interleave_story_elems, mark_views, placed_marks, woven, ElemView,
    TranscriptElem};
use crate::layers::{art_ok, story_views, EraseFill, Layers, LayersView};
use crate::machine::{larger, Machine, V6Windows, ZWindow};
use crate::memo::{memo_wf, V6ModelKey};
use crate::model::ScreenModel;
use crate::pacing::{art_views, drained, frame_views, frames_wf, FrameView, PacedFrame};
use crate::pict::{source_wf, PictSource};
use crate::prompt::{strip_read_prompt, stripping_keeps_a_prefix, without_read_prompt};
use crate::raster::Raster;
use crate::transcript::{char_styles, clamp_runs, cutting_runs_keeps_the_styles,
    lemma_char_styles_len, min_len, runs_before, CaptureRun, CaptureSink};
use crate::turn::{end_of_turn, turn_end, InputKind, LocationMethod, ObjectSnapshot, PendingIo,
    PictureEvent, RunStop, SoundEvent, TurnResult};
use std::sync::Arc;
use vstd::prelude::*;

verus! {

// ── Booting ───────────────────────────────────────────────────────────────────
/// The width of a screen that nothing measured, in columns.
pub const DEFAULT_SCREEN_COLS: u16 = 80;

/// The screen that is declared to a story before it boots.
#[derive(Clone, Copy, Debug, PartialEq, Eq, Structural)]
pub enum BootScreen {
    /// The interpreter's own default.
    Unseeded,
    /// A screen of so many pixels.
    Pixels { w: u16, h: u16 },
    /// A screen of so many characters.
    Cells { rows: u8, cols: u8 },
}

/// What is settled before a story boots.
#[derive(Debug)]
pub struct BootPlan {
    /// The factors that pictures are scaled by.
    pub art_scale: (u32, u32),
    /// The pictures' numbers and extents, as the game is told them.
    pub picture_dims: Vec<(u16, u16, u16)>,
    pub screen: BootScreen,
    /// The width that the story is laid out for, in columns.
    pub boot_screen_cols: u16,
}

/// The factors that pictures are scaled by: those of the source, or the uniform factor,
/// where the art declares a window to be scaled against; none otherwise.
pub open spec fn art_scale_for(
    version: u8,
    screen_px: Option<(u16, u16)>,
    art_scale: Option<(u32, u32)>,
) -> (u32, u32) {
    if version == 6 && screen_px is Some {
        match art_scale {
            Some(s) => s,
            None => (V6_ART_SCALE, V6_ART_SCALE),
        }
    } else {
        (1, 1)
    }
}

/// A number, brought into the range from 1 to 255.
pub open spec fn byte_range(n: u16) -> u16 {
    if n < 1 {
        1
    } else if n > 255 {
        255
    } else {
        n
    }
}

/// The low 16 bits of a factor, in which pictures and the screen are scaled.
pub open spec fn factor16(n: u32) -> int {
    n as int % 0x1_0000
}

/// A product, or the largest 16-bit number if that is smaller.
pub open spec fn times16(a: u16, b: int) -> u16 {
    if a * b > 0xffff {
        0xffff
    } else {
        (a * b) as u16
    }
}

/// The screen declared to a story: the art's window at the scale it is drawn at, or the
/// host's own pane.
pub open spec fn screen_for(
    version: u8,
    screen_px: Option<(u16, u16)>,
    art_scale: Option<(u32, u32)>,
    host: Option<(u16, u16)>,
) -> BootScreen {
    if version == 6 {
        let px = match screen_px {
            Some(p) => p,
            None => (320u16, 200u16),
        };
        let s = match (screen_px, art_scale) {
            (Some(_), Some(s)) => s,
            _ => (V6_ART_SCALE, V6_ART_SCALE),
        };
        BootScreen::Pixels {
            w: times16(px.0, factor16(larger(s.0 as int, 1) as u32)),
            h: times16(px.1, factor16(larger(s.1 as int, 1) as u32)),
        }
    } else {
        match host {
            Some(h) => BootScreen::Cells {
                rows: byte_range(h.0) as u8,
                cols: byte_range(h.1) as u8,
            },
            None => BootScreen::Unseeded,
        }
    }
}

/// The width that a story is laid out for.
pub open spec fn cols_for(version: u8, host: Option<(u16, u16)>) -> u16 {
    if version != 6 && host is Some {
        byte_range((host->0).1)
    } else {
        DEFAULT_SCREEN_COLS
    }
}

/// A picture's extent as the game is told it.
pub open spec fn told_dims(d: (u16, u16, u16), scale: (u32, u32)) -> (u16, u16, u16) {
    (d.0, (d.1 * factor16(scale.0)) as u16, (d.2 * factor16(scale.1)) as u16)
}

/// Brings a number into the range from 1 to 255.
fn to_byte_range(n: u16) -> (r: u16)
    ensures
        r == byte_range(n),
        1 <= r <= 255,
{
    if n < 1 {
        1
    } else if n > 255 {
        255
    } else {
        n
    }
}

/// Multiplies a side by a factor of at least one, up to the largest 16-bit number.
fn scale_side(a: u16, b: u32) -> (r: u16)
    ensures
        r == times16(a, factor16(larger(b as int, 1) as u32)),
{
    let k: u32 = if b < 1 {
        1
    } else {
        b % 0x1_0000
    };
    assert(a * k <= 0xffff * 0xffff) by (nonlinear_arith)
        requires
            a <= 0xffff,
            k <= 0xffff,
    ;
    let p: u32 = a as u32 * k;
    if p > 0xffff {
        0xffff
    } else {
        p as u16
    }
}

/// Settles the scale of the pictures and the screen before a story boots.
///
/// The game lays itself out while it boots, so all of this has to stand before it does. The
/// screen of a story with pictures is the art's window at the scale of the art; that of any
/// other story is the host's pane.
pub fn boot_plan(
    version: u8,
    picture_dims: &Vec<(u16, u16, u16)>,
    v6_screen_px: Option<(u16, u16)>,
    v6_art_scale: Option<(u32, u32)>,
    host_screen: Option<(u16, u16)>,
) -> (r: BootPlan)
    requires
        version == 6 ==> forall|i: int|
            0 <= i < picture_dims@.len() ==> (#[trigger] picture_dims@[i]).1 * factor16(
                art_scale_for(version, v6_screen_px, v6_art_scale).0,
            ) <= 0xffff && picture_dims@[i].2 * factor16(
                art_scale_for(version, v6_screen_px, v6_art_scale).1,
            ) <= 0xffff,
    ensures
        r.art_scale == art_scale_for(version, v6_screen_px, v6_art_scale),
        r.screen == screen_for(version, v6_screen_px, v6_art_scale, host_screen),
        r.boot_screen_cols == cols_for(version, host_screen),
        r.picture_dims@ == (if version == 6 {
            picture_dims@.map_values(|d: (u16, u16, u16)| told_dims(d, r.art_scale))
        } else {
            picture_dims@
        }),
{
    let art_scale: (u32, u32) = if version == 6 && v6_screen_px.is_some() {
        match v6_art_scale {
            Some(s) => s,
            None => (V6_ART_SCALE, V6_ART_SCALE),
        }
    } else {
        (1, 1)
    };
    let mut dims: Vec<(u16, u16, u16)> = Vec::new();
    let mut i: usize = 0;
    while i < picture_dims.len()
        invariant
            i <= picture_dims@.len(),
            art_scale == art_scale_for(version, v6_screen_px, v6_art_scale),
            version == 6 ==> forall|i: int|
                0 <= i < picture_dims@.len() ==> (#[trigger] picture_dims@[i]).1 * factor16(
                    art_scale.0,
                ) <= 0xffff && picture_dims@[i].2 * factor16(art_scale.1) <= 0xffff,
            dims@.len() == i,
            forall|j: int|
                0 <= j < i ==> #[trigger] dims@[j] == if version == 6 {
                    told_dims(picture_dims@[j], art_scale)
                } else {
                    picture_dims@[j]
                },
        decreases picture_dims.len() - i,
    {
        let d: (u16, u16, u16) = picture_dims[i];
        if version == 6 {
            assert(picture_dims@[i as int] == d);
            let w: u16 = d.1 * (art_scale.0 % 0x1_0000) as u16;
            let h: u16 = d.2 * (art_scale.1 % 0x1_0000) as u16;
            dims.push((d.0, w, h));
        } else {
            dims.push(d);
        }
        i = i + 1;
    }
    let screen: BootScreen = if version == 6 {
        let px: (u16, u16) = match v6_screen_px {
            Some(p) => p,
            None => (320, 200),
        };
        let s: (u32, u32) = match (v6_screen_px, v6_art_scale) {
            (Some(_), Some(s)) => s,
            _ => (V6_ART_SCALE, V6_ART_SCALE),
        };
        BootScreen::Pixels { w: scale_side(px.0, s.0), h: scale_side(px.1, s.1) }
    } else {
        match host_screen {
            Some(h) => BootScreen::Cells {
                rows: to_byte_range(h.0) as u8,
                cols: to_byte_range(h.1) as u8,
            },
            None => BootScreen::Unseeded,
        }
    };
    let boot_screen_cols: u16 = match host_screen {
        Some(h) => if version != 6 {
            to_byte_range(h.1)
        } else {
            DEFAULT_SCREEN_COLS
        },
        None => DEFAULT_SCREEN_COLS,
    };
    proof {
        if version == 6 {
            assert(dims@ =~= picture_dims@.map_values(
                |d: (u16, u16, u16)| told_dims(d, art_scale),
            ));
        } else {
            assert(dims@ =~= picture_dims@);
        }
    }
    BootPlan { art_scale, picture_dims: dims, screen, boot_screen_cols }
}

// ── Laws of booting ───────────────────────────────────────────────────────────
/// A story without windows boots on the host's own pane: as many rows as the pane has rows
/// and as many columns as it has columns, each brought into the range of a byte from one on,
/// and it is laid out for as many columns as its screen has. Without a pane nothing is said
/// of the screen.
pub proof fn a_story_boots_on_the_pane(
    plan: BootPlan,
    version: u8,
    screen_px: Option<(u16, u16)>,
    art_scale: Option<(u32, u32)>,
    host: Option<(u16, u16)>,
)
    requires
        version != 6,
        plan.screen == screen_for(version, screen_px, art_scale, host),
        plan.boot_screen_cols == cols_for(version, host),
        plan.art_scale == art_scale_for(version, screen_px, art_scale),
    ensures
        host is None ==> plan.screen is Unseeded && plan.boot_screen_cols == 80,
        host matches Some(pane) ==> (plan.screen matches BootScreen::Cells { rows, cols } && {
            &&& 1 <= pane.0 <= 255 ==> rows == pane.0
            &&& 1 <= pane.1 <= 255 ==> cols == pane.1
            &&& pane.0 > 255 ==> rows == 255
            &&& pane.1 > 255 ==> cols == 255
            &&& pane.0 == 0 ==> rows == 1
            &&& pane.1 == 0 ==> cols == 1
            &&& plan.boot_screen_cols == cols
        }),
        plan.art_scale.0 == 1 && plan.art_scale.1 == 1,
{
}

/// A story with windows boots on a screen of pixels: the window that its art was made for,
/// each side at the scale that its pictures are drawn at along that side. Art that declares
/// no window gets the classic one at twice its size, and pictures in their own size.
pub proof fn a_story_with_pictures_boots_on_its_art(
    plan: BootPlan,
    version: u8,
    screen_px: Option<(u16, u16)>,
    art_scale: Option<(u32, u32)>,
    host: Option<(u16, u16)>,
)
    requires
        version == 6,
        plan.screen == screen_for(version, screen_px, art_scale, host),
        plan.boot_screen_cols == cols_for(version, host),
        plan.art_scale == art_scale_for(version, screen_px, art_scale),
    ensures
        plan.boot_screen_cols == 80,
        screen_px is None ==> plan.screen == (BootScreen::Pixels { w: 640, h: 400 })
            && plan.art_scale == (1u32, 1u32),
        screen_px is Some && art_scale is None ==> plan.art_scale == (2u32, 2u32),
        screen_px is Some && art_scale is Some ==> plan.art_scale == art_scale->0,
        screen_px matches Some(px) ==> (plan.screen matches BootScreen::Pixels { w, h } && {
            let s = plan.art_scale;
            &&& 1 <= s.0 <= 0xffff && px.0 * s.0 <= 0xffff ==> w == px.0 * s.0
            &&& 1 <= s.1 <= 0xffff && px.1 * s.1 <= 0xffff ==> h == px.1 * s.1
            &&& 1 <= s.0 <= 0xffff && px.0 * s.0 > 0xffff ==> w == 0xffff
            &&& 1 <= s.1 <= 0xffff && px.1 * s.1 > 0xffff ==> h == 0xffff
            &&& s.0 == 0 ==> w == px.0
            &&& s.1 == 0 ==> h == px.1
        }),
{
    if let Some(px) = screen_px {
        let s = plan.art_scale;
        assert(px.0 * 1 == px.0 && px.1 * 1 == px.1);
        if 1 <= s.0 <= 0xffff {
            assert(factor16(larger(s.0 as int, 1) as u32) == s.0);
        }
        if 1 <= s.1 <= 0xffff {
            assert(factor16(larger(s.1 as int, 1) as u32) == s.1);
        }
    }
}

/// A game with windows is told of each of its pictures under its own number, as wide and as
/// high as the picture is drawn; any other game is told what the pictures are.
pub proof fn pictures_are_told_as_they_are_drawn(
    plan: BootPlan,
    version: u8,
    dims: Seq<(u16, u16, u16)>,
    i: int,
)
    requires
        plan.picture_dims@ == (if version == 6 {
            dims.map_values(|d: (u16, u16, u16)| told_dims(d, plan.art_scale))
        } else {
            dims
        }),
        0 <= i < dims.len(),
        plan.art_scale.0 <= 0xffff,
        plan.art_scale.1 <= 0xffff,
        version == 6 ==> dims[i].1 * plan.art_scale.0 <= 0xffff && dims[i].2 * plan.art_scale.1
            <= 0xffff,
    ensures
        plan.picture_dims@.len() == dims.len(),
        plan.picture_dims@[i].0 == dims[i].0,
        version == 6 ==> plan.picture_dims@[i].1 == dims[i].1 * plan.art_scale.0
            && plan.picture_dims@[i].2 == dims[i].2 * plan.art_scale.1,
        version != 6 ==> plan.picture_dims@[i] == dims[i],
{
    assert(factor16(plan.art_scale.0) == plan.art_scale.0);
    assert(factor16(plan.art_scale.1) == plan.art_scale.1);
    assert(dims[i].1 * plan.art_scale.0 >= 0) by (nonlinear_arith)
        requires
            dims[i].1 >= 0,
            plan.art_scale.0 >= 0,
    ;
    assert(dims[i].2 * plan.art_scale.1 >= 0) by (nonlinear_arith)
        requires
            dims[i].2 >= 0,
            plan.art_scale.1 >= 0,
    ;
}

// ── The session ───────────────────────────────────────────────────────────────
/// A running game.
#[derive(Debug)]
pub struct GameSession {
    /// The interpreter, as of the last time it stopped.
    pub machine: Machine,
    /// What the interpreter printed since the last drain.
    pub sink: CaptureSink,
    pub quit: bool,
    /// What the interpreter waits for.
    pub pending: InputKind,
    /// Whether the game's own read prompt is stripped from its output.
    pub strip_prompt: bool,
    /// Where the cursor stood when the last keypress was supplied.
    pub pen_before_char: Option<(u16, u16)>,
    /// Whether the last turn's output began where the output before it left the cursor.
    pub output_continued: bool,
    pub pict_source: Option<PictSource>,
    pub layers: Layers,
    /// The screens that the last turn passed through and that are still to be shown.
    pub paced_frames: Vec<PacedFrame>,
    /// How many characters the story window had taken at the last drain.
    pub v6_win0_chars_seen: u64,
    /// The width that the story in memory was laid out for, in columns.
    pub boot_screen_cols: u16,
    /// The last screen with windows that was built, and what it was built from.
    pub v6_model_memo: Option<(V6ModelKey, Arc<ScreenModel>)>,
    /// Every word that some object answers to, once it was asked for in this turn.
    pub object_words: Option<Arc<Vec<String>>>,
    /// How far the listing of the program is confirmed.
    pub listing: DisasmGate,
}

/// What the interpreter left behind in a turn, beside its printed output.
#[derive(Debug)]
pub struct TurnOutput {
    /// Whether the game started again.
    pub restarted: bool,
    /// Whether the game cleared the lower window.
    pub erase_lower: bool,
    pub location: Option<ObjectSnapshot>,
    pub location_method: Option<LocationMethod>,
    pub diagnostics: Vec<String>,
    pub fault: Option<Vec<String>>,
    pub sounds: Vec<SoundEvent>,
    /// Where the game moved the story window out from under text it had printed.
    pub prose_retired: Option<u64>,
    /// Whether all of the window's text stayed behind.
    pub prose_retired_whole: bool,
    /// Where the game erased the story window.
    pub screen_cleared: Option<u64>,
    pub pictures: Vec<PictureEvent>,
    /// The picture of each event, under the palette of its moment, as far as it resolves.
    pub art: Vec<Option<Raster>>,
    pub fills: Vec<EraseFill>,
    /// Whether the pictures changed the palette.
    pub palette_changed: bool,
}

impl TurnOutput {
    /// There is a picture, or none, for every event, and every picture can be drawn.
    pub open spec fn wf(&self, scale: (u32, u32)) -> bool {
        &&& self.art@.len() == self.pictures@.len()
        &&& forall|i: int| 0 <= i < self.art@.len() ==> art_ok(#[trigger] self.art@[i], scale)
    }
}

/// The text that is shown of what was printed.
pub open spec fn shown_text(text: Seq<char>, strip: bool) -> Seq<char> {
    if strip {
        without_read_prompt(text)
    } else {
        text
    }
}

/// Where in a turn's text an absolute position falls.
pub open spec fn text_offset(at: u64, base: u64, len: int) -> int {
    min_len(
        if at < base {
            0
        } else {
            at - base
        },
        len,
    )
}

/// Where in a turn's text the game moved its window out from under printed text.
pub open spec fn retired_offset(out: &TurnOutput, base: u64, len: int) -> Option<usize> {
    match out.prose_retired {
        Some(at) => Some(text_offset(at, base, len) as usize),
        None => None,
    }
}

/// The value, where a condition holds.
pub open spec fn given<T>(o: Option<T>, cond: bool) -> Option<T> {
    if cond {
        o
    } else {
        None
    }
}

/// The position of a screen clear inside a turn's text. A clear before anything was printed
/// is no clear inside the turn.
pub open spec fn mid_turn_clear(cleared_at: Option<usize>, base: u64, len: int) -> Option<u64> {
    match cleared_at {
        Some(at) => if at > 0 {
            Some((base + min_len(at as int, len)) as u64)
        } else {
            None
        },
        None => None,
    }
}

/// A list of positions, with one more behind it, unless that is missing or listed already.
pub open spec fn also(s: Seq<u64>, o: Option<u64>) -> Seq<u64> {
    match o {
        Some(at) => if s.contains(at) {
            s
        } else {
            s.push(at)
        },
        None => s,
    }
}

/// The positions at which a turn's text is split by screen clears.
pub open spec fn clear_positions(
    out: &TurnOutput,
    cleared_at: Option<usize>,
    base: u64,
    len: int,
) -> Seq<u64> {
    also(
        also(also(seq![], given(out.prose_retired, out.prose_retired_whole)), out.screen_cleared),
        mid_turn_clear(cleared_at, base, len),
    )
}

/// The marks of pictures.
pub open spec fn picture_marks(pics: Seq<(u64, ImageView)>) -> Seq<(u64, ElemView)> {
    pics.map_values(|p: (u64, ImageView)| (p.0, ElemView::Image(p.1)))
}

/// The marks of screen clears.
pub open spec fn clear_marks(at: Seq<u64>) -> Seq<(u64, ElemView)> {
    at.map_values(|p: u64| (p, ElemView::ScreenClear))
}

/// The elements of a turn: none where no mark falls into its text, so that the text says it
/// all.
pub open spec fn turn_elems(
    text: Seq<char>,
    runs: Seq<CaptureRun>,
    pics: Seq<(u64, ImageView)>,
    clears: Seq<u64>,
    base: u64,
    frozen: Option<usize>,
) -> Seq<ElemView> {
    if pics.len() == 0 && clears.len() == 0 {
        seq![]
    } else {
        woven(
            text,
            runs,
            placed_marks(text, picture_marks(pics) + clear_marks(clears), base),
            0,
            frozen,
        )
    }
}

impl LayersView {
    /// The layers with nothing on the screen.
    pub open spec fn wiped(self) -> LayersView {
        LayersView {
            canvases: Map::empty(),
            anchors: Map::empty(),
            ops: Map::empty(),
            unreplayable: Set::empty(),
            fills: Map::empty(),
            paint: None,
            story_pics: Seq::empty(),
            ..self
        }
    }
}

impl Layers {
    /// Takes everything off the screen.
    pub fn wipe(&mut self)
        ensures
            final(self).wf(),
            final(self)@ == old(self)@.wiped(),
            final(self).art_scale == old(self).art_scale,
    {
        let ghost l0 = self@;
        self.pictures_canvas.clear();
        self.story_pics = Vec::new();
        self.display_ops.clear();
        self.unreplayable.clear();
        self.window_fills.clear();
        self.canvas_anchor.clear();
        self.paint = None;
        assert(self@.canvases =~= Map::empty());
        assert(self@.ops =~= Map::empty());
        assert(self@.unreplayable =~= Set::empty());
        assert(self@.story_pics =~= Seq::empty());
        assert(self@ =~= l0.wiped());
    }
}

/// Where in a turn's text an absolute position falls.
fn offset_in_text(at: u64, base: u64, len: usize) -> (r: usize)
    ensures
        r == text_offset(at, base, len as int),
{
    if at < base {
        0
    } else if at - base < len as u64 {
        (at - base) as usize
    } else {
        len
    }
}

/// Adds a position to a list, unless it is missing or listed already.
fn add_clear(v: &mut Vec<u64>, o: Option<u64>)
    ensures
        final(v)@ == also(old(v)@, o),
{
    match o {
        Some(at) => {
            let mut i: usize = 0;
            while i < v.len()
                invariant
                    i <= v@.len(),
                    v@ == old(v)@,
                    o == Some(at),
                    forall|j: int| 0 <= j < i ==> #[trigger] v@[j] != at,
                decreases v.len() - i,
            {
                if v[i] == at {
                    assert(v@.contains(at));
                    return ;
                }
                i = i + 1;
            }
            assert(!v@.contains(at));
            v.push(at);
        },
        None => {},
    }
}

/// Lists the marks of pictures and screen clears.
fn turn_marks(pics: Vec<(u64, InlineImage)>, clears: &Vec<u64>) -> (r: Vec<(u64, TranscriptElem)>)
    ensures
        mark_views(r@) == picture_marks(story_views(pics@)) + clear_marks(clears@),
{
    let ghost all = pics@;
    let mut rest: Vec<(u64, InlineImage)> = pics;
    let mut marks: Vec<(u64, TranscriptElem)> = Vec::new();
    assert(rest@ =~= all.skip(0));
    while rest.len() > 0
        invariant
            marks@.len() + rest@.len() == all.len(),
            rest@ == all.skip(marks@.len() as int),
            forall|j: int|
                0 <= j < marks@.len() ==> (#[trigger] mark_views(marks@)[j]) == picture_marks(
                    story_views(all),
                )[j],
        decreases rest.len(),
    {
        let ghost before = rest@;
        let ghost marks0 = marks@;
        let (at, img) = rest.remove(0);
        assert(before[0] == all[marks0.len() as int]);
        marks.push((at, TranscriptElem::Image(img)));
        proof {
            assert(rest@ =~= all.skip(marks@.len() as int));
            assert forall|j: int| 0 <= j < marks@.len() implies (#[trigger] mark_views(marks@)[j])
                == picture_marks(story_views(all))[j] by {
                if j < marks0.len() {
                    assert(mark_views(marks@)[j] == mark_views(marks0)[j]);
                }
            }
        }
    }
    let ghost n = all.len() as int;
    let ghost goal = picture_marks(story_views(all)) + clear_marks(clears@);
    let mut i: usize = 0;
    while i < clears.len()
        invariant
            n == all.len(),
            goal == picture_marks(story_views(all)) + clear_marks(clears@),
            i <= clears@.len(),
            marks@.len() == n + i,
            forall|j: int| 0 <= j < marks@.len() ==> (#[trigger] mark_views(marks@)[j]) == goal[j],
        decreases clears.len() - i,
    {
        let ghost marks0 = marks@;
        marks.push((clears[i], TranscriptElem::ScreenClear));
        proof {
            assert forall|j: int| 0 <= j < marks@.len() implies (#[trigger] mark_views(marks@)[j])
                == goal[j] by {
                if j < marks0.len() {
                    assert(mark_views(marks@)[j] == mark_views(marks0)[j]);
                }
            }
        }
        i = i + 1;
    }
    assert(mark_views(marks@) =~= goal);
    marks
}

impl GameSession {
    /// The parts are well formed.
    pub open spec fn wf(&self) -> bool {
        &&& self.machine.wf()
        &&& self.sink.wf()
        &&& self.layers.wf()
        &&& frames_wf(self.paced_frames@)
        &&& source_wf(self.pict_source, self.layers.art_scale)
        &&& memo_wf(self.v6_model_memo)
    }

    /// Where the cursor of the window stands that input is read through.
    pub open spec fn input_pen(&self) -> Option<(u16, u16)> {
        if self.machine.has_window(self.machine.input_window) {
            Some(self.machine.window(self.machine.input_window).pen)
        } else {
            None
        }
    }

    /// The session once it is ready for a key: it knows where the cursor of the window stands
    /// that input is read through, the window has forgotten where its last burst of text
    /// began, and nothing else differs.
    pub open spec fn armed(&self, after: &GameSession) -> bool {
        let idx = self.machine.input_window as int;
        &&& after.pen_before_char == self.input_pen()
        &&& after.machine.v6 is Some == self.machine.v6 is Some
        &&& self.machine.v6 is Some ==> {
            let v0 = self.machine.v6->0;
            let v1 = after.machine.v6->0;
            &&& v1.current == v0.current
            &&& v1.windows@ == if idx < v0.windows@.len() {
                v0.windows@.update(idx, (ZWindow { stream_origin: None, ..v0.windows@[idx] }))
            } else {
                v0.windows@
            }
        }
        &&& *after == (GameSession {
            pen_before_char: after.pen_before_char,
            machine: (Machine { v6: after.machine.v6, ..self.machine }),
            ..*self
        })
    }

    /// A session on an interpreter that has booted and stopped.
    pub fn new_for_machine(
        machine: Machine,
        sink: CaptureSink,
        pending: InputKind,
        quit: bool,
        plan: &BootPlan,
    ) -> (r: GameSession)
        requires
            machine.wf(),
            sink.wf(),
        ensures
            r.wf(),
            r.machine == machine,
            r.sink == sink,
            r.quit == quit,
            r.pending == pending,
            r.strip_prompt,
            r.pen_before_char is None,
            !r.output_continued,
            r.pict_source is None,
            r.layers@.is_bare(),
            r.layers.art_scale == plan.art_scale,
            r.paced_frames@.len() == 0,
            r.v6_win0_chars_seen == 0,
            r.boot_screen_cols == plan.boot_screen_cols,
            r.v6_model_memo is None,
            r.object_words is None,
            r.listing == (DisasmGate { built: false, last_confirmed_pc: None }),
    {
        GameSession {
            machine,
            sink,
            quit,
            pending,
            strip_prompt: true,
            pen_before_char: None,
            output_continued: false,
            pict_source: None,
            layers: Layers::new(plan.art_scale),
            paced_frames: Vec::new(),
            v6_win0_chars_seen: 0,
            boot_screen_cols: plan.boot_screen_cols,
            v6_model_memo: None,
            object_words: None,
            listing: DisasmGate::new(),
        }
    }

    /// A session on an interpreter that booted with nothing said of its screen.
    pub fn new(machine: Machine, sink: CaptureSink, pending: InputKind, quit: bool) -> (r: GameSession)
        requires
            machine.wf(),
            sink.wf(),
        ensures
            r.wf(),
            r.machine == machine,
            r.sink == sink,
            r.quit == quit,
            r.pending == pending,
            r.strip_prompt,
            r.pen_before_char is None,
            !r.output_continued,
            r.pict_source is None,
            r.layers@.is_bare(),
            r.layers.art_scale == (1u32, 1u32),
            r.paced_frames@.len() == 0,
            r.v6_win0_chars_seen == 0,
            r.boot_screen_cols == DEFAULT_SCREEN_COLS,
            r.v6_model_memo is None,
            r.object_words is None,
            r.listing == (DisasmGate { built: false, last_confirmed_pc: None }),
    {
        let plan: BootPlan = boot_plan(machine.version, &Vec::new(), None, None, None);
        GameSession::new_for_machine(machine, sink, pending, quit, &plan)
    }

    /// The pictures, to look into or to change.
    pub fn pict_source_mut(&mut self) -> (r: Option<&mut PictSource>)
        ensures
            match r {
                Some(p) => old(self).pict_source == Some(*p) && *final(self) == (GameSession {
                    pict_source: Some(*final(p)),
                    ..*old(self)
                }),
                None => old(self).pict_source is None && *final(self) == *old(self),
            },
    {
        match &mut self.pict_source {
            Some(p) => Some(p),
            None => None,
        }
    }

    /// Sets the pictures that events are resolved from.
    pub fn set_pict_source(&mut self, src: Option<PictSource>)
        requires
            old(self).wf(),
            source_wf(src, old(self).layers.art_scale),
        ensures
            final(self).wf(),
            *final(self) == (GameSession { pict_source: src, ..*old(self) }),
    {
        self.pict_source = src;
    }

    /// Whether the game's trailing read prompt is stripped from its output.
    pub fn strip_prompt(&self) -> (r: bool)
        ensures
            r == self.strip_prompt,
    {
        self.strip_prompt
    }

    /// Sets whether the game's trailing read prompt is stripped from its output.
    pub fn set_strip_prompt(&mut self, on: bool)
        requires
            old(self).wf(),
        ensures
            final(self).wf(),
            *final(self) == (GameSession { strip_prompt: on, ..*old(self) }),
    {
        self.strip_prompt = on;
    }

    /// Which kind of input the interpreter waits for.
    pub fn pending_input(&self) -> (r: InputKind)
        ensures
            r == self.pending,
    {
        self.pending
    }

    /// Whether the game has ended.
    pub fn has_quit(&self) -> (r: bool)
        ensures
            r == self.quit,
    {
        self.quit
    }

    /// Whether the last turn's output continued the line that the output before it left.
    pub fn output_continued_line(&self) -> (r: bool)
        ensures
            r == self.output_continued,
    {
        self.output_continued
    }

    /// Drains the text printed since the last drain.
    pub fn take_transcript(&mut self) -> (r: String)
        requires
            old(self).wf(),
        ensures
            final(self).wf(),
            r@ == shown_text(old(self).sink.text@, old(self).strip_prompt),
            final(self).sink.text@.len() == 0,
            final(self).sink.runs@.len() == 0,
            final(self).sink.buffering == old(self).sink.buffering,
            final(self).sink.cleared_at == old(self).sink.cleared_at,
            *final(self) == (GameSession {
                sink: final(self).sink,
                v6_win0_chars_seen: old(self).machine.win0_out_chars,
                ..*old(self)
            }),
    {
        let raw: String = self.sink.take_text();
        self.v6_win0_chars_seen = self.machine.win0_out_chars;
        if self.strip_prompt {
            strip_read_prompt(raw.as_str()).to_owned()
        } else {
            raw
        }
    }

    /// Drains the game's pending screen clear: whether it cleared the lower window, and
    /// where in the drained text the clear fell. The two are one fact seen from two sides.
    pub fn take_screen_clear(&mut self, erase_lower: bool) -> (r: (bool, Option<usize>))
        requires
            old(self).wf(),
        ensures
            final(self).wf(),
            r == (erase_lower, old(self).sink.cleared_at),
            final(self).sink.cleared_at is None,
            final(self).sink.text == old(self).sink.text,
            final(self).sink.runs == old(self).sink.runs,
            final(self).sink.buffering == old(self).sink.buffering,
            *final(self) == (GameSession { sink: final(self).sink, ..*old(self) }),
    {
        let at: Option<usize> = self.sink.take_cleared_at();
        (erase_lower, at)
    }

    /// Notes where the cursor of the story window stands before a keypress is supplied, and
    /// forgets where the window's last burst of text began, so that the turn can tell
    /// whether its output went on from there.
    pub fn arm_line_continuation(&mut self)
        requires
            old(self).wf(),
        ensures
            final(self).wf(),
            old(self).armed(final(self)),
    {
        let idx: usize = self.machine.input_window as usize;
        let mut pen: Option<(u16, u16)> = None;
        let mut table: Option<V6Windows> = None;
        std::mem::swap(&mut table, &mut self.machine.v6);
        self.machine.v6 = match table {
            Some(mut v6) => {
                if idx < v6.windows.len() {
                    pen = Some(v6.windows[idx].pen);
                    v6.windows[idx].stream_origin = None;
                }
                Some(v6)
            },
            None => None,
        };
        self.pen_before_char = pen;
    }

    /// Whether the text of the window that input is read through began at a position.
    pub open spec fn began_at(&self, pen: (u16, u16)) -> bool {
        self.machine.has_window(self.machine.input_window) && self.machine.window(
            self.machine.input_window,
        ).stream_origin == Some(pen)
    }

    /// Whether the text of the window that input is read through began at a position.
    fn text_began_at(&self, pen: (u16, u16)) -> (r: bool)
        ensures
            r == self.began_at(pen),
    {
        let idx: usize = self.machine.input_window as usize;
        match &self.machine.v6 {
            Some(v6) => if idx < v6.windows.len() {
                match v6.windows[idx].stream_origin {
                    Some(at) => at.0 == pen.0 && at.1 == pen.1,
                    None => false,
                }
            } else {
                false
            },
            None => false,
        }
    }

    /// Where the characters of the turn are counted from.
    pub open spec fn turn_base(&self, out: &TurnOutput) -> u64 {
        if out.restarted {
            0
        } else {
            self.v6_win0_chars_seen
        }
    }

    /// The layers after the turn's pictures and fills, and the frames on the way there.
    pub open spec fn turn_screen(&self, out: &TurnOutput) -> (LayersView, Seq<FrameView>) {
        drained(
            if out.restarted {
                self.layers@.wiped()
            } else {
                self.layers@
            },
            &self.machine,
            self.pict_source,
            out.pictures@,
            art_views(out.art@),
            out.fills@,
            out.palette_changed,
        )
    }

    // ── Draining a turn ───────────────────────────────────────────────────────
    /// Turns what the interpreter printed and left behind into the turn's result.
    ///
    /// The interpreter has run, so that the words of the objects may have changed, and those
    /// that are held go. A restart takes everything off the screen that the new game did not draw. The
    /// game's own trailing prompt is stripped, and the styles are cut to the text that is
    /// left. Pictures and screen clears are woven into the text at the positions where they
    /// happened. Text that a window left behind whole is painted where it stood, so that
    /// the elements leave it out and a screen clear stands in its place; where a window
    /// kept a part of its text, all of it stays.
    pub fn drain_turn(
        &mut self,
        out: TurnOutput,
        quit: bool,
        pending_io: Option<PendingIo>,
        timed_out: bool,
    ) -> (r: TurnResult)
        requires
            old(self).wf(),
            out.wf(old(self).layers.art_scale),
            old(self).v6_win0_chars_seen + old(self).sink.text@.len() <= u64::MAX,
        ensures
            final(self).wf(),
            old(self).drained_to(out, final(self), &r),
            r.quit == quit,
            r.pending_io == pending_io,
            r.timed_out == timed_out,
            final(self).quit == old(self).quit,
            final(self).pending == old(self).pending,
    {
        let ghost s0 = *self;
        self.object_words = None;
        if out.restarted {
            self.layers.wipe();
            self.v6_win0_chars_seen = 0;
        }
        self.output_continued = match self.pen_before_char {
            Some(pen) => self.text_began_at(pen),
            None => false,
        };
        self.pen_before_char = None;
        let base: u64 = self.v6_win0_chars_seen;
        let (erase_lower, cleared_at) = self.take_screen_clear(out.erase_lower);
        let (raw, raw_runs) = self.sink.take_styled();
        self.v6_win0_chars_seen = self.machine.win0_out_chars;
        proof {
            stripping_keeps_a_prefix(s0.sink.text@);
        }
        let transcript: String = if self.strip_prompt {
            strip_read_prompt(raw.as_str()).to_owned()
        } else {
            raw
        };
        let len: usize = transcript.as_str().unicode_len();
        let transcript_runs: Vec<CaptureRun> = clamp_runs(&raw_runs, len);
        let prose_retired: Option<usize> = match out.prose_retired {
            Some(at) => Some(offset_in_text(at, base, len)),
            None => None,
        };
        let frozen_head: Option<usize> = if out.prose_retired_whole {
            prose_retired
        } else {
            None
        };
        let prose_cleared_at: Option<u64> = if out.prose_retired_whole {
            out.prose_retired
        } else {
            None
        };
        let cleared_mid_turn: Option<u64> = match cleared_at {
            Some(at) => if at > 0 {
                let inside: usize = if at < len {
                    at
                } else {
                    len
                };
                Some(base + inside as u64)
            } else {
                None
            },
            None => None,
        };
        self.paced_frames = self.layers.drain_pictures(
            &self.machine,
            &self.pict_source,
            &out.pictures,
            &out.art,
            &out.fills,
            out.palette_changed,
        );
        let ghost screen = self.layers@;
        let mut pics: Vec<(u64, InlineImage)> = Vec::new();
        std::mem::swap(&mut pics, &mut self.layers.story_pics);
        assert(self.layers@ =~= (LayersView { story_pics: seq![], ..screen }));
        let mut clears: Vec<u64> = Vec::new();
        add_clear(&mut clears, prose_cleared_at);
        add_clear(&mut clears, out.screen_cleared);
        add_clear(&mut clears, cleared_mid_turn);
        let transcript_elems: Vec<TranscriptElem> = if pics.len() == 0 && clears.len() == 0 {
            let none: Vec<TranscriptElem> = Vec::new();
            assert(elem_views(none@) =~= seq![]);
            none
        } else {
            let marks: Vec<(u64, TranscriptElem)> = turn_marks(pics, &clears);
            interleave_story_elems(
                transcript.as_str(),
                &transcript_runs,
                marks,
                base,
                frozen_head,
            )
        };
        TurnResult {
            transcript,
            transcript_runs,
            location: out.location,
            quit,
            erase_lower,
            info: None,
            sounds: out.sounds,
            glulx_sound_ops: Vec::new(),
            diagnostics: out.diagnostics,
            location_method: out.location_method,
            pending_io,
            timed_out,
            fault: out.fault,
            pictures: out.pictures,
            transcript_elems,
            prose_retired,
        }
    }

    /// What draining a turn leaves behind: the result, and the session after it. The result
    /// carries what the interpreter reported; everything drained is gone from the session.
    pub open spec fn drained_to(
        &self,
        out: TurnOutput,
        after: &GameSession,
        r: &TurnResult,
    ) -> bool {
        let base = self.turn_base(&out);
        let text = shown_text(self.sink.text@, self.strip_prompt);
        let screen = self.turn_screen(&out);
        let retired = retired_offset(&out, base, text.len() as int);
        &&& r.transcript@ == text
        &&& r.transcript_runs@ == runs_before(self.sink.runs@, text.len() as int)
        &&& r.prose_retired == retired
        &&& elem_views(r.transcript_elems@) == turn_elems(
            text,
            r.transcript_runs@,
            screen.0.story_pics,
            clear_positions(&out, self.sink.cleared_at, base, text.len() as int),
            base,
            given(retired, out.prose_retired_whole),
        )
        &&& r.location == out.location
        &&& r.location_method == out.location_method
        &&& r.erase_lower == out.erase_lower
        &&& r.sounds == out.sounds
        &&& r.diagnostics == out.diagnostics
        &&& r.fault == out.fault
        &&& r.pictures == out.pictures
        &&& r.info is None
        &&& r.glulx_sound_ops@.len() == 0
        &&& after.layers@ == (LayersView { story_pics: seq![], ..screen.0 })
        &&& frame_views(after.paced_frames@) == screen.1
        &&& after.output_continued == (self.pen_before_char matches Some(pen) && self.began_at(pen))
        &&& after.pen_before_char is None
        &&& after.v6_win0_chars_seen == self.machine.win0_out_chars
        &&& after.sink.text@.len() == 0
        &&& after.sink.runs@.len() == 0
        &&& after.sink.cleared_at is None
        &&& after.sink.buffering == self.sink.buffering
        &&& after.layers.art_scale == self.layers.art_scale
        &&& after.machine == self.machine
        &&& after.strip_prompt == self.strip_prompt
        &&& after.pict_source == self.pict_source
        &&& after.boot_screen_cols == self.boot_screen_cols
        &&& after.v6_model_memo == self.v6_model_memo
        &&& after.object_words is None
        &&& after.listing == self.listing
    }

    /// Drains a turn that ended in a stop.
    pub fn finish_turn(&mut self, stop: RunStop, out: TurnOutput) -> (r: TurnResult)
        requires
            old(self).wf(),
            out.wf(old(self).layers.art_scale),
            old(self).v6_win0_chars_seen + old(self).sink.text@.len() <= u64::MAX,
        ensures
            final(self).wf(),
            old(self).drained_to(out, final(self), &r),
            (final(self).quit, final(self).pending, r.pending_io) == turn_end(
                stop,
                old(self).pending,
            ),
            r.quit == final(self).quit,
            !r.timed_out,
    {
        let (quit, pending, pending_io) = end_of_turn(stop, self.pending);
        self.quit = quit;
        self.pending = pending;
        self.drain_turn(out, quit, pending_io, false)
    }

    /// Drains the turn that the player's input, or the read's timing out, led to.
    pub fn advance_after_input(&mut self, stop: RunStop, out: TurnOutput, timed_out: bool) -> (r:
        TurnResult)
        requires
            old(self).wf(),
            out.wf(old(self).layers.art_scale),
            old(self).v6_win0_chars_seen + old(self).sink.text@.len() <= u64::MAX,
        ensures
            final(self).wf(),
            old(self).drained_to(out, final(self), &r),
            (final(self).quit, final(self).pending, r.pending_io) == turn_end(
                stop,
                old(self).pending,
            ),
            r.quit == final(self).quit,
            r.timed_out == timed_out,
    {
        let mut r: TurnResult = self.finish_turn(stop, out);
        r.timed_out = timed_out;
        r
    }

    /// Drains what a routine printed while the read that it interrupted is still pending.
    pub fn collect_turn(&mut self, out: TurnOutput) -> (r: TurnResult)
        requires
            old(self).wf(),
            out.wf(old(self).layers.art_scale),
            old(self).v6_win0_chars_seen + old(self).sink.text@.len() <= u64::MAX,
        ensures
            final(self).wf(),
            old(self).drained_to(out, final(self), &r),
            final(self).quit == old(self).quit,
            final(self).pending == old(self).pending,
            r.quit == old(self).quit,
            r.pending_io is None,
            !r.timed_out,
    {
        let quit: bool = self.quit;
        self.drain_turn(out, quit, None, false)
    }

    /// Drains the text printed since the last drain as elements, where pictures wait to be
    /// woven into it. Without such pictures nothing is drained.
    pub fn take_transcript_elems(&mut self) -> (r: Vec<TranscriptElem>)
        requires
            old(self).wf(),
        ensures
            final(self).wf(),
            old(self).layers@.story_pics.len() == 0 ==> r@.len() == 0 && *final(self) == *old(self),
            old(self).layers@.story_pics.len() > 0 ==> {
                let text = shown_text(old(self).sink.text@, old(self).strip_prompt);
                &&& elem_views(r@) == turn_elems(
                    text,
                    runs_before(old(self).sink.runs@, text.len() as int),
                    old(self).layers@.story_pics,
                    seq![],
                    old(self).v6_win0_chars_seen,
                    None,
                )
                &&& final(self).sink.text@.len() == 0
                &&& final(self).sink.runs@.len() == 0
                &&& final(self).sink.cleared_at == old(self).sink.cleared_at
                &&& final(self).sink.buffering == old(self).sink.buffering
                &&& final(self).layers@ == (LayersView { story_pics: seq![], ..old(self).layers@ })
                &&& final(self).layers.art_scale == old(self).layers.art_scale
                &&& *final(self) == (GameSession {
                    sink: final(self).sink,
                    layers: final(self).layers,
                    v6_win0_chars_seen: old(self).machine.win0_out_chars,
                    ..*old(self)
                })
            },
    {
        if self.layers.story_pics.len() == 0 {
            return Vec::new();
        }
        let ghost s0 = *self;
        let base: u64 = self.v6_win0_chars_seen;
        let (raw, raw_runs) = self.sink.take_styled();
        self.v6_win0_chars_seen = self.machine.win0_out_chars;
        let transcript: String = if self.strip_prompt {
            strip_read_prompt(raw.as_str()).to_owned()
        } else {
            raw
        };
        let len: usize = transcript.as_str().unicode_len();
        let runs: Vec<CaptureRun> = clamp_runs(&raw_runs, len);
        let mut pics: Vec<(u64, InlineImage)> = Vec::new();
        std::mem::swap(&mut pics, &mut self.layers.story_pics);
        assert(self.layers@ =~= (LayersView { story_pics: seq![], ..s0.layers@ }));
        let none: Vec<u64> = Vec::new();
        let marks: Vec<(u64, TranscriptElem)> = turn_marks(pics, &none);
        assert(none@ =~= seq![]);
        interleave_story_elems(transcript.as_str(), &runs, marks, base, None)
    }

    /// Raises the width that the story is laid out for to that of a restored game. Stories
    /// without such a width, of the versions below 4 and of version 6, keep their own. The
    /// width only ever grows.
    pub fn note_restored_screen_cols(&mut self, cols: u16)
        requires
            old(self).wf(),
        ensures
            final(self).wf(),
            *final(self) == (GameSession {
                boot_screen_cols: restored_cols(
                    old(self).machine.version,
                    old(self).boot_screen_cols,
                    cols,
                ),
                ..*old(self)
            }),
    {
        let version: u8 = self.machine.version;
        if version < 4 || version == 6 {
            return ;
        }
        if self.boot_screen_cols < cols {
            self.boot_screen_cols = cols;
        }
    }

    // ── The paced sequence ────────────────────────────────────────────────────
    /// How long the frame now on screen is held, in milliseconds; nothing when the screen
    /// is settled.
    pub fn paced_picture_hold(&self) -> (r: Option<u64>)
        ensures
            r == (if self.paced_frames@.len() > 0 {
                Some(self.paced_frames@[0].hold_ms)
            } else {
                None
            }),
    {
        if self.paced_frames.len() > 0 {
            Some(self.paced_frames[0].hold_ms)
        } else {
            None
        }
    }

    /// Advances the sequence one step; tells whether the screen changed.
    pub fn advance_paced_pictures(&mut self) -> (r: bool)
        requires
            old(self).wf(),
        ensures
            final(self).wf(),
            r == (old(self).paced_frames@.len() > 0),
            final(self).paced_frames@ == (if r {
                old(self).paced_frames@.drop_first()
            } else {
                old(self).paced_frames@
            }),
            *final(self) == (GameSession {
                paced_frames: final(self).paced_frames,
                ..*old(self)
            }),
    {
        if self.paced_frames.len() == 0 {
            return false;
        }
        let ghost before = self.paced_frames@;
        let _ = self.paced_frames.remove(0);
        assert(self.paced_frames@ =~= before.drop_first());
        assert forall|i: int| 0 <= i < self.paced_frames@.len() implies (
        #[trigger] self.paced_frames@[i]).wf() by {
            assert(self.paced_frames@[i] == before[i + 1]);
        }
        true
    }

    /// Collapses the sequence to the settled screen; tells whether frames were dropped. The
    /// settled screen is already built, so that nothing is lost.
    pub fn settle_paced_pictures(&mut self) -> (r: bool)
        requires
            old(self).wf(),
        ensures
            final(self).wf(),
            r == (old(self).paced_frames@.len() > 0),
            final(self).paced_frames@.len() == 0,
            *final(self) == (GameSession {
                paced_frames: final(self).paced_frames,
                ..*old(self)
            }),
    {
        let had: bool = self.paced_frames.len() > 0;
        self.paced_frames = Vec::new();
        had
    }

    /// Applies the pictures that the game drew while it booted.
    pub fn flush_boot_pictures(&mut self, out: &TurnOutput)
        requires
            old(self).wf(),
            out.wf(old(self).layers.art_scale),
        ensures
            final(self).wf(),
            (final(self).layers@, frame_views(final(self).paced_frames@)) == drained(
                old(self).layers@,
                &old(self).machine,
                old(self).pict_source,
                out.pictures@,
                art_views(out.art@),
                out.fills@,
                out.palette_changed,
            ),
            *final(self) == (GameSession {
                layers: final(self).layers,
                paced_frames: final(self).paced_frames,
                ..*old(self)
            }),
            final(self).layers.art_scale == old(self).layers.art_scale,
    {
        self.paced_frames = self.layers.drain_pictures(
            &self.machine,
            &self.pict_source,
            &out.pictures,
            &out.art,
            &out.fills,
            out.palette_changed,
        );
    }
}

/// After a restart nothing of the earlier game is on the screen: what a turn leaves there is
/// what the new game drew on an empty one.
pub proof fn a_restart_drops_every_layer(s: &GameSession, out: TurnOutput, other: LayersView)
    requires
        out.restarted,
        other.is_bare(),
        other.art_scale == s.layers@.art_scale,
        other.next_seq == s.layers@.next_seq,
    ensures
        s.turn_base(&out) == 0,
        s.turn_screen(&out) == drained(
            other,
            &s.machine,
            s.pict_source,
            out.pictures@,
            art_views(out.art@),
            out.fills@,
            out.palette_changed,
        ),
{
    assert(s.layers@.wiped() =~= other);
}

/// A turn in which nothing was drawn and nothing cleared has no elements: its transcript
/// says it all.
pub proof fn a_plain_turn_has_no_elements(s: &GameSession, out: TurnOutput, len: int)
    requires
        s.turn_screen(&out).0.story_pics.len() == 0,
        out.prose_retired is None || !out.prose_retired_whole,
        out.screen_cleared is None,
        s.sink.cleared_at is None || s.sink.cleared_at == Some(0usize),
    ensures
        clear_positions(&out, s.sink.cleared_at, s.turn_base(&out), len).len() == 0,
        forall|text: Seq<char>, runs: Seq<CaptureRun>, frozen: Option<usize>|
            (#[trigger] turn_elems(
                text,
                runs,
                s.turn_screen(&out).0.story_pics,
                clear_positions(&out, s.sink.cleared_at, s.turn_base(&out), len),
                s.turn_base(&out),
                frozen,
            )).len() == 0,
{
}

/// A game that restores keeps the wider of the two widths, and the width never shrinks.
pub proof fn the_width_only_grows(version: u8, boot: u16, restored: u16)
    ensures
        restored_cols(version, boot, restored) >= boot,
        version >= 4 && version != 6 ==> restored_cols(version, boot, restored) >= restored,
{
}

/// The width that a story is laid out for, once a game is restored.
pub open spec fn restored_cols(version: u8, boot: u16, restored: u16) -> u16 {
    if version < 4 || version == 6 || boot >= restored {
        boot
    } else {
        restored
    }
}

/// A turn reports what the interpreter left behind, each thing under its own name, and the
/// text that was printed: all of it, or all but its end, where prompts are stripped. Whether
/// the output went on from the cursor is told by where it began, and everything drained is
/// gone.
pub proof fn a_turn_reports_what_happened(
    s: &GameSession,
    out: TurnOutput,
    after: &GameSession,
    r: &TurnResult,
)
    requires
        s.drained_to(out, after, r),
    ensures
        r.location == out.location,
        r.location_method == out.location_method,
        r.erase_lower == out.erase_lower,
        r.sounds == out.sounds,
        r.diagnostics == out.diagnostics,
        r.fault == out.fault,
        r.pictures == out.pictures,
        r.info is None,
        r.glulx_sound_ops@.len() == 0,
        !s.strip_prompt ==> r.transcript@ == s.sink.text@,
        s.strip_prompt ==> r.transcript@.len() <= s.sink.text@.len() && r.transcript@
            == s.sink.text@.take(r.transcript@.len() as int),
        after.output_continued <==> s.pen_before_char is Some && s.machine.v6 is Some
            && s.machine.input_window < (s.machine.v6->0).windows@.len() && (
        s.machine.v6->0).windows@[s.machine.input_window as int].stream_origin == s.pen_before_char,
        after.pen_before_char is None,
        after.sink.text@.len() == 0,
        after.sink.runs@.len() == 0,
        after.sink.cleared_at is None,
        after.sink.buffering == s.sink.buffering,
        after.layers.story_pics@.len() == 0,
        after.v6_win0_chars_seen == s.machine.win0_out_chars,
        after.machine == s.machine,
        after.strip_prompt == s.strip_prompt,
        after.pict_source == s.pict_source,
        after.boot_screen_cols == s.boot_screen_cols,
        after.v6_model_memo == s.v6_model_memo,
        after.listing == s.listing,
        after.object_words is None,
        after.layers.art_scale == s.layers.art_scale,
{
    stripping_keeps_a_prefix(s.sink.text@);
    assert(story_views(after.layers.story_pics@).len() == after.layers.story_pics@.len());
}

/// Where the game moved its window out from under printed text is told as a place in the
/// turn's own text: counted from where the turn began, at its start if it lies before it and
/// at its end if it lies behind it.
pub proof fn a_retired_text_is_told_in_the_turn(
    s: &GameSession,
    out: TurnOutput,
    after: &GameSession,
    r: &TurnResult,
)
    requires
        s.drained_to(out, after, r),
        r.transcript@.len() <= usize::MAX,
    ensures
        r.prose_retired is Some <==> out.prose_retired is Some,
        out.prose_retired matches Some(c) ==> {
            let base = if out.restarted {
                0
            } else {
                s.v6_win0_chars_seen as int
            };
            let at = r.prose_retired->0;
            &&& c <= base ==> at == 0
            &&& base <= c <= base + r.transcript@.len() ==> base + at == c
            &&& c > base + r.transcript@.len() ==> at == r.transcript@.len()
        },
{
}

/// Each character of a turn's text keeps the style that it was printed in.
pub proof fn a_turn_keeps_the_styles(
    s: &GameSession,
    out: TurnOutput,
    after: &GameSession,
    r: &TurnResult,
)
    requires
        s.drained_to(out, after, r),
        s.sink.wf(),
    ensures
        char_styles(r.transcript_runs@) == char_styles(s.sink.runs@).take(
            r.transcript@.len() as int,
        ),
        char_styles(r.transcript_runs@).len() == r.transcript@.len(),
{
    stripping_keeps_a_prefix(s.sink.text@);
    cutting_runs_keeps_the_styles(s.sink.runs@, r.transcript@.len() as int);
    lemma_char_styles_len(s.sink.runs@);
    lemma_char_styles_len(r.transcript_runs@);
}

/// A session that is ready for a key knows where the cursor stands that input is read at; the
/// window there has forgotten where its text began, and every other window is as it was.
pub proof fn a_key_is_awaited_at_the_cursor(s: &GameSession, after: &GameSession, i: int)
    requires
        s.armed(after),
        s.machine.v6 is Some,
        0 <= i < (s.machine.v6->0).windows@.len(),
    ensures
        after.machine.v6 is Some,
        (after.machine.v6->0).windows@.len() == (s.machine.v6->0).windows@.len(),
        (after.machine.v6->0).current == (s.machine.v6->0).current,
        i == s.machine.input_window ==> after.pen_before_char == Some(
            (s.machine.v6->0).windows@[i].pen,
        ) && (after.machine.v6->0).windows@[i].stream_origin is None,
        i == s.machine.input_window ==> (after.machine.v6->0).windows@[i].pen == (
        s.machine.v6->0).windows@[i].pen && (after.machine.v6->0).windows@[i].texts == (
        s.machine.v6->0).windows@[i].texts,
        i != s.machine.input_window ==> (after.machine.v6->0).windows@[i] == (
        s.machine.v6->0).windows@[i],
        after.layers == s.layers,
        after.sink == s.sink,
        after.pending == s.pending,
        after.listing == s.listing,
{
}

} // verus!
