//! A session of a two-word adventure: its turns, its picture band and its sequences of
//! pictures.

use crate::model::{plain_buffer, Band, BufferView, BufferWindow, GraphicsView,
    GraphicsWindow, Layout, LayoutView, ModelView, NodeView, ScreenModel, StatusModel, StatusView,
    WinNode};
use crate::raster::Raster;
use crate::restore::{same_text, EngineError, EngineSave};
use crate::text::{find_char, from_chars, lemma_find_char, slice_chars, string_views, to_chars};
use crate::turn::{InputKind, ObjectSnapshot, PendingIo, TurnResult};
use vstd::prelude::*;

verus! {

/// The engine that saves of these games name.
pub const SCOTT_ENGINE: &'static str = "scott";

/// The format of their saves.
pub const SCOTT_SAVE_FORMAT: u32 = 1;

/// What is printed before every command.
pub const PROMPT: &'static str = "\nTell me what to do ? ";

/// What is said while a sequence of pictures waits for a key.
pub const PICTURE_SHOW_HINT: &'static str = "[Press RETURN to continue]";

/// How many rows the picture band takes.
pub const PICTURE_ROWS: u16 = 16;

/// The picture that is drawn in the dark.
pub const DARKNESS_PICTURE: u16 = 0;

/// The picture that what is carried is drawn over.
pub const INVENTORY_PICTURE: u16 = 98;

// ── Starting ──────────────────────────────────────────────────────────────────
/// The choices of wording and rules that a game is played with.
#[derive(Clone, Copy, Debug, PartialEq, Eq, Structural)]
pub struct ScottOptions {
    pub you_are: bool,
    pub scott_light: bool,
    pub trs80_style: bool,
    pub prehistoric_lamp: bool,
}

/// Settles the options of a game: what its own settings say, and off where they are silent.
pub fn resolve_options(
    you_are: Option<bool>,
    scott_light: Option<bool>,
    trs80_style: Option<bool>,
    prehistoric_lamp: Option<bool>,
) -> (r: ScottOptions)
    ensures
        r.you_are == (you_are == Some(true)),
        r.scott_light == (scott_light == Some(true)),
        r.trs80_style == (trs80_style == Some(true)),
        r.prehistoric_lamp == (prehistoric_lamp == Some(true)),
{
    ScottOptions {
        you_are: match you_are {
            Some(b) => b,
            None => false,
        },
        scott_light: match scott_light {
            Some(b) => b,
            None => false,
        },
        trs80_style: match trs80_style {
            Some(b) => b,
            None => false,
        },
        prehistoric_lamp: match prehistoric_lamp {
            Some(b) => b,
            None => false,
        },
    }
}

/// How a story's own artwork is read, where it is a snapshot of one kind of machine.
#[derive(Clone, Copy, Debug, PartialEq, Eq, Structural)]
pub enum ZxRoute {
    /// From a snapshot.
    Snapshot,
    /// From a bare image of memory.
    Image,
    /// Not at all.
    Neither,
}

/// Settles how a story's own artwork is read: as a snapshot where it looks like one, and
/// otherwise as an image where it has the length of one and looks like one.
pub fn zx_mysterious_route(is_snapshot: bool, len: usize, image_len: usize, is_image: bool) -> (r:
    ZxRoute)
    ensures
        r == (if is_snapshot {
            ZxRoute::Snapshot
        } else if len == image_len && is_image {
            ZxRoute::Image
        } else {
            ZxRoute::Neither
        }),
{
    if is_snapshot {
        ZxRoute::Snapshot
    } else if len == image_len && is_image {
        ZxRoute::Image
    } else {
        ZxRoute::Neither
    }
}

/// Where a game's pictures come from.
#[derive(Clone, Copy, Debug, PartialEq, Eq, Structural)]
pub enum ArtSource {
    /// A container of pictures beside the story.
    Container,
    /// The picture files of a release, read by its own database.
    Saga,
    /// The picture files of a release whose database is plain text.
    SagaDos,
    /// The story's own snapshot.
    Zx,
    /// The story's own program file.
    C64,
    /// Nowhere.
    Nowhere,
}

/// What is known of a game's pictures.
#[derive(Clone, Copy, Debug, PartialEq, Eq, Structural)]
pub struct ArtFacts {
    pub has_container: bool,
    pub has_picture_files: bool,
    /// Whether the database belongs to a release with picture files.
    pub saga_release: bool,
    /// Whether the database is that of such a release in plain text.
    pub dos_release: bool,
    /// Whether the story's snapshot holds pictures.
    pub zx_lists: bool,
    /// Whether the story's program file holds pictures.
    pub c64_lists: bool,
}

/// Where a game's pictures come from: the first source of these that there is.
pub open spec fn art_source(f: ArtFacts) -> ArtSource {
    if f.has_container {
        ArtSource::Container
    } else if f.has_picture_files && f.saga_release {
        ArtSource::Saga
    } else if f.has_picture_files && f.dos_release {
        ArtSource::SagaDos
    } else if f.zx_lists {
        ArtSource::Zx
    } else if f.c64_lists {
        ArtSource::C64
    } else {
        ArtSource::Nowhere
    }
}

/// Settles where a game's pictures come from.
pub fn picture_source(f: ArtFacts) -> (r: ArtSource)
    ensures
        r == art_source(f),
{
    if f.has_container {
        ArtSource::Container
    } else if f.has_picture_files && f.saga_release {
        ArtSource::Saga
    } else if f.has_picture_files && f.dos_release {
        ArtSource::SagaDos
    } else if f.zx_lists {
        ArtSource::Zx
    } else if f.c64_lists {
        ArtSource::C64
    } else {
        ArtSource::Nowhere
    }
}

/// How high the picture band is, in pixels, by the height of a character.
pub fn band_height(char_h: u32) -> (r: u64)
    ensures
        r == PICTURE_ROWS * char_h,
{
    assert(PICTURE_ROWS * char_h <= 16 * 0xffff_ffff) by (nonlinear_arith)
        requires
            PICTURE_ROWS == 16,
            char_h <= 0xffff_ffff,
    ;
    PICTURE_ROWS as u64 * char_h as u64
}

// ── The game ──────────────────────────────────────────────────────────────────
/// Which release a game's picture files belong to.
#[derive(Clone, Copy, Debug, PartialEq, Eq, Structural)]
pub enum Release {
    Saga,
    Dos,
}

/// The game, as the session sees it.
#[derive(Debug)]
pub struct ScottVm {
    pub quit: bool,
    pub dark: bool,
    pub room: u16,
    pub room_name: String,
    /// The description of the room.
    pub room_block: String,
    /// The picture that the game asks for.
    pub current_picture: Option<u16>,
    /// Whether the database belongs to a release with picture files.
    pub saga_database: bool,
    /// The release that objects are drawn by, if any.
    pub release: Option<Release>,
    /// Whether the pictures are those of the plain-text release.
    pub dos_pictures: bool,
    /// The picture that the plain-text release has for the room.
    pub dos_room_picture: u16,
    /// The picture of each item in the room, by the release.
    pub pictures_here: Vec<u16>,
    /// The picture that the release draws over the room itself.
    pub room_overlay: Option<u16>,
    /// The items that are carried.
    pub carried: Vec<u16>,
}

/// What a picture of an object is used for.
#[derive(Clone, Copy, Debug, PartialEq, Eq, Structural)]
pub enum PictureUsage {
    ObjectInRoom,
    ObjectInInventory,
}

/// A picture file of an object.
#[derive(Debug)]
pub struct ObjectRecord {
    pub usage: PictureUsage,
    pub index: u16,
    pub name: String,
}

/// The platform of a release's picture files.
#[derive(Debug)]
pub enum SagaPlatform {
    AppleII,
    Other(String),
}

/// The pictures of a game, as the session sees them: the numbers that can be drawn, the
/// picture files of objects in the order they were gathered, and where it all came from.
#[derive(Debug)]
pub struct ScottPicts {
    pub drawable: Vec<u16>,
    pub records: Vec<ObjectRecord>,
    /// How finely a story's own artwork is drawn.
    pub native_scale: Option<u32>,
    /// The platform of a story's own artwork.
    pub native_platform: Option<String>,
    pub saga_platform: Option<SagaPlatform>,
    pub saga_count: Option<usize>,
    pub dos_count: Option<usize>,
}

/// Tests whether a number is in a list.
fn among(v: &Vec<u16>, n: u16) -> (r: bool)
    ensures
        r == v@.contains(n),
{
    let mut i: usize = 0;
    while i < v.len()
        invariant
            i <= v@.len(),
            forall|j: int| 0 <= j < i ==> #[trigger] v@[j] != n,
        decreases v.len() - i,
    {
        if v[i] == n {
            assert(v@[i as int] == n);
            return true;
        }
        i = i + 1;
    }
    false
}

/// The names of the picture files of objects that are to be drawn, in the order they were
/// gathered.
pub open spec fn overlay_names(
    records: Seq<ObjectRecord>,
    usage: PictureUsage,
    indices: Seq<u16>,
) -> Seq<Seq<char>> {
    records.filter(|r: ObjectRecord| r.usage == usage && indices.contains(r.index)).map_values(
        |r: ObjectRecord| r.name@,
    )
}

impl ScottPicts {
    /// Names the picture files of objects that are to be drawn: most objects have none.
    pub fn scott_overlays(&self, usage: PictureUsage, indices: &Vec<u16>) -> (r: Vec<String>)
        ensures
            string_views(r@) == overlay_names(self.records@, usage, indices@),
    {
        let ghost p = |r: ObjectRecord| r.usage == usage && indices@.contains(r.index);
        let ghost f = |r: ObjectRecord| r.name@;
        let mut out: Vec<String> = Vec::new();
        let mut i: usize = 0;
        proof {
            reveal(Seq::filter);
            assert(self.records@.take(0).filter(p) =~= seq![]);
        }
        assert(string_views(out@) =~= self.records@.take(0).filter(p).map_values(f));
        while i < self.records.len()
            invariant
                i <= self.records@.len(),
                p == (|r: ObjectRecord| r.usage == usage && indices@.contains(r.index)),
                f == (|r: ObjectRecord| r.name@),
                string_views(out@) == self.records@.take(i as int).filter(p).map_values(f),
            decreases self.records.len() - i,
        {
            let rec = &self.records[i];
            let ghost found = self.records@.take(i as int).filter(p);
            proof {
                reveal(Seq::filter);
                assert(self.records@.take(i + 1).drop_last() =~= self.records@.take(i as int));
                assert(self.records@.take(i + 1).last() == self.records@[i as int]);
            }
            if rec.usage == usage && among(indices, rec.index) {
                let ghost out0 = out@;
                out.push(rec.name.as_str().to_owned());
                assert(string_views(out@) =~= string_views(out0).push(rec.name@));
                assert(found.push(*rec).map_values(f) =~= found.map_values(f).push(rec.name@));
            }
            i = i + 1;
        }
        assert(self.records@.take(i as int) =~= self.records@);
        out
    }
}

/// A picture that a turn shows, and how much of the turn's text comes before it.
#[derive(Clone, Copy, Debug, PartialEq, Eq, Structural)]
pub struct PictureShow {
    pub picture: u16,
    pub output_len: usize,
}

/// A step of a sequence of pictures that is still to come: the text that the key brings up,
/// and the picture that the band changes to, or none where the sequence is over.
#[derive(Debug)]
pub struct PendingShow {
    pub text: String,
    pub next_picture: Option<u16>,
}

/// The model of a list of steps.
pub open spec fn show_views(v: Seq<PendingShow>) -> Seq<(Seq<char>, Option<u16>)> {
    v.map_values(|s: PendingShow| (s.text@, s.next_picture))
}

/// What the game did in a turn.
#[derive(Debug)]
pub struct ScottTurn {
    /// The game after the turn.
    pub vm: ScottVm,
    pub transcript: String,
    /// The pictures that the turn shows, in order.
    pub shows: Vec<PictureShow>,
    /// Whether the game asked to be saved.
    pub save_requested: bool,
}

/// A session.
#[derive(Debug)]
pub struct ScottSession {
    pub vm: ScottVm,
    /// The opening text, until it is drained.
    pub intro: String,
    pub aux: Vec<(String, Vec<u8>)>,
    /// Whether the game changed its own data since it was last kept.
    pub aux_dirty: bool,
    pub picts: ScottPicts,
    /// What the band shows, once it is drawn.
    pub current_canvas: Option<Raster>,
    /// The picture of the band.
    pub current_pic_num: Option<u16>,
    /// What is drawn over it, in order.
    pub current_overlays: Vec<String>,
    /// Advances with every change of the band.
    pub pic_version: u64,
    /// The steps of the sequence of pictures that is being shown.
    pub showing: Vec<PendingShow>,
    /// Whether the game's own save waits for the sequence to end.
    pub deferred_save: bool,
}

/// A band: a picture, and the names of what is drawn over it.
#[verifier::ext_equal]
pub struct BandWish {
    pub picture: Option<u16>,
    pub overlays: Seq<Seq<char>>,
}

/// The picture that the plain-text release wants for the room, where its pictures are
/// shown: the darkness where the game asks for none, and its own picture of the room where
/// the game asks for the room's.
pub open spec fn dos_picture(vm: ScottVm) -> Option<u16> {
    if vm.dos_pictures {
        Some(
            match vm.current_picture {
                None => DARKNESS_PICTURE,
                Some(n) => if n == vm.room {
                    vm.dos_room_picture
                } else {
                    n
                },
            },
        )
    } else {
        None
    }
}

/// The pictures of what lies in the room; none in the dark, and none without a release.
pub open spec fn here_indices(vm: ScottVm) -> Seq<u16> {
    if vm.dark || vm.release is None {
        seq![]
    } else if vm.saga_database && vm.room_overlay is Some {
        vm.pictures_here@.push(vm.room_overlay->0)
    } else {
        vm.pictures_here@
    }
}

/// The band of the room.
pub open spec fn room_band(vm: ScottVm, picts: ScottPicts) -> BandWish {
    BandWish {
        picture: match dos_picture(vm) {
            Some(n) => Some(n),
            None => vm.current_picture,
        },
        overlays: if vm.dark || vm.release is None {
            seq![]
        } else {
            overlay_names(picts.records@, PictureUsage::ObjectInRoom, here_indices(vm))
        },
    }
}

/// The band of a picture of a sequence: over the one for what is carried, that is drawn.
pub open spec fn show_band(vm: ScottVm, picts: ScottPicts, picture: u16) -> BandWish {
    BandWish {
        picture: Some(picture),
        overlays: if picture == INVENTORY_PICTURE {
            overlay_names(picts.records@, PictureUsage::ObjectInInventory, vm.carried@)
        } else {
            seq![]
        },
    }
}

/// A result that reports where the player is and nothing but a text.
pub open spec fn plain_turn(r: TurnResult, vm: ScottVm, text: Seq<char>, quit: bool) -> bool {
    &&& r.transcript@ == text
    &&& r.quit == quit
    &&& r.location matches Some(l) && l.number == vm.room && l.parent == 0 && l.name@
        == vm.room_name@
    &&& r.transcript_runs@.len() == 0
    &&& !r.erase_lower
    &&& r.sounds@.len() == 0
    &&& r.glulx_sound_ops@.len() == 0
    &&& r.diagnostics@.len() == 0
    &&& r.fault is None
    &&& r.location_method is None
    &&& !r.timed_out
    &&& r.pictures@.len() == 0
    &&& r.transcript_elems@.len() == 0
    &&& r.prose_retired is None
}

/// A text, and the prompt behind it unless the game is over.
pub open spec fn prompted(text: Seq<char>, quit: bool) -> Seq<char> {
    if quit {
        text
    } else {
        text + PROMPT@
    }
}

/// Whether the pictures of a turn stand in its text in order.
pub open spec fn in_text(shows: Seq<PictureShow>, len: int) -> bool {
    &&& forall|i: int| 0 <= i < shows.len() ==> (#[trigger] shows[i]).output_len <= len
    &&& forall|i: int, j: int|
        0 <= i <= j < shows.len() ==> (#[trigger] shows[i]).output_len <= (
        #[trigger] shows[j]).output_len
}

/// The pictures of a turn that can be drawn.
pub open spec fn drawable_shows(shows: Seq<PictureShow>, picts: ScottPicts) -> Seq<PictureShow> {
    shows.filter(|s: PictureShow| picts.drawable@.contains(s.picture))
}

/// Where the text behind a picture ends: at the next picture, or at the end.
pub open spec fn show_end(shows: Seq<PictureShow>, i: int, len: int) -> int {
    if i + 1 < shows.len() {
        shows[i + 1].output_len as int
    } else {
        len
    }
}

/// The steps of a sequence of pictures.
pub open spec fn steps_of(text: Seq<char>, shows: Seq<PictureShow>) -> Seq<(Seq<char>, Option<u16>)> {
    Seq::new(
        shows.len(),
        |i: int|
            (
                text.subrange(shows[i].output_len as int, show_end(shows, i, text.len() as int)),
                if i + 1 < shows.len() {
                    Some(shows[i + 1].picture)
                } else {
                    None
                },
            ),
    )
}

/// Picking from pictures that stand in a text in order leaves them in order.
proof fn lemma_still_in_text(shows: Seq<PictureShow>, p: spec_fn(PictureShow) -> bool, len: int)
    requires
        in_text(shows, len),
    ensures
        in_text(shows.filter(p), len),
        forall|i: int| 0 <= i < shows.filter(p).len() ==> shows.contains(#[trigger] shows.filter(p)[i]),
    decreases shows.len(),
{
    reveal(Seq::filter);
    if shows.len() > 0 {
        let front = shows.drop_last();
        assert forall|i: int| 0 <= i < front.len() implies (#[trigger] front[i]).output_len <= len by {
            assert(front[i] == shows[i]);
        }
        assert forall|i: int, j: int| 0 <= i <= j < front.len() implies (
        #[trigger] front[i]).output_len <= (#[trigger] front[j]).output_len by {
            assert(front[i] == shows[i] && front[j] == shows[j]);
        }
        lemma_still_in_text(front, p, len);
        let f = front.filter(p);
        let out = shows.filter(p);
        let last = shows[shows.len() - 1];
        assert forall|i: int| 0 <= i < out.len() implies shows.contains(#[trigger] out[i]) && out[i].output_len
            <= len && out[i].output_len <= last.output_len by {
            if i < f.len() {
                assert(out[i] == f[i]);
                assert(front.contains(f[i]));
                let k = choose|k: int| 0 <= k < front.len() && front[k] == f[i];
                assert(shows[k] == out[i]);
            } else {
                assert(out[i] == last);
                assert(shows[shows.len() - 1] == last);
            }
        }
        assert forall|i: int, j: int| 0 <= i <= j < out.len() implies (#[trigger] out[i]).output_len
            <= (#[trigger] out[j]).output_len by {
            if j < f.len() {
                assert(out[i] == f[i] && out[j] == f[j]);
            } else {
                assert(out[j] == last);
            }
        }
    }
}

impl ScottSession {
    /// Whether what the band shows has the pixels of its extent.
    pub open spec fn wf(&self) -> bool {
        self.current_canvas matches Some(c) ==> c.wf()
    }

    /// The band, as it was last set.
    pub open spec fn band(&self) -> BandWish {
        BandWish { picture: self.current_pic_num, overlays: string_views(self.current_overlays@) }
    }

    /// The session after its band is set. A band that is the same already stays as it is
    /// drawn; any other has to be drawn again.
    pub open spec fn banded(&self, want: BandWish, after: &ScottSession) -> bool {
        &&& after.band() == want
        &&& if self.band() == want {
            after.pic_version == self.pic_version && after.current_canvas == self.current_canvas
        } else {
            after.pic_version == self.pic_version + 1 && after.current_canvas is None
        }
    }

    /// Nothing but the band, the sequence and the deferred save differ.
    pub open spec fn same_but_show(&self, after: &ScottSession) -> bool {
        &&& after.intro == self.intro
        &&& after.aux == self.aux
        &&& after.aux_dirty == self.aux_dirty
        &&& after.picts == self.picts
    }

    /// A session at the start of a game.
    pub open spec fn started(&self, vm: ScottVm, opening: Seq<char>, picts: ScottPicts) -> bool {
        &&& self.wf()
        &&& self.vm == vm
        &&& self.intro@ == prompted(opening, vm.quit)
        &&& self.aux@.len() == 0
        &&& !self.aux_dirty
        &&& self.picts == picts
        &&& self.band() == room_band(vm, picts)
        &&& self.current_canvas is None
        &&& self.pic_version == (if room_band(vm, picts) == (BandWish {
            picture: None,
            overlays: seq![],
        }) {
            0u64
        } else {
            1u64
        })
        &&& self.showing@.len() == 0
        &&& !self.deferred_save
    }

    /// Which kind of input is waited for: a key while a sequence of pictures is shown.
    pub open spec fn waits_for(&self) -> InputKind {
        if self.showing@.len() == 0 {
            InputKind::Line
        } else {
            InputKind::Char
        }
    }

    /// What a turn leaves behind, and what is reported of it. A turn that shows no picture
    /// returns to the room; one that shows pictures is split where they stand.
    pub open spec fn submitted(&self, out: ScottTurn, after: &ScottSession, r: TurnResult) -> bool {
        &&& self.same_but_show(after)
        &&& after.vm == out.vm
        &&& {
            let shows = drawable_shows(out.shows@, self.picts);
            let save = !out.vm.quit && out.save_requested;
            let text = out.transcript@;
            if out.vm.quit || shows.len() == 0 {
                &&& self.banded(room_band(out.vm, self.picts), after)
                &&& plain_turn(
                    r,
                    out.vm,
                    if save {
                        text
                    } else {
                        prompted(text, out.vm.quit)
                    },
                    out.vm.quit,
                )
                &&& r.info is None
                &&& r.pending_io == (if save {
                    Some(PendingIo::Save)
                } else {
                    None
                })
                &&& after.showing == self.showing
                &&& after.deferred_save == self.deferred_save
            } else {
                &&& self.banded(
                    show_band(out.vm, self.picts, shows[0].picture),
                    after,
                )
                &&& plain_turn(r, out.vm, text.take(shows[0].output_len as int), false)
                &&& r.info matches Some(hint) && hint@ == PICTURE_SHOW_HINT@
                &&& r.pending_io is None
                &&& show_views(after.showing@) == steps_of(text, shows)
                &&& after.deferred_save == save
            }
        }
    }

    /// What a key leaves behind, and what is reported of it. Without a sequence of pictures
    /// there is nothing to report; with one, the key brings up its next step.
    pub open spec fn keyed(&self, after: &ScottSession, r: Option<TurnResult>) -> bool {
        &&& self.same_but_show(after)
        &&& after.vm == self.vm
        &&& r is None <==> self.showing@.len() == 0
        &&& r is None ==> *after == *self
        &&& r matches Some(t) ==> {
            let step = show_views(self.showing@)[0];
            let quit = self.vm.quit;
            &&& show_views(after.showing@) == show_views(
                self.showing@,
            ).drop_first()
            &&& match step.1 {
                Some(picture) => {
                    &&& self.banded(
                        show_band(self.vm, self.picts, picture),
                        after,
                    )
                    &&& plain_turn(t, self.vm, step.0, false)
                    &&& t.info matches Some(hint) && hint@ == PICTURE_SHOW_HINT@
                    &&& t.pending_io is None
                    &&& after.deferred_save == self.deferred_save
                },
                None => {
                    let save = self.deferred_save && !quit;
                    &&& self.banded(
                        room_band(self.vm, self.picts),
                        after,
                    )
                    &&& plain_turn(
                        t,
                        self.vm,
                        if save {
                            step.0
                        } else {
                            prompted(step.0, quit)
                        },
                        quit,
                    )
                    &&& t.info is None
                    &&& t.pending_io == (if save {
                        Some(PendingIo::Save)
                    } else {
                        None
                    })
                    &&& !after.deferred_save
                },
            }
        }
    }

    /// Starts a session with what became of the database when it was opened: the game and
    /// its opening text, or why it is no game. The opening text gets its prompt, unless the
    /// game is over, and the band is that of the room.
    pub fn new(opened: Result<(ScottVm, String), String>, picts: ScottPicts) -> (r: Result<
        ScottSession,
        String,
    >)
        ensures
            match opened {
                Err(why) => r matches Err(e) && e@ == "invalid Scott .dat: "@ + why@,
                Ok((vm, opening)) => r matches Ok(s) && s.started(vm, opening@, picts),
            },
    {
        let (vm, opening) = match opened {
            Err(why) => {
                let mut text: String = "invalid Scott .dat: ".to_owned();
                text.append(why.as_str());
                return Err(text);
            },
            Ok(game) => game,
        };
        let mut intro: String = opening;
        if !vm.quit {
            intro.append(PROMPT);
        }
        let mut s = ScottSession {
            vm,
            intro,
            aux: Vec::new(),
            aux_dirty: false,
            picts,
            current_canvas: None,
            current_pic_num: None,
            current_overlays: Vec::new(),
            pic_version: 0,
            showing: Vec::new(),
            deferred_save: false,
        };
        assert(s.band() =~= (BandWish { picture: None, overlays: seq![] }));
        s.refresh_picture();
        Ok(s)
    }

    /// The picture that the plain-text release wants for the room.
    fn dos_room_picture(&self) -> (r: Option<u16>)
        ensures
            r == dos_picture(self.vm),
    {
        if !self.vm.dos_pictures {
            return None;
        }
        Some(
            match self.vm.current_picture {
                None => DARKNESS_PICTURE,
                Some(n) => if n == self.vm.room {
                    self.vm.dos_room_picture
                } else {
                    n
                },
            },
        )
    }

    /// What is drawn over the picture of the room: nothing in the dark, where the darkness
    /// stands alone.
    fn room_overlays(&self) -> (r: Vec<String>)
        ensures
            string_views(r@) == room_band(self.vm, self.picts).overlays,
    {
        if self.vm.dark || self.vm.release.is_none() {
            let none: Vec<String> = Vec::new();
            assert(string_views(none@) =~= seq![]);
            return none;
        }
        let mut indices: Vec<u16> = Vec::new();
        let mut i: usize = 0;
        while i < self.vm.pictures_here.len()
            invariant
                i <= self.vm.pictures_here@.len(),
                indices@ == self.vm.pictures_here@.take(i as int),
            decreases self.vm.pictures_here.len() - i,
        {
            indices.push(self.vm.pictures_here[i]);
            assert(self.vm.pictures_here@.take(i + 1) =~= self.vm.pictures_here@.take(
                i as int,
            ).push(self.vm.pictures_here@[i as int]));
            i = i + 1;
        }
        assert(self.vm.pictures_here@.take(i as int) =~= self.vm.pictures_here@);
        if self.vm.saga_database {
            if let Some(p) = self.vm.room_overlay {
                indices.push(p);
            }
        }
        assert(indices@ == here_indices(self.vm));
        self.picts.scott_overlays(PictureUsage::ObjectInRoom, &indices)
    }

    /// Sets the band; tells whether it has to be drawn again. A band is its picture and what
    /// is drawn over it: the same room with other things in it is another band.
    pub fn set_band(&mut self, want: Option<u16>, overlays: Vec<String>) -> (r: bool)
        requires
            old(self).wf(),
            old(self).pic_version < u64::MAX,
        ensures
            final(self).wf(),
            r == (old(self).band() != (BandWish {
                picture: want,
                overlays: string_views(overlays@),
            })),
            old(self).banded(
                (BandWish { picture: want, overlays: string_views(overlays@) }),
                final(self),
            ),
            old(self).same_but_show(final(self)),
            final(self).vm == old(self).vm,
            final(self).showing == old(self).showing,
            final(self).deferred_save == old(self).deferred_save,
    {
        let same_pic: bool = match (want, self.current_pic_num) {
            (Some(a), Some(b)) => a == b,
            (None, None) => true,
            _ => false,
        };
        if same_pic && same_list(&overlays, &self.current_overlays) {
            return false;
        }
        self.current_pic_num = want;
        self.current_overlays = overlays;
        self.current_canvas = None;
        self.pic_version = self.pic_version + 1;
        true
    }

    /// Puts in place what the band shows.
    pub fn put_canvas(&mut self, canvas: Option<Raster>)
        requires
            old(self).wf(),
            canvas matches Some(c) ==> c.wf(),
        ensures
            final(self).wf(),
            *final(self) == (ScottSession { current_canvas: canvas, ..*old(self) }),
    {
        self.current_canvas = canvas;
    }

    /// Sets the band to that of the room.
    pub fn refresh_picture(&mut self)
        requires
            old(self).wf(),
            old(self).pic_version < u64::MAX,
        ensures
            final(self).wf(),
            old(self).banded(room_band(old(self).vm, old(self).picts), final(self)),
            old(self).same_but_show(final(self)),
            final(self).vm == old(self).vm,
            final(self).showing == old(self).showing,
            final(self).deferred_save == old(self).deferred_save,
    {
        let want: Option<u16> = match self.dos_room_picture() {
            Some(n) => Some(n),
            None => self.vm.current_picture,
        };
        let overlays: Vec<String> = self.room_overlays();
        let _ = self.set_band(want, overlays);
    }

    /// Sets the band to a picture of a sequence.
    pub fn show_sequence_picture(&mut self, picture: u16)
        requires
            old(self).wf(),
            old(self).pic_version < u64::MAX,
        ensures
            final(self).wf(),
            old(self).banded(show_band(old(self).vm, old(self).picts, picture), final(self)),
            old(self).same_but_show(final(self)),
            final(self).vm == old(self).vm,
            final(self).showing == old(self).showing,
            final(self).deferred_save == old(self).deferred_save,
    {
        let overlays: Vec<String> = if picture == INVENTORY_PICTURE {
            self.picts.scott_overlays(PictureUsage::ObjectInInventory, &self.vm.carried)
        } else {
            let none: Vec<String> = Vec::new();
            assert(string_views(none@) =~= seq![]);
            none
        };
        let _ = self.set_band(Some(picture), overlays);
    }

    /// A result with a text, where the player is, and nothing else.
    fn turn(&self, transcript: String, quit: bool) -> (r: TurnResult)
        ensures
            plain_turn(r, self.vm, transcript@, quit),
            r.info is None,
            r.pending_io is None,
    {
        let mut r = TurnResult::default();
        r.transcript = transcript;
        r.quit = quit;
        r.location = self.snapshot_location();
        r
    }

    /// Where the player is.
    pub fn snapshot_location(&self) -> (r: Option<ObjectSnapshot>)
        ensures
            r matches Some(l) && l.number == self.vm.room && l.parent == 0 && l.name@
                == self.vm.room_name@,
    {
        Some(
            ObjectSnapshot {
                number: self.vm.room,
                parent: 0,
                name: self.vm.room_name.as_str().to_owned(),
            },
        )
    }

    /// Takes in a turn.
    ///
    /// A turn that shows no picture returns to the room: with a request to save, where the
    /// game asked for one, and with the prompt otherwise. A turn that shows pictures stops
    /// before each: its text is split where they stand, the first one is shown with the text
    /// before it, and the rest waits for keys. A picture that cannot be drawn stops nothing.
    pub fn submit(&mut self, out: ScottTurn) -> (r: TurnResult)
        requires
            old(self).wf(),
            old(self).pic_version < u64::MAX,
            in_text(out.shows@, out.transcript@.len() as int),
        ensures
            final(self).wf(),
            old(self).submitted(out, final(self), r),
    {
        let quit: bool = out.vm.quit;
        let save: bool = !quit && out.save_requested;
        let shows: Vec<PictureShow> = self.keep_drawable(&out.shows);
        self.vm = out.vm;
        if quit || shows.len() == 0 {
            self.refresh_picture();
            if save {
                let mut r: TurnResult = self.turn(out.transcript, quit);
                r.pending_io = Some(PendingIo::Save);
                return r;
            }
            let mut transcript: String = out.transcript;
            if !quit {
                transcript.append(PROMPT);
            }
            return self.turn(transcript, quit);
        }
        proof {
            let picts = old(self).picts;
            lemma_still_in_text(
                out.shows@,
                |s: PictureShow| picts.drawable@.contains(s.picture),
                out.transcript@.len() as int,
            );
        }
        self.deferred_save = save;
        let v: Vec<char> = to_chars(out.transcript.as_str());
        let first: usize = shows[0].output_len;
        assert(shows@[0].output_len <= v@.len());
        let first_text: String = from_chars(slice_chars(v.as_slice(), 0, first).as_slice());
        assert(first_text@ =~= out.transcript@.take(first as int));
        let mut steps: Vec<PendingShow> = Vec::new();
        let ghost goal = steps_of(out.transcript@, shows@);
        let mut i: usize = 0;
        while i < shows.len()
            invariant
                i <= shows@.len(),
                v@ == out.transcript@,
                in_text(shows@, v@.len() as int),
                goal == steps_of(out.transcript@, shows@),
                steps@.len() == i,
                forall|j: int| 0 <= j < i ==> (#[trigger] show_views(steps@)[j]) == goal[j],
            decreases shows.len() - i,
        {
            let ghost steps0 = steps@;
            let from: usize = shows[i].output_len;
            assert(shows@[i as int].output_len <= v@.len());
            let (to, next_picture): (usize, Option<u16>) = if i + 1 < shows.len() {
                assert(shows@[i as int].output_len <= shows@[i + 1].output_len);
                assert(shows@[i + 1].output_len <= v@.len());
                (shows[i + 1].output_len, Some(shows[i + 1].picture))
            } else {
                (v.len(), None)
            };
            let text: String = from_chars(slice_chars(v.as_slice(), from, to).as_slice());
            steps.push(PendingShow { text, next_picture });
            assert forall|j: int| 0 <= j < steps@.len() implies (#[trigger] show_views(steps@)[j])
                == goal[j] by {
                if j < steps0.len() {
                    assert(show_views(steps@)[j] == show_views(steps0)[j]);
                }
            }
            i = i + 1;
        }
        assert(show_views(steps@) =~= goal);
        self.showing = steps;
        self.show_sequence_picture(shows[0].picture);
        let mut r: TurnResult = self.turn(first_text, false);
        r.info = Some(PICTURE_SHOW_HINT.to_owned());
        r
    }

    /// Keeps the pictures that can be drawn.
    fn keep_drawable(&self, shows: &Vec<PictureShow>) -> (r: Vec<PictureShow>)
        ensures
            r@ == drawable_shows(shows@, self.picts),
    {
        let ghost p = |s: PictureShow| self.picts.drawable@.contains(s.picture);
        let mut out: Vec<PictureShow> = Vec::new();
        let mut i: usize = 0;
        proof {
            reveal(Seq::filter);
            assert(shows@.take(0).filter(p) =~= seq![]);
        }
        while i < shows.len()
            invariant
                i <= shows@.len(),
                p == (|s: PictureShow| self.picts.drawable@.contains(s.picture)),
                out@ == shows@.take(i as int).filter(p),
            decreases shows.len() - i,
        {
            proof {
                reveal(Seq::filter);
                assert(shows@.take(i + 1).drop_last() =~= shows@.take(i as int));
                assert(shows@.take(i + 1).last() == shows@[i as int]);
            }
            if among(&self.picts.drawable, shows[i].picture) {
                out.push(shows[i]);
            }
            i = i + 1;
        }
        assert(shows@.take(i as int) =~= shows@);
        out
    }

    /// Takes in a key while a sequence of pictures is shown; any key will do. Without a
    /// sequence there is no turn. The last key brings the room back, and with it the save
    /// that the game asked for, or the prompt.
    pub fn submit_key(&mut self) -> (r: Option<TurnResult>)
        requires
            old(self).wf(),
            old(self).pic_version < u64::MAX,
        ensures
            final(self).wf(),
            old(self).keyed(final(self), r),
    {
        if self.showing.len() == 0 {
            return None;
        }
        let ghost before = self.showing@;
        let step: PendingShow = self.showing.remove(0);
        assert(show_views(self.showing@) =~= show_views(before).drop_first());
        match step.next_picture {
            Some(picture) => {
                self.show_sequence_picture(picture);
                let mut r: TurnResult = self.turn(step.text, false);
                r.info = Some(PICTURE_SHOW_HINT.to_owned());
                Some(r)
            },
            None => {
                self.refresh_picture();
                let quit: bool = self.vm.quit;
                let saved: bool = self.deferred_save;
                self.deferred_save = false;
                let mut transcript: String = step.text;
                if saved && !quit {
                    let mut r: TurnResult = self.turn(transcript, quit);
                    r.pending_io = Some(PendingIo::Save);
                    return Some(r);
                }
                if !quit {
                    transcript.append(PROMPT);
                }
                Some(self.turn(transcript, quit))
            },
        }
    }

    /// Drains the opening text.
    pub fn take_transcript(&mut self) -> (r: String)
        ensures
            r == old(self).intro,
            final(self).intro@.len() == 0,
            *final(self) == (ScottSession { intro: final(self).intro, ..*old(self) }),
    {
        let mut r: String = String::new();
        std::mem::swap(&mut r, &mut self.intro);
        r
    }

    /// Which kind of input is waited for.
    pub fn pending_input(&self) -> (r: InputKind)
        ensures
            r == self.waits_for(),
    {
        if self.showing.len() == 0 {
            InputKind::Line
        } else {
            InputKind::Char
        }
    }

    /// Whether the game is over.
    pub fn has_quit(&self) -> (r: bool)
        ensures
            r == self.vm.quit,
    {
        self.vm.quit
    }

    /// Returns to the prompt after the game's own save, which ran to its end.
    pub fn resume_save(&self) -> (r: TurnResult)
        ensures
            plain_turn(r, self.vm, prompted(seq![], self.vm.quit), self.vm.quit),
            r.info is None,
            r.pending_io is None,
    {
        let mut transcript: String = String::new();
        assert(transcript@ =~= seq![]);
        if !self.vm.quit {
            transcript.append(PROMPT);
        }
        self.turn(transcript, self.vm.quit)
    }

    /// There is nothing to resume after a restore.
    pub fn resume_restore(&self) -> (r: TurnResult)
        ensures
            plain_turn(r, self.vm, seq![], self.vm.quit),
            r.info is None,
            r.pending_io is None,
    {
        let transcript: String = String::new();
        assert(transcript@ =~= seq![]);
        self.turn(transcript, self.vm.quit)
    }

    /// Tags a snapshot of the game as a save of this engine.
    pub fn save_state(snapshot: Vec<u8>) -> (r: EngineSave)
        ensures
            r.engine@ == SCOTT_ENGINE@,
            r.format == SCOTT_SAVE_FORMAT,
            r.bytes == snapshot,
    {
        EngineSave::new(SCOTT_ENGINE, SCOTT_SAVE_FORMAT, snapshot)
    }

    /// What a restore leaves behind, whether it worked or not: the game as it is now, no
    /// sequence of pictures and no save that waits for one, and the band of the room.
    pub open spec fn returned(&self, vm: ScottVm, after: &ScottSession) -> bool {
        &&& after.vm == vm
        &&& after.showing@.len() == 0
        &&& !after.deferred_save
        &&& self.banded(room_band(vm, self.picts), after)
        &&& self.same_but_show(after)
    }

    /// Takes note of a restored save. A save of another engine is refused, and the session
    /// stays as it is. `vm` is the game after the attempt, and `restored` what became of it.
    pub fn restore_state(&mut self, save: &EngineSave, vm: ScottVm, restored: Result<(), String>) -> (r:
        Result<(), EngineError>)
        requires
            old(self).wf(),
            old(self).pic_version < u64::MAX,
        ensures
            final(self).wf(),
            r is Ok <==> save.engine@ == SCOTT_ENGINE@ && restored is Ok,
            save.engine@ != SCOTT_ENGINE@ ==> *final(self) == *old(self) && (r matches Err(
                EngineError::EngineMismatch { expected, found },
            ) && expected@ == SCOTT_ENGINE@ && found@ == save.engine@),
            save.engine@ == SCOTT_ENGINE@ ==> old(self).returned(vm, final(self)) && (
            restored matches Err(why) ==> (r matches Err(EngineError::BadSave(text)) && text@
                == "bad Scott snapshot: "@ + why@)),
    {
        match save.check_engine(SCOTT_ENGINE) {
            Err(e) => {
                return Err(e);
            },
            Ok(()) => {},
        }
        self.return_to_room(vm);
        match restored {
            Ok(()) => Ok(()),
            Err(why) => {
                let mut text: String = "bad Scott snapshot: ".to_owned();
                text.append(why.as_str());
                Err(EngineError::BadSave(text))
            },
        }
    }

    /// Returns to the room after a restore.
    fn return_to_room(&mut self, vm: ScottVm)
        requires
            old(self).wf(),
            old(self).pic_version < u64::MAX,
        ensures
            final(self).wf(),
            old(self).returned(vm, final(self)),
    {
        self.vm = vm;
        self.showing = Vec::new();
        self.deferred_save = false;
        self.refresh_picture();
    }

    /// Takes note of a restored save of either format. `vm` is the game after the attempt,
    /// and `restored` what became of it.
    pub fn restore_game_save(
        &mut self,
        format: SaveFormat,
        vm: ScottVm,
        restored: Result<(), String>,
    ) -> (r: Result<(), EngineError>)
        requires
            old(self).wf(),
            old(self).pic_version < u64::MAX,
        ensures
            final(self).wf(),
            old(self).returned(vm, final(self)),
            r is Ok <==> restored is Ok,
            restored matches Err(why) ==> (r matches Err(EngineError::BadSave(text)) && text@ == (
            if format is Text {
                "bad ScottFree save: "@
            } else {
                "bad Scott snapshot: "@
            }) + why@),
    {
        self.return_to_room(vm);
        match restored {
            Ok(()) => Ok(()),
            Err(why) => {
                let mut text: String = match format {
                    SaveFormat::Text => "bad ScottFree save: ".to_owned(),
                    SaveFormat::Snapshot => "bad Scott snapshot: ".to_owned(),
                };
                text.append(why.as_str());
                Err(EngineError::BadSave(text))
            },
        }
    }

    /// Puts the game's own data, as it was kept, in place. Reading it back is no change of
    /// it by the game.
    pub fn set_aux_data(&mut self, data: Vec<(String, Vec<u8>)>)
        ensures
            *final(self) == (ScottSession { aux: data, ..*old(self) }),
    {
        self.aux = data;
    }

    /// The game's own data.
    pub fn aux_data(&self) -> (r: &Vec<(String, Vec<u8>)>)
        ensures
            *r == self.aux,
    {
        &self.aux
    }

    /// Whether the game changed its own data since it was last kept.
    pub fn aux_dirty(&self) -> (r: bool)
        ensures
            r == self.aux_dirty,
    {
        self.aux_dirty
    }

    /// Takes note that the game's own data was kept.
    pub fn clear_aux_dirty(&mut self)
        ensures
            *final(self) == (ScottSession { aux_dirty: false, ..*old(self) }),
    {
        self.aux_dirty = false;
    }
}

/// The format of a save.
#[derive(Clone, Copy, Debug, PartialEq, Eq, Structural)]
pub enum SaveFormat {
    /// A snapshot.
    Snapshot,
    /// A text of numbers.
    Text,
}

/// Tells the format of a save by its bytes: a text where it does not start as a snapshot
/// does and looks like one, and a snapshot otherwise.
pub fn save_format(bytes: &Vec<u8>, magic: &Vec<u8>, looks_like_text: bool) -> (r: SaveFormat)
    ensures
        r == (if looks_like_text && !(magic@.len() <= bytes@.len() && bytes@.take(
            magic@.len() as int,
        ) == magic@) {
            SaveFormat::Text
        } else {
            SaveFormat::Snapshot
        }),
{
    let mut is_snapshot: bool = magic.len() <= bytes.len();
    if is_snapshot {
        let mut i: usize = 0;
        let ghost head = bytes@.take(magic@.len() as int);
        while i < magic.len()
            invariant
                i <= magic@.len() <= bytes@.len(),
                head == bytes@.take(magic@.len() as int),
                is_snapshot == (forall|j: int| 0 <= j < i ==> #[trigger] head[j] == magic@[j]),
            decreases magic.len() - i,
        {
            if bytes[i] != magic[i] {
                is_snapshot = false;
                assert(head[i as int] != magic@[i as int]);
            }
            i = i + 1;
        }
        if is_snapshot {
            assert(head =~= magic@);
        }
    }
    if looks_like_text && !is_snapshot {
        SaveFormat::Text
    } else {
        SaveFormat::Snapshot
    }
}

/// Compares two lists of texts.
fn same_list(a: &Vec<String>, b: &Vec<String>) -> (r: bool)
    ensures
        r == (string_views(a@) == string_views(b@)),
{
    if a.len() != b.len() {
        assert(string_views(a@).len() != string_views(b@).len());
        return false;
    }
    let mut i: usize = 0;
    while i < a.len()
        invariant
            i <= a@.len() == b@.len(),
            forall|j: int| 0 <= j < i ==> (#[trigger] a@[j])@ == b@[j]@,
        decreases a.len() - i,
    {
        if !same_text(a[i].as_str(), b[i].as_str()) {
            assert(string_views(a@)[i as int] != string_views(b@)[i as int]);
            return false;
        }
        i = i + 1;
    }
    assert(string_views(a@) =~= string_views(b@));
    true
}

// ── The screen ────────────────────────────────────────────────────────────────
/// The parts of a text between its line feeds.
pub open spec fn split_at_feeds(s: Seq<char>) -> Seq<Seq<char>>
    decreases s.len(),
{
    let k = find_char(s, '\n');
    if 0 <= k < s.len() {
        seq![s.take(k)] + split_at_feeds(s.skip(k + 1))
    } else {
        seq![s]
    }
}

/// Builds the panel of the room: a line for each line of its description.
pub fn room_panel(block: &str) -> (r: BufferWindow)
    ensures
        r.is_plain(),
        r@ == (BufferView { panel: true, ..plain_buffer(split_at_feeds(block@)) }),
{
    let v: Vec<char> = to_chars(block);
    let mut lines: Vec<String> = Vec::new();
    let ghost goal = split_at_feeds(block@);
    let mut from: usize = 0;
    let mut at: usize = 0;
    assert(v@.skip(0) =~= block@);
    assert(string_views(lines@) + goal =~= goal);
    while at < v.len()
        invariant
            from <= at <= v@.len(),
            v@ == block@,
            forall|j: int| from <= j < at ==> #[trigger] v@[j] != '\n',
            string_views(lines@) + split_at_feeds(v@.skip(from as int)) == goal,
        decreases v.len() - at,
    {
        if v[at] == '\n' {
            let ghost rest = v@.skip(from as int);
            let ghost lines0 = lines@;
            proof {
                lemma_find_char(rest, '\n', at - from);
                assert(rest.take(at - from) =~= v@.subrange(from as int, at as int));
                assert(rest.skip(at - from + 1) =~= v@.skip(at + 1));
            }
            let line: String = from_chars(slice_chars(v.as_slice(), from, at).as_slice());
            let ghost text = line@;
            lines.push(line);
            assert(string_views(lines@) =~= string_views(lines0).push(text));
            assert(string_views(lines@) + split_at_feeds(v@.skip(at + 1)) =~= string_views(lines0)
                + (seq![text] + split_at_feeds(v@.skip(at + 1))));
            from = at + 1;
        }
        at = at + 1;
    }
    let ghost rest = v@.skip(from as int);
    let ghost lines0 = lines@;
    proof {
        lemma_find_char(rest, '\n', rest.len() as int);
        assert(rest =~= v@.subrange(from as int, v@.len() as int));
    }
    let line: String = from_chars(slice_chars(v.as_slice(), from, v.len()).as_slice());
    lines.push(line);
    assert(string_views(lines@) =~= string_views(lines0) + seq![rest]);
    let mut r: BufferWindow = BufferWindow::plain(lines);
    r.panel = true;
    r
}

/// The screen: the picture band, where there is one, above the panel of the room, above the
/// transcript.
pub open spec fn scott_screen(s: &ScottSession) -> ModelView {
    let lines = split_at_feeds(s.vm.room_block@);
    let panel = (
        (lines.len() % 0x1_0000) as u16,
        true,
        NodeView::Buffer(BufferView { panel: true, ..plain_buffer(lines) }),
    );
    let bands = match s.current_canvas {
        Some(c) => seq![
            (
                PICTURE_ROWS,
                true,
                NodeView::Graphics(
                    GraphicsView {
                        win: 1,
                        w: c.width,
                        h: c.height,
                        grid: c.grid(),
                        version: s.pic_version,
                        upscale: true,
                    },
                ),
            ),
            panel,
        ],
        None => seq![panel],
    };
    ModelView {
        root: LayoutView::Stacked(
            bands,
            NodeView::Buffer(BufferView { primary: true, ..plain_buffer(seq![]) }),
        ),
        status: StatusView::HostManaged,
        bg: 0,
        fg: 0,
        content_size: (0, 0),
    }
}

impl ScottSession {
    /// Builds the screen.
    pub fn screen(&self) -> (r: ScreenModel)
        requires
            self.wf(),
        ensures
            r@ == scott_screen(self),
            r.root.wf(),
    {
        let panel: BufferWindow = room_panel(self.vm.room_block.as_str());
        let rows: u16 = (panel.lines.len() % 0x1_0000) as u16;
        assert(string_views(panel.lines@).len() == panel.lines@.len());
        let mut bands: Vec<Band> = Vec::new();
        if let Some(c) = &self.current_canvas {
            bands.push(
                Band {
                    rows: PICTURE_ROWS,
                    border: true,
                    node: WinNode::Graphics(
                        GraphicsWindow {
                            win: 1,
                            canvas: c.copy(),
                            version: self.pic_version,
                            upscale: true,
                        },
                    ),
                },
            );
        }
        bands.push(Band { rows, border: true, node: WinNode::Buffer(panel) });
        let none: Vec<String> = Vec::new();
        assert(string_views(none@) =~= seq![]);
        let mut story: BufferWindow = BufferWindow::plain(none);
        story.primary = true;
        let r = ScreenModel {
            root: Layout::Stacked(bands, WinNode::Buffer(story)),
            status: StatusModel::HostManaged,
            bg: 0,
            fg: 0,
            content_size: (0, 0),
        };
        assert(r@.root->Stacked_0 =~~= scott_screen(self).root->Stacked_0);
        r
    }
}

// ── Laws ──────────────────────────────────────────────────────────────────────
/// The texts of the first `n` steps, one behind the other.
pub open spec fn step_texts(steps: Seq<(Seq<char>, Option<u16>)>, n: nat) -> Seq<char>
    decreases n,
{
    if n == 0 {
        seq![]
    } else {
        step_texts(steps, (n - 1) as nat) + steps[n - 1].0
    }
}

/// A sequence of pictures tells the whole turn: the text before the first picture and the
/// texts that the keys bring up are the turn's text, in order and with nothing lost.
pub proof fn a_sequence_tells_the_whole_turn(text: Seq<char>, shows: Seq<PictureShow>)
    requires
        shows.len() > 0,
        in_text(shows, text.len() as int),
    ensures
        text.take(shows[0].output_len as int) + step_texts(steps_of(text, shows), shows.len())
            == text,
{
    lemma_told(text, shows, shows.len());
    assert(text.take(text.len() as int) =~= text);
}

/// As [`a_sequence_tells_the_whole_turn`], up to a step.
proof fn lemma_told(text: Seq<char>, shows: Seq<PictureShow>, n: nat)
    requires
        shows.len() > 0,
        n <= shows.len(),
        in_text(shows, text.len() as int),
    ensures
        text.take(shows[0].output_len as int) + step_texts(steps_of(text, shows), n) == text.take(
            if n == 0 {
                shows[0].output_len as int
            } else {
                show_end(shows, n - 1, text.len() as int)
            },
        ),
    decreases n,
{
    assert(shows[0].output_len <= text.len());
    if n == 0 {
        assert(text.take(shows[0].output_len as int) + Seq::<char>::empty() =~= text.take(
            shows[0].output_len as int,
        ));
    } else {
        lemma_told(text, shows, (n - 1) as nat);
        let from = shows[n - 1].output_len as int;
        let to = show_end(shows, n - 1, text.len() as int);
        assert(shows[n - 1].output_len <= text.len());
        if n < shows.len() {
            assert(shows[n - 1].output_len <= shows[n as int].output_len);
            assert(shows[n as int].output_len <= text.len());
        }
        let before = step_texts(steps_of(text, shows), (n - 1) as nat);
        let head = text.take(shows[0].output_len as int);
        assert(head + (before + text.subrange(from, to)) =~= (head + before) + text.subrange(
            from,
            to,
        ));
        assert(text.take(from) + text.subrange(from, to) =~= text.take(to));
    }
}

/// A sequence of pictures has a step for each picture, only the last of which leads back to
/// the room: every key but the last brings up the next picture.
pub proof fn only_the_last_key_returns(text: Seq<char>, shows: Seq<PictureShow>, i: int)
    requires
        0 <= i < shows.len(),
    ensures
        steps_of(text, shows).len() == shows.len(),
        steps_of(text, shows)[i].1 is None <==> i == shows.len() - 1,
        i + 1 < shows.len() ==> steps_of(text, shows)[i].1 == Some(shows[i + 1].picture),
{
}

/// The texts that the first `n` keys of a sequence brought up, one behind the other.
pub open spec fn key_texts(keys: Seq<Option<TurnResult>>, n: nat) -> Seq<char>
    decreases n,
{
    if n == 0 {
        seq![]
    } else {
        key_texts(keys, (n - 1) as nat) + keys[n - 1]->0.transcript@
    }
}

/// Whether a turn that goes on was taken in, and a key for each of the pictures that it
/// shows: `states` are the sessions after the turn and after each key, and `first` and
/// `keys` what was reported of them.
pub open spec fn played_out(
    before: ScottSession,
    out: ScottTurn,
    states: Seq<ScottSession>,
    first: TurnResult,
    keys: Seq<Option<TurnResult>>,
) -> bool {
    &&& in_text(out.shows@, out.transcript@.len() as int)
    &&& !out.vm.quit
    &&& keys.len() == drawable_shows(out.shows@, before.picts).len()
    &&& keys.len() > 0
    &&& states.len() == keys.len() + 1
    &&& before.submitted(out, &states[0], first)
    &&& forall|i: int|
        0 <= i < keys.len() ==> states[i].keyed(&states[i + 1], #[trigger] keys[i])
}

/// A turn that shows pictures takes one key for each, and comes to the same as one that
/// shows none: what it and its keys report is the turn's text, and then once the prompt, or
/// the save that the game asked for. Every result but the last names the way on; after the
/// last, a line is waited for and a key does nothing.
pub proof fn a_turn_is_told_by_its_keys(
    before: ScottSession,
    out: ScottTurn,
    states: Seq<ScottSession>,
    first: TurnResult,
    keys: Seq<Option<TurnResult>>,
)
    requires
        played_out(before, out, states, first, keys),
    ensures
        forall|i: int| 0 <= i < keys.len() ==> (#[trigger] keys[i]) is Some,
        first.transcript@ + key_texts(keys, keys.len()) == out.transcript@ + (
        if out.save_requested {
            seq![]
        } else {
            PROMPT@
        }),
        first.info is Some && first.pending_io is None,
        forall|i: int|
            0 <= i < keys.len() - 1 ==> (#[trigger] keys[i])->0.info is Some
                && keys[i]->0.pending_io is None,
        keys.last()->0.info is None,
        keys.last()->0.pending_io == (if out.save_requested {
            Some(PendingIo::Save)
        } else {
            None
        }),
        states.last().waits_for() == InputKind::Line,
        forall|after: ScottSession, r: Option<TurnResult>| #[trigger]
            states.last().keyed(&after, r) ==> r is None,
{
    let k = keys.len();
    let text = out.transcript@;
    let shows = drawable_shows(out.shows@, before.picts);
    let steps = steps_of(text, shows);
    let picts = before.picts;
    lemma_still_in_text(
        out.shows@,
        |s: PictureShow| picts.drawable@.contains(s.picture),
        text.len() as int,
    );
    a_sequence_tells_the_whole_turn(text, shows);
    lemma_keys(before, out, states, first, keys, k);
    lemma_keys(before, out, states, first, keys, (k - 1) as nat);
    assert forall|i: int| 0 <= i < k implies (#[trigger] keys[i]) is Some && (i < k - 1
        ==> keys[i]->0.info is Some && keys[i]->0.pending_io is None) by {
        lemma_keys(before, out, states, first, keys, i as nat);
        assert(steps.skip(i)[0] == steps[i]);
        assert(states[i].keyed(&states[i + 1], keys[i]));
    }
    assert(steps.skip(k - 1)[0] == steps[k - 1]);
    assert(states[k - 1].keyed(&states[k as int], keys[k - 1]));
    let head = text.take(shows[0].output_len as int);
    let tail = if out.save_requested {
        seq![]
    } else {
        PROMPT@
    };
    assert(first.transcript@ + key_texts(keys, k) =~= head + step_texts(steps, k) + tail);
}

/// As [`a_turn_is_told_by_its_keys`], after `n` keys.
proof fn lemma_keys(
    before: ScottSession,
    out: ScottTurn,
    states: Seq<ScottSession>,
    first: TurnResult,
    keys: Seq<Option<TurnResult>>,
    n: nat,
)
    requires
        played_out(before, out, states, first, keys),
        n <= keys.len(),
    ensures
        ({
            let steps = steps_of(out.transcript@, drawable_shows(out.shows@, before.picts));
            let s = states[n as int];
            &&& steps.len() == keys.len()
            &&& show_views(s.showing@) == steps.skip(n as int)
            &&& s.showing@.len() == keys.len() - n
            &&& s.vm == out.vm
            &&& n < keys.len() ==> s.deferred_save == out.save_requested
            &&& key_texts(keys, n) == step_texts(steps, n) + (if n == keys.len()
                && !out.save_requested {
                PROMPT@
            } else {
                seq![]
            })
        }),
    decreases n,
{
    let steps = steps_of(out.transcript@, drawable_shows(out.shows@, before.picts));
    if n == 0 {
        assert(steps.skip(0) =~= steps);
        assert(states[0].showing@.len() == show_views(states[0].showing@).len());
        assert(key_texts(keys, 0) =~= step_texts(steps, 0) + Seq::<char>::empty());
    } else {
        let i = (n - 1) as nat;
        lemma_keys(before, out, states, first, keys, i);
        assert(states[i as int].keyed(&states[n as int], keys[i as int]));
        assert(steps.skip(i as int)[0] == steps[i as int]);
        assert(steps.skip(i as int).drop_first() =~= steps.skip(n as int));
        let s = states[n as int];
        assert(s.showing@.len() == show_views(s.showing@).len());
        let end = if n == keys.len() && !out.save_requested {
            PROMPT@
        } else {
            seq![]
        };
        assert(keys[i as int]->0.transcript@ =~= steps[i as int].0 + end);
        assert(key_texts(keys, n) =~= step_texts(steps, n) + end);
    }
}

/// Pictures that cannot be drawn never stop the game: without one that can, a turn is as it
/// would be with none.
pub proof fn undrawable_pictures_stop_nothing(shows: Seq<PictureShow>, picts: ScottPicts)
    requires
        forall|i: int|
            0 <= i < shows.len() ==> !picts.drawable@.contains((#[trigger] shows[i]).picture),
    ensures
        drawable_shows(shows, picts).len() == 0,
    decreases shows.len(),
{
    reveal(Seq::filter);
    if shows.len() > 0 {
        let front = shows.drop_last();
        assert forall|i: int| 0 <= i < front.len() implies !picts.drawable@.contains(
            (#[trigger] front[i]).picture,
        ) by {
            assert(front[i] == shows[i]);
        }
        undrawable_pictures_stop_nothing(front, picts);
        assert(!picts.drawable@.contains(shows[shows.len() - 1].picture));
    }
}

/// Nothing is drawn over the darkness.
pub proof fn the_darkness_stands_alone(vm: ScottVm, picts: ScottPicts)
    requires
        vm.dark,
    ensures
        room_band(vm, picts).overlays.len() == 0,
        vm.dos_pictures && vm.current_picture is None ==> room_band(vm, picts).picture == Some(
            DARKNESS_PICTURE,
        ),
{
}

/// Where a game's pictures come from: a container beside the story before all else; then the
/// picture files of the release that the database belongs to; then what the story itself
/// holds. Pictures come from nowhere only where there are none.
pub proof fn the_first_source_of_pictures_counts(f: ArtFacts)
    ensures
        art_source(f) is Container <==> f.has_container,
        art_source(f) is Saga ==> f.has_picture_files && f.saga_release,
        art_source(f) is SagaDos ==> f.has_picture_files && f.dos_release && !f.saga_release,
        art_source(f) is Zx ==> f.zx_lists,
        art_source(f) is C64 ==> f.c64_lists && !f.zx_lists,
        art_source(f) is Zx || art_source(f) is C64 ==> !(f.has_picture_files && (f.saga_release
            || f.dos_release)),
        art_source(f) is Nowhere ==> !f.has_container && !(f.has_picture_files && f.saga_release)
            && !(f.has_picture_files && f.dos_release) && !f.zx_lists && !f.c64_lists,
{
}

/// A turn that shows no picture reports its whole text, with the prompt behind it unless the
/// game is over or waits to be saved, and where the player is now; the save that it asked for
/// is handed to the host unless the game is over.
pub proof fn a_turn_without_pictures_reports_its_text(
    before: ScottSession,
    out: ScottTurn,
    after: ScottSession,
    r: TurnResult,
)
    requires
        before.submitted(out, &after, r),
        out.vm.quit || forall|i: int|
            0 <= i < out.shows@.len() ==> !before.picts.drawable@.contains(
                (#[trigger] out.shows@[i]).picture,
            ),
    ensures
        r.location matches Some(l) && l.number == out.vm.room && l.name@ == out.vm.room_name@,
        r.quit == out.vm.quit,
        out.vm.quit || out.save_requested ==> r.transcript@ == out.transcript@,
        !out.vm.quit && !out.save_requested ==> r.transcript@ == out.transcript@ + PROMPT@,
        r.pending_io is Some <==> out.save_requested && !out.vm.quit,
        r.pending_io matches Some(io) ==> io is Save,
        r.info is None,
        after.vm == out.vm,
        after.showing == before.showing,
        after.aux == before.aux,
        after.aux_dirty == before.aux_dirty,
        after.picts == before.picts,
        after.intro == before.intro,
        after.current_pic_num == room_band(out.vm, before.picts).picture,
        string_views(after.current_overlays@) == room_band(out.vm, before.picts).overlays,
{
    if !out.vm.quit {
        undrawable_pictures_stop_nothing(out.shows@, before.picts);
    }
    assert(after.band().picture == room_band(out.vm, before.picts).picture);
    assert(after.band().overlays == room_band(out.vm, before.picts).overlays);
}

/// A turn that shows pictures shows the first that can be drawn, and reports the text before
/// it, where the player is, and that a key goes on.
pub proof fn a_turn_with_pictures_stops_at_the_first(
    before: ScottSession,
    out: ScottTurn,
    after: ScottSession,
    r: TurnResult,
    k: int,
)
    requires
        before.submitted(out, &after, r),
        !out.vm.quit,
        0 <= k < out.shows@.len(),
        before.picts.drawable@.contains(out.shows@[k].picture),
        forall|i: int|
            0 <= i < k ==> !before.picts.drawable@.contains((#[trigger] out.shows@[i]).picture),
    ensures
        r.transcript@ == out.transcript@.take(out.shows@[k].output_len as int),
        r.location matches Some(l) && l.number == out.vm.room && l.name@ == out.vm.room_name@,
        !r.quit,
        r.pending_io is None,
        r.info matches Some(hint) && hint@ == PICTURE_SHOW_HINT@,
        after.current_pic_num == Some(out.shows@[k].picture),
        after.waits_for() is Char,
        after.vm == out.vm,
        after.deferred_save == out.save_requested,
{
    lemma_first_drawable(out.shows@, before.picts, k);
    let shows = drawable_shows(out.shows@, before.picts);
    assert(after.band().picture == Some(shows[0].picture));
    assert(show_views(after.showing@).len() == after.showing@.len());
    assert(steps_of(out.transcript@, shows).len() == shows.len());
}

/// The first picture that can be drawn comes first among those that can.
proof fn lemma_first_drawable(shows: Seq<PictureShow>, picts: ScottPicts, k: int)
    requires
        0 <= k < shows.len(),
        picts.drawable@.contains(shows[k].picture),
        forall|i: int| 0 <= i < k ==> !picts.drawable@.contains((#[trigger] shows[i]).picture),
    ensures
        drawable_shows(shows, picts).len() > 0,
        drawable_shows(shows, picts)[0] == shows[k],
    decreases shows.len(),
{
    reveal(Seq::filter);
    let front = shows.drop_last();
    if k == shows.len() - 1 {
        assert forall|i: int| 0 <= i < front.len() implies !picts.drawable@.contains(
            (#[trigger] front[i]).picture,
        ) by {
            assert(front[i] == shows[i]);
        }
        undrawable_pictures_stop_nothing(front, picts);
    } else {
        assert(front[k] == shows[k]);
        assert forall|i: int| 0 <= i < k implies !picts.drawable@.contains(
            (#[trigger] front[i]).picture,
        ) by {
            assert(front[i] == shows[i]);
        }
        lemma_first_drawable(front, picts, k);
        let f = drawable_shows(front, picts);
        assert(drawable_shows(shows, picts)[0] == f[0]);
    }
}

/// The band of a room shows the picture that the game asks for. The plain-text release shows
/// its own picture where the game asks for the room's, and the darkness where it asks for
/// none.
pub proof fn a_band_shows_the_room(vm: ScottVm, picts: ScottPicts)
    ensures
        !vm.dos_pictures ==> room_band(vm, picts).picture == vm.current_picture,
        vm.dos_pictures && vm.current_picture is None ==> room_band(vm, picts).picture == Some(
            0u16,
        ),
        vm.dos_pictures && vm.current_picture == Some(vm.room) ==> room_band(vm, picts).picture
            == Some(vm.dos_room_picture),
        vm.dos_pictures && vm.current_picture is Some && vm.current_picture != Some(vm.room)
            ==> room_band(vm, picts).picture == vm.current_picture,
{
}

/// What is drawn over a room are the pictures of what lies in it, and nothing else: each is
/// the file of an object that lies there, or of the room itself where the release has one;
/// and of each such object the file is drawn.
pub proof fn what_lies_in_a_room_is_drawn(vm: ScottVm, picts: ScottPicts, name: Seq<char>)
    requires
        !vm.dark,
        vm.release is Some,
    ensures
        room_band(vm, picts).overlays.contains(name) <==> exists|i: int|
            0 <= i < picts.records@.len() && (#[trigger] picts.records@[i]).name@ == name
                && picts.records@[i].usage is ObjectInRoom && (vm.pictures_here@.contains(
                picts.records@[i].index,
            ) || vm.saga_database && vm.room_overlay == Some(picts.records@[i].index)),
{
    let here = here_indices(vm);
    assert forall|n: u16| #[trigger] here.contains(n) <==> vm.pictures_here@.contains(n)
        || vm.saga_database && vm.room_overlay == Some(n) by {
        if vm.saga_database && vm.room_overlay is Some {
            let v = vm.pictures_here@;
            assert(here[v.len() as int] == vm.room_overlay->0);
            if v.contains(n) {
                let k = choose|k: int| 0 <= k < v.len() && v[k] == n;
                assert(here[k] == n);
            }
        }
    }
    lemma_overlays(picts.records@, PictureUsage::ObjectInRoom, here, name);
}

/// What is drawn over the picture of what is carried are the files of the objects that are
/// carried; over any other picture of a sequence nothing is drawn.
pub proof fn what_is_carried_is_drawn(
    vm: ScottVm,
    picts: ScottPicts,
    picture: u16,
    name: Seq<char>,
)
    ensures
        show_band(vm, picts, picture).picture == Some(picture),
        picture != 98 ==> show_band(vm, picts, picture).overlays.len() == 0,
        picture == 98 ==> (show_band(vm, picts, picture).overlays.contains(name) <==> exists|i: int|
            0 <= i < picts.records@.len() && (#[trigger] picts.records@[i]).name@ == name
                && picts.records@[i].usage is ObjectInInventory && vm.carried@.contains(
                picts.records@[i].index,
            )),
{
    lemma_overlays(picts.records@, PictureUsage::ObjectInInventory, vm.carried@, name);
}

/// Which files of objects are drawn.
proof fn lemma_overlays(
    records: Seq<ObjectRecord>,
    usage: PictureUsage,
    indices: Seq<u16>,
    name: Seq<char>,
)
    ensures
        overlay_names(records, usage, indices).contains(name) <==> exists|i: int|
            0 <= i < records.len() && (#[trigger] records[i]).name@ == name && records[i].usage
                == usage && indices.contains(records[i].index),
{
    let p = |r: ObjectRecord| r.usage == usage && indices.contains(r.index);
    let f = |r: ObjectRecord| r.name@;
    let picked = records.filter(p);
    let names = picked.map_values(f);
    if names.contains(name) {
        let k = choose|k: int| 0 <= k < names.len() && names[k] == name;
        assert(names[k] == f(picked[k]));
        records.lemma_filter_pred(p, k);
        assert(picked.contains(picked[k]));
        records.lemma_filter_contains_rev(p, picked[k]);
        let i = choose|i: int| 0 <= i < records.len() && records[i] == picked[k];
        assert(records[i].name@ == name);
    }
    if exists|i: int|
        0 <= i < records.len() && (#[trigger] records[i]).name@ == name && records[i].usage == usage
            && indices.contains(records[i].index) {
        let i = choose|i: int|
            0 <= i < records.len() && (#[trigger] records[i]).name@ == name && records[i].usage
                == usage && indices.contains(records[i].index);
        assert(p(records[i]));
        records.lemma_filter_contains(p, i);
        let k = choose|k: int| 0 <= k < picked.len() && picked[k] == records[i];
        assert(names[k] == name);
    }
}

/// A band that stays the same stays as it is drawn; one that changes has to be drawn again,
/// and says so.
pub proof fn a_changed_band_is_drawn_again(
    before: ScottSession,
    after: ScottSession,
    want: BandWish,
)
    requires
        before.banded(want, &after),
    ensures
        after.current_pic_num == want.picture,
        string_views(after.current_overlays@) == want.overlays,
        before.current_pic_num == want.picture && string_views(before.current_overlays@)
            == want.overlays ==> after.current_canvas == before.current_canvas && after.pic_version
            == before.pic_version,
        before.current_pic_num != want.picture || string_views(before.current_overlays@)
            != want.overlays ==> after.current_canvas is None && after.pic_version
            > before.pic_version,
{
    assert(after.band().picture == want.picture);
    assert(after.band().overlays == want.overlays);
    if before.current_pic_num == want.picture && string_views(before.current_overlays@)
        == want.overlays {
        assert(before.band() =~= want);
    } else {
        assert(before.band().picture == before.current_pic_num);
        assert(before.band().overlays == string_views(before.current_overlays@));
    }
}

/// A key goes on with the sequence of pictures: it brings up the text of the first step that
/// is left, and its picture, or the room where the sequence is over; and the player is where
/// the game says.
pub proof fn a_key_brings_up_the_next_step(
    before: ScottSession,
    after: ScottSession,
    r: Option<TurnResult>,
)
    requires
        before.keyed(&after, r),
        before.showing@.len() > 0,
    ensures
        r is Some,
        (r->0).location matches Some(l) && l.number == before.vm.room && l.name@
            == before.vm.room_name@,
        after.showing@.len() == before.showing@.len() - 1,
        before.showing@[0].next_picture matches Some(p) ==> after.current_pic_num == Some(p)
            && r->0.transcript@ == before.showing@[0].text@ && r->0.info is Some && !r->0.quit,
        before.showing@[0].next_picture is None ==> after.current_pic_num == room_band(
            before.vm,
            before.picts,
        ).picture && r->0.info is None && r->0.quit == before.vm.quit,
        before.showing@[0].next_picture is None && !before.vm.quit && !before.deferred_save
            ==> r->0.transcript@ == before.showing@[0].text@ + PROMPT@ && r->0.pending_io is None,
        before.showing@[0].next_picture is None && !before.vm.quit && before.deferred_save
            ==> r->0.transcript@ == before.showing@[0].text@ && r->0.pending_io == Some(
            PendingIo::Save,
        ),
        after.vm == before.vm,
        after.aux == before.aux,
        after.intro == before.intro,
{
    let v = show_views(before.showing@);
    assert(v.len() == before.showing@.len());
    assert(v[0] == (before.showing@[0].text@, before.showing@[0].next_picture));
    assert(show_views(after.showing@).len() == after.showing@.len());
    match before.showing@[0].next_picture {
        Some(p) => {
            assert(after.band().picture == Some(p));
        },
        None => {
            assert(after.band().picture == room_band(before.vm, before.picts).picture);
        },
    }
}

/// After a restore no sequence of pictures and no save is left over, and the band shows the
/// room that the game is in.
pub proof fn a_restore_returns_to_the_room(
    before: ScottSession,
    vm: ScottVm,
    after: ScottSession,
)
    requires
        before.returned(vm, &after),
    ensures
        after.vm == vm,
        after.waits_for() is Line,
        !after.deferred_save,
        after.current_pic_num == room_band(vm, before.picts).picture,
        string_views(after.current_overlays@) == room_band(vm, before.picts).overlays,
        after.aux == before.aux,
        after.picts == before.picts,
        after.intro == before.intro,
{
    assert(after.band().picture == room_band(vm, before.picts).picture);
    assert(after.band().overlays == room_band(vm, before.picts).overlays);
}

/// A game starts in its first room: with the opening text and the prompt behind it unless it
/// is over at once, the band of the room, and nothing of its own kept yet.
pub proof fn a_game_starts_in_its_first_room(
    s: ScottSession,
    vm: ScottVm,
    opening: Seq<char>,
    picts: ScottPicts,
)
    requires
        s.started(vm, opening, picts),
    ensures
        s.vm == vm,
        vm.quit ==> s.intro@ == opening,
        !vm.quit ==> s.intro@ == opening + PROMPT@,
        s.current_pic_num == room_band(vm, picts).picture,
        string_views(s.current_overlays@) == room_band(vm, picts).overlays,
        s.waits_for() is Line,
        s.aux@.len() == 0,
        !s.aux_dirty,
        !s.deferred_save,
{
    assert(s.band().picture == room_band(vm, picts).picture);
    assert(s.band().overlays == room_band(vm, picts).overlays);
}

/// Some lines, one behind the other, with a line feed between each two.
pub open spec fn with_feeds(lines: Seq<Seq<char>>) -> Seq<char>
    decreases lines.len(),
{
    if lines.len() == 0 {
        seq![]
    } else if lines.len() == 1 {
        lines[0]
    } else {
        lines[0] + seq!['\n'] + with_feeds(lines.drop_first())
    }
}

/// The lines of a text are the text: put together again they give it, and none holds a line
/// feed.
pub proof fn the_lines_of_a_text_are_the_text(s: Seq<char>)
    ensures
        split_at_feeds(s).len() > 0,
        with_feeds(split_at_feeds(s)) == s,
        forall|i: int|
            0 <= i < split_at_feeds(s).len() ==> !(#[trigger] split_at_feeds(s)[i]).contains('\n'),
    decreases s.len(),
{
    lemma_first_feed(s);
    let k = find_char(s, '\n');
    let v = split_at_feeds(s);
    if 0 <= k < s.len() {
        the_lines_of_a_text_are_the_text(s.skip(k + 1));
        let rest = split_at_feeds(s.skip(k + 1));
        assert(v.drop_first() =~= rest);
        assert(with_feeds(v) =~= s);
        assert forall|i: int| 0 <= i < v.len() implies !(#[trigger] v[i]).contains('\n') by {
            if i > 0 {
                assert(v[i] == rest[i - 1]);
            } else if v[0].contains('\n') {
                let j = choose|j: int| 0 <= j < v[0].len() && v[0][j] == '\n';
                assert(s[j] == '\n');
            }
        }
    }
}

/// Before the first line feed there is none.
proof fn lemma_first_feed(s: Seq<char>)
    ensures
        0 <= find_char(s, '\n') <= s.len(),
        find_char(s, '\n') < s.len() ==> s[find_char(s, '\n')] == '\n',
        forall|i: int| 0 <= i < find_char(s, '\n') ==> s[i] != '\n',
    decreases s.len(),
{
    if s.len() > 0 && s.first() != '\n' {
        let t = s.drop_first();
        lemma_first_feed(t);
        let k = find_char(s, '\n');
        assert forall|i: int| 0 <= i < k implies s[i] != '\n' by {
            if i > 0 {
                assert(t[i - 1] == s[i]);
            }
        }
        if k < s.len() {
            assert(s[k] == t[k - 1]);
        }
    }
}

/// The screen of a game shows, from the top: the picture of its band, once it is drawn, in 16
/// rows; the description of the room, line for line; and a window that the host fills with the
/// transcript.
pub proof fn a_screen_shows_the_band_and_the_room(r: &ScreenModel, s: &ScottSession)
    requires
        r@ == scott_screen(s),
    ensures
        r.root matches Layout::Stacked(bands, rest) && {
            let n = bands@.len() as int;
            &&& n == (if s.current_canvas is Some {
                2int
            } else {
                1int
            })
            &&& s.current_canvas matches Some(c) ==> bands@[0].rows == 16 && (
            bands@[0].node matches WinNode::Graphics(g) && g.canvas.grid() == c.grid()
                && g.canvas.width == c.width && g.canvas.height == c.height && g.version
                == s.pic_version && g.upscale)
            &&& bands@[n - 1].node matches WinNode::Buffer(b) && b.panel && !b.primary && with_feeds(
                string_views(b.lines@),
            ) == s.vm.room_block@ && (b.lines@.len() <= 0xffff ==> bands@[n - 1].rows
                == b.lines@.len())
            &&& rest matches WinNode::Buffer(b) && b.primary && !b.panel && b.lines@.len() == 0
        },
        r.status is HostManaged,
{
    the_lines_of_a_text_are_the_text(s.vm.room_block@);
    if let Layout::Stacked(bands, rest) = r.root {
        let views = crate::model::band_views(bands@);
        let n = bands@.len() as int;
        assert(views.len() == n);
        assert(views[n - 1] == (bands@[n - 1].rows, bands@[n - 1].border, bands@[n - 1].node@));
        assert(views[0] == (bands@[0].rows, bands@[0].border, bands@[0].node@));
        if let WinNode::Buffer(b) = bands@[n - 1].node {
            assert(string_views(b.lines@).len() == b.lines@.len());
        }
        if let WinNode::Buffer(b) = rest {
            assert(string_views(b.lines@).len() == b.lines@.len());
        }
    } else {
        assert(false);
    }
}

/// What is drawn over a picture is drawn in the order in which the files were gathered: what
/// a list gives is what its parts give, one after the other, and a file is drawn under its
/// name where it is of the kind and of an object that is asked for.
pub proof fn overlays_are_drawn_in_order(
    a: Seq<ObjectRecord>,
    b: Seq<ObjectRecord>,
    r: ObjectRecord,
    usage: PictureUsage,
    indices: Seq<u16>,
)
    ensures
        overlay_names(a + b, usage, indices) == overlay_names(a, usage, indices) + overlay_names(
            b,
            usage,
            indices,
        ),
        overlay_names(seq![r], usage, indices) == (if r.usage == usage && indices.contains(r.index) {
            seq![r.name@]
        } else {
            seq![]
        }),
{
    let p = |r: ObjectRecord| r.usage == usage && indices.contains(r.index);
    let f = |r: ObjectRecord| r.name@;
    Seq::filter_distributes_over_add(a, b, p);
    assert(overlay_names(a + b, usage, indices) =~= overlay_names(a, usage, indices)
        + overlay_names(b, usage, indices));
    reveal(Seq::filter);
    let one = seq![r];
    assert(one.drop_last() =~= seq![]);
    assert(one.drop_last().filter(p) =~= seq![]);
    assert(one.last() == r);
    if p(r) {
        assert(one.filter(p) =~= seq![r]);
        assert(overlay_names(one, usage, indices) =~= seq![r.name@]);
    } else {
        assert(overlay_names(one, usage, indices) =~= seq![]);
    }
}

} // verus!
