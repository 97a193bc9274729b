//! Saving a session's screen and reading it back.

use crate::art::{bytes_view, image_in, png_of, png_sized, read_back};
use crate::canvas::{count_on, Canvas, CanvasView};
use crate::layers::{GroundView, LayersView};
use crate::oplist::{copy_ops, replayed, V6Op, V6_OPS_CAP};
use crate::order::{stamp_order, the_order_follows_the_stamps};
use crate::pacing::{redrawing_shows_the_display_list, replay_into_scratch};
use crate::pict::{art_in, source_wf, PictSource};
use crate::raster::{Grid, Raster};
use crate::saves::{
    all_fit, anchors_end, draw_stamps, encodable, encoded, faithful, full_below, longest_below,
    ops_views, paint_order, png_views, saved_anchors, saved_fills, DisplayListDto, OpsView,
    V6LayersDto, V6WindowOpsDto,
};
use crate::session::GameSession;
use crate::text::{push_dec, string_views};
use crate::windows::WINDOW_NUMBERS;
use vstd::prelude::*;

verus! {

/// A palette, as a model.
pub open spec fn palette_view(o: Option<Vec<u8>>) -> Option<Seq<u8>> {
    match o {
        Some(v) => Some(v@),
        None => None,
    }
}

/// The current palette of a source that may be missing.
pub open spec fn palette_in(src: Option<PictSource>) -> Option<Seq<u8>> {
    match src {
        Some(s) => palette_view(s.palette),
        None => None,
    }
}

/// Copies a palette.
fn copy_palette(o: &Option<Vec<u8>>) -> (r: Option<Vec<u8>>)
    ensures
        palette_view(r) == palette_view(*o),
{
    match o {
        Some(v) => {
            let mut r: Vec<u8> = Vec::new();
            let mut i: usize = 0;
            while i < v.len()
                invariant
                    i <= v@.len(),
                    r@ == v@.take(i as int),
                decreases v.len() - i,
            {
                r.push(v[i]);
                assert(v@.take(i + 1) =~= v@.take(i as int).push(v@[i as int]));
                i = i + 1;
            }
            assert(v@.take(i as int) =~= v@);
            Some(r)
        },
        None => None,
    }
}

/// Tests whether a list holds a window.
fn holds(wins: &Vec<u8>, win: u8) -> (r: bool)
    ensures
        r == wins@.contains(win),
{
    let mut i: usize = 0;
    while i < wins.len()
        invariant
            i <= wins@.len(),
            forall|j: int| 0 <= j < i ==> #[trigger] wins@[j] != win,
        decreases wins.len() - i,
    {
        if wins[i] == win {
            assert(wins@[i as int] == win);
            return true;
        }
        i = i + 1;
    }
    false
}

/// The encoded pictures of some windows, in the order of all.
pub open spec fn chosen(blobs: Seq<(u8, Seq<u8>)>, wins: Seq<u8>) -> Seq<(u8, Seq<u8>)> {
    blobs.filter(|b: (u8, Seq<u8>)| wins.contains(b.0))
}

impl GameSession {
    /// The painted ground of the screen.
    pub fn paint_surface(&self) -> (r: Option<&Raster>)
        ensures
            r == (match &self.layers.paint {
                Some(p) => Some(p),
                None => None,
            }),
    {
        match &self.layers.paint {
            Some(p) => Some(p),
            None => None,
        }
    }

    /// The pictures on the screen, under the current palette.
    pub open spec fn art(&self) -> Map<u16, Grid> {
        art_in(self.pict_source, self.layers.art_scale)
    }

    /// Encodes the canvas of every window, from the back to the front.
    pub fn pictures_png(&self) -> (r: Vec<(u8, Vec<u8>)>)
        requires
            self.wf(),
            all_fit(self.layers@.canvases),
        ensures
            png_views(r@) == encoded(self.layers@.canvases, paint_order(self.layers@.canvases)),
            faithful(self.layers@.canvases, png_views(r@)),
            encodable(self.layers@.canvases, paint_order(self.layers@.canvases)),
    {
        self.layers.pictures_png()
    }

    /// Encodes the canvases of some windows, from the back to the front.
    pub fn pictures_png_for(&self, wins: &Vec<u8>) -> (r: Vec<(u8, Vec<u8>)>)
        requires
            self.wf(),
            all_fit(self.layers@.canvases),
        ensures
            png_views(r@) == chosen(
                encoded(self.layers@.canvases, paint_order(self.layers@.canvases)),
                wins@,
            ),
            faithful(self.layers@.canvases, png_views(r@)),
            encodable(self.layers@.canvases, paint_order(self.layers@.canvases)),
    {
        let all: Vec<(u8, Vec<u8>)> = self.pictures_png();
        let ghost views = png_views(all@);
        let ghost p = |b: (u8, Seq<u8>)| wins@.contains(b.0);
        let mut rest: Vec<(u8, Vec<u8>)> = all;
        let mut out: Vec<(u8, Vec<u8>)> = Vec::new();
        let mut n: Ghost<int> = Ghost(0);
        assert(views.take(0) =~= seq![]);
        assert(views.take(0).filter(p) =~= seq![]) by {
            reveal(Seq::filter);
        }
        assert(png_views(out@) =~= seq![]);
        while rest.len() > 0
            invariant
                0 <= n@ <= views.len(),
                png_views(rest@) == views.skip(n@),
                p == (|b: (u8, Seq<u8>)| wins@.contains(b.0)),
                png_views(out@) == views.take(n@).filter(p),
                faithful(self.layers@.canvases, views),
                faithful(self.layers@.canvases, png_views(out@)),
            decreases rest.len(),
        {
            let ghost rest0 = rest@;
            let (win, bytes) = rest.remove(0);
            let ghost out0 = out@;
            proof {
                assert(png_views(rest0).len() == rest0.len());
                assert(views.skip(n@).len() == views.len() - n@);
                assert(png_views(rest0)[0] == (win, bytes@));
                assert(views.skip(n@)[0] == views[n@]);
                assert(views[n@] == (win, bytes@));
                assert(png_views(rest@) =~= views.skip(n@ + 1)) by {
                    assert forall|i: int| 0 <= i < rest@.len() implies png_views(rest@)[i]
                        == views.skip(n@ + 1)[i] by {
                        assert(rest@[i] == rest0[i + 1]);
                        assert(png_views(rest0)[i + 1] == views.skip(n@)[i + 1]);
                        assert(views.skip(n@)[i + 1] == views[n@ + i + 1]);
                    }
                }
                assert(views.take(n@ + 1).drop_last() =~= views.take(n@));
                assert(views.take(n@ + 1).last() == views[n@]);
                reveal(Seq::filter);
            }
            if holds(wins, win) {
                out.push((win, bytes));
                assert(png_views(out@) =~= png_views(out0).push(views[n@]));
            }
            proof {
                n@ = n@ + 1;
            }
        }
        assert(views.take(n@) =~= views);
        out
    }

    /// Encodes the painted ground, where there is one.
    pub fn paint_ground_png(&self) -> (r: Option<Vec<u8>>)
        requires
            self.wf(),
            self.layers@.paint matches Some(g) ==> g.w * g.h * 4 <= isize::MAX,
        ensures
            bytes_view(r) == match self.layers@.paint {
                Some(g) => png_of(g.w, g.h, g.grid),
                None => None,
            },
            self.layers@.paint matches Some(g) ==> (png_sized(g.w, g.h) ==> read_back(r) == Some(
                (g.w, g.h, g.grid),
            )),
    {
        self.layers.paint_ground_png()
    }

    /// Puts a saved ground in place of the one on the screen. Without one, or with one that
    /// cannot be read, nothing of the earlier screen is left.
    pub fn load_paint_ground(&mut self, png: Option<&[u8]>)
        requires
            old(self).wf(),
        ensures
            final(self).wf(),
            final(self).layers@ == (LayersView {
                paint: match png {
                    Some(b) => match image_in(b@) {
                        Some(p) => Some(GroundView { w: p.0, h: p.1, grid: p.2 }),
                        None => None,
                    },
                    None => None,
                },
                ..old(self).layers@
            }),
            final(self).layers.art_scale == old(self).layers.art_scale,
            *final(self) == (GameSession { layers: final(self).layers, ..*old(self) }),
    {
        self.layers.load_paint_ground(png);
    }

    /// Lists the fills that still cover and the anchors.
    pub fn v6_screen_layers(&self) -> (r: V6LayersDto)
        requires
            self.wf(),
        ensures
            (r.fills@, r.anchors@) == self.layers@.saved_layers(self.machine.win0_out_chars),
            anchors_end(r.anchors@),
    {
        self.layers.v6_screen_layers(self.machine.win0_out_chars)
    }

    /// Puts saved fills and anchors in place of those on the screen.
    pub fn load_v6_screen_layers(&mut self, dto: Option<&V6LayersDto>)
        requires
            old(self).wf(),
            dto matches Some(d) ==> anchors_end(d.anchors@),
        ensures
            final(self).wf(),
            final(self).layers@ == (match dto {
                Some(d) => old(self).layers@.with_saved(
                    (d.fills@, d.anchors@),
                    old(self).machine.win0_out_chars,
                ),
                None => old(self).layers@.without_saved(),
            }),
            final(self).layers.art_scale == old(self).layers.art_scale,
            *final(self) == (GameSession { layers: final(self).layers, ..*old(self) }),
    {
        let now: u64 = self.machine.win0_out_chars;
        self.layers.load_v6_screen_layers(dto, now);
    }

    /// The length of the longest display list, and how many of them are full.
    pub fn display_ops_extent(&self) -> (r: (usize, usize))
        requires
            self.wf(),
        ensures
            r.0 == longest_below(self.layers@, WINDOW_NUMBERS as nat),
            r.1 == full_below(self.layers@, WINDOW_NUMBERS as nat),
    {
        self.layers.display_ops_extent()
    }

    /// Puts canvases from encoded pictures in place of all that are on the screen. A
    /// sequence of pictures that is still playing belongs to the screen that is gone.
    pub fn load_pictures_png(&mut self, blobs: &Vec<(u8, Vec<u8>)>)
        requires
            old(self).wf(),
        ensures
            final(self).wf(),
            final(self).layers@ == old(self).layers@.from_pngs(png_views(blobs@)),
            final(self).layers.art_scale == old(self).layers.art_scale,
            final(self).paced_frames@.len() == 0,
            *final(self) == (GameSession {
                layers: final(self).layers,
                paced_frames: final(self).paced_frames,
                ..*old(self)
            }),
    {
        self.layers.load_pictures_png(blobs);
        self.paced_frames = Vec::new();
    }

    /// What is said of a window that has to be kept as a picture.
    fn say_why_picture(&self, win: u8, lost: bool, n: usize) -> (r: String)
        requires
            self.wf(),
            lost == self.layers@.unreplayable.contains(win),
            n == self.layers@.ops_of(win).len(),
        ensures
            r@ == self.layers@.why_picture(win),
    {
        let mut s: String = "v6 window ".to_owned();
        push_dec(&mut s, win as u64);
        if lost && n >= V6_OPS_CAP {
            s.append(": display list hit the ");
            push_dec(&mut s, V6_OPS_CAP as u64);
            s.append(
                "-op cap, so it cannot be replayed — storing its canvas as a PNG. Its colours will not follow a later palette change. If a real game reaches this, the cap is too low.",
            );
        } else if lost {
            s.append(": restored from pixels, so it has no draw history to replay (");
            push_dec(&mut s, n as u64);
            s.append(
                " op(s) recorded) — storing its canvas as a PNG. Expected for a save made before the display list was persisted.",
            );
        } else {
            s.append(": replaying its ");
            push_dec(&mut s, n as u64);
            s.append(
                " recorded op(s) does not reproduce the live canvas — storing a PNG for it, and its colours will not follow a later palette change. A draw path that is not being recorded.",
            );
        }
        s
    }

    /// Lists what the screen is drawn from: the palette, the display lists, the fills and
    /// the anchors; beside it the windows that have to be kept as pictures, and why.
    ///
    /// Every window is drawn again on a canvas of its own and compared with the one on the
    /// screen. A window whose list draws what is there is kept as its list; any other, and
    /// one whose list is known not to tell how its canvas came about, as a picture.
    pub fn display_list(&self) -> (r: (DisplayListDto, Vec<u8>, Vec<String>))
        requires
            self.wf(),
        ensures
            ({
                let l = self.layers@;
                let wins = paint_order(l.canvases);
                &&& palette_view(r.0.palette) == palette_in(self.pict_source)
                &&& ops_views(r.0.windows@) == l.kept_lists(self.art(), wins)
                &&& r.0.layers.fills@ == saved_fills(l.fills, self.machine.win0_out_chars)
                &&& r.0.layers.anchors@ == saved_anchors(l.anchors, WINDOW_NUMBERS as nat)
                &&& anchors_end(r.0.layers.anchors@)
                &&& r.1@ == l.kept_pictures(self.art(), wins)
                &&& string_views(r.2@) == l.why_pictures(self.art(), wins)
            }),
    {
        let ghost l = self.layers@;
        let ghost art = self.art();
        let keys: Vec<u8> = self.layers.windows_in_paint_order();
        let palette: Option<Vec<u8>> = match &self.pict_source {
            Some(s) => copy_palette(&s.palette),
            None => None,
        };
        let mut windows: Vec<V6WindowOpsDto> = Vec::new();
        let mut fallback: Vec<u8> = Vec::new();
        let mut diags: Vec<String> = Vec::new();
        let ghost p = |w: u8| !l.replays(art, w);
        proof {
            the_order_follows_the_stamps(draw_stamps(l.canvases));
            assert(keys@.take(0) =~= seq![]);
            assert(ops_views(windows@) =~= seq![]);
            reveal(Seq::filter);
            assert(keys@.take(0).filter(p) =~= seq![]);
        }
        let mut i: usize = 0;
        while i < keys.len()
            invariant
                i <= keys@.len(),
                self.wf(),
                l == self.layers@,
                art == self.art(),
                p == (|w: u8| !l.replays(art, w)),
                keys@ == stamp_order(draw_stamps(l.canvases)),
                forall|k: u8| #[trigger]
                    stamp_order(draw_stamps(l.canvases)).contains(k) <==> draw_stamps(
                        l.canvases,
                    ).dom().contains(k),
                ops_views(windows@) == l.kept_lists(art, keys@.take(i as int)),
                fallback@ == keys@.take(i as int).filter(p),
                diags@.len() == fallback@.len(),
                forall|j: int|
                    0 <= j < diags@.len() ==> (#[trigger] diags@[j])@ == l.why_picture(fallback@[j]),
            decreases keys.len() - i,
        {
            let win: u8 = keys[i];
            let ghost windows0 = windows@;
            let ghost fallback0 = fallback@;
            let ghost diags0 = diags@;
            proof {
                assert(keys@.take(i + 1).drop_last() =~= keys@.take(i as int));
                assert(keys@.take(i + 1).last() == win);
                assert(stamp_order(draw_stamps(l.canvases)).contains(win));
                assert(draw_stamps(l.canvases).dom().contains(win));
                reveal(Seq::filter);
            }
            let ops: Vec<V6Op> = match self.layers.display_ops.get(win) {
                Some(ops) => copy_ops(ops),
                None => Vec::new(),
            };
            assert(ops@ == l.ops_of(win));
            let lost: bool = self.layers.unreplayable.contains(win);
            let mut same: bool = false;
            if let Some(c) = self.layers.pictures_canvas.get(win) {
                assert(self.layers.pictures_canvas@[win].wf());
                assert(l.canvases[win] == c@);
                let (w, h) = (c.img.width, c.img.height);
                if !lost {
                    let rebuilt: Canvas = replay_into_scratch(
                        &ops,
                        w,
                        h,
                        &self.pict_source,
                        self.layers.art_scale,
                    );
                    proof {
                        redrawing_shows_the_display_list(CanvasView::blank(w, h), art, ops@);
                    }
                    same = rebuilt.img.same_as(&c.img);
                }
                assert(same == l.replays(art, win));
                if same {
                    windows.push(V6WindowOpsDto { win, w, h, ops });
                    assert(ops_views(windows@) =~= ops_views(windows0).push(
                        OpsView { win, w, h, ops: l.ops_of(win) },
                    ));
                } else {
                    let n: usize = ops.len();
                    fallback.push(win);
                    diags.push(self.say_why_picture(win, lost, n));
                    assert forall|j: int| 0 <= j < diags@.len() implies (#[trigger] diags@[j])@
                        == l.why_picture(fallback@[j]) by {
                        if j < diags0.len() {
                            assert(diags@[j] == diags0[j]);
                            assert(fallback@[j] == fallback0[j]);
                        }
                    }
                }
            }
            i = i + 1;
        }
        assert(keys@.take(i as int) =~= keys@);
        assert(string_views(diags@) =~= l.why_pictures(art, paint_order(l.canvases)));
        let layers: V6LayersDto = self.v6_screen_layers();
        (DisplayListDto { palette, windows, layers }, fallback, diags)
    }

    /// Draws the screen again from a saved list. `source` is the pictures under the palette
    /// of the save; `pngs` are the windows that the list leaves out. A window that is in
    /// both is drawn from its list, and can be drawn again when the palette changes.
    pub fn load_display_list(
        &mut self,
        dto: &DisplayListDto,
        pngs: &Vec<(u8, Vec<u8>)>,
        source: Option<PictSource>,
    )
        requires
            old(self).wf(),
            source_wf(source, old(self).layers.art_scale),
        ensures
            final(self).wf(),
            match source {
                Some(s) => final(self).pict_source matches Some(t) && palette_view(t.palette)
                    == palette_view(dto.palette) && t == (PictSource { palette: t.palette, ..s }),
                None => final(self).pict_source is None,
            },
            final(self).layers@ == old(self).layers@.from_pngs(png_views(pngs@)).with_windows(
                art_in(source, old(self).layers.art_scale),
                ops_views(dto.windows@),
            ),
            final(self).layers.art_scale == old(self).layers.art_scale,
            final(self).paced_frames@.len() == 0,
            *final(self) == (GameSession {
                layers: final(self).layers,
                paced_frames: final(self).paced_frames,
                pict_source: final(self).pict_source,
                ..*old(self)
            }),
    {
        self.load_pictures_png(pngs);
        let ghost scale = self.layers.art_scale;
        let ghost l1 = self.layers@;
        let ghost art = art_in(source, scale);
        self.pict_source = match source {
            Some(mut s) => {
                let ghost s0 = s;
                s.palette = copy_palette(&dto.palette);
                assert(s.screen_art(scale) =~= s0.screen_art(scale));
                Some(s)
            },
            None => None,
        };
        assert(art_in(self.pict_source, scale) == art);
        let ghost views = ops_views(dto.windows@);
        let mut i: usize = 0;
        assert(views.take(0) =~= seq![]);
        while i < dto.windows.len()
            invariant
                i <= dto.windows@.len(),
                views == ops_views(dto.windows@),
                self.wf(),
                scale == self.layers.art_scale,
                art == art_in(self.pict_source, scale),
                self.layers@ == l1.with_windows(art, views.take(i as int)),
                *self == (GameSession {
                    layers: self.layers,
                    paced_frames: self.paced_frames,
                    pict_source: self.pict_source,
                    ..*old(self)
                }),
                self.paced_frames@.len() == 0,
                source is Some == self.pict_source is Some,
                source is Some ==> palette_view(self.pict_source->0.palette) == palette_view(
                    dto.palette,
                ) && self.pict_source->0 == (PictSource {
                    palette: self.pict_source->0.palette,
                    ..source->0
                }),
            decreases dto.windows.len() - i,
        {
            let w = &dto.windows[i];
            let ghost before = self.layers@;
            assert(views.take(i + 1).drop_last() =~= views.take(i as int));
            assert(views[i as int] == (OpsView { win: w.win, w: w.w, h: w.h, ops: w.ops@ }));
            let mut c: Canvas = replay_into_scratch(
                &w.ops,
                w.w,
                w.h,
                &self.pict_source,
                self.layers.art_scale,
            );
            c.version = count_on(c.version);
            c.z_seq = self.layers.next_seq;
            self.layers.next_seq = count_on(self.layers.next_seq);
            self.layers.pictures_canvas.insert(w.win, c);
            self.layers.display_ops.insert(w.win, copy_ops(&w.ops));
            let _ = self.layers.unreplayable.remove(w.win);
            proof {
                let goal = before.with_window(art, views[i as int]);
                assert(self.layers@.canvases =~= goal.canvases);
                assert(self.layers@.ops =~= goal.ops);
                assert(self.layers@.unreplayable =~= goal.unreplayable);
                assert(self.layers@ =~= goal);
            }
            i = i + 1;
        }
        assert(views.take(i as int) =~= views);
    }
}

// ── Laws ──────────────────────────────────────────────────────────────────────
/// The pictures of some windows are those pictures of all that are of these windows, in the
/// same order: what a list gives is what its parts give, one after the other.
pub proof fn pictures_are_chosen_by_their_windows(
    a: Seq<(u8, Seq<u8>)>,
    b: Seq<(u8, Seq<u8>)>,
    p: (u8, Seq<u8>),
    wins: Seq<u8>,
)
    ensures
        chosen(a + b, wins) == chosen(a, wins) + chosen(b, wins),
        wins.contains(p.0) ==> chosen(seq![p], wins) == seq![p],
        !wins.contains(p.0) ==> chosen(seq![p], wins).len() == 0,
{
    let of = |b: (u8, Seq<u8>)| wins.contains(b.0);
    Seq::filter_distributes_over_add(a, b, of);
    reveal(Seq::filter);
    let one = seq![p];
    assert(one.drop_last() =~= seq![]);
    assert(one.drop_last().filter(of) =~= seq![]);
    assert(one.last() == p);
    if of(p) {
        assert(one.filter(of) =~= seq![p]);
    }
}

} // verus!
