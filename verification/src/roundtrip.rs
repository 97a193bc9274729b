//! What saving a screen and reading it back keeps.

use crate::art::{image_in, png_of, png_sized};
use crate::canvas::CanvasView;
use crate::layers::{CanvasAnchor, LayersView, WindowFill};
use crate::oplist::replayed;
use crate::order::{ascends, stamp_order, the_order_follows_the_stamps};
use crate::pacing::redrawing_shows_the_display_list;
use crate::raster::Grid;
use crate::saves::{
    canvases_from, draw_stamps, encodable, encoded, faithful, live_stamps, loaded_anchor,
    loaded_anchors, loaded_fills, names, paint_order, saved_anchor, saved_anchors, saved_fill,
    saved_fills, OpsView, V6FillDto,
};
use crate::saving::chosen;
use crate::windows::WINDOW_NUMBERS;
use vstd::prelude::*;

verus! {

/// Whether two canvases show the same.
pub open spec fn same_pixels(a: CanvasView, b: CanvasView) -> bool {
    a.w == b.w && a.h == b.h && a.grid == b.grid
}

// ── Lists of windows ──────────────────────────────────────────────────────────
/// What is picked out of a list of windows keeps the order, and is what was to be picked.
proof fn lemma_picked(s: Seq<u8>, p: spec_fn(u8) -> bool, stamps: Map<u8, u64>)
    requires
        s.no_duplicates(),
        ascends(s, stamps),
    ensures
        s.filter(p).no_duplicates(),
        ascends(s.filter(p), stamps),
        forall|k: u8| #[trigger] s.filter(p).contains(k) <==> s.contains(k) && p(k),
    decreases s.len(),
{
    reveal(Seq::filter);
    if s.len() > 0 {
        let front = s.drop_last();
        let last = s.last();
        assert(front.no_duplicates());
        assert forall|i: int, j: int| 0 <= i <= j < front.len() implies stamps[#[trigger] front[i]]
            <= stamps[#[trigger] front[j]] by {
            assert(front[i] == s[i] && front[j] == s[j]);
        }
        lemma_picked(front, p, stamps);
        let f = front.filter(p);
        let out = s.filter(p);
        assert forall|k: u8| s.contains(k) <==> front.contains(k) || k == last by {
            if s.contains(k) && k != last {
                let i = choose|i: int| 0 <= i < s.len() && s[i] == k;
                assert(front[i] == k);
            }
            if front.contains(k) {
                let i = choose|i: int| 0 <= i < front.len() && front[i] == k;
                assert(s[i] == k);
            }
            assert(s[s.len() - 1] == last);
        }
        assert(!front.contains(last)) by {
            if front.contains(last) {
                let i = choose|i: int| 0 <= i < front.len() && front[i] == last;
                assert(s[i] == s[s.len() - 1]);
            }
        }
        if p(last) {
            assert(out == f.push(last));
            assert(!f.contains(last));
            assert forall|k: u8| #[trigger] out.contains(k) <==> f.contains(k) || k == last by {
                if out.contains(k) && k != last {
                    let i = choose|i: int| 0 <= i < out.len() && out[i] == k;
                    assert(f[i] == k);
                }
                if f.contains(k) {
                    let i = choose|i: int| 0 <= i < f.len() && f[i] == k;
                    assert(out[i] == k);
                }
                assert(out[out.len() - 1] == last);
            }
            assert forall|i: int, j: int| 0 <= i < j < out.len() implies out[i] != out[j] by {
                if j == f.len() {
                    assert(f.contains(f[i]));
                }
            }
            assert forall|i: int, j: int| 0 <= i <= j < out.len() implies stamps[#[trigger] out[i]]
                <= stamps[#[trigger] out[j]] by {
                if j < f.len() {
                    assert(out[i] == f[i] && out[j] == f[j]);
                } else if i < f.len() {
                    assert(f.contains(f[i]));
                    assert(front.contains(f[i]));
                    let m = choose|m: int| 0 <= m < front.len() && front[m] == f[i];
                    assert(s[m] == out[i]);
                    assert(s[s.len() - 1] == out[j]);
                }
            }
        }
    }
}

/// Encoding windows and choosing from the pictures is encoding the chosen windows.
proof fn lemma_chosen(canvases: Map<u8, CanvasView>, wins: Seq<u8>, sel: Seq<u8>)
    ensures
        chosen(encoded(canvases, wins), sel) == encoded(
            canvases,
            wins.filter(|w: u8| sel.contains(w)),
        ),
    decreases wins.len(),
{
    reveal(Seq::filter);
    let p = |w: u8| sel.contains(w);
    let q = |b: (u8, Seq<u8>)| sel.contains(b.0);
    if wins.len() > 0 {
        let front = wins.drop_last();
        let k = wins.last();
        lemma_chosen(canvases, front, sel);
        let before = encoded(canvases, front);
        let c = canvases[k];
        match png_of(c.w, c.h, c.grid) {
            Some(b) => {
                let now = before.push((k, b));
                assert(now.drop_last() =~= before);
                assert(now.last() == (k, b));
            },
            None => {},
        }
        if p(k) {
            let picked = front.filter(p).push(k);
            assert(picked.drop_last() =~= front.filter(p));
            assert(picked.last() == k);
        }
    }
}

/// Two ways to pick that agree on a list pick the same of it.
proof fn lemma_same_pick(s: Seq<u8>, p: spec_fn(u8) -> bool, q: spec_fn(u8) -> bool)
    requires
        forall|i: int| 0 <= i < s.len() ==> p(#[trigger] s[i]) == q(s[i]),
    ensures
        s.filter(p) == s.filter(q),
    decreases s.len(),
{
    reveal(Seq::filter);
    if s.len() > 0 {
        let front = s.drop_last();
        assert forall|i: int| 0 <= i < front.len() implies p(#[trigger] front[i]) == q(front[i]) by {
            assert(front[i] == s[i]);
        }
        lemma_same_pick(front, p, q);
        assert(p(s[s.len() - 1]) == q(s[s.len() - 1]));
    }
}

// ── Pictures ──────────────────────────────────────────────────────────────────
/// Where every window can be encoded, each has its picture, in the order of the windows.
proof fn lemma_encoded(canvases: Map<u8, CanvasView>, wins: Seq<u8>)
    requires
        forall|i: int|
            0 <= i < wins.len() ==> ({
                let c = canvases[#[trigger] wins[i]];
                png_of(c.w, c.h, c.grid) is Some
            }),
    ensures
        encoded(canvases, wins).len() == wins.len(),
        forall|i: int| 0 <= i < wins.len() ==> (#[trigger] encoded(canvases, wins)[i]).0 == wins[i],
    decreases wins.len(),
{
    if wins.len() > 0 {
        let front = wins.drop_last();
        assert forall|i: int| 0 <= i < front.len() implies ({
            let c = canvases[#[trigger] front[i]];
            png_of(c.w, c.h, c.grid) is Some
        }) by {
            assert(front[i] == wins[i]);
        }
        lemma_encoded(canvases, front);
        let c = canvases[wins[wins.len() - 1]];
        assert(png_of(c.w, c.h, c.grid) is Some);
        let before = encoded(canvases, front);
        let now = encoded(canvases, wins);
        assert forall|i: int| 0 <= i < wins.len() implies (#[trigger] now[i]).0 == wins[i] by {
            if i < front.len() {
                assert(now[i] == before[i]);
                assert(front[i] == wins[i]);
            }
        }
    }
}

/// Pictures of different windows that can all be read give a canvas each, in front of those
/// before it.
proof fn lemma_canvases_from(blobs: Seq<(u8, Seq<u8>)>, seq0: u64)
    requires
        forall|i: int, j: int|
            0 <= i < j < blobs.len() ==> (#[trigger] blobs[i]).0 != (#[trigger] blobs[j]).0,
        forall|i: int| 0 <= i < blobs.len() ==> image_in((#[trigger] blobs[i]).1) is Some,
        seq0 + blobs.len() <= u64::MAX,
    ensures
        canvases_from(blobs, seq0).1 == seq0 + blobs.len(),
        forall|k: u8| #[trigger]
            canvases_from(blobs, seq0).0.dom().contains(k) <==> names(blobs, k),
        forall|i: int|
            0 <= i < blobs.len() ==> ({
                let p = image_in((#[trigger] blobs[i]).1)->0;
                canvases_from(blobs, seq0).0[blobs[i].0] == (CanvasView {
                    w: p.0,
                    h: p.1,
                    grid: p.2,
                    version: 1,
                    z_seq: (seq0 + i) as u64,
                })
            }),
    decreases blobs.len(),
{
    if blobs.len() > 0 {
        let front = blobs.drop_last();
        assert forall|i: int, j: int| 0 <= i < j < front.len() implies (#[trigger] front[i]).0 != (
        #[trigger] front[j]).0 by {
            assert(front[i] == blobs[i] && front[j] == blobs[j]);
        }
        assert forall|i: int| 0 <= i < front.len() implies image_in(
            (#[trigger] front[i]).1,
        ) is Some by {
            assert(front[i] == blobs[i]);
        }
        lemma_canvases_from(front, seq0);
        let last = blobs[blobs.len() - 1];
        assert(image_in(last.1) is Some);
        let now = canvases_from(blobs, seq0).0;
        assert forall|k: u8| #[trigger] now.dom().contains(k) <==> names(blobs, k) by {
            if names(front, k) {
                let i = choose|i: int| 0 <= i < front.len() && (#[trigger] front[i]).0 == k;
                assert(blobs[i].0 == k);
            }
            if names(blobs, k) {
                let i = choose|i: int| 0 <= i < blobs.len() && (#[trigger] blobs[i]).0 == k;
                if i < front.len() {
                    assert(front[i].0 == k);
                }
            }
            assert(canvases_from(front, seq0).0.dom().contains(k) <==> names(front, k));
        }
        assert forall|i: int| 0 <= i < blobs.len() implies ({
            let p = image_in((#[trigger] blobs[i]).1)->0;
            now[blobs[i].0] == (CanvasView {
                w: p.0,
                h: p.1,
                grid: p.2,
                version: 1,
                z_seq: (seq0 + i) as u64,
            })
        }) by {
            if i < front.len() {
                assert(front[i] == blobs[i]);
                assert(blobs[i].0 != last.0);
            }
        }
    }
}

/// What a save made of pictures brings back: every window's pixels, the windows that were
/// there and no others, and of two windows the one drawn later in front. `blobs` is what was
/// saved, `later` the layers that it is read into.
pub proof fn pictures_come_back(
    canvases: Map<u8, CanvasView>,
    blobs: Seq<(u8, Seq<u8>)>,
    later: LayersView,
)
    requires
        blobs == encoded(canvases, paint_order(canvases)),
        faithful(canvases, blobs),
        encodable(canvases, paint_order(canvases)),
        forall|k: u8|
            #![trigger canvases[k]]
            canvases.dom().contains(k) ==> png_sized(canvases[k].w, canvases[k].h),
        later.next_seq + WINDOW_NUMBERS <= u64::MAX,
    ensures
        later.from_pngs(blobs).canvases.dom() == canvases.dom(),
        forall|k: u8|
            #![trigger canvases[k]]
            canvases.dom().contains(k) ==> same_pixels(
                later.from_pngs(blobs).canvases[k],
                canvases[k],
            ),
        forall|a: u8, b: u8|
            canvases.dom().contains(a) && canvases.dom().contains(b) && (#[trigger] canvases[a]).z_seq
                < (#[trigger] canvases[b]).z_seq ==> later.from_pngs(blobs).canvases[a].z_seq
                < later.from_pngs(blobs).canvases[b].z_seq,
{
    let stamps = draw_stamps(canvases);
    the_order_follows_the_stamps(stamps);
    let wins = paint_order(canvases);
    assert forall|i: int| 0 <= i < wins.len() implies ({
        let c = canvases[#[trigger] wins[i]];
        png_sized(c.w, c.h)
    }) by {
        assert(wins.contains(wins[i]));
        assert(stamps.dom().contains(wins[i]));
    }
    lemma_pictures(canvases, wins, stamps, blobs, later.next_seq);
    let back = later.from_pngs(blobs).canvases;
    assert forall|k: u8| back.dom().contains(k) <==> canvases.dom().contains(k) by {
        assert(wins.contains(k) <==> stamps.dom().contains(k));
    }
    assert(back.dom() =~= canvases.dom());
    assert forall|k: u8|
        #![trigger canvases[k]]
        canvases.dom().contains(k) implies same_pixels(back[k], canvases[k]) by {
        assert(wins.contains(k) <==> stamps.dom().contains(k));
    }
    assert forall|a: u8, b: u8|
        canvases.dom().contains(a) && canvases.dom().contains(b) && (#[trigger] canvases[a]).z_seq
            < (#[trigger] canvases[b]).z_seq implies back[a].z_seq < back[b].z_seq by {
        assert(wins.contains(a) <==> stamps.dom().contains(a));
        assert(wins.contains(b) <==> stamps.dom().contains(b));
        assert(stamps[a] < stamps[b]);
    }
}

/// The pictures of some windows, read back.
proof fn lemma_pictures(
    canvases: Map<u8, CanvasView>,
    wins: Seq<u8>,
    stamps: Map<u8, u64>,
    blobs: Seq<(u8, Seq<u8>)>,
    seq0: u64,
)
    requires
        wins.no_duplicates(),
        ascends(wins, stamps),
        blobs == encoded(canvases, wins),
        faithful(canvases, blobs),
        encodable(canvases, wins),
        forall|i: int|
            0 <= i < wins.len() ==> ({
                let c = canvases[#[trigger] wins[i]];
                png_sized(c.w, c.h)
            }),
        seq0 + WINDOW_NUMBERS <= u64::MAX,
    ensures
        forall|k: u8| #[trigger]
            canvases_from(blobs, seq0).0.dom().contains(k) <==> wins.contains(k),
        forall|k: u8| #[trigger]
            wins.contains(k) ==> same_pixels(canvases_from(blobs, seq0).0[k], canvases[k]),
        forall|a: u8, b: u8| #[trigger]
            wins.contains(a) && #[trigger] wins.contains(b) && stamps[a] < stamps[b]
                ==> canvases_from(blobs, seq0).0[a].z_seq < canvases_from(blobs, seq0).0[b].z_seq,
        canvases_from(blobs, seq0).1 == seq0 + wins.len(),
        forall|k: u8| #[trigger]
            wins.contains(k) ==> canvases_from(blobs, seq0).0[k].z_seq < seq0 + wins.len(),
        wins.len() <= WINDOW_NUMBERS,
        forall|k: u8| #[trigger] names(blobs, k) <==> wins.contains(k),
{
    lemma_at_most(wins);
    assert forall|i: int| 0 <= i < wins.len() implies ({
        let c = canvases[#[trigger] wins[i]];
        png_of(c.w, c.h, c.grid) is Some
    }) by {}
    lemma_encoded(canvases, wins);
    assert forall|i: int, j: int| 0 <= i < j < blobs.len() implies (#[trigger] blobs[i]).0 != (
    #[trigger] blobs[j]).0 by {
        assert(wins[i] != wins[j]);
    }
    assert forall|i: int| 0 <= i < blobs.len() implies image_in(
        (#[trigger] blobs[i]).1,
    ) is Some by {
        let c = canvases[wins[i]];
        assert(png_sized(c.w, c.h));
        assert(blobs[i].0 == wins[i]);
    }
    lemma_canvases_from(blobs, seq0);
    let back = canvases_from(blobs, seq0).0;
    assert forall|k: u8| #[trigger] names(blobs, k) <==> wins.contains(k) by {
        if names(blobs, k) {
            let i = choose|i: int| 0 <= i < blobs.len() && (#[trigger] blobs[i]).0 == k;
            assert(wins[i] == k);
        }
        if wins.contains(k) {
            let i = choose|i: int| 0 <= i < wins.len() && wins[i] == k;
            assert(blobs[i].0 == k);
        }
    }
    assert forall|k: u8| #[trigger] back.dom().contains(k) <==> wins.contains(k) by {
        assert(names(blobs, k) <==> wins.contains(k));
    }
    assert forall|k: u8| #[trigger] wins.contains(k) implies same_pixels(back[k], canvases[k])
        && back[k].z_seq < seq0 + wins.len() by {
        let i = choose|i: int| 0 <= i < wins.len() && wins[i] == k;
        assert(blobs[i].0 == k);
        assert(png_sized(canvases[wins[i]].w, canvases[wins[i]].h));
    }
    assert forall|a: u8, b: u8| #[trigger]
        wins.contains(a) && #[trigger] wins.contains(b) && stamps[a]
            < stamps[b] implies back[a].z_seq < back[b].z_seq by {
        let i = choose|i: int| 0 <= i < wins.len() && wins[i] == a;
        let j = choose|j: int| 0 <= j < wins.len() && wins[j] == b;
        if j <= i {
            assert(stamps[wins[j]] <= stamps[wins[i]]);
        }
        assert(blobs[i].0 == a && blobs[j].0 == b);
    }
}

/// There are no more different windows than window numbers.
proof fn lemma_at_most(wins: Seq<u8>)
    requires
        wins.no_duplicates(),
    ensures
        wins.len() <= WINDOW_NUMBERS,
{
    let all: Set<int> = vstd::set_lib::set_int_range(0, 256);
    vstd::set_lib::lemma_int_range(0, 256);
    let ints = wins.map_values(|w: u8| w as int);
    assert(ints.no_duplicates()) by {
        assert forall|i: int, j: int| 0 <= i < ints.len() && 0 <= j < ints.len() && i
            != j implies ints[i] != ints[j] by {
            assert(wins[i] != wins[j]);
        }
    }
    ints.unique_seq_to_set();
    assert(ints.to_set().subset_of(all));
    vstd::set_lib::lemma_len_subset(ints.to_set(), all);
}

// ── Display lists ─────────────────────────────────────────────────────────────
/// What the kept display lists are: those of the windows that their lists draw, in order.
proof fn lemma_kept_lists(l: LayersView, art: Map<u16, Grid>, wins: Seq<u8>)
    ensures
        ({
            let ds = l.kept_lists(art, wins);
            let kept = wins.filter(|w: u8| l.replays(art, w));
            &&& ds.len() == kept.len()
            &&& forall|i: int|
                0 <= i < ds.len() ==> #[trigger] ds[i] == (OpsView {
                    win: kept[i],
                    w: l.canvases[kept[i]].w,
                    h: l.canvases[kept[i]].h,
                    ops: l.ops_of(kept[i]),
                })
        }),
    decreases wins.len(),
{
    reveal(Seq::filter);
    if wins.len() > 0 {
        lemma_kept_lists(l, art, wins.drop_last());
    }
}

/// Drawing windows from their lists draws each, in front of those before it, and touches no
/// other window.
proof fn lemma_with_windows(l: LayersView, art: Map<u16, Grid>, ds: Seq<OpsView>)
    requires
        forall|i: int, j: int|
            0 <= i < j < ds.len() ==> (#[trigger] ds[i]).win != (#[trigger] ds[j]).win,
        l.next_seq + ds.len() <= u64::MAX,
    ensures
        ({
            let r = l.with_windows(art, ds);
            &&& r.next_seq == l.next_seq + ds.len()
            &&& forall|i: int|
                0 <= i < ds.len() ==> ({
                    let d = #[trigger] ds[i];
                    &&& r.canvases.dom().contains(d.win)
                    &&& r.canvases[d.win].w == d.w
                    &&& r.canvases[d.win].h == d.h
                    &&& r.canvases[d.win].grid == replayed(d.ops, art, d.w as nat, d.h as nat)
                    &&& r.canvases[d.win].z_seq == l.next_seq + i
                    &&& r.ops.dom().contains(d.win)
                    &&& r.ops[d.win] == d.ops
                    &&& !r.unreplayable.contains(d.win)
                })
            &&& forall|k: u8|
                (forall|i: int| 0 <= i < ds.len() ==> (#[trigger] ds[i]).win != k) ==> (
                #[trigger] r.canvases.dom().contains(k) <==> l.canvases.dom().contains(k))
                    && r.canvases[k] == l.canvases[k]
        }),
    decreases ds.len(),
{
    if ds.len() > 0 {
        let front = ds.drop_last();
        let d = ds[ds.len() - 1];
        assert forall|i: int, j: int| 0 <= i < j < front.len() implies (#[trigger] front[i]).win != (
        #[trigger] front[j]).win by {
            assert(front[i] == ds[i] && front[j] == ds[j]);
        }
        lemma_with_windows(l, art, front);
        redrawing_shows_the_display_list(CanvasView::blank(d.w, d.h), art, d.ops);
        let before = l.with_windows(art, front);
        let r = l.with_windows(art, ds);
        assert(r == before.with_window(art, d));
        assert forall|i: int| 0 <= i < ds.len() implies ({
            let d = #[trigger] ds[i];
            &&& r.canvases.dom().contains(d.win)
            &&& r.canvases[d.win].w == d.w
            &&& r.canvases[d.win].h == d.h
            &&& r.canvases[d.win].grid == replayed(d.ops, art, d.w as nat, d.h as nat)
            &&& r.canvases[d.win].z_seq == l.next_seq + i
            &&& r.ops.dom().contains(d.win)
            &&& r.ops[d.win] == d.ops
            &&& !r.unreplayable.contains(d.win)
        }) by {
            if i < front.len() {
                assert(front[i] == ds[i]);
                assert(ds[i].win != d.win);
            }
        }
        assert forall|k: u8|
            (forall|i: int| 0 <= i < ds.len() ==> (#[trigger] ds[i]).win != k) implies (
        #[trigger] r.canvases.dom().contains(k) <==> l.canvases.dom().contains(k)) && r.canvases[k]
            == l.canvases[k] by {
            assert(d.win != k);
            assert forall|i: int| 0 <= i < front.len() implies (#[trigger] front[i]).win != k by {
                assert(front[i] == ds[i]);
            }
            assert(before.canvases.dom().contains(k) <==> l.canvases.dom().contains(k));
        }
    }
}

/// What a save brings back: every window's pixels, whether the window was kept as its
/// display list or as a picture, and the windows that were there and no others. A window
/// kept as its list has its list back, so that it can be drawn again. Of two windows that
/// were kept alike, the one in front stays in front; of two that were kept differently, the
/// one that was kept as its list comes to the front. `saved` is the layers
/// at the time of the save, `later` those that it is read into, and the pictures are those
/// of the palette that was saved.
pub proof fn a_saved_screen_comes_back(
    saved: LayersView,
    art: Map<u16, Grid>,
    blobs: Seq<(u8, Seq<u8>)>,
    later: LayersView,
)
    requires
        ({
            let wins = paint_order(saved.canvases);
            &&& blobs == chosen(encoded(saved.canvases, wins), saved.kept_pictures(art, wins))
            &&& faithful(saved.canvases, blobs)
            &&& encodable(saved.canvases, wins)
        }),
        forall|k: u8|
            #![trigger saved.canvases[k]]
            saved.canvases.dom().contains(k) && !saved.replays(art, k) ==> png_sized(
                saved.canvases[k].w,
                saved.canvases[k].h,
            ),
        later.next_seq + 2 * WINDOW_NUMBERS <= u64::MAX,
    ensures
        ({
            let wins = paint_order(saved.canvases);
            let back = later.from_pngs(blobs).with_windows(art, saved.kept_lists(art, wins));
            &&& back.canvases.dom() == saved.canvases.dom()
            &&& forall|k: u8|
                #![trigger saved.canvases[k]]
                saved.canvases.dom().contains(k) ==> same_pixels(
                    back.canvases[k],
                    saved.canvases[k],
                )
            &&& forall|k: u8|
                #![trigger saved.canvases[k]]
                saved.canvases.dom().contains(k) && saved.replays(art, k) ==> back.ops_of(k)
                    == saved.ops_of(k) && !back.unreplayable.contains(k)
            &&& forall|a: u8, b: u8|
                saved.canvases.dom().contains(a) && saved.canvases.dom().contains(b)
                    && saved.replays(art, a) == saved.replays(art, b) && (
                #[trigger] saved.canvases[a]).z_seq < (#[trigger] saved.canvases[b]).z_seq
                    ==> back.canvases[a].z_seq < back.canvases[b].z_seq
            &&& forall|a: u8, b: u8|
                #![trigger saved.canvases[a], saved.canvases[b]]
                saved.canvases.dom().contains(a) && saved.canvases.dom().contains(b)
                    && !saved.replays(art, a) && saved.replays(art, b) ==> back.canvases[a].z_seq
                    < back.canvases[b].z_seq
        }),
{
    let canvases = saved.canvases;
    let stamps = draw_stamps(canvases);
    the_order_follows_the_stamps(stamps);
    let wins = paint_order(canvases);
    let as_list = |w: u8| saved.replays(art, w);
    let as_pic = |w: u8| !saved.replays(art, w);
    let pics = saved.kept_pictures(art, wins);
    let kept = wins.filter(as_list);
    lemma_picked(wins, as_list, stamps);
    lemma_picked(wins, as_pic, stamps);
    lemma_chosen(canvases, wins, pics);
    assert forall|i: int| 0 <= i < wins.len() implies (|w: u8| pics.contains(w))(
        #[trigger] wins[i],
    ) == as_pic(wins[i]) by {
        assert(wins.contains(wins[i]));
    }
    lemma_same_pick(wins, |w: u8| pics.contains(w), as_pic);
    assert(blobs == encoded(canvases, pics));
    assert forall|i: int| 0 <= i < pics.len() implies ({
        let c = canvases[#[trigger] pics[i]];
        png_sized(c.w, c.h) && (png_sized(c.w, c.h) ==> png_of(c.w, c.h, c.grid) is Some)
    }) by {
        let k = pics[i];
        assert(pics.contains(k));
        assert(wins.contains(k));
        let j = choose|j: int| 0 <= j < wins.len() && wins[j] == k;
        assert(stamps.dom().contains(k));
        let c = canvases[wins[j]];
    }
    lemma_pictures(canvases, pics, stamps, blobs, later.next_seq);
    let l1 = later.from_pngs(blobs);
    let ds = saved.kept_lists(art, wins);
    lemma_kept_lists(saved, art, wins);
    lemma_at_most(kept);
    assert forall|i: int, j: int| 0 <= i < j < ds.len() implies (#[trigger] ds[i]).win != (
    #[trigger] ds[j]).win by {
        assert(kept[i] != kept[j]);
    }
    lemma_with_windows(l1, art, ds);
    let back = l1.with_windows(art, ds);
    assert forall|k: u8| #[trigger] stamps.dom().contains(k) implies kept.contains(k)
        || pics.contains(k) by {
        assert(wins.contains(k));
    }
    assert forall|k: u8| kept.contains(k) implies #[trigger] stamps.dom().contains(k)
        && saved.replays(art, k) && back.canvases.dom().contains(k) && same_pixels(
        back.canvases[k],
        canvases[k],
    ) && back.ops_of(k) == saved.ops_of(k) && !back.unreplayable.contains(k) by {
        assert(wins.contains(k));
        let i = choose|i: int| 0 <= i < kept.len() && kept[i] == k;
        assert(ds[i].win == k);
    }
    assert forall|k: u8| pics.contains(k) implies #[trigger] stamps.dom().contains(k)
        && !saved.replays(art, k) && back.canvases.dom().contains(k) && back.canvases[k]
        == l1.canvases[k] && same_pixels(back.canvases[k], canvases[k]) by {
        assert(wins.contains(k));
        assert forall|i: int| 0 <= i < ds.len() implies (#[trigger] ds[i]).win != k by {
            assert(kept.contains(kept[i]));
        }
        assert(l1.canvases.dom().contains(k));
        assert(back.canvases.dom().contains(k) <==> l1.canvases.dom().contains(k));
    }
    assert forall|k: u8| back.canvases.dom().contains(k) <==> canvases.dom().contains(k) by {
        assert(stamps.dom().contains(k) <==> canvases.dom().contains(k));
        if back.canvases.dom().contains(k) && !kept.contains(k) {
            assert forall|i: int| 0 <= i < ds.len() implies (#[trigger] ds[i]).win != k by {
                assert(kept.contains(kept[i]));
            }
            assert(back.canvases.dom().contains(k) <==> l1.canvases.dom().contains(k));
            assert(pics.contains(k));
        }
        if kept.contains(k) {
            assert(stamps.dom().contains(k));
        }
        if pics.contains(k) {
            assert(stamps.dom().contains(k));
        }
    }
    assert(back.canvases.dom() =~= canvases.dom());
    assert forall|a: u8, b: u8|
        canvases.dom().contains(a) && canvases.dom().contains(b) && saved.replays(art, a)
            == saved.replays(art, b) && (#[trigger] canvases[a]).z_seq < (
        #[trigger] canvases[b]).z_seq implies back.canvases[a].z_seq < back.canvases[b].z_seq by {
        assert(stamps.dom().contains(a) && stamps.dom().contains(b));
        assert(stamps[a] < stamps[b]);
        if saved.replays(art, a) {
            assert(kept.contains(a) && kept.contains(b));
            let i = choose|i: int| 0 <= i < kept.len() && kept[i] == a;
            let j = choose|j: int| 0 <= j < kept.len() && kept[j] == b;
            if j <= i {
                assert(stamps[kept[j]] <= stamps[kept[i]]);
            }
            assert(ds[i].win == a && ds[j].win == b);
        } else {
            assert(pics.contains(a) && pics.contains(b));
        }
    }
    assert forall|a: u8, b: u8|
        #![trigger canvases[a], canvases[b]]
        canvases.dom().contains(a) && canvases.dom().contains(b) && !saved.replays(art, a)
            && saved.replays(art, b) implies back.canvases[a].z_seq < back.canvases[b].z_seq by {
        assert(stamps.dom().contains(a) && stamps.dom().contains(b));
        assert(pics.contains(a) && kept.contains(b));
        let j = choose|j: int| 0 <= j < kept.len() && kept[j] == b;
        assert(ds[j].win == b);
        assert(back.canvases[a] == l1.canvases[a]);
    }
    assert forall|k: u8|
        #![trigger canvases[k]]
        canvases.dom().contains(k) implies same_pixels(back.canvases[k], canvases[k]) by {
        assert(stamps.dom().contains(k));
    }
    assert forall|k: u8|
        #![trigger canvases[k]]
        canvases.dom().contains(k) && saved.replays(art, k) implies back.ops_of(k) == saved.ops_of(
        k,
    ) && !back.unreplayable.contains(k) by {
        assert(stamps.dom().contains(k));
    }
}

// ── Fills and anchors ─────────────────────────────────────────────────────────
/// Fills of different windows are read back each, newer than those before it.
proof fn lemma_loaded_fills(fills: Seq<V6FillDto>, now: u64, seq0: u64)
    requires
        forall|i: int, j: int|
            0 <= i < j < fills.len() ==> (#[trigger] fills[i]).win != (#[trigger] fills[j]).win,
        seq0 + fills.len() <= u64::MAX,
    ensures
        ({
            let r = loaded_fills(fills, now, seq0);
            &&& r.1 == seq0 + fills.len()
            &&& forall|i: int|
                0 <= i < fills.len() ==> ({
                    let f = #[trigger] fills[i];
                    &&& r.0.dom().contains(f.win)
                    &&& r.0[f.win] == (WindowFill {
                        x: f.x,
                        y: f.y,
                        w: f.w,
                        h: f.h,
                        bg: f.bg,
                        seq: (seq0 + i) as u64,
                        out_chars: now,
                    })
                })
            &&& forall|k: u8|
                (forall|i: int| 0 <= i < fills.len() ==> (#[trigger] fills[i]).win != k)
                    ==> !#[trigger] r.0.dom().contains(k)
        }),
    decreases fills.len(),
{
    if fills.len() > 0 {
        let front = fills.drop_last();
        let last = fills[fills.len() - 1];
        assert forall|i: int, j: int| 0 <= i < j < front.len() implies (#[trigger] front[i]).win != (
        #[trigger] front[j]).win by {
            assert(front[i] == fills[i] && front[j] == fills[j]);
        }
        lemma_loaded_fills(front, now, seq0);
        let r = loaded_fills(fills, now, seq0);
        assert forall|i: int| 0 <= i < fills.len() implies ({
            let f = #[trigger] fills[i];
            &&& r.0.dom().contains(f.win)
            &&& r.0[f.win] == (WindowFill {
                x: f.x,
                y: f.y,
                w: f.w,
                h: f.h,
                bg: f.bg,
                seq: (seq0 + i) as u64,
                out_chars: now,
            })
        }) by {
            if i < front.len() {
                assert(front[i] == fills[i]);
                assert(fills[i].win != last.win);
            }
        }
        assert forall|k: u8|
            (forall|i: int| 0 <= i < fills.len() ==> (
            #[trigger] fills[i]).win != k) implies !#[trigger] r.0.dom().contains(k) by {
            assert(last.win != k);
            assert forall|i: int| 0 <= i < front.len() implies (#[trigger] front[i]).win != k by {
                assert(front[i] == fills[i]);
            }
        }
    }
}

/// What a save brings back of the fills: those that still covered their windows, with their
/// boxes and colours and in their order, covering again.
pub proof fn covering_fills_come_back(fills: Map<u8, WindowFill>, then: u64, now: u64, seq0: u64)
    requires
        seq0 + WINDOW_NUMBERS <= u64::MAX,
    ensures
        ({
            let back = loaded_fills(saved_fills(fills, then), now, seq0).0;
            &&& back.dom() == live_stamps(fills, then).dom()
            &&& forall|k: u8| #[trigger]
                back.dom().contains(k) ==> saved_fill(k, back[k]) == saved_fill(k, fills[k])
                    && back[k].out_chars == now
            &&& forall|a: u8, b: u8| #[trigger]
                back.dom().contains(a) && #[trigger] back.dom().contains(b) && fills[a].seq
                    < fills[b].seq ==> back[a].seq < back[b].seq
        }),
{
    let stamps = live_stamps(fills, then);
    the_order_follows_the_stamps(stamps);
    let order = stamp_order(stamps);
    let list = saved_fills(fills, then);
    lemma_at_most(order);
    assert forall|i: int, j: int| 0 <= i < j < list.len() implies (#[trigger] list[i]).win != (
    #[trigger] list[j]).win by {
        assert(order[i] != order[j]);
    }
    lemma_loaded_fills(list, now, seq0);
    let back = loaded_fills(list, now, seq0).0;
    assert forall|k: u8| back.dom().contains(k) <==> stamps.dom().contains(k) by {
        assert(order.contains(k) <==> stamps.dom().contains(k));
        if order.contains(k) {
            let i = choose|i: int| 0 <= i < order.len() && order[i] == k;
            assert(list[i].win == k);
        } else {
            assert forall|i: int| 0 <= i < list.len() implies (#[trigger] list[i]).win != k by {
                assert(order.contains(order[i]));
            }
        }
    }
    assert(back.dom() =~= stamps.dom());
    assert forall|k: u8| #[trigger] back.dom().contains(k) implies saved_fill(k, back[k])
        == saved_fill(k, fills[k]) && back[k].out_chars == now by {
        assert(order.contains(k));
        let i = choose|i: int| 0 <= i < order.len() && order[i] == k;
        assert(list[i] == saved_fill(k, fills[k]));
    }
    assert forall|a: u8, b: u8| #[trigger]
        back.dom().contains(a) && #[trigger] back.dom().contains(b) && fills[a].seq
            < fills[b].seq implies back[a].seq < back[b].seq by {
        assert(order.contains(a) && order.contains(b));
        let i = choose|i: int| 0 <= i < order.len() && order[i] == a;
        let j = choose|j: int| 0 <= j < order.len() && order[j] == b;
        if j <= i {
            assert(stamps[order[j]] <= stamps[order[i]]);
        }
        assert(list[i] == saved_fill(a, fills[a]));
        assert(list[j] == saved_fill(b, fills[b]));
    }
}

/// What a save brings back of the anchors: all of them, as they were.
pub proof fn anchors_come_back(anchors: Map<u8, CanvasAnchor>)
    ensures
        loaded_anchors(saved_anchors(anchors, WINDOW_NUMBERS as nat)) == anchors,
{
    lemma_anchors_below(anchors, WINDOW_NUMBERS as nat);
    assert(loaded_anchors(saved_anchors(anchors, WINDOW_NUMBERS as nat)) =~= anchors);
}

/// What a save brings back of the anchors of some windows.
proof fn lemma_anchors_below(anchors: Map<u8, CanvasAnchor>, n: nat)
    requires
        n <= WINDOW_NUMBERS,
    ensures
        ({
            let back = loaded_anchors(saved_anchors(anchors, n));
            &&& forall|k: u8| #[trigger]
                back.dom().contains(k) <==> k < n && anchors.dom().contains(k)
            &&& forall|k: u8| #[trigger] back.dom().contains(k) ==> back[k] == anchors[k]
        }),
    decreases n,
{
    if n > 0 {
        lemma_anchors_below(anchors, (n - 1) as nat);
        let last = (n - 1) as u8;
        let before = saved_anchors(anchors, (n - 1) as nat);
        if anchors.dom().contains(last) {
            let now = before.push(saved_anchor(last, anchors[last]));
            assert(now.drop_last() =~= before);
            assert(now.last() == saved_anchor(last, anchors[last]));
            assert(loaded_anchor(saved_anchor(last, anchors[last])) == anchors[last]);
            assert(loaded_anchors(now) == loaded_anchors(before).insert(last, anchors[last]));
        }
        let back = loaded_anchors(saved_anchors(anchors, n));
        assert forall|k: u8| #[trigger] back.dom().contains(k) <==> k < n && anchors.dom().contains(
            k,
        ) by {
            assert(loaded_anchors(before).dom().contains(k) <==> k < n - 1
                && anchors.dom().contains(k));
        }
        assert forall|k: u8| #[trigger] back.dom().contains(k) implies back[k] == anchors[k] by {
            assert(loaded_anchors(before).dom().contains(k) ==> loaded_anchors(before)[k]
                == anchors[k]);
        }
    }
}

/// There is one order of windows that follows stamps of which no two are alike.
proof fn lemma_one_order(a: Seq<u8>, b: Seq<u8>, stamps: Map<u8, u64>)
    requires
        a.no_duplicates(),
        b.no_duplicates(),
        forall|k: u8| #[trigger] a.contains(k) <==> b.contains(k),
        ascends(a, stamps),
        forall|i: int, j: int|
            0 <= i < j < b.len() ==> stamps[#[trigger] b[i]] < stamps[#[trigger] b[j]],
    ensures
        a == b,
    decreases b.len(),
{
    if b.len() == 0 {
        if a.len() > 0 {
            assert(a.contains(a[0]));
        }
        assert(a =~= b);
    } else {
        let x = b.last();
        assert(b.contains(x));
        assert(a.contains(x));
        let i = choose|i: int| 0 <= i < a.len() && a[i] == x;
        let y = a[a.len() - 1];
        assert(a.contains(y));
        let j = choose|j: int| 0 <= j < b.len() && b[j] == y;
        assert(stamps[a[i]] <= stamps[a[a.len() - 1]]);
        if j < b.len() - 1 {
            assert(stamps[b[j]] < stamps[b[b.len() - 1]]);
        }
        assert(y == x);
        let a0 = a.drop_last();
        let b0 = b.drop_last();
        assert forall|k: u8| #[trigger] a0.contains(k) <==> b0.contains(k) by {
            if a0.contains(k) {
                let i = choose|i: int| 0 <= i < a0.len() && a0[i] == k;
                assert(a[i] == k && a[i] != a[a.len() - 1]);
                assert(a.contains(k));
                let j = choose|j: int| 0 <= j < b.len() && b[j] == k;
                assert(b0[j] == k);
            }
            if b0.contains(k) {
                let j = choose|j: int| 0 <= j < b0.len() && b0[j] == k;
                assert(b[j] == k && b[j] != b[b.len() - 1]);
                assert(b.contains(k));
                assert(a.contains(k));
                let i = choose|i: int| 0 <= i < a.len() && a[i] == k;
                assert(a0[i] == k);
            }
        }
        assert forall|i: int, j: int| 0 <= i <= j < a0.len() implies stamps[#[trigger] a0[i]]
            <= stamps[#[trigger] a0[j]] by {
            assert(a0[i] == a[i] && a0[j] == a[j]);
        }
        lemma_one_order(a0, b0, stamps);
        assert(a =~= a0.push(x));
        assert(b =~= b0.push(x));
    }
}

/// Reading back a save of fills and anchors and saving again gives the same save: the same
/// fills in the same order, the same anchors, and nothing of what was there before. `saved`
/// is the layers at the time of the save, and `later` those that it is read into.
pub proof fn saving_again_gives_the_same(saved: LayersView, then: u64, later: LayersView, now: u64)
    requires
        later.next_seq + WINDOW_NUMBERS <= u64::MAX,
    ensures
        ({
            let back = later.with_saved(saved.saved_layers(then), now);
            back.saved_layers(now) == saved.saved_layers(then)
        }),
{
    let fills = saved.fills;
    let seq0 = later.next_seq;
    let list = saved_fills(fills, then);
    let stamps = live_stamps(fills, then);
    the_order_follows_the_stamps(stamps);
    let order = stamp_order(stamps);
    lemma_at_most(order);
    assert forall|i: int, j: int| 0 <= i < j < list.len() implies (#[trigger] list[i]).win != (
    #[trigger] list[j]).win by {
        assert(order[i] != order[j]);
    }
    lemma_loaded_fills(list, now, seq0);
    covering_fills_come_back(fills, then, now, seq0);
    let back = loaded_fills(list, now, seq0).0;
    let again = live_stamps(back, now);
    assert(again.dom() =~= stamps.dom());
    the_order_follows_the_stamps(again);
    assert forall|i: int, j: int| 0 <= i < j < order.len() implies again[#[trigger] order[i]]
        < again[#[trigger] order[j]] by {
        assert(list[i].win == order[i] && list[j].win == order[j]);
        assert(order.contains(order[i]) && order.contains(order[j]));
    }
    assert forall|k: u8| #[trigger] stamp_order(again).contains(k) <==> order.contains(k) by {
        assert(again.dom().contains(k) <==> stamps.dom().contains(k));
    }
    lemma_one_order(stamp_order(again), order, again);
    assert forall|i: int| 0 <= i < list.len() implies #[trigger] saved_fills(back, now)[i]
        == list[i] by {
        assert(order.contains(order[i]));
        assert(back.dom().contains(order[i]));
    }
    assert(saved_fills(back, now) =~= list);
    anchors_come_back(saved.anchors);
}

/// Reading back a screen without fills and anchors leaves none.
pub proof fn nothing_saved_leaves_nothing(later: LayersView, now: u64)
    ensures
        later.without_saved().saved_layers(now).0.len() == 0,
        later.without_saved().saved_layers(now).1.len() == 0,
{
    let stamps = live_stamps(Map::<u8, WindowFill>::empty(), now);
    the_order_follows_the_stamps(stamps);
    let order = stamp_order(stamps);
    if order.len() > 0 {
        assert(order.contains(order[0]));
        assert(stamps.dom().contains(order[0]));
    }
    lemma_no_anchors(WINDOW_NUMBERS as nat);
}

/// No anchors are saved where there are none.
proof fn lemma_no_anchors(n: nat)
    ensures
        saved_anchors(Map::<u8, CanvasAnchor>::empty(), n).len() == 0,
    decreases n,
{
    if n > 0 {
        lemma_no_anchors((n - 1) as nat);
    }
}

} // verus!
