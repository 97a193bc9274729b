//! Keeping the last screen that was built, for as long as nothing it shows has changed.

use crate::canvas::{Canvas, CanvasView};
use crate::layers::WindowFill;
use crate::machine::Machine;
use crate::model::{
    all_layers, boxes_end, covered, left_out, live_fill, picture_layers, placed_window,
    retired_layer, shown_stamps, text_layers, text_node, v6_model, ModelView, ScreenModel,
};
use crate::screen::{canvas_views, canvases_wf, screen_model_from_machine, split_model,
    v6_screen_model};
use crate::session::GameSession;
use crate::windows::{WindowMap, WINDOW_NUMBERS};
use std::sync::Arc;
use vstd::prelude::*;

verus! {

/// All that a screen with windows is built from, reduced to what is cheap to compare. The
/// windows are stood for by their generation, a canvas by its version and its place in the
/// order of drawing, and a fill by its place.
#[derive(Debug)]
pub struct V6ModelKey {
    pub generation: u64,
    pub cell: (u16, u16),
    pub input_window: u8,
    pub win0_out_chars: u64,
    pub screen_px: (u16, u16),
    pub screen_chars: (u8, u8),
    pub page_pair: Option<(u32, u32)>,
    /// The window, the version and the place of each canvas, in the order of the windows.
    pub canvases: Vec<(u8, u64, u64)>,
    /// The window and the place of each fill, in the order of the windows.
    pub fills: Vec<(u8, u64)>,
}

/// The model of a [`V6ModelKey`].
#[verifier::ext_equal]
pub struct KeyView {
    pub generation: u64,
    pub cell: (u16, u16),
    pub input_window: u8,
    pub win0_out_chars: u64,
    pub screen_px: (u16, u16),
    pub screen_chars: (u8, u8),
    pub page_pair: Option<(u32, u32)>,
    pub canvases: Seq<(u8, u64, u64)>,
    pub fills: Seq<(u8, u64)>,
}

impl V6ModelKey {
    /// The model of the key.
    pub open spec fn view(&self) -> KeyView {
        KeyView {
            generation: self.generation,
            cell: self.cell,
            input_window: self.input_window,
            win0_out_chars: self.win0_out_chars,
            screen_px: self.screen_px,
            screen_chars: self.screen_chars,
            page_pair: self.page_pair,
            canvases: self.canvases@,
            fills: self.fills@,
        }
    }
}

/// The canvases of the windows below `n`, as a key lists them.
pub open spec fn canvas_keys(canvases: Map<u8, CanvasView>, n: nat) -> Seq<(u8, u64, u64)>
    decreases n,
{
    if n == 0 {
        seq![]
    } else {
        let k = (n - 1) as u8;
        let before = canvas_keys(canvases, (n - 1) as nat);
        if canvases.dom().contains(k) {
            before.push((k, canvases[k].version, canvases[k].z_seq))
        } else {
            before
        }
    }
}

/// The fills of the windows below `n`, as a key lists them.
pub open spec fn fill_keys(fills: Map<u8, WindowFill>, n: nat) -> Seq<(u8, u64)>
    decreases n,
{
    if n == 0 {
        seq![]
    } else {
        let k = (n - 1) as u8;
        let before = fill_keys(fills, (n - 1) as nat);
        if fills.dom().contains(k) {
            before.push((k, fills[k].seq))
        } else {
            before
        }
    }
}

/// The key of a screen with windows.
pub open spec fn key_of(
    m: &Machine,
    canvases: Map<u8, CanvasView>,
    fills: Map<u8, WindowFill>,
) -> KeyView {
    KeyView {
        generation: m.v6_generation,
        cell: m.cell,
        input_window: m.input_window,
        win0_out_chars: m.win0_out_chars,
        screen_px: (m.screen_w_px, m.screen_h_px),
        screen_chars: (m.screen_rows, m.screen_cols),
        page_pair: m.page_pair,
        canvases: canvas_keys(canvases, WINDOW_NUMBERS as nat),
        fills: fill_keys(fills, WINDOW_NUMBERS as nat),
    }
}

/// Whether a screen is the one of an interpreter, its canvases and its fills, and a key
/// their key.
pub open spec fn built_from(
    m: Machine,
    canvases: Map<u8, CanvasView>,
    fills: Map<u8, WindowFill>,
    key: KeyView,
    model: ModelView,
) -> bool {
    key_of(&m, canvases, fills) == key && v6_model(&m, canvases, fills) == model
}

/// Whether a screen was built for a key.
pub open spec fn built_for(key: KeyView, model: ModelView) -> bool {
    exists|m: Machine, canvases: Map<u8, CanvasView>, fills: Map<u8, WindowFill>| #[trigger]
        built_from(m, canvases, fills, key, model)
}

/// Whether a screen that is held is whole, and was built for the key it is held under.
pub open spec fn memo_wf(memo: Option<(V6ModelKey, Arc<ScreenModel>)>) -> bool {
    memo matches Some(held) ==> held.1.root.wf() && built_for(held.0@, held.1@)
}

/// Makes the key of a screen with windows.
pub fn v6_model_key(m: &Machine, visible: &WindowMap<Canvas>, fills: &WindowMap<WindowFill>) -> (r:
    V6ModelKey)
    requires
        visible.wf(),
        fills.wf(),
    ensures
        r@ == key_of(m, canvas_views(visible@), fills@),
{
    let mut canvas_list: Vec<(u8, u64, u64)> = Vec::new();
    let mut fill_list: Vec<(u8, u64)> = Vec::new();
    let mut n: usize = 0;
    while n < WINDOW_NUMBERS
        invariant
            n <= WINDOW_NUMBERS,
            visible.wf(),
            fills.wf(),
            canvas_list@ == canvas_keys(canvas_views(visible@), n as nat),
            fill_list@ == fill_keys(fills@, n as nat),
        decreases WINDOW_NUMBERS - n,
    {
        let k: u8 = n as u8;
        if let Some(c) = visible.get(k) {
            canvas_list.push((k, c.version, c.z_seq));
        }
        if let Some(f) = fills.get(k) {
            fill_list.push((k, f.seq));
        }
        n = n + 1;
    }
    V6ModelKey {
        generation: m.v6_generation,
        cell: m.cell,
        input_window: m.input_window,
        win0_out_chars: m.win0_out_chars,
        screen_px: (m.screen_w_px, m.screen_h_px),
        screen_chars: (m.screen_rows, m.screen_cols),
        page_pair: m.page_pair,
        canvases: canvas_list,
        fills: fill_list,
    }
}

/// Compares two keys.
fn same_key(a: &V6ModelKey, b: &V6ModelKey) -> (r: bool)
    ensures
        r == (a@ == b@),
{
    let same_pair: bool = match (a.page_pair, b.page_pair) {
        (Some(p), Some(q)) => p.0 == q.0 && p.1 == q.1,
        (None, None) => true,
        _ => false,
    };
    if a.generation != b.generation || a.cell.0 != b.cell.0 || a.cell.1 != b.cell.1
        || a.input_window != b.input_window || a.win0_out_chars != b.win0_out_chars
        || a.screen_px.0 != b.screen_px.0 || a.screen_px.1 != b.screen_px.1 || a.screen_chars.0
        != b.screen_chars.0 || a.screen_chars.1 != b.screen_chars.1 || !same_pair
        || a.canvases.len() != b.canvases.len() || a.fills.len() != b.fills.len() {
        return false;
    }
    let mut i: usize = 0;
    while i < a.canvases.len()
        invariant
            i <= a.canvases@.len() == b.canvases@.len(),
            forall|j: int| 0 <= j < i ==> #[trigger] a.canvases@[j] == b.canvases@[j],
        decreases a.canvases.len() - i,
    {
        let p: (u8, u64, u64) = a.canvases[i];
        let q: (u8, u64, u64) = b.canvases[i];
        if p.0 != q.0 || p.1 != q.1 || p.2 != q.2 {
            assert(a@.canvases[i as int] != b@.canvases[i as int]);
            return false;
        }
        i = i + 1;
    }
    let mut k: usize = 0;
    while k < a.fills.len()
        invariant
            k <= a.fills@.len() == b.fills@.len(),
            forall|j: int| 0 <= j < k ==> #[trigger] a.fills@[j] == b.fills@[j],
        decreases a.fills.len() - k,
    {
        let p: (u8, u64) = a.fills[k];
        let q: (u8, u64) = b.fills[k];
        if p.0 != q.0 || p.1 != q.1 {
            assert(a@.fills[k as int] != b@.fills[k as int]);
            return false;
        }
        k = k + 1;
    }
    assert(a@ =~= b@);
    true
}

/// Hands out another handle on a shared value.
///
/// Makes one call of `Arc::clone`, which is documented to return a pointer to the same
/// value; what is claimed is that the value behind both is one.
#[verifier::external_body]
pub(crate) fn share<T>(m: &Arc<T>) -> (r: Arc<T>)
    ensures
        r == *m,
{
    Arc::clone(m)
}

impl GameSession {
    /// The canvases on the screen now: those of the frame that is up while a sequence of
    /// pictures plays, and otherwise the settled ones.
    pub open spec fn shown_canvases(&self) -> Map<u8, CanvasView> {
        if self.paced_frames@.len() > 0 {
            self.paced_frames@[0]@.canvases
        } else {
            self.layers@.canvases
        }
    }

    /// The canvases on the screen now.
    pub fn visible_canvas(&self) -> (r: &WindowMap<Canvas>)
        requires
            self.wf(),
        ensures
            canvases_wf(r),
            canvas_views(r@) == self.shown_canvases(),
    {
        if self.paced_frames.len() > 0 {
            assert(self.paced_frames@[0].wf());
            let r = &self.paced_frames[0].canvas;
            assert(canvas_views(r@) =~= self.paced_frames@[0]@.canvases);
            r
        } else {
            let r = &self.layers.pictures_canvas;
            assert(canvas_views(r@) =~= self.layers@.canvases);
            r
        }
    }

    /// Builds the settled screen.
    pub fn screen(&self) -> (r: ScreenModel)
        requires
            self.wf(),
            boxes_end(&self.machine),
        ensures
            r@ == (if self.machine.v6 is Some {
                v6_model(&self.machine, self.layers@.canvases, self.layers@.fills)
            } else {
                split_model(&self.machine)
            }),
            r.root.wf(),
    {
        if self.machine.v6.is_some() {
            assert(canvas_views(self.layers.pictures_canvas@) =~= self.layers@.canvases);
            v6_screen_model(&self.machine, &self.layers.pictures_canvas, &self.layers.window_fills)
        } else {
            screen_model_from_machine(&self.machine)
        }
    }

    /// The screen that is held, if it was built for what is to be shown now.
    pub open spec fn held_now(&self) -> Option<Arc<ScreenModel>> {
        match self.v6_model_memo {
            Some(held) => if held.0@ == key_of(
                &self.machine,
                self.shown_canvases(),
                self.layers@.fills,
            ) {
                Some(held.1)
            } else {
                None
            },
            None => None,
        }
    }

    /// Hands out the screen with windows as it is now: the one that is held, where its key
    /// is the key of now, or else one built afresh, which is then held.
    pub fn v6_screen_model_shared(&mut self) -> (r: Arc<ScreenModel>)
        requires
            old(self).wf(),
            old(self).machine.v6 is Some,
            boxes_end(&old(self).machine),
        ensures
            final(self).wf(),
            final(self).held_now() == Some(r),
            r.root.wf(),
            built_for(
                key_of(&old(self).machine, old(self).shown_canvases(), old(self).layers@.fills),
                r@,
            ),
            match old(self).held_now() {
                Some(held) => r == held && *final(self) == *old(self),
                None => r@ == v6_model(
                    &old(self).machine,
                    old(self).shown_canvases(),
                    old(self).layers@.fills,
                ),
            },
            *final(self) == (GameSession { v6_model_memo: final(self).v6_model_memo, ..*old(self) }),
    {
        let key: V6ModelKey = v6_model_key(
            &self.machine,
            self.visible_canvas(),
            &self.layers.window_fills,
        );
        match &self.v6_model_memo {
            Some(held) => {
                if same_key(&held.0, &key) {
                    return share(&held.1);
                }
            },
            None => {},
        }
        let model: Arc<ScreenModel> = Arc::new(
            v6_screen_model(&self.machine, self.visible_canvas(), &self.layers.window_fills),
        );
        let r: Arc<ScreenModel> = share(&model);
        assert(built_from(
            self.machine,
            self.shown_canvases(),
            self.layers@.fills,
            key@,
            model@,
        ));
        self.v6_model_memo = Some((key, model));
        r
    }

    /// Hands out the screen as it is now: the settled one, or the frame that is up while a
    /// sequence of pictures plays.
    pub fn screen_now(&mut self) -> (r: Arc<ScreenModel>)
        requires
            old(self).wf(),
            boxes_end(&old(self).machine),
        ensures
            final(self).wf(),
            r.root.wf(),
            old(self).machine.v6 is None ==> r@ == split_model(&old(self).machine)
                && *final(self) == *old(self),
            old(self).machine.v6 is Some ==> final(self).held_now() == Some(r) && built_for(
                key_of(&old(self).machine, old(self).shown_canvases(), old(self).layers@.fills),
                r@,
            ) && match old(self).held_now() {
                Some(held) => r == held,
                None => r@ == v6_model(
                    &old(self).machine,
                    old(self).shown_canvases(),
                    old(self).layers@.fills,
                ),
            },
            *final(self) == (GameSession { v6_model_memo: final(self).v6_model_memo, ..*old(self) }),
    {
        if self.machine.v6.is_some() {
            self.v6_screen_model_shared()
        } else {
            Arc::new(screen_model_from_machine(&self.machine))
        }
    }
}

// ── Laws ──────────────────────────────────────────────────────────────────────
/// The lists of a key tell which windows have a canvas, and the version and the place of
/// each.
proof fn lemma_canvas_keys(a: Map<u8, CanvasView>, b: Map<u8, CanvasView>, n: nat)
    requires
        n <= WINDOW_NUMBERS,
        canvas_keys(a, n) == canvas_keys(b, n),
    ensures
        forall|k: u8|
            k < n ==> (#[trigger] a.dom().contains(k) <==> b.dom().contains(k)) && (a.dom().contains(
                k,
            ) ==> a[k].version == b[k].version && a[k].z_seq == b[k].z_seq),
    decreases n,
{
    if n > 0 {
        let k = (n - 1) as u8;
        lemma_canvas_keys_below(a, (n - 1) as nat);
        lemma_canvas_keys_below(b, (n - 1) as nat);
        let pa = canvas_keys(a, (n - 1) as nat);
        let pb = canvas_keys(b, (n - 1) as nat);
        let s = canvas_keys(a, n);
        if a.dom().contains(k) && !b.dom().contains(k) {
            assert(s.last() == (k, a[k].version, a[k].z_seq));
            assert(pb.last().0 < n - 1);
        } else if !a.dom().contains(k) && b.dom().contains(k) {
            assert(canvas_keys(b, n).last() == (k, b[k].version, b[k].z_seq));
            assert(pa.last().0 < n - 1);
        } else if a.dom().contains(k) {
            assert(s.last() == (k, a[k].version, a[k].z_seq));
            assert(canvas_keys(b, n).last() == (k, b[k].version, b[k].z_seq));
            assert(pa =~= s.drop_last());
            assert(pb =~= s.drop_last());
        }
        lemma_canvas_keys(a, b, (n - 1) as nat);
    }
}

/// The canvases listed below a window are those of windows below it.
proof fn lemma_canvas_keys_below(a: Map<u8, CanvasView>, n: nat)
    requires
        n <= WINDOW_NUMBERS,
    ensures
        forall|i: int|
            0 <= i < canvas_keys(a, n).len() ==> (#[trigger] canvas_keys(a, n)[i]).0 < n,
    decreases n,
{
    if n > 0 {
        lemma_canvas_keys_below(a, (n - 1) as nat);
        let before = canvas_keys(a, (n - 1) as nat);
        let now = canvas_keys(a, n);
        assert forall|i: int| 0 <= i < now.len() implies (#[trigger] now[i]).0 < n by {
            if i < before.len() {
                assert(now[i] == before[i]);
            }
        }
    }
}

/// The lists of a key tell which windows have a fill, and the place of each.
proof fn lemma_fill_keys(a: Map<u8, WindowFill>, b: Map<u8, WindowFill>, n: nat)
    requires
        n <= WINDOW_NUMBERS,
        fill_keys(a, n) == fill_keys(b, n),
    ensures
        forall|k: u8|
            k < n ==> (#[trigger] a.dom().contains(k) <==> b.dom().contains(k)) && (a.dom().contains(
                k,
            ) ==> a[k].seq == b[k].seq),
    decreases n,
{
    if n > 0 {
        let k = (n - 1) as u8;
        lemma_fill_keys_below(a, (n - 1) as nat);
        lemma_fill_keys_below(b, (n - 1) as nat);
        let pa = fill_keys(a, (n - 1) as nat);
        let pb = fill_keys(b, (n - 1) as nat);
        let s = fill_keys(a, n);
        if a.dom().contains(k) && !b.dom().contains(k) {
            assert(s.last() == (k, a[k].seq));
            assert(pb.last().0 < n - 1);
        } else if !a.dom().contains(k) && b.dom().contains(k) {
            assert(fill_keys(b, n).last() == (k, b[k].seq));
            assert(pa.last().0 < n - 1);
        } else if a.dom().contains(k) {
            assert(s.last() == (k, a[k].seq));
            assert(fill_keys(b, n).last() == (k, b[k].seq));
            assert(pa =~= s.drop_last());
            assert(pb =~= s.drop_last());
        }
        lemma_fill_keys(a, b, (n - 1) as nat);
    }
}

/// The fills listed below a window are those of windows below it.
proof fn lemma_fill_keys_below(a: Map<u8, WindowFill>, n: nat)
    requires
        n <= WINDOW_NUMBERS,
    ensures
        forall|i: int| 0 <= i < fill_keys(a, n).len() ==> (#[trigger] fill_keys(a, n)[i]).0 < n,
    decreases n,
{
    if n > 0 {
        lemma_fill_keys_below(a, (n - 1) as nat);
        let before = fill_keys(a, (n - 1) as nat);
        let now = fill_keys(a, n);
        assert forall|i: int| 0 <= i < now.len() implies (#[trigger] now[i]).0 < n by {
            if i < before.len() {
                assert(now[i] == before[i]);
            }
        }
    }
}

/// Whether two interpreters agree in all that a screen with windows is built from.
pub open spec fn look_alike(a: &Machine, b: &Machine) -> bool {
    &&& a.v6 == b.v6
    &&& a.cell == b.cell
    &&& a.input_window == b.input_window
    &&& a.win0_out_chars == b.win0_out_chars
    &&& a.screen_w_px == b.screen_w_px
    &&& a.screen_h_px == b.screen_h_px
    &&& a.screen_rows == b.screen_rows
    &&& a.screen_cols == b.screen_cols
    &&& a.page_pair == b.page_pair
}

/// Interpreters that look alike have the same text layers.
proof fn lemma_same_text(
    a: &Machine,
    b: &Machine,
    drawn: Set<u8>,
    fills: Map<u8, WindowFill>,
    n: nat,
)
    requires
        look_alike(a, b),
    ensures
        text_layers(a, drawn, fills, n) == text_layers(b, drawn, fills, n),
    decreases n,
{
    if n > 0 {
        lemma_same_text(a, b, drawn, fills, (n - 1) as nat);
        let win = (n - 1) as u8;
        assert(a.window(win) == b.window(win));
        assert(left_out(a, drawn, win) == left_out(b, drawn, win));
        assert(live_fill(a, fills, win) == live_fill(b, fills, win));
        assert(text_node(a, fills, win) == text_node(b, fills, win));
        assert(retired_layer(a, a.window(win)) == retired_layer(b, b.window(win)));
        assert(placed_window(a, a.window(win), text_node(a, fills, win)) == placed_window(
            b,
            b.window(win),
            text_node(b, fills, win),
        ));
    }
}

/// Once a sequence of pictures has settled, what is shown is the settled screen.
pub proof fn a_settled_sequence_shows_the_settled_screen(s: GameSession)
    requires
        s.paced_frames@.len() == 0,
    ensures
        v6_model(&s.machine, s.shown_canvases(), s.layers@.fills) == v6_model(
            &s.machine,
            s.layers@.canvases,
            s.layers@.fills,
        ),
{
}

/// A held screen is never stale: where two screens have one key, and each stamp stands for
/// what it is given to (a generation for the windows, a version and a place for a canvas, a
/// place for a fill), the two are shown alike.
pub proof fn one_key_one_screen(
    a: &Machine,
    b: &Machine,
    canvases_a: Map<u8, CanvasView>,
    canvases_b: Map<u8, CanvasView>,
    fills_a: Map<u8, WindowFill>,
    fills_b: Map<u8, WindowFill>,
)
    requires
        key_of(a, canvases_a, fills_a) == key_of(b, canvases_b, fills_b),
        a.version > 3,
        b.version > 3,
        a.v6_generation == b.v6_generation ==> a.v6 == b.v6,
        forall|k: u8|
            canvases_a.dom().contains(k) && canvases_b.dom().contains(k)
                && canvases_a[k].version == canvases_b[k].version && canvases_a[k].z_seq
                == canvases_b[k].z_seq ==> #[trigger] canvases_a[k] == canvases_b[k],
        forall|k: u8|
            fills_a.dom().contains(k) && fills_b.dom().contains(k) && fills_a[k].seq
                == fills_b[k].seq ==> #[trigger] fills_a[k] == fills_b[k],
    ensures
        v6_model(a, canvases_a, fills_a) == v6_model(b, canvases_b, fills_b),
{
    let n = WINDOW_NUMBERS as nat;
    assert(key_of(a, canvases_a, fills_a).canvases == canvas_keys(canvases_a, n));
    assert(key_of(b, canvases_b, fills_b).canvases == canvas_keys(canvases_b, n));
    assert(key_of(a, canvases_a, fills_a).fills == fill_keys(fills_a, n));
    assert(key_of(b, canvases_b, fills_b).fills == fill_keys(fills_b, n));
    lemma_canvas_keys(canvases_a, canvases_b, n);
    lemma_fill_keys(fills_a, fills_b, n);
    assert forall|k: u8| #[trigger] canvases_a.dom().contains(k) <==> canvases_b.dom().contains(
        k,
    ) by {
        assert(k < n);
    }
    assert forall|k: u8| #[trigger] fills_a.dom().contains(k) <==> fills_b.dom().contains(k) by {
        assert(k < n);
    }
    assert(canvases_a =~= canvases_b);
    assert(fills_a =~= fills_b);
    let ka = key_of(a, canvases_a, fills_a);
    let kb = key_of(b, canvases_b, fills_b);
    assert(ka.generation == kb.generation && ka.cell == kb.cell && ka.screen_px == kb.screen_px
        && ka.screen_chars == kb.screen_chars);
    assert(look_alike(a, b));
    lemma_same_text(a, b, canvases_a.dom(), fills_a, a.v6->0.windows@.len());
    assert(shown_stamps(a, canvases_a) =~= shown_stamps(b, canvases_a)) by {
        assert forall|k: u8| shown_stamps(a, canvases_a).dom().contains(k) <==> shown_stamps(
            b,
            canvases_a,
        ).dom().contains(k) by {
            assert(left_out(a, canvases_a.dom(), k) == left_out(b, canvases_a.dom(), k));
        }
    }
    let pa = picture_layers(a, canvases_a);
    let pb = picture_layers(b, canvases_a);
    assert forall|i: int| 0 <= i < pa.len() implies pa[i] == pb[i] by {}
    assert(pa =~= pb);
    assert(all_layers(a, canvases_a, fills_a) == all_layers(b, canvases_b, fills_b));
    assert(covered(a, all_layers(a, canvases_a, fills_a)) == covered(
        b,
        all_layers(b, canvases_b, fills_b),
    ));
}

} // verus!
