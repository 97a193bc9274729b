//! Display lists: what was drawn into a window and erased from it, in order, so that the
//! window can be drawn again.

use crate::raster::{blank, blitted, clear, filled, has_extent, in_box, Grid};
use vstd::prelude::*;

verus! {

/// One entry of a window's display list, in the coordinates of the window's canvas.
#[derive(Clone, Copy, Debug, PartialEq, Eq, Structural)]
pub enum V6Op {
    Draw { number: u16, dx: i32, dy: i32 },
    Erase { dx: i32, dy: i32, w: u32, h: u32 },
}

/// The longest display list that is kept for a window.
pub const V6_OPS_CAP: usize = 512;

/// Whether an erasure covers the whole of a canvas.
pub open spec fn is_full_erase(op: V6Op, w: u32, h: u32) -> bool {
    op matches V6Op::Erase { dx, dy, w: ew, h: eh } && dx <= 0 && dy <= 0 && dx + ew >= w && dy + eh
        >= h
}

/// Whether an entry is an erasure that lies entirely inside the box of another erasure.
pub open spec fn lies_inside(prev: V6Op, op: V6Op) -> bool {
    prev matches V6Op::Erase { dx: px, dy: py, w: pw, h: ph} && op matches V6Op::Erase {
        dx,
        dy,
        w,
        h,
    } && px >= dx && py >= dy && px + pw <= dx + w && py + ph <= dy + h
}

/// A display list without the erasures that a new entry makes pointless.
pub open spec fn pruned(ops: Seq<V6Op>, op: V6Op) -> Seq<V6Op> {
    ops.filter(|p: V6Op| !lies_inside(p, op))
}

/// Tests whether an erasure covers the whole of a canvas.
pub fn covers_canvas(op: V6Op, w: u32, h: u32) -> (r: bool)
    ensures
        r == is_full_erase(op, w, h),
{
    match op {
        V6Op::Erase { dx, dy, w: ew, h: eh } => dx <= 0 && dy <= 0 && dx as i64 + ew as i64
            >= w as i64 && dy as i64 + eh as i64 >= h as i64,
        V6Op::Draw { .. } => false,
    }
}

/// Tests whether an entry is an erasure inside another.
fn inside(prev: V6Op, op: V6Op) -> (r: bool)
    ensures
        r == lies_inside(prev, op),
{
    match (prev, op) {
        (V6Op::Erase { dx: px, dy: py, w: pw, h: ph }, V6Op::Erase { dx, dy, w, h }) => {
            px >= dx && py >= dy && px as i64 + pw as i64 <= dx as i64 + w as i64 && py as i64
                + ph as i64 <= dy as i64 + h as i64
        },
        _ => false,
    }
}

/// Removes the erasures that a new entry makes pointless.
pub fn prune(ops: &Vec<V6Op>, op: V6Op) -> (r: Vec<V6Op>)
    ensures
        r@ == pruned(ops@, op),
{
    let ghost p = |p: V6Op| !lies_inside(p, op);
    let mut r: Vec<V6Op> = Vec::new();
    let mut i: usize = 0;
    assert(r@ =~= ops@.take(0).filter(p)) by {
        reveal(Seq::filter);
    }
    while i < ops.len()
        invariant
            i <= ops@.len(),
            p == (|p: V6Op| !lies_inside(p, op)),
            r@ == ops@.take(i as int).filter(p),
        decreases ops.len() - i,
    {
        proof {
            assert(ops@.take(i + 1).drop_last() =~= ops@.take(i as int));
            reveal(Seq::filter);
        }
        if !inside(ops[i], op) {
            r.push(ops[i]);
        }
        i = i + 1;
    }
    assert(ops@.take(i as int) =~= ops@);
    r
}

/// Copies a display list.
pub fn copy_ops(ops: &Vec<V6Op>) -> (r: Vec<V6Op>)
    ensures
        r@ == ops@,
{
    let mut r: Vec<V6Op> = Vec::new();
    let mut i: usize = 0;
    while i < ops.len()
        invariant
            i <= ops@.len(),
            r@ == ops@.take(i as int),
        decreases ops.len() - i,
    {
        r.push(ops[i]);
        i = i + 1;
    }
    assert(ops@.take(i as int) =~= ops@);
    r
}

// ── Replaying ─────────────────────────────────────────────────────────────────
/// A canvas of `w` × `h` after one entry, where `art` gives the pictures as they stand on
/// the screen. A picture that is not there draws nothing.
pub open spec fn after_op(g: Grid, art: Map<u16, Grid>, op: V6Op, w: int, h: int) -> Grid {
    match op {
        V6Op::Erase { dx, dy, w: ew, h: eh } => filled(
            g,
            dx as int,
            dy as int,
            dx + ew,
            dy + eh,
            clear(),
        ),
        V6Op::Draw { number, dx, dy } => if art.dom().contains(number) {
            blitted(g, art[number], dx as int, dy as int, w, h)
        } else {
            g
        },
    }
}

/// What a display list draws on a blank canvas of `w` × `h`.
pub open spec fn replayed(ops: Seq<V6Op>, art: Map<u16, Grid>, w: nat, h: nat) -> Grid
    decreases ops.len(),
{
    if ops.len() == 0 {
        blank(w, h)
    } else {
        after_op(replayed(ops.drop_last(), art, w, h), art, ops.last(), w as int, h as int)
    }
}

/// Whether a point lies in the box of an erasure.
pub open spec fn erases(op: V6Op, x: int, y: int) -> bool {
    op matches V6Op::Erase { dx, dy, w, h } && in_box(x, y, dx as int, dy as int, dx + w, dy + h)
}

/// Whether two canvases of one extent agree outside the box of an erasure.
pub open spec fn agree_outside(a: Grid, b: Grid, op: V6Op, w: int, h: int) -> bool {
    &&& has_extent(a, w, h)
    &&& has_extent(b, w, h)
    &&& forall|x: int, y: int|
        0 <= x < w && 0 <= y < h && !erases(op, x, y) ==> #[trigger] a[y][x] == b[y][x]
}

/// An entry keeps the extent of a canvas.
pub proof fn lemma_op_keeps_extent(g: Grid, art: Map<u16, Grid>, op: V6Op, w: int, h: int)
    requires
        has_extent(g, w, h),
    ensures
        has_extent(after_op(g, art, op, w, h), w, h),
{
}

/// A replay has the extent of its canvas.
pub proof fn lemma_replay_extent(ops: Seq<V6Op>, art: Map<u16, Grid>, w: nat, h: nat)
    ensures
        has_extent(replayed(ops, art, w, h), w as int, h as int),
    decreases ops.len(),
{
    if ops.len() > 0 {
        lemma_replay_extent(ops.drop_last(), art, w, h);
        lemma_op_keeps_extent(
            replayed(ops.drop_last(), art, w, h),
            art,
            ops.last(),
            w as int,
            h as int,
        );
    }
}

/// Leaving out the erasures inside a box changes nothing outside the box.
proof fn lemma_pruned_agrees(ops: Seq<V6Op>, op: V6Op, art: Map<u16, Grid>, w: nat, h: nat)
    ensures
        agree_outside(
            replayed(ops, art, w, h),
            replayed(pruned(ops, op), art, w, h),
            op,
            w as int,
            h as int,
        ),
    decreases ops.len(),
{
    let p = |p: V6Op| !lies_inside(p, op);
    reveal(Seq::filter);
    lemma_replay_extent(ops, art, w, h);
    lemma_replay_extent(pruned(ops, op), art, w, h);
    if ops.len() > 0 {
        let front = ops.drop_last();
        let last = ops.last();
        lemma_pruned_agrees(front, op, art, w, h);
        let a = replayed(front, art, w, h);
        let b = replayed(pruned(front, op), art, w, h);
        let a1 = replayed(ops, art, w, h);
        let b1 = replayed(pruned(ops, op), art, w, h);
        if p(last) {
            assert(pruned(ops, op).drop_last() =~= pruned(front, op));
            assert(pruned(ops, op).last() == last);
            assert forall|x: int, y: int|
                0 <= x < w && 0 <= y < h && !erases(op, x, y) implies #[trigger] a1[y][x]
                == b1[y][x] by {
                assert(a[y][x] == b[y][x]);
                assert(a[y].len() == w && b[y].len() == w);
            }
        } else {
            assert(pruned(ops, op) =~= pruned(front, op));
            assert forall|x: int, y: int|
                0 <= x < w && 0 <= y < h && !erases(op, x, y) implies #[trigger] a1[y][x]
                == b1[y][x] by {
                assert(a[y][x] == b[y][x]);
                assert(a[y].len() == w);
            }
        }
    }
}

/// Pruning a display list before an erasure is recorded changes nothing of what the list
/// draws.
pub proof fn pruning_keeps_the_picture(
    ops: Seq<V6Op>,
    op: V6Op,
    art: Map<u16, Grid>,
    w: nat,
    h: nat,
)
    ensures
        replayed(pruned(ops, op).push(op), art, w, h) == replayed(ops.push(op), art, w, h),
{
    lemma_pruned_agrees(ops, op, art, w, h);
    let a = replayed(ops, art, w, h);
    let b = replayed(pruned(ops, op), art, w, h);
    assert(ops.push(op).drop_last() =~= ops);
    assert(pruned(ops, op).push(op).drop_last() =~= pruned(ops, op));
    let a1 = after_op(a, art, op, w as int, h as int);
    let b1 = after_op(b, art, op, w as int, h as int);
    if op is Erase {
        assert forall|y: int| 0 <= y < h implies a1[y] =~= b1[y] by {
            assert forall|x: int| 0 <= x < w implies a1[y][x] == b1[y][x] by {
                if !erases(op, x, y) {
                    assert(a[y][x] == b[y][x]);
                }
            }
        }
        assert(a1 =~= b1);
    } else {
        assert(ops.filter(|p: V6Op| !lies_inside(p, op)) =~= ops) by {
            lemma_filter_all(ops, |p: V6Op| !lies_inside(p, op));
        }
    }
}

/// A filter that drops nothing.
proof fn lemma_filter_all(ops: Seq<V6Op>, p: spec_fn(V6Op) -> bool)
    requires
        forall|i: int| 0 <= i < ops.len() ==> p(#[trigger] ops[i]),
    ensures
        ops.filter(p) == ops,
    decreases ops.len(),
{
    reveal(Seq::filter);
    if ops.len() > 0 {
        lemma_filter_all(ops.drop_last(), p);
        assert(ops.drop_last().push(ops.last()) =~= ops);
    }
}

/// An erasure of the whole canvas makes everything before it pointless.
pub proof fn a_full_erasure_starts_afresh(
    ops: Seq<V6Op>,
    op: V6Op,
    art: Map<u16, Grid>,
    w: u32,
    h: u32,
)
    requires
        is_full_erase(op, w, h),
    ensures
        replayed(ops.push(op), art, w as nat, h as nat) == replayed(
            seq![op],
            art,
            w as nat,
            h as nat,
        ),
{
    lemma_replay_extent(ops, art, w as nat, h as nat);
    assert(ops.push(op).drop_last() =~= ops);
    assert(seq![op].drop_last() =~= seq![]);
    let a = replayed(ops, art, w as nat, h as nat);
    let b = replayed(seq![op].drop_last(), art, w as nat, h as nat);
    let a1 = after_op(a, art, op, w as int, h as int);
    let b1 = after_op(b, art, op, w as int, h as int);
    assert forall|y: int| 0 <= y < h implies a1[y] =~= b1[y] by {}
    assert(a1 =~= b1);
}

} // verus!
