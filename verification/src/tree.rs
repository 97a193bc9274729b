//! The tree of a game's objects, as lines.

use crate::debug::{lemma_six_digits, lemma_tells_dec, lemma_tells_hex, tells_dec, tells_hex};
use crate::text::{dec, dec_int, hex_pad, push_dec, push_hex, push_spaces, spaces, string_views};
use vstd::prelude::*;

verus! {

/// An object: its number, its links, its name and the address that its line leads to.
#[derive(Debug)]
pub struct ObjectEntry {
    pub number: u16,
    pub parent: u16,
    pub child: u16,
    pub sibling: u16,
    pub name: String,
    pub addr: u32,
}

/// The address that an object's line leads to: that of its properties, which start with its
/// name, or of its entry where it has none.
pub fn line_address(prop_table: Option<u32>, entry: u32) -> (r: u32)
    ensures
        r == (match prop_table {
            Some(p) => p,
            None => entry,
        }),
{
    match prop_table {
        Some(p) => p,
        None => entry,
    }
}

/// The objects of a game. An object that is not listed has no links, no name and no address.
#[derive(Debug)]
pub struct ObjectTable {
    pub entries: Vec<ObjectEntry>,
}

/// Where an object is listed first; the number of entries if it is not.
pub open spec fn find_object(v: Seq<ObjectEntry>, number: u16) -> int
    decreases v.len(),
{
    if v.len() == 0 || v[0].number == number {
        0
    } else {
        1 + find_object(v.drop_first(), number)
    }
}

/// Where an object is listed first is the first place that it is listed at.
proof fn lemma_find_object(v: Seq<ObjectEntry>, number: u16, k: int)
    requires
        0 <= k <= v.len(),
        k < v.len() ==> v[k].number == number,
        forall|i: int| 0 <= i < k ==> (#[trigger] v[i]).number != number,
    ensures
        find_object(v, number) == k,
    decreases k,
{
    if k > 0 {
        assert(v[0].number != number);
        assert forall|i: int| 0 <= i < k - 1 implies (#[trigger] v.drop_first()[i]).number
            != number by {
            assert(v.drop_first()[i] == v[i + 1]);
        }
        lemma_find_object(v.drop_first(), number, k - 1);
    }
}

impl ObjectTable {
    /// Whether an object is listed.
    pub open spec fn has(&self, o: u16) -> bool {
        0 <= find_object(self.entries@, o) < self.entries@.len()
    }

    /// The entry of an object.
    pub open spec fn entry(&self, o: u16) -> ObjectEntry {
        self.entries@[find_object(self.entries@, o)]
    }

    /// The object that an object is in.
    pub open spec fn parent_of(&self, o: u16) -> u16 {
        if self.has(o) {
            self.entry(o).parent
        } else {
            0
        }
    }

    /// The first object in an object.
    pub open spec fn child_of(&self, o: u16) -> u16 {
        if self.has(o) {
            self.entry(o).child
        } else {
            0
        }
    }

    /// The next object in the same object.
    pub open spec fn sibling_of(&self, o: u16) -> u16 {
        if self.has(o) {
            self.entry(o).sibling
        } else {
            0
        }
    }

    /// The name of an object.
    pub open spec fn name_of(&self, o: u16) -> Seq<char> {
        if self.has(o) {
            self.entry(o).name@
        } else {
            seq![]
        }
    }

    /// The address of an object.
    pub open spec fn addr_of(&self, o: u16) -> u32 {
        if self.has(o) {
            self.entry(o).addr
        } else {
            0
        }
    }

    /// Looks an object up.
    fn find(&self, o: u16) -> (r: Option<&ObjectEntry>)
        ensures
            r is Some == self.has(o),
            r matches Some(e) ==> *e == self.entry(o),
    {
        let mut i: usize = 0;
        while i < self.entries.len() && self.entries[i].number != o
            invariant
                i <= self.entries@.len(),
                forall|j: int| 0 <= j < i ==> (#[trigger] self.entries@[j]).number != o,
            decreases self.entries.len() - i,
        {
            i = i + 1;
        }
        proof {
            lemma_find_object(self.entries@, o, i as int);
        }
        if i < self.entries.len() {
            Some(&self.entries[i])
        } else {
            None
        }
    }

    /// The object that an object is in; zero for none.
    pub fn parent(&self, o: u16) -> (r: u16)
        ensures
            r == self.parent_of(o),
    {
        match self.find(o) {
            Some(e) => e.parent,
            None => 0,
        }
    }

    /// The first object in an object; zero for none.
    pub fn child(&self, o: u16) -> (r: u16)
        ensures
            r == self.child_of(o),
    {
        match self.find(o) {
            Some(e) => e.child,
            None => 0,
        }
    }

    /// The next object in the same object; zero for none.
    pub fn sibling(&self, o: u16) -> (r: u16)
        ensures
            r == self.sibling_of(o),
    {
        match self.find(o) {
            Some(e) => e.sibling,
            None => 0,
        }
    }
}

// ── The walk ──────────────────────────────────────────────────────────────────
/// The depth below which nothing is listed.
pub const DEEPEST: usize = 64;

/// Whether an object is in a list of objects and depths.
pub open spec fn listed(out: Seq<(u16, int)>, o: u16) -> bool {
    exists|i: int| 0 <= i < out.len() && (#[trigger] out[i]).0 == o
}

/// The chain of siblings from `c` on, behind those found so far: up to the end, or to an
/// object that is listed or found already.
pub open spec fn kids_from(t: &ObjectTable, out: Seq<(u16, int)>, c: u16, kids: Seq<u16>) -> Seq<u16>
    decreases 0x1_0000 - kids.len(),
    when kids.len() < 0x1_0000
{
    if c == 0 || listed(out, c) || kids.contains(c) {
        kids
    } else {
        kids_from(t, out, t.sibling_of(c), kids.push(c))
    }
}

/// Objects to be visited next, last first, with their depth.
pub open spec fn pending(kids: Seq<u16>, depth: int) -> Seq<(u16, int)> {
    Seq::new(kids.len(), |i: int| (kids[kids.len() - 1 - i], depth))
}

/// The walk from where it stands: `stack` holds the objects to be visited, the next one
/// last, and `out` those that are listed, with their depths. An object is listed once, and
/// its children come right behind it.
pub open spec fn walked(t: &ObjectTable, stack: Seq<(u16, int)>, out: Seq<(u16, int)>) -> Seq<
    (u16, int),
>
    decreases 0x1_0000 - out.len(), stack.len(),
    when out.len() < 0x1_0000
{
    if stack.len() == 0 {
        out
    } else {
        let top = stack.last();
        let rest = stack.drop_last();
        if top.0 == 0 || top.1 > DEEPEST || listed(out, top.0) {
            walked(t, rest, out)
        } else {
            let now = out.push(top);
            walked(
                t,
                rest + pending(kids_from(t, now, t.child_of(top.0), seq![]), top.1 + 1),
                now,
            )
        }
    }
}

/// The objects in nothing, among the given ones, last first.
pub open spec fn roots(t: &ObjectTable, numbers: Seq<u16>) -> Seq<u16> {
    numbers.filter(|o: u16| t.parent_of(o) == 0)
}

/// How many objects an object is in, one in the other, counted up to [`DEEPEST`].
pub open spec fn height(t: &ObjectTable, p: u16, depth: int) -> int
    decreases DEEPEST - depth,
{
    if p == 0 || depth >= DEEPEST {
        depth
    } else {
        height(t, t.parent_of(p), depth + 1)
    }
}

/// The list with those of the given objects that are not in it yet, in their order.
pub open spec fn completed(t: &ObjectTable, out: Seq<(u16, int)>, numbers: Seq<u16>) -> Seq<
    (u16, int),
>
    decreases numbers.len(),
{
    if numbers.len() == 0 {
        out
    } else {
        let before = completed(t, out, numbers.drop_last());
        let o = numbers.last();
        if listed(before, o) {
            before
        } else {
            before.push((o, height(t, t.parent_of(o), 0)))
        }
    }
}

/// The objects in the order of the tree, with their depths: first what a walk from the
/// objects in nothing reaches, then the rest.
pub open spec fn tree_order(t: &ObjectTable, numbers: Seq<u16>) -> Seq<(u16, int)> {
    completed(t, walked(t, pending(roots(t, numbers), 0), seq![]), numbers)
}

/// The line of an object.
pub open spec fn tree_line(t: &ObjectTable, e: (u16, int)) -> Seq<char> {
    "@0x"@ + hex_pad(t.addr_of(e.0) as nat, 6) + " "@ + spaces((2 * e.1) as nat) + "["@ + dec(
        e.0 as nat,
    ) + "] "@ + t.name_of(e.0)
}

/// Different objects other than zero are no more than there are numbers for.
proof fn lemma_few(out: Seq<(u16, int)>)
    requires
        forall|i: int, j: int|
            0 <= i < j < out.len() ==> (#[trigger] out[i]).0 != (#[trigger] out[j]).0,
        forall|i: int| 0 <= i < out.len() ==> (#[trigger] out[i]).0 != 0,
    ensures
        out.len() < 0x1_0000,
{
    let ints = out.map_values(|e: (u16, int)| e.0 as int);
    let all: Set<int> = vstd::set_lib::set_int_range(1, 0x1_0000);
    vstd::set_lib::lemma_int_range(1, 0x1_0000);
    assert(ints.no_duplicates()) by {
        assert forall|i: int, j: int| 0 <= i < ints.len() && 0 <= j < ints.len() && i
            != j implies ints[i] != ints[j] by {
            if i < j {
                assert(out[i].0 != out[j].0);
            } else {
                assert(out[j].0 != out[i].0);
            }
        }
    }
    ints.unique_seq_to_set();
    assert forall|x: int| ints.to_set().contains(x) implies all.contains(x) by {
        let i = choose|i: int| 0 <= i < ints.len() && ints[i] == x;
        assert(out[i].0 != 0);
    }
    assert(ints.to_set().subset_of(all));
    vstd::set_lib::lemma_len_subset(ints.to_set(), all);
}

/// As [`lemma_few`], for a list without depths.
proof fn lemma_few_kids(kids: Seq<u16>)
    requires
        forall|i: int, j: int| 0 <= i < j < kids.len() ==> kids[i] != kids[j],
        forall|i: int| 0 <= i < kids.len() ==> #[trigger] kids[i] != 0,
    ensures
        kids.len() < 0x1_0000,
{
    let out = kids.map_values(|k: u16| (k, 0int));
    assert forall|i: int, j: int| 0 <= i < j < out.len() implies (#[trigger] out[i]).0 != (
    #[trigger] out[j]).0 by {
        assert(kids[i] != kids[j]);
    }
    assert forall|i: int| 0 <= i < out.len() implies (#[trigger] out[i]).0 != 0 by {
        assert(kids[i] != 0);
    }
    lemma_few(out);
}

/// The model of a list of objects and depths.
pub open spec fn depth_views(v: Seq<(u16, usize)>) -> Seq<(u16, int)> {
    v.map_values(|e: (u16, usize)| (e.0, e.1 as int))
}

/// Tests whether an object is in a list.
fn is_listed(out: &Vec<(u16, usize)>, o: u16) -> (r: bool)
    ensures
        r == listed(depth_views(out@), o),
{
    let mut i: usize = 0;
    while i < out.len()
        invariant
            i <= out@.len(),
            forall|j: int| 0 <= j < i ==> (#[trigger] depth_views(out@)[j]).0 != o,
        decreases out.len() - i,
    {
        if out[i].0 == o {
            assert(depth_views(out@)[i as int].0 == o);
            return true;
        }
        i = i + 1;
    }
    false
}

/// Tests whether an object is in a list.
fn is_among(kids: &Vec<u16>, o: u16) -> (r: bool)
    ensures
        r == kids@.contains(o),
{
    let mut i: usize = 0;
    while i < kids.len()
        invariant
            i <= kids@.len(),
            forall|j: int| 0 <= j < i ==> #[trigger] kids@[j] != o,
        decreases kids.len() - i,
    {
        if kids[i] == o {
            assert(kids@[i as int] == o);
            return true;
        }
        i = i + 1;
    }
    false
}

/// Follows a chain of siblings.
fn collect_kids(t: &ObjectTable, out: &Vec<(u16, usize)>, first: u16) -> (r: Vec<u16>)
    ensures
        r@ == kids_from(t, depth_views(out@), first, seq![]),
{
    let mut kids: Vec<u16> = Vec::new();
    let mut c: u16 = first;
    let ghost goal = kids_from(t, depth_views(out@), first, seq![]);
    assert(kids@ =~= seq![]);
    while c != 0 && !is_listed(out, c) && !is_among(&kids, c)
        invariant
            goal == kids_from(t, depth_views(out@), c, kids@),
            forall|i: int, j: int| 0 <= i < j < kids@.len() ==> kids@[i] != kids@[j],
            forall|i: int| 0 <= i < kids@.len() ==> #[trigger] kids@[i] != 0,
            kids@.len() < 0x1_0000,
        decreases 0x1_0000 - kids@.len(),
    {
        let ghost before = kids@;
        kids.push(c);
        proof {
            assert forall|i: int, j: int| 0 <= i < j < kids@.len() implies kids@[i] != kids@[j] by {
                if j == before.len() {
                    assert(before.contains(before[i]));
                }
            }
            lemma_few_kids(kids@);
        }
        c = t.sibling(c);
    }
    kids
}

/// Lists the objects in nothing, last first.
fn collect_roots(t: &ObjectTable, numbers: &Vec<u16>) -> (r: Vec<(u16, usize)>)
    ensures
        depth_views(r@) == pending(roots(t, numbers@), 0),
{
    let ghost p = |o: u16| t.parent_of(o) == 0;
    let mut found: Vec<u16> = Vec::new();
    let mut i: usize = 0;
    proof {
        reveal(Seq::filter);
        assert(numbers@.take(0).filter(p) =~= seq![]);
    }
    while i < numbers.len()
        invariant
            i <= numbers@.len(),
            p == (|o: u16| t.parent_of(o) == 0),
            found@ == numbers@.take(i as int).filter(p),
        decreases numbers.len() - i,
    {
        proof {
            reveal(Seq::filter);
            assert(numbers@.take(i + 1).drop_last() =~= numbers@.take(i as int));
            assert(numbers@.take(i + 1).last() == numbers@[i as int]);
        }
        if t.parent(numbers[i]) == 0 {
            found.push(numbers[i]);
        }
        i = i + 1;
    }
    assert(numbers@.take(i as int) =~= numbers@);
    let mut r: Vec<(u16, usize)> = Vec::new();
    push_pending(&mut r, &found, 0);
    assert(depth_views(r@) =~= pending(roots(t, numbers@), 0));
    r
}

/// Puts objects on the stack, last first.
fn push_pending(stack: &mut Vec<(u16, usize)>, kids: &Vec<u16>, depth: usize)
    ensures
        depth_views(final(stack)@) == depth_views(old(stack)@) + pending(kids@, depth as int),
{
    let ghost before = depth_views(stack@);
    let ghost add = pending(kids@, depth as int);
    let mut i: usize = kids.len();
    assert(add.take(0) =~= seq![]);
    assert(depth_views(stack@) =~= before + add.take(0));
    while i > 0
        invariant
            i <= kids@.len(),
            add == pending(kids@, depth as int),
            depth_views(stack@) == before + add.take(kids@.len() - i),
        decreases i,
    {
        let ghost stack0 = stack@;
        i = i - 1;
        stack.push((kids[i], depth));
        proof {
            let n = kids@.len() - i;
            assert(add[n - 1] == (kids@[i as int], depth as int));
            assert(add.take(n) =~= add.take(n - 1).push(add[n - 1]));
            assert(depth_views(stack@) =~= depth_views(stack0).push((kids@[i as int], depth as int)));
            assert(depth_views(stack@) =~= before + add.take(n));
        }
    }
    assert(add.take(kids@.len() as int) =~= add);
}

/// How many objects an object is in, one in the other.
fn height_of(t: &ObjectTable, o: u16) -> (r: usize)
    ensures
        r == height(t, t.parent_of(o), 0),
        r <= DEEPEST,
{
    let mut depth: usize = 0;
    let mut p: u16 = t.parent(o);
    let ghost goal = height(t, p, 0);
    while p != 0 && depth < DEEPEST
        invariant
            depth <= DEEPEST,
            goal == height(t, p, depth as int),
        decreases DEEPEST - depth,
    {
        depth = depth + 1;
        p = t.parent(p);
    }
    depth
}

/// Writes the line of an object.
fn line_of(t: &ObjectTable, o: u16, depth: usize) -> (r: String)
    requires
        depth <= DEEPEST,
    ensures
        r@ == tree_line(t, (o, depth as int)),
{
    let (addr, name): (u32, &str) = match t.find(o) {
        Some(e) => (e.addr, e.name.as_str()),
        None => (0, ""),
    };
    proof {
        reveal_strlit("");
        assert(""@ =~= seq![]);
    }
    let mut s: String = "@0x".to_owned();
    push_hex(&mut s, addr as u64, 6);
    s.append(" ");
    push_spaces(&mut s, 2 * depth);
    s.append("[");
    push_dec(&mut s, o as u64);
    s.append("] ");
    s.append(name);
    s
}

/// Puts the objects in the order of the tree.
fn order_tree(t: &ObjectTable, numbers: &Vec<u16>) -> (r: Vec<(u16, usize)>)
    ensures
        depth_views(r@) == tree_order(t, numbers@),
        forall|i: int| 0 <= i < r@.len() ==> (#[trigger] r@[i]).1 <= DEEPEST,
{
    let mut stack: Vec<(u16, usize)> = collect_roots(t, numbers);
    let mut out: Vec<(u16, usize)> = Vec::new();
    let ghost goal = walked(t, depth_views(stack@), seq![]);
    assert(depth_views(out@) =~= seq![]);
    proof {
        lemma_few(depth_views(out@));
        assert forall|i: int| 0 <= i < stack@.len() implies (#[trigger] stack@[i]).1 <= DEEPEST
            + 1 by {
            assert(depth_views(stack@)[i].1 == 0);
        }
    }
    while stack.len() > 0
        invariant
            goal == walked(t, depth_views(stack@), depth_views(out@)),
            forall|i: int, j: int|
                0 <= i < j < out@.len() ==> (#[trigger] depth_views(out@)[i]).0 != (
                #[trigger] depth_views(out@)[j]).0,
            forall|i: int| 0 <= i < out@.len() ==> (#[trigger] depth_views(out@)[i]).0 != 0,
            forall|i: int| 0 <= i < out@.len() ==> (#[trigger] out@[i]).1 <= DEEPEST,
            forall|i: int| 0 <= i < stack@.len() ==> (#[trigger] stack@[i]).1 <= DEEPEST + 1,
            out@.len() < 0x1_0000,
        decreases 0x1_0000 - out@.len(), stack@.len(),
    {
        let ghost stack0 = stack@;
        let ghost out0 = out@;
        let top: Option<(u16, usize)> = stack.pop();
        if let Some((obj, depth)) = top {
            assert(stack0[stack0.len() - 1].1 <= DEEPEST + 1);
            assert(depth_views(stack@) =~= depth_views(stack0).drop_last());
            assert(depth_views(stack0).last() == (obj, depth as int));
            if obj == 0 || depth > DEEPEST || is_listed(&out, obj) {
                assert(goal == walked(t, depth_views(stack@), depth_views(out@)));
            } else {
                out.push((obj, depth));
                proof {
                    assert(depth_views(out@) =~= depth_views(out0).push((obj, depth as int)));
                    assert forall|i: int, j: int| 0 <= i < j < out@.len() implies (
                    #[trigger] depth_views(out@)[i]).0 != (#[trigger] depth_views(out@)[j]).0 by {
                        assert(depth_views(out@)[i] == depth_views(out0)[i]);
                        if j < out0.len() {
                            assert(depth_views(out@)[j] == depth_views(out0)[j]);
                        }
                    }
                    assert forall|i: int| 0 <= i < out@.len() implies (#[trigger] depth_views(
                        out@,
                    )[i]).0 != 0 by {
                        if i < out0.len() {
                            assert(depth_views(out@)[i] == depth_views(out0)[i]);
                        }
                    }
                    lemma_few(depth_views(out@));
                }
                let kids: Vec<u16> = collect_kids(t, &out, t.child(obj));
                let ghost stack1 = stack@;
                push_pending(&mut stack, &kids, depth + 1);
                proof {
                    let add = pending(kids@, depth + 1);
                    assert(depth_views(stack@).len() == stack@.len());
                    assert(depth_views(stack1).len() == stack1.len());
                    assert forall|i: int| 0 <= i < stack@.len() implies (#[trigger] stack@[i]).1
                        <= DEEPEST + 1 by {
                        assert(depth_views(stack@)[i] == (depth_views(stack1) + add)[i]);
                        if i < stack1.len() {
                            assert(depth_views(stack@)[i] == depth_views(stack1)[i]);
                            assert(stack0[i] == stack1[i]);
                        } else {
                            assert(depth_views(stack@)[i] == add[i - stack1.len()]);
                            assert(add[i - stack1.len()].1 == depth + 1);
                        }
                    }
                }
            }
        }
    }
    let ghost walk = depth_views(out@);
    let mut i: usize = 0;
    assert(numbers@.take(0) =~= seq![]);
    while i < numbers.len()
        invariant
            i <= numbers@.len(),
            depth_views(out@) == completed(t, walk, numbers@.take(i as int)),
            forall|i: int| 0 <= i < out@.len() ==> (#[trigger] out@[i]).1 <= DEEPEST,
        decreases numbers.len() - i,
    {
        let o: u16 = numbers[i];
        let ghost out0 = out@;
        assert(numbers@.take(i + 1).drop_last() =~= numbers@.take(i as int));
        if !is_listed(&out, o) {
            out.push((o, height_of(t, o)));
            assert(depth_views(out@) =~= depth_views(out0).push(
                (o, height(t, t.parent_of(o), 0)),
            ));
        }
        i = i + 1;
    }
    assert(numbers@.take(i as int) =~= numbers@);
    out
}

/// Writes the tree of objects as lines, each object below the one that it is in: a walk from
/// the objects in nothing down the chains of their children. Links that run in a circle are
/// followed once, and an object that no walk reaches is listed behind the others.
pub fn build_object_tree(numbers: &Vec<u16>, t: &ObjectTable) -> (r: Vec<String>)
    ensures
        string_views(r@) == tree_order(t, numbers@).map_values(|e: (u16, int)| tree_line(t, e)),
{
    let order: Vec<(u16, usize)> = order_tree(t, numbers);
    let mut out: Vec<String> = Vec::new();
    let mut i: usize = 0;
    while i < order.len()
        invariant
            i <= order@.len(),
            depth_views(order@) == tree_order(t, numbers@),
            forall|i: int| 0 <= i < order@.len() ==> (#[trigger] order@[i]).1 <= DEEPEST,
            out@.len() == i,
            forall|j: int|
                0 <= j < i ==> (#[trigger] out@[j])@ == tree_line(t, depth_views(order@)[j]),
        decreases order.len() - i,
    {
        out.push(line_of(t, order[i].0, order[i].1));
        i = i + 1;
    }
    assert(string_views(out@) =~= tree_order(t, numbers@).map_values(
        |e: (u16, int)| tree_line(t, e),
    ));
    out
}

/// Lists the objects directly in an object, of those up to a number, in ascending order.
pub fn children_of(t: &ObjectTable, numbers: &Vec<u16>, parent: u16) -> (r: Vec<u16>)
    ensures
        forall|i: int, j: int| 0 <= i < j < r@.len() ==> r@[i] < r@[j],
        forall|o: u16| #[trigger]
            r@.contains(o) <==> o >= 1 && (exists|i: int|
                0 <= i < numbers@.len() && o <= #[trigger] numbers@[i]) && t.parent_of(o) == parent,
{
    let mut max: u16 = 0;
    let mut i: usize = 0;
    while i < numbers.len()
        invariant
            i <= numbers@.len(),
            forall|j: int| 0 <= j < i ==> #[trigger] numbers@[j] <= max,
            max > 0 ==> exists|j: int| 0 <= j < i && #[trigger] numbers@[j] == max,
        decreases numbers.len() - i,
    {
        if numbers[i] > max {
            max = numbers[i];
            assert(numbers@[i as int] == max);
        }
        i = i + 1;
    }
    let mut r: Vec<u16> = Vec::new();
    let mut n: u32 = 1;
    while n <= max as u32
        invariant
            1 <= n <= max + 1,
            forall|i: int, j: int| 0 <= i < j < r@.len() ==> r@[i] < r@[j],
            forall|i: int| 0 <= i < r@.len() ==> (#[trigger] r@[i]) < n,
            forall|o: u16| #[trigger]
                r@.contains(o) <==> 1 <= o < n && t.parent_of(o) == parent,
        decreases max + 1 - n,
    {
        let o: u16 = n as u16;
        let ghost before = r@;
        if t.parent(o) == parent {
            r.push(o);
        }
        assert forall|x: u16| #[trigger] r@.contains(x) <==> 1 <= x < n + 1 && t.parent_of(x)
            == parent by {
            assert(before.contains(x) <==> 1 <= x < n && t.parent_of(x) == parent);
            if before.contains(x) {
                let k = choose|k: int| 0 <= k < before.len() && before[k] == x;
                assert(r@[k] == x);
            }
            if r@.contains(x) {
                let k = choose|k: int| 0 <= k < r@.len() && r@[k] == x;
                if k < before.len() {
                    assert(before[k] == x);
                }
            }
            if x == o && t.parent_of(o) == parent {
                assert(r@[r@.len() - 1] == x);
            }
        }
        n = n + 1;
    }
    assert forall|o: u16| #[trigger] r@.contains(o) <==> o >= 1 && (exists|i: int|
        0 <= i < numbers@.len() && o <= #[trigger] numbers@[i]) && t.parent_of(o) == parent by {
        assert(r@.contains(o) <==> 1 <= o < n && t.parent_of(o) == parent);
        if 1 <= o <= max {
            let j = choose|j: int| 0 <= j < numbers@.len() && #[trigger] numbers@[j] == max;
            assert(o <= numbers@[j]);
        }
    }
    r
}

// ── Laws ──────────────────────────────────────────────────────────────────────
/// Whether the objects of a list differ, and none is zero.
pub open spec fn all_differ(out: Seq<(u16, int)>) -> bool {
    &&& forall|i: int, j: int|
        0 <= i < j < out.len() ==> (#[trigger] out[i]).0 != (#[trigger] out[j]).0
    &&& forall|i: int| 0 <= i < out.len() ==> (#[trigger] out[i]).0 != 0
}

/// The object `n` siblings behind another.
pub open spec fn sibling_at(t: &ObjectTable, c: u16, n: nat) -> u16
    decreases n,
{
    if n == 0 {
        c
    } else {
        t.sibling_of(sibling_at(t, c, (n - 1) as nat))
    }
}

/// Whether an object is in the chain of another's children.
pub open spec fn is_child(t: &ObjectTable, p: u16, k: u16) -> bool {
    exists|n: nat| #[trigger] sibling_at(t, t.child_of(p), n) == k
}

/// Whether an object of a list sits below one that it is a child of: that one comes before
/// it, one level up, and all between the two lie as deep as the object or deeper.
pub open spec fn sits_below(t: &ObjectTable, out: Seq<(u16, int)>, e: (u16, int), end: int) -> bool {
    exists|p: int|
        0 <= p < end && (#[trigger] out[p]).1 == e.1 - 1 && is_child(t, out[p].0, e.0) && forall|
            q: int,
        |
            p < q < end ==> (#[trigger] out[q]).1 >= e.1
}

/// Whether every object of a list that is not at the top sits below one it is a child of.
pub open spec fn nests(t: &ObjectTable, out: Seq<(u16, int)>) -> bool {
    forall|i: int|
        0 <= i < out.len() ==> (#[trigger] out[i]).1 >= 0 && (out[i].1 > 0 ==> sits_below(
            t,
            out,
            out[i],
            i,
        ))
}

/// Whether every object that is still to be visited will sit below one it is a child of,
/// and the deeper come first.
pub open spec fn will_nest(t: &ObjectTable, stack: Seq<(u16, int)>, out: Seq<(u16, int)>) -> bool {
    &&& forall|i: int, j: int|
        0 <= i <= j < stack.len() ==> (#[trigger] stack[i]).1 <= (#[trigger] stack[j]).1
    &&& forall|i: int|
        0 <= i < stack.len() ==> (#[trigger] stack[i]).1 >= 0 && (stack[i].1 > 0 ==> sits_below(
            t,
            out,
            stack[i],
            out.len() as int,
        ))
}

/// The children found are children, and differ.
proof fn lemma_kids(t: &ObjectTable, out: Seq<(u16, int)>, first: u16, c: u16, kids: Seq<u16>)
    requires
        forall|i: int| 0 <= i < kids.len() ==> #[trigger] kids[i] == sibling_at(t, first, i as nat),
        c == sibling_at(t, first, kids.len()),
        forall|i: int, j: int| 0 <= i < j < kids.len() ==> kids[i] != kids[j],
        forall|i: int| 0 <= i < kids.len() ==> #[trigger] kids[i] != 0,
    ensures
        ({
            let r = kids_from(t, out, c, kids);
            forall|i: int| 0 <= i < r.len() ==> #[trigger] r[i] == sibling_at(t, first, i as nat)
        }),
    decreases 0x1_0000 - kids.len(),
{
    lemma_few_kids(kids);
    if !(c == 0 || listed(out, c) || kids.contains(c)) {
        let now = kids.push(c);
        assert forall|i: int, j: int| 0 <= i < j < now.len() implies now[i] != now[j] by {
            if j == kids.len() {
                assert(kids.contains(kids[i]));
            }
        }
        assert(t.sibling_of(c) == sibling_at(t, first, now.len()));
        lemma_few_kids(now);
        lemma_kids(t, out, first, t.sibling_of(c), now);
        assert(kids_from(t, out, c, kids) == kids_from(t, out, t.sibling_of(c), now));
    } else {
        assert(kids_from(t, out, c, kids) == kids);
    }
}

/// What sits below in a list does so in a longer one that goes no higher.
proof fn lemma_still_below(t: &ObjectTable, out: Seq<(u16, int)>, e: (u16, int), top: (u16, int))
    requires
        sits_below(t, out, e, out.len() as int),
        top.1 >= e.1,
    ensures
        sits_below(t, out.push(top), e, out.len() as int + 1),
{
    let p = choose|p: int|
        0 <= p < out.len() && (#[trigger] out[p]).1 == e.1 - 1 && is_child(t, out[p].0, e.0)
            && forall|q: int| p < q < out.len() ==> (#[trigger] out[q]).1 >= e.1;
    let now = out.push(top);
    assert(now[p] == out[p]);
    assert forall|q: int| p < q < now.len() implies (#[trigger] now[q]).1 >= e.1 by {
        if q < out.len() {
            assert(now[q] == out[q]);
        }
    }
}

/// A walk lists different objects, keeps those that were listed, and nests them.
proof fn lemma_walked(t: &ObjectTable, stack: Seq<(u16, int)>, out: Seq<(u16, int)>)
    requires
        all_differ(out),
        nests(t, out),
        will_nest(t, stack, out),
    ensures
        all_differ(walked(t, stack, out)),
        nests(t, walked(t, stack, out)),
        out.len() <= walked(t, stack, out).len(),
    decreases 0x1_0000 - out.len(), stack.len(),
{
    lemma_few(out);
    if stack.len() > 0 {
        let top = stack[stack.len() - 1];
        let rest = stack.drop_last();
        assert(top == stack.last());
        assert forall|i: int, j: int| 0 <= i <= j < rest.len() implies (#[trigger] rest[i]).1 <= (
        #[trigger] rest[j]).1 by {
            assert(rest[i] == stack[i] && rest[j] == stack[j]);
        }
        assert forall|i: int| 0 <= i < rest.len() implies (#[trigger] rest[i]).1 >= 0 && (rest[i].1
            > 0 ==> sits_below(t, out, rest[i], out.len() as int)) && rest[i].1 <= top.1 by {
            assert(rest[i] == stack[i]);
        }
        if top.0 == 0 || top.1 > DEEPEST || listed(out, top.0) {
            lemma_walked(t, rest, out);
        } else {
            let now = out.push(top);
            assert forall|i: int, j: int| 0 <= i < j < now.len() implies (#[trigger] now[i]).0 != (
            #[trigger] now[j]).0 by {
                assert(now[i] == out[i]);
                if j < out.len() {
                    assert(now[j] == out[j]);
                }
            }
            assert forall|i: int| 0 <= i < now.len() implies (#[trigger] now[i]).1 >= 0 && (now[i].1
                > 0 ==> sits_below(t, now, now[i], i)) && now[i].0 != 0 by {
                if i < out.len() {
                    assert(now[i] == out[i]);
                    if now[i].1 > 0 {
                        let e = now[i];
                        let p = choose|p: int|
                            0 <= p < i && (#[trigger] out[p]).1 == e.1 - 1 && is_child(
                                t,
                                out[p].0,
                                e.0,
                            ) && forall|q: int| p < q < i ==> (#[trigger] out[q]).1 >= e.1;
                        assert(now[p] == out[p]);
                        assert forall|q: int| p < q < i implies (#[trigger] now[q]).1 >= e.1 by {
                            assert(now[q] == out[q]);
                        }
                    }
                } else if top.1 > 0 {
                    let e = top;
                    let p = choose|p: int|
                        0 <= p < i && (#[trigger] out[p]).1 == e.1 - 1 && is_child(t, out[p].0, e.0)
                            && forall|q: int| p < q < i ==> (#[trigger] out[q]).1 >= e.1;
                    assert(now[p] == out[p]);
                    assert forall|q: int| p < q < i implies (#[trigger] now[q]).1 >= e.1 by {
                        assert(now[q] == out[q]);
                    }
                }
            }
            let kids = kids_from(t, now, t.child_of(top.0), seq![]);
            lemma_kids(t, now, t.child_of(top.0), t.child_of(top.0), seq![]);
            let add = pending(kids, top.1 + 1);
            let next = rest + add;
            assert forall|i: int| 0 <= i < next.len() implies (#[trigger] next[i]).1 >= 0 && (
            next[i].1 > 0 ==> sits_below(t, now, next[i], now.len() as int)) by {
                if i < rest.len() {
                    assert(next[i] == rest[i]);
                    if rest[i].1 > 0 {
                        lemma_still_below(t, out, rest[i], top);
                    }
                } else {
                    let k = kids.len() - 1 - (i - rest.len());
                    assert(next[i] == add[i - rest.len()]);
                    assert(kids[k] == sibling_at(t, t.child_of(top.0), k as nat));
                    assert(is_child(t, top.0, kids[k]));
                    assert(now[out.len() as int] == top);
                }
            }
            assert forall|i: int, j: int| 0 <= i <= j < next.len() implies (#[trigger] next[i]).1
                <= (#[trigger] next[j]).1 by {
                if i < rest.len() {
                    assert(next[i] == rest[i]);
                    if j < rest.len() {
                        assert(next[j] == rest[j]);
                    } else {
                        assert(next[j] == add[j - rest.len()]);
                    }
                } else {
                    assert(next[i] == add[i - rest.len()]);
                    assert(next[j] == add[j - rest.len()]);
                }
            }
            lemma_few(now);
            lemma_walked(t, next, now);
        }
    }
}

/// The objects that the walk reaches: nothing is listed to begin with.
proof fn lemma_whole_walk(t: &ObjectTable, numbers: Seq<u16>)
    ensures
        all_differ(walked(t, pending(roots(t, numbers), 0), seq![])),
        nests(t, walked(t, pending(roots(t, numbers), 0), seq![])),
{
    lemma_walked(t, pending(roots(t, numbers), 0), seq![]);
}

/// Completing a list keeps it and lists every object that was to be listed, once.
proof fn lemma_completed(t: &ObjectTable, out: Seq<(u16, int)>, numbers: Seq<u16>)
    requires
        forall|i: int, j: int|
            0 <= i < j < out.len() ==> (#[trigger] out[i]).0 != (#[trigger] out[j]).0,
    ensures
        ({
            let r = completed(t, out, numbers);
            &&& out.len() <= r.len()
            &&& r.take(out.len() as int) == out
            &&& forall|i: int, j: int|
                0 <= i < j < r.len() ==> (#[trigger] r[i]).0 != (#[trigger] r[j]).0
            &&& forall|i: int| 0 <= i < numbers.len() ==> listed(r, #[trigger] numbers[i])
        }),
    decreases numbers.len(),
{
    if numbers.len() == 0 {
        assert(out.take(out.len() as int) =~= out);
    } else {
        let front = numbers.drop_last();
        lemma_completed(t, out, front);
        let before = completed(t, out, front);
        let r = completed(t, out, numbers);
        assert forall|i: int| 0 <= i < before.len() implies #[trigger] r[i] == before[i] by {}
        assert(r.take(out.len() as int) =~= before.take(out.len() as int));
        assert forall|i: int, j: int| 0 <= i < j < r.len() implies (#[trigger] r[i]).0 != (
        #[trigger] r[j]).0 by {
            assert(r[i] == before[i]);
            if j < before.len() {
                assert(r[j] == before[j]);
            }
        }
        assert forall|i: int| 0 <= i < numbers.len() implies listed(r, #[trigger] numbers[i]) by {
            if i < front.len() {
                assert(front[i] == numbers[i]);
                let k = choose|k: int| 0 <= k < before.len() && (#[trigger] before[k]).0 == front[i];
                assert(r[k].0 == numbers[i]);
            } else if listed(before, numbers[i]) {
                let k = choose|k: int|
                    0 <= k < before.len() && (#[trigger] before[k]).0 == numbers[i];
                assert(r[k].0 == numbers[i]);
            } else {
                assert(r[r.len() - 1].0 == numbers[i]);
            }
        }
    }
}

/// Every object is listed, and listed once, whatever the links are: nothing disappears and
/// nothing goes round in circles.
pub proof fn every_object_is_listed_once(t: &ObjectTable, numbers: Seq<u16>)
    ensures
        forall|i: int|
            0 <= i < numbers.len() ==> listed(tree_order(t, numbers), #[trigger] numbers[i]),
        forall|i: int, j: int|
            0 <= i < j < tree_order(t, numbers).len() ==> (#[trigger] tree_order(t, numbers)[i]).0
                != (#[trigger] tree_order(t, numbers)[j]).0,
{
    lemma_whole_walk(t, numbers);
    lemma_completed(t, walked(t, pending(roots(t, numbers), 0), seq![]), numbers);
}

/// Every object that the walk reaches sits directly below an object that it is a child of:
/// with `n` the number of objects that the walk reaches, the first `n` of the list are
/// nested.
pub proof fn children_sit_below_their_parent(t: &ObjectTable, numbers: Seq<u16>)
    ensures
        ({
            let n = walked(t, pending(roots(t, numbers), 0), seq![]).len();
            n <= tree_order(t, numbers).len() && nests(t, tree_order(t, numbers).take(n as int))
        }),
{
    lemma_whole_walk(t, numbers);
    lemma_completed(t, walked(t, pending(roots(t, numbers), 0), seq![]), numbers);
}

/// An object is found under its number, with its own links, name and address; one that is
/// not listed has none.
pub proof fn an_object_is_found_under_its_number(t: &ObjectTable, o: u16, k: int)
    requires
        0 <= k <= t.entries@.len(),
        k < t.entries@.len() ==> t.entries@[k].number == o,
        forall|i: int| 0 <= i < k ==> (#[trigger] t.entries@[i]).number != o,
    ensures
        k < t.entries@.len() ==> t.parent_of(o) == t.entries@[k].parent && t.child_of(o)
            == t.entries@[k].child && t.sibling_of(o) == t.entries@[k].sibling && t.name_of(o)
            == t.entries@[k].name@ && t.addr_of(o) == t.entries@[k].addr,
        k == t.entries@.len() ==> t.parent_of(o) == 0 && t.child_of(o) == 0 && t.sibling_of(o) == 0
            && t.name_of(o).len() == 0 && t.addr_of(o) == 0,
{
    lemma_find_object(t.entries@, o, k);
}

/// The line of an object tells its address, is set in by two columns for each level of its
/// depth, tells its number and ends in its name.
pub proof fn an_object_is_told_by_its_place(t: &ObjectTable, e: (u16, int), i: int)
    requires
        0 <= e.1,
        t.addr_of(e.0) < 0x100_0000,
        10 <= i < 10 + 2 * e.1,
    ensures
        tells_hex(tree_line(t, e), "@0x"@, t.addr_of(e.0) as int),
        tells_dec(tree_line(t, e), "["@, e.0 as int, "] "@),
        tree_line(t, e)[i] == ' ',
        tree_line(t, e)[10 + 2 * e.1] == '[',
        tree_line(t, e).skip(tree_line(t, e).len() - t.name_of(e.0).len()) == t.name_of(e.0),
{
    lemma_line_of_object(t, e);
}

/// The line of an object at the top is not set in.
pub proof fn an_object_at_the_top_is_not_set_in(t: &ObjectTable, e: (u16, int))
    requires
        e.1 == 0,
        t.addr_of(e.0) < 0x100_0000,
    ensures
        tells_hex(tree_line(t, e), "@0x"@, t.addr_of(e.0) as int),
        tells_dec(tree_line(t, e), "["@, e.0 as int, "] "@),
        tree_line(t, e)[10] == '[',
        tree_line(t, e).skip(tree_line(t, e).len() - t.name_of(e.0).len()) == t.name_of(e.0),
{
    lemma_line_of_object(t, e);
}

/// What the line of an object tells.
proof fn lemma_line_of_object(t: &ObjectTable, e: (u16, int))
    requires
        0 <= e.1,
        t.addr_of(e.0) < 0x100_0000,
    ensures
        tells_hex(tree_line(t, e), "@0x"@, t.addr_of(e.0) as int),
        tells_dec(tree_line(t, e), "["@, e.0 as int, "] "@),
        forall|i: int| 10 <= i < 10 + 2 * e.1 ==> #[trigger] tree_line(t, e)[i] == ' ',
        tree_line(t, e)[10 + 2 * e.1] == '[',
        tree_line(t, e).skip(tree_line(t, e).len() - t.name_of(e.0).len()) == t.name_of(e.0),
{
    reveal_strlit("@0x");
    reveal_strlit(" ");
    reveal_strlit("[");
    let line = tree_line(t, e);
    let n = Seq::<char>::empty();
    let h = hex_pad(t.addr_of(e.0) as nat, 6);
    let gap = spaces((2 * e.1) as nat);
    let name = t.name_of(e.0);
    lemma_six_digits(t.addr_of(e.0) as nat);
    let rest = "["@ + dec(e.0 as nat) + "] "@ + name;
    lemma_tells_hex(n, "@0x"@, t.addr_of(e.0) as nat, 6, " "@ + gap + rest);
    assert(line =~= n + "@0x"@ + h + (" "@ + gap + rest));
    let head = "@0x"@ + h + " "@ + gap;
    lemma_tells_dec(head, "["@, e.0 as int, "] "@, name);
    assert(line =~= head + "["@ + dec_int(e.0 as int) + "] "@ + name);
    assert(line.skip(line.len() - name.len()) =~= name);
}

/// Whether the first child of an object of a list is still to be listed behind it: there is
/// one, it is not too deep, and it is not listed up to the object.
pub open spec fn has_first_child(t: &ObjectTable, out: Seq<(u16, int)>, i: int) -> bool {
    let c = t.child_of(out[i].0);
    &&& c != 0
    &&& out[i].1 + 1 <= DEEPEST
    &&& forall|j: int| 0 <= j <= i ==> (#[trigger] out[j]).0 != c
}

/// The chain of siblings grows.
proof fn lemma_kids_grow(t: &ObjectTable, out: Seq<(u16, int)>, c: u16, kids: Seq<u16>)
    requires
        forall|i: int, j: int| 0 <= i < j < kids.len() ==> kids[i] != kids[j],
        forall|i: int| 0 <= i < kids.len() ==> #[trigger] kids[i] != 0,
    ensures
        kids_from(t, out, c, kids).len() >= kids.len(),
        forall|i: int| 0 <= i < kids.len() ==> #[trigger] kids_from(t, out, c, kids)[i] == kids[i],
    decreases 0x1_0000 - kids.len(),
{
    lemma_few_kids(kids);
    if !(c == 0 || listed(out, c) || kids.contains(c)) {
        let now = kids.push(c);
        assert forall|i: int, j: int| 0 <= i < j < now.len() implies now[i] != now[j] by {
            if j == kids.len() {
                assert(kids.contains(kids[i]));
            }
        }
        lemma_few_kids(now);
        lemma_kids_grow(t, out, t.sibling_of(c), now);
        assert forall|i: int| 0 <= i < kids.len() implies #[trigger] kids_from(t, out, c, kids)[i]
            == kids[i] by {
            assert(now[i] == kids[i]);
        }
    }
}

/// In a walk a first child comes right behind its parent, one level down.
proof fn lemma_first_child_follows(t: &ObjectTable, stack: Seq<(u16, int)>, out: Seq<(u16, int)>)
    requires
        all_differ(out),
        forall|i: int|
            0 <= i < out.len() - 1 && #[trigger] has_first_child(t, out, i) ==> out[i + 1] == (
                t.child_of(out[i].0),
                out[i].1 + 1,
            ),
        out.len() > 0 && has_first_child(t, out, out.len() - 1) ==> stack.len() > 0 && stack.last()
            == (t.child_of(out.last().0), out.last().1 + 1),
    ensures
        ({
            let r = walked(t, stack, out);
            &&& out.len() <= r.len()
            &&& r.take(out.len() as int) == out
            &&& forall|i: int|
                0 <= i < r.len() && #[trigger] has_first_child(t, r, i) ==> i + 1 < r.len() && r[i
                    + 1] == (t.child_of(r[i].0), r[i].1 + 1)
        }),
    decreases 0x1_0000 - out.len(), stack.len(),
{
    lemma_few(out);
    if stack.len() == 0 {
        assert(out.take(out.len() as int) =~= out);
    } else {
        let top = stack.last();
        let rest = stack.drop_last();
        if top.0 == 0 || top.1 > DEEPEST || listed(out, top.0) {
            if out.len() > 0 && has_first_child(t, out, out.len() - 1) {
                let j = choose|j: int| 0 <= j < out.len() && (#[trigger] out[j]).0 == top.0;
                assert(out[j].0 != top.0);
            }
            lemma_first_child_follows(t, rest, out);
        } else {
            let now = out.push(top);
            assert(all_differ(now)) by {
                assert forall|i: int, j: int| 0 <= i < j < now.len() implies (#[trigger] now[i]).0
                    != (#[trigger] now[j]).0 by {
                    assert(now[i] == out[i]);
                    if j < out.len() {
                        assert(now[j] == out[j]);
                    }
                }
                assert forall|i: int| 0 <= i < now.len() implies (#[trigger] now[i]).0 != 0 by {
                    if i < out.len() {
                        assert(now[i] == out[i]);
                    }
                }
            }
            assert forall|i: int|
                0 <= i < now.len() - 1 && #[trigger] has_first_child(t, now, i) implies now[i + 1]
                == (t.child_of(now[i].0), now[i].1 + 1) by {
                assert(now[i] == out[i]);
                assert(has_first_child(t, out, i)) by {
                    assert forall|j: int| 0 <= j <= i implies (#[trigger] out[j]).0 != t.child_of(
                        out[i].0,
                    ) by {
                        assert(now[j] == out[j]);
                    }
                }
                if i < out.len() - 1 {
                    assert(now[i + 1] == out[i + 1]);
                }
            }
            lemma_few(now);
            let c = t.child_of(top.0);
            let kids = kids_from(t, now, c, seq![]);
            let next = rest + pending(kids, top.1 + 1);
            if has_first_child(t, now, now.len() - 1) {
                if listed(now, c) {
                    let j = choose|j: int| 0 <= j < now.len() && (#[trigger] now[j]).0 == c;
                    assert(now[j].0 != c);
                }
                let one = Seq::<u16>::empty().push(c);
                assert(kids == kids_from(t, now, t.sibling_of(c), one));
                lemma_kids_grow(t, now, t.sibling_of(c), one);
                assert(kids[0] == one[0]);
                assert(next.last() == (c, top.1 + 1));
            }
            lemma_first_child_follows(t, next, now);
            let r = walked(t, stack, out);
            assert(r.take(out.len() as int) =~= r.take(now.len() as int).take(out.len() as int));
            assert(now.take(out.len() as int) =~= out);
        }
    }
}

/// The first child of an object that the walk reaches comes right behind the object in the
/// list, one level down, unless it is listed already or lies too deep.
pub proof fn a_first_child_follows_its_parent(t: &ObjectTable, numbers: Seq<u16>, i: int)
    requires
        0 <= i < walked(t, pending(roots(t, numbers), 0), seq![]).len(),
        has_first_child(t, tree_order(t, numbers), i),
    ensures
        i + 1 < tree_order(t, numbers).len(),
        tree_order(t, numbers)[i + 1].0 == t.child_of(tree_order(t, numbers)[i].0),
        tree_order(t, numbers)[i + 1].1 == tree_order(t, numbers)[i].1 + 1,
{
    let start = pending(roots(t, numbers), 0);
    let e = Seq::<(u16, int)>::empty();
    let r = walked(t, start, e);
    let all = tree_order(t, numbers);
    lemma_whole_walk(t, numbers);
    lemma_completed(t, r, numbers);
    lemma_first_child_follows(t, start, e);
    assert forall|j: int| 0 <= j < r.len() implies all[j] == #[trigger] r[j] by {
        assert(all.take(r.len() as int)[j] == all[j]);
    }
    assert(has_first_child(t, r, i)) by {
        assert forall|j: int| 0 <= j <= i implies (#[trigger] r[j]).0 != t.child_of(r[i].0) by {
            assert(all[j] == r[j]);
        }
    }
    assert(all[i + 1] == r[i + 1]);
}

/// The list begins with the first of the objects that are in nothing, at the top.
pub proof fn the_list_begins_at_the_top(t: &ObjectTable, numbers: Seq<u16>, k: int)
    requires
        0 <= k < numbers.len(),
        numbers[k] != 0,
        t.parent_of(numbers[k]) == 0,
        forall|i: int| 0 <= i < k ==> t.parent_of(#[trigger] numbers[i]) != 0,
    ensures
        tree_order(t, numbers).len() > 0,
        tree_order(t, numbers)[0] == (numbers[k], 0int),
{
    let p = |o: u16| t.parent_of(o) == 0;
    let start = pending(roots(t, numbers), 0);
    let e = Seq::<(u16, int)>::empty();
    lemma_first_root(numbers, p, k);
    assert(start.last() == (numbers[k], 0int));
    let now = e.push(start.last());
    let r = walked(t, start, e);
    lemma_whole_walk(t, numbers);
    lemma_completed(t, r, numbers);
    let kids = kids_from(t, now, t.child_of(numbers[k]), seq![]);
    let next = start.drop_last() + pending(kids, 1);
    assert(r == walked(t, next, now));
    lemma_walk_keeps(t, next, now);
    assert(r.take(1)[0] == now[0]);
    assert(tree_order(t, numbers).take(r.len() as int)[0] == r[0]);
}

/// The first object that meets a condition comes first among those that do.
proof fn lemma_first_root(numbers: Seq<u16>, p: spec_fn(u16) -> bool, k: int)
    requires
        0 <= k < numbers.len(),
        p(numbers[k]),
        forall|i: int| 0 <= i < k ==> !p(#[trigger] numbers[i]),
    ensures
        numbers.filter(p).len() > 0,
        numbers.filter(p)[0] == numbers[k],
    decreases numbers.len(),
{
    reveal(Seq::filter);
    let init = numbers.drop_last();
    if k < init.len() {
        assert forall|i: int| 0 <= i < k implies !p(#[trigger] init[i]) by {
            assert(init[i] == numbers[i]);
        }
        lemma_first_root(init, p, k);
    } else {
        lemma_no_root(init, p);
    }
}

/// Where nothing meets a condition, nothing is kept.
proof fn lemma_no_root(numbers: Seq<u16>, p: spec_fn(u16) -> bool)
    requires
        forall|i: int| 0 <= i < numbers.len() ==> !p(#[trigger] numbers[i]),
    ensures
        numbers.filter(p).len() == 0,
    decreases numbers.len(),
{
    reveal(Seq::filter);
    if numbers.len() > 0 {
        let init = numbers.drop_last();
        assert forall|i: int| 0 <= i < init.len() implies !p(#[trigger] init[i]) by {
            assert(init[i] == numbers[i]);
        }
        assert(!p(numbers[numbers.len() - 1]));
        lemma_no_root(init, p);
    }
}

/// A walk keeps what is listed.
proof fn lemma_walk_keeps(t: &ObjectTable, stack: Seq<(u16, int)>, out: Seq<(u16, int)>)
    requires
        all_differ(out),
    ensures
        out.len() <= walked(t, stack, out).len(),
        walked(t, stack, out).take(out.len() as int) == out,
    decreases 0x1_0000 - out.len(), stack.len(),
{
    lemma_few(out);
    if stack.len() == 0 {
        assert(out.take(out.len() as int) =~= out);
    } else {
        let top = stack.last();
        let rest = stack.drop_last();
        if top.0 == 0 || top.1 > DEEPEST || listed(out, top.0) {
            lemma_walk_keeps(t, rest, out);
        } else {
            let now = out.push(top);
            assert forall|i: int, j: int| 0 <= i < j < now.len() implies (#[trigger] now[i]).0 != (
            #[trigger] now[j]).0 by {
                assert(now[i] == out[i]);
                if j < out.len() {
                    assert(now[j] == out[j]);
                }
            }
            assert forall|i: int| 0 <= i < now.len() implies (#[trigger] now[i]).0 != 0 by {
                if i < out.len() {
                    assert(now[i] == out[i]);
                }
            }
            lemma_few(now);
            let next = rest + pending(
                kids_from(t, now, t.child_of(top.0), seq![]),
                top.1 + 1,
            );
            lemma_walk_keeps(t, next, now);
            let r = walked(t, stack, out);
            assert(r.take(out.len() as int) =~= r.take(now.len() as int).take(out.len() as int));
            assert(now.take(out.len() as int) =~= out);
        }
    }
}

} // verus!
