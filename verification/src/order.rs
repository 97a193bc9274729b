//! Windows in the order of their stamps.

use crate::windows::{WindowMap, WINDOW_NUMBERS};
use vstd::prelude::*;

verus! {

/// A list of windows in the order of their stamps, with one more put behind those stamped no
/// later.
pub open spec fn put(s: Seq<u8>, stamps: Map<u8, u64>, win: u8) -> Seq<u8>
    decreases s.len(),
{
    if s.len() == 0 || stamps[s.last()] <= stamps[win] {
        s.push(win)
    } else {
        put(s.drop_last(), stamps, win).push(s.last())
    }
}

/// The windows below `n` in the order of their stamps; windows with one stamp are in the
/// order of their numbers.
pub open spec fn order_below(stamps: Map<u8, u64>, n: nat) -> Seq<u8>
    decreases n,
{
    if n == 0 {
        seq![]
    } else {
        let s = order_below(stamps, (n - 1) as nat);
        if stamps.dom().contains((n - 1) as u8) {
            put(s, stamps, (n - 1) as u8)
        } else {
            s
        }
    }
}

/// All windows in the order of their stamps.
pub open spec fn stamp_order(stamps: Map<u8, u64>) -> Seq<u8> {
    order_below(stamps, WINDOW_NUMBERS as nat)
}

/// Whether the stamps of a list of windows ascend.
pub open spec fn ascends(s: Seq<u8>, stamps: Map<u8, u64>) -> bool {
    forall|i: int, j: int|
        0 <= i <= j < s.len() ==> stamps[#[trigger] s[i]] <= stamps[#[trigger] s[j]]
}

/// Putting a window in place keeps the order, and adds the window and nothing else.
proof fn lemma_put(s: Seq<u8>, stamps: Map<u8, u64>, win: u8)
    requires
        ascends(s, stamps),
        s.no_duplicates(),
        !s.contains(win),
    ensures
        ascends(put(s, stamps, win), stamps),
        put(s, stamps, win).no_duplicates(),
        put(s, stamps, win).len() == s.len() + 1,
        forall|k: u8| #[trigger] put(s, stamps, win).contains(k) <==> (s.contains(k) || k == win),
        put(s, stamps, win).last() == win || (s.len() > 0 && put(s, stamps, win).last() == s.last()),
    decreases s.len(),
{
    let r = put(s, stamps, win);
    if s.len() == 0 || stamps[s.last()] <= stamps[win] {
        assert forall|k: u8| r.contains(k) <==> s.contains(k) || k == win by {
            if s.contains(k) {
                let i = choose|i: int| 0 <= i < s.len() && s[i] == k;
                assert(r[i] == k);
            }
            if k == win {
                assert(r[s.len() as int] == k);
            }
        }
        assert(r.no_duplicates()) by {
            assert forall|i: int, j: int| 0 <= i < j < r.len() implies r[i] != r[j] by {
                if j == s.len() {
                    assert(s.contains(r[i]));
                }
            }
        }
        assert forall|i: int, j: int| 0 <= i <= j < r.len() implies stamps[#[trigger] r[i]]
            <= stamps[#[trigger] r[j]] by {
            if j == s.len() && i < j {
                assert(stamps[s[i]] <= stamps[s[s.len() - 1]]);
            }
        }
    } else {
        let f = s.drop_last();
        let p = put(f, stamps, win);
        assert(!f.contains(win)) by {
            if f.contains(win) {
                let i = choose|i: int| 0 <= i < f.len() && f[i] == win;
                assert(s[i] == win);
            }
        }
        assert(f.no_duplicates());
        lemma_put(f, stamps, win);
        assert forall|k: u8| r.contains(k) <==> s.contains(k) || k == win by {
            if r.contains(k) {
                let i = choose|i: int| 0 <= i < r.len() && r[i] == k;
                if i < p.len() {
                    assert(p[i] == k);
                    assert(p.contains(k));
                    if f.contains(k) {
                        let j = choose|j: int| 0 <= j < f.len() && f[j] == k;
                        assert(s[j] == k);
                    }
                } else {
                    assert(s[s.len() - 1] == k);
                }
            }
            if s.contains(k) {
                let i = choose|i: int| 0 <= i < s.len() && s[i] == k;
                if i < f.len() {
                    assert(f[i] == k);
                    assert(f.contains(k));
                    assert(p.contains(k));
                    let j = choose|j: int| 0 <= j < p.len() && p[j] == k;
                    assert(r[j] == k);
                } else {
                    assert(r[p.len() as int] == k);
                }
            }
            if k == win {
                assert(p.contains(k));
                let j = choose|j: int| 0 <= j < p.len() && p[j] == k;
                assert(r[j] == k);
            }
        }
        assert(!p.contains(s.last())) by {
            if f.contains(s.last()) {
                let i = choose|i: int| 0 <= i < f.len() && f[i] == s.last();
                assert(s[i] == s[s.len() - 1]);
            }
            if s.last() == win {
                assert(s[s.len() - 1] == win);
            }
        }
        assert(r.no_duplicates()) by {
            assert forall|i: int, j: int| 0 <= i < j < r.len() implies r[i] != r[j] by {
                if j == p.len() {
                    assert(p[i] == r[i]);
                    assert(p.contains(r[i]));
                }
            }
        }
        assert forall|i: int, j: int| 0 <= i <= j < r.len() implies stamps[#[trigger] r[i]]
            <= stamps[#[trigger] r[j]] by {
            if j == p.len() && i < j {
                assert(stamps[p[i]] <= stamps[p[p.len() - 1]]);
                if f.len() > 0 {
                    assert(stamps[s[f.len() - 1]] <= stamps[s[s.len() - 1]]);
                }
            }
        }
    }
}

/// The order lists each window below `n` once, by ascending stamps.
pub proof fn lemma_order_below(stamps: Map<u8, u64>, n: nat)
    requires
        n <= WINDOW_NUMBERS,
    ensures
        ascends(order_below(stamps, n), stamps),
        order_below(stamps, n).no_duplicates(),
        forall|k: u8| #[trigger]
            order_below(stamps, n).contains(k) <==> (k < n && stamps.dom().contains(k)),
    decreases n,
{
    if n > 0 {
        lemma_order_below(stamps, (n - 1) as nat);
        let s = order_below(stamps, (n - 1) as nat);
        if stamps.dom().contains((n - 1) as u8) {
            assert(!s.contains((n - 1) as u8));
            lemma_put(s, stamps, (n - 1) as u8);
        }
        assert forall|k: u8| #[trigger] order_below(stamps, n).contains(k) <==> (k < n
            && stamps.dom().contains(k)) by {
            assert(s.contains(k) <==> (k < n - 1 && stamps.dom().contains(k)));
        }
    } else {
        assert(order_below(stamps, n) =~= seq![]);
    }
}

/// Every stamped window is listed once, and a window that was stamped later comes later.
pub proof fn the_order_follows_the_stamps(stamps: Map<u8, u64>)
    ensures
        ascends(stamp_order(stamps), stamps),
        stamp_order(stamps).no_duplicates(),
        forall|k: u8| #[trigger] stamp_order(stamps).contains(k) <==> stamps.dom().contains(k),
{
    lemma_order_below(stamps, WINDOW_NUMBERS as nat);
}

/// Where a window goes is behind the last one stamped no later.
proof fn lemma_put_is_insert(s: Seq<u8>, stamps: Map<u8, u64>, win: u8, p: int)
    requires
        0 <= p <= s.len(),
        p > 0 ==> stamps[s[p - 1]] <= stamps[win],
        forall|i: int| p <= i < s.len() ==> stamps[#[trigger] s[i]] > stamps[win],
    ensures
        put(s, stamps, win) == s.insert(p, win),
    decreases s.len(),
{
    if p == s.len() {
        assert(s.insert(p, win) =~= s.push(win));
    } else {
        assert(stamps[s[s.len() - 1]] > stamps[win]);
        lemma_put_is_insert(s.drop_last(), stamps, win, p);
        assert(s.insert(p, win) =~= s.drop_last().insert(p, win).push(s.last()));
    }
}

/// Lists the windows in the order of their stamps.
pub fn order_windows(stamps: &WindowMap<u64>) -> (r: Vec<u8>)
    requires
        stamps.wf(),
    ensures
        r@ == stamp_order(stamps@),
{
    let mut r: Vec<u8> = Vec::new();
    let mut n: usize = 0;
    while n < WINDOW_NUMBERS
        invariant
            n <= WINDOW_NUMBERS,
            stamps.wf(),
            r@ == order_below(stamps@, n as nat),
            forall|i: int| 0 <= i < r@.len() ==> stamps@.dom().contains(#[trigger] r@[i]),
        decreases WINDOW_NUMBERS - n,
    {
        let win: u8 = n as u8;
        if let Some(at) = stamps.get(win) {
            let mine: u64 = *at;
            let mut p: usize = r.len();
            while p > 0
                invariant_except_break
                    p <= r@.len(),
                    forall|i: int| p <= i < r@.len() ==> stamps@[#[trigger] r@[i]] > mine,
                    stamps.wf(),
                    forall|i: int|
                        0 <= i < r@.len() ==> stamps@.dom().contains(#[trigger] r@[i]),
                ensures
                    p <= r@.len(),
                    p > 0 ==> stamps@[r@[p - 1]] <= mine,
                    forall|i: int| p <= i < r@.len() ==> stamps@[#[trigger] r@[i]] > mine,
                decreases p,
            {
                let other: u64 = match stamps.get(r[p - 1]) {
                    Some(o) => *o,
                    None => 0,
                };
                assert(stamps@.dom().contains(r@[p - 1]));
                if other <= mine {
                    break ;
                }
                p = p - 1;
            }
            proof {
                lemma_put_is_insert(r@, stamps@, win, p as int);
            }
            let ghost before = r@;
            r.insert(p, win);
            assert forall|i: int| 0 <= i < r@.len() implies stamps@.dom().contains(
                #[trigger] r@[i],
            ) by {
                if i < p {
                    assert(r@[i] == before[i]);
                } else if i > p {
                    assert(r@[i] == before[i - 1]);
                }
            }
        }
        n = n + 1;
    }
    r
}

} // verus!
