//! What the inspector shows: memory, calls, objects, and references in a listing.

use crate::text::{
    a_decimal_numeral_denotes_its_number, a_hexadecimal_numeral_denotes_its_number, dec, dec_int,
    flush_left, flush_right, hex_pad, numeral_value, push_dec, push_dec_int, push_flush_left,
    push_flush_right, push_hex, string_views,
};
use vstd::prelude::*;

verus! {

// ── Memory ────────────────────────────────────────────────────────────────────
/// How many bytes a row shows.
pub const ROW_BYTES: usize = 16;

/// The first of the codes that the story may give a character of its own.
pub const FIRST_EXTRA: u8 = 155;

/// The last of them.
pub const LAST_EXTRA: u8 = 223;

/// How many of them there are.
pub const EXTRA_CODES: usize = 69;

/// The smaller of two lengths.
pub open spec fn at_most_len(a: int, b: int) -> int {
    if a < b {
        a
    } else {
        b
    }
}

/// How many rows are shown from an address on: no more than asked for, and no more than
/// memory has.
pub open spec fn row_count(len: int, addr: int, rows: int) -> int {
    let left = len - at_most_len(addr, len);
    at_most_len(rows, (left + 15) / 16)
}

/// The bytes in hexadecimal, each with a space behind it.
pub open spec fn hex_bytes(s: Seq<u8>) -> Seq<char>
    decreases s.len(),
{
    if s.len() == 0 {
        seq![]
    } else {
        hex_bytes(s.drop_last()) + hex_pad(s.last() as nat, 2) + " "@
    }
}

/// A byte as a character: a printable ASCII character as itself, one of the story's own by
/// its table, and anything else as a dot.
pub open spec fn glyph_of(b: u8, extra: Seq<char>) -> char {
    if 0x20 <= b <= 0x7e {
        b as char
    } else if FIRST_EXTRA <= b <= LAST_EXTRA {
        extra[b - FIRST_EXTRA]
    } else {
        '.'
    }
}

/// The bytes as characters.
pub open spec fn glyphs_of(s: Seq<u8>, extra: Seq<char>) -> Seq<char> {
    s.map_values(|b: u8| glyph_of(b, extra))
}

/// The bytes of a row: sixteen from an address on, or as many as are left.
pub open spec fn row_bytes(bytes: Seq<u8>, a: int) -> Seq<u8> {
    bytes.subrange(a, at_most_len(a + 16, bytes.len() as int))
}

/// A row: the address, the bytes in hexadecimal and the bytes as characters.
pub open spec fn hex_row(bytes: Seq<u8>, a: int, extra: Seq<char>) -> Seq<char> {
    hex_pad(a as nat, 6) + "  "@ + flush_left(hex_bytes(row_bytes(bytes, a)), 48) + glyphs_of(
        row_bytes(bytes, a),
        extra,
    )
}

/// Writes bytes in hexadecimal.
fn hex_text(bytes: &Vec<u8>, from: usize, to: usize) -> (r: String)
    requires
        from <= to <= bytes@.len(),
    ensures
        r@ == hex_bytes(bytes@.subrange(from as int, to as int)),
{
    let mut s: String = String::new();
    let mut i: usize = from;
    assert(bytes@.subrange(from as int, from as int) =~= seq![]);
    assert(s@ =~= hex_bytes(bytes@.subrange(from as int, from as int)));
    while i < to
        invariant
            from <= i <= to <= bytes@.len(),
            s@ == hex_bytes(bytes@.subrange(from as int, i as int)),
        decreases to - i,
    {
        let ghost now = bytes@.subrange(from as int, i + 1);
        assert(now.drop_last() =~= bytes@.subrange(from as int, i as int));
        assert(now.last() == bytes@[i as int]);
        push_hex(&mut s, bytes[i] as u64, 2);
        s.append(" ");
        i = i + 1;
    }
    s
}

/// Writes a byte as a character.
fn glyph(b: u8, extra: &Vec<char>) -> (r: char)
    requires
        extra@.len() == EXTRA_CODES,
    ensures
        r == glyph_of(b, extra@),
{
    if 0x20 <= b && b <= 0x7e {
        b as char
    } else if FIRST_EXTRA <= b && b <= LAST_EXTRA {
        extra[(b - FIRST_EXTRA) as usize]
    } else {
        '.'
    }
}

/// Dumps memory from an address on, as far as it goes. `extra` is the story's characters
/// for the codes from [`FIRST_EXTRA`] to [`LAST_EXTRA`].
pub fn memory_hex(bytes: &Vec<u8>, addr: u32, rows: usize, extra: &Vec<char>) -> (r: Vec<String>)
    requires
        bytes@.len() <= u32::MAX,
        extra@.len() == EXTRA_CODES,
    ensures
        r@.len() == row_count(bytes@.len() as int, addr as int, rows as int),
        forall|i: int|
            0 <= i < r@.len() ==> (#[trigger] r@[i])@ == hex_row(bytes@, addr + 16 * i, extra@),
{
    let len: usize = bytes.len();
    let mut out: Vec<String> = Vec::new();
    let mut a: usize = if (addr as usize) < len {
        addr as usize
    } else {
        len
    };
    let ghost start = a;
    while out.len() < rows && a < len
        invariant
            len == bytes@.len(),
            len <= u32::MAX,
            extra@.len() == EXTRA_CODES,
            start == at_most_len(addr as int, len as int),
            a == at_most_len(start + 16 * out@.len(), len as int),
            out@.len() <= rows,
            out@.len() > 0 ==> start + 16 * (out@.len() - 1) < len,
            forall|i: int|
                0 <= i < out@.len() ==> (#[trigger] out@[i])@ == hex_row(
                    bytes@,
                    addr + 16 * i,
                    extra@,
                ),
        decreases len - a,
    {
        let ghost out0 = out@;
        let end: usize = if len - a < ROW_BYTES {
            len
        } else {
            a + ROW_BYTES
        };
        assert(row_bytes(bytes@, a as int) == bytes@.subrange(a as int, end as int));
        let hex: String = hex_text(bytes, a, end);
        let mut s: String = String::new();
        push_hex(&mut s, a as u64, 6);
        s.append("  ");
        push_flush_left(&mut s, hex.as_str(), 48);
        let ghost head = s@;
        let ghost row = row_bytes(bytes@, a as int);
        let mut i: usize = a;
        assert(s@ =~= head + glyphs_of(row, extra@).take(0));
        while i < end
            invariant
                a <= i <= end <= bytes@.len(),
                extra@.len() == EXTRA_CODES,
                row == bytes@.subrange(a as int, end as int),
                s@ == head + glyphs_of(row, extra@).take(i - a),
            decreases end - i,
        {
            s.push(glyph(bytes[i], extra));
            assert(glyphs_of(row, extra@).take(i + 1 - a) =~= glyphs_of(row, extra@).take(
                i - a,
            ).push(glyph_of(bytes@[i as int], extra@)));
            assert(s@ =~= head + glyphs_of(row, extra@).take(i + 1 - a));
            i = i + 1;
        }
        assert(glyphs_of(row, extra@).take(i - a) =~= glyphs_of(row, extra@));
        proof {
            assert(Seq::<char>::empty() + hex_pad(a as nat, 6) =~= hex_pad(a as nat, 6));
            assert(s@ =~= hex_row(bytes@, a as int, extra@));
        }
        out.push(s);
        a = end;
    }
    out
}

/// The stretch of memory that rows show: its start and its end.
pub open spec fn window_of(len: int, addr: int, rows: int) -> (int, int) {
    let start = at_most_len(addr, len);
    (start, start + at_most_len(16 * row_count(len, addr, rows), len - start))
}

/// A dictionary: where its entries start, how many there are, how long one is and how much
/// of it is the word.
#[derive(Clone, Copy, Debug, PartialEq, Eq, Structural)]
pub struct DictShape {
    pub base: u32,
    pub count: u16,
    pub entry_length: u8,
    pub key_len: u8,
}

/// The stretch of a dictionary's word.
pub open spec fn key_span(d: DictShape, i: int) -> (int, int) {
    (d.base + i * d.entry_length, d.base + i * d.entry_length + d.key_len)
}

/// The first of the dictionary's entries that a window may show, and the one behind the
/// last.
pub open spec fn entries_shown(d: DictShape, start: int, end: int) -> (int, int) {
    if d.count == 0 || d.entry_length == 0 || end <= d.base {
        (0, 0)
    } else {
        let lo = (if start < d.base {
            0
        } else {
            start - d.base
        }) / d.entry_length as int;
        let hi = at_most_len((end - 1 - d.base) / d.entry_length as int, d.count - 1) + 1;
        (
            lo,
            if hi < lo {
                lo
            } else {
                hi
            },
        )
    }
}

/// Whether two stretches share a byte.
pub open spec fn spans_meet(a: (int, int), b: (int, int)) -> bool {
    a.0 < b.1 && a.1 > b.0
}

/// The stretch of numbers as a pair of integers.
pub open spec fn span_view(s: (u32, u32)) -> (int, int) {
    (s.0 as int, s.1 as int)
}

/// Lists the stretches of text that a window of memory shows, of those whose start the story
/// itself tells: first the words of the dictionary, then the names of objects. A text whose
/// start is not known is left out, since reading from anywhere else would show it wrong.
pub fn zstring_spans(
    len: u32,
    addr: u32,
    rows: usize,
    dict: DictShape,
    names: &Vec<(u32, u32)>,
) -> (r: Vec<(u32, u32)>)
    requires
        dict.base + dict.count * dict.entry_length + dict.key_len <= u32::MAX,
    ensures
        ({
            let w = window_of(len as int, addr as int, rows as int);
            let e = entries_shown(dict, w.0, w.1);
            let words = Seq::new((e.1 - e.0) as nat, |i: int| key_span(dict, e.0 + i));
            let all = words + names@.map_values(|s: (u32, u32)| span_view(s));
            r@.map_values(|s: (u32, u32)| span_view(s)) == all.filter(
                |s: (int, int)| spans_meet(s, w),
            )
        }),
{
    let (start, end) = window(len, addr, rows);
    let ghost w = (start as int, end as int);
    let ghost p = |s: (int, int)| spans_meet(s, w);
    let ghost e = entries_shown(dict, w.0, w.1);
    let ghost words = Seq::new((e.1 - e.0) as nat, |i: int| key_span(dict, e.0 + i));
    let ghost named = names@.map_values(|s: (u32, u32)| span_view(s));
    let ghost all = words + named;
    let mut out: Vec<(u32, u32)> = Vec::new();
    let (lo, hi) = shown_entries(dict, start, end);
    let mut i: u32 = lo;
    proof {
        reveal(Seq::filter);
        assert(all.take(0).filter(p) =~= seq![]);
        assert(out@.map_values(|s: (u32, u32)| span_view(s)) =~= seq![]);
    }
    while i < hi
        invariant
            lo <= i <= hi,
            lo < hi ==> hi <= dict.count,
            e == (lo as int, hi as int),
            dict.base + dict.count * dict.entry_length + dict.key_len <= u32::MAX,
            w == (start as int, end as int),
            p == (|s: (int, int)| spans_meet(s, w)),
            words == Seq::new((e.1 - e.0) as nat, |i: int| key_span(dict, e.0 + i)),
            all == words + named,
            out@.map_values(|s: (u32, u32)| span_view(s)) == all.take(i - lo).filter(p),
        decreases hi - i,
    {
        let elen: u32 = dict.entry_length as u32;
        assert(i * elen <= dict.count * dict.entry_length) by (nonlinear_arith)
            requires
                i <= dict.count,
                elen == dict.entry_length,
        ;
        let s: u32 = dict.base + i * elen;
        let t: u32 = s + dict.key_len as u32;
        proof {
            let k = i - lo;
            assert(all.take(k + 1).drop_last() =~= all.take(k));
            assert(all.take(k + 1).last() == words[k]);
            assert(words[k] == key_span(dict, i as int));
            reveal(Seq::filter);
        }
        let ghost out0 = out@;
        if s < end && t > start {
            out.push((s, t));
            assert(out@.map_values(|s: (u32, u32)| span_view(s)) =~= out0.map_values(
                |s: (u32, u32)| span_view(s),
            ).push((s as int, t as int)));
        }
        i = i + 1;
    }
    let ghost n = words.len() as int;
    let mut k: usize = 0;
    while k < names.len()
        invariant
            k <= names@.len(),
            w == (start as int, end as int),
            p == (|s: (int, int)| spans_meet(s, w)),
            n == words.len(),
            named == names@.map_values(|s: (u32, u32)| span_view(s)),
            all == words + named,
            out@.map_values(|s: (u32, u32)| span_view(s)) == all.take(n + k).filter(p),
        decreases names.len() - k,
    {
        let s: (u32, u32) = names[k];
        proof {
            assert(all.take(n + k + 1).drop_last() =~= all.take(n + k));
            assert(all.take(n + k + 1).last() == named[k as int]);
            reveal(Seq::filter);
        }
        let ghost out0 = out@;
        if s.0 < end && s.1 > start {
            out.push(s);
            assert(out@.map_values(|s: (u32, u32)| span_view(s)) =~= out0.map_values(
                |s: (u32, u32)| span_view(s),
            ).push(span_view(s)));
        }
        k = k + 1;
    }
    assert(all.take(n + k) =~= all);
    out
}

/// The stretch of memory that rows show.
fn window(len: u32, addr: u32, rows: usize) -> (r: (u32, u32))
    ensures
        (r.0 as int, r.1 as int) == window_of(len as int, addr as int, rows as int),
        r.0 <= r.1 <= len,
{
    let start: u32 = if addr < len {
        addr
    } else {
        len
    };
    let left: u64 = (len - start) as u64;
    let most: u64 = (left + 15) / 16;
    let n: u64 = if (rows as u64) < most {
        rows as u64
    } else {
        most
    };
    let bytes: u64 = if 16 * n < left {
        16 * n
    } else {
        left
    };
    (start, start + bytes as u32)
}

/// The entries of the dictionary that a window may show.
fn shown_entries(d: DictShape, start: u32, end: u32) -> (r: (u32, u32))
    ensures
        (r.0 as int, r.1 as int) == entries_shown(d, start as int, end as int),
        r.0 <= r.1,
        r.0 < r.1 ==> r.1 <= d.count,
{
    if d.count == 0 || d.entry_length == 0 || end <= d.base {
        return (0, 0);
    }
    let elen: u32 = d.entry_length as u32;
    let lo: u32 = start.saturating_sub(d.base) / elen;
    let last: u32 = (end - 1 - d.base) / elen;
    let hi: u32 = if last < d.count as u32 - 1 {
        last + 1
    } else {
        d.count as u32
    };
    if hi < lo {
        (lo, lo)
    } else {
        (lo, hi)
    }
}

/// A stretch of text, and the pieces that its words of memory produce.
#[derive(Debug)]
pub struct DecodedSpan {
    pub start: u32,
    pub end: u32,
    pub pieces: Vec<String>,
}

/// The row that shows the last byte of the word of memory at an address, if one does.
pub open spec fn row_of_word(w: (int, int), word: int) -> Option<int> {
    if w.0 <= word + 1 < w.1 {
        Some((word + 1 - w.0) / 16)
    } else {
        None
    }
}

/// The rows with a piece of text added to the one that shows its word.
pub open spec fn credited(
    rows: Seq<Option<Seq<char>>>,
    w: (int, int),
    word: int,
    piece: Seq<char>,
) -> Seq<Option<Seq<char>>> {
    match row_of_word(w, word) {
        Some(r) => rows.update(
            r,
            Some(
                match rows[r] {
                    Some(t) => t + piece,
                    None => piece,
                },
            ),
        ),
        None => rows,
    }
}

/// The rows with the first `n` pieces of a text. Pieces behind the end of the text are not
/// its own.
pub open spec fn credited_span(
    rows: Seq<Option<Seq<char>>>,
    w: (int, int),
    s: DecodedSpan,
    n: nat,
) -> Seq<Option<Seq<char>>>
    decreases n,
{
    if n == 0 {
        rows
    } else {
        let before = credited_span(rows, w, s, (n - 1) as nat);
        let word = s.start + 2 * (n - 1);
        if word >= s.end {
            before
        } else {
            credited(before, w, word, s.pieces@[n - 1]@)
        }
    }
}

/// The rows with the first `n` of a list of texts.
pub open spec fn credited_spans(
    rows: Seq<Option<Seq<char>>>,
    w: (int, int),
    spans: Seq<DecodedSpan>,
    n: nat,
) -> Seq<Option<Seq<char>>>
    decreases n,
{
    if n == 0 {
        rows
    } else {
        credited_span(
            credited_spans(rows, w, spans, (n - 1) as nat),
            w,
            spans[n - 1],
            spans[n - 1].pieces@.len(),
        )
    }
}

/// The model of a list of optional texts.
pub open spec fn opt_views(v: Seq<Option<String>>) -> Seq<Option<Seq<char>>> {
    v.map_values(
        |o: Option<String>|
            match o {
                Some(s) => Some(s@),
                None => None,
            },
    )
}

/// Rows without a text.
pub open spec fn no_rows(n: nat) -> Seq<Option<Seq<char>>> {
    Seq::new(n, |i: int| None::<Seq<char>>)
}

/// Adds a piece of text to the row that shows its word.
fn credit(rows: &mut Vec<Option<String>>, start: u32, end: u32, word: u64, piece: &str)
    requires
        start <= end,
        end - start <= 16 * old(rows)@.len(),
        word <= u64::MAX - 1,
    ensures
        opt_views(final(rows)@) == credited(
            opt_views(old(rows)@),
            (start as int, end as int),
            word as int,
            piece@,
        ),
        final(rows)@.len() == old(rows)@.len(),
{
    let last: u64 = word + 1;
    if last < start as u64 || last >= end as u64 {
        return ;
    }
    let r: usize = ((last - start as u64) / 16) as usize;
    let ghost before = rows@;
    let mut text: String = String::new();
    match &rows[r] {
        Some(t) => {
            text.append(t.as_str());
        },
        None => {},
    }
    text.append(piece);
    let ghost now = text@;
    rows.set(r, Some(text));
    proof {
        let old_row = opt_views(before)[r as int];
        match old_row {
            Some(t) => {
                assert(now =~= t + piece@);
            },
            None => {
                assert(now =~= piece@);
            },
        }
        assert(opt_views(rows@) =~= opt_views(before).update(r as int, Some(now)));
    }
}

/// Reads the story's own text over the window of memory that [`memory_hex`] dumps, each
/// piece in the row that shows the last byte of its word. A row that shows no text has none;
/// one whose words produce nothing visible has an empty one.
pub fn memory_zstrings(len: u32, addr: u32, rows: usize, spans: &Vec<DecodedSpan>) -> (r: Vec<
    Option<String>,
>)
    ensures
        r@.len() == row_count(len as int, addr as int, rows as int),
        ({
            let w = window_of(len as int, addr as int, rows as int);
            opt_views(r@) == credited_spans(no_rows(r@.len()), w, spans@, spans@.len())
        }),
{
    let (start, end) = window(len, addr, rows);
    let ghost w = (start as int, end as int);
    let mut out: Vec<Option<String>> = Vec::new();
    let mut at: u64 = start as u64;
    while at < end as u64
        invariant
            start <= end <= len,
            at == start + 16 * out@.len(),
            out@.len() > 0 ==> start + 16 * (out@.len() - 1) < end,
            forall|i: int| 0 <= i < out@.len() ==> (#[trigger] out@[i]) is None,
        decreases end + 16 - at,
    {
        out.push(None);
        at = at + 16;
    }
    assert(out@.len() == row_count(len as int, addr as int, rows as int));
    let ghost n = out@.len();
    assert(opt_views(out@) =~= no_rows(n));
    let mut i: usize = 0;
    while i < spans.len()
        invariant
            i <= spans@.len(),
            start <= end,
            end - start <= 16 * n,
            out@.len() == n,
            w == (start as int, end as int),
            opt_views(out@) == credited_spans(no_rows(n), w, spans@, i as nat),
        decreases spans.len() - i,
    {
        let s = &spans[i];
        let ghost before = opt_views(out@);
        let mut k: usize = 0;
        while k < s.pieces.len()
            invariant
                i < spans@.len(),
                *s == spans@[i as int],
                k <= s.pieces@.len(),
                start <= end,
                end - start <= 16 * n,
                out@.len() == n,
                w == (start as int, end as int),
                opt_views(out@) == credited_span(before, w, *s, k as nat),
            decreases s.pieces.len() - k,
        {
            let ghost now = opt_views(out@);
            assert(credited_span(before, w, *s, (k + 1) as nat) == {
                let word = s.start + 2 * k;
                if word >= s.end {
                    now
                } else {
                    credited(now, w, word, s.pieces@[k as int]@)
                }
            });
            if (k as u64) < 0x1_0000_0000 && s.start as u64 + 2 * (k as u64) < s.end as u64 {
                let word: u64 = s.start as u64 + 2 * (k as u64);
                credit(&mut out, start, end, word, s.pieces[k].as_str());
            }
            k = k + 1;
        }
        i = i + 1;
    }
    out
}

// ── Calls ─────────────────────────────────────────────────────────────────────
/// A call: the routine, where it returns to, how many arguments it got, where its part of
/// the stack starts, and its local variables.
#[derive(Debug)]
pub struct CallFrame {
    pub func_addr: u32,
    pub return_pc: u32,
    pub arg_count: u8,
    pub eval_base: usize,
    pub locals: Vec<u16>,
}

/// The state of the calls.
#[derive(Debug)]
pub struct CallState {
    pub frames: Vec<CallFrame>,
    pub eval_stack: Vec<u16>,
    pub globals: Vec<u16>,
}

/// How many global variables there are.
pub const GLOBALS: usize = 240;

/// A word as a signed number.
pub open spec fn signed16(n: u16) -> int {
    if n >= 0x8000 {
        n - 0x1_0000
    } else {
        n as int
    }
}

/// A word as a signed number.
fn as_signed(n: u16) -> (r: i64)
    ensures
        r == signed16(n),
{
    if n >= 0x8000 {
        n as i64 - 0x1_0000
    } else {
        n as i64
    }
}

/// The line of a call.
pub open spec fn frame_line(i: int, f: CallFrame) -> Seq<char> {
    "#"@ + dec(i as nat) + "  fn@"@ + hex_pad(f.func_addr as nat, 6) + "  ret="@ + hex_pad(
        f.return_pc as nat,
        6,
    ) + "  args="@ + dec(f.arg_count as nat)
}

/// Whether a call's part of the stack starts at a place.
pub open spec fn is_base(frames: Seq<CallFrame>, i: int) -> bool {
    exists|k: int| 0 <= k < frames.len() && (#[trigger] frames[k]).eval_base == i
}

/// The line of a value on the stack.
pub open spec fn stack_line(i: int, v: u16, base: bool) -> Seq<char> {
    "["@ + flush_right(dec(i as nat), 3) + "] "@ + hex_pad(v as nat, 4) + "  ("@ + dec_int(
        signed16(v),
    ) + ")"@ + (if base {
        "  <- frame base"@
    } else {
        ""@
    })
}

/// The line of a local variable of the current call.
pub open spec fn local_line(i: int, v: u16) -> Seq<char> {
    "local"@ + dec(i as nat) + " = "@ + hex_pad(v as nat, 4) + "  ("@ + dec(v as nat) + ")"@
}

/// The line of a local variable of some call.
pub open spec fn frame_local_line(i: int, v: u16) -> Seq<char> {
    "local"@ + dec(i as nat) + " = 0x"@ + hex_pad(v as nat, 4) + "  ("@ + dec_int(signed16(v))
        + ")"@
}

/// The line of a global variable.
pub open spec fn global_line(n: int, v: u16) -> Seq<char> {
    "g"@ + hex_pad(n as nat, 2) + " = "@ + hex_pad(v as nat, 4)
}

impl CallState {
    /// Lists the calls, the first one first.
    pub fn stack_lines(&self) -> (r: Vec<String>)
        ensures
            self.frames@.len() == 0 ==> string_views(r@) == seq!["(no frames)"@],
            self.frames@.len() > 0 ==> string_views(r@) == Seq::new(
                self.frames@.len(),
                |i: int| frame_line(i, self.frames@[i]),
            ),
    {
        let mut out: Vec<String> = Vec::new();
        if self.frames.len() == 0 {
            out.push("(no frames)".to_owned());
            assert(string_views(out@) =~= seq!["(no frames)"@]);
            return out;
        }
        let mut i: usize = 0;
        while i < self.frames.len()
            invariant
                i <= self.frames@.len(),
                out@.len() == i,
                forall|j: int|
                    0 <= j < i ==> (#[trigger] out@[j])@ == frame_line(j, self.frames@[j]),
            decreases self.frames.len() - i,
        {
            let f = &self.frames[i];
            let mut s: String = "#".to_owned();
            push_dec(&mut s, i as u64);
            s.append("  fn@");
            push_hex(&mut s, f.func_addr as u64, 6);
            s.append("  ret=");
            push_hex(&mut s, f.return_pc as u64, 6);
            s.append("  args=");
            push_dec(&mut s, f.arg_count as u64);
            out.push(s);
            i = i + 1;
        }
        assert(string_views(out@) =~= Seq::new(
            self.frames@.len(),
            |i: int| frame_line(i, self.frames@[i]),
        ));
        out
    }

    /// Tests whether a call's part of the stack starts at a place.
    fn starts_frame(&self, i: usize) -> (r: bool)
        ensures
            r == is_base(self.frames@, i as int),
    {
        let mut k: usize = 0;
        while k < self.frames.len()
            invariant
                k <= self.frames@.len(),
                forall|j: int| 0 <= j < k ==> (#[trigger] self.frames@[j]).eval_base != i,
            decreases self.frames.len() - k,
        {
            if self.frames[k].eval_base == i {
                assert(self.frames@[k as int].eval_base == i);
                return true;
            }
            k = k + 1;
        }
        false
    }

    /// Lists the values on the stack, the top one first.
    pub fn eval_stack_lines(&self) -> (r: Vec<String>)
        ensures
            self.eval_stack@.len() == 0 ==> string_views(r@) == seq!["(empty)"@],
            self.eval_stack@.len() > 0 ==> string_views(r@) == Seq::new(
                self.eval_stack@.len(),
                |i: int|
                    {
                        let k = self.eval_stack@.len() - 1 - i;
                        stack_line(k, self.eval_stack@[k], is_base(self.frames@, k))
                    },
            ),
    {
        let mut out: Vec<String> = Vec::new();
        if self.eval_stack.len() == 0 {
            out.push("(empty)".to_owned());
            assert(string_views(out@) =~= seq!["(empty)"@]);
            return out;
        }
        let n: usize = self.eval_stack.len();
        let mut i: usize = n;
        while i > 0
            invariant
                n == self.eval_stack@.len(),
                i <= n,
                out@.len() == n - i,
                forall|j: int|
                    0 <= j < n - i ==> (#[trigger] out@[j])@ == stack_line(
                        n - 1 - j,
                        self.eval_stack@[n - 1 - j],
                        is_base(self.frames@, n - 1 - j),
                    ),
            decreases i,
        {
            i = i - 1;
            let v: u16 = self.eval_stack[i];
            let mut number: String = String::new();
            push_dec(&mut number, i as u64);
            assert(number@ =~= dec(i as nat));
            let mut s: String = "[".to_owned();
            push_flush_right(&mut s, number.as_str(), 3);
            s.append("] ");
            push_hex(&mut s, v as u64, 4);
            s.append("  (");
            push_dec_int(&mut s, as_signed(v));
            s.append(")");
            if self.starts_frame(i) {
                s.append("  <- frame base");
            } else {
                s.append("");
            }
            out.push(s);
        }
        assert(string_views(out@) =~= Seq::new(
            self.eval_stack@.len(),
            |i: int|
                {
                    let k = self.eval_stack@.len() - 1 - i;
                    stack_line(k, self.eval_stack@[k], is_base(self.frames@, k))
                },
        ));
        out
    }

    /// Lists the local variables of the current call.
    pub fn locals_lines(&self) -> (r: Vec<String>)
        ensures
            string_views(r@) == (if self.frames@.len() == 0 {
                seq!["(no frame)"@]
            } else if self.frames@.last().locals@.len() == 0 {
                seq!["(none)"@]
            } else {
                Seq::new(
                    self.frames@.last().locals@.len(),
                    |i: int| local_line(i, self.frames@.last().locals@[i]),
                )
            }),
    {
        let mut out: Vec<String> = Vec::new();
        if self.frames.len() == 0 {
            out.push("(no frame)".to_owned());
            assert(string_views(out@) =~= seq!["(no frame)"@]);
            return out;
        }
        let f = &self.frames[self.frames.len() - 1];
        if f.locals.len() == 0 {
            out.push("(none)".to_owned());
            assert(string_views(out@) =~= seq!["(none)"@]);
            return out;
        }
        let mut i: usize = 0;
        while i < f.locals.len()
            invariant
                i <= f.locals@.len(),
                out@.len() == i,
                forall|j: int| 0 <= j < i ==> (#[trigger] out@[j])@ == local_line(j, f.locals@[j]),
            decreases f.locals.len() - i,
        {
            let mut s: String = "local".to_owned();
            push_dec(&mut s, i as u64);
            s.append(" = ");
            push_hex(&mut s, f.locals[i] as u64, 4);
            s.append("  (");
            push_dec(&mut s, f.locals[i] as u64);
            s.append(")");
            out.push(s);
            i = i + 1;
        }
        assert(string_views(out@) =~= Seq::new(
            f.locals@.len(),
            |i: int| local_line(i, f.locals@[i]),
        ));
        out
    }

    /// Lists the local variables of a call.
    pub fn frame_locals(&self, idx: usize) -> (r: Vec<String>)
        ensures
            string_views(r@) == (if idx >= self.frames@.len() {
                seq!["(no frame)"@]
            } else if self.frames@[idx as int].locals@.len() == 0 {
                seq!["(no locals)"@]
            } else {
                Seq::new(
                    self.frames@[idx as int].locals@.len(),
                    |i: int| frame_local_line(i, self.frames@[idx as int].locals@[i]),
                )
            }),
    {
        let mut out: Vec<String> = Vec::new();
        if idx >= self.frames.len() {
            out.push("(no frame)".to_owned());
            assert(string_views(out@) =~= seq!["(no frame)"@]);
            return out;
        }
        let f = &self.frames[idx];
        if f.locals.len() == 0 {
            out.push("(no locals)".to_owned());
            assert(string_views(out@) =~= seq!["(no locals)"@]);
            return out;
        }
        let mut i: usize = 0;
        while i < f.locals.len()
            invariant
                i <= f.locals@.len(),
                out@.len() == i,
                forall|j: int|
                    0 <= j < i ==> (#[trigger] out@[j])@ == frame_local_line(j, f.locals@[j]),
            decreases f.locals.len() - i,
        {
            let mut s: String = "local".to_owned();
            push_dec(&mut s, i as u64);
            s.append(" = 0x");
            push_hex(&mut s, f.locals[i] as u64, 4);
            s.append("  (");
            push_dec_int(&mut s, as_signed(f.locals[i]));
            s.append(")");
            out.push(s);
            i = i + 1;
        }
        assert(string_views(out@) =~= Seq::new(
            f.locals@.len(),
            |i: int| frame_local_line(i, f.locals@[i]),
        ));
        out
    }

    /// Lists the global variables.
    pub fn globals_lines(&self) -> (r: Vec<String>)
        requires
            self.globals@.len() == GLOBALS,
        ensures
            string_views(r@) == Seq::new(
                GLOBALS as nat,
                |i: int| global_line(i, self.globals@[i]),
            ),
    {
        let mut out: Vec<String> = Vec::new();
        let mut i: usize = 0;
        while i < GLOBALS
            invariant
                i <= GLOBALS,
                self.globals@.len() == GLOBALS,
                out@.len() == i,
                forall|j: int|
                    0 <= j < i ==> (#[trigger] out@[j])@ == global_line(j, self.globals@[j]),
            decreases GLOBALS - i,
        {
            let mut s: String = "g".to_owned();
            push_hex(&mut s, i as u64, 2);
            s.append(" = ");
            push_hex(&mut s, self.globals[i] as u64, 4);
            out.push(s);
            i = i + 1;
        }
        assert(string_views(out@) =~= Seq::new(
            GLOBALS as nat,
            |i: int| global_line(i, self.globals@[i]),
        ));
        out
    }

    /// The value of a variable: the top of the stack for 0, which stays there; a local
    /// variable of the current call from 1 to 15; a global one beyond.
    pub fn var_value(&self, var: u8) -> (r: Option<u16>)
        requires
            self.globals@.len() == GLOBALS,
        ensures
            r == (if var == 0 {
                if self.eval_stack@.len() > 0 {
                    Some(self.eval_stack@.last())
                } else {
                    None
                }
            } else if var <= 15 {
                if self.frames@.len() > 0 && var - 1 < self.frames@.last().locals@.len() {
                    Some(self.frames@.last().locals@[var - 1])
                } else {
                    None
                }
            } else {
                Some(self.globals@[var - 16])
            }),
    {
        if var == 0 {
            if self.eval_stack.len() > 0 {
                Some(self.eval_stack[self.eval_stack.len() - 1])
            } else {
                None
            }
        } else if var <= 15 {
            if self.frames.len() == 0 {
                return None;
            }
            let f = &self.frames[self.frames.len() - 1];
            let k: usize = (var - 1) as usize;
            if k < f.locals.len() {
                Some(f.locals[k])
            } else {
                None
            }
        } else {
            Some(self.globals[(var - 16) as usize])
        }
    }
}

// ── Laws ──────────────────────────────────────────────────────────────────────
/// Every word of the dictionary that a window of memory shows a byte of is among the entries
/// that are looked at.
pub proof fn no_word_in_the_window_is_missed(d: DictShape, start: int, end: int, i: int)
    requires
        0 <= start <= end,
        0 <= i < d.count,
        d.entry_length > 0,
        d.key_len <= d.entry_length,
        spans_meet(key_span(d, i), (start, end)),
    ensures
        entries_shown(d, start, end).0 <= i < entries_shown(d, start, end).1,
{
    let e = d.entry_length as int;
    let at = i * e;
    assert(d.base + at < end);
    assert(at + e > start - d.base);
    let lo = (if start < d.base {
        0
    } else {
        start - d.base
    }) / e;
    assert(lo <= i) by (nonlinear_arith)
        requires
            lo == (if start < d.base {
                0
            } else {
                start - d.base
            }) / e,
            at == i * e,
            at + e > start - d.base,
            e > 0,
            i >= 0,
    ;
    assert(i <= (end - 1 - d.base) / e) by (nonlinear_arith)
        requires
            at == i * e,
            d.base + at < end,
            e > 0,
            i >= 0,
    ;
}

/// A word of memory is the number of its sixteen bits, in two's complement.
pub proof fn a_word_is_signed_by_its_highest_bit(n: u16)
    ensures
        -0x8000 <= signed16(n) < 0x8000,
        (signed16(n) - n as int) % 0x1_0000 == 0,
{
}

/// Memory is shown in rows of sixteen: as many as were asked for, or as there are, and each
/// row begins where the one before it ends; together they show every byte up to the last row's
/// end once.
pub proof fn rows_cover_the_window(len: int, addr: int, rows: int)
    requires
        0 <= len,
        0 <= addr,
        0 <= rows,
    ensures
        0 <= row_count(len, addr, rows) <= rows,
        addr >= len ==> row_count(len, addr, rows) == 0,
        addr < len && row_count(len, addr, rows) < rows ==> addr + 16 * row_count(len, addr, rows)
            >= len,
        addr < len && rows > 0 ==> addr + 16 * (row_count(len, addr, rows) - 1) < len,
        addr <= len ==> window_of(len, addr, rows).0 == addr,
        window_of(len, addr, rows).1 <= len,
        addr < len && addr + 16 * rows <= len ==> window_of(len, addr, rows).1 == addr + 16 * rows,
{
}

/// The bytes in hexadecimal take three columns each: two digits and a space.
pub proof fn a_byte_takes_three_columns(s: Seq<u8>, i: int)
    requires
        0 <= i < s.len(),
    ensures
        hex_bytes(s).len() == 3 * s.len(),
        numeral_value(hex_bytes(s).subrange(3 * i, 3 * i + 2), 16) == s[i],
        hex_bytes(s)[3 * i + 2] == ' ',
    decreases s.len(),
{
    reveal_strlit(" ");
    let before = hex_bytes(s.drop_last());
    let d = hex_pad(s.last() as nat, 2);
    a_hexadecimal_numeral_denotes_its_number(s.last() as nat, 2);
    assert(d.len() == 2) by {
        reveal_with_fuel(hex_pad, 3);
    }
    if s.len() > 1 {
        a_byte_takes_three_columns(s.drop_last(), if i < s.len() - 1 {
            i
        } else {
            0
        });
    }
    assert(before.len() == 3 * (s.len() - 1));
    if i < s.len() - 1 {
        assert(hex_bytes(s).subrange(3 * i, 3 * i + 2) =~= before.subrange(3 * i, 3 * i + 2));
        assert(hex_bytes(s)[3 * i + 2] == before[3 * i + 2]);
    } else {
        assert(hex_bytes(s).subrange(3 * i, 3 * i + 2) =~= d);
    }
}

/// A row of memory tells its address first; each of its bytes stands in hexadecimal in the
/// column of its place in the row, and as a character in another, where it is one.
pub proof fn a_row_tells_its_bytes(bytes: Seq<u8>, a: int, extra: Seq<char>, i: int)
    requires
        0 <= a < 0x100_0000,
        0 <= i < 16,
        a + i < bytes.len(),
    ensures
        numeral_value(hex_row(bytes, a, extra).take(6), 16) == a,
        numeral_value(hex_row(bytes, a, extra).subrange(8 + 3 * i, 10 + 3 * i), 16) == bytes[a + i],
        hex_row(bytes, a, extra).len() == 56 + (if bytes.len() - a < 16 {
            bytes.len() - a
        } else {
            16
        }),
        0x20 <= bytes[a + i] <= 0x7e ==> hex_row(bytes, a, extra)[56 + i] as int == bytes[a + i],
        bytes[a + i] < 0x20 ==> hex_row(bytes, a, extra)[56 + i] == '.',
{
    reveal_strlit("  ");
    let row = row_bytes(bytes, a);
    let line = hex_row(bytes, a, extra);
    let h = hex_pad(a as nat, 6);
    a_hexadecimal_numeral_denotes_its_number(a as nat, 6);
    assert(h.len() == 6) by {
        lemma_six_digits(a as nat);
    }
    a_byte_takes_three_columns(row, i);
    let hs = hex_bytes(row);
    assert(row[i] == bytes[a + i]);
    assert(flush_left(hs, 48).len() == 48);
    assert(line.take(6) =~= h);
    assert(line.subrange(8 + 3 * i, 10 + 3 * i) =~= hs.subrange(3 * i, 3 * i + 2));
    assert(line[56 + i] == glyphs_of(row, extra)[i]);
}

/// A number below 16 to the sixth has six digits.
pub proof fn lemma_six_digits(n: nat)
    requires
        n < 0x100_0000,
    ensures
        hex_pad(n, 6).len() == 6,
{
    reveal_with_fuel(hex_pad, 7);
}

/// Whether a text tells a number in hexadecimal behind a label.
pub open spec fn tells_hex(s: Seq<char>, label: Seq<char>, n: int) -> bool {
    exists|a: Seq<char>, v: Seq<char>, b: Seq<char>|
        s == #[trigger] (a + label + v + b) && v.len() > 0 && numeral_value(v, 16) == n && (
        b.len() == 0 || b[0] == ' ')
}

/// Whether a text tells a number in decimal digits between two texts.
pub open spec fn tells_dec(s: Seq<char>, label: Seq<char>, n: int, end: Seq<char>) -> bool {
    exists|a: Seq<char>, v: Seq<char>, b: Seq<char>|
        s == #[trigger] (a + label + v + end + b) && v.len() > 0 && (if n < 0 {
            v[0] == '-' && numeral_value(v.skip(1), 10) == -n
        } else {
            numeral_value(v, 10) == n
        })
}

/// A text made with a number in hexadecimal tells it.
pub proof fn lemma_tells_hex(a: Seq<char>, label: Seq<char>, n: nat, width: nat, b: Seq<char>)
    requires
        b.len() == 0 || b[0] == ' ',
    ensures
        tells_hex(a + label + hex_pad(n, width) + b, label, n as int),
{
    a_hexadecimal_numeral_denotes_its_number(n, width);
    let v = hex_pad(n, width);
    assert(a + label + v + b == a + label + v + b);
}

/// A text made with a number tells it.
pub proof fn lemma_tells_dec(a: Seq<char>, label: Seq<char>, n: int, end: Seq<char>, b: Seq<char>)
    ensures
        tells_dec(a + label + dec_int(n) + end + b, label, n, end),
{
    let v = dec_int(n);
    if n < 0 {
        a_decimal_numeral_denotes_its_number((-n) as nat);
        assert(v.skip(1) =~= dec((-n) as nat));
    } else {
        a_decimal_numeral_denotes_its_number(n as nat);
    }
    assert(a + label + v + end + b == a + label + v + end + b);
}

/// The line of a call tells the place of the call, the routine, where it returns to and how
/// many arguments it has.
pub proof fn a_call_is_told_by_its_routine(i: int, f: CallFrame)
    requires
        0 <= i,
    ensures
        tells_dec(frame_line(i, f), "#"@, i, "  fn@"@),
        tells_hex(frame_line(i, f), "  fn@"@, f.func_addr as int),
        tells_hex(frame_line(i, f), "  ret="@, f.return_pc as int),
        tells_dec(frame_line(i, f), "  args="@, f.arg_count as int, seq![]),
{
    reveal_strlit("  ret=");
    reveal_strlit("  args=");
    let line = frame_line(i, f);
    let e = Seq::<char>::empty();
    let head = "#"@ + dec(i as nat);
    let routine = hex_pad(f.func_addr as nat, 6);
    let back = hex_pad(f.return_pc as nat, 6);
    let args = "  args="@ + dec(f.arg_count as nat);
    lemma_tells_dec(e, "#"@, i, "  fn@"@, routine + "  ret="@ + back + args);
    assert(line =~= e + "#"@ + dec_int(i) + "  fn@"@ + (routine + "  ret="@ + back + args));
    lemma_tells_hex(head, "  fn@"@, f.func_addr as nat, 6, "  ret="@ + back + args);
    assert(line =~= head + "  fn@"@ + routine + ("  ret="@ + back + args));
    lemma_tells_hex(head + "  fn@"@ + routine, "  ret="@, f.return_pc as nat, 6, args);
    assert(line =~= head + "  fn@"@ + routine + "  ret="@ + back + args);
    let most = head + "  fn@"@ + routine + "  ret="@ + back;
    lemma_tells_dec(most, "  args="@, f.arg_count as int, e, e);
    assert(line =~= most + "  args="@ + dec_int(f.arg_count as int) + e + e);
}

/// The line of a value on the stack tells the value, in hexadecimal and as a signed number.
pub proof fn a_stacked_value_is_told(i: int, v: u16, base: bool)
    requires
        0 <= i,
    ensures
        tells_hex(stack_line(i, v, base), "] "@, v as int),
        v < 0x8000 ==> tells_dec(stack_line(i, v, base), "  ("@, v as int, ")"@),
        v >= 0x8000 ==> tells_dec(stack_line(i, v, base), "  ("@, v - 0x1_0000, ")"@),
        tells_dec(stack_line(i, v, base), if i < 10 {
            "[  "@
        } else if i < 100 {
            "[ "@
        } else {
            "["@
        }, i, "] "@),
{
    reveal_strlit("  (");
    reveal_strlit("[");
    reveal_strlit("[ ");
    reveal_strlit("[  ");
    let line = stack_line(i, v, base);
    let e = Seq::<char>::empty();
    let end = if base {
        "  <- frame base"@
    } else {
        ""@
    };
    let head = "["@ + flush_right(dec(i as nat), 3);
    let h = hex_pad(v as nat, 4);
    let n = "  ("@ + dec_int(signed16(v)) + ")"@ + end;
    lemma_tells_hex(head, "] "@, v as nat, 4, n);
    assert(line =~= head + "] "@ + h + n);
    lemma_tells_dec(head + "] "@ + h, "  ("@, signed16(v), ")"@, end);
    assert(line =~= head + "] "@ + h + "  ("@ + dec_int(signed16(v)) + ")"@ + end);
    let label = if i < 10 {
        "[  "@
    } else if i < 100 {
        "[ "@
    } else {
        "["@
    };
    lemma_length_of_decimal(i as nat);
    lemma_tells_dec(e, label, i, "] "@, h + n);
    assert(head =~= label + dec(i as nat));
    assert(line =~= e + label + dec_int(i) + "] "@ + (h + n));
}

/// How many digits a small number has.
proof fn lemma_length_of_decimal(n: nat)
    ensures
        n < 10 <==> dec(n).len() == 1,
        n < 100 <==> dec(n).len() <= 2,
        dec(n).len() > 0,
    decreases n,
{
    a_decimal_numeral_denotes_its_number(n);
    if n >= 10 {
        lemma_length_of_decimal(n / 10);
        a_decimal_numeral_denotes_its_number(n / 10);
    }
}

/// The line of a variable tells its number and its value.
pub proof fn a_variable_is_told_by_its_value(i: int, v: u16)
    requires
        0 <= i,
    ensures
        tells_dec(local_line(i, v), "local"@, i, " = "@),
        tells_hex(local_line(i, v), " = "@, v as int),
        tells_dec(local_line(i, v), "  ("@, v as int, ")"@),
        tells_dec(frame_local_line(i, v), "local"@, i, " = 0x"@),
        tells_hex(frame_local_line(i, v), " = 0x"@, v as int),
        v < 0x8000 ==> tells_dec(frame_local_line(i, v), "  ("@, v as int, ")"@),
        v >= 0x8000 ==> tells_dec(frame_local_line(i, v), "  ("@, v - 0x1_0000, ")"@),
        tells_hex(global_line(i, v), "g"@, i),
        tells_hex(global_line(i, v), " = "@, v as int),
{
    reveal_strlit("  (");
    reveal_strlit(" = ");
    let e = Seq::<char>::empty();
    let h = hex_pad(v as nat, 4);
    let head = "local"@ + dec(i as nat);
    let n = "  ("@ + dec(v as nat) + ")"@;
    lemma_tells_dec(e, "local"@, i, " = "@, h + n);
    assert(local_line(i, v) =~= e + "local"@ + dec_int(i) + " = "@ + (h + n));
    lemma_tells_hex(head, " = "@, v as nat, 4, n);
    assert(local_line(i, v) =~= head + " = "@ + h + n);
    lemma_tells_dec(head + " = "@ + h, "  ("@, v as int, ")"@, e);
    assert(local_line(i, v) =~= head + " = "@ + h + "  ("@ + dec_int(v as int) + ")"@ + e);
    let s = "  ("@ + dec_int(signed16(v)) + ")"@;
    lemma_tells_dec(e, "local"@, i, " = 0x"@, h + s);
    assert(frame_local_line(i, v) =~= e + "local"@ + dec_int(i) + " = 0x"@ + (h + s));
    lemma_tells_hex(head, " = 0x"@, v as nat, 4, s);
    assert(frame_local_line(i, v) =~= head + " = 0x"@ + h + s);
    lemma_tells_dec(head + " = 0x"@ + h, "  ("@, signed16(v), ")"@, e);
    assert(frame_local_line(i, v) =~= head + " = 0x"@ + h + "  ("@ + dec_int(signed16(v)) + ")"@ + e);
    let g = hex_pad(i as nat, 2);
    lemma_tells_hex(e, "g"@, i as nat, 2, " = "@ + h);
    assert(global_line(i, v) =~= e + "g"@ + g + (" = "@ + h));
    lemma_tells_hex("g"@ + g, " = "@, v as nat, 4, e);
    assert(global_line(i, v) =~= "g"@ + g + " = "@ + h + e);
}

/// A piece of text is shown in the row that shows the last byte of its word, behind what
/// that row shows already, and in no other; where the window does not show that byte, it is
/// shown nowhere.
pub proof fn a_piece_is_shown_in_the_row_of_its_word(
    rows: Seq<Option<Seq<char>>>,
    w: (int, int),
    word: int,
    piece: Seq<char>,
    r: int,
)
    requires
        0 <= r < rows.len(),
        0 <= w.0 <= w.1 <= w.0 + 16 * rows.len(),
    ensures
        ({
            let after = credited(rows, w, word, piece);
            let here = w.0 + 16 * r <= word + 1 < w.0 + 16 * r + 16 && word + 1 < w.1;
            &&& after.len() == rows.len()
            &&& !here ==> after[r] == rows[r]
            &&& here && rows[r] is None ==> after[r] == Some(piece)
            &&& here && rows[r] is Some ==> after[r] == Some(rows[r]->0 + piece)
        }),
{
}

} // verus!
