//! Text as sequences of characters: splitting, trimming, folding, searching and
//! numerals.

use vstd::prelude::*;

verus! {

/// `String::push` appends one character to the string and changes nothing else.
pub assume_specification[ String::push ](s: &mut String, ch: char)
    ensures
        final(s)@ == old(s)@.push(ch),
;

// ── Characters ────────────────────────────────────────────────────────────────
/// The characters with the Unicode property `White_Space`.
pub open spec fn is_space(c: char) -> bool {
    let u = c as u32;
    ||| 9 <= u <= 13
    ||| u == 0x20
    ||| u == 0x85
    ||| u == 0xA0
    ||| u == 0x1680
    ||| 0x2000 <= u <= 0x200A
    ||| u == 0x2028
    ||| u == 0x2029
    ||| u == 0x202F
    ||| u == 0x205F
    ||| u == 0x3000
}

/// Tests for Unicode white space.
pub fn char_is_space(c: char) -> (r: bool)
    ensures
        r == is_space(c),
{
    let u: u32 = c as u32;
    (9 <= u && u <= 13) || u == 0x20 || u == 0x85 || u == 0xA0 || u == 0x1680 || (0x2000 <= u && u
        <= 0x200A) || u == 0x2028 || u == 0x2029 || u == 0x202F || u == 0x205F || u == 0x3000
}

/// The ASCII white-space characters: space, tab, line feed, form feed, carriage return.
pub open spec fn is_ascii_space(c: char) -> bool {
    c == ' ' || c == '\t' || c == '\n' || c == '\r' || c as u32 == 0x0C
}

/// Tests for ASCII white space.
pub fn char_is_ascii_space(c: char) -> (r: bool)
    ensures
        r == is_ascii_space(c),
{
    c == ' ' || c == '\t' || c == '\n' || c == '\r' || c as u32 == 0x0C
}

/// An upper-case ASCII letter folded to lower case; every other character itself.
pub open spec fn ascii_lower(c: char) -> char {
    if 'A' <= c <= 'Z' {
        ((c as u8) + 32) as char
    } else {
        c
    }
}

/// Folds one character to ASCII lower case.
pub fn char_to_lower(c: char) -> (r: char)
    ensures
        r == ascii_lower(c),
{
    if 'A' <= c && c <= 'Z' {
        let b: u8 = c as u8;
        (b + 32) as char
    } else {
        c
    }
}

/// Whether the character is an ASCII letter or digit.
pub open spec fn is_ascii_alnum(c: char) -> bool {
    ('a' <= c <= 'z') || ('A' <= c <= 'Z') || ('0' <= c <= '9')
}

/// A text with every ASCII letter folded to lower case.
pub open spec fn lower(s: Seq<char>) -> Seq<char> {
    s.map_values(|c: char| ascii_lower(c))
}

/// Two texts that are equal but for the case of ASCII letters.
pub open spec fn same_ignoring_case(a: Seq<char>, b: Seq<char>) -> bool {
    lower(a) =~= lower(b)
}

// ── Conversions ───────────────────────────────────────────────────────────────
/// The characters of a string, as a vector.
pub fn to_chars(s: &str) -> (r: Vec<char>)
    ensures
        r@ == s@,
{
    let mut r: Vec<char> = Vec::new();
    for c in it: s.chars()
        invariant
            it.seq() == s@,
            r@ == s@.take(it.index() as int),
    {
        r.push(c);
    }
    r
}

/// A string made of the given characters.
pub fn from_chars(v: &[char]) -> (r: String)
    ensures
        r@ == v@,
{
    let mut r: String = String::new();
    let mut i: usize = 0;
    while i < v.len()
        invariant
            i <= v.len(),
            r@ == v@.take(i as int),
        decreases v.len() - i,
    {
        r.push(v[i]);
        i = i + 1;
    }
    r
}

/// A copy of the characters from `from` up to, not including, `to`.
pub fn slice_chars(v: &[char], from: usize, to: usize) -> (r: Vec<char>)
    requires
        from <= to <= v@.len(),
    ensures
        r@ == v@.subrange(from as int, to as int),
{
    let mut r: Vec<char> = Vec::new();
    let mut i: usize = from;
    while i < to
        invariant
            from <= i <= to <= v@.len(),
            r@ == v@.subrange(from as int, i as int),
        decreases to - i,
    {
        r.push(v[i]);
        i = i + 1;
    }
    r
}

/// Folds every ASCII letter of a text to lower case.
pub fn lower_chars(v: &[char]) -> (r: Vec<char>)
    ensures
        r@ == lower(v@),
{
    let mut r: Vec<char> = Vec::new();
    let mut i: usize = 0;
    while i < v.len()
        invariant
            i <= v.len(),
            r@ == lower(v@.take(i as int)),
        decreases v.len() - i,
    {
        r.push(char_to_lower(v[i]));
        i = i + 1;
        assert(v@.take(i as int).drop_last() =~= v@.take(i - 1));
        assert(r@ =~= lower(v@.take(i as int)));
    }
    assert(v@.take(i as int) =~= v@);
    r
}

/// Compares two runs of characters.
pub fn same_chars(a: &[char], b: &[char]) -> (r: bool)
    ensures
        r == (a@ == b@),
{
    if a.len() != b.len() {
        return false;
    }
    let mut i: usize = 0;
    while i < a.len()
        invariant
            i <= a.len(),
            a@.len() == b@.len(),
            forall|j: int| 0 <= j < i ==> a@[j] == b@[j],
        decreases a.len() - i,
    {
        if a[i] != b[i] {
            return false;
        }
        i = i + 1;
    }
    assert(a@ =~= b@);
    true
}

/// The views of a vector of strings.
pub open spec fn string_views(v: Seq<String>) -> Seq<Seq<char>> {
    v.map_values(|s: String| s@)
}

/// The view of an optional string.
pub open spec fn opt_view(o: Option<String>) -> Option<Seq<char>> {
    match o {
        Some(s) => Some(s@),
        None => None,
    }
}

/// The view of an optional string slice.
pub open spec fn opt_str_view(o: Option<&str>) -> Option<Seq<char>> {
    match o {
        Some(s) => Some(s@),
        None => None,
    }
}

// ── Trimming ──────────────────────────────────────────────────────────────────
/// The text without the longest tail whose characters all satisfy `p`.
pub open spec fn trim_end_by(s: Seq<char>, p: spec_fn(char) -> bool) -> Seq<char>
    decreases s.len(),
{
    if s.len() > 0 && p(s.last()) {
        trim_end_by(s.drop_last(), p)
    } else {
        s
    }
}

/// The text without the longest head whose characters all satisfy `p`.
pub open spec fn trim_start_by(s: Seq<char>, p: spec_fn(char) -> bool) -> Seq<char>
    decreases s.len(),
{
    if s.len() > 0 && p(s.first()) {
        trim_start_by(s.drop_first(), p)
    } else {
        s
    }
}

/// The text without white space at either end.
pub open spec fn trim(s: Seq<char>) -> Seq<char> {
    trim_end_by(trim_start_by(s, |c: char| is_space(c)), |c: char| is_space(c))
}

/// What is left of a text after trimming its end is its head, up to the last
/// character that does not satisfy `p`.
pub proof fn lemma_trim_end_is_prefix(s: Seq<char>, p: spec_fn(char) -> bool)
    ensures
        trim_end_by(s, p).len() <= s.len(),
        trim_end_by(s, p) == s.take(trim_end_by(s, p).len() as int),
        trim_end_by(s, p).len() > 0 ==> !p(trim_end_by(s, p).last()),
        forall|i: int| trim_end_by(s, p).len() <= i < s.len() ==> p(#[trigger] s[i]),
    decreases s.len(),
{
    if s.len() > 0 && p(s.last()) {
        lemma_trim_end_is_prefix(s.drop_last(), p);
        let t = trim_end_by(s, p);
        assert(t == s.drop_last().take(t.len() as int));
        assert(s.drop_last().take(t.len() as int) =~= s.take(t.len() as int));
        assert forall|i: int| t.len() <= i < s.len() implies p(#[trigger] s[i]) by {
            if i < s.len() - 1 {
                assert(s.drop_last()[i] == s[i]);
            }
        }
    } else {
        assert(s.take(s.len() as int) =~= s);
    }
}

/// A head of the text that ends in a character not satisfying `p`, with only
/// characters satisfying `p` behind it, is the trimmed text.
pub proof fn lemma_trim_end_at(s: Seq<char>, p: spec_fn(char) -> bool, n: int)
    requires
        0 <= n <= s.len(),
        n > 0 ==> !p(s[n - 1]),
        forall|i: int| n <= i < s.len() ==> p(#[trigger] s[i]),
    ensures
        trim_end_by(s, p) == s.take(n),
    decreases s.len(),
{
    if s.len() == n {
        assert(s.take(n) =~= s);
        if n > 0 {
            assert(s.last() == s[n - 1]);
        }
    } else {
        assert(p(s[s.len() - 1]));
        assert forall|i: int| n <= i < s.drop_last().len() implies p(
            #[trigger] s.drop_last()[i],
        ) by {
            assert(s.drop_last()[i] == s[i]);
        }
        lemma_trim_end_at(s.drop_last(), p, n);
        assert(s.drop_last().take(n) =~= s.take(n));
    }
}

/// The tail of the text that starts in a character not satisfying `p`, with only
/// characters satisfying `p` before it, is the text trimmed at its start.
pub proof fn lemma_trim_start_at(s: Seq<char>, p: spec_fn(char) -> bool, n: int)
    requires
        0 <= n <= s.len(),
        n < s.len() ==> !p(s[n]),
        forall|i: int| 0 <= i < n ==> p(#[trigger] s[i]),
    ensures
        trim_start_by(s, p) == s.skip(n),
    decreases n,
{
    if n == 0 {
        assert(s.skip(0) =~= s);
    } else {
        assert(p(s[0]));
        assert forall|i: int| 0 <= i < n - 1 implies p(#[trigger] s.drop_first()[i]) by {
            assert(s.drop_first()[i] == s[i + 1]);
        }
        lemma_trim_start_at(s.drop_first(), p, n - 1);
        assert(s.drop_first().skip(n - 1) =~= s.skip(n));
    }
}

/// Where a text begins and ends once white space is trimmed off both of its ends.
pub fn trim_span(v: &[char]) -> (r: (usize, usize))
    ensures
        r.0 <= r.1 <= v@.len(),
        v@.subrange(r.0 as int, r.1 as int) == trim(v@),
{
    let ghost p = |c: char| is_space(c);
    let mut from: usize = 0;
    while from < v.len() && char_is_space(v[from])
        invariant
            from <= v.len(),
            forall|i: int| 0 <= i < from ==> is_space(#[trigger] v@[i]),
        decreases v.len() - from,
    {
        from = from + 1;
    }
    proof {
        assert forall|i: int| 0 <= i < from implies p(#[trigger] v@[i]) by {}
        lemma_trim_start_at(v@, p, from as int);
    }
    let mut to: usize = v.len();
    while to > from && char_is_space(v[to - 1])
        invariant
            from <= to <= v.len(),
            forall|i: int| to <= i < v.len() ==> is_space(#[trigger] v@[i]),
        decreases to,
    {
        to = to - 1;
    }
    proof {
        let s = v@.skip(from as int);
        let n = to - from;
        assert forall|i: int| n <= i < s.len() implies p(#[trigger] s[i]) by {
            assert(s[i] == v@[from + i]);
        }
        lemma_trim_end_at(s, p, n);
        assert(s.take(n) =~= v@.subrange(from as int, to as int));
    }
    (from, to)
}

// ── Lines ─────────────────────────────────────────────────────────────────────
/// Where the first occurrence of `c` is; the length of the text if there is none.
pub open spec fn find_char(s: Seq<char>, c: char) -> int
    decreases s.len(),
{
    if s.len() == 0 || s.first() == c {
        0
    } else {
        1 + find_char(s.drop_first(), c)
    }
}

/// A line without the carriage return that belongs to its line ending.
pub open spec fn without_cr(s: Seq<char>) -> Seq<char> {
    if s.len() > 0 && s.last() == '\r' {
        s.drop_last()
    } else {
        s
    }
}

/// The lines of a text. A line ends in a line feed, or in a carriage return and a
/// line feed; the last line needs no ending.
pub open spec fn lines(s: Seq<char>) -> Seq<Seq<char>>
    decreases s.len(),
{
    if s.len() == 0 {
        seq![]
    } else {
        let k = find_char(s, '\n');
        if 0 <= k < s.len() {
            seq![without_cr(s.take(k))] + lines(s.skip(k + 1))
        } else {
            seq![s]
        }
    }
}

/// `find_char` is the least index at which the character stands.
pub proof fn lemma_find_char(s: Seq<char>, c: char, k: int)
    requires
        0 <= k <= s.len(),
        k < s.len() ==> s[k] == c,
        forall|i: int| 0 <= i < k ==> s[i] != c,
    ensures
        find_char(s, c) == k,
    decreases k,
{
    if k > 0 {
        assert(s[0] != c);
        assert forall|i: int| 0 <= i < k - 1 implies s.drop_first()[i] != c by {
            assert(s.drop_first()[i] == s[i + 1]);
        }
        lemma_find_char(s.drop_first(), c, k - 1);
    }
}

/// The views of a vector of lines.
pub open spec fn line_views(v: Seq<Vec<char>>) -> Seq<Seq<char>> {
    v.map_values(|l: Vec<char>| l@)
}

/// The pieces of a text that a list of spans marks out.
pub open spec fn span_views(v: Seq<char>, spans: Seq<(usize, usize)>) -> Seq<Seq<char>> {
    spans.map_values(|s: (usize, usize)| v.subrange(s.0 as int, s.1 as int))
}

/// Finds where the lines of a text begin and end.
pub fn line_spans(v: &[char]) -> (r: Vec<(usize, usize)>)
    ensures
        forall|i: int| 0 <= i < r@.len() ==> (#[trigger] r@[i]).0 <= r@[i].1 <= v@.len(),
        span_views(v@, r@) == lines(v@),
{
    let mut r: Vec<(usize, usize)> = Vec::new();
    let mut pos: usize = 0;
    assert(v@.skip(0) =~= v@);
    assert(span_views(v@, r@) + lines(v@) =~= lines(v@));
    while pos < v.len()
        invariant
            pos <= v.len(),
            forall|i: int| 0 <= i < r@.len() ==> (#[trigger] r@[i]).0 <= r@[i].1 <= v@.len(),
            span_views(v@, r@) + lines(v@.skip(pos as int)) == lines(v@),
        decreases v.len() - pos,
    {
        let mut k: usize = pos;
        while k < v.len() && v[k] != '\n'
            invariant
                pos <= k <= v.len(),
                forall|i: int| pos <= i < k ==> v@[i] != '\n',
            decreases v.len() - k,
        {
            k = k + 1;
        }
        let ghost rest = v@.skip(pos as int);
        let ghost before = span_views(v@, r@);
        proof {
            assert forall|i: int| 0 <= i < k - pos implies rest[i] != '\n' by {
                assert(rest[i] == v@[pos + i]);
            }
            if k < v.len() {
                assert(rest[k - pos] == v@[k as int]);
            }
            lemma_find_char(rest, '\n', k - pos);
        }
        if k < v.len() {
            let mut end: usize = k;
            if end > pos && v[end - 1] == '\r' {
                end = end - 1;
            }
            let ghost line = v@.subrange(pos as int, end as int);
            assert(rest.take(k - pos) =~= v@.subrange(pos as int, k as int));
            assert(line =~= without_cr(rest.take(k - pos)));
            assert(rest.skip(k - pos + 1) =~= v@.skip(k + 1));
            r.push((pos, end));
            assert(span_views(v@, r@) =~= before.push(line));
            assert(lines(rest) == seq![line] + lines(v@.skip(k + 1)));
            assert(span_views(v@, r@) + lines(v@.skip(k + 1)) =~= before + lines(rest));
            pos = k + 1;
        } else {
            let ghost line = v@.subrange(pos as int, k as int);
            assert(line =~= rest);
            r.push((pos, k));
            assert(span_views(v@, r@) =~= before.push(line));
            assert(lines(rest) =~= seq![line]);
            assert(v@.skip(k as int) =~= Seq::<char>::empty());
            assert(span_views(v@, r@) + lines(v@.skip(k as int)) =~= before + lines(rest));
            pos = k;
        }
    }
    assert(v@.skip(pos as int) =~= Seq::<char>::empty());
    assert(span_views(v@, r@) + lines(v@.skip(pos as int)) =~= span_views(v@, r@));
    r
}

/// Splits a text into its lines.
pub fn split_lines(v: &[char]) -> (r: Vec<Vec<char>>)
    ensures
        line_views(r@) == lines(v@),
{
    let spans: Vec<(usize, usize)> = line_spans(v);
    let mut r: Vec<Vec<char>> = Vec::new();
    let mut i: usize = 0;
    while i < spans.len()
        invariant
            i <= spans@.len(),
            forall|j: int|
                0 <= j < spans@.len() ==> (#[trigger] spans@[j]).0 <= spans@[j].1 <= v@.len(),
            line_views(r@) == span_views(v@, spans@).take(i as int),
        decreases spans.len() - i,
    {
        let line: Vec<char> = slice_chars(v, spans[i].0, spans[i].1);
        let ghost before = line_views(r@);
        r.push(line);
        i = i + 1;
        assert(line_views(r@) =~= before.push(line@));
        assert(line_views(r@) =~= span_views(v@, spans@).take(i as int));
    }
    assert(span_views(v@, spans@).take(i as int) =~= span_views(v@, spans@));
    r
}

// ── Searching ─────────────────────────────────────────────────────────────────
/// Whether `w` stands in `s` at index `i`.
pub open spec fn occurs_at(s: Seq<char>, w: Seq<char>, i: int) -> bool {
    0 <= i && i + w.len() <= s.len() && s.subrange(i, i + w.len()) =~= w
}

/// Whether `w` occurs in `s`.
pub open spec fn contains(s: Seq<char>, w: Seq<char>) -> bool {
    exists|i: int| #[trigger] occurs_at(s, w, i)
}

/// Tests whether `w` stands in `v` at index `i`.
pub fn chars_match_at(v: &[char], w: &[char], i: usize) -> (r: bool)
    ensures
        r == occurs_at(v@, w@, i as int),
{
    if i > v.len() || w.len() > v.len() - i {
        return false;
    }
    let mut j: usize = 0;
    while j < w.len()
        invariant
            j <= w@.len(),
            i + w.len() <= v.len(),
            forall|k: int| 0 <= k < j ==> v@[i + k] == w@[k],
        decreases w.len() - j,
    {
        if v[i + j] != w[j] {
            assert(v@.subrange(i as int, i + w@.len())[j as int] != w@[j as int]);
            return false;
        }
        j = j + 1;
    }
    assert(v@.subrange(i as int, i + w@.len()) =~= w@);
    true
}

/// Tests whether `w` occurs in `v`.
pub fn chars_contain(v: &[char], w: &str) -> (r: bool)
    ensures
        r == contains(v@, w@),
{
    let wv: Vec<char> = to_chars(w);
    let mut i: usize = 0;
    while i <= v.len() && wv.len() <= v.len() - i
        invariant
            wv@ == w@,
            i <= v@.len() + 1,
            forall|k: int| 0 <= k < i ==> !#[trigger] occurs_at(v@, w@, k),
        decreases v@.len() + 1 - i,
    {
        if chars_match_at(v, &wv, i) {
            return true;
        }
        if i == v.len() {
            assert(forall|k: int| #[trigger] occurs_at(v@, w@, k) ==> 0 <= k <= i);
            return false;
        }
        i = i + 1;
    }
    assert(forall|k: int| #[trigger] occurs_at(v@, w@, k) ==> k < i);
    false
}

// ── Numerals ──────────────────────────────────────────────────────────────────
/// The character of one digit, in the bases up to sixteen.
pub open spec fn digit(d: int) -> char {
    if 0 <= d < 10 {
        (48 + d) as char
    } else {
        (87 + d) as char
    }
}

/// The decimal numeral of a natural number.
pub open spec fn dec(n: nat) -> Seq<char>
    decreases n,
{
    if n < 10 {
        seq![digit(n as int)]
    } else {
        dec(n / 10).push(digit((n % 10) as int))
    }
}

/// The decimal numeral of an integer.
pub open spec fn dec_int(n: int) -> Seq<char> {
    if n < 0 {
        seq!['-'] + dec((-n) as nat)
    } else {
        dec(n as nat)
    }
}

/// The hexadecimal numeral of a natural number, padded with zeros to `width` digits.
pub open spec fn hex_pad(n: nat, width: nat) -> Seq<char>
    decreases n, width,
{
    if n < 16 && width <= 1 {
        seq![digit(n as int)]
    } else {
        hex_pad(n / 16, if width == 0 { 0 } else { (width - 1) as nat }).push(digit((n % 16) as int))
    }
}

/// The character of a digit below sixteen.
pub fn digit_char(d: u8) -> (r: char)
    requires
        d < 16,
    ensures
        r == digit(d as int),
{
    if d < 10 {
        (48 + d) as char
    } else {
        (87 + d) as char
    }
}

/// Appends the decimal numeral of `n`.
pub fn push_dec(s: &mut String, n: u64)
    ensures
        final(s)@ == old(s)@ + dec(n as nat),
    decreases n,
{
    if n < 10 {
        s.push(digit_char(n as u8));
        assert(s@ =~= old(s)@ + dec(n as nat));
    } else {
        push_dec(s, n / 10);
        let d: u8 = (n % 10) as u8;
        s.push(digit_char(d));
        assert(s@ =~= old(s)@ + dec(n as nat));
    }
}

/// Appends the decimal numeral of a signed number.
pub fn push_dec_int(s: &mut String, n: i64)
    ensures
        final(s)@ == old(s)@ + dec_int(n as int),
{
    if n < 0 {
        s.push('-');
        let m: u64 = if n == i64::MIN {
            0x8000_0000_0000_0000
        } else {
            (-n) as u64
        };
        push_dec(s, m);
        assert(s@ =~= old(s)@ + dec_int(n as int));
    } else {
        push_dec(s, n as u64);
    }
}

/// Appends the hexadecimal numeral of `n`, padded with zeros to `width` digits.
pub fn push_hex(s: &mut String, n: u64, width: u8)
    ensures
        final(s)@ == old(s)@ + hex_pad(n as nat, width as nat),
    decreases n, width,
{
    if n < 16 && width <= 1 {
        s.push(digit_char(n as u8));
        assert(s@ =~= old(s)@ + hex_pad(n as nat, width as nat));
    } else {
        let w: u8 = if width == 0 {
            0
        } else {
            width - 1
        };
        push_hex(s, n / 16, w);
        let d: u8 = (n % 16) as u8;
        s.push(digit_char(d));
        assert(s@ =~= old(s)@ + hex_pad(n as nat, width as nat));
    }
}

// ── Columns ───────────────────────────────────────────────────────────────────
/// So many spaces.
pub open spec fn spaces(n: nat) -> Seq<char> {
    Seq::new(n, |i: int| ' ')
}

/// A text, flush right in a column.
pub open spec fn flush_right(s: Seq<char>, width: nat) -> Seq<char> {
    if s.len() < width {
        spaces((width - s.len()) as nat) + s
    } else {
        s
    }
}

/// A text, flush left in a column.
pub open spec fn flush_left(s: Seq<char>, width: nat) -> Seq<char> {
    if s.len() < width {
        s + spaces((width - s.len()) as nat)
    } else {
        s
    }
}

/// Appends spaces.
pub fn push_spaces(s: &mut String, n: usize)
    ensures
        final(s)@ == old(s)@ + spaces(n as nat),
{
    let mut i: usize = 0;
    assert(s@ =~= old(s)@ + spaces(0));
    while i < n
        invariant
            i <= n,
            s@ == old(s)@ + spaces(i as nat),
        decreases n - i,
    {
        s.push(' ');
        i = i + 1;
        assert(s@ =~= old(s)@ + spaces(i as nat));
    }
}

/// Appends a text flush right in a column.
pub fn push_flush_right(s: &mut String, t: &str, width: usize)
    ensures
        final(s)@ == old(s)@ + flush_right(t@, width as nat),
{
    let n: usize = t.unicode_len();
    if n < width {
        push_spaces(s, width - n);
        s.append(t);
        assert(s@ =~= old(s)@ + flush_right(t@, width as nat));
    } else {
        s.append(t);
    }
}

/// Appends a text flush left in a column.
pub fn push_flush_left(s: &mut String, t: &str, width: usize)
    ensures
        final(s)@ == old(s)@ + flush_left(t@, width as nat),
{
    let n: usize = t.unicode_len();
    s.append(t);
    if n < width {
        push_spaces(s, width - n);
        assert(s@ =~= old(s)@ + flush_left(t@, width as nat));
    }
}

// ── Lists ─────────────────────────────────────────────────────────────────────
/// Texts, with something between them.
pub open spec fn joined(v: Seq<Seq<char>>, between: Seq<char>) -> Seq<char>
    decreases v.len(),
{
    if v.len() == 0 {
        seq![]
    } else if v.len() == 1 {
        v[0]
    } else {
        joined(v.drop_last(), between) + between + v.last()
    }
}

/// Joins texts, with something between them.
pub fn join(v: &Vec<String>, between: &str) -> (r: String)
    ensures
        r@ == joined(string_views(v@), between@),
{
    let mut s: String = String::new();
    let ghost views = string_views(v@);
    let mut i: usize = 0;
    assert(s@ =~= joined(views.take(0), between@));
    while i < v.len()
        invariant
            i <= v@.len(),
            views == string_views(v@),
            s@ == joined(views.take(i as int), between@),
        decreases v.len() - i,
    {
        let ghost now = views.take(i + 1);
        assert(now.drop_last() =~= views.take(i as int));
        assert(now.last() == v@[i as int]@);
        if i > 0 {
            s.append(between);
            s.append(v[i].as_str());
        } else {
            s.append(v[i].as_str());
            assert(s@ =~= now[0]);
        }
        i = i + 1;
    }
    assert(views.take(i as int) =~= views);
    s
}

/// The binary numeral of a number, padded with zeros to a width.
pub open spec fn bin_pad(n: nat, width: nat) -> Seq<char>
    decreases n, width,
{
    if n < 2 && width <= 1 {
        seq![digit(n as int)]
    } else {
        bin_pad(
            n / 2,
            if width == 0 {
                0
            } else {
                (width - 1) as nat
            },
        ).push(digit((n % 2) as int))
    }
}

/// Appends the binary numeral of a number, padded with zeros to a width.
pub fn push_bin(s: &mut String, n: u64, width: u8)
    ensures
        final(s)@ == old(s)@ + bin_pad(n as nat, width as nat),
    decreases n, width,
{
    if n < 2 && width <= 1 {
        s.push(digit_char(n as u8));
        assert(s@ =~= old(s)@ + bin_pad(n as nat, width as nat));
    } else {
        let w: u8 = if width == 0 {
            0
        } else {
            width - 1
        };
        push_bin(s, n / 2, w);
        let d: u8 = (n % 2) as u8;
        s.push(digit_char(d));
        assert(s@ =~= old(s)@ + bin_pad(n as nat, width as nat));
    }
}

/// The length of a text without the white space at its end.
pub fn trimmed_len(v: &[char]) -> (r: usize)
    ensures
        r <= v@.len(),
        v@.take(r as int) == trim_end_by(v@, |c: char| is_space(c)),
{
    let ghost p = |c: char| is_space(c);
    let mut n: usize = v.len();
    assert(v@.take(n as int) =~= v@);
    while n > 0 && char_is_space(v[n - 1])
        invariant
            n <= v@.len(),
            p == (|c: char| is_space(c)),
            trim_end_by(v@.take(n as int), p) == trim_end_by(v@, p),
        decreases n,
    {
        assert(v@.take(n as int).drop_last() =~= v@.take(n - 1));
        n = n - 1;
    }
    if n > 0 {
        assert(v@.take(n as int).last() == v@[n - 1]);
    }
    n
}

// ── Laws ──────────────────────────────────────────────────────────────────────
/// The lines of a text are what stands between its line feeds, in order: a line that a line
/// feed ends is followed by the lines of the rest, a carriage return before the line feed
/// goes with it, and a last line needs no ending.
pub proof fn a_line_ends_at_its_line_feed(line: Seq<char>, rest: Seq<char>)
    requires
        forall|i: int| 0 <= i < line.len() ==> line[i] != '\n',
        line.len() > 0 ==> line.last() != '\r',
    ensures
        lines(line + seq!['\n'] + rest) == seq![line] + lines(rest),
        lines(line + seq!['\r', '\n'] + rest) == seq![line] + lines(rest),
        line.len() > 0 ==> lines(line) == seq![line],
        lines(Seq::<char>::empty()).len() == 0,
{
    let k = line.len() as int;
    let s = line + seq!['\n'] + rest;
    assert forall|i: int| 0 <= i < k implies s[i] != '\n' by {
        assert(s[i] == line[i]);
    }
    lemma_find_char(s, '\n', k);
    assert(s.take(k) =~= line);
    assert(s.skip(k + 1) =~= rest);
    let c = line + seq!['\r', '\n'] + rest;
    assert forall|i: int| 0 <= i < k + 1 implies c[i] != '\n' by {
        if i < k {
            assert(c[i] == line[i]);
        }
    }
    lemma_find_char(c, '\n', k + 1);
    assert(c.take(k + 1) =~= line + seq!['\r']);
    assert((line + seq!['\r']).drop_last() =~= line);
    assert(c.skip(k + 2) =~= rest);
    if k > 0 {
        lemma_find_char(line, '\n', k);
    }
}

/// Trimming takes the blanks at both ends of a text, and nothing else.
pub proof fn trimming_takes_the_blanks(a: Seq<char>, text: Seq<char>, b: Seq<char>)
    requires
        text.len() > 0,
        !is_space(text.first()),
        !is_space(text.last()),
        forall|i: int| 0 <= i < a.len() ==> (#[trigger] a[i] == ' ' || a[i] == '\t' || a[i] == '\n'
            || a[i] == '\r'),
        forall|i: int| 0 <= i < b.len() ==> (#[trigger] b[i] == ' ' || b[i] == '\t' || b[i] == '\n'
            || b[i] == '\r'),
    ensures
        trim(a + text + b) == text,
        trim(a).len() == 0,
{
    let p = |c: char| is_space(c);
    let s = a + text + b;
    let n = a.len() as int;
    assert forall|i: int| 0 <= i < n implies p(#[trigger] s[i]) by {
        assert(s[i] == a[i]);
    }
    assert(s[n] == text.first());
    lemma_trim_start_at(s, p, n);
    let u = s.skip(n);
    assert(u =~= text + b);
    let k = text.len() as int;
    assert(u[k - 1] == text.last());
    assert forall|i: int| k <= i < u.len() implies p(#[trigger] u[i]) by {
        assert(u[i] == b[i - k]);
    }
    lemma_trim_end_at(u, p, k);
    assert(u.take(k) =~= text);
    assert forall|i: int| 0 <= i < n implies p(#[trigger] a[i]) by {}
    lemma_trim_start_at(a, p, n);
    assert(a.skip(n) =~= seq![]);
    assert(trim_end_by(a.skip(n), p) =~= seq![]);
}

/// Letters and marks are no blanks; spaces, tabs and line ends are.
pub proof fn printing_characters_are_no_blanks(c: char)
    ensures
        0x21 <= c as u32 <= 0x7e ==> !is_space(c) && !is_ascii_space(c),
        c == ' ' || c == '\t' || c == '\n' || c == '\r' ==> is_space(c) && is_ascii_space(c),
{
}

/// Folding the case of a text changes capital letters to the small ones, each in its place,
/// and nothing else.
pub proof fn folding_changes_capitals_only(s: Seq<char>, i: int)
    requires
        0 <= i < s.len(),
    ensures
        lower(s).len() == s.len(),
        'A' <= s[i] <= 'Z' ==> lower(s)[i] as u32 == s[i] as u32 + 32,
        !('A' <= s[i] <= 'Z') ==> lower(s)[i] == s[i],
{
}

/// A text contains what stands in it, and nothing longer than itself.
pub proof fn a_text_contains_its_pieces(a: Seq<char>, w: Seq<char>, b: Seq<char>)
    ensures
        contains(a + w + b, w),
        contains(b, w) ==> w.len() <= b.len() && exists|i: int|
            0 <= i <= b.len() - w.len() && #[trigger] b.subrange(i, i + w.len()) == w,
{
    let s = a + w + b;
    assert(s.subrange(a.len() as int, (a.len() + w.len()) as int) =~= w);
    assert(occurs_at(s, w, a.len() as int));
    if contains(b, w) {
        let i = choose|i: int| #[trigger] occurs_at(b, w, i);
        assert(b.subrange(i, i + w.len()) == w);
    }
}

/// What a numeral in a base denotes.
pub open spec fn numeral_value(s: Seq<char>, base: int) -> int
    decreases s.len(),
{
    if s.len() == 0 {
        0
    } else {
        numeral_value(s.drop_last(), base) * base + (if '0' <= s.last() <= '9' {
            s.last() as int - '0' as int
        } else {
            s.last() as int - 'a' as int + 10
        })
    }
}

/// A decimal numeral denotes its number, with digits alone and no zero in front.
pub proof fn a_decimal_numeral_denotes_its_number(n: nat)
    ensures
        numeral_value(dec(n), 10) == n,
        dec(n).len() > 0,
        forall|i: int| 0 <= i < dec(n).len() ==> '0' <= #[trigger] dec(n)[i] <= '9',
        n > 0 ==> dec(n)[0] != '0',
    decreases n,
{
    if n < 10 {
        let s = dec(n);
        assert(s.drop_last() =~= seq![]);
        assert(numeral_value(s.drop_last(), 10) == 0);
    } else {
        a_decimal_numeral_denotes_its_number(n / 10);
        let s = dec(n);
        assert(s.drop_last() =~= dec(n / 10));
        assert forall|i: int| 0 <= i < s.len() implies '0' <= #[trigger] s[i] <= '9' by {
            if i < dec(n / 10).len() {
                assert(s[i] == dec(n / 10)[i]);
            }
        }
    }
}

/// A hexadecimal numeral denotes its number, with as many digits as were asked for, or more
/// where the number needs them.
pub proof fn a_hexadecimal_numeral_denotes_its_number(n: nat, width: nat)
    ensures
        numeral_value(hex_pad(n, width), 16) == n,
        hex_pad(n, width).len() >= width,
        hex_pad(n, width).len() > 0,
        hex_pad(n, width).len() > width && hex_pad(n, width).len() > 1 ==> hex_pad(n, width)[0]
            != '0',
        forall|i: int|
            0 <= i < hex_pad(n, width).len() ==> '0' <= #[trigger] hex_pad(n, width)[i] <= '9' || 'a'
                <= hex_pad(n, width)[i] <= 'f',
    decreases n, width,
{
    let s = hex_pad(n, width);
    if n < 16 && width <= 1 {
        assert(s.drop_last() =~= seq![]);
        assert(numeral_value(s.drop_last(), 16) == 0);
    } else {
        let w = if width == 0 {
            0
        } else {
            (width - 1) as nat
        };
        a_hexadecimal_numeral_denotes_its_number(n / 16, w);
        assert(s.drop_last() =~= hex_pad(n / 16, w));
        let p = hex_pad(n / 16, w);
        assert(s[0] == p[0]);
        assert forall|i: int| 0 <= i < s.len() implies '0' <= #[trigger] s[i] <= '9' || 'a' <= s[i]
            <= 'f' by {
            if i < p.len() {
                assert(s[i] == p[i]);
            }
        }
        if s.len() > width && p.len() == 1 {
            assert(p.drop_last() =~= seq![]);
            assert(numeral_value(p.drop_last(), 16) == 0);
            assert(n / 16 > 0);
        }
    }
}

/// A negative number has its sign in front of the numeral of its size.
pub proof fn a_negative_number_has_its_sign(n: int)
    ensures
        n >= 0 ==> dec_int(n) == dec(n as nat),
        n < 0 ==> dec_int(n).len() > 0 && dec_int(n)[0] == '-' && dec_int(n).skip(1) == dec(
            (-n) as nat,
        ),
{
    if n < 0 {
        assert(dec_int(n).skip(1) =~= dec((-n) as nat));
    }
}

/// A binary numeral denotes its number, with digits alone and as many as were asked for, or
/// more where the number needs them.
pub proof fn a_binary_numeral_denotes_its_number(n: nat, width: nat)
    ensures
        numeral_value(bin_pad(n, width), 2) == n,
        bin_pad(n, width).len() >= width,
        bin_pad(n, width).len() > 0,
        forall|i: int|
            0 <= i < bin_pad(n, width).len() ==> '0' <= #[trigger] bin_pad(n, width)[i] <= '1',
    decreases n, width,
{
    let s = bin_pad(n, width);
    if n < 2 && width <= 1 {
        assert(s.drop_last() =~= seq![]);
        assert(numeral_value(s.drop_last(), 2) == 0);
    } else {
        let w = if width == 0 {
            0
        } else {
            (width - 1) as nat
        };
        a_binary_numeral_denotes_its_number(n / 2, w);
        let p = bin_pad(n / 2, w);
        assert(s.drop_last() =~= p);
        assert forall|i: int| 0 <= i < s.len() implies '0' <= #[trigger] s[i] <= '1' by {
            if i < p.len() {
                assert(s[i] == p[i]);
            }
        }
    }
}

} // verus!
