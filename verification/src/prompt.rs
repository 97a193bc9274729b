//! The game's own read prompt at the end of captured output.

use crate::text::{char_is_ascii_space, is_ascii_space, lemma_trim_end_at, lemma_trim_end_is_prefix,
    to_chars, trim_end_by};
use vstd::prelude::*;

verus! {

/// A text without the ASCII white space at its end.
pub open spec fn trim_ascii_end(s: Seq<char>) -> Seq<char> {
    trim_end_by(s, |c: char| is_ascii_space(c))
}

/// Whether the last thing in the text, white space aside, is a `>` that opens its line.
pub open spec fn has_read_prompt(s: Seq<char>) -> bool {
    let t = trim_ascii_end(s);
    t.len() > 0 && t.last() == '>' && (t.len() == 1 || t[t.len() - 2] == '\n')
}

/// The text without its trailing read prompt and the white space round it.
pub open spec fn without_read_prompt(s: Seq<char>) -> Seq<char> {
    if has_read_prompt(s) {
        trim_ascii_end(trim_ascii_end(s).drop_last())
    } else {
        trim_ascii_end(s)
    }
}

/// How many characters are left once the ASCII white space at the end of the first
/// `upto` characters is cut off.
fn trimmed_len(v: &[char], upto: usize) -> (n: usize)
    requires
        upto <= v@.len(),
    ensures
        n <= upto,
        v@.take(n as int) == trim_ascii_end(v@.take(upto as int)),
{
    let mut n: usize = upto;
    while n > 0 && char_is_ascii_space(v[n - 1])
        invariant
            n <= upto <= v@.len(),
            forall|i: int| n <= i < upto ==> is_ascii_space(#[trigger] v@[i]),
        decreases n,
    {
        n = n - 1;
    }
    proof {
        let s = v@.take(upto as int);
        let p = |c: char| is_ascii_space(c);
        assert forall|i: int| n <= i < s.len() implies p(#[trigger] s[i]) by {
            assert(s[i] == v@[i]);
        }
        lemma_trim_end_at(s, p, n as int);
        assert(s.take(n as int) =~= v@.take(n as int));
    }
    n
}

/// Strips a trailing interactive read prompt from captured output.
///
/// A game prints a bare `>` on a line of its own as the last thing before it reads a
/// command. The white space at the end of the text goes in any case; if what is left
/// ends in a `>` that opens its line, the `>` goes too, and the white space before it.
pub fn strip_read_prompt(s: &str) -> (r: &str)
    ensures
        r@ == without_read_prompt(s@),
{
    let v: Vec<char> = to_chars(s);
    assert(v@.take(v@.len() as int) =~= v@);
    let n: usize = trimmed_len(&v, v.len());
    if n > 0 && v[n - 1] == '>' && (n == 1 || v[n - 2] == '\n') {
        assert(trim_ascii_end(s@).drop_last() =~= v@.take(n - 1));
        let m: usize = trimmed_len(&v, n - 1);
        assert(v@.take(m as int) =~= s@.subrange(0, m as int));
        s.substring_char(0, m)
    } else {
        assert(v@.take(n as int) =~= s@.subrange(0, n as int));
        s.substring_char(0, n)
    }
}

/// Whether the text ends with the read prompt that [`strip_read_prompt`] removes: whether
/// the game has just handed the player its command prompt.
pub fn ends_with_read_prompt(s: &str) -> (r: bool)
    ensures
        r == has_read_prompt(s@),
{
    let v: Vec<char> = to_chars(s);
    assert(v@.take(v@.len() as int) =~= v@);
    let n: usize = trimmed_len(&v, v.len());
    n > 0 && v[n - 1] == '>' && (n == 1 || v[n - 2] == '\n')
}

/// What stripping leaves is a head of the text: nothing but its end is ever changed.
pub proof fn stripping_keeps_a_prefix(s: Seq<char>)
    ensures
        without_read_prompt(s).len() <= s.len(),
        without_read_prompt(s) == s.take(without_read_prompt(s).len() as int),
{
    let p = |c: char| is_ascii_space(c);
    lemma_trim_end_is_prefix(s, p);
    let t = trim_ascii_end(s);
    if has_read_prompt(s) {
        lemma_trim_end_is_prefix(t.drop_last(), p);
        let u = trim_ascii_end(t.drop_last());
        assert(u =~= s.take(u.len() as int));
    }
}

/// A text has the read prompt exactly when stripping takes more than the white space at
/// its end.
pub proof fn a_prompt_is_what_stripping_removes(s: Seq<char>)
    ensures
        has_read_prompt(s) <==> without_read_prompt(s).len() < trim_ascii_end(s).len(),
{
    let p = |c: char| is_ascii_space(c);
    let t = trim_ascii_end(s);
    if has_read_prompt(s) {
        lemma_trim_end_is_prefix(t.drop_last(), p);
    }
}

/// A text that ends in a `>` inside a line keeps it.
pub proof fn a_prompt_inside_a_line_stays(s: Seq<char>)
    requires
        s.len() >= 2,
        s.last() == '>',
        s[s.len() - 2] != '\n',
    ensures
        without_read_prompt(s) == s,
{
    let p = |c: char| is_ascii_space(c);
    lemma_trim_end_at(s, p, s.len() as int);
    assert(s.take(s.len() as int) =~= s);
}

/// Stripping takes the prompt and the white space around it, and nothing else: from a text
/// that ends in something, it takes the blanks behind it, and a `>` that stands alone on the
/// last line, with the blanks and line feeds before it.
pub proof fn stripping_takes_the_prompt_and_blanks(
    text: Seq<char>,
    gap: Seq<char>,
    blanks: Seq<char>,
)
    requires
        text.len() > 0,
        !(text.last() == ' ' || text.last() == '\t' || text.last() == '\n' || text.last() == '\r'
            || text.last() as u32 == 0x0c),
        forall|i: int|
            0 <= i < gap.len() ==> (#[trigger] gap[i] == ' ' || gap[i] == '\t' || gap[i] == '\n'
                || gap[i] == '\r'),
        forall|i: int|
            0 <= i < blanks.len() ==> (#[trigger] blanks[i] == ' ' || blanks[i] == '\t' || blanks[i]
                == '\n' || blanks[i] == '\r'),
    ensures
        without_read_prompt(text + gap + seq!['\n', '>'] + blanks) == text,
        has_read_prompt(text + gap + seq!['\n', '>'] + blanks),
        text.last() != '>' ==> without_read_prompt(text + blanks) == text && !has_read_prompt(
            text + blanks,
        ),
{
    let p = |c: char| is_ascii_space(c);
    let head = text + gap + seq!['\n', '>'];
    let s = head + blanks;
    let n = head.len() as int;
    assert(s[n - 1] == '>');
    assert forall|i: int| n <= i < s.len() implies p(#[trigger] s[i]) by {
        assert(s[i] == blanks[i - n]);
    }
    lemma_trim_end_at(s, p, n);
    assert(s.take(n) =~= head);
    let t = trim_ascii_end(s);
    assert(t == head);
    assert(t[n - 2] == '\n');
    let u = t.drop_last();
    assert(u =~= text + gap + seq!['\n']);
    let k = text.len() as int;
    assert(u[k - 1] == text.last());
    assert forall|i: int| k <= i < u.len() implies p(#[trigger] u[i]) by {
        if i < k + gap.len() {
            assert(u[i] == gap[i - k]);
        }
    }
    lemma_trim_end_at(u, p, k);
    assert(u.take(k) =~= text);
    let v = text + blanks;
    assert(v[k - 1] == text.last());
    assert forall|i: int| k <= i < v.len() implies p(#[trigger] v[i]) by {
        assert(v[i] == blanks[i - k]);
    }
    lemma_trim_end_at(v, p, k);
    assert(v.take(k) =~= text);
}

} // verus!
