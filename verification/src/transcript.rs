//! Captured output: text with the styles it was printed in, and the sink that gathers it.

use vstd::prelude::*;

verus! {

// ── Styled runs ───────────────────────────────────────────────────────────────
/// A colour as the game named it.
#[derive(Clone, Copy, Debug, PartialEq, Eq, Structural)]
pub enum ZColour {
    /// The colour of the page or the ink that the host chose.
    Default,
    /// A colour of the standard palette.
    Standard(u8),
    /// A true colour, eight bits a channel.
    True24(u32),
}

/// The paragraph layout a run was printed under, as a code; zero is the default layout.
#[derive(Clone, Copy, Debug, PartialEq, Eq, Structural)]
pub struct ParaFmt {
    pub code: u32,
}

impl Default for ParaFmt {
    fn default() -> (r: ParaFmt)
        ensures
            r.code == 0,
    {
        ParaFmt { code: 0 }
    }
}

/// One captured run: its length in characters, its text style, its ink and page colours,
/// its hyperlink, its paragraph layout, its style code, and whether it was printed with
/// output buffering off, so that it breaks after the last character that fits.
pub type CaptureRun = (usize, u8, ZColour, ZColour, u32, ParaFmt, u8, bool);

/// The run, at another length.
pub open spec fn resized(r: CaptureRun, n: usize) -> CaptureRun {
    (n, r.1, r.2, r.3, r.4, r.5, r.6, r.7)
}

/// How many characters a list of runs covers.
pub open spec fn runs_len(runs: Seq<CaptureRun>) -> nat
    decreases runs.len(),
{
    if runs.len() == 0 {
        0
    } else {
        runs_len(runs.drop_last()) + runs.last().0 as nat
    }
}

/// The style of each character that a list of runs covers; a style is a run of length zero.
pub open spec fn char_styles(runs: Seq<CaptureRun>) -> Seq<CaptureRun>
    decreases runs.len(),
{
    if runs.len() == 0 {
        seq![]
    } else {
        Seq::new(runs[0].0 as nat, |i: int| resized(runs[0], 0)) + char_styles(runs.drop_first())
    }
}

/// The runs that cover the first `n` characters.
pub open spec fn runs_before(runs: Seq<CaptureRun>, n: int) -> Seq<CaptureRun>
    decreases runs.len(),
{
    if runs.len() == 0 || n <= 0 {
        seq![]
    } else if runs[0].0 <= n {
        seq![runs[0]] + runs_before(runs.drop_first(), n - runs[0].0)
    } else {
        seq![resized(runs[0], n as usize)]
    }
}

/// The runs that cover what follows the first `n` characters.
pub open spec fn runs_after(runs: Seq<CaptureRun>, n: int) -> Seq<CaptureRun>
    decreases runs.len(),
{
    if runs.len() == 0 || n <= 0 {
        runs
    } else if runs[0].0 <= n {
        runs_after(runs.drop_first(), n - runs[0].0)
    } else {
        seq![resized(runs[0], (runs[0].0 - n) as usize)] + runs.drop_first()
    }
}

/// The smaller of two lengths.
pub open spec fn min_len(a: int, b: int) -> int {
    if a < b {
        a
    } else {
        b
    }
}

/// The length of a list of runs, taken from its head.
pub proof fn lemma_runs_len_front(runs: Seq<CaptureRun>)
    requires
        runs.len() > 0,
    ensures
        runs_len(runs) == runs[0].0 + runs_len(runs.drop_first()),
    decreases runs.len(),
{
    if runs.len() > 1 {
        lemma_runs_len_front(runs.drop_last());
        assert(runs.drop_last().drop_first() =~= runs.drop_first().drop_last());
        assert(runs.drop_first().last() == runs.last());
        assert(runs.drop_last()[0] == runs[0]);
    } else {
        assert(runs_len(runs.drop_first()) == 0);
        assert(runs_len(runs.drop_last()) == 0);
        assert(runs.last() == runs[0]);
    }
}

/// As many styles as characters.
pub proof fn lemma_char_styles_len(runs: Seq<CaptureRun>)
    ensures
        char_styles(runs).len() == runs_len(runs),
    decreases runs.len(),
{
    if runs.len() > 0 {
        lemma_runs_len_front(runs);
        lemma_char_styles_len(runs.drop_first());
    }
}

/// Cutting a list of runs to `n` characters keeps the styles of the first `n` characters
/// and covers exactly them.
pub proof fn cutting_runs_keeps_the_styles(runs: Seq<CaptureRun>, n: int)
    requires
        n >= 0,
    ensures
        runs_len(runs_before(runs, n)) == min_len(runs_len(runs) as int, n),
        char_styles(runs_before(runs, n)) == char_styles(runs).take(
            min_len(runs_len(runs) as int, n),
        ),
    decreases runs.len(),
{
    let cut = runs_before(runs, n);
    let m = min_len(runs_len(runs) as int, n);
    lemma_char_styles_len(runs);
    if runs.len() == 0 || n <= 0 {
        assert(char_styles(cut) =~= char_styles(runs).take(m));
    } else {
        lemma_runs_len_front(runs);
        lemma_runs_len_front(cut);
        let rest = runs.drop_first();
        let head = Seq::new(runs[0].0 as nat, |i: int| resized(runs[0], 0));
        if runs[0].0 <= n {
            cutting_runs_keeps_the_styles(rest, n - runs[0].0);
            lemma_char_styles_len(rest);
            assert(cut.drop_first() =~= runs_before(rest, n - runs[0].0));
            assert(char_styles(cut) =~= char_styles(runs).take(m));
        } else {
            assert(cut.drop_first().len() == 0);
            assert(char_styles(cut.drop_first()) =~= seq![]);
            assert(char_styles(cut) =~= Seq::new(n as nat, |i: int| resized(runs[0], 0)));
            assert(char_styles(cut) =~= char_styles(runs).take(m));
        }
    }
}

/// A list of runs shorter than the limit comes back unchanged.
pub proof fn a_short_list_of_runs_stays(runs: Seq<CaptureRun>, n: int)
    requires
        runs_len(runs) < n,
    ensures
        runs_before(runs, n) == runs,
    decreases runs.len(),
{
    if runs.len() > 0 {
        lemma_runs_len_front(runs);
        a_short_list_of_runs_stays(runs.drop_first(), n - runs[0].0);
        assert(seq![runs[0]] + runs.drop_first() =~= runs);
    } else {
        assert(runs =~= seq![]);
    }
}

/// Skipping characters twice is skipping their sum.
pub proof fn lemma_runs_after_twice(runs: Seq<CaptureRun>, a: int, b: int)
    requires
        a >= 0,
        b >= 0,
    ensures
        runs_after(runs_after(runs, a), b) == runs_after(runs, a + b),
    decreases runs.len(),
{
    if runs.len() == 0 || a == 0 || b == 0 {
    } else if runs[0].0 <= a {
        lemma_runs_after_twice(runs.drop_first(), a - runs[0].0, b);
    } else {
        let mid = runs_after(runs, a);
        assert(mid.drop_first() =~= runs.drop_first());
        assert(mid[0].0 == runs[0].0 - a);
        if runs[0].0 <= a + b {
            assert(runs_after(mid, b) == runs_after(mid.drop_first(), b - mid[0].0));
        } else {
            assert(runs_after(mid, b) =~= runs_after(runs, a + b));
        }
    }
}

/// What is left of a list of runs after skipping `n` characters.
pub proof fn lemma_runs_after_len(runs: Seq<CaptureRun>, n: int)
    requires
        n >= 0,
    ensures
        runs_len(runs_after(runs, n)) == if runs_len(runs) < n {
            0
        } else {
            runs_len(runs) - n
        },
    decreases runs.len(),
{
    if runs.len() == 0 || n == 0 {
    } else {
        lemma_runs_len_front(runs);
        if runs[0].0 <= n {
            lemma_runs_after_len(runs.drop_first(), n - runs[0].0);
        } else {
            let r = runs_after(runs, n);
            lemma_runs_len_front(r);
            assert(r.drop_first() =~= runs.drop_first());
        }
    }
}

/// Trims a list of runs so that it covers `char_len` characters: runs past the limit go,
/// and the run on the boundary is cut. A list that covers less comes back unchanged.
pub fn clamp_runs(runs: &Vec<CaptureRun>, char_len: usize) -> (r: Vec<CaptureRun>)
    ensures
        r@ == runs_before(runs@, char_len as int),
{
    let mut out: Vec<CaptureRun> = Vec::new();
    let mut left: usize = char_len;
    let mut i: usize = 0;
    assert(runs@.skip(0) =~= runs@);
    assert(out@ + runs_before(runs@, left as int) =~= runs_before(runs@, left as int));
    while i < runs.len() && left > 0
        invariant
            i <= runs@.len(),
            out@ + runs_before(runs@.skip(i as int), left as int) == runs_before(
                runs@,
                char_len as int,
            ),
        decreases runs.len() - i,
    {
        let r: CaptureRun = runs[i];
        let ghost rest = runs@.skip(i as int);
        let ghost before = out@;
        assert(rest[0] == r);
        assert(rest.drop_first() =~= runs@.skip(i + 1));
        if r.0 <= left {
            out.push(r);
            left = left - r.0;
            assert(out@ + runs_before(runs@.skip(i + 1), left as int) =~= before + runs_before(
                rest,
                left + r.0,
            ));
        } else {
            out.push((left, r.1, r.2, r.3, r.4, r.5, r.6, r.7));
            assert(out@ =~= before + runs_before(rest, left as int));
            left = 0;
            assert(out@ + runs_before(runs@.skip(i + 1), 0) =~= out@);
        }
        i = i + 1;
    }
    assert(runs_before(runs@.skip(i as int), left as int) =~= seq![]);
    out
}

/// Cuts the runs that cover the first `n` characters off a list of runs.
pub fn skip_runs(runs: &Vec<CaptureRun>, n: usize) -> (r: Vec<CaptureRun>)
    ensures
        r@ == runs_after(runs@, n as int),
{
    let mut left: usize = n;
    let mut i: usize = 0;
    assert(runs@.skip(0) =~= runs@);
    while i < runs.len() && left > 0 && runs[i].0 <= left
        invariant
            i <= runs@.len(),
            runs_after(runs@.skip(i as int), left as int) == runs_after(runs@, n as int),
        decreases runs.len() - i,
    {
        assert(runs@.skip(i as int).drop_first() =~= runs@.skip(i + 1));
        assert(runs@.skip(i as int)[0] == runs@[i as int]);
        left = left - runs[i].0;
        i = i + 1;
    }
    let ghost rest = runs@.skip(i as int);
    let mut out: Vec<CaptureRun> = Vec::new();
    if i < runs.len() && left > 0 {
        let r: CaptureRun = runs[i];
        out.push((r.0 - left, r.1, r.2, r.3, r.4, r.5, r.6, r.7));
        assert(rest[0] == r);
        assert(runs_after(rest, left as int) =~= out@ + runs@.skip(i + 1)) by {
            assert(rest.drop_first() =~= runs@.skip(i + 1));
        }
        i = i + 1;
    } else {
        assert(runs_after(rest, left as int) =~= out@ + rest);
    }
    let ghost head = out@;
    let ghost from = i;
    while i < runs.len()
        invariant
            from <= i <= runs@.len(),
            out@ == head + runs@.subrange(from as int, i as int),
        decreases runs.len() - i,
    {
        out.push(runs[i]);
        i = i + 1;
        assert(out@ =~= head + runs@.subrange(from as int, i as int));
    }
    assert(runs@.subrange(from as int, i as int) =~= runs@.skip(from as int));
    out
}

// ── The sink ──────────────────────────────────────────────────────────────────
/// The attributes of a printed text.
#[derive(Clone, Copy, Debug, PartialEq, Eq, Structural)]
pub struct TextAttrs {
    pub style: u8,
    pub fg: ZColour,
    pub bg: ZColour,
}

/// An output sink that gathers printed text with its style runs until it is drained.
#[derive(Debug)]
pub struct CaptureSink {
    pub text: String,
    pub runs: Vec<CaptureRun>,
    /// Whether the game's output is buffered, as it is at the start of a game.
    pub buffering: bool,
    /// How many characters the sink had taken when the game last cleared the scrolling
    /// window since the last drain.
    pub cleared_at: Option<usize>,
}

/// The run that a printed text is captured as.
pub open spec fn printed_run(n: int, attrs: TextAttrs, buffering: bool) -> CaptureRun {
    (n as usize, attrs.style, attrs.fg, attrs.bg, 0, (ParaFmt { code: 0 }), 0, !buffering)
}

impl CaptureSink {
    /// The runs cover the text exactly.
    pub open spec fn wf(&self) -> bool {
        runs_len(self.runs@) == self.text@.len()
    }

    /// An empty sink, with buffering on.
    pub fn new() -> (r: CaptureSink)
        ensures
            r.wf(),
            r.text@ == Seq::<char>::empty(),
            r.runs@ == Seq::<CaptureRun>::empty(),
            r.buffering,
            r.cleared_at is None,
    {
        CaptureSink { text: String::new(), runs: Vec::new(), buffering: true, cleared_at: None }
    }

    /// Captures a text printed in the given attributes.
    pub fn print_attr(&mut self, s: &str, attrs: TextAttrs)
        requires
            old(self).wf(),
        ensures
            final(self).wf(),
            final(self).text@ == old(self).text@ + s@,
            final(self).runs@ == old(self).runs@.push(
                printed_run(s@.len() as int, attrs, old(self).buffering),
            ),
            final(self).buffering == old(self).buffering,
            final(self).cleared_at == old(self).cleared_at,
    {
        let n: usize = s.unicode_len();
        let nowrap: bool = !self.buffering;
        self.runs.push((n, attrs.style, attrs.fg, attrs.bg, 0, ParaFmt { code: 0 }, 0, nowrap));
        self.text.append(s);
        assert(self.runs@.drop_last() =~= old(self).runs@);
    }

    /// Captures a text printed in a style, in the default colours.
    pub fn print_styled(&mut self, s: &str, style: u8)
        requires
            old(self).wf(),
        ensures
            final(self).wf(),
            final(self).text@ == old(self).text@ + s@,
            final(self).runs@ == old(self).runs@.push(
                printed_run(
                    s@.len() as int,
                    (TextAttrs { style, fg: ZColour::Default, bg: ZColour::Default }),
                    old(self).buffering,
                ),
            ),
            final(self).buffering == old(self).buffering,
            final(self).cleared_at == old(self).cleared_at,
    {
        self.print_attr(s, TextAttrs { style, fg: ZColour::Default, bg: ZColour::Default });
    }

    /// Captures a text printed plainly.
    pub fn print(&mut self, s: &str)
        requires
            old(self).wf(),
        ensures
            final(self).wf(),
            final(self).text@ == old(self).text@ + s@,
            final(self).runs@ == old(self).runs@.push(
                printed_run(
                    s@.len() as int,
                    (TextAttrs { style: 0, fg: ZColour::Default, bg: ZColour::Default }),
                    old(self).buffering,
                ),
            ),
            final(self).buffering == old(self).buffering,
            final(self).cleared_at == old(self).cleared_at,
    {
        self.print_styled(s, 0);
    }

    /// Switches output buffering. Runs captured while it is off are marked.
    pub fn set_buffer_mode(&mut self, on: bool)
        ensures
            final(self).buffering == on,
            final(self).text == old(self).text,
            final(self).runs == old(self).runs,
            final(self).cleared_at == old(self).cleared_at,
    {
        self.buffering = on;
    }

    /// Notes that the game cleared the scrolling window here. The last clear since a drain
    /// is the one that counts.
    pub fn screen_cleared(&mut self)
        ensures
            final(self).cleared_at == Some(old(self).text@.len() as usize),
            old(self).text@.len() <= usize::MAX,
            final(self).text == old(self).text,
            final(self).runs == old(self).runs,
            final(self).buffering == old(self).buffering,
    {
        let n: usize = self.text.as_str().unicode_len();
        self.cleared_at = Some(n);
    }

    /// Drains the text and its runs together, leaving both empty.
    pub fn take_styled(&mut self) -> (r: (String, Vec<CaptureRun>))
        ensures
            r.0 == old(self).text,
            r.1 == old(self).runs,
            final(self).wf(),
            final(self).text@ == Seq::<char>::empty(),
            final(self).runs@ == Seq::<CaptureRun>::empty(),
            final(self).buffering == old(self).buffering,
            final(self).cleared_at == old(self).cleared_at,
    {
        let mut text: String = String::new();
        let mut runs: Vec<CaptureRun> = Vec::new();
        std::mem::swap(&mut text, &mut self.text);
        std::mem::swap(&mut runs, &mut self.runs);
        (text, runs)
    }

    /// Takes the position of the last screen clear, in characters from the start of the
    /// text drained with it.
    pub fn take_cleared_at(&mut self) -> (r: Option<usize>)
        ensures
            r == old(self).cleared_at,
            final(self).cleared_at is None,
            final(self).text == old(self).text,
            final(self).runs == old(self).runs,
            final(self).buffering == old(self).buffering,
    {
        self.cleared_at.take()
    }

    /// Drains the text, leaving the sink empty.
    pub fn take_text(&mut self) -> (r: String)
        ensures
            r == old(self).text,
            final(self).wf(),
            final(self).text@ == Seq::<char>::empty(),
            final(self).runs@ == Seq::<CaptureRun>::empty(),
            final(self).buffering == old(self).buffering,
            final(self).cleared_at == old(self).cleared_at,
    {
        self.take_styled().0
    }
}

// ── Laws of the sink ──────────────────────────────────────────────────────────
/// Appending a run appends the styles of its characters.
proof fn lemma_char_styles_push(runs: Seq<CaptureRun>, r: CaptureRun)
    ensures
        char_styles(runs.push(r)) == char_styles(runs) + Seq::new(
            r.0 as nat,
            |i: int| resized(r, 0),
        ),
    decreases runs.len(),
{
    let all = runs.push(r);
    if runs.len() == 0 {
        assert(all.drop_first() =~= seq![]);
        assert(char_styles(all.drop_first()) =~= seq![]);
        assert(char_styles(all) =~= char_styles(runs) + Seq::new(
            r.0 as nat,
            |i: int| resized(r, 0),
        ));
    } else {
        assert(all.drop_first() =~= runs.drop_first().push(r));
        lemma_char_styles_push(runs.drop_first(), r);
        assert(char_styles(all) =~= char_styles(runs) + Seq::new(
            r.0 as nat,
            |i: int| resized(r, 0),
        ));
    }
}

/// Every character is captured in the style and the colours that it was printed in, and bears
/// the mark of unbuffered output exactly where buffering was off; what was captured before
/// keeps its own.
pub proof fn a_character_is_captured_as_printed(
    before: CaptureSink,
    after: CaptureSink,
    s: Seq<char>,
    attrs: TextAttrs,
    i: int,
)
    requires
        before.wf(),
        after.wf(),
        s.len() <= usize::MAX,
        after.text@ == before.text@ + s,
        after.runs@ == before.runs@.push(printed_run(s.len() as int, attrs, before.buffering)),
        0 <= i < after.text@.len(),
    ensures
        char_styles(after.runs@).len() == after.text@.len(),
        i < before.text@.len() ==> char_styles(after.runs@)[i] == char_styles(before.runs@)[i]
            && after.text@[i] == before.text@[i],
        i >= before.text@.len() ==> {
            let c = char_styles(after.runs@)[i];
            &&& after.text@[i] == s[i - before.text@.len()]
            &&& c.1 == attrs.style
            &&& c.2 == attrs.fg
            &&& c.3 == attrs.bg
            &&& c.4 == 0
            &&& c.5.code == 0
            &&& c.6 == 0
            &&& c.7 <==> !before.buffering
        },
{
    lemma_char_styles_len(before.runs@);
    lemma_char_styles_len(after.runs@);
    lemma_char_styles_push(before.runs@, printed_run(s.len() as int, attrs, before.buffering));
}

/// Cutting characters off the head of a list of runs leaves the styles of those behind them.
pub proof fn skipping_runs_keeps_the_styles(runs: Seq<CaptureRun>, n: int)
    requires
        0 <= n <= runs_len(runs),
    ensures
        char_styles(runs_after(runs, n)) == char_styles(runs).skip(n),
    decreases runs.len(),
{
    lemma_char_styles_len(runs);
    if runs.len() == 0 || n == 0 {
        assert(char_styles(runs).skip(0) =~= char_styles(runs));
    } else {
        lemma_runs_len_front(runs);
        let rest = runs.drop_first();
        if runs[0].0 <= n {
            skipping_runs_keeps_the_styles(rest, n - runs[0].0);
            assert(char_styles(runs).skip(n) =~= char_styles(rest).skip(n - runs[0].0));
        } else {
            let r = runs_after(runs, n);
            assert(r.drop_first() =~= rest);
            assert(char_styles(r) =~= char_styles(runs).skip(n));
        }
    }
}

} // verus!
