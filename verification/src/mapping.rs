//! What a turn tells the map: directions, arrivals, deaths and the passages they do not
//! make.

use crate::text::{a_text_contains_its_pieces, char_is_space, chars_contain, contains, is_space,
    line_spans, line_views, lines, lower, lower_chars, opt_str_view, same_chars,
    same_ignoring_case, slice_chars, span_views, split_lines, to_chars, trim, trim_span};
use crate::turn::{LocationMethod, TurnResult};
use vstd::prelude::*;

verus! {

// ── Words ─────────────────────────────────────────────────────────────────────
/// How many characters at the start of a text are white space.
pub open spec fn leading_space(s: Seq<char>) -> int
    decreases s.len(),
{
    if s.len() > 0 && is_space(s[0]) {
        1 + leading_space(s.drop_first())
    } else {
        0
    }
}

/// How many characters at the start of a text are no white space.
pub open spec fn leading_word(s: Seq<char>) -> int
    decreases s.len(),
{
    if s.len() > 0 && !is_space(s[0]) {
        1 + leading_word(s.drop_first())
    } else {
        0
    }
}

/// The words of a text: its longest pieces without white space.
pub open spec fn words(s: Seq<char>) -> Seq<Seq<char>>
    decreases s.len(),
{
    let k = leading_space(s);
    let n = leading_word(s.skip(k));
    if 0 <= k < s.len() && 0 < n <= s.len() - k {
        seq![s.subrange(k, k + n)] + words(s.skip(k + n))
    } else {
        seq![]
    }
}

/// The white space at the start of a text ends where it is counted to.
proof fn lemma_leading_space(s: Seq<char>, k: int)
    requires
        0 <= k <= s.len(),
        forall|i: int| 0 <= i < k ==> is_space(#[trigger] s[i]),
        k < s.len() ==> !is_space(s[k]),
    ensures
        leading_space(s) == k,
    decreases k,
{
    if k > 0 {
        assert(is_space(s[0]));
        assert forall|i: int| 0 <= i < k - 1 implies is_space(#[trigger] s.drop_first()[i]) by {
            assert(s.drop_first()[i] == s[i + 1]);
        }
        lemma_leading_space(s.drop_first(), k - 1);
    }
}

/// The word at the start of a text ends where it is counted to.
pub(crate) proof fn lemma_leading_word(s: Seq<char>, k: int)
    requires
        0 <= k <= s.len(),
        forall|i: int| 0 <= i < k ==> !is_space(#[trigger] s[i]),
        k < s.len() ==> is_space(s[k]),
    ensures
        leading_word(s) == k,
    decreases k,
{
    if k > 0 {
        assert(!is_space(s[0]));
        assert forall|i: int| 0 <= i < k - 1 implies !is_space(#[trigger] s.drop_first()[i]) by {
            assert(s.drop_first()[i] == s[i + 1]);
        }
        lemma_leading_word(s.drop_first(), k - 1);
    }
}

/// How long the white space and the word at the start of a text are.
pub(crate) proof fn lemma_leading(s: Seq<char>)
    ensures
        0 <= leading_space(s) <= s.len(),
        0 <= leading_word(s) <= s.len(),
        forall|i: int| 0 <= i < leading_word(s) ==> !is_space(#[trigger] s[i]),
        leading_word(s) < s.len() ==> is_space(s[leading_word(s)]),
    decreases s.len(),
{
    if s.len() > 0 {
        let t = s.drop_first();
        lemma_leading(t);
        assert forall|i: int| 0 <= i < leading_word(s) implies !is_space(#[trigger] s[i]) by {
            if i > 0 {
                assert(t[i - 1] == s[i]);
            }
        }
        if !is_space(s[0]) && leading_word(s) < s.len() {
            assert(s[leading_word(s)] == t[leading_word(t)]);
        }
    }
}

/// White space at the start of a text makes no difference to its words.
pub(crate) proof fn lemma_words_behind_space(s: Seq<char>)
    requires
        s.len() > 0,
        is_space(s[0]),
    ensures
        words(s) == words(s.drop_first()),
{
    let t = s.drop_first();
    lemma_leading(t);
    let k = leading_space(t);
    assert(s.skip(k + 1) =~= t.skip(k));
    lemma_leading(t.skip(k));
    let n = leading_word(t.skip(k));
    if k < t.len() && 0 < n <= t.len() - k {
        assert(s.subrange(k + 1, k + 1 + n) =~= t.subrange(k, k + n));
        assert(s.skip(k + 1 + n) =~= t.skip(k + n));
    }
}

/// The words of two texts with a gap between them are those of the first and then those of
/// the second.
pub(crate) proof fn lemma_words_apart(a: Seq<char>, gap: char, b: Seq<char>)
    requires
        is_space(gap),
    ensures
        words(a + seq![gap] + b) == words(a) + words(b),
    decreases a.len(),
{
    let s = a + seq![gap] + b;
    if a.len() == 0 {
        lemma_words_behind_space(s);
        assert(s.drop_first() =~= b);
        assert(words(a) + words(b) =~= words(b));
    } else if is_space(a[0]) {
        lemma_words_behind_space(s);
        lemma_words_behind_space(a);
        assert(s.drop_first() =~= a.drop_first() + seq![gap] + b);
        lemma_words_apart(a.drop_first(), gap, b);
    } else {
        lemma_leading(a);
        let n = leading_word(a);
        assert forall|i: int| 0 <= i < n implies !is_space(#[trigger] s[i]) by {
            assert(s[i] == a[i]);
        }
        assert(is_space(s[n])) by {
            if n < a.len() {
                assert(s[n] == a[n]);
            }
        }
        lemma_leading_word(s, n);
        assert(s.skip(0) =~= s && a.skip(0) =~= a);
        assert(s.subrange(0, n) =~= a.subrange(0, n));
        assert(s.skip(n) =~= a.skip(n) + seq![gap] + b);
        lemma_words_apart(a.skip(n), gap, b);
        assert(words(s) =~= words(a) + words(b));
    }
}

/// Splits a text into its words.
pub fn split_words(v: &[char]) -> (r: Vec<Vec<char>>)
    ensures
        line_views(r@) == words(v@),
{
    let mut r: Vec<Vec<char>> = Vec::new();
    let mut pos: usize = 0;
    assert(v@.skip(0) =~= v@);
    assert(line_views(r@) + words(v@) =~= words(v@));
    loop
        invariant
            pos <= v@.len(),
            line_views(r@) + words(v@.skip(pos as int)) == words(v@),
        ensures
            line_views(r@) == words(v@),
        decreases v@.len() - pos,
    {
        let ghost rest = v@.skip(pos as int);
        let ghost before = line_views(r@);
        let mut from: usize = pos;
        while from < v.len() && char_is_space(v[from])
            invariant
                pos <= from <= v@.len(),
                forall|i: int| pos <= i < from ==> is_space(#[trigger] v@[i]),
            decreases v.len() - from,
        {
            from = from + 1;
        }
        proof {
            assert forall|i: int| 0 <= i < from - pos implies is_space(#[trigger] rest[i]) by {
                assert(rest[i] == v@[pos + i]);
            }
            lemma_leading_space(rest, from - pos);
        }
        if from == v.len() {
            assert(words(rest) =~= seq![]);
            assert(before + words(rest) =~= before);
            break ;
        }
        let mut to: usize = from;
        while to < v.len() && !char_is_space(v[to])
            invariant
                from <= to <= v@.len(),
                forall|i: int| from <= i < to ==> !is_space(#[trigger] v@[i]),
            decreases v.len() - to,
        {
            to = to + 1;
        }
        proof {
            let tail = rest.skip(from - pos);
            assert(tail =~= v@.skip(from as int));
            assert forall|i: int| 0 <= i < to - from implies !is_space(#[trigger] tail[i]) by {
                assert(tail[i] == v@[from + i]);
            }
            if to < v@.len() {
                assert(tail[to - from] == v@[to as int]);
            }
            lemma_leading_word(tail, to - from);
            assert(to > from);
        }
        let word: Vec<char> = slice_chars(v, from, to);
        r.push(word);
        proof {
            assert(word@ =~= rest.subrange(from - pos, to - pos));
            assert(rest.skip(to - pos) =~= v@.skip(to as int));
            assert(line_views(r@) =~= before.push(word@));
            assert(line_views(r@) + words(v@.skip(to as int)) =~= before + words(rest));
        }
        pos = to;
    }
    r
}

// ── Directions ────────────────────────────────────────────────────────────────
/// The way a player leaves a room.
#[derive(Clone, Copy, Debug, PartialEq, Eq, Structural)]
pub enum Direction {
    N,
    S,
    E,
    W,
    Ne,
    Nw,
    Se,
    Sw,
    Up,
    Down,
    In,
    Out,
    Fore,
    Aft,
    Port,
    Starboard,
}

/// The direction that a word in lower case names.
pub open spec fn direction_word(w: Seq<char>) -> Option<Direction> {
    if w == "n"@ || w == "north"@ {
        Some(Direction::N)
    } else if w == "s"@ || w == "south"@ {
        Some(Direction::S)
    } else if w == "e"@ || w == "east"@ {
        Some(Direction::E)
    } else if w == "w"@ || w == "west"@ {
        Some(Direction::W)
    } else if w == "ne"@ || w == "northeast"@ {
        Some(Direction::Ne)
    } else if w == "nw"@ || w == "northwest"@ {
        Some(Direction::Nw)
    } else if w == "se"@ || w == "southeast"@ {
        Some(Direction::Se)
    } else if w == "sw"@ || w == "southwest"@ {
        Some(Direction::Sw)
    } else if w == "u"@ || w == "up"@ {
        Some(Direction::Up)
    } else if w == "d"@ || w == "down"@ {
        Some(Direction::Down)
    } else if w == "in"@ {
        Some(Direction::In)
    } else if w == "out"@ {
        Some(Direction::Out)
    } else if w == "fore"@ {
        Some(Direction::Fore)
    } else if w == "aft"@ {
        Some(Direction::Aft)
    } else if w == "port"@ {
        Some(Direction::Port)
    } else if w == "starboard"@ {
        Some(Direction::Starboard)
    } else {
        None
    }
}

/// The direction that a command names with its first word, or with its second if the first
/// is `go`.
pub open spec fn command_direction(command: Seq<char>) -> Option<Direction> {
    let w = words(command);
    if w.len() == 0 {
        None
    } else if lower(w[0]) == "go"@ && w.len() > 1 {
        direction_word(lower(w[1]))
    } else {
        direction_word(lower(w[0]))
    }
}

/// Compares characters with a string.
fn is_word(v: &[char], w: &str) -> (r: bool)
    ensures
        r == (v@ == w@),
{
    same_chars(v, &to_chars(w))
}

/// Reads a word in lower case as a direction.
pub fn parse_direction_word(w: &[char]) -> (r: Option<Direction>)
    ensures
        r == direction_word(w@),
{
    if is_word(w, "n") || is_word(w, "north") {
        Some(Direction::N)
    } else if is_word(w, "s") || is_word(w, "south") {
        Some(Direction::S)
    } else if is_word(w, "e") || is_word(w, "east") {
        Some(Direction::E)
    } else if is_word(w, "w") || is_word(w, "west") {
        Some(Direction::W)
    } else if is_word(w, "ne") || is_word(w, "northeast") {
        Some(Direction::Ne)
    } else if is_word(w, "nw") || is_word(w, "northwest") {
        Some(Direction::Nw)
    } else if is_word(w, "se") || is_word(w, "southeast") {
        Some(Direction::Se)
    } else if is_word(w, "sw") || is_word(w, "southwest") {
        Some(Direction::Sw)
    } else if is_word(w, "u") || is_word(w, "up") {
        Some(Direction::Up)
    } else if is_word(w, "d") || is_word(w, "down") {
        Some(Direction::Down)
    } else if is_word(w, "in") {
        Some(Direction::In)
    } else if is_word(w, "out") {
        Some(Direction::Out)
    } else if is_word(w, "fore") {
        Some(Direction::Fore)
    } else if is_word(w, "aft") {
        Some(Direction::Aft)
    } else if is_word(w, "port") {
        Some(Direction::Port)
    } else if is_word(w, "starboard") {
        Some(Direction::Starboard)
    } else {
        None
    }
}

/// Reads a command as a move.
pub fn parse_direction(command: &str) -> (r: Option<Direction>)
    ensures
        r == command_direction(command@),
{
    let w: Vec<Vec<char>> = split_words(&to_chars(command));
    if w.len() == 0 {
        assert(words(command@).len() == 0);
        return None;
    }
    assert(words(command@)[0] == w@[0]@);
    let first: Vec<char> = lower_chars(&w[0]);
    if w.len() > 1 && is_word(&first, "go") {
        assert(words(command@)[1] == w@[1]@);
        return parse_direction_word(&lower_chars(&w[1]));
    }
    parse_direction_word(&first)
}

/// The first line of a text that is not blank, trimmed; nothing if every line is blank.
pub open spec fn first_line(ls: Seq<Seq<char>>) -> Option<Seq<char>>
    decreases ls.len(),
{
    if ls.len() == 0 {
        None
    } else if trim(ls[0]).len() > 0 {
        Some(trim(ls[0]))
    } else {
        first_line(ls.drop_first())
    }
}

/// Whether a line has the length of a movement command: one word, or `go` and a word.
pub open spec fn is_short_command(line: Seq<char>) -> bool {
    let w = words(line);
    w.len() == 1 || w.len() == 2 && same_ignoring_case(w[0], "go"@)
}

/// The line at the head of a game's output that may be the echo of a movement command.
pub open spec fn short_echo(transcript: Seq<char>) -> Option<Seq<char>> {
    match first_line(lines(transcript)) {
        Some(l) => if is_short_command(l) {
            Some(l)
        } else {
            None
        },
        None => None,
    }
}

/// The movement command that a game echoes at the head of its output.
pub open spec fn echoed_move(transcript: Seq<char>) -> Option<Seq<char>> {
    match short_echo(transcript) {
        Some(l) => if command_direction(l) is Some {
            Some(l)
        } else {
            None
        },
        None => None,
    }
}

/// Compares two runs of characters but for the case of ASCII letters.
fn same_but_case(a: &[char], b: &[char]) -> (r: bool)
    ensures
        r == same_ignoring_case(a@, b@),
{
    same_chars(&lower_chars(a), &lower_chars(b))
}

/// Tests whether a line has the length of a movement command.
fn short_command(line: &str) -> (r: bool)
    ensures
        r == is_short_command(line@),
{
    let w: Vec<Vec<char>> = split_words(&to_chars(line));
    if w.len() == 1 {
        true
    } else if w.len() == 2 {
        assert(words(line@)[0] == w@[0]@);
        same_but_case(&w[0], &to_chars("go"))
    } else {
        false
    }
}

/// Finds the first line that is not blank, and where it stands without the white space
/// around it.
fn first_filled(v: &Vec<char>, spans: &Vec<(usize, usize)>) -> (r: Option<(usize, usize)>)
    requires
        forall|j: int|
            0 <= j < spans@.len() ==> (#[trigger] spans@[j]).0 <= spans@[j].1 <= v@.len(),
    ensures
        r is Some == first_line(span_views(v@, spans@)) is Some,
        r matches Some(s) ==> s.0 <= s.1 <= v@.len() && first_line(span_views(v@, spans@)) == Some(
            v@.subrange(s.0 as int, s.1 as int),
        ),
{
    let ghost ls = span_views(v@, spans@);
    let mut i: usize = 0;
    assert(ls.skip(0) =~= ls);
    while i < spans.len()
        invariant
            i <= spans@.len(),
            forall|j: int|
                0 <= j < spans@.len() ==> (#[trigger] spans@[j]).0 <= spans@[j].1 <= v@.len(),
            ls == span_views(v@, spans@),
            first_line(ls.skip(i as int)) == first_line(ls),
        decreases spans.len() - i,
    {
        let from: usize = spans[i].0;
        let whole_line: Vec<char> = slice_chars(v, from, spans[i].1);
        let span = trim_span(&whole_line);
        assert(ls.skip(i as int)[0] == whole_line@);
        assert(ls.skip(i as int).drop_first() =~= ls.skip(i + 1));
        if span.0 < span.1 {
            assert(v@.subrange(from + span.0, from + span.1) =~= trim(whole_line@));
            return Some((from + span.0, from + span.1));
        }
        i = i + 1;
    }
    assert(ls.skip(i as int) =~= seq![]);
    None
}

/// The line at the head of a turn's transcript that may be the game's echo of a movement
/// command: it is one if it names a direction.
pub fn echoed_command(transcript: &str) -> (r: Option<&str>)
    ensures
        opt_str_view(r) == short_echo(transcript@),
{
    let v: Vec<char> = to_chars(transcript);
    let spans: Vec<(usize, usize)> = line_spans(&v);
    match first_filled(&v, &spans) {
        Some(span) => {
            let line: &str = transcript.substring_char(span.0, span.1);
            if short_command(line) {
                Some(line)
            } else {
                None
            }
        },
        None => None,
    }
}

/// The game's own echoed movement command at the head of a turn's transcript. A click on a
/// compass reaches the game without typed text, and the game echoes the command it made of
/// it; only a line that is a move in its entirety counts, so that a room heading such as
/// "North of House" does not.
pub fn echoed_direction_command(transcript: &str) -> (r: Option<&str>)
    ensures
        opt_str_view(r) == echoed_move(transcript@),
{
    match echoed_command(transcript) {
        Some(line) => if parse_direction(line).is_some() {
            Some(line)
        } else {
            None
        },
        None => None,
    }
}

// ── Deaths ────────────────────────────────────────────────────────────────────
/// Whether a line is a banner of asterisks that speaks of a death.
pub open spec fn is_death_banner(line: Seq<char>) -> bool {
    let t = trim(line);
    &&& t.len() >= 4
    &&& t[0] == '*' && t[1] == '*'
    &&& t[t.len() - 1] == '*' && t[t.len() - 2] == '*'
    &&& (contains(lower(t), "died"@) || contains(lower(t), "dead"@))
}

/// Whether some line of a transcript is a death banner.
pub open spec fn has_death_banner(transcript: Seq<char>) -> bool {
    exists|i: int|
        0 <= i < lines(transcript).len() && is_death_banner(#[trigger] lines(transcript)[i])
}

/// Whether a transcript both reports a death and offers to undo it.
pub open spec fn offers_to_revive(transcript: Seq<char>) -> bool {
    let t = lower(transcript);
    &&& {
        ||| contains(t, "killed"@)
        ||| contains(t, "died"@)
        ||| contains(t, "dead"@)
        ||| contains(t, "your body"@)
    }
    &&& (contains(t, "reincarnate"@) || contains(t, "resurrect"@))
}

/// Whether a transcript says that the player died.
pub open spec fn reports_death(transcript: Seq<char>) -> bool {
    has_death_banner(transcript) || offers_to_revive(transcript)
}

/// Tests whether a line is a death banner.
fn death_banner(line: &[char]) -> (r: bool)
    ensures
        r == is_death_banner(line@),
{
    let span = trim_span(line);
    let t: Vec<char> = slice_chars(line, span.0, span.1);
    let n: usize = t.len();
    if n < 4 || t[0] != '*' || t[1] != '*' || t[n - 1] != '*' || t[n - 2] != '*' {
        return false;
    }
    let low: Vec<char> = lower_chars(&t);
    chars_contain(&low, "died") || chars_contain(&low, "dead")
}

/// Whether a turn's output carries a death banner: a line between asterisks that speaks of
/// death. Prose that mentions the dead does not count, nor does the banner of a victory.
pub fn is_death_relocation(transcript: &str) -> (r: bool)
    ensures
        r == has_death_banner(transcript@),
{
    let all: Vec<Vec<char>> = split_lines(&to_chars(transcript));
    let ghost ls = lines(transcript@);
    let mut i: usize = 0;
    while i < all.len()
        invariant
            i <= all@.len(),
            ls == lines(transcript@),
            line_views(all@) == ls,
            forall|j: int| 0 <= j < i ==> !is_death_banner(#[trigger] ls[j]),
        decreases all.len() - i,
    {
        assert(ls[i as int] == line_views(all@)[i as int]);
        if death_banner(&all[i]) {
            return true;
        }
        i = i + 1;
    }
    false
}

/// Whether a turn's output both reports a death and offers to undo it.
pub fn offers_revival(transcript: &str) -> (r: bool)
    ensures
        r == offers_to_revive(transcript@),
{
    let low: Vec<char> = lower_chars(&to_chars(transcript));
    let died: bool = chars_contain(&low, "killed") || chars_contain(&low, "died") || chars_contain(
        &low,
        "dead",
    ) || chars_contain(&low, "your body");
    let revive: bool = chars_contain(&low, "reincarnate") || chars_contain(&low, "resurrect");
    died && revive
}

/// Whether a turn's output says that the player died: by a banner, or by an offer to bring
/// the player back.
pub fn turn_reports_death(transcript: &str) -> (r: bool)
    ensures
        r == reports_death(transcript@),
{
    is_death_relocation(transcript) || offers_revival(transcript)
}

/// Whether a room's name stands on a line of its own in a transcript.
pub open spec fn has_heading(transcript: Seq<char>, name: Seq<char>) -> bool {
    &&& trim(name).len() > 0
    &&& exists|i: int|
        0 <= i < lines(transcript).len() && same_ignoring_case(
            trim(#[trigger] lines(transcript)[i]),
            trim(name),
        )
}

/// Whether a turn's output printed a room's heading again, on a line of its own: the sign
/// that the player arrived somewhere.
pub fn reprinted_room_heading(transcript: &str, name: &str) -> (r: bool)
    ensures
        r == has_heading(transcript@, name@),
{
    let nv: Vec<char> = to_chars(name);
    let span = trim_span(&nv);
    if span.0 == span.1 {
        return false;
    }
    let want: Vec<char> = slice_chars(&nv, span.0, span.1);
    let all: Vec<Vec<char>> = split_lines(&to_chars(transcript));
    let ghost ls = lines(transcript@);
    let mut i: usize = 0;
    while i < all.len()
        invariant
            i <= all@.len(),
            ls == lines(transcript@),
            line_views(all@) == ls,
            want@ == trim(name@),
            want@.len() > 0,
            forall|j: int| 0 <= j < i ==> !same_ignoring_case(trim(#[trigger] ls[j]), trim(name@)),
        decreases all.len() - i,
    {
        assert(ls[i as int] == line_views(all@)[i as int]);
        let s = trim_span(&all[i]);
        let line: Vec<char> = slice_chars(&all[i], s.0, s.1);
        if same_but_case(&line, &want) {
            return true;
        }
        i = i + 1;
    }
    false
}

// ── The map ───────────────────────────────────────────────────────────────────
/// The number of a room.
pub type RoomId = u16;

/// What the map knows when a turn is applied to it.
#[derive(Debug)]
pub struct MapView {
    /// The room the player stands in.
    pub current: Option<RoomId>,
    /// Whether no room is on the map yet.
    pub empty: bool,
    /// The directions on record as tried in the current room.
    pub tried_here: Vec<Direction>,
}

/// What a turn does to the map. A room is entered under the name that the turn reports.
#[derive(Clone, Copy, Debug, PartialEq, Eq, Structural)]
pub enum MapAction {
    /// Put a direction on record as tried.
    MarkTried { room: RoomId, dir: Direction },
    /// Take a direction off that record.
    UnmarkTried { room: RoomId, dir: Direction },
    /// The player is in the room; if it is another one, the command led there.
    Observe { room: RoomId, by: Option<Direction> },
    /// The player moved, and came out in the room, even if it is the same one.
    ObserveMoved { room: RoomId, by: Option<Direction> },
    /// The player was brought to the room, by no passage.
    ObserveRelocation { room: RoomId },
    /// Remember how the room was found.
    SetLocMethod { room: RoomId, method: LocationMethod },
}

/// What the map still owes a death that the game has not finished with.
#[derive(Clone, Copy, Debug, PartialEq, Eq)]
pub struct DeathWatch {
    /// The record that the last directional command left, held while the player stays in
    /// the room it was typed in.
    pub pending_tried: Option<(RoomId, Direction)>,
    /// Whether a death was reported that has not ended yet.
    pub unresolved: bool,
}

impl Default for DeathWatch {
    fn default() -> (r: DeathWatch)
        ensures
            r.pending_tried is None,
            !r.unresolved,
    {
        DeathWatch { pending_tried: None, unresolved: false }
    }
}

/// What a turn says about the player's whereabouts.
pub struct Arrival {
    pub room: RoomId,
    /// Whether the room's heading was printed.
    pub arrived: bool,
    pub method: Option<LocationMethod>,
}

/// The record of a typed direction.
pub open spec fn tried_mark(current: Option<RoomId>, dir: Option<Direction>) -> Seq<MapAction> {
    match (current, dir) {
        (Some(room), Some(dir)) => seq![MapAction::MarkTried { room, dir }],
        _ => seq![],
    }
}

/// Whether a location is no evidence of a room: it comes from the status line alone, no
/// room is on the map yet, and the story did not name it.
pub open spec fn is_unproven(a: Arrival, empty: bool) -> bool {
    a.method == Some(LocationMethod::NameOnly) && empty && !a.arrived
}

/// How the player's location is entered.
pub open spec fn entry(
    a: Arrival,
    current: Option<RoomId>,
    dir: Option<Direction>,
    fatal: bool,
    unresolved: bool,
) -> MapAction {
    if fatal || (unresolved && current != Some(a.room)) {
        MapAction::ObserveRelocation { room: a.room }
    } else if a.arrived {
        MapAction::ObserveMoved { room: a.room, by: dir }
    } else {
        MapAction::Observe { room: a.room, by: dir }
    }
}

/// The note of how a room was found.
pub open spec fn method_note(a: Arrival) -> Seq<MapAction> {
    match a.method {
        Some(method) => seq![MapAction::SetLocMethod { room: a.room, method }],
        None => seq![],
    }
}

/// Everything a turn does to the map.
pub open spec fn turn_actions(
    current: Option<RoomId>,
    empty: bool,
    dir: Option<Direction>,
    fatal: bool,
    arrival: Option<Arrival>,
    unresolved: bool,
) -> Seq<MapAction> {
    match arrival {
        None => tried_mark(current, dir),
        Some(a) => if is_unproven(a, empty) {
            tried_mark(current, dir)
        } else {
            tried_mark(current, dir) + seq![entry(a, current, dir, fatal, unresolved)]
                + method_note(a)
        },
    }
}

/// Whether a death is unresolved after a turn. A death reported this turn stays so; an
/// outstanding one ends when the player changes rooms or a heading is printed.
pub open spec fn unresolved_after(
    current: Option<RoomId>,
    empty: bool,
    fatal: bool,
    arrival: Option<Arrival>,
    unresolved: bool,
) -> bool {
    if fatal {
        true
    } else {
        match arrival {
            None => unresolved,
            Some(a) => unresolved && (is_unproven(a, empty) || current == Some(a.room)
                && !a.arrived),
        }
    }
}

/// The player's whereabouts, as a turn reports them.
pub open spec fn arrival_of(result: &TurnResult) -> Option<Arrival> {
    match result.location {
        Some(snap) => Some(
            Arrival {
                room: snap.number,
                arrived: has_heading(result.transcript@, snap.name@),
                method: result.location_method,
            },
        ),
        None => None,
    }
}

/// Decides what a turn does to the map, and keeps the death watch.
pub fn apply_turn(
    map: &MapView,
    command: &str,
    result: &TurnResult,
    death: &mut DeathWatch,
) -> (r: Vec<MapAction>)
    ensures
        r@ == turn_actions(
            map.current,
            map.empty,
            command_direction(command@),
            reports_death(result.transcript@),
            arrival_of(result),
            old(death).unresolved,
        ),
        final(death).unresolved == unresolved_after(
            map.current,
            map.empty,
            reports_death(result.transcript@),
            arrival_of(result),
            old(death).unresolved,
        ),
        final(death).pending_tried == old(death).pending_tried,
{
    apply_directed_turn(map, parse_direction(command), result, death)
}

/// Decides what a turn does to the map, where `dir` is the direction that its command
/// names, however that was found.
///
/// A typed direction has been tried, whatever else the turn did. The first room of a map
/// must be one that the story itself named. A turn that reports a death, and the first
/// change of rooms after it, brings the player somewhere by no passage. Otherwise a printed
/// heading says that the player moved, and without one the room is observed as it is.
pub fn apply_directed_turn(
    map: &MapView,
    dir: Option<Direction>,
    result: &TurnResult,
    death: &mut DeathWatch,
) -> (r: Vec<MapAction>)
    ensures
        r@ == turn_actions(
            map.current,
            map.empty,
            dir,
            reports_death(result.transcript@),
            arrival_of(result),
            old(death).unresolved,
        ),
        final(death).unresolved == unresolved_after(
            map.current,
            map.empty,
            reports_death(result.transcript@),
            arrival_of(result),
            old(death).unresolved,
        ),
        final(death).pending_tried == old(death).pending_tried,
{
    let mut out: Vec<MapAction> = Vec::new();
    if let (Some(room), Some(d)) = (map.current, dir) {
        out.push(MapAction::MarkTried { room, dir: d });
    }
    let fatal: bool = turn_reports_death(result.transcript.as_str());
    assert(out@ =~= tried_mark(map.current, dir));
    let outstanding: bool = death.unresolved;
    if fatal {
        death.unresolved = true;
    }
    if let Some(snap) = &result.location {
        let arrived: bool = reprinted_room_heading(
            result.transcript.as_str(),
            snap.name.as_str(),
        );
        let name_only: bool = match result.location_method {
            Some(m) => m == LocationMethod::NameOnly,
            None => false,
        };
        if name_only && map.empty && !arrived {
            return out;
        }
        let moved_room: bool = match map.current {
            Some(here) => here != snap.number,
            None => true,
        };
        if fatal {
            out.push(MapAction::ObserveRelocation { room: snap.number });
        } else if outstanding && moved_room {
            out.push(MapAction::ObserveRelocation { room: snap.number });
            death.unresolved = false;
        } else if arrived {
            out.push(MapAction::ObserveMoved { room: snap.number, by: dir });
            death.unresolved = false;
        } else {
            out.push(MapAction::Observe { room: snap.number, by: dir });
        }
        if let Some(method) = result.location_method {
            out.push(MapAction::SetLocMethod { room: snap.number, method });
        }
    }
    assert(out@ =~= turn_actions(
        map.current,
        map.empty,
        dir,
        fatal,
        arrival_of(result),
        outstanding,
    ));
    out
}

/// The record that a command is about to make: the room the player stands in and the
/// direction typed, unless that is on record already.
pub open spec fn new_record(
    current: Option<RoomId>,
    tried_here: Seq<Direction>,
    dir: Option<Direction>,
) -> Option<(RoomId, Direction)> {
    match (current, dir) {
        (Some(room), Some(d)) => if tried_here.contains(d) {
            None
        } else {
            Some((room, d))
        },
        _ => None,
    }
}

/// The record of a tried direction that this turn's command is about to make. It is asked
/// for before the turn is applied.
pub fn tried_record_for(map: &MapView, command: &str) -> (r: Option<(RoomId, Direction)>)
    ensures
        r == new_record(map.current, map.tried_here@, command_direction(command@)),
{
    tried_record_of(map, parse_direction(command))
}

/// The record of a tried direction that a command is about to make, where `dir` is the
/// direction that it names, however that was found.
pub fn tried_record_of(map: &MapView, dir: Option<Direction>) -> (r: Option<(RoomId, Direction)>)
    ensures
        r == new_record(map.current, map.tried_here@, dir),
{
    if let (Some(room), Some(d)) = (map.current, dir) {
        let mut i: usize = 0;
        while i < map.tried_here.len()
            invariant
                i <= map.tried_here@.len(),
                map.current == Some(room),
                dir == Some(d),
                forall|j: int| 0 <= j < i ==> map.tried_here@[j] != d,
            decreases map.tried_here.len() - i,
        {
            if map.tried_here[i] == d {
                assert(map.tried_here@[i as int] == d);
                return None;
            }
            i = i + 1;
        }
        return Some((room, d));
    }
    None
}

/// The record that a fatal turn takes back: the one its own command made, or else the one
/// held over.
pub open spec fn rolled_back(
    pending: Option<(RoomId, Direction)>,
    attempted: Option<(RoomId, Direction)>,
    fatal: bool,
) -> Option<(RoomId, Direction)> {
    if !fatal {
        None
    } else if attempted is Some {
        attempted
    } else {
        pending
    }
}

/// The record held after a turn.
pub open spec fn pending_after(
    current: Option<RoomId>,
    pending: Option<(RoomId, Direction)>,
    attempted: Option<(RoomId, Direction)>,
    fatal: bool,
) -> Option<(RoomId, Direction)> {
    if fatal {
        None
    } else if attempted is Some {
        attempted
    } else {
        match pending {
            Some(p) => if Some(p.0) == current {
                pending
            } else {
                None
            },
            None => None,
        }
    }
}

/// Takes back the record that a fatal move left: dying says nothing about whether a way is
/// open. A death is not always admitted on the turn that caused it, so a record is held
/// over while the player stays in the room it was made in.
pub fn rollback_tried_on_death(
    map: &MapView,
    death: &mut DeathWatch,
    attempted: Option<(RoomId, Direction)>,
    fatal: bool,
) -> (r: Option<MapAction>)
    ensures
        r == (match rolled_back(old(death).pending_tried, attempted, fatal) {
            Some(t) => Some(MapAction::UnmarkTried { room: t.0, dir: t.1 }),
            None => None,
        }),
        final(death).pending_tried == pending_after(
            map.current,
            old(death).pending_tried,
            attempted,
            fatal,
        ),
        final(death).unresolved == old(death).unresolved,
{
    if fatal {
        let lie: Option<(RoomId, Direction)> = match attempted {
            Some(t) => Some(t),
            None => death.pending_tried,
        };
        death.pending_tried = None;
        return match lie {
            Some((room, dir)) => Some(MapAction::UnmarkTried { room, dir }),
            None => None,
        };
    }
    if attempted.is_some() {
        death.pending_tried = attempted;
    } else if let Some((room, _)) = death.pending_tried {
        let still_here: bool = match map.current {
            Some(here) => here == room,
            None => false,
        };
        if !still_here {
            death.pending_tried = None;
        }
    }
    None
}

// ── Laws of the map ───────────────────────────────────────────────────────────
/// Whether an action can put a passage on the map.
pub open spec fn makes_a_passage(a: MapAction) -> bool {
    a is Observe || a is ObserveMoved
}

/// What a turn puts on the map of the player's moves. Whatever is entered as seen or as moved
/// to is the room that the turn reports, reached by exactly the direction that the command
/// names; and where a room is reported that the story vouches for, and no death is reported
/// or outstanding, exactly one such entry is made: of a move where the room's heading was
/// printed, of a sight where it was not.
pub proof fn a_move_goes_by_the_direction_typed(
    map: &MapView,
    command: Seq<char>,
    result: &TurnResult,
    unresolved: bool,
    acts: Seq<MapAction>,
)
    requires
        acts == turn_actions(
            map.current,
            map.empty,
            command_direction(command),
            reports_death(result.transcript@),
            arrival_of(result),
            unresolved,
        ),
    ensures
        forall|i: int|
            0 <= i < acts.len() ==> (#[trigger] acts[i] matches MapAction::ObserveMoved { room, by }
                ==> by == command_direction(command) && result.location is Some && room == (
            result.location->0).number && has_heading(
                result.transcript@,
                (result.location->0).name@,
            )),
        forall|i: int|
            0 <= i < acts.len() ==> (#[trigger] acts[i] matches MapAction::Observe { room, by }
                ==> by == command_direction(command) && result.location is Some && room == (
            result.location->0).number && !has_heading(
                result.transcript@,
                (result.location->0).name@,
            )),
        forall|i: int, j: int|
            0 <= i < acts.len() && 0 <= j < acts.len() && is_sighting(#[trigger] acts[i])
                && is_sighting(#[trigger] acts[j]) ==> i == j,
        result.location matches Some(at) ==> {
            let heading = has_heading(result.transcript@, at.name@);
            let vouched = heading || !map.empty || result.location_method != Some(
                LocationMethod::NameOnly,
            );
            let dead = reports_death(result.transcript@);
            &&& vouched && !dead && !unresolved && heading ==> acts.contains(
                MapAction::ObserveMoved { room: at.number, by: command_direction(command) },
            )
            &&& vouched && !dead && !unresolved && !heading ==> acts.contains(
                MapAction::Observe { room: at.number, by: command_direction(command) },
            )
            &&& vouched && !dead && unresolved && map.current == Some(at.number) && heading
                ==> acts.contains(
                MapAction::ObserveMoved { room: at.number, by: command_direction(command) },
            )
            &&& vouched && !dead && unresolved && map.current == Some(at.number) && !heading
                ==> acts.contains(
                MapAction::Observe { room: at.number, by: command_direction(command) },
            )
            &&& vouched && (dead || unresolved && map.current != Some(at.number)) ==> acts.contains(
                MapAction::ObserveRelocation { room: at.number },
            )
            &&& !vouched ==> forall|i: int| 0 <= i < acts.len() ==> !is_sighting(#[trigger] acts[i])
        },
        result.location is None ==> forall|i: int|
            0 <= i < acts.len() ==> !is_sighting(#[trigger] acts[i]),
{
    if let Some(at) = result.location {
        let n = tried_mark(map.current, command_direction(command)).len() as int;
        let a = arrival_of(result)->0;
        if !is_unproven(a, map.empty) {
            assert(acts[n] == entry(
                a,
                map.current,
                command_direction(command),
                reports_death(result.transcript@),
                unresolved,
            ));
        }
    }
}

/// Whether an action enters where the player is, by whatever way.
pub open spec fn is_sighting(a: MapAction) -> bool {
    a is Observe || a is ObserveMoved || a is ObserveRelocation
}

/// The direction that a command names is on record as tried in the room where it was typed,
/// before anything else and once; no other direction is, and in no other room. A turn takes
/// nothing off the record.
pub proof fn only_the_direction_typed_is_tried(
    map: &MapView,
    command: Seq<char>,
    result: &TurnResult,
    unresolved: bool,
    acts: Seq<MapAction>,
    i: int,
)
    requires
        acts == turn_actions(
            map.current,
            map.empty,
            command_direction(command),
            reports_death(result.transcript@),
            arrival_of(result),
            unresolved,
        ),
        0 <= i < acts.len(),
    ensures
        acts[i] matches MapAction::MarkTried { room, dir } ==> i == 0 && map.current == Some(room)
            && command_direction(command) == Some(dir),
        !(acts[i] is UnmarkTried),
        map.current is Some && command_direction(command) is Some ==> acts[0]
            == (MapAction::MarkTried {
            room: map.current->0,
            dir: command_direction(command)->0,
        }),
{
}

/// How a room was found is noted of the room that the turn reports, once the room is entered
/// and only then.
pub proof fn the_way_a_room_was_found_is_noted(
    map: &MapView,
    command: Seq<char>,
    result: &TurnResult,
    unresolved: bool,
    acts: Seq<MapAction>,
    i: int,
)
    requires
        acts == turn_actions(
            map.current,
            map.empty,
            command_direction(command),
            reports_death(result.transcript@),
            arrival_of(result),
            unresolved,
        ),
        0 <= i < acts.len(),
    ensures
        acts[i] matches MapAction::SetLocMethod { room, method } ==> i > 0 && is_sighting(
            acts[i - 1],
        ) && result.location_method == Some(method) && result.location is Some && room == (
        result.location->0).number,
        is_sighting(acts[i]) && result.location_method is Some ==> i + 1 < acts.len() && acts[i
            + 1] == (MapAction::SetLocMethod {
            room: (result.location->0).number,
            method: result.location_method->0,
        }),
{
}

/// A death that was reported stays outstanding until a later turn brings the player to
/// another room or prints the heading of the one the player is in; no turn but one that
/// reports a death makes one outstanding.
pub proof fn a_death_ends_with_a_change_of_place(
    map: &MapView,
    result: &TurnResult,
    before: bool,
    after: bool,
)
    requires
        after == unresolved_after(
            map.current,
            map.empty,
            reports_death(result.transcript@),
            arrival_of(result),
            before,
        ),
    ensures
        reports_death(result.transcript@) ==> after,
        !reports_death(result.transcript@) && !before ==> !after,
        !reports_death(result.transcript@) && before && result.location is None ==> after,
        !reports_death(result.transcript@) && before ==> (result.location matches Some(at) ==> {
            let heading = has_heading(result.transcript@, at.name@);
            &&& heading ==> !after
            &&& map.current == Some(at.number) && !heading ==> after
            &&& map.current != Some(at.number) && !map.empty ==> !after
        }),
{
}

/// A turn that reports a death puts no passage on the map.
pub proof fn a_death_makes_no_passage(
    current: Option<RoomId>,
    empty: bool,
    dir: Option<Direction>,
    arrival: Option<Arrival>,
    unresolved: bool,
    i: int,
)
    requires
        0 <= i < turn_actions(current, empty, dir, true, arrival, unresolved).len(),
    ensures
        !makes_a_passage(turn_actions(current, empty, dir, true, arrival, unresolved)[i]),
{
}

/// A direction typed in a room is put on record as tried, whatever the turn reports.
pub proof fn a_typed_direction_is_tried(
    room: RoomId,
    empty: bool,
    dir: Direction,
    fatal: bool,
    arrival: Option<Arrival>,
    unresolved: bool,
)
    ensures
        turn_actions(Some(room), empty, Some(dir), fatal, arrival, unresolved)[0]
            == (MapAction::MarkTried { room, dir }),
{
}

/// An outstanding death suppresses one passage and never a second: the turn on which the
/// player changes rooms ends it, and a turn that neither reports a death nor finds one
/// outstanding brings the player nowhere but by a passage.
pub proof fn a_death_suppresses_one_passage(
    current: Option<RoomId>,
    dir: Option<Direction>,
    a: Arrival,
    next: Option<RoomId>,
    next_dir: Option<Direction>,
    b: Option<Arrival>,
    i: int,
)
    requires
        current != Some(a.room),
        !is_unproven(a, false),
        0 <= i < turn_actions(
            next,
            false,
            next_dir,
            false,
            b,
            unresolved_after(current, false, false, Some(a), true),
        ).len(),
    ensures
        turn_actions(current, false, dir, false, Some(a), true).contains(
            MapAction::ObserveRelocation { room: a.room },
        ),
        !unresolved_after(current, false, false, Some(a), true),
        !(turn_actions(
            next,
            false,
            next_dir,
            false,
            b,
            unresolved_after(current, false, false, Some(a), true),
        )[i] is ObserveRelocation),
{
    let acts = turn_actions(current, false, dir, false, Some(a), true);
    let n = tried_mark(current, dir).len() as int;
    assert(acts[n] == (MapAction::ObserveRelocation { room: a.room }));
}

/// The tried directions, after a list of actions.
pub open spec fn tried_after(
    tried: Set<(RoomId, Direction)>,
    actions: Seq<MapAction>,
) -> Set<(RoomId, Direction)>
    decreases actions.len(),
{
    if actions.len() == 0 {
        tried
    } else {
        let t = tried_after(tried, actions.drop_last());
        match actions.last() {
            MapAction::MarkTried { room, dir } => t.insert((room, dir)),
            MapAction::UnmarkTried { room, dir } => t.remove((room, dir)),
            _ => t,
        }
    }
}

/// A list without marks leaves the record as it was.
proof fn lemma_tried_after_add(
    tried: Set<(RoomId, Direction)>,
    a: Seq<MapAction>,
    b: Seq<MapAction>,
)
    ensures
        tried_after(tried, a + b) == tried_after(tried_after(tried, a), b),
    decreases b.len(),
{
    if b.len() == 0 {
        assert(a + b =~= a);
    } else {
        assert((a + b).drop_last() =~= a + b.drop_last());
        lemma_tried_after_add(tried, a, b.drop_last());
    }
}

/// A fatal move leaves the record of tried directions as it was: what the turn puts on it,
/// the rollback takes off again.
pub proof fn a_fatal_move_leaves_no_record(
    tried: Set<(RoomId, Direction)>,
    room: RoomId,
    empty: bool,
    dir: Direction,
    arrival: Option<Arrival>,
    unresolved: bool,
    tried_here: Seq<Direction>,
    pending: Option<(RoomId, Direction)>,
)
    requires
        tried_here.contains(dir) <==> tried.contains((room, dir)),
        !tried.contains((room, dir)),
    ensures
        rolled_back(pending, new_record(Some(room), tried_here, Some(dir)), true) == Some(
            (room, dir),
        ),
        tried_after(tried, turn_actions(Some(room), empty, Some(dir), true, arrival, unresolved))
            .remove((room, dir)) == tried,
{
    let mark = seq![MapAction::MarkTried { room, dir }];
    let acts = turn_actions(Some(room), empty, Some(dir), true, arrival, unresolved);
    let rest = acts.skip(1);
    assert(acts =~= mark + rest);
    lemma_tried_after_add(tried, mark, rest);
    assert(mark.drop_last() =~= seq![]);
    assert(tried_after(tried, mark.drop_last()) == tried);
    assert(tried_after(tried, mark) == tried.insert((room, dir)));
    lemma_no_marks(tried.insert((room, dir)), rest);
    assert(tried.insert((room, dir)).remove((room, dir)) =~= tried);
}

/// A list without marks leaves the record as it was.
proof fn lemma_no_marks(tried: Set<(RoomId, Direction)>, actions: Seq<MapAction>)
    requires
        forall|i: int|
            0 <= i < actions.len() ==> !((#[trigger] actions[i]) is MarkTried) && !(
            actions[i] is UnmarkTried),
    ensures
        tried_after(tried, actions) == tried,
    decreases actions.len(),
{
    if actions.len() > 0 {
        lemma_no_marks(tried, actions.drop_last());
    }
}

/// A record is held over only while the player stays in the room it was made in, or on the
/// turn that made it.
pub proof fn a_held_record_is_of_this_room(
    current: Option<RoomId>,
    pending: Option<(RoomId, Direction)>,
    attempted: Option<(RoomId, Direction)>,
    fatal: bool,
)
    ensures
        pending_after(current, pending, attempted, fatal) matches Some(p) ==> Some(p.0) == current
            || attempted == Some(p),
{
}

// ── Laws of directions ────────────────────────────────────────────────────────
/// Where a direction leads: to the east, to the north, up, inward and forward, or the other
/// way. A ship's port is at the left of one who looks forward.
pub open spec fn heading_of(d: Direction) -> (int, int, int, int, int, int) {
    match d {
        Direction::N => (0, 1, 0, 0, 0, 0),
        Direction::S => (0, -1, 0, 0, 0, 0),
        Direction::E => (1, 0, 0, 0, 0, 0),
        Direction::W => (-1, 0, 0, 0, 0, 0),
        Direction::Ne => (1, 1, 0, 0, 0, 0),
        Direction::Nw => (-1, 1, 0, 0, 0, 0),
        Direction::Se => (1, -1, 0, 0, 0, 0),
        Direction::Sw => (-1, -1, 0, 0, 0, 0),
        Direction::Up => (0, 0, 1, 0, 0, 0),
        Direction::Down => (0, 0, -1, 0, 0, 0),
        Direction::In => (0, 0, 0, 1, 0, 0),
        Direction::Out => (0, 0, 0, -1, 0, 0),
        Direction::Fore => (0, 0, 0, 0, 1, 0),
        Direction::Aft => (0, 0, 0, 0, -1, 0),
        Direction::Starboard => (0, 0, 0, 0, 0, 1),
        Direction::Port => (0, 0, 0, 0, 0, -1),
    }
}

/// A word for a direction names the way it says: the points of the compass in full and by
/// their letters, a compound point the sum of its parts, and the ways up, down, in, out and
/// about a ship.
pub proof fn a_direction_word_names_its_way()
    ensures
        direction_word("north"@) == Some(Direction::N),
        direction_word("south"@) == Some(Direction::S),
        direction_word("east"@) == Some(Direction::E),
        direction_word("west"@) == Some(Direction::W),
        ({
            let n = heading_of(direction_word("north"@)->0);
            let s = heading_of(direction_word("south"@)->0);
            let e = heading_of(direction_word("east"@)->0);
            let w = heading_of(direction_word("west"@)->0);
            &&& direction_word("northeast"@) matches Some(d) && heading_of(d).0 == n.0 + e.0
                && heading_of(d).1 == n.1 + e.1
            &&& direction_word("northwest"@) matches Some(d) && heading_of(d).0 == n.0 + w.0
                && heading_of(d).1 == n.1 + w.1
            &&& direction_word("southeast"@) matches Some(d) && heading_of(d).0 == s.0 + e.0
                && heading_of(d).1 == s.1 + e.1
            &&& direction_word("southwest"@) matches Some(d) && heading_of(d).0 == s.0 + w.0
                && heading_of(d).1 == s.1 + w.1
        }),
        direction_word("n"@) == direction_word("north"@),
        direction_word("s"@) == direction_word("south"@),
        direction_word("e"@) == direction_word("east"@),
        direction_word("w"@) == direction_word("west"@),
        direction_word("ne"@) == direction_word("northeast"@),
        direction_word("nw"@) == direction_word("northwest"@),
        direction_word("se"@) == direction_word("southeast"@),
        direction_word("sw"@) == direction_word("southwest"@),
        direction_word("up"@) == Some(Direction::Up) && direction_word("u"@) == direction_word(
            "up"@,
        ),
        direction_word("down"@) == Some(Direction::Down) && direction_word("d"@) == direction_word(
            "down"@,
        ),
        direction_word("in"@) == Some(Direction::In),
        direction_word("out"@) == Some(Direction::Out),
        direction_word("fore"@) == Some(Direction::Fore),
        direction_word("aft"@) == Some(Direction::Aft),
        direction_word("port"@) == Some(Direction::Port),
        direction_word("starboard"@) == Some(Direction::Starboard),
{
    lemma_direction_words();
}

/// The letters of the words for directions.
proof fn lemma_direction_words()
    ensures
        "n"@.len() == 1 && "n"@[0] == 'n',
        "s"@.len() == 1 && "s"@[0] == 's',
        "e"@.len() == 1 && "e"@[0] == 'e',
        "w"@.len() == 1 && "w"@[0] == 'w',
        "u"@.len() == 1 && "u"@[0] == 'u',
        "d"@.len() == 1 && "d"@[0] == 'd',
        "ne"@.len() == 2 && "ne"@[0] == 'n' && "ne"@[1] == 'e',
        "nw"@.len() == 2 && "nw"@[0] == 'n' && "nw"@[1] == 'w',
        "se"@.len() == 2 && "se"@[0] == 's' && "se"@[1] == 'e',
        "sw"@.len() == 2 && "sw"@[0] == 's' && "sw"@[1] == 'w',
        "up"@.len() == 2 && "up"@[0] == 'u' && "up"@[1] == 'p',
        "in"@.len() == 2 && "in"@[0] == 'i' && "in"@[1] == 'n',
        "out"@.len() == 3 && "out"@[0] == 'o' && "out"@[1] == 'u' && "out"@[2] == 't',
        "aft"@.len() == 3 && "aft"@[0] == 'a' && "aft"@[1] == 'f' && "aft"@[2] == 't',
        "down"@.len() == 4 && "down"@[0] == 'd' && "down"@[1] == 'o' && "down"@[2] == 'w' &&
            "down"@[3] == 'n',
        "fore"@.len() == 4 && "fore"@[0] == 'f' && "fore"@[1] == 'o' && "fore"@[2] == 'r' &&
            "fore"@[3] == 'e',
        "port"@.len() == 4 && "port"@[0] == 'p' && "port"@[1] == 'o' && "port"@[2] == 'r' &&
            "port"@[3] == 't',
        "east"@.len() == 4 && "east"@[0] == 'e' && "east"@[1] == 'a' && "east"@[2] == 's' &&
            "east"@[3] == 't',
        "west"@.len() == 4 && "west"@[0] == 'w' && "west"@[1] == 'e' && "west"@[2] == 's' &&
            "west"@[3] == 't',
        "north"@.len() == 5 && "north"@[0] == 'n' && "north"@[1] == 'o' && "north"@[2] == 'r' &&
            "north"@[3] == 't' && "north"@[4] == 'h',
        "south"@.len() == 5 && "south"@[0] == 's' && "south"@[1] == 'o' && "south"@[2] == 'u' &&
            "south"@[3] == 't' && "south"@[4] == 'h',
        "starboard"@.len() == 9 && "starboard"@[0] == 's' && "starboard"@[1] == 't' &&
            "starboard"@[2] == 'a' && "starboard"@[3] == 'r' && "starboard"@[4] == 'b' &&
            "starboard"@[5] == 'o' && "starboard"@[6] == 'a' && "starboard"@[7] == 'r' &&
            "starboard"@[8] == 'd',
        "northeast"@.len() == 9 && "northeast"@[0] == 'n' && "northeast"@[1] == 'o' &&
            "northeast"@[2] == 'r' && "northeast"@[3] == 't' && "northeast"@[4] == 'h' &&
            "northeast"@[5] == 'e' && "northeast"@[6] == 'a' && "northeast"@[7] == 's' &&
            "northeast"@[8] == 't',
        "northwest"@.len() == 9 && "northwest"@[0] == 'n' && "northwest"@[1] == 'o' &&
            "northwest"@[2] == 'r' && "northwest"@[3] == 't' && "northwest"@[4] == 'h' &&
            "northwest"@[5] == 'w' && "northwest"@[6] == 'e' && "northwest"@[7] == 's' &&
            "northwest"@[8] == 't',
        "southeast"@.len() == 9 && "southeast"@[0] == 's' && "southeast"@[1] == 'o' &&
            "southeast"@[2] == 'u' && "southeast"@[3] == 't' && "southeast"@[4] == 'h' &&
            "southeast"@[5] == 'e' && "southeast"@[6] == 'a' && "southeast"@[7] == 's' &&
            "southeast"@[8] == 't',
        "southwest"@.len() == 9 && "southwest"@[0] == 's' && "southwest"@[1] == 'o' &&
            "southwest"@[2] == 'u' && "southwest"@[3] == 't' && "southwest"@[4] == 'h' &&
            "southwest"@[5] == 'w' && "southwest"@[6] == 'e' && "southwest"@[7] == 's' &&
            "southwest"@[8] == 't',
{
    reveal_strlit("n");
    reveal_strlit("s");
    reveal_strlit("e");
    reveal_strlit("w");
    reveal_strlit("u");
    reveal_strlit("d");
    reveal_strlit("ne");
    reveal_strlit("nw");
    reveal_strlit("se");
    reveal_strlit("sw");
    reveal_strlit("up");
    reveal_strlit("in");
    reveal_strlit("out");
    reveal_strlit("aft");
    reveal_strlit("down");
    reveal_strlit("fore");
    reveal_strlit("port");
    reveal_strlit("east");
    reveal_strlit("west");
    reveal_strlit("north");
    reveal_strlit("south");
    reveal_strlit("starboard");
    reveal_strlit("northeast");
    reveal_strlit("northwest");
    reveal_strlit("southeast");
    reveal_strlit("southwest");
}

/// The words of one word, and of a word before a text.
proof fn lemma_one_word(w: Seq<char>)
    requires
        w.len() > 0,
        forall|i: int| 0 <= i < w.len() ==> !is_space(#[trigger] w[i]),
    ensures
        words(w) == seq![w],
{
    assert(!is_space(w[0]));
    lemma_leading_space(w, 0);
    assert(w.skip(0) =~= w);
    lemma_leading_word(w, w.len() as int);
    assert(w.subrange(0, w.len() as int) =~= w);
    assert(w.skip(w.len() as int) =~= seq![]);
    assert(words(w.skip(w.len() as int)) =~= seq![]) by {
        lemma_leading(w.skip(w.len() as int));
    }
    assert(words(w) =~= seq![w]);
}

/// A command names the direction that its first word names, in capitals or not, whatever
/// follows; or that of its second word, where the first is `go`.
pub proof fn a_command_names_the_direction_of_its_word(
    word: Seq<char>,
    next: Seq<char>,
    rest: Seq<char>,
)
    requires
        word.len() > 0,
        next.len() > 0,
        forall|i: int| 0 <= i < word.len() ==> !is_space(#[trigger] word[i]),
        forall|i: int| 0 <= i < next.len() ==> !is_space(#[trigger] next[i]),
    ensures
        command_direction(word) == direction_word(lower(word)),
        lower(word) != "go"@ ==> command_direction(word + seq![' '] + rest) == direction_word(
            lower(word),
        ),
        lower(word) == "go"@ ==> command_direction(word + seq![' '] + next) == direction_word(
            lower(next),
        ) && command_direction(word + seq![' '] + (next + seq![' '] + rest)) == direction_word(
            lower(next),
        ),
{
    lemma_one_word(word);
    lemma_one_word(next);
    lemma_words_apart(word, ' ', rest);
    lemma_words_apart(word, ' ', next);
    lemma_words_apart(next, ' ', rest);
    lemma_words_apart(word, ' ', next + seq![' '] + rest);
    assert((seq![word] + words(rest))[0] == word);
    assert((seq![word] + seq![next])[1] == next);
    assert((seq![next] + words(rest))[0] == next);
    assert((seq![word] + (seq![next] + words(rest)))[1] == next);
    assert((seq![word] + (seq![next] + words(rest)))[0] == word);
}

/// A line of a text that stands between line feeds is among its lines.
proof fn lemma_line_among(a: Seq<char>, line: Seq<char>, b: Seq<char>)
    requires
        forall|i: int| 0 <= i < line.len() ==> line[i] != '\n',
        line.len() > 0,
        line.last() != '\r',
        a.len() > 0 ==> a.last() == '\n',
        b.len() > 0 ==> b.first() == '\n',
    ensures
        lines(a + line + b).contains(line),
    decreases a.len(),
{
    let s = a + line + b;
    if a.len() == 0 {
        if b.len() == 0 {
            assert(s =~= line);
            crate::text::a_line_ends_at_its_line_feed(line, seq![]);
            assert(lines(s)[0] == line);
        } else {
            crate::text::a_line_ends_at_its_line_feed(line, b.drop_first());
            assert(s =~= line + seq!['\n'] + b.drop_first());
            assert(lines(s)[0] == line);
        }
    } else {
        // The first line of `a` goes; what is left of `a` is empty or ends in a line feed.
        let k = crate::text::find_char(a, '\n');
        assert(s.take(a.len() as int) =~= a);
        lemma_find_in(a, s, '\n');
        let rest = a.skip(k + 1);
        assert(s.skip(k + 1) =~= rest + line + b);
        if rest.len() > 0 {
            assert(rest.last() == a.last());
        }
        lemma_line_among(rest, line, b);
        let more = lines(s.skip(k + 1));
        let p = choose|p: int| 0 <= p < more.len() && more[p] == line;
        assert(lines(s)[p + 1] == line);
    }
}

/// A character that stands in the head of a text is found there.
proof fn lemma_find_in(a: Seq<char>, s: Seq<char>, c: char)
    requires
        a.len() > 0,
        a.last() == c,
        s.len() >= a.len(),
        s.take(a.len() as int) == a,
    ensures
        0 <= crate::text::find_char(a, c) < a.len(),
        crate::text::find_char(s, c) == crate::text::find_char(a, c),
    decreases a.len(),
{
    assert(s[0] == s.take(a.len() as int)[0]);
    if a.first() != c {
        let a1 = a.drop_first();
        assert(a1.last() == a.last());
        assert(s.drop_first().take(a1.len() as int) =~= a1) by {
            assert forall|i: int| 0 <= i < a1.len() implies s.drop_first()[i] == a1[i] by {
                assert(s.take(a.len() as int)[i + 1] == a[i + 1]);
            }
        }
        lemma_find_in(a1, s.drop_first(), c);
    }
}

/// A room's name that the story prints on a line of its own is a heading, wherever the line
/// stands.
pub proof fn a_name_on_a_line_is_a_heading(a: Seq<char>, name: Seq<char>, b: Seq<char>)
    requires
        name.len() > 0,
        !is_space(name.first()),
        !is_space(name.last()),
        forall|i: int| 0 <= i < name.len() ==> name[i] != '\n',
        a.len() > 0 ==> a.last() == '\n',
        b.len() > 0 ==> b.first() == '\n',
    ensures
        has_heading(a + name + b, name),
{
    lemma_line_among(a, name, b);
    let ls = lines(a + name + b);
    let i = choose|i: int| 0 <= i < ls.len() && ls[i] == name;
    crate::text::trimming_takes_the_blanks(seq![], name, seq![]);
    assert(seq![] + name + seq![] =~= name);
    assert(same_ignoring_case(trim(ls[i]), trim(name)));
}

/// A transcript without lines has no heading, a room without a name has none, and a heading
/// is as long as the name: a line that only speaks of the room is none.
pub proof fn a_heading_is_a_whole_line(transcript: Seq<char>, name: Seq<char>)
    ensures
        transcript.len() == 0 ==> !has_heading(transcript, name),
        trim(name).len() == 0 ==> !has_heading(transcript, name),
        has_heading(transcript, name) ==> exists|i: int|
            0 <= i < lines(transcript).len() && trim(#[trigger] lines(transcript)[i]).len() == trim(
                name,
            ).len() && lower(trim(lines(transcript)[i])) == lower(trim(name)),
{
}

/// A banner of asterisks that says that the player has died reports a death, wherever it
/// stands in the transcript.
pub proof fn a_banner_reports_a_death(a: Seq<char>, x: Seq<char>, y: Seq<char>, b: Seq<char>)
    requires
        forall|i: int| 0 <= i < x.len() ==> x[i] != '\n' && x[i] != '\r',
        forall|i: int| 0 <= i < y.len() ==> y[i] != '\n' && y[i] != '\r',
        a.len() > 0 ==> a.last() == '\n',
        b.len() > 0 ==> b.first() == '\n',
    ensures
        reports_death(a + (seq!['*', '*'] + x + "died"@ + y + seq!['*', '*']) + b),
        reports_death(a + (seq!['*', '*'] + x + "dead"@ + y + seq!['*', '*']) + b),
{
    reveal_strlit("died");
    reveal_strlit("dead");
    lemma_banner(a, x, "died"@, y, b);
    lemma_banner(a, x, "dead"@, y, b);
}

/// A line between asterisks with a word for death is a banner.
proof fn lemma_banner(a: Seq<char>, x: Seq<char>, w: Seq<char>, y: Seq<char>, b: Seq<char>)
    requires
        w == "died"@ || w == "dead"@,
        forall|i: int| 0 <= i < x.len() ==> x[i] != '\n' && x[i] != '\r',
        forall|i: int| 0 <= i < y.len() ==> y[i] != '\n' && y[i] != '\r',
        a.len() > 0 ==> a.last() == '\n',
        b.len() > 0 ==> b.first() == '\n',
    ensures
        reports_death(a + (seq!['*', '*'] + x + w + y + seq!['*', '*']) + b),
{
    reveal_strlit("died");
    reveal_strlit("dead");
    let line = seq!['*', '*'] + x + w + y + seq!['*', '*'];
    assert forall|i: int| 0 <= i < line.len() implies line[i] != '\n' by {
        let k = i - 2;
        if 0 <= k < x.len() {
            assert(line[i] == x[k]);
        } else if x.len() <= k < x.len() + 4 {
            assert(line[i] == w[k - x.len()]);
        } else if x.len() + 4 <= k < x.len() + 4 + y.len() {
            assert(line[i] == y[k - x.len() - 4]);
        }
    }
    let n = line.len() as int;
    assert(line[0] == '*' && line[1] == '*' && line[n - 1] == '*' && line[n - 2] == '*');
    lemma_line_among(a, line, b);
    crate::text::trimming_takes_the_blanks(seq![], line, seq![]);
    assert(seq![] + line + seq![] =~= line);
    let low = lower(line);
    assert(low =~= lower(seq!['*', '*'] + x) + w + lower(y + seq!['*', '*'])) by {
        assert(lower(w) =~= w);
        assert(low =~= lower(seq!['*', '*'] + x) + lower(w) + lower(y + seq!['*', '*']));
    }
    crate::text::a_text_contains_its_pieces(
        lower(seq!['*', '*'] + x),
        w,
        lower(y + seq!['*', '*']),
    );
    let ls = lines(a + line + b);
    let i = choose|i: int| 0 <= i < ls.len() && ls[i] == line;
    assert(is_death_banner(ls[i]));
}

/// A death is reported only where the transcript, in whatever case, speaks of one.
pub proof fn no_death_without_a_word_for_it(transcript: Seq<char>)
    requires
        !contains(lower(transcript), "killed"@),
        !contains(lower(transcript), "your body"@),
        !contains(lower(transcript), "died"@),
        !contains(lower(transcript), "dead"@),
        forall|i: int|
            0 <= i < lines(transcript).len() ==> !contains(
                lower(trim(#[trigger] lines(transcript)[i])),
                "died"@,
            ) && !contains(lower(trim(lines(transcript)[i])), "dead"@),
    ensures
        !reports_death(transcript),
{
}

// ── Laws of records, echoes and deaths ────────────────────────────────────────
/// A record is new exactly where the player stands in a room, a direction is typed and the
/// direction is not on record there yet; it is of that room and that direction.
pub proof fn a_record_is_new_once(map: &MapView, command: Seq<char>)
    ensures
        ({
            let r = new_record(map.current, map.tried_here@, command_direction(command));
            &&& r is Some <==> map.current is Some && command_direction(command) is Some
                && !map.tried_here@.contains(command_direction(command)->0)
            &&& r matches Some(t) ==> map.current == Some(t.0) && command_direction(command) == Some(
                t.1,
            )
        }),
{
}

/// A turn that is not fatal takes nothing back and holds its own record; where it made none,
/// the record that was held stays while the player is in the room of that record, and not
/// longer. A fatal turn takes back its own record, or else the one that was held, and holds
/// none.
pub proof fn a_record_is_held_or_taken_back(
    current: Option<RoomId>,
    room: RoomId,
    dir: Direction,
    pending: Option<(RoomId, Direction)>,
)
    ensures
        rolled_back(pending, Some((room, dir)), false) is None,
        rolled_back(pending, None, false) is None,
        rolled_back(pending, Some((room, dir)), true) == Some((room, dir)),
        rolled_back(Some((room, dir)), None, true) == Some((room, dir)),
        rolled_back(None, None, true) is None,
        pending_after(current, pending, Some((room, dir)), false) == Some((room, dir)),
        pending_after(current, Some((room, dir)), None, false) == (if current == Some(room) {
            Some((room, dir))
        } else {
            None
        }),
        pending_after(current, None, None, false) is None,
        pending_after(current, pending, Some((room, dir)), true) is None,
        pending_after(current, pending, None, true) is None,
{
}

/// The echo of a movement command is the first line of the output that is not blank, where
/// that line is one word, or `go` and a word, and names a direction; a line further down
/// never is.
pub proof fn an_echo_is_the_first_line(transcript: Seq<char>, k: int)
    requires
        0 <= k < lines(transcript).len(),
        trim(lines(transcript)[k]).len() > 0,
        forall|i: int| 0 <= i < k ==> trim(#[trigger] lines(transcript)[i]).len() == 0,
    ensures
        ({
            let l = trim(lines(transcript)[k]);
            let w = words(l);
            let short = w.len() == 1 || w.len() == 2 && lower(w[0]) == seq!['g', 'o'];
            &&& echoed_move(transcript) == (if short && command_direction(l) is Some {
                Some(l)
            } else {
                None
            })
            &&& short_echo(transcript) == (if short {
                Some(l)
            } else {
                None
            })
        }),
{
    reveal_strlit("go");
    assert(lower("go"@) =~= seq!['g', 'o']);
    lemma_first_line(lines(transcript), k);
}

/// The first line that is not blank is the first of them.
proof fn lemma_first_line(ls: Seq<Seq<char>>, k: int)
    requires
        0 <= k < ls.len(),
        trim(ls[k]).len() > 0,
        forall|i: int| 0 <= i < k ==> trim(#[trigger] ls[i]).len() == 0,
    ensures
        first_line(ls) == Some(trim(ls[k])),
    decreases k,
{
    if k > 0 {
        assert(trim(ls[0]).len() == 0);
        assert forall|i: int| 0 <= i < k - 1 implies trim(#[trigger] ls.drop_first()[i]).len()
            == 0 by {
            assert(ls.drop_first()[i] == ls[i + 1]);
        }
        lemma_first_line(ls.drop_first(), k - 1);
    }
}

/// A transcript that speaks of a death and, anywhere before or behind, of coming back reports
/// a death.
pub proof fn an_offer_to_come_back_reports_a_death(
    a: Seq<char>,
    w: Seq<char>,
    b: Seq<char>,
    v: Seq<char>,
    c: Seq<char>,
)
    requires
        lower(w) == "killed"@ || lower(w) == "died"@ || lower(w) == "dead"@ || lower(w)
            == "your body"@,
        lower(v) == "reincarnate"@ || lower(v) == "resurrect"@,
    ensures
        reports_death(a + w + b + v + c),
        reports_death(a + v + b + w + c),
{
    lemma_piece_in(a, w, b + v + c);
    lemma_piece_in(a + w + b, v, c);
    assert(a + w + (b + v + c) =~= a + w + b + v + c);
    lemma_piece_in(a, v, b + w + c);
    lemma_piece_in(a + v + b, w, c);
    assert(a + v + (b + w + c) =~= a + v + b + w + c);
}

/// A piece of a text, in whatever case, is a piece of the text in lower case.
proof fn lemma_piece_in(a: Seq<char>, w: Seq<char>, b: Seq<char>)
    ensures
        contains(lower(a + w + b), lower(w)),
{
    assert(lower(a + w + b) =~= lower(a) + lower(w) + lower(b));
    a_text_contains_its_pieces(lower(a), lower(w), lower(b));
}

} // verus!
