//! The vocabulary of a two-word adventure.

use crate::restore::same_text;
use crate::text::{from_chars, is_ascii_alnum, slice_chars, string_views, to_chars, trim, trim_span};
use crate::titles::{to_lowercase, unicode_lower};
use vstd::prelude::*;

verus! {

/// What `char::is_alphanumeric` answers for a character.
pub uninterp spec fn unicode_alnum(c: char) -> bool;

/// `char::is_alphanumeric`: the answer is a function of the character, and of an ASCII
/// character it is whether the character is a letter or a digit.
#[verifier::external_body]
fn is_alphanumeric(c: char) -> (r: bool)
    ensures
        r == unicode_alnum(c),
        (c as u32) < 128 ==> r == is_ascii_alnum(c),
{
    c.is_alphanumeric()
}

/// A verb: its number, and its word with its synonyms behind it.
#[derive(Debug)]
pub struct ScottVerb {
    pub number: u32,
    pub words: Vec<String>,
}

/// A form that a command with a verb can have: the action that it calls for, and how many
/// nouns stand behind the verb.
#[derive(Clone, Copy, Debug, PartialEq, Eq, Structural)]
pub struct SyntaxLine {
    pub action: u16,
    /// Whether the nouns are handed to the action the other way round.
    pub reversed: bool,
    pub nouns: u8,
}

/// The forms of a command with a verb: the verb alone, and the verb with one noun. The
/// action of both is the number of the verb.
pub open spec fn syntax_lines(number: u32) -> Seq<SyntaxLine> {
    let action = (number % 0x1_0000) as u16;
    seq![
        SyntaxLine { action, reversed: false, nouns: 0 },
        SyntaxLine { action, reversed: false, nouns: 1 },
    ]
}

impl ScottVerb {
    /// The forms of a command with the verb.
    pub fn lines(&self) -> (r: Vec<SyntaxLine>)
        ensures
            r@ == syntax_lines(self.number),
    {
        let action: u16 = (self.number % 0x1_0000) as u16;
        let mut out: Vec<SyntaxLine> = Vec::new();
        out.push(SyntaxLine { action, reversed: false, nouns: 0 });
        out.push(SyntaxLine { action, reversed: false, nouns: 1 });
        out
    }
}

/// A word, and what it can be.
#[derive(Debug)]
pub struct WordRoles {
    pub word: String,
    pub verb: bool,
    pub noun: bool,
}

/// A vocabulary.
#[derive(Debug)]
pub struct ScottVocabulary {
    pub verbs: Vec<ScottVerb>,
    /// Every word once, in the order in which they were met.
    pub words: Vec<WordRoles>,
    /// How many characters of a word count; all of them for zero.
    pub key_len: usize,
}

/// The model of a list of verbs.
pub open spec fn verb_views(v: Seq<ScottVerb>) -> Seq<(u32, Seq<Seq<char>>)> {
    v.map_values(|w: ScottVerb| (w.number, string_views(w.words@)))
}

/// The model of a list of words.
pub open spec fn role_views(v: Seq<WordRoles>) -> Seq<(Seq<char>, bool, bool)> {
    v.map_values(|w: WordRoles| (w.word@, w.verb, w.noun))
}

/// An entry without the stars in front of it, and without white space at either end.
pub open spec fn bare_entry(e: Seq<char>) -> Seq<char>
    decreases e.len(),
{
    if e.len() > 0 && e[0] == '*' {
        bare_entry(e.drop_first())
    } else {
        trim(e)
    }
}

/// Whether an entry is a synonym of the one before it.
pub open spec fn is_synonym(e: Seq<char>) -> bool {
    e.len() > 0 && e[0] == '*'
}

/// The word of an entry.
pub open spec fn word_of(e: Seq<char>) -> Seq<char> {
    unicode_lower(bare_entry(e))
}

/// Whether a word is one that can be typed: a letter or a digit is in it.
pub open spec fn is_typable(w: Seq<char>) -> bool {
    exists|i: int| 0 <= i < w.len() && unicode_alnum(#[trigger] w[i])
}

/// Where a word is in a list; the length of the list if it is not.
pub open spec fn find_word(v: Seq<(Seq<char>, bool, bool)>, w: Seq<char>) -> int
    decreases v.len(),
{
    if v.len() == 0 || v[0].0 == w {
        0
    } else {
        1 + find_word(v.drop_first(), w)
    }
}

/// A list of words with one more use of a word.
pub open spec fn with_role(
    v: Seq<(Seq<char>, bool, bool)>,
    w: Seq<char>,
    as_verb: bool,
) -> Seq<(Seq<char>, bool, bool)> {
    let k = find_word(v, w);
    if k < v.len() {
        v.update(k, (w, v[k].1 || as_verb, v[k].2 || !as_verb))
    } else {
        v.push((w, as_verb, !as_verb))
    }
}

/// The verbs and words of the first `n` verbs. A synonym belongs to the nearest verb before
/// it; an entry that cannot be typed is a gap in the numbering and nothing else.
pub open spec fn verbs_read(lowered: Seq<Seq<char>>, entries: Seq<Seq<char>>, n: nat) -> (
    Seq<(u32, Seq<Seq<char>>)>,
    Seq<(Seq<char>, bool, bool)>,
)
    decreases n,
{
    if n == 0 {
        (seq![], seq![])
    } else {
        let before = verbs_read(lowered, entries, (n - 1) as nat);
        let w = lowered[n - 1];
        if !is_typable(w) {
            before
        } else if is_synonym(entries[n - 1]) {
            (
                if before.0.len() > 0 {
                    before.0.update(
                        before.0.len() - 1,
                        (before.0.last().0, before.0.last().1.push(w)),
                    )
                } else {
                    before.0
                },
                with_role(before.1, w, true),
            )
        } else {
            (before.0.push(((n - 1) as u32, seq![w])), with_role(before.1, w, true))
        }
    }
}

/// A list of words with the first `n` nouns.
pub open spec fn nouns_read(
    words: Seq<(Seq<char>, bool, bool)>,
    lowered: Seq<Seq<char>>,
    n: nat,
) -> Seq<(Seq<char>, bool, bool)>
    decreases n,
{
    if n == 0 {
        words
    } else {
        let before = nouns_read(words, lowered, (n - 1) as nat);
        if is_typable(lowered[n - 1]) {
            with_role(before, lowered[n - 1], false)
        } else {
            before
        }
    }
}

/// The words of a list of entries.
pub open spec fn words_of(entries: Seq<Seq<char>>) -> Seq<Seq<char>> {
    entries.map_values(|e: Seq<char>| word_of(e))
}

/// Takes the stars and the white space off an entry.
fn strip_entry(e: &str) -> (r: String)
    ensures
        r@ == bare_entry(e@),
{
    let v: Vec<char> = to_chars(e);
    let mut at: usize = 0;
    assert(v@.skip(0) =~= v@);
    while at < v.len() && v[at] == '*'
        invariant
            at <= v@.len(),
            v@ == e@,
            bare_entry(v@.skip(at as int)) == bare_entry(e@),
        decreases v.len() - at,
    {
        assert(v@.skip(at as int)[0] == '*');
        assert(v@.skip(at as int).drop_first() =~= v@.skip(at + 1));
        at = at + 1;
    }
    if at < v.len() {
        assert(v@.skip(at as int)[0] == v@[at as int]);
    }
    let rest: Vec<char> = slice_chars(v.as_slice(), at, v.len());
    assert(rest@ =~= v@.skip(at as int));
    let span: (usize, usize) = trim_span(rest.as_slice());
    from_chars(slice_chars(rest.as_slice(), span.0, span.1).as_slice())
}

/// Tests whether a word can be typed.
fn typable(w: &str) -> (r: bool)
    ensures
        r == is_typable(w@),
{
    let v: Vec<char> = to_chars(w);
    let mut i: usize = 0;
    while i < v.len()
        invariant
            i <= v@.len(),
            v@ == w@,
            forall|j: int| 0 <= j < i ==> !unicode_alnum(#[trigger] v@[j]),
        decreases v.len() - i,
    {
        if is_alphanumeric(v[i]) {
            assert(unicode_alnum(w@[i as int]));
            return true;
        }
        i = i + 1;
    }
    false
}

/// Tests whether an entry is a synonym.
fn synonym(e: &str) -> (r: bool)
    ensures
        r == is_synonym(e@),
{
    let v: Vec<char> = to_chars(e);
    v.len() > 0 && v[0] == '*'
}

/// Where a word is in a list is the first place with it.
proof fn lemma_find_word(v: Seq<(Seq<char>, bool, bool)>, w: Seq<char>, k: int)
    requires
        0 <= k <= v.len(),
        k < v.len() ==> v[k].0 == w,
        forall|i: int| 0 <= i < k ==> (#[trigger] v[i]).0 != w,
    ensures
        find_word(v, w) == k,
    decreases k,
{
    if k > 0 {
        assert(v[0].0 != w);
        assert forall|i: int| 0 <= i < k - 1 implies (#[trigger] v.drop_first()[i]).0 != w by {
            assert(v.drop_first()[i] == v[i + 1]);
        }
        lemma_find_word(v.drop_first(), w, k - 1);
    }
}

/// Adds a use of a word to a list.
fn add_role(words: &mut Vec<WordRoles>, w: &str, as_verb: bool)
    ensures
        role_views(final(words)@) == with_role(role_views(old(words)@), w@, as_verb),
{
    let ghost views = role_views(words@);
    let mut i: usize = 0;
    while i < words.len() && !same_text(words[i].word.as_str(), w)
        invariant
            i <= words@.len(),
            words@ == old(words)@,
            views == role_views(words@),
            forall|j: int| 0 <= j < i ==> (#[trigger] views[j]).0 != w@,
        decreases words.len() - i,
    {
        assert(views[i as int].0 == words@[i as int].word@);
        i = i + 1;
    }
    proof {
        if i < words@.len() {
            assert(views[i as int].0 == w@);
        }
        lemma_find_word(views, w@, i as int);
    }
    if i < words.len() {
        if as_verb {
            words[i].verb = true;
        } else {
            words[i].noun = true;
        }
        assert(role_views(words@) =~= with_role(views, w@, as_verb));
    } else {
        words.push(WordRoles { word: w.to_owned(), verb: as_verb, noun: !as_verb });
        assert(role_views(words@) =~= with_role(views, w@, as_verb));
    }
}

/// Lower-cases the words of a list of entries.
fn lower_entries(entries: &Vec<String>) -> (r: Vec<String>)
    ensures
        string_views(r@) == words_of(string_views(entries@)),
{
    let mut out: Vec<String> = Vec::new();
    let mut i: usize = 0;
    while i < entries.len()
        invariant
            i <= entries@.len(),
            out@.len() == i,
            forall|j: int| 0 <= j < i ==> (#[trigger] out@[j])@ == word_of(entries@[j]@),
        decreases entries.len() - i,
    {
        out.push(to_lowercase(strip_entry(entries[i].as_str()).as_str()));
        i = i + 1;
    }
    assert(string_views(out@) =~= words_of(string_views(entries@)));
    out
}

/// Reads a vocabulary from its entries and their words in lower case.
pub fn vocabulary_of(
    verbs: &Vec<String>,
    verb_words: &Vec<String>,
    noun_words: &Vec<String>,
    word_length: usize,
) -> (r: ScottVocabulary)
    requires
        verb_words@.len() == verbs@.len(),
        verbs@.len() <= u32::MAX,
    ensures
        verb_views(r.verbs@) == verbs_read(
            string_views(verb_words@),
            string_views(verbs@),
            verbs@.len(),
        ).0,
        role_views(r.words@) == nouns_read(
            verbs_read(string_views(verb_words@), string_views(verbs@), verbs@.len()).1,
            string_views(noun_words@),
            noun_words@.len(),
        ),
        each_word_once(role_views(r.words@)),
        r.key_len == word_length,
{
    let ghost lowered = string_views(verb_words@);
    let ghost entries = string_views(verbs@);
    let mut out: Vec<ScottVerb> = Vec::new();
    let mut words: Vec<WordRoles> = Vec::new();
    let mut i: usize = 0;
    assert(verb_views(out@) =~= seq![]);
    assert(role_views(words@) =~= seq![]);
    while i < verbs.len()
        invariant
            i <= verbs@.len(),
            verb_words@.len() == verbs@.len(),
            verbs@.len() <= u32::MAX,
            lowered == string_views(verb_words@),
            entries == string_views(verbs@),
            (verb_views(out@), role_views(words@)) == verbs_read(lowered, entries, i as nat),
        decreases verbs.len() - i,
    {
        let ghost out0 = out@;
        let w: &str = verb_words[i].as_str();
        assert(lowered[i as int] == w@);
        assert(entries[i as int] == verbs@[i as int]@);
        if typable(w) {
            add_role(&mut words, w, true);
            if synonym(verbs[i].as_str()) {
                let n: usize = out.len();
                if n > 0 {
                    let mut last: ScottVerb = out.remove(n - 1);
                    let ghost last0 = last;
                    last.words.push(w.to_owned());
                    assert(string_views(last.words@) =~= string_views(last0.words@).push(w@));
                    out.push(last);
                    assert(verb_views(out@) =~= verb_views(out0).update(
                        n - 1,
                        (last0.number, string_views(last0.words@).push(w@)),
                    ));
                }
            } else {
                let mut list: Vec<String> = Vec::new();
                list.push(w.to_owned());
                assert(string_views(list@) =~= seq![w@]);
                out.push(ScottVerb { number: i as u32, words: list });
                assert(verb_views(out@) =~= verb_views(out0).push((i as u32, seq![w@])));
            }
        }
        i = i + 1;
    }
    let ghost read = role_views(words@);
    let ghost nouns = string_views(noun_words@);
    let mut k: usize = 0;
    while k < noun_words.len()
        invariant
            k <= noun_words@.len(),
            nouns == string_views(noun_words@),
            role_views(words@) == nouns_read(read, nouns, k as nat),
        decreases noun_words.len() - k,
    {
        let w: &str = noun_words[k].as_str();
        assert(nouns[k as int] == w@);
        if typable(w) {
            add_role(&mut words, w, false);
        }
        k = k + 1;
    }
    proof {
        a_word_is_listed_once(lowered, entries, nouns, verbs@.len(), noun_words@.len());
    }
    ScottVocabulary { verbs: out, words, key_len: word_length }
}

/// Reads a vocabulary from the lists of verbs and nouns of a game. A star in front of an
/// entry makes it a synonym of the one before it, and an entry without a letter or a digit
/// is no word.
pub fn story_vocabulary(verbs: &Vec<String>, nouns: &Vec<String>, word_length: usize) -> (r:
    ScottVocabulary)
    requires
        verbs@.len() <= u32::MAX,
    ensures
        ({
            let v = string_views(verbs@);
            let n = string_views(nouns@);
            let read = verbs_read(words_of(v), v, verbs@.len());
            &&& verb_views(r.verbs@) == read.0
            &&& role_views(r.words@) == nouns_read(read.1, words_of(n), nouns@.len())
            &&& each_word_once(role_views(r.words@))
            &&& r.key_len == word_length
        }),
{
    let verb_words: Vec<String> = lower_entries(verbs);
    let noun_words: Vec<String> = lower_entries(nouns);
    assert(string_views(verb_words@).len() == verb_words@.len());
    assert(string_views(noun_words@).len() == noun_words@.len());
    vocabulary_of(verbs, &verb_words, &noun_words, word_length)
}

// ── Laws ──────────────────────────────────────────────────────────────────────
/// Whether no word is in a list twice.
pub open spec fn each_word_once(v: Seq<(Seq<char>, bool, bool)>) -> bool {
    forall|i: int, j: int| 0 <= i < j < v.len() ==> (#[trigger] v[i]).0 != (#[trigger] v[j]).0
}

/// A word is where it is found; one that is not found is nowhere.
proof fn lemma_found(v: Seq<(Seq<char>, bool, bool)>, w: Seq<char>)
    ensures
        0 <= find_word(v, w) <= v.len(),
        find_word(v, w) < v.len() ==> v[find_word(v, w)].0 == w,
        find_word(v, w) == v.len() ==> forall|i: int| 0 <= i < v.len() ==> (#[trigger] v[i]).0 != w,
    decreases v.len(),
{
    if v.len() > 0 && v[0].0 != w {
        let t = v.drop_first();
        lemma_found(t, w);
        if find_word(v, w) == v.len() {
            assert forall|i: int| 0 <= i < v.len() implies (#[trigger] v[i]).0 != w by {
                if i > 0 {
                    assert(t[i - 1] == v[i]);
                }
            }
        }
    }
}

/// One more use of a word puts no word into a list twice.
proof fn lemma_with_role(v: Seq<(Seq<char>, bool, bool)>, w: Seq<char>, as_verb: bool)
    requires
        each_word_once(v),
    ensures
        each_word_once(with_role(v, w, as_verb)),
{
    lemma_found(v, w);
    let r = with_role(v, w, as_verb);
    assert forall|i: int, j: int| 0 <= i < j < r.len() implies (#[trigger] r[i]).0 != (
    #[trigger] r[j]).0 by {
        if j < v.len() {
            assert(v[i].0 != v[j].0);
        }
    }
}

/// A vocabulary lists every word once, whatever it can be and however often it is entered.
pub proof fn a_word_is_listed_once(
    verb_words: Seq<Seq<char>>,
    entries: Seq<Seq<char>>,
    noun_words: Seq<Seq<char>>,
    n: nat,
    k: nat,
)
    ensures
        each_word_once(nouns_read(verbs_read(verb_words, entries, n).1, noun_words, k)),
    decreases n + k,
{
    if k > 0 {
        a_word_is_listed_once(verb_words, entries, noun_words, n, (k - 1) as nat);
        let before = nouns_read(
            verbs_read(verb_words, entries, n).1,
            noun_words,
            (k - 1) as nat,
        );
        lemma_with_role(before, noun_words[k - 1], false);
    } else if n > 0 {
        a_word_is_listed_once(verb_words, entries, noun_words, (n - 1) as nat, 0);
        let before = verbs_read(verb_words, entries, (n - 1) as nat).1;
        assert(nouns_read(before, noun_words, 0) == before);
        lemma_with_role(before, verb_words[n - 1], true);
    }
}

/// Every verb has a word.
pub proof fn every_verb_has_a_word(lowered: Seq<Seq<char>>, entries: Seq<Seq<char>>, n: nat)
    ensures
        forall|i: int|
            0 <= i < verbs_read(lowered, entries, n).0.len() ==> (#[trigger] verbs_read(
                lowered,
                entries,
                n,
            ).0[i]).1.len() > 0,
    decreases n,
{
    if n > 0 {
        every_verb_has_a_word(lowered, entries, (n - 1) as nat);
        let before = verbs_read(lowered, entries, (n - 1) as nat).0;
        let now = verbs_read(lowered, entries, n).0;
        assert forall|i: int| 0 <= i < now.len() implies (#[trigger] now[i]).1.len() > 0 by {
            if i < before.len() {
                assert(before[i].1.len() > 0);
            }
        }
    }
}

/// The forms of a command with a verb call for the action that the verb is numbered by: the
/// verb alone, and then the verb with one noun, as it stands.
pub proof fn a_verb_stands_alone_or_with_a_noun(number: u32)
    requires
        number <= 0xffff,
    ensures
        syntax_lines(number).len() == 2,
        forall|i: int|
            0 <= i < 2 ==> (#[trigger] syntax_lines(number)[i]).action == number && syntax_lines(
                number,
            )[i].nouns == i && !syntax_lines(number)[i].reversed,
{
}

/// The stars in front of an entry mark it as a synonym and are no part of its word.
pub proof fn stars_are_no_part_of_a_word(stars: Seq<char>, e: Seq<char>)
    requires
        forall|i: int| 0 <= i < stars.len() ==> #[trigger] stars[i] == '*',
        e.len() > 0 ==> e[0] != '*',
    ensures
        bare_entry(stars + e) == trim(e),
        is_synonym(stars + e) <==> stars.len() > 0,
    decreases stars.len(),
{
    let s = stars + e;
    if stars.len() > 0 {
        assert(s[0] == stars[0]);
        let more = stars.drop_first();
        assert forall|i: int| 0 <= i < more.len() implies #[trigger] more[i] == '*' by {
            assert(more[i] == stars[i + 1]);
        }
        assert(s.drop_first() =~= more + e);
        stars_are_no_part_of_a_word(more, e);
    } else {
        assert(s =~= e);
    }
}

/// Whether a list holds a word with a role.
pub open spec fn has_role(v: Seq<(Seq<char>, bool, bool)>, w: Seq<char>, as_verb: bool) -> bool {
    exists|i: int|
        0 <= i < v.len() && (#[trigger] v[i]).0 == w && (if as_verb {
            v[i].1
        } else {
            v[i].2
        })
}

/// One more use of a word adds that role to that word and changes no other role.
proof fn lemma_role_added(
    v: Seq<(Seq<char>, bool, bool)>,
    w: Seq<char>,
    as_verb: bool,
    x: Seq<char>,
    role: bool,
)
    requires
        each_word_once(v),
    ensures
        has_role(with_role(v, w, as_verb), x, role) <==> has_role(v, x, role) || x == w && role
            == as_verb,
{
    lemma_found(v, w);
    let k = find_word(v, w);
    let n = with_role(v, w, as_verb);
    if has_role(v, x, role) {
        let i = choose|i: int|
            0 <= i < v.len() && (#[trigger] v[i]).0 == x && (if role {
                v[i].1
            } else {
                v[i].2
            });
        assert(n[i].0 == x);
    }
    if x == w && role == as_verb {
        if k < v.len() {
            assert(n[k].0 == w);
        } else {
            assert(n[v.len() as int].0 == w);
        }
    }
    if has_role(n, x, role) {
        let i = choose|i: int|
            0 <= i < n.len() && (#[trigger] n[i]).0 == x && (if role {
                n[i].1
            } else {
                n[i].2
            });
        if i < v.len() && i != k {
            assert(v[i] == n[i]);
        } else if k < v.len() && i == k {
            if !(role == as_verb) {
                assert(v[k].0 == x);
            }
        }
    }
}

/// The roles of a word are those that it is listed under: it can be a verb exactly where it is
/// the word of a verb entry that can be typed, and a noun exactly where it is that of a noun
/// entry.
pub proof fn a_word_can_be_what_it_is_listed_as(
    verb_words: Seq<Seq<char>>,
    entries: Seq<Seq<char>>,
    noun_words: Seq<Seq<char>>,
    n: nat,
    k: nat,
    w: Seq<char>,
)
    requires
        n <= verb_words.len(),
        k <= noun_words.len(),
    ensures
        ({
            let v = nouns_read(verbs_read(verb_words, entries, n).1, noun_words, k);
            &&& has_role(v, w, true) <==> is_typable(w) && exists|i: int|
                0 <= i < n && #[trigger] verb_words[i] == w
            &&& has_role(v, w, false) <==> is_typable(w) && exists|i: int|
                0 <= i < k && #[trigger] noun_words[i] == w
        }),
    decreases n + k,
{
    let v = nouns_read(verbs_read(verb_words, entries, n).1, noun_words, k);
    if k > 0 {
        a_word_can_be_what_it_is_listed_as(
            verb_words,
            entries,
            noun_words,
            n,
            (k - 1) as nat,
            w,
        );
        a_word_is_listed_once(verb_words, entries, noun_words, n, (k - 1) as nat);
        let before = nouns_read(
            verbs_read(verb_words, entries, n).1,
            noun_words,
            (k - 1) as nat,
        );
        if is_typable(noun_words[k - 1]) {
            lemma_role_added(before, noun_words[k - 1], false, w, true);
            lemma_role_added(before, noun_words[k - 1], false, w, false);
        }
        if exists|i: int| 0 <= i < k - 1 && #[trigger] noun_words[i] == w {
            let i = choose|i: int| 0 <= i < k - 1 && #[trigger] noun_words[i] == w;
            assert(0 <= i < k && noun_words[i] == w);
        }
        if exists|i: int| 0 <= i < k && #[trigger] noun_words[i] == w {
            let i = choose|i: int| 0 <= i < k && #[trigger] noun_words[i] == w;
            assert(i == k - 1 || 0 <= i < k - 1);
        }
    } else if n > 0 {
        a_word_can_be_what_it_is_listed_as(
            verb_words,
            entries,
            noun_words,
            (n - 1) as nat,
            0,
            w,
        );
        a_word_is_listed_once(verb_words, entries, noun_words, (n - 1) as nat, 0);
        let before = verbs_read(verb_words, entries, (n - 1) as nat).1;
        assert(nouns_read(before, noun_words, 0) == before);
        assert(v == verbs_read(verb_words, entries, n).1);
        if is_typable(verb_words[n - 1]) {
            lemma_role_added(before, verb_words[n - 1], true, w, true);
            lemma_role_added(before, verb_words[n - 1], true, w, false);
        }
        if exists|i: int| 0 <= i < n - 1 && #[trigger] verb_words[i] == w {
            let i = choose|i: int| 0 <= i < n - 1 && #[trigger] verb_words[i] == w;
            assert(0 <= i < n && verb_words[i] == w);
        }
        if exists|i: int| 0 <= i < n && #[trigger] verb_words[i] == w {
            let i = choose|i: int| 0 <= i < n && #[trigger] verb_words[i] == w;
            assert(i == n - 1 || 0 <= i < n - 1);
        }
    } else {
        assert(v =~= seq![]);
    }
}

/// A verb is numbered by its place among the entries, and its own word comes first; a synonym
/// is a further word of the verb right before it, and has no number.
///
/// The result is the place of the verb among the verbs.
pub proof fn a_verb_is_numbered_by_its_entry(
    lowered: Seq<Seq<char>>,
    entries: Seq<Seq<char>>,
    n: nat,
    i: int,
) -> (k: int)
    requires
        n <= lowered.len(),
        n <= u32::MAX,
        0 <= i < n,
        is_typable(lowered[i]),
        !is_synonym(entries[i]),
    ensures
        ({
            let v = verbs_read(lowered, entries, n).0;
            &&& 0 <= k < v.len()
            &&& v[k].0 == i
            &&& v[k].1.len() > 0
            &&& v[k].1[0] == lowered[i]
            &&& i == n - 1 ==> k == v.len() - 1 && v[k].1.len() == 1
            &&& i < n - 1 && is_typable(lowered[n - 1]) && is_synonym(entries[n - 1]) ==> v.last().1.len()
                > 0 && v.last().1.last() == lowered[n - 1]
        }),
    decreases n,
{
    let v = verbs_read(lowered, entries, n).0;
    if i == n - 1 {
        v.len() - 1
    } else {
        let before = verbs_read(lowered, entries, (n - 1) as nat).0;
        let k = a_verb_is_numbered_by_its_entry(lowered, entries, (n - 1) as nat, i);
        if is_typable(lowered[n - 1]) && is_synonym(entries[n - 1]) {
            assert(v[k].1.len() > 0);
            if k == before.len() - 1 {
                assert(v[k].1 == before[k].1.push(lowered[n - 1]));
                assert(v[k].1[0] == before[k].1[0]);
            }
        }
        k
    }
}

} // verus!
