//! What the story pane calls the game: the title found in its opening banner, and the
//! title shown beside the name of its file.

use crate::text::{
    ascii_lower, char_to_lower, chars_contain, contains, from_chars, is_ascii_alnum,
    lemma_trim_start_at, line_views, lines, lower, opt_str_view, opt_view, same_chars, slice_chars,
    split_lines, string_views, to_chars, trim, trim_span, trim_start_by,
};
use vstd::prelude::*;

verus! {

// ── The banner ────────────────────────────────────────────────────────────────
/// What `str::to_lowercase` makes of a text: its Unicode lower case.
pub uninterp spec fn unicode_lower(s: Seq<char>) -> Seq<char>;

/// Whether a text is made of ASCII characters.
pub open spec fn all_ascii(s: Seq<char>) -> bool {
    forall|i: int| 0 <= i < s.len() ==> (#[trigger] s[i] as u32) < 128
}

/// `str::to_lowercase`: the result is a function of the text alone, and of an ASCII text it
/// is the text with its letters folded.
#[verifier::external_body]
pub(crate) fn to_lowercase(s: &str) -> (r: String)
    ensures
        r@ == unicode_lower(s@),
        all_ascii(s@) ==> r@ == lower(s@),
{
    s.to_lowercase()
}

/// Whether a line, already in lower case, holds one of the phrases that open the small
/// print of a banner.
pub open spec fn is_small_print(l: Seq<char>) -> bool {
    ||| contains(l, "copyright"@)
    ||| contains(l, "interactive fiction"@)
    ||| contains(l, "interactive fantasy"@)
    ||| contains(l, "serial number"@)
    ||| contains(l, "trademark"@)
}

/// Whether a line is a run of prompt marks with nothing but white space behind it.
pub open spec fn is_bare_prompt(l: Seq<char>) -> bool {
    l.len() > 0 && l[0] == '>' && trim(trim_start_by(l, |c: char| c == '>')).len() == 0
}

/// Whether a trimmed line of the banner counts when the title is looked for.
pub open spec fn is_banner_line(l: Seq<char>) -> bool {
    l.len() > 0 && !is_bare_prompt(l)
}

/// The lines of a banner that count: trimmed, without blank ones and bare prompts.
pub open spec fn banner_lines(s: Seq<char>) -> Seq<Seq<char>> {
    lines(s).map_values(|l: Seq<char>| trim(l)).filter(|l: Seq<char>| is_banner_line(l))
}

/// The index of the first line of small print among lines in lower case; the number of
/// lines if there is none.
pub open spec fn first_small_print(lowered: Seq<Seq<char>>) -> int
    decreases lowered.len(),
{
    if lowered.len() == 0 || is_small_print(lowered[0]) {
        0
    } else {
        1 + first_small_print(lowered.drop_first())
    }
}

/// The longest title shown, in characters.
pub const TITLE_MAX: usize = 40;

/// The head of a text, of at most `n` characters.
pub open spec fn at_most(s: Seq<char>, n: int) -> Seq<char> {
    if s.len() <= n {
        s
    } else {
        s.take(n)
    }
}

/// The title among the lines of a banner, given the same lines in lower case: the line
/// above the first line of small print.
pub open spec fn title_above(kept: Seq<Seq<char>>, lowered: Seq<Seq<char>>) -> Option<Seq<char>> {
    let k = first_small_print(lowered);
    if 0 < k < kept.len() {
        Some(at_most(kept[k - 1], TITLE_MAX as int))
    } else {
        None
    }
}

/// Tests whether a line in lower case holds a phrase of small print.
pub fn small_print(l: &[char]) -> (r: bool)
    ensures
        r == is_small_print(l@),
{
    chars_contain(l, "copyright") || chars_contain(l, "interactive fiction") || chars_contain(
        l,
        "interactive fantasy",
    ) || chars_contain(l, "serial number") || chars_contain(l, "trademark")
}

/// Tests whether a line is a bare prompt.
fn bare_prompt(l: &[char]) -> (r: bool)
    ensures
        r == is_bare_prompt(l@),
{
    if l.len() == 0 || l[0] != '>' {
        return false;
    }
    let mut n: usize = 0;
    while n < l.len() && l[n] == '>'
        invariant
            n <= l@.len(),
            forall|i: int| 0 <= i < n ==> #[trigger] l@[i] == '>',
        decreases l.len() - n,
    {
        n = n + 1;
    }
    proof {
        let p = |c: char| c == '>';
        assert forall|i: int| 0 <= i < n implies p(#[trigger] l@[i]) by {}
        lemma_trim_start_at(l@, p, n as int);
    }
    let rest: Vec<char> = slice_chars(l, n, l.len());
    assert(rest@ =~= l@.skip(n as int));
    let span = trim_span(&rest);
    span.0 == span.1
}

/// Collects the lines of a banner that count.
pub fn collect_banner_lines(intro_text: &str) -> (r: Vec<Vec<char>>)
    ensures
        line_views(r@) == banner_lines(intro_text@),
{
    let all: Vec<Vec<char>> = split_lines(&to_chars(intro_text));
    let ghost trimmed = lines(intro_text@).map_values(|l: Seq<char>| trim(l));
    let ghost p = |l: Seq<char>| is_banner_line(l);
    let mut r: Vec<Vec<char>> = Vec::new();
    let mut i: usize = 0;
    assert(line_views(r@) =~= trimmed.take(0).filter(p)) by {
        reveal(Seq::filter);
    }
    while i < all.len()
        invariant
            i <= all@.len(),
            line_views(all@) == lines(intro_text@),
            trimmed == lines(intro_text@).map_values(|l: Seq<char>| trim(l)),
            p == (|l: Seq<char>| is_banner_line(l)),
            line_views(r@) == trimmed.take(i as int).filter(p),
        decreases all.len() - i,
    {
        let span = trim_span(&all[i]);
        let line: Vec<char> = slice_chars(&all[i], span.0, span.1);
        proof {
            assert(line_views(all@)[i as int] == all@[i as int]@);
            assert(line@ == trimmed[i as int]);
            assert(trimmed.take(i + 1).drop_last() =~= trimmed.take(i as int));
            reveal(Seq::filter);
        }
        let ghost before = r@;
        if line.len() > 0 && !bare_prompt(&line) {
            r.push(line);
            assert(line_views(r@) =~= line_views(before).push(line@));
        }
        i = i + 1;
    }
    assert(trimmed.take(i as int) =~= trimmed);
    r
}

/// Finds the title among the lines of a banner, given the same lines in lower case: the
/// line above the first line of small print, cut to [`TITLE_MAX`] characters. There is
/// none when the banner opens with small print, or holds none.
pub fn title_above_small_print(kept: &Vec<Vec<char>>, lowered: &Vec<String>) -> (r: Option<String>)
    requires
        kept@.len() == lowered@.len(),
    ensures
        opt_view(r) == title_above(line_views(kept@), string_views(lowered@)),
{
    let ghost all = string_views(lowered@);
    let mut k: usize = 0;
    assert(all.skip(0) =~= all);
    while k < lowered.len()
        invariant_except_break
            all == string_views(lowered@),
            k <= lowered@.len(),
            first_small_print(all) == k + first_small_print(all.skip(k as int)),
        ensures
            k <= lowered@.len(),
            k == first_small_print(all),
        decreases lowered.len() - k,
    {
        let l: Vec<char> = to_chars(lowered[k].as_str());
        assert(all.skip(k as int)[0] == l@);
        if small_print(&l) {
            break;
        }
        assert(all.skip(k as int).drop_first() =~= all.skip(k + 1));
        k = k + 1;
    }
    if k == 0 || k == lowered.len() {
        return None;
    }
    let above: &Vec<char> = &kept[k - 1];
    assert(line_views(kept@)[k - 1] == above@);
    let n: usize = if above.len() <= TITLE_MAX {
        above.len()
    } else {
        TITLE_MAX
    };
    let cut: Vec<char> = slice_chars(above, 0, n);
    assert(cut@ =~= at_most(above@, TITLE_MAX as int));
    Some(from_chars(&cut))
}

/// Extracts the adventure title from the opening banner: the line above the first line
/// that looks like copyright, genre, serial-number or trademark text.
pub fn title_from_banner(intro_text: &str) -> (r: Option<String>)
    ensures
        opt_view(r) == title_above(
            banner_lines(intro_text@),
            banner_lines(intro_text@).map_values(|l: Seq<char>| unicode_lower(l)),
        ),
{
    let kept: Vec<Vec<char>> = collect_banner_lines(intro_text);
    let mut lowered: Vec<String> = Vec::new();
    let mut i: usize = 0;
    while i < kept.len()
        invariant
            i <= kept@.len(),
            lowered@.len() == i,
            forall|j: int| 0 <= j < i ==> (#[trigger] lowered@[j])@ == unicode_lower(kept@[j]@),
        decreases kept.len() - i,
    {
        let line: String = from_chars(&kept[i]);
        lowered.push(to_lowercase(line.as_str()));
        i = i + 1;
    }
    assert(string_views(lowered@) =~= banner_lines(intro_text@).map_values(
        |l: Seq<char>| unicode_lower(l),
    ));
    title_above_small_print(&kept, &lowered)
}

// ── The file's name ───────────────────────────────────────────────────────────
/// Where the part of a path behind its last slash begins.
pub open spec fn last_part_start(p: Seq<char>) -> int
    decreases p.len(),
{
    if p.len() == 0 || p.last() == '/' {
        p.len() as int
    } else {
        last_part_start(p.drop_last())
    }
}

/// The part of a path behind its last slash.
pub open spec fn last_part(p: Seq<char>) -> Seq<char> {
    p.skip(last_part_start(p))
}

/// A path without the slashes at its end, and without the parts at its end that are a dot
/// alone and stand behind a slash.
pub open spec fn trimmed_path(p: Seq<char>) -> Seq<char>
    decreases p.len(),
{
    if p.len() > 0 && p.last() == '/' {
        trimmed_path(p.drop_last())
    } else if p.len() >= 2 && p.last() == '.' && p[p.len() - 2] == '/' {
        trimmed_path(p.drop_last())
    } else {
        p
    }
}

/// A path that every platform takes apart alike: it holds no backslash, does not open with
/// two slashes, and does not open with a drive, which is a letter and a colon.
pub open spec fn is_plain_path(p: Seq<char>) -> bool {
    &&& !p.contains('\\')
    &&& !(p.len() >= 2 && p[0] == '/' && p[1] == '/')
    &&& !(p.len() >= 2 && p[1] == ':' && ('a' <= p[0] <= 'z' || 'A' <= p[0] <= 'Z'))
}

/// The stem of the name at the end of a path. There is none at the end of a path that is
/// empty or a root alone, or that ends in the directory itself or the one above.
pub open spec fn path_stem(p: Seq<char>) -> Option<Seq<char>> {
    let name = last_part(trimmed_path(p));
    if name.len() == 0 || name == seq!['.'] || name == seq!['.', '.'] {
        None
    } else {
        Some(stem_of(name))
    }
}

/// A stem, or a text in its place where there is none.
pub open spec fn stem_or(stem: Option<Seq<char>>, other: Seq<char>) -> Seq<char> {
    match stem {
        Some(s) => s,
        None => other,
    }
}

/// The name of a file without its extension: what stands before the last dot, or the
/// whole name when it holds no dot but perhaps a leading one.
pub open spec fn stem_of(f: Seq<char>) -> Seq<char> {
    let k = last_dot(f);
    if k <= 0 {
        f
    } else {
        f.take(k)
    }
}

/// The index of the last dot in a name; -1 if there is none.
pub open spec fn last_dot(f: Seq<char>) -> int
    decreases f.len(),
{
    if f.len() == 0 {
        -1
    } else if f.last() == '.' {
        f.len() - 1
    } else {
        last_dot(f.drop_last())
    }
}

/// `Path::file_stem`, with `OsStr::to_str`: the stem of the name at the end of a plain path,
/// or nothing where it ends in none. Slashes and single dots at the end do not count. Of any
/// other path the result rests on the platform's rules for paths, and nothing is said of it.
#[verifier::external_body]
fn file_stem(path: &str) -> (r: Option<String>)
    ensures
        is_plain_path(path@) ==> opt_view(r) == path_stem(path@),
{
    std::path::Path::new(path).file_stem().and_then(|s| s.to_str()).map(|s| s.to_owned())
}

/// A text reduced to its ASCII letters and digits, in lower case.
pub open spec fn ident(s: Seq<char>) -> Seq<char>
    decreases s.len(),
{
    if s.len() == 0 {
        seq![]
    } else if is_ascii_alnum(s.last()) {
        ident(s.drop_last()).push(ascii_lower(s.last()))
    } else {
        ident(s.drop_last())
    }
}

/// Reduces a text to its ASCII letters and digits, in lower case, so that names can be
/// compared without regard to case and punctuation.
pub fn normalize_ident(s: &str) -> (r: String)
    ensures
        r@ == ident(s@),
{
    let v: Vec<char> = to_chars(s);
    let mut r: String = String::new();
    let mut i: usize = 0;
    while i < v.len()
        invariant
            i <= v@.len(),
            r@ == ident(v@.take(i as int)),
        decreases v.len() - i,
    {
        let c: char = v[i];
        assert(v@.take(i + 1).drop_last() =~= v@.take(i as int));
        if ('a' <= c && c <= 'z') || ('A' <= c && c <= 'Z') || ('0' <= c && c <= '9') {
            r.push(char_to_lower(c));
        }
        i = i + 1;
    }
    assert(v@.take(i as int) =~= v@);
    r
}

/// A name with the file it came from in brackets.
pub open spec fn with_filename(name: Seq<char>, filename: Seq<char>) -> Seq<char> {
    name + " ("@ + filename + ")"@
}

/// The title of the story pane, given the stem of the file's name.
pub open spec fn pane_title(
    name: Seq<char>,
    filename: Seq<char>,
    stem: Seq<char>,
    disk_image: bool,
) -> Seq<char> {
    if name.len() == 0 {
        filename
    } else if !disk_image && ident(name) == ident(stem) {
        name
    } else {
        with_filename(name, filename)
    }
}

/// Formats the title of the story pane from the game's name, the name of its file and the
/// stem of that name.
pub fn pane_title_with_stem(name: &str, filename: &str, stem: &str, disk_image: bool) -> (r: String)
    ensures
        r@ == pane_title(name@, filename@, stem@, disk_image),
{
    if name.is_empty() {
        return filename.to_owned();
    }
    if !disk_image {
        let a: Vec<char> = to_chars(normalize_ident(name).as_str());
        let b: Vec<char> = to_chars(normalize_ident(stem).as_str());
        if same_chars(&a, &b) {
            return name.to_owned();
        }
    }
    let mut r: String = name.to_owned();
    r.append(" (");
    r.append(filename);
    r.append(")");
    r
}

/// Formats the title of the story pane: the name alone, or the name with the file's name
/// in brackets where the two differ, where they are compared by [`normalize_ident`] and
/// without the file's extension. A disk image is always named, since it carries a release
/// of its own. A game without a name is shown by its file alone. A file's name that ends in
/// no stem is compared as it stands.
pub fn format_pane_title(name: &str, filename: &str, disk_image: bool) -> (r: String)
    ensures
        is_plain_path(filename@) ==> r@ == pane_title(
            name@,
            filename@,
            stem_or(path_stem(filename@), filename@),
            disk_image,
        ),
        name@.len() == 0 ==> r@ == filename@,
        name@.len() > 0 && disk_image ==> r@ == with_filename(name@, filename@),
        exists|stem: Seq<char>| r@ == #[trigger] pane_title(name@, filename@, stem, disk_image),
{
    match file_stem(filename) {
        Some(stem) => pane_title_with_stem(name, filename, stem.as_str(), disk_image),
        None => pane_title_with_stem(name, filename, filename, disk_image),
    }
}

/// The title that comes first in a list of candidates.
pub open spec fn first_title(
    override_name: Option<Seq<char>>,
    metadata: Option<Seq<char>>,
    banner: Option<Seq<char>>,
    stem: Seq<char>,
) -> Seq<char> {
    match (override_name, metadata, banner) {
        (Some(n), _, _) => n,
        (None, Some(m), _) => m,
        (None, None, Some(b)) => b,
        (None, None, None) => stem,
    }
}

/// Resolves the adventure's title: the player's own name for it, then what metadata says,
/// then what the boot banner says, then the stem of the story file. A path that ends in no
/// stem gives an empty title.
pub fn resolve_title(
    override_name: Option<&str>,
    metadata: Option<&str>,
    banner: Option<&str>,
    story_path: &str,
) -> (r: String)
    ensures
        is_plain_path(story_path@) ==> r@ == first_title(
            opt_str_view(override_name),
            opt_str_view(metadata),
            opt_str_view(banner),
            stem_or(path_stem(story_path@), seq![]),
        ),
        override_name is Some || metadata is Some || banner is Some ==> r@ == first_title(
            opt_str_view(override_name),
            opt_str_view(metadata),
            opt_str_view(banner),
            seq![],
        ),
{
    if let Some(name) = override_name {
        return name.to_owned();
    }
    if let Some(m) = metadata {
        return m.to_owned();
    }
    if let Some(b) = banner {
        return b.to_owned();
    }
    match file_stem(story_path) {
        Some(stem) => stem,
        None => {
            let none: String = String::new();
            assert(none@ =~= seq![]);
            none
        },
    }
}

// ── Laws ──────────────────────────────────────────────────────────────────────
/// A disk image is always named beside a known title, however well its file's name
/// matches it.
pub proof fn a_disk_image_is_always_named(name: Seq<char>, filename: Seq<char>, stem: Seq<char>)
    requires
        name.len() > 0,
    ensures
        pane_title(name, filename, stem, true) == with_filename(name, filename),
{
}

/// The title found in a banner is never longer than [`TITLE_MAX`] characters.
pub proof fn a_banner_title_is_short(kept: Seq<Seq<char>>, lowered: Seq<Seq<char>>)
    ensures
        title_above(kept, lowered) matches Some(t) ==> t.len() <= TITLE_MAX,
{
}

/// A line that holds a phrase of small print anywhere is small print, whatever stands around
/// the phrase; and a line of small print holds one of the phrases.
pub proof fn a_phrase_makes_small_print(a: Seq<char>, b: Seq<char>, l: Seq<char>)
    ensures
        is_small_print(a + "copyright"@ + b),
        is_small_print(a + "interactive fiction"@ + b),
        is_small_print(a + "interactive fantasy"@ + b),
        is_small_print(a + "serial number"@ + b),
        is_small_print(a + "trademark"@ + b),
        is_small_print(l) ==> contains(l, "copyright"@) || contains(l, "interactive fiction"@)
            || contains(l, "interactive fantasy"@) || contains(l, "serial number"@) || contains(
            l,
            "trademark"@,
        ),
{
    crate::text::a_text_contains_its_pieces(a, "copyright"@, b);
    crate::text::a_text_contains_its_pieces(a, "interactive fiction"@, b);
    crate::text::a_text_contains_its_pieces(a, "interactive fantasy"@, b);
    crate::text::a_text_contains_its_pieces(a, "serial number"@, b);
    crate::text::a_text_contains_its_pieces(a, "trademark"@, b);
}

/// The title of a banner is the line right above the first small print, whole where it has
/// at most 40 characters and cut to its first 40 where it has more; without small print, or
/// with nothing above it, there is none.
pub proof fn the_title_stands_above_the_small_print(
    kept: Seq<Seq<char>>,
    lowered: Seq<Seq<char>>,
    k: int,
)
    requires
        kept.len() == lowered.len(),
        0 <= k <= lowered.len(),
        forall|i: int| 0 <= i < k ==> !is_small_print(#[trigger] lowered[i]),
        k < lowered.len() ==> is_small_print(lowered[k]),
    ensures
        k == 0 || k == lowered.len() ==> title_above(kept, lowered) is None,
        0 < k < lowered.len() && kept[k - 1].len() <= 40 ==> title_above(kept, lowered) == Some(
            kept[k - 1],
        ),
        0 < k < lowered.len() && kept[k - 1].len() > 40 ==> title_above(kept, lowered) == Some(
            kept[k - 1].take(40),
        ),
{
    lemma_first_small_print(lowered, k);
}

/// Where the small print begins.
proof fn lemma_first_small_print(lowered: Seq<Seq<char>>, k: int)
    requires
        0 <= k <= lowered.len(),
        forall|i: int| 0 <= i < k ==> !is_small_print(#[trigger] lowered[i]),
        k < lowered.len() ==> is_small_print(lowered[k]),
    ensures
        first_small_print(lowered) == k,
    decreases k,
{
    if k > 0 {
        assert(!is_small_print(lowered[0]));
        assert forall|i: int| 0 <= i < k - 1 implies !is_small_print(
            #[trigger] lowered.drop_first()[i],
        ) by {
            assert(lowered.drop_first()[i] == lowered[i + 1]);
        }
        lemma_first_small_print(lowered.drop_first(), k - 1);
    }
}

/// Every line of a banner that counts is a line of its text without the blanks around it, is
/// not blank, and is more than a prompt.
pub proof fn a_banner_line_is_a_line_of_the_text(s: Seq<char>, i: int)
    requires
        0 <= i < banner_lines(s).len(),
    ensures
        banner_lines(s)[i].len() > 0,
        !is_bare_prompt(banner_lines(s)[i]),
        exists|j: int| 0 <= j < lines(s).len() && banner_lines(s)[i] == trim(#[trigger] lines(s)[j]),
{
    let trimmed = lines(s).map_values(|l: Seq<char>| trim(l));
    let p = |l: Seq<char>| is_banner_line(l);
    trimmed.lemma_filter_pred(p, i);
    let l = banner_lines(s)[i];
    assert(trimmed.filter(p).contains(l));
    trimmed.lemma_filter_contains_rev(p, l);
    let j = choose|j: int| 0 <= j < trimmed.len() && trimmed[j] == l;
    assert(trim(lines(s)[j]) == l);
}

/// The stem of a path is the name at its end without its last extension: the directories
/// before it do not count, and dots inside the name stay.
pub proof fn a_stem_is_a_name_without_its_extension(
    dir: Seq<char>,
    base: Seq<char>,
    ext: Seq<char>,
)
    requires
        base.len() > 0,
        !base.contains('/'),
        !ext.contains('/'),
        !ext.contains('.'),
        ext.len() > 0,
        dir.len() > 0 ==> dir.last() == '/',
    ensures
        path_stem(dir + base + seq!['.'] + ext) == Some(base),
{
    let name = base + seq!['.'] + ext;
    let p = dir + base + seq!['.'] + ext;
    assert(p =~= dir + name);
    let last = ext[ext.len() - 1];
    assert(ext.contains(last));
    assert(p.last() == last);
    assert(trimmed_path(p) == p);
    assert(!name.contains('/')) by {
        if name.contains('/') {
            let i = choose|i: int| 0 <= i < name.len() && name[i] == '/';
            if i < base.len() {
                assert(base[i] == '/');
            } else if i > base.len() {
                assert(ext[i - base.len() - 1] == '/');
            }
        }
    }
    lemma_last_part(dir, name);
    assert(p.skip(dir.len() as int) =~= name);
    lemma_last_dot(base, ext);
    assert(name.take(base.len() as int) =~= base);
    assert(name != seq!['.']) by {
        assert(name.len() >= 3);
    }
    assert(name != seq!['.', '.']) by {
        assert(name.len() >= 3);
    }
}

/// Where the last part of a path begins.
proof fn lemma_last_part(dir: Seq<char>, name: Seq<char>)
    requires
        !name.contains('/'),
        dir.len() > 0 ==> dir.last() == '/',
    ensures
        last_part_start(dir + name) == dir.len(),
    decreases name.len(),
{
    let p = dir + name;
    if name.len() == 0 {
        assert(p =~= dir);
    } else {
        assert(p.last() == name[name.len() - 1]);
        assert(name.contains(name[name.len() - 1]));
        let front = name.drop_last();
        assert(p.drop_last() =~= dir + front);
        assert(!front.contains('/')) by {
            if front.contains('/') {
                let i = choose|i: int| 0 <= i < front.len() && front[i] == '/';
                assert(name[i] == '/');
            }
        }
        lemma_last_part(dir, front);
    }
}

/// Where the last dot of a name stands.
proof fn lemma_last_dot(base: Seq<char>, ext: Seq<char>)
    requires
        !ext.contains('.'),
    ensures
        last_dot(base + seq!['.'] + ext) == base.len(),
    decreases ext.len(),
{
    let f = base + seq!['.'] + ext;
    if ext.len() == 0 {
        assert(f.last() == '.');
    } else {
        assert(f.last() == ext[ext.len() - 1]);
        assert(ext.contains(ext[ext.len() - 1]));
        let front = ext.drop_last();
        assert(f.drop_last() =~= base + seq!['.'] + front);
        assert(!front.contains('.')) by {
            if front.contains('.') {
                let i = choose|i: int| 0 <= i < front.len() && front[i] == '.';
                assert(ext[i] == '.');
            }
        }
        lemma_last_dot(base, front);
    }
}

/// Names are compared by their letters and digits alone: a capital counts as the small
/// letter, and any other character does not count.
pub proof fn only_letters_and_digits_count(a: Seq<char>, c: char, b: Seq<char>)
    ensures
        ident(a + b) == ident(a) + ident(b),
        'a' <= c <= 'z' || '0' <= c <= '9' ==> ident(seq![c]) == seq![c],
        'A' <= c <= 'Z' ==> ident(seq![c]).len() == 1 && ident(seq![c])[0] as u32 == c as u32 + 32,
        !('a' <= c <= 'z' || '0' <= c <= '9' || 'A' <= c <= 'Z') ==> ident(seq![c]).len() == 0,
    decreases b.len(),
{
    let one = seq![c];
    assert(one.drop_last() =~= seq![]);
    assert(ident(one.drop_last()) =~= seq![]);
    assert(ident(one) =~= (if is_ascii_alnum(c) {
        seq![ascii_lower(c)]
    } else {
        seq![]
    }));
    if b.len() == 0 {
        assert(a + b =~= a);
        assert(ident(a) + ident(b) =~= ident(a));
    } else {
        only_letters_and_digits_count(a, c, b.drop_last());
        assert((a + b).drop_last() =~= a + b.drop_last());
        assert(ident(a + b) =~= ident(a) + ident(b));
    }
}

/// A game is shown under its name, with its file's name in brackets behind it where the name
/// does not say it already; a game without a name is shown by its file.
pub proof fn a_pane_names_the_game_and_its_file(
    name: Seq<char>,
    filename: Seq<char>,
    stem: Seq<char>,
    disk_image: bool,
)
    ensures
        name.len() == 0 ==> pane_title(name, filename, stem, disk_image) == filename,
        name.len() > 0 && !disk_image && ident(name) == ident(stem) ==> pane_title(
            name,
            filename,
            stem,
            disk_image,
        ) == name,
        name.len() > 0 && (disk_image || ident(name) != ident(stem)) ==> pane_title(
            name,
            filename,
            stem,
            disk_image,
        ) == name + seq![' ', '('] + filename + seq![')'],
{
    reveal_strlit(" (");
    reveal_strlit(")");
    assert(" ("@ =~= seq![' ', '(']);
    assert(")"@ =~= seq![')']);
}

/// The player's own name for a game comes before what the metadata says, that before what the
/// banner says, and that before the name of the file.
pub proof fn the_nearest_title_wins(
    own: Option<Seq<char>>,
    metadata: Option<Seq<char>>,
    banner: Option<Seq<char>>,
    stem: Seq<char>,
)
    ensures
        own is Some ==> first_title(own, metadata, banner, stem) == own->0,
        own is None && metadata is Some ==> first_title(own, metadata, banner, stem)
            == metadata->0,
        own is None && metadata is None && banner is Some ==> first_title(
            own,
            metadata,
            banner,
            stem,
        ) == banner->0,
        own is None && metadata is None && banner is None ==> first_title(
            own,
            metadata,
            banner,
            stem,
        ) == stem,
{
}

} // verus!
