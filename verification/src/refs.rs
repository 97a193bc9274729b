//! References in a listing, the details of an object, and the words of a text as the story
//! splits it.

use crate::text::{a_decimal_numeral_denotes_its_number, a_hexadecimal_numeral_denotes_its_number,
    char_is_space, dec, dec_int, from_chars, hex_pad, is_space, joined, numeral_value, push_dec,
    push_hex, slice_chars, string_views, to_chars, trim, trim_span};
use crate::debug::{lemma_six_digits, lemma_tells_dec, lemma_tells_hex, tells_dec, tells_hex,
    DictShape};
use crate::mapping::{leading_word, lemma_leading, lemma_leading_word, lemma_words_apart,
    lemma_words_behind_space, words};
use crate::titles::{to_lowercase, unicode_lower};
use vstd::prelude::*;

verus! {

// ── References ────────────────────────────────────────────────────────────────
/// The value of a hexadecimal digit, in either case; 16 for anything else.
pub open spec fn hex_value(c: char) -> int {
    if '0' <= c <= '9' {
        c as int - '0' as int
    } else if 'a' <= c <= 'f' {
        c as int - 'a' as int + 10
    } else if 'A' <= c <= 'F' {
        c as int - 'A' as int + 10
    } else {
        16
    }
}

/// Whether an address is written at a place: `@0x` and six hexadecimal digits.
pub open spec fn ref_at(s: Seq<char>, i: int) -> bool {
    &&& i + 9 <= s.len()
    &&& s[i] == '@'
    &&& s[i + 1] == '0'
    &&& s[i + 2] == 'x'
    &&& forall|k: int| i + 3 <= k < i + 9 ==> hex_value(#[trigger] s[k]) < 16
}

/// The address that is written at a place.
pub open spec fn ref_addr(s: Seq<char>, i: int) -> int {
    hex_value(s[i + 3]) * 0x10_0000 + hex_value(s[i + 4]) * 0x1_0000 + hex_value(s[i + 5]) * 0x1000
        + hex_value(s[i + 6]) * 0x100 + hex_value(s[i + 7]) * 0x10 + hex_value(s[i + 8])
}

/// Where an address is first listed; the number of entries if it is not.
pub open spec fn find_addr<T>(v: Seq<(u32, T)>, addr: int) -> int
    decreases v.len(),
{
    if v.len() == 0 || v[0].0 == addr {
        0
    } else {
        1 + find_addr(v.drop_first(), addr)
    }
}

/// What is written behind an address: the object that is there, or else the word of the
/// dictionary, or nothing.
pub open spec fn tag_of(objs: Seq<(u32, u16)>, dict: Seq<(u32, String)>, addr: int) -> Seq<char> {
    let o = find_addr(objs, addr);
    let d = find_addr(dict, addr);
    if o < objs.len() {
        " [obj#"@ + dec(objs[o].1 as nat) + "]"@
    } else if d < dict.len() {
        " ["@ + dict[d].1@ + "]"@
    } else {
        seq![]
    }
}

/// A line from a place on, with what is at each address written behind it.
pub open spec fn annotated(
    s: Seq<char>,
    objs: Seq<(u32, u16)>,
    dict: Seq<(u32, String)>,
    i: int,
) -> Seq<char>
    decreases s.len() - i,
{
    if i >= s.len() {
        seq![]
    } else if ref_at(s, i) {
        s.subrange(i, i + 9) + tag_of(objs, dict, ref_addr(s, i)) + annotated(s, objs, dict, i + 9)
    } else {
        seq![s[i]] + annotated(s, objs, dict, i + 1)
    }
}

/// The value of a hexadecimal digit; 16 for anything else.
fn hex_digit(c: char) -> (r: u32)
    ensures
        r == hex_value(c),
{
    if '0' <= c && c <= '9' {
        c as u32 - '0' as u32
    } else if 'a' <= c && c <= 'f' {
        c as u32 - 'a' as u32 + 10
    } else if 'A' <= c && c <= 'F' {
        c as u32 - 'A' as u32 + 10
    } else {
        16
    }
}

/// Reads the address that is written at a place, if one is.
fn read_ref(v: &Vec<char>, i: usize) -> (r: Option<u32>)
    requires
        i < v@.len(),
    ensures
        r is Some == ref_at(v@, i as int),
        r matches Some(a) ==> a == ref_addr(v@, i as int),
{
    if v.len() - i < 9 || v[i] != '@' || v[i + 1] != '0' || v[i + 2] != 'x' {
        return None;
    }
    let a: u32 = hex_digit(v[i + 3]);
    let b: u32 = hex_digit(v[i + 4]);
    let c: u32 = hex_digit(v[i + 5]);
    let d: u32 = hex_digit(v[i + 6]);
    let e: u32 = hex_digit(v[i + 7]);
    let f: u32 = hex_digit(v[i + 8]);
    if a < 16 && b < 16 && c < 16 && d < 16 && e < 16 && f < 16 {
        Some(a * 0x10_0000 + b * 0x1_0000 + c * 0x1000 + d * 0x100 + e * 0x10 + f)
    } else {
        proof {
            assert(hex_value(v@[i + 3]) == a);
            assert(hex_value(v@[i + 4]) == b);
            assert(hex_value(v@[i + 5]) == c);
            assert(hex_value(v@[i + 6]) == d);
            assert(hex_value(v@[i + 7]) == e);
            assert(hex_value(v@[i + 8]) == f);
        }
        None
    }
}

/// The first place with an address is the first place with it.
proof fn lemma_find_addr<T>(v: Seq<(u32, T)>, addr: int, k: int)
    requires
        0 <= k <= v.len(),
        k < v.len() ==> v[k].0 == addr,
        forall|i: int| 0 <= i < k ==> (#[trigger] v[i]).0 != addr,
    ensures
        find_addr(v, addr) == k,
    decreases k,
{
    if k > 0 {
        assert(v[0].0 != addr);
        assert forall|i: int| 0 <= i < k - 1 implies (#[trigger] v.drop_first()[i]).0 != addr by {
            assert(v.drop_first()[i] == v[i + 1]);
        }
        lemma_find_addr(v.drop_first(), addr, k - 1);
    }
}

/// Looks an address up.
fn place_of<T>(v: &Vec<(u32, T)>, addr: u32) -> (r: usize)
    ensures
        r == find_addr(v@, addr as int),
        r <= v@.len(),
{
    let mut i: usize = 0;
    while i < v.len() && v[i].0 != addr
        invariant
            i <= v@.len(),
            forall|j: int| 0 <= j < i ==> (#[trigger] v@[j]).0 != addr,
        decreases v.len() - i,
    {
        i = i + 1;
    }
    proof {
        lemma_find_addr(v@, addr as int, i as int);
    }
    i
}

/// Writes behind each address of a line what is there: an object, or else a word of the
/// dictionary.
pub fn annotate_refs(line: &str, objs: &Vec<(u32, u16)>, dict: &Vec<(u32, String)>) -> (r: String)
    ensures
        r@ == annotated(line@, objs@, dict@, 0),
{
    let v: Vec<char> = to_chars(line);
    let mut s: String = String::new();
    let mut i: usize = 0;
    let ghost goal = annotated(line@, objs@, dict@, 0);
    assert(s@ + goal =~= goal);
    while i < v.len()
        invariant
            i <= v@.len(),
            v@ == line@,
            s@ + annotated(line@, objs@, dict@, i as int) == goal,
        decreases v.len() - i,
    {
        let ghost s0 = s@;
        let ghost rest = annotated(line@, objs@, dict@, i as int);
        match read_ref(&v, i) {
            Some(addr) => {
                let part: String = from_chars(&slice_chars(&v, i, i + 9));
                s.append(part.as_str());
                let o: usize = place_of(objs, addr);
                let d: usize = place_of(dict, addr);
                let ghost s1 = s@;
                let ghost tag = tag_of(objs@, dict@, addr as int);
                if o < objs.len() {
                    s.append(" [obj#");
                    push_dec(&mut s, objs[o].1 as u64);
                    s.append("]");
                } else if d < dict.len() {
                    s.append(" [");
                    s.append(dict[d].1.as_str());
                    s.append("]");
                }
                assert(s@ =~= s1 + tag);
                assert(s@ + annotated(line@, objs@, dict@, i + 9) =~= s0 + rest);
                i = i + 9;
            },
            None => {
                s.push(v[i]);
                assert(s@ + annotated(line@, objs@, dict@, i + 1) =~= s0 + rest);
                i = i + 1;
            },
        }
    }
    assert(s@ + annotated(line@, objs@, dict@, i as int) =~= s@);
    s
}

/// A line without an address stays as it is.
pub proof fn a_plain_line_stays(
    s: Seq<char>,
    objs: Seq<(u32, u16)>,
    dict: Seq<(u32, String)>,
    i: int,
)
    requires
        0 <= i <= s.len(),
        forall|k: int| i <= k < s.len() ==> !ref_at(s, k),
    ensures
        annotated(s, objs, dict, i) == s.skip(i),
    decreases s.len() - i,
{
    if i < s.len() {
        assert(!ref_at(s, i));
        a_plain_line_stays(s, objs, dict, i + 1);
        assert(seq![s[i]] + s.skip(i + 1) =~= s.skip(i));
    } else {
        assert(s.skip(i) =~= seq![]);
    }
}

/// Writes behind each address of a listing what is there.
pub fn disassemble(
    listing: &Vec<String>,
    objs: &Vec<(u32, u16)>,
    dict: &Vec<(u32, String)>,
) -> (r: Vec<String>)
    ensures
        string_views(r@) == string_views(listing@).map_values(
            |l: Seq<char>| annotated(l, objs@, dict@, 0),
        ),
{
    let mut out: Vec<String> = Vec::new();
    let mut i: usize = 0;
    while i < listing.len()
        invariant
            i <= listing@.len(),
            out@.len() == i,
            forall|j: int|
                0 <= j < i ==> (#[trigger] out@[j])@ == annotated(listing@[j]@, objs@, dict@, 0),
        decreases listing.len() - i,
    {
        out.push(annotate_refs(listing[i].as_str(), objs, dict));
        i = i + 1;
    }
    assert(string_views(out@) =~= string_views(listing@).map_values(
        |l: Seq<char>| annotated(l, objs@, dict@, 0),
    ));
    out
}

// ── The dictionary ────────────────────────────────────────────────────────────
/// The line of a word of the dictionary.
pub open spec fn word_line(e: (u32, String)) -> Seq<char> {
    "@0x"@ + hex_pad(e.0 as nat, 6) + " "@ + e.1@
}

/// Lists the dictionary, each word behind the address of its entry.
pub fn dictionary_lines(entries: &Vec<(u32, String)>) -> (r: Vec<String>)
    ensures
        string_views(r@) == entries@.map_values(|e: (u32, String)| word_line(e)),
{
    let mut out: Vec<String> = Vec::new();
    let mut i: usize = 0;
    while i < entries.len()
        invariant
            i <= entries@.len(),
            out@.len() == i,
            forall|j: int| 0 <= j < i ==> (#[trigger] out@[j])@ == word_line(entries@[j]),
        decreases entries.len() - i,
    {
        let mut s: String = "@0x".to_owned();
        push_hex(&mut s, entries[i].0 as u64, 6);
        s.append(" ");
        s.append(entries[i].1.as_str());
        out.push(s);
        i = i + 1;
    }
    assert(string_views(out@) =~= entries@.map_values(|e: (u32, String)| word_line(e)));
    out
}

/// The addresses and words of the first `n` entries of a dictionary, of those with a word.
pub open spec fn dict_map(d: DictShape, words: Seq<Seq<char>>, n: nat) -> Seq<(u32, Seq<char>)>
    decreases n,
{
    if n == 0 {
        seq![]
    } else {
        let before = dict_map(d, words, (n - 1) as nat);
        let w = trim(words[n - 1]);
        if w.len() > 0 {
            before.push(((d.base + (n - 1) * d.entry_length) as u32, w))
        } else {
            before
        }
    }
}

/// The model of a list of addresses and words.
pub open spec fn addr_words(v: Seq<(u32, String)>) -> Seq<(u32, Seq<char>)> {
    v.map_values(|e: (u32, String)| (e.0, e.1@))
}

/// Lists the words of a dictionary with the addresses of their entries, by the texts that
/// its entries read as. An entry without a word is left out.
pub fn dict_addr_map(d: DictShape, texts: &Vec<String>) -> (r: Vec<(u32, String)>)
    requires
        texts@.len() == d.count,
        d.base + d.count * d.entry_length <= u32::MAX,
    ensures
        addr_words(r@) == dict_map(d, string_views(texts@), texts@.len()),
{
    let mut out: Vec<(u32, String)> = Vec::new();
    let ghost words = string_views(texts@);
    let mut i: usize = 0;
    assert(addr_words(out@) =~= seq![]);
    while i < texts.len()
        invariant
            i <= texts@.len(),
            texts@.len() == d.count,
            d.base + d.count * d.entry_length <= u32::MAX,
            words == string_views(texts@),
            addr_words(out@) == dict_map(d, words, i as nat),
        decreases texts.len() - i,
    {
        let ghost out0 = out@;
        let v: Vec<char> = to_chars(texts[i].as_str());
        assert(words[i as int] == v@);
        let span: (usize, usize) = trim_span(v.as_slice());
        if span.0 < span.1 {
            let elen: u32 = d.entry_length as u32;
            let at: u32 = i as u32;
            assert(at * elen <= d.count * d.entry_length) by (nonlinear_arith)
                requires
                    at <= d.count,
                    elen == d.entry_length,
            ;
            let addr: u32 = d.base + at * elen;
            let word: String = from_chars(slice_chars(v.as_slice(), span.0, span.1).as_slice());
            let ghost text = word@;
            out.push((addr, word));
            assert(addr_words(out@) =~= addr_words(out0).push((addr, text)));
        }
        i = i + 1;
    }
    out
}

/// How many characters of a word the dictionary keeps, by the length of its keys in bytes:
/// two bytes hold three characters.
pub fn kept_characters(key_len: u8) -> (r: usize)
    ensures
        r == key_len as int / 2 * 3,
{
    key_len as usize / 2 * 3
}

// ── Objects ───────────────────────────────────────────────────────────────────
/// A property: its number, the number of the next one, and its bytes.
#[derive(Debug)]
pub struct PropEntry {
    pub number: u8,
    pub next: u8,
    pub bytes: Vec<u8>,
}

/// An object in detail: the address of its entry, its attributes in order, its first
/// property and all of its properties. A property that is not listed is empty and the last.
#[derive(Debug)]
pub struct ObjectDetail {
    pub entry_addr: u32,
    pub attributes: Vec<bool>,
    pub first_prop: u8,
    pub props: Vec<PropEntry>,
}

/// How many attributes an object has, by the version of the story.
pub open spec fn attribute_count(version: u8) -> int {
    if version <= 3 {
        32
    } else {
        48
    }
}

/// How many properties are followed at most.
pub const PROPS_MAX: usize = 64;

/// The numbers below `n` of the attributes that are set, in order.
pub open spec fn set_below(attrs: Seq<bool>, n: nat) -> Seq<Seq<char>>
    decreases n,
{
    if n == 0 {
        seq![]
    } else if n <= attrs.len() && attrs[n - 1] {
        set_below(attrs, (n - 1) as nat).push(dec((n - 1) as nat))
    } else {
        set_below(attrs, (n - 1) as nat)
    }
}

/// The line of the attributes.
pub open spec fn attrs_line(attrs: Seq<bool>, version: u8) -> Seq<char> {
    let list = set_below(attrs, attribute_count(version) as nat);
    if list.len() == 0 {
        "attrs: (none)"@
    } else {
        "attrs: "@ + joined(list, ", "@)
    }
}

/// Where a property is first listed; the number of properties if it is not.
pub open spec fn find_prop(v: Seq<PropEntry>, n: u8) -> int
    decreases v.len(),
{
    if v.len() == 0 || v[0].number == n {
        0
    } else {
        1 + find_prop(v.drop_first(), n)
    }
}

/// The bytes of a property.
pub open spec fn prop_bytes(v: Seq<PropEntry>, n: u8) -> Seq<u8> {
    let k = find_prop(v, n);
    if k < v.len() {
        v[k].bytes@
    } else {
        seq![]
    }
}

/// The number of the property behind a property.
pub open spec fn prop_next(v: Seq<PropEntry>, n: u8) -> u8 {
    let k = find_prop(v, n);
    if k < v.len() {
        v[k].next
    } else {
        0
    }
}

/// The line of a property.
pub open spec fn prop_line(v: Seq<PropEntry>, n: u8) -> Seq<char> {
    "  prop "@ + dec(n as nat) + ": "@ + joined(
        prop_bytes(v, n).map_values(|b: u8| hex_pad(b as nat, 2)),
        " "@,
    )
}

/// The properties from one on: they descend, and the list ends where they do not.
pub open spec fn props_from(v: Seq<PropEntry>, n: u8, steps: nat) -> Seq<u8>
    decreases steps,
{
    if n == 0 || steps == 0 {
        seq![]
    } else if prop_next(v, n) >= n {
        seq![n]
    } else {
        seq![n] + props_from(v, prop_next(v, n), (steps - 1) as nat)
    }
}

/// The lines of an object in detail.
pub open spec fn detail_lines(d: ObjectDetail, version: u8) -> Seq<Seq<char>> {
    seq!["entry @0x"@ + hex_pad(d.entry_addr as nat, 6), attrs_line(d.attributes@, version)]
        + props_from(d.props@, d.first_prop, PROPS_MAX as nat).map_values(
        |n: u8| prop_line(d.props@, n),
    )
}

/// The first place with a property is the first place with it.
proof fn lemma_find_prop(v: Seq<PropEntry>, n: u8, k: int)
    requires
        0 <= k <= v.len(),
        k < v.len() ==> v[k].number == n,
        forall|i: int| 0 <= i < k ==> (#[trigger] v[i]).number != n,
    ensures
        find_prop(v, n) == k,
    decreases k,
{
    if k > 0 {
        assert(v[0].number != n);
        assert forall|i: int| 0 <= i < k - 1 implies (#[trigger] v.drop_first()[i]).number != n by {
            assert(v.drop_first()[i] == v[i + 1]);
        }
        lemma_find_prop(v.drop_first(), n, k - 1);
    }
}

/// Looks a property up.
fn place_of_prop(v: &Vec<PropEntry>, n: u8) -> (r: usize)
    ensures
        r == find_prop(v@, n),
        r <= v@.len(),
{
    let mut i: usize = 0;
    while i < v.len() && v[i].number != n
        invariant
            i <= v@.len(),
            forall|j: int| 0 <= j < i ==> (#[trigger] v@[j]).number != n,
        decreases v.len() - i,
    {
        i = i + 1;
    }
    proof {
        lemma_find_prop(v@, n, i as int);
    }
    i
}

/// Writes the line of the attributes.
fn write_attrs(attrs: &Vec<bool>, version: u8) -> (r: String)
    ensures
        r@ == attrs_line(attrs@, version),
{
    let count: usize = if version <= 3 {
        32
    } else {
        48
    };
    let mut list: String = String::new();
    let mut any: bool = false;
    let mut n: usize = 0;
    assert(list@ =~= joined(set_below(attrs@, 0), ", "@));
    while n < count
        invariant
            n <= count,
            list@ == joined(set_below(attrs@, n as nat), ", "@),
            any == (set_below(attrs@, n as nat).len() > 0),
        decreases count - n,
    {
        let ghost before = set_below(attrs@, n as nat);
        if n < attrs.len() && attrs[n] {
            let ghost now = before.push(dec(n as nat));
            assert(now.drop_last() =~= before);
            if any {
                list.append(", ");
                push_dec(&mut list, n as u64);
            } else {
                assert(before =~= seq![]);
                push_dec(&mut list, n as u64);
                assert(list@ =~= dec(n as nat));
            }
            assert(list@ == joined(now, ", "@));
            any = true;
        }
        n = n + 1;
    }
    if any {
        let mut s: String = "attrs: ".to_owned();
        s.append(list.as_str());
        s
    } else {
        "attrs: (none)".to_owned()
    }
}

/// Writes the line of a property.
fn write_prop(v: &Vec<PropEntry>, n: u8, k: usize) -> (r: String)
    requires
        k == find_prop(v@, n),
        k <= v@.len(),
    ensures
        r@ == prop_line(v@, n),
{
    let mut list: String = String::new();
    let ghost views = prop_bytes(v@, n).map_values(|b: u8| hex_pad(b as nat, 2));
    if k < v.len() {
        let bytes = &v[k].bytes;
        let mut i: usize = 0;
        assert(views.take(0) =~= seq![]);
        assert(list@ =~= joined(views.take(0), " "@));
        while i < bytes.len()
            invariant
                i <= bytes@.len(),
                views == bytes@.map_values(|b: u8| hex_pad(b as nat, 2)),
                list@ == joined(views.take(i as int), " "@),
            decreases bytes.len() - i,
        {
            let ghost now = views.take(i + 1);
            assert(now.drop_last() =~= views.take(i as int));
            assert(now.last() == hex_pad(bytes@[i as int] as nat, 2));
            if i > 0 {
                list.append(" ");
                push_hex(&mut list, bytes[i] as u64, 2);
            } else {
                assert(views.take(0) =~= seq![]);
                push_hex(&mut list, bytes[i] as u64, 2);
                assert(list@ =~= now[0]);
            }
            assert(list@ == joined(now, " "@));
            i = i + 1;
        }
        assert(views.take(i as int) =~= views);
    } else {
        assert(views =~= seq![]);
        assert(list@ =~= joined(views, " "@));
    }
    let mut s: String = "  prop ".to_owned();
    push_dec(&mut s, n as u64);
    s.append(": ");
    s.append(list.as_str());
    s
}

/// Lists an object in detail: the address of its entry, the attributes that are set, and its
/// properties. A list of properties that does not descend is broken, and ends there.
pub fn object_detail(d: &ObjectDetail, version: u8) -> (r: Vec<String>)
    ensures
        string_views(r@) == detail_lines(*d, version),
{
    let mut out: Vec<String> = Vec::new();
    let mut head: String = "entry @0x".to_owned();
    push_hex(&mut head, d.entry_addr as u64, 6);
    out.push(head);
    out.push(write_attrs(&d.attributes, version));
    let ghost props = d.props@;
    let ghost goal = props_from(props, d.first_prop, PROPS_MAX as nat);
    let ghost top = seq![
        "entry @0x"@ + hex_pad(d.entry_addr as nat, 6),
        attrs_line(d.attributes@, version),
    ];
    let ghost mut done: Seq<u8> = seq![];
    let mut prop: u8 = d.first_prop;
    let mut steps: usize = PROPS_MAX;
    let mut going: bool = true;
    assert(done + goal =~= goal);
    assert(string_views(out@) =~= top + done.map_values(|n: u8| prop_line(props, n)));
    while going && steps > 0 && prop != 0
        invariant
            props == d.props@,
            steps <= PROPS_MAX,
            string_views(out@) == top + done.map_values(|n: u8| prop_line(props, n)),
            going ==> done + props_from(props, prop, steps as nat) == goal,
            !going ==> done == goal,
        decreases steps, going as int,
    {
        let ghost out0 = out@;
        let ghost done0 = done;
        let k: usize = place_of_prop(&d.props, prop);
        out.push(write_prop(&d.props, prop, k));
        proof {
            done = done0.push(prop);
            assert(string_views(out@) =~= string_views(out0).push(prop_line(props, prop)));
            assert(done.map_values(|n: u8| prop_line(props, n)) =~= done0.map_values(
                |n: u8| prop_line(props, n),
            ).push(prop_line(props, prop)));
            assert(string_views(out@) =~= top + done.map_values(|n: u8| prop_line(props, n)));
        }
        let next: u8 = if k < d.props.len() {
            d.props[k].next
        } else {
            0
        };
        if next >= prop {
            going = false;
            assert(done =~= done0 + seq![prop]);
        } else {
            assert(done + props_from(props, next, (steps - 1) as nat) =~= done0 + (seq![prop]
                + props_from(props, next, (steps - 1) as nat)));
            prop = next;
        }
        steps = steps - 1;
    }
    assert(done =~= goal);
    out
}

// ── The words of a text ───────────────────────────────────────────────────────
/// How many characters a piece of text has before it is cut at the next space.
pub const CHUNK: usize = 200;

/// How many characters a piece of text has at most.
pub const CHUNK_MAX: usize = 255;

/// A character as the story's own tokeniser is to see it: every gap is a space.
pub open spec fn gap_as_space(c: char) -> char {
    if is_space(c) {
        ' '
    } else {
        c
    }
}

/// A text as the story's own tokeniser is to see it.
pub open spec fn spaced(s: Seq<char>) -> Seq<char> {
    s.map_values(|c: char| gap_as_space(c))
}

/// Whether a text holds no space.
pub open spec fn spaceless(s: Seq<char>) -> bool {
    forall|i: int| 0 <= i < s.len() ==> #[trigger] s[i] != ' '
}

/// Where the last space of a text is; below zero if it has none.
pub open spec fn last_space(s: Seq<char>) -> int
    decreases s.len(),
{
    if s.len() == 0 || s.last() == ' ' {
        s.len() - 1
    } else {
        last_space(s.drop_last())
    }
}

/// The pieces of a text up to a place, and the piece that is being made. A piece is cut at
/// the first space behind [`CHUNK`] characters. One that comes to [`CHUNK_MAX`] before that
/// is cut at its last space, and what is behind it goes on to the next piece. Only a piece
/// without a space is cut inside a word. The space that a cut is made at is dropped.
pub open spec fn chunks_to(s: Seq<char>, i: int) -> (Seq<Seq<char>>, Seq<char>)
    decreases i,
{
    if i <= 0 {
        (seq![], seq![])
    } else {
        let before = chunks_to(s, i - 1);
        let c = gap_as_space(s[i - 1]);
        let cur = before.1.push(c);
        let k = last_space(cur);
        if c == ' ' && before.1.len() >= CHUNK {
            (before.0.push(before.1), seq![])
        } else if cur.len() < CHUNK_MAX {
            (before.0, cur)
        } else if k < 0 {
            (before.0.push(cur), seq![])
        } else {
            (before.0.push(cur.take(k)), cur.skip(k + 1))
        }
    }
}

/// The pieces of a text.
pub open spec fn parser_pieces(s: Seq<char>) -> Seq<Seq<char>> {
    let all = chunks_to(s, s.len() as int);
    all.0.push(all.1)
}

/// The model of a list of pieces.
pub open spec fn piece_views(v: Seq<Vec<char>>) -> Seq<Seq<char>> {
    v.map_values(|p: Vec<char>| p@)
}

/// The text that a list of pieces was cut from, where another piece follows them: behind
/// each is the space that it was cut at, unless it was cut inside a word.
pub open spec fn uncut(v: Seq<Seq<char>>) -> Seq<char>
    decreases v.len(),
{
    if v.len() == 0 {
        seq![]
    } else {
        uncut(v.drop_last()) + v.last() + (if v.last().len() < CHUNK_MAX {
            seq![' ']
        } else {
            seq![]
        })
    }
}

/// Whether piece `k` of a text ends where the text has a space.
pub open spec fn ends_at_space(s: Seq<char>, pieces: Seq<Seq<char>>, k: int) -> bool {
    let end = uncut(pieces.take(k)).len() + pieces[k].len();
    end < s.len() && spaced(s)[end as int] == ' '
}

/// Finds the last space of a text.
fn find_last_space(v: &Vec<char>) -> (r: Option<usize>)
    ensures
        match r {
            Some(k) => k < v@.len() && k == last_space(v@),
            None => last_space(v@) == -1,
        },
{
    let mut n: usize = v.len();
    assert(v@.take(n as int) =~= v@);
    while n > 0
        invariant
            n <= v@.len(),
            last_space(v@.take(n as int)) == last_space(v@),
        decreases n,
    {
        assert(v@.take(n as int).last() == v@[n - 1]);
        if v[n - 1] == ' ' {
            return Some(n - 1);
        }
        assert(v@.take(n as int).drop_last() =~= v@.take(n - 1));
        n = n - 1;
    }
    None
}

/// Cuts a text into pieces that the story's tokeniser takes, whose positions are single
/// bytes. A piece with another behind it ends where the text has a space, at which the
/// tokeniser splits in any case; only one that is all one word is cut inside it.
pub fn parser_chunks(text: &str) -> (r: Vec<Vec<char>>)
    ensures
        piece_views(r@) == parser_pieces(text@),
        forall|i: int| 0 <= i < r@.len() ==> (#[trigger] r@[i])@.len() <= CHUNK_MAX,
        forall|i: int|
            0 <= i < r@.len() - 1 ==> ends_at_space(text@, piece_views(r@), i) || spaceless(
                (#[trigger] r@[i])@,
            ),
{
    let chars: Vec<char> = to_chars(text);
    let mut out: Vec<Vec<char>> = Vec::new();
    let mut cur: Vec<char> = Vec::new();
    let mut i: usize = 0;
    assert(piece_views(out@) =~= seq![]);
    assert(cur@ =~= seq![]);
    while i < chars.len()
        invariant
            i <= chars@.len(),
            chars@ == text@,
            (piece_views(out@), cur@) == chunks_to(text@, i as int),
            cur@.len() < CHUNK_MAX,
            forall|k: int| 0 <= k < out@.len() ==> (#[trigger] out@[k])@.len() <= CHUNK_MAX,
        decreases chars.len() - i,
    {
        let ghost out0 = out@;
        let ghost cur0 = cur@;
        let c: char = if char_is_space(chars[i]) {
            ' '
        } else {
            chars[i]
        };
        if c == ' ' && cur.len() >= CHUNK {
            let mut done: Vec<char> = Vec::new();
            std::mem::swap(&mut done, &mut cur);
            out.push(done);
            assert(piece_views(out@) =~= piece_views(out0).push(cur0));
            assert(cur@ =~= seq![]);
        } else {
            cur.push(c);
            if cur.len() >= CHUNK_MAX {
                let ghost full = cur@;
                match find_last_space(&cur) {
                    Some(k) => {
                        let done: Vec<char> = slice_chars(cur.as_slice(), 0, k);
                        let rest: Vec<char> = slice_chars(cur.as_slice(), k + 1, cur.len());
                        assert(done@ =~= full.take(k as int));
                        assert(rest@ =~= full.skip(k + 1));
                        out.push(done);
                        cur = rest;
                        assert(piece_views(out@) =~= piece_views(out0).push(full.take(k as int)));
                    },
                    None => {
                        let mut done: Vec<char> = Vec::new();
                        std::mem::swap(&mut done, &mut cur);
                        out.push(done);
                        assert(piece_views(out@) =~= piece_views(out0).push(full));
                        assert(cur@ =~= seq![]);
                    },
                }
            }
        }
        i = i + 1;
    }
    let ghost out0 = out@;
    let ghost cur0 = cur@;
    out.push(cur);
    assert(piece_views(out@) =~= piece_views(out0).push(cur0));
    proof {
        assert forall|k: int| 0 <= k < out@.len() - 1 implies ends_at_space(
            text@,
            piece_views(out@),
            k,
        ) || spaceless((#[trigger] out@[k])@) by {
            a_piece_ends_at_a_space(text@, k);
        }
    }
    out
}

/// The words that a tokeniser found in a piece of text, in lower case: each is given by its
/// position and its length.
pub fn words_in_chunk(chunk: &Vec<char>, tokens: &Vec<(u8, u8)>) -> (r: Vec<String>)
    requires
        forall|i: int|
            0 <= i < tokens@.len() ==> (#[trigger] tokens@[i]).0 + tokens@[i].1 <= chunk@.len(),
    ensures
        string_views(r@) == tokens@.map_values(
            |t: (u8, u8)| unicode_lower(chunk@.subrange(t.0 as int, t.0 + t.1)),
        ),
{
    let mut out: Vec<String> = Vec::new();
    let mut i: usize = 0;
    while i < tokens.len()
        invariant
            i <= tokens@.len(),
            forall|i: int|
                0 <= i < tokens@.len() ==> (#[trigger] tokens@[i]).0 + tokens@[i].1
                    <= chunk@.len(),
            out@.len() == i,
            forall|j: int|
                0 <= j < i ==> (#[trigger] out@[j])@ == unicode_lower(
                    chunk@.subrange(tokens@[j].0 as int, tokens@[j].0 + tokens@[j].1),
                ),
        decreases tokens.len() - i,
    {
        let t: (u8, u8) = tokens[i];
        assert(tokens@[i as int].0 + tokens@[i as int].1 <= chunk@.len());
        let start: usize = t.0 as usize;
        let end: usize = start + t.1 as usize;
        let word: String = from_chars(&slice_chars(chunk, start, end));
        out.push(to_lowercase(word.as_str()));
        i = i + 1;
    }
    assert(string_views(out@) =~= tokens@.map_values(
        |t: (u8, u8)| unicode_lower(chunk@.subrange(t.0 as int, t.0 + t.1)),
    ));
    out
}

/// The words of the first `n` pieces.
pub open spec fn words_before(
    chunks: Seq<Seq<char>>,
    tokens: Seq<Seq<(u8, u8)>>,
    n: nat,
) -> Seq<Seq<char>>
    decreases n,
{
    if n == 0 {
        seq![]
    } else {
        words_before(chunks, tokens, (n - 1) as nat) + tokens[n - 1].map_values(
            |t: (u8, u8)| unicode_lower(chunks[n - 1].subrange(t.0 as int, t.0 + t.1)),
        )
    }
}

/// The model of what a tokeniser found in each piece.
pub open spec fn token_views(v: Seq<Vec<(u8, u8)>>) -> Seq<Seq<(u8, u8)>> {
    v.map_values(|t: Vec<(u8, u8)>| t@)
}

/// The words that the story's tokeniser found in the pieces of a text.
pub fn split_like_parser(chunks: &Vec<Vec<char>>, tokens: &Vec<Vec<(u8, u8)>>) -> (r: Vec<String>)
    requires
        tokens@.len() == chunks@.len(),
        forall|k: int, i: int|
            0 <= k < tokens@.len() && 0 <= i < tokens@[k]@.len() ==> (#[trigger] tokens@[k]@[i]).0
                + tokens@[k]@[i].1 <= chunks@[k]@.len(),
    ensures
        string_views(r@) == words_before(
            piece_views(chunks@),
            token_views(tokens@),
            chunks@.len(),
        ),
{
    let ghost cs = piece_views(chunks@);
    let ghost ts = token_views(tokens@);
    let mut out: Vec<String> = Vec::new();
    let mut k: usize = 0;
    assert(string_views(out@) =~= words_before(cs, ts, 0));
    while k < chunks.len()
        invariant
            k <= chunks@.len(),
            tokens@.len() == chunks@.len(),
            cs == piece_views(chunks@),
            ts == token_views(tokens@),
            forall|k: int, i: int|
                0 <= k < tokens@.len() && 0 <= i < tokens@[k]@.len() ==> (
                #[trigger] tokens@[k]@[i]).0 + tokens@[k]@[i].1 <= chunks@[k]@.len(),
            string_views(out@) == words_before(cs, ts, k as nat),
        decreases chunks.len() - k,
    {
        let ghost out0 = out@;
        let mut words: Vec<String> = words_in_chunk(&chunks[k], &tokens[k]);
        let ghost found = string_views(words@);
        assert(cs[k as int] == chunks@[k as int]@ && ts[k as int] == tokens@[k as int]@);
        out.append(&mut words);
        assert(string_views(out@) =~= string_views(out0) + found);
        k = k + 1;
    }
    out
}

// ── Laws ──────────────────────────────────────────────────────────────────────
/// The last space of a text is a space, with none behind it.
proof fn lemma_last_space(s: Seq<char>)
    ensures
        -1 <= last_space(s) < s.len(),
        last_space(s) >= 0 ==> s[last_space(s)] == ' ',
        forall|i: int| last_space(s) < i < s.len() ==> #[trigger] s[i] != ' ',
    decreases s.len(),
{
    if s.len() > 0 && s.last() != ' ' {
        let t = s.drop_last();
        lemma_last_space(t);
        assert forall|i: int| last_space(s) < i < s.len() implies #[trigger] s[i] != ' ' by {
            if i < t.len() {
                assert(t[i] == s[i]);
            }
        }
    }
}

/// Cutting a text loses nothing but the spaces that it is cut at: with those put back, the
/// pieces are the text.
pub proof fn cutting_loses_only_spaces(s: Seq<char>)
    ensures
        uncut(parser_pieces(s).drop_last()) + parser_pieces(s).last() == spaced(s),
{
    let all = chunks_to(s, s.len() as int);
    lemma_chunks(s, s.len() as int);
    assert(spaced(s).take(s.len() as int) =~= spaced(s));
    assert(all.0.push(all.1).drop_last() =~= all.0);
}

/// As [`cutting_loses_only_spaces`], up to a place; a piece of full length is all one word.
proof fn lemma_chunks(s: Seq<char>, i: int)
    requires
        0 <= i <= s.len(),
    ensures
        uncut(chunks_to(s, i).0) + chunks_to(s, i).1 == spaced(s).take(i),
        chunks_to(s, i).1.len() < CHUNK_MAX,
        forall|k: int|
            0 <= k < chunks_to(s, i).0.len() ==> (#[trigger] chunks_to(s, i).0[k]).len()
                < CHUNK_MAX || spaceless(chunks_to(s, i).0[k]),
    decreases i,
{
    let m = spaced(s);
    if i == 0 {
        assert(uncut(seq![]) + Seq::<char>::empty() =~= m.take(0));
    } else {
        lemma_chunks(s, i - 1);
        let before = chunks_to(s, i - 1);
        let r = chunks_to(s, i);
        let c = gap_as_space(s[i - 1]);
        let cur = before.1.push(c);
        let k = last_space(cur);
        lemma_last_space(cur);
        assert(m.take(i) =~= m.take(i - 1).push(c));
        if c == ' ' && before.1.len() >= CHUNK {
            assert(r.0.drop_last() =~= before.0);
            assert(uncut(r.0) + r.1 =~= m.take(i));
        } else if cur.len() < CHUNK_MAX {
            assert(uncut(r.0) + r.1 =~= m.take(i));
        } else if k < 0 {
            assert(r.0.drop_last() =~= before.0);
            assert(uncut(r.0) + r.1 =~= m.take(i));
            assert(spaceless(cur));
        } else {
            assert(r.0.drop_last() =~= before.0);
            assert(cur.take(k) + seq![' '] + cur.skip(k + 1) =~= cur);
            assert(uncut(r.0) + r.1 =~= uncut(before.0) + (cur.take(k) + seq![' '] + cur.skip(
                k + 1,
            )));
            assert(uncut(r.0) + r.1 =~= m.take(i));
        }
        assert forall|j: int| 0 <= j < r.0.len() implies (#[trigger] r.0[j]).len() < CHUNK_MAX
            || spaceless(r.0[j]) by {
            if j < before.0.len() {
                assert(r.0[j] == before.0[j]);
            }
        }
    }
}

/// What is before a piece, the piece and the space it was cut at are part of the text.
proof fn lemma_uncut_prefix(v: Seq<Seq<char>>, k: int)
    requires
        0 <= k < v.len(),
    ensures
        uncut(v.take(k + 1)) == uncut(v.take(k)) + v[k] + (if v[k].len() < CHUNK_MAX {
            seq![' ']
        } else {
            seq![]
        }),
        uncut(v.take(k + 1)).is_prefix_of(uncut(v)),
    decreases v.len(),
{
    assert(v.take(k + 1).drop_last() =~= v.take(k));
    assert(v.take(k + 1).last() == v[k]);
    if k + 1 == v.len() {
        assert(v.take(k + 1) =~= v);
    } else {
        let w = v.drop_last();
        lemma_uncut_prefix(w, k);
        assert(w.take(k + 1) =~= v.take(k + 1));
        assert(uncut(w).is_prefix_of(uncut(v)));
    }
}

/// A piece with another behind it ends where the text has a space, or holds no space.
pub proof fn a_piece_ends_at_a_space(s: Seq<char>, k: int)
    requires
        0 <= k < parser_pieces(s).len() - 1,
    ensures
        ends_at_space(s, parser_pieces(s), k) || spaceless(parser_pieces(s)[k]),
{
    let p = parser_pieces(s);
    let v = chunks_to(s, s.len() as int).0;
    lemma_chunks(s, s.len() as int);
    cutting_loses_only_spaces(s);
    assert(p.drop_last() =~= v);
    assert(p.take(k) =~= v.take(k));
    assert(p[k] == v[k]);
    if v[k].len() < CHUNK_MAX {
        lemma_uncut_prefix(v, k);
        let end = uncut(v.take(k)).len() + v[k].len();
        assert(uncut(v.take(k + 1))[end as int] == ' ');
        assert(uncut(v)[end as int] == uncut(v.take(k + 1))[end as int]);
        assert(spaced(s)[end as int] == uncut(v)[end as int]);
        assert(end < uncut(v).len() <= spaced(s).len());
    }
}

/// The words of all pieces, in their order.
pub open spec fn words_of_pieces(v: Seq<Seq<char>>) -> Seq<Seq<char>>
    decreases v.len(),
{
    if v.len() == 0 {
        seq![]
    } else {
        words_of_pieces(v.drop_last()) + words(v.last())
    }
}

/// Whether every word of a text fits into one piece: of any longer run of characters, one is
/// a gap.
pub open spec fn words_fit(s: Seq<char>) -> bool {
    forall|i: int| #[trigger]
        is_place(s, i) && i + CHUNK_MAX < s.len() ==> !spaceless(
            spaced(s).subrange(i, i + CHUNK_MAX + 1),
        )
}

/// Whether `i` is a place in a text.
pub open spec fn is_place(s: Seq<char>, i: int) -> bool {
    0 <= i < s.len()
}

/// A text has the same words whatever its gaps are.
proof fn lemma_spaced_words(s: Seq<char>)
    ensures
        words(spaced(s)) == words(s),
    decreases s.len(),
{
    let m = spaced(s);
    if s.len() == 0 {
        assert(m =~= s);
    } else if is_space(s[0]) {
        lemma_words_behind_space(s);
        lemma_words_behind_space(m);
        assert(m.drop_first() =~= spaced(s.drop_first()));
        lemma_spaced_words(s.drop_first());
    } else {
        lemma_leading(s);
        let n = leading_word(s);
        assert forall|i: int| 0 <= i < n implies !is_space(#[trigger] m[i]) by {
            assert(!is_space(s[i]));
        }
        lemma_leading_word(m, n);
        assert(s.skip(0) =~= s && m.skip(0) =~= m);
        assert forall|i: int| 0 <= i < n implies m.subrange(0, n)[i] == #[trigger] s.subrange(
            0,
            n,
        )[i] by {
            assert(!is_space(s[i]));
        }
        assert(m.subrange(0, n) =~= s.subrange(0, n));
        assert(m.skip(n) =~= spaced(s.skip(n)));
        lemma_spaced_words(s.skip(n));
    }
}

/// Cutting a text keeps its words: as long as each fits into a piece, the words of the
/// pieces are those of the text.
pub proof fn cutting_keeps_the_words(s: Seq<char>)
    requires
        words_fit(s),
    ensures
        words_of_pieces(parser_pieces(s)) == words(s),
{
    let p = parser_pieces(s);
    let all = chunks_to(s, s.len() as int);
    cutting_loses_only_spaces(s);
    assert(p.drop_last() =~= all.0);
    assert(all.0.take(all.0.len() as int) =~= all.0);
    lemma_words_of_pieces(s, all.0.len() as int, all.1);
    lemma_spaced_words(s);
}

/// As [`cutting_keeps_the_words`], for the first `n` pieces and the rest of the text.
proof fn lemma_words_of_pieces(s: Seq<char>, n: int, rest: Seq<char>)
    requires
        words_fit(s),
        0 <= n < parser_pieces(s).len(),
        uncut(parser_pieces(s).take(n)) + rest == spaced(s),
    ensures
        words_of_pieces(parser_pieces(s).take(n)) + words(rest) == words(spaced(s)),
    decreases n,
{
    let p = parser_pieces(s);
    if n == 0 {
        assert(p.take(0) =~= seq![]);
        assert(uncut(p.take(0)) + rest =~= rest);
        assert(words_of_pieces(p.take(0)) + words(rest) =~= words(rest));
    } else {
        let x = p[n - 1];
        lemma_chunks(s, s.len() as int);
        lemma_uncut_prefix(p, n - 1);
        let head = uncut(p.take(n - 1));
        assert(p.take(n).drop_last() =~= p.take(n - 1));
        assert(p.take(n).last() == x);
        if x.len() < CHUNK_MAX {
            let tail = x + seq![' '] + rest;
            assert(head + tail =~= spaced(s));
            lemma_words_of_pieces(s, n - 1, tail);
            lemma_words_apart(x, ' ', rest);
        } else {
            let tail = x + rest;
            assert(head + tail =~= spaced(s));
            lemma_words_of_pieces(s, n - 1, tail);
            assert(spaceless(x));
            let i = head.len() as int;
            if rest.len() > 0 {
                assert(spaced(s).len() == s.len());
                assert(is_place(s, i));
                let run = spaced(s).subrange(i, i + CHUNK_MAX + 1);
                if rest[0] != ' ' {
                    assert forall|j: int| 0 <= j < run.len() implies #[trigger] run[j] != ' ' by {
                        assert(run[j] == tail[j]);
                        if j < x.len() {
                            assert(x[j] != ' ');
                        }
                    }
                    assert(spaceless(run));
                }
                let more = rest.drop_first();
                assert(tail =~= x + seq![' '] + more);
                lemma_words_apart(x, ' ', more);
                assert(rest =~= Seq::<char>::empty() + seq![' '] + more);
                lemma_words_apart(seq![], ' ', more);
                assert(words(Seq::<char>::empty()) + words(more) =~= words(more));
            } else {
                assert(tail =~= x);
                assert(words(x) + words(rest) =~= words(x));
            }
        }
        assert(words_of_pieces(p.take(n)) + words(rest) =~= words_of_pieces(p.take(n - 1)) + (words(
            x,
        ) + words(rest)));
    }
}

/// An entry of a dictionary is listed under its own address with the word that it reads as;
/// one without a word is not listed.
pub proof fn a_word_is_listed_under_its_address(
    d: DictShape,
    words: Seq<Seq<char>>,
    n: nat,
    i: int,
)
    requires
        0 <= i < n <= words.len(),
        d.base + n * d.entry_length <= u32::MAX,
        trim(words[i]).len() > 0,
    ensures
        exists|k: int|
            0 <= k < dict_map(d, words, n).len() && (#[trigger] dict_map(d, words, n)[k]).0 == d.base
                + i * d.entry_length && dict_map(d, words, n)[k].1 == trim(words[i]),
    decreases n,
{
    let now = dict_map(d, words, n);
    assert(0 <= i * d.entry_length <= n * d.entry_length && (n - 1) * d.entry_length <= n
        * d.entry_length) by (nonlinear_arith)
        requires
            0 <= i < n,
            d.entry_length >= 0,
    ;
    if i == n - 1 {
        let k = now.len() - 1;
        assert(now[k].0 == d.base + i * d.entry_length);
    } else {
        let before = dict_map(d, words, (n - 1) as nat);
        a_word_is_listed_under_its_address(d, words, (n - 1) as nat, i);
        let k = choose|k: int|
            0 <= k < before.len() && (#[trigger] before[k]).0 == d.base + i * d.entry_length
                && before[k].1 == trim(words[i]);
        assert(now[k] == before[k]);
    }
}

/// The properties of an object are listed from the first on, each once and by descending
/// numbers.
pub proof fn properties_descend(v: Seq<PropEntry>, n: u8, steps: nat, i: int, j: int)
    requires
        0 <= i < j < props_from(v, n, steps).len(),
    ensures
        props_from(v, n, steps)[0] == n,
        props_from(v, n, steps)[i] > props_from(v, n, steps)[j],
        props_from(v, n, steps)[j] > 0,
    decreases steps,
{
    let rest = props_from(v, prop_next(v, n), (steps - 1) as nat);
    assert(props_from(v, n, steps)[j] == rest[j - 1]);
    assert(rest[0] == prop_next(v, n)) by {
        if rest.len() > 1 {
            properties_descend(v, prop_next(v, n), (steps - 1) as nat, 0, 1);
        }
    }
    if i > 0 {
        properties_descend(v, prop_next(v, n), (steps - 1) as nat, i - 1, j - 1);
        assert(props_from(v, n, steps)[i] == rest[i - 1]);
    } else if j > 1 {
        properties_descend(v, prop_next(v, n), (steps - 1) as nat, 0, j - 1);
    } else {
        assert(rest[0] > 0);
    }
}

/// An address of six digits behind `@0x` is read as the number that the digits denote.
pub proof fn an_address_is_read_by_its_digits(a: Seq<char>, n: nat, b: Seq<char>)
    requires
        n < 0x100_0000,
    ensures
        ref_at(a + "@0x"@ + hex_pad(n, 6) + b, a.len() as int),
        ref_addr(a + "@0x"@ + hex_pad(n, 6) + b, a.len() as int) == n,
{
    reveal_strlit("@0x");
    let d = hex_pad(n, 6);
    a_hexadecimal_numeral_denotes_its_number(n, 6);
    lemma_six_digits(n);
    let s = a + "@0x"@ + d + b;
    let i = a.len() as int;
    assert forall|k: int| i + 3 <= k < i + 9 implies hex_value(#[trigger] s[k]) < 16 by {
        assert(s[k] == d[k - i - 3]);
    }
    assert(s[i + 3] == d[0] && s[i + 4] == d[1] && s[i + 5] == d[2] && s[i + 6] == d[3] && s[i + 7]
        == d[4] && s[i + 8] == d[5]);
    let d5 = d.drop_last();
    let d4 = d5.drop_last();
    let d3 = d4.drop_last();
    let d2 = d3.drop_last();
    let d1 = d2.drop_last();
    let d0 = d1.drop_last();
    assert(numeral_value(d0, 16) == 0);
    assert(numeral_value(d1, 16) == hex_value(d[0]));
    assert(numeral_value(d2, 16) == hex_value(d[0]) * 16 + hex_value(d[1]));
    assert(numeral_value(d3, 16) == numeral_value(d2, 16) * 16 + hex_value(d[2]));
    assert(numeral_value(d4, 16) == numeral_value(d3, 16) * 16 + hex_value(d[3]));
    assert(numeral_value(d5, 16) == numeral_value(d4, 16) * 16 + hex_value(d[4]));
    assert(numeral_value(d, 16) == numeral_value(d5, 16) * 16 + hex_value(d[5]));
}

/// What stands at the first address of a line is written directly behind it, and the line
/// before it stays as it is.
pub proof fn what_is_there_is_written_behind_the_address(
    s: Seq<char>,
    objs: Seq<(u32, u16)>,
    dict: Seq<(u32, String)>,
    i: int,
    j: int,
)
    requires
        0 <= j <= i,
        ref_at(s, i),
        forall|k: int| j <= k < i ==> !ref_at(s, k),
    ensures
        annotated(s, objs, dict, j) == s.subrange(j, i + 9) + tag_of(objs, dict, ref_addr(s, i))
            + annotated(s, objs, dict, i + 9),
    decreases i - j,
{
    if j < i {
        assert(!ref_at(s, j));
        what_is_there_is_written_behind_the_address(s, objs, dict, i, j + 1);
        assert(seq![s[j]] + s.subrange(j + 1, i + 9) =~= s.subrange(j, i + 9));
        let t = tag_of(objs, dict, ref_addr(s, i));
        let r = annotated(s, objs, dict, i + 9);
        assert(seq![s[j]] + (s.subrange(j + 1, i + 9) + t + r) =~= s.subrange(j, i + 9) + t + r);
    }
}

/// Where an address is first listed is the first place that it is listed at.
proof fn lemma_find_addr_at<T>(v: Seq<(u32, T)>, addr: int, k: int)
    requires
        0 <= k <= v.len(),
        k < v.len() ==> v[k].0 == addr,
        forall|i: int| 0 <= i < k ==> (#[trigger] v[i]).0 != addr,
    ensures
        find_addr(v, addr) == k,
    decreases k,
{
    if k > 0 {
        assert(v[0].0 != addr);
        assert forall|i: int| 0 <= i < k - 1 implies (#[trigger] v.drop_first()[i]).0 != addr by {
            assert(v.drop_first()[i] == v[i + 1]);
        }
        lemma_find_addr_at(v.drop_first(), addr, k - 1);
    }
}

/// Behind an address stands the number of the object that is listed there; where there is
/// none, the word that is; and where there is neither, nothing.
pub proof fn an_address_is_told_by_what_is_there(
    objs: Seq<(u32, u16)>,
    dict: Seq<(u32, String)>,
    addr: int,
    o: int,
    d: int,
)
    requires
        0 <= o <= objs.len(),
        o < objs.len() ==> objs[o].0 == addr,
        forall|i: int| 0 <= i < o ==> (#[trigger] objs[i]).0 != addr,
        0 <= d <= dict.len(),
        d < dict.len() ==> dict[d].0 == addr,
        forall|i: int| 0 <= i < d ==> (#[trigger] dict[i]).0 != addr,
    ensures
        o < objs.len() ==> tells_dec(
            tag_of(objs, dict, addr),
            " [obj#"@,
            objs[o].1 as int,
            "]"@,
        ),
        o == objs.len() && d < dict.len() ==> tag_of(objs, dict, addr) == seq![' ', '[']
            + dict[d].1@ + seq![']'],
        o == objs.len() && d == dict.len() ==> tag_of(objs, dict, addr).len() == 0,
{
    lemma_find_addr_at(objs, addr, o);
    lemma_find_addr_at(dict, addr, d);
    reveal_strlit(" [");
    reveal_strlit("]");
    let e = Seq::<char>::empty();
    if o < objs.len() {
        lemma_tells_dec(e, " [obj#"@, objs[o].1 as int, "]"@, e);
        assert(tag_of(objs, dict, addr) =~= e + " [obj#"@ + dec_int(objs[o].1 as int) + "]"@ + e);
    } else if d < dict.len() {
        assert(tag_of(objs, dict, addr) =~= seq![' ', '['] + dict[d].1@ + seq![']']);
    }
}

/// An attribute is listed exactly where it is set.
pub proof fn an_attribute_is_listed_where_it_is_set(attrs: Seq<bool>, n: nat, a: nat)
    ensures
        set_below(attrs, n).contains(dec(a)) <==> a < n && a < attrs.len() && attrs[a as int],
    decreases n,
{
    if n > 0 {
        let before = set_below(attrs, (n - 1) as nat);
        an_attribute_is_listed_where_it_is_set(attrs, (n - 1) as nat, a);
        if n <= attrs.len() && attrs[n - 1] {
            let x = dec((n - 1) as nat);
            let now = before.push(x);
            assert(now[now.len() - 1] == x);
            if before.contains(dec(a)) {
                let k = choose|k: int| 0 <= k < before.len() && before[k] == dec(a);
                assert(now[k] == dec(a));
            }
            if now.contains(dec(a)) && !before.contains(dec(a)) {
                let k = choose|k: int| 0 <= k < now.len() && now[k] == dec(a);
                if k < before.len() {
                    assert(before[k] == dec(a));
                }
                a_decimal_numeral_denotes_its_number(a);
                a_decimal_numeral_denotes_its_number((n - 1) as nat);
            }
        }
    }
}

/// The line of a word tells the address of its entry, and ends in the word; and the first
/// line of an object tells the address of its own.
pub proof fn an_entry_is_told_by_its_address(e: (u32, String), d: ObjectDetail, version: u8)
    ensures
        tells_hex(word_line(e), "@0x"@, e.0 as int),
        word_line(e).skip(word_line(e).len() - e.1@.len()) == e.1@,
        tells_hex(detail_lines(d, version)[0], "entry @0x"@, d.entry_addr as int),
{
    reveal_strlit(" ");
    let n = Seq::<char>::empty();
    lemma_tells_hex(n, "@0x"@, e.0 as nat, 6, " "@ + e.1@);
    assert(word_line(e) =~= n + "@0x"@ + hex_pad(e.0 as nat, 6) + (" "@ + e.1@));
    assert(word_line(e).skip(word_line(e).len() - e.1@.len()) =~= e.1@);
    lemma_tells_hex(n, "entry @0x"@, d.entry_addr as nat, 6, n);
    assert(detail_lines(d, version)[0] =~= n + "entry @0x"@ + hex_pad(d.entry_addr as nat, 6) + n);
}

/// The line of a property tells its number, and its bytes by two digits each.
pub proof fn a_property_is_told_by_its_bytes(v: Seq<PropEntry>, n: u8, k: int, i: int)
    requires
        0 <= k < v.len(),
        v[k].number == n,
        forall|j: int| 0 <= j < k ==> (#[trigger] v[j]).number != n,
        0 <= i < v[k].bytes@.len(),
    ensures
        tells_dec(prop_line(v, n), "  prop "@, n as int, ": "@),
        ({
            let line = prop_line(v, n);
            let from = line.len() - (3 * v[k].bytes@.len() - 1) + 3 * i;
            0 <= from && numeral_value(line.subrange(from, from + 2), 16) == v[k].bytes@[i]
        }),
{
    lemma_find_prop(v, n, k);
    let e = Seq::<char>::empty();
    let list = prop_bytes(v, n).map_values(|b: u8| hex_pad(b as nat, 2));
    let bytes = joined(list, " "@);
    lemma_tells_dec(e, "  prop "@, n as int, ": "@, bytes);
    let line = prop_line(v, n);
    assert(line =~= e + "  prop "@ + dec_int(n as int) + ": "@ + bytes);
    assert forall|j: int| 0 <= j < list.len() implies (#[trigger] list[j]).len() == 2 by {
        reveal_with_fuel(hex_pad, 3);
    }
    lemma_joined_pairs(list, i);
    let from = line.len() - bytes.len() + 3 * i;
    assert(line.subrange(from, from + 2) =~= bytes.subrange(3 * i, 3 * i + 2));
    a_hexadecimal_numeral_denotes_its_number(v[k].bytes@[i] as nat, 2);
}

/// Where the texts of two characters stand that are joined by spaces.
proof fn lemma_joined_pairs(v: Seq<Seq<char>>, i: int)
    requires
        0 <= i < v.len(),
        forall|j: int| 0 <= j < v.len() ==> (#[trigger] v[j]).len() == 2,
    ensures
        joined(v, " "@).len() == 3 * v.len() - 1,
        joined(v, " "@).subrange(3 * i, 3 * i + 2) == v[i],
    decreases v.len(),
{
    reveal_strlit(" ");
    let all = joined(v, " "@);
    if v.len() == 1 {
        assert(v[0].len() == 2);
        assert(all.subrange(0, 2) =~= v[0]);
    } else {
        let w = v.drop_last();
        assert forall|j: int| 0 <= j < w.len() implies (#[trigger] w[j]).len() == 2 by {
            assert(w[j] == v[j]);
        }
        assert(v[v.len() - 1].len() == 2);
        lemma_joined_pairs(w, if i < w.len() {
            i
        } else {
            0
        });
        let before = joined(w, " "@);
        if i < w.len() {
            assert(all.subrange(3 * i, 3 * i + 2) =~= before.subrange(3 * i, 3 * i + 2));
        } else {
            assert(all.subrange(3 * i, 3 * i + 2) =~= v.last());
        }
    }
}

} // verus!
