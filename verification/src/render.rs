//! What the HTML view of a song shows, decided on plain values: the
//! spelling of a note, the mark of a time offset, the labels of chord
//! modifiers, the default order of a song and the list of its orders.

use vstd::prelude::*;
#[allow(unused_imports)]
use vstd::string::*;
use crate::base::{letter_pitch, NoteHeight, TimeOffset, ChordKeyword, ChordAlterationKind, MusicEvent, Song,
    Subsection, assoc_get};
use crate::toneutil::{spec_is_altered, is_altered};
use crate::text::str_eq;

verus! {

// ----- note names -----

/// Name of a pitch class spelled with sharps (the letter only).
pub open spec fn sharp_name(i: int) -> Seq<char> {
    if i == 0 || i == 1 {
        seq!['C']
    } else if i == 2 || i == 3 {
        seq!['D']
    } else if i == 4 {
        seq!['E']
    } else if i == 5 || i == 6 {
        seq!['F']
    } else if i == 7 || i == 8 {
        seq!['G']
    } else if i == 9 || i == 10 {
        seq!['A']
    } else {
        seq!['B']
    }
}

/// Name of a pitch class spelled with flats (the letter only).
pub open spec fn flat_name(i: int) -> Seq<char> {
    if i == 0 {
        seq!['C']
    } else if i == 1 || i == 2 {
        seq!['D']
    } else if i == 3 || i == 4 {
        seq!['E']
    } else if i == 5 {
        seq!['F']
    } else if i == 6 || i == 7 {
        seq!['G']
    } else if i == 8 || i == 9 {
        seq!['A']
    } else {
        seq!['B']
    }
}

/// The two spellings of a pitch class agree on the letter exactly when the
/// note is not altered, and the letter then names the pitch itself; for an
/// altered note the sharp spelling raises the letter below it and the flat
/// spelling lowers the letter above it.
pub proof fn lemma_spellings(a: NoteHeight)
    ensures
        ({
            let p = (a % 12) as int;
            &&& spec_is_altered(a) == (sharp_name(p) != flat_name(p))
            &&& !spec_is_altered(a) ==> letter_pitch(sharp_name(p)[0]) == Some(p)
            &&& spec_is_altered(a) ==> letter_pitch(sharp_name(p)[0]) == Some(p - 1)
                && letter_pitch(flat_name(p)[0]) == Some(p + 1)
        }),
{
}

/// The letter of a pitch class (0 to 11) spelled with sharps.
pub fn sharp_tonic_name(i: NoteHeight) -> (r: &'static str)
    requires
        i < 12,
    ensures
        r@ == sharp_name(i as int),
{
    proof {
        reveal_strlit("C");
        reveal_strlit("D");
        reveal_strlit("E");
        reveal_strlit("F");
        reveal_strlit("G");
        reveal_strlit("A");
        reveal_strlit("B");
    }
    if i <= 1 {
        "C"
    } else if i <= 3 {
        "D"
    } else if i == 4 {
        "E"
    } else if i <= 6 {
        "F"
    } else if i <= 8 {
        "G"
    } else if i <= 10 {
        "A"
    } else {
        "B"
    }
}

/// The letter of a pitch class (0 to 11) spelled with flats.
pub fn flat_tonic_name(i: NoteHeight) -> (r: &'static str)
    requires
        i < 12,
    ensures
        r@ == flat_name(i as int),
{
    proof {
        reveal_strlit("C");
        reveal_strlit("D");
        reveal_strlit("E");
        reveal_strlit("F");
        reveal_strlit("G");
        reveal_strlit("A");
        reveal_strlit("B");
    }
    if i == 0 {
        "C"
    } else if i <= 2 {
        "D"
    } else if i <= 4 {
        "E"
    } else if i == 5 {
        "F"
    } else if i <= 7 {
        "G"
    } else if i <= 9 {
        "A"
    } else {
        "B"
    }
}

/// How a note is written: its letter and the accidental shown after it, a
/// flat (`b`) or a sharp (`#`) on the black keys, as `use_flats` asks.
pub fn root_spelling(root: NoteHeight, use_flats: bool) -> (r: (&'static str, Option<&'static str>))
    requires
        root < 12,
    ensures
        spec_is_altered(root) && use_flats ==> r.0@ == flat_name(root as int) && (r.1 matches Some(
            a,
        ) && a@ == seq!['b']),
        spec_is_altered(root) && !use_flats ==> r.0@ == sharp_name(root as int) && (r.1 matches Some(
            a,
        ) && a@ == seq!['#']),
        !spec_is_altered(root) ==> r.0@ == sharp_name(root as int) && r.1 is None,
{
    proof {
        reveal_strlit("b");
        reveal_strlit("#");
    }
    if is_altered(root) {
        if use_flats {
            (flat_tonic_name(root), Some("b"))
        } else {
            (sharp_tonic_name(root), Some("#"))
        }
    } else {
        (sharp_tonic_name(root), None)
    }
}

// ----- time offsets -----

/// The mark of a time offset: `<` for half a beat before, a fraction before
/// the beat, or the beat number with `"` for half a beat, with a fraction,
/// or alone (where the denominator is 0).
#[derive(Debug, Clone, Copy, PartialEq, Eq, Structural)]
pub enum TimeMark {
    Before,
    BeforeFraction(u8, u8),
    Beat(i8),
    BeatHalf(i8),
    BeatFraction(i8, u8, u8),
}

pub open spec fn spec_time_mark(t: TimeOffset) -> TimeMark {
    if t.beat == -1 {
        if t.den == 2 && t.num == 1 {
            TimeMark::Before
        } else {
            TimeMark::BeforeFraction(t.num, t.den)
        }
    } else if t.den == 0 {
        TimeMark::Beat(t.beat)
    } else if t.den == 2 && t.num == 1 {
        TimeMark::BeatHalf(t.beat)
    } else {
        TimeMark::BeatFraction(t.beat, t.num, t.den)
    }
}

/// What is shown for a time offset.
pub fn time_mark(t: &TimeOffset) -> (r: TimeMark)
    ensures
        r == spec_time_mark(*t),
{
    if t.beat == -1 {
        if t.den == 2 && t.num == 1 {
            TimeMark::Before
        } else {
            TimeMark::BeforeFraction(t.num, t.den)
        }
    } else if t.den == 0 {
        TimeMark::Beat(t.beat)
    } else if t.den == 2 && t.num == 1 {
        TimeMark::BeatHalf(t.beat)
    } else {
        TimeMark::BeatFraction(t.beat, t.num, t.den)
    }
}

// ----- chord modifiers -----

/// The label of a chord keyword; `K5` has none.
pub open spec fn keyword_label(k: ChordKeyword) -> Option<Seq<char>> {
    match k {
        ChordKeyword::Sus2 => Some(seq!['s', 'u', 's', '2']),
        ChordKeyword::Sus4 => Some(seq!['s', 'u', 's', '4']),
        ChordKeyword::Add2 => Some(seq!['a', 'd', 'd', '2']),
        ChordKeyword::Add4 => Some(seq!['a', 'd', 'd', '4']),
        ChordKeyword::Add9 => Some(seq!['a', 'd', 'd', '9']),
        ChordKeyword::Add11 => Some(seq!['a', 'd', 'd', '1', '1']),
        ChordKeyword::Dim => Some(seq!['d', 'i', 'm']),
        ChordKeyword::Aug => Some(seq!['a', 'u', 'g']),
        ChordKeyword::Maj => Some(seq!['Δ']),
        ChordKeyword::K6 => Some(seq!['6']),
        ChordKeyword::K7 => Some(seq!['7']),
        ChordKeyword::K9 => Some(seq!['9']),
        ChordKeyword::K11 => Some(seq!['1', '1']),
        ChordKeyword::K13 => Some(seq!['1', '3']),
        ChordKeyword::K69 => Some(seq!['6', '/', '9']),
        ChordKeyword::K5 => None,
    }
}

/// The label shown for a chord keyword.
pub fn chord_keyword_name(k: ChordKeyword) -> (r: Option<&'static str>)
    ensures
        match keyword_label(k) {
            Some(l) => r matches Some(x) && x@ == l,
            None => r is None,
        },
{
    proof {
        reveal_strlit("sus2");
        reveal_strlit("sus4");
        reveal_strlit("add2");
        reveal_strlit("add4");
        reveal_strlit("add9");
        reveal_strlit("add11");
        reveal_strlit("dim");
        reveal_strlit("aug");
        reveal_strlit("Δ");
        reveal_strlit("6");
        reveal_strlit("7");
        reveal_strlit("9");
        reveal_strlit("11");
        reveal_strlit("13");
        reveal_strlit("6/9");
    }
    match k {
        ChordKeyword::Sus2 => Some("sus2"),
        ChordKeyword::Sus4 => Some("sus4"),
        ChordKeyword::Add2 => Some("add2"),
        ChordKeyword::Add4 => Some("add4"),
        ChordKeyword::Add9 => Some("add9"),
        ChordKeyword::Add11 => Some("add11"),
        ChordKeyword::Dim => Some("dim"),
        ChordKeyword::Aug => Some("aug"),
        ChordKeyword::Maj => Some("Δ"),
        ChordKeyword::K6 => Some("6"),
        ChordKeyword::K7 => Some("7"),
        ChordKeyword::K9 => Some("9"),
        ChordKeyword::K11 => Some("11"),
        ChordKeyword::K13 => Some("13"),
        ChordKeyword::K69 => Some("6/9"),
        ChordKeyword::K5 => None,
    }
}

/// Keywords shown in the short style: `Maj`, 5, 6, 7, 9 and 13.
pub open spec fn spec_keyword_is_short(k: ChordKeyword) -> bool {
    match k {
        ChordKeyword::Maj | ChordKeyword::K5 | ChordKeyword::K6 | ChordKeyword::K7 | ChordKeyword::K9
        | ChordKeyword::K13 => true,
        _ => false,
    }
}

/// Whether a keyword is shown in the short style.
pub fn keyword_is_short(k: ChordKeyword) -> (r: bool)
    ensures
        r == spec_keyword_is_short(k),
{
    match k {
        ChordKeyword::Maj | ChordKeyword::K5 | ChordKeyword::K6 | ChordKeyword::K7 | ChordKeyword::K9
        | ChordKeyword::K13 => true,
        _ => false,
    }
}

/// The text of an alteration kind: `b`, `#` or `no`.
pub fn alteration_label(k: ChordAlterationKind) -> (r: &'static str)
    ensures
        k is Flat ==> r@ == seq!['b'],
        k is Sharp ==> r@ == seq!['#'],
        k is No ==> r@ == seq!['n', 'o'],
{
    proof {
        reveal_strlit("b");
        reveal_strlit("#");
        reveal_strlit("no");
    }
    match k {
        ChordAlterationKind::Flat => "b",
        ChordAlterationKind::Sharp => "#",
        ChordAlterationKind::No => "no",
    }
}

/// Whether the chords that follow an event are inside parentheses: an
/// opening parenthesis starts them, a closing one ends them.
pub fn paren_state(inside: bool, evt: &MusicEvent) -> (r: bool)
    ensures
        evt is OpenParen ==> r,
        evt is CloseParen ==> !r,
        !(evt is OpenParen) && !(evt is CloseParen) ==> r == inside,
{
    match evt {
        MusicEvent::OpenParen => true,
        MusicEvent::CloseParen => false,
        _ => inside,
    }
}

// ----- sections -----

/// A section whose name starts with `C` is a chorus.
pub fn is_chorus(name: &str) -> (r: bool)
    ensures
        r == (name@.len() > 0 && name@[0] == 'C'),
{
    name.unicode_len() > 0 && name.get_char(0) == 'C'
}

/// The `ref` entry of a subsection's metadata.
pub fn subsection_ref(sub: &Subsection) -> (r: Option<&String>)
    ensures
        match assoc_get(sub.metadata.deep_view(), seq!['r', 'e', 'f']) {
            Some(v) => r matches Some(x) && x@ == v,
            None => r is None,
        },
{
    proof {
        reveal_strlit("ref");
    }
    let ghost v = sub.metadata.deep_view();
    let mut j = sub.metadata.len();
    assert(v.take(j as int) =~= v);
    while j > 0
        invariant
            v == sub.metadata.deep_view(),
            j <= sub.metadata.len(),
            "ref"@ == seq!['r', 'e', 'f'],
            assoc_get(v, seq!['r', 'e', 'f']) == assoc_get(v.take(j as int), seq!['r', 'e', 'f']),
        decreases j,
    {
        let entry = &sub.metadata[j - 1];
        assert(v.take(j as int).last() == (entry.0@, entry.1@));
        if str_eq(entry.0.as_str(), "ref") {
            return Some(&entry.1);
        }
        assert(v.take(j as int).drop_last() =~= v.take(j - 1));
        j = j - 1;
    }
    None
}

// ----- orders -----

/// Index of the entry that holds the value of `key` in an association list:
/// the last one with that key.
pub open spec fn last_index_of<V>(s: Seq<(Seq<char>, V)>, key: Seq<char>) -> Option<int>
    decreases s.len(),
{
    if s.len() == 0 {
        None
    } else if s.last().0 == key {
        Some(s.len() - 1)
    } else {
        last_index_of(s.drop_last(), key)
    }
}

proof fn lemma_last_index_of<V>(s: Seq<(Seq<char>, V)>, key: Seq<char>)
    ensures
        match last_index_of(s, key) {
            Some(i) => 0 <= i < s.len() && s[i].0 == key && assoc_get(s, key) == Some(s[i].1),
            None => assoc_get(s, key) is None,
        },
    decreases s.len(),
{
    if s.len() > 0 && s.last().0 != key {
        lemma_last_index_of(s.drop_last(), key);
    }
}

fn find_order(orders: &Vec<(String, Vec<usize>)>, key: &str) -> (r: Option<usize>)
    ensures
        match r {
            Some(k) => last_index_of(orders.deep_view(), key@) == Some(k as int),
            None => last_index_of(orders.deep_view(), key@) is None,
        },
{
    let ghost v = orders.deep_view();
    let mut j = orders.len();
    assert(v.take(j as int) =~= v);
    while j > 0
        invariant
            v == orders.deep_view(),
            j <= orders.len(),
            last_index_of(v, key@) == last_index_of(v.take(j as int), key@),
        decreases j,
    {
        let entry = &orders[j - 1];
        assert(v.take(j as int).last().0 == entry.0@);
        if str_eq(entry.0.as_str(), key) {
            return Some(j - 1);
        }
        assert(v.take(j as int).drop_last() =~= v.take(j - 1));
        j = j - 1;
    }
    None
}

/// The order a song is shown in: the one named `default`, else the one
/// named `full`, else the first order the song names.
pub open spec fn default_order(orders: Seq<(Seq<char>, Seq<usize>)>) -> Option<(Seq<char>, Seq<usize>)> {
    let d = seq!['d', 'e', 'f', 'a', 'u', 'l', 't'];
    let f = seq!['f', 'u', 'l', 'l'];
    match assoc_get(orders, d) {
        Some(v) => Some((d, v)),
        None => match assoc_get(orders, f) {
            Some(v) => Some((f, v)),
            None => if orders.len() > 0 {
                match assoc_get(orders, orders[0].0) {
                    Some(v) => Some((orders[0].0, v)),
                    None => None,
                }
            } else {
                None
            },
        },
    }
}

/// The name and sections of the order a song is shown in.
pub fn get_default_order(song: &Song) -> (r: Option<(&str, &Vec<usize>)>)
    ensures
        match default_order(song.orders.deep_view()) {
            Some((k, v)) => r matches Some((a, b)) && a@ == k && b@ == v,
            None => r is None,
        },
{
    proof {
        reveal_strlit("default");
        reveal_strlit("full");
    }
    let ghost v = song.orders.deep_view();
    proof {
        lemma_last_index_of(v, seq!['d', 'e', 'f', 'a', 'u', 'l', 't']);
        lemma_last_index_of(v, seq!['f', 'u', 'l', 'l']);
    }
    assert("default"@ =~= seq!['d', 'e', 'f', 'a', 'u', 'l', 't']);
    assert("full"@ =~= seq!['f', 'u', 'l', 'l']);
    let i = match find_order(&song.orders, "default") {
        Some(i) => {
            assert(default_order(v) == Some((v[i as int].0, v[i as int].1)));
            i
        },
        None => match find_order(&song.orders, "full") {
            Some(i) => {
                assert(default_order(v) == Some((v[i as int].0, v[i as int].1)));
                i
            },
            None => {
                if song.orders.len() == 0 {
                    return None;
                }
                let first = song.orders[0].0.as_str();
                assert(first@ == v[0].0);
                proof {
                    lemma_last_index_of(v, v[0].0);
                }
                match find_order(&song.orders, first) {
                    Some(i) => {
                        assert(default_order(v) == Some((v[i as int].0, v[i as int].1)));
                        i
                    },
                    None => {
                        return None;
                    },
                }
            },
        },
    };
    let entry = &song.orders[i];
    assert(entry.1.deep_view() =~= entry.1@);
    assert(v[i as int] == (entry.0@, entry.1.deep_view()));
    assert(default_order(v) == Some((entry.0@, entry.1@)));
    Some((entry.0.as_str(), &entry.1))
}

/// The names of the orders of a song, each once, in the order they first
/// appear.
pub open spec fn order_names(orders: Seq<(Seq<char>, Seq<usize>)>) -> Seq<Seq<char>>
    decreases orders.len(),
{
    if orders.len() == 0 {
        Seq::empty()
    } else {
        let prev = order_names(orders.drop_last());
        if prev.contains(orders.last().0) {
            prev
        } else {
            prev.push(orders.last().0)
        }
    }
}

// ----- JSON text of a list of strings -----

/// A hexadecimal digit, lower case.
pub open spec fn hex_digit(n: int) -> char {
    if n < 10 {
        (('0' as int) + n) as char
    } else {
        (('a' as int) + n - 10) as char
    }
}

/// A character inside a JSON string: `"` and `\` escaped by a backslash,
/// backspace, tab, line feed, form feed and carriage return by their short
/// escapes, the other control characters below U+0020 as `\u00` and two
/// lower-case hexadecimal digits, and every other character as itself.
pub open spec fn json_char(c: char) -> Seq<char> {
    let n = c as int;
    if c == '"' {
        seq!['\\', '"']
    } else if c == '\\' {
        seq!['\\', '\\']
    } else if n == 8 {
        seq!['\\', 'b']
    } else if n == 9 {
        seq!['\\', 't']
    } else if n == 10 {
        seq!['\\', 'n']
    } else if n == 12 {
        seq!['\\', 'f']
    } else if n == 13 {
        seq!['\\', 'r']
    } else if n < 32 {
        seq!['\\', 'u', '0', '0', hex_digit(n / 16), hex_digit(n % 16)]
    } else {
        seq![c]
    }
}

/// The escaped characters of a text, in order.
pub open spec fn json_chars(s: Seq<char>) -> Seq<char>
    decreases s.len(),
{
    if s.len() == 0 {
        Seq::empty()
    } else {
        json_chars(s.drop_last()) + json_char(s.last())
    }
}

/// A text as a JSON string.
pub open spec fn json_string(s: Seq<char>) -> Seq<char> {
    seq!['"'] + json_chars(s) + seq!['"']
}

/// The JSON strings of the items, separated by commas.
pub open spec fn json_elements(items: Seq<Seq<char>>) -> Seq<char>
    decreases items.len(),
{
    if items.len() == 0 {
        Seq::empty()
    } else if items.len() == 1 {
        json_string(items[0])
    } else {
        json_elements(items.drop_last()) + seq![','] + json_string(items.last())
    }
}

/// A list of texts as compact JSON: `[`, the strings separated by commas, `]`.
pub open spec fn json_strings(items: Seq<Seq<char>>) -> Seq<char> {
    seq!['['] + json_elements(items) + seq![']']
}

/// `serde_json::to_string` on a list of strings: the compact JSON array of
/// the strings, escaped as its string writer escapes them (this call cannot
/// fail on strings, so the empty text of `unwrap_or_default` never comes).
#[verifier::external_body]
fn to_json_strings(items: &Vec<String>) -> (r: String)
    ensures
        r@ == json_strings(items.deep_view()),
{
    serde_json::to_string(items).unwrap_or_default()
}

/// The names of a song's orders as a JSON list.
pub fn get_orders_serialized(song: &Song) -> (r: String)
    ensures
        r@ == json_strings(order_names(song.orders.deep_view())),
{
    let ghost v = song.orders.deep_view();
    let mut names: Vec<String> = Vec::new();
    let mut i: usize = 0;
    assert(v.take(0) =~= Seq::<(Seq<char>, Seq<usize>)>::empty());
    assert(names.deep_view() =~= Seq::<Seq<char>>::empty());
    while i < song.orders.len()
        invariant
            v == song.orders.deep_view(),
            i <= song.orders.len(),
            names.deep_view() == order_names(v.take(i as int)),
        decreases song.orders.len() - i,
    {
        let key = &song.orders[i].0;
        assert(v.take(i + 1).drop_last() =~= v.take(i as int));
        assert(v.take(i + 1).last().0 == key@);
        let mut seen = false;
        let mut j: usize = 0;
        while j < names.len()
            invariant
                j <= names.len(),
                seen == exists|k: int| 0 <= k < j && names.deep_view()[k] == key@,
            decreases names.len() - j,
        {
            assert(names.deep_view()[j as int] == names[j as int]@);
            if str_eq(names[j].as_str(), key.as_str()) {
                seen = true;
            }
            j = j + 1;
        }
        assert(seen == names.deep_view().contains(key@));
        if !seen {
            let ghost before = names.deep_view();
            names.push(key.clone());
            assert(names.deep_view() =~= before.push(key@));
        }
        i = i + 1;
    }
    assert(v.take(song.orders.len() as int) =~= v);
    to_json_strings(&names)
}

// ----- interface texts -----

/// The English interface texts: abbreviated day names, `Sun` reading `Sat`.
pub open spec fn en_table(key: Seq<char>) -> Option<Seq<char>> {
    if key == seq!['M', 'o', 'n'] {
        Some(seq!['M', 'o', 'n'])
    } else if key == seq!['T', 'u', 'e'] {
        Some(seq!['T', 'u', 'e'])
    } else if key == seq!['W', 'e', 'd'] {
        Some(seq!['W', 'e', 'd'])
    } else if key == seq!['T', 'h', 'u'] {
        Some(seq!['T', 'h', 'u'])
    } else if key == seq!['F', 'r', 'i'] {
        Some(seq!['F', 'r', 'i'])
    } else if key == seq!['S', 'a', 't'] || key == seq!['S', 'u', 'n'] {
        Some(seq!['S', 'a', 't'])
    } else {
        None
    }
}

/// The English text for an interface key.
pub fn en_text(key: &str) -> (r: Option<&'static str>)
    ensures
        match en_table(key@) {
            Some(t) => r matches Some(x) && x@ == t,
            None => r is None,
        },
{
    proof {
        reveal_strlit("Mon");
        reveal_strlit("Tue");
        reveal_strlit("Wed");
        reveal_strlit("Thu");
        reveal_strlit("Fri");
        reveal_strlit("Sat");
        reveal_strlit("Sun");
    }
    assert("Mon"@ =~= seq!['M', 'o', 'n']);
    assert("Tue"@ =~= seq!['T', 'u', 'e']);
    assert("Wed"@ =~= seq!['W', 'e', 'd']);
    assert("Thu"@ =~= seq!['T', 'h', 'u']);
    assert("Fri"@ =~= seq!['F', 'r', 'i']);
    assert("Sat"@ =~= seq!['S', 'a', 't']);
    assert("Sun"@ =~= seq!['S', 'u', 'n']);
    if str_eq(key, "Mon") {
        Some("Mon")
    } else if str_eq(key, "Tue") {
        Some("Tue")
    } else if str_eq(key, "Wed") {
        Some("Wed")
    } else if str_eq(key, "Thu") {
        Some("Thu")
    } else if str_eq(key, "Fri") {
        Some("Fri")
    } else if str_eq(key, "Sat") || str_eq(key, "Sun") {
        Some("Sat")
    } else {
        None
    }
}

// ----- laws -----

/// A song with at least one order is always shown in one of them.
pub proof fn lemma_default_order_exists(orders: Seq<(Seq<char>, Seq<usize>)>)
    ensures
        orders.len() > 0 ==> default_order(orders) is Some,
{
    if orders.len() > 0 {
        lemma_last_index_of(orders, orders[0].0);
        assert(last_index_of(orders, orders[0].0) is Some) by {
            lemma_some_index(orders, orders[0].0, 0);
        }
    }
}

proof fn lemma_some_index<V>(s: Seq<(Seq<char>, V)>, key: Seq<char>, j: int)
    requires
        0 <= j < s.len(),
        s[j].0 == key,
    ensures
        last_index_of(s, key) is Some,
    decreases s.len(),
{
    if s.last().0 != key {
        assert(s.drop_last()[j] == s[j]);
        lemma_some_index(s.drop_last(), key, j);
    }
}

/// The list of order names holds each name of an order once.
pub proof fn lemma_order_names(orders: Seq<(Seq<char>, Seq<usize>)>)
    ensures
        forall|i: int, j: int|
            0 <= i < j < order_names(orders).len() ==> #[trigger] order_names(orders)[i] != #[trigger] order_names(
                orders,
            )[j],
        forall|k: int| 0 <= k < orders.len() ==> order_names(orders).contains(#[trigger] orders[k].0),
        forall|i: int|
            #![trigger order_names(orders)[i]]
            0 <= i < order_names(orders).len() ==> exists|k: int|
                0 <= k < orders.len() && #[trigger] orders[k].0 == order_names(orders)[i],
    decreases orders.len(),
{
    if orders.len() > 0 {
        let prev = orders.drop_last();
        lemma_order_names(prev);
        let p = order_names(prev);
        let key = orders.last().0;
        assert forall|k: int| 0 <= k < orders.len() implies order_names(orders).contains(
            #[trigger] orders[k].0,
        ) by {
            if k < prev.len() {
                assert(prev[k] == orders[k]);
                assert(p.contains(prev[k].0));
                if !p.contains(key) {
                    let w = choose|w: int| 0 <= w < p.len() && p[w] == prev[k].0;
                    assert(p.push(key)[w] == prev[k].0);
                }
            } else {
                if !p.contains(key) {
                    assert(p.push(key)[p.len() as int] == key);
                }
            }
        }
        assert forall|i: int|
            #![trigger order_names(orders)[i]]
            0 <= i < order_names(orders).len() implies exists|k: int|
                0 <= k < orders.len() && #[trigger] orders[k].0 == order_names(orders)[i] by {
            if i < p.len() {
                let k = choose|k: int| 0 <= k < prev.len() && #[trigger] prev[k].0 == p[i];
                assert(orders[k] == prev[k]);
            } else {
                assert(orders[orders.len() - 1].0 == key);
            }
        }
    }
}

} // verus!
