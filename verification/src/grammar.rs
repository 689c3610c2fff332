//! The combinator grammar of the SHB format, as a packrat-free recursive
//! descent over the characters of a song.
//!
//! Every rule `g_x(s, p)` reads the characters `s` from position `p`. It
//! ends `Done(value, end, alt)` with the position after what it read and the
//! furthest position at which an alternative it tried failed, `Fail(at)` with
//! the furthest position at which it failed, or `Panic` where reading the
//! input would abort (a note below C, a measure number above `u16::MAX`).
//! The positions are what the error of a rejected song reports: the
//! furthest failure wins, alternatives at one position merge.
//!
//! Each executable `lex_x` computes `g_x` exactly (`parsed_is`).

use vstd::prelude::*;
use crate::base::{LyricEvent, LyricEventView};
use crate::text::{ascii_letter, is_ascii_char, is_ws, is_whitespace, is_digit, trim, alphanumeric, is_alphanumeric, string_push,
    lemma_trim_start_skip, lemma_trim_end_take};

verus! {

// ----- results -----

/// What a grammar rule does from a position.
pub ghost enum Pr<T> {
    Done(T, int, Option<int>),
    Fail(int),
    Panic,
}

/// What an executable rule returns: the value, the end position and the
/// furthest failed alternative; the failure position; or an input that the
/// rule does not accept.
pub enum Parsed<T> {
    Done(T, usize, Option<usize>),
    Fail(usize),
    Panic,
}

pub open spec fn opt_int(a: Option<usize>) -> Option<int> {
    match a {
        Some(x) => Some(x as int),
        None => None,
    }
}

/// `r` is the executable form of `p`.
pub open spec fn parsed_is<T: DeepView>(r: Parsed<T>, p: Pr<T::V>) -> bool {
    match p {
        Pr::Done(v, e, a) => match r {
            Parsed::Done(x, e2, a2) => x.deep_view() == v && e2 == e && opt_int(a2) == a,
            _ => false,
        },
        Pr::Fail(at) => match r {
            Parsed::Fail(at2) => at2 == at,
            _ => false,
        },
        Pr::Panic => r is Panic,
    }
}

/// The furthest of two optional failure positions.
pub open spec fn amax(a: Option<int>, b: Option<int>) -> Option<int> {
    match a {
        None => b,
        Some(x) => match b {
            None => Some(x),
            Some(y) => if x >= y {
                Some(x)
            } else {
                Some(y)
            },
        },
    }
}

/// The furthest of a failure position and an optional one.
pub open spec fn emax(e: int, a: Option<int>) -> int {
    match a {
        None => e,
        Some(x) => if x > e {
            x
        } else {
            e
        },
    }
}

pub(crate) fn amax_x(a: Option<usize>, b: Option<usize>) -> (r: Option<usize>)
    ensures
        opt_int(r) == amax(opt_int(a), opt_int(b)),
{
    match a {
        None => b,
        Some(x) => match b {
            None => Some(x),
            Some(y) => if x >= y {
                Some(x)
            } else {
                Some(y)
            },
        },
    }
}

pub(crate) fn emax_x(e: usize, a: Option<usize>) -> (r: usize)
    ensures
        r == emax(e as int, opt_int(a)),
{
    match a {
        None => e,
        Some(x) => if x > e {
            x
        } else {
            e
        },
    }
}

// ----- character classes -----

/// Name for the result of `char::is_alphabetic` (Unicode `Alphabetic`).
pub uninterp spec fn alphabetic(c: char) -> bool;

/// `char::is_alphabetic`: its result is named by `alphabetic`. Among ASCII
/// characters, the letters are alphabetic and no others.
#[verifier::external_body]
pub(crate) fn is_alphabetic(c: char) -> (r: bool)
    ensures
        r == alphabetic(c),
        is_ascii_char(c) ==> (r == ascii_letter(c)),
{
    c.is_alphabetic()
}

/// The runs of characters that the grammar reads in one go.
pub enum Class {
    /// `' '`
    Space,
    /// `char::is_whitespace`
    White,
    /// alphanumeric or `_`: identifiers
    Ident,
    /// alphanumeric: identifiers of the prototype dialect
    Alnum,
    /// anything but `\n`, `|`, `\r`: a metadata value
    MetaArg,
    /// anything but `\n`, `\r`: a metadata value that may hold `|`
    MetaArgBar,
    /// `\n`, `|`, `\r`
    NewlineBar,
    /// `\n`, `\r`
    Newline,
    /// alphabetic: the kind of a section name
    Alpha,
    /// ASCII digit
    Digit,
    /// alphanumeric or `~`: the tail of a section name
    NameTail,
    /// anything but `|^\n\r·*`´`: lyric text
    Lyric,
    /// anything but `"` and `\n`: annotation text
    Annot,
}

/// Lyric text stops at these characters.
pub open spec fn lyric_stop(c: char) -> bool {
    c == '|' || c == '^' || c == '\n' || c == '\r' || c == '·' || c == '*' || c == '`' || c == '´'
}

pub open spec fn in_class(k: Class, c: char) -> bool {
    match k {
        Class::Space => c == ' ',
        Class::White => is_ws(c),
        Class::Ident => alphanumeric(c) || c == '_',
        Class::Alnum => alphanumeric(c),
        Class::MetaArg => !(c == '\n' || c == '|' || c == '\r'),
        Class::MetaArgBar => !(c == '\n' || c == '\r'),
        Class::NewlineBar => c == '\n' || c == '|' || c == '\r',
        Class::Newline => c == '\n' || c == '\r',
        Class::Alpha => alphabetic(c),
        Class::Digit => is_digit(c),
        Class::NameTail => alphanumeric(c) || c == '~',
        Class::Lyric => !lyric_stop(c),
        Class::Annot => !(c == '"' || c == '\n'),
    }
}

pub(crate) fn class_has(k: &Class, c: char) -> (r: bool)
    ensures
        r == in_class(*k, c),
{
    match k {
        Class::Space => c == ' ',
        Class::White => is_whitespace(c),
        Class::Ident => is_alphanumeric(c) || c == '_',
        Class::Alnum => is_alphanumeric(c),
        Class::MetaArg => !(c == '\n' || c == '|' || c == '\r'),
        Class::MetaArgBar => !(c == '\n' || c == '\r'),
        Class::NewlineBar => c == '\n' || c == '|' || c == '\r',
        Class::Newline => c == '\n' || c == '\r',
        Class::Alpha => is_alphabetic(c),
        Class::Digit => '0' <= c && c <= '9',
        Class::NameTail => is_alphanumeric(c) || c == '~',
        Class::Lyric => !(c == '|' || c == '^' || c == '\n' || c == '\r' || c == '·' || c == '*'
            || c == '`' || c == '´'),
        Class::Annot => !(c == '"' || c == '\n'),
    }
}

/// End of the run of characters of class `k` that starts at `p`.
pub open spec fn run(s: Seq<char>, p: int, k: Class) -> int
    decreases s.len() - p,
{
    if 0 <= p < s.len() && in_class(k, s[p]) {
        run(s, p + 1, k)
    } else {
        p
    }
}

/// A run ends at the first character outside its class.
pub proof fn lemma_run(s: Seq<char>, p: int, q: int, k: Class)
    requires
        0 <= p <= q <= s.len(),
        forall|j: int| p <= j < q ==> in_class(k, #[trigger] s[j]),
        q == s.len() || !in_class(k, s[q]),
    ensures
        run(s, p, k) == q,
    decreases q - p,
{
    if p < q {
        lemma_run(s, p + 1, q, k);
    }
}

/// Position after the run of class `k` from `p`.
pub(crate) fn run_x(s: &Vec<char>, p: usize, k: &Class) -> (r: usize)
    requires
        p <= s.len(),
    ensures
        r == run(s@, p as int, *k),
        p <= r <= s.len(),
        p < s.len() && in_class(*k, s@[p as int]) ==> p < r,
{
    let mut i = p;
    while i < s.len() && class_has(k, s[i])
        invariant
            p <= i <= s.len(),
            forall|j: int| p <= j < i ==> in_class(*k, #[trigger] s@[j]),
        decreases s.len() - i,
    {
        i = i + 1;
    }
    proof {
        lemma_run(s@, p as int, i as int, *k);
    }
    i
}

/// The characters from `a` to `b`.
pub(crate) fn chars_between(s: &Vec<char>, a: usize, b: usize) -> (r: String)
    requires
        a <= b <= s.len(),
    ensures
        r@ == s@.subrange(a as int, b as int),
{
    let mut out = String::new();
    let mut i = a;
    while i < b
        invariant
            a <= i <= b <= s.len(),
            out@ == s@.subrange(a as int, i as int),
        decreases b - i,
    {
        string_push(&mut out, s[i]);
        assert(s@.subrange(a as int, i + 1) =~= s@.subrange(a as int, i as int).push(s@[i as int]));
        i = i + 1;
    }
    out
}

/// The characters from `a` to `b`, trimmed.
pub(crate) fn trimmed_between(s: &Vec<char>, a: usize, b: usize) -> (r: String)
    requires
        a <= b <= s.len(),
    ensures
        r@ == trim(s@.subrange(a as int, b as int)),
{
    let ghost t = s@.subrange(a as int, b as int);
    let mut i = a;
    while i < b && is_whitespace(s[i])
        invariant
            a <= i <= b <= s.len(),
            t == s@.subrange(a as int, b as int),
            forall|j: int| 0 <= j < i - a ==> is_ws(#[trigger] t[j]),
        decreases b - i,
    {
        i = i + 1;
    }
    proof {
        lemma_trim_start_skip(t, i - a);
        assert(t.skip(i - a) =~= s@.subrange(i as int, b as int));
    }
    let ghost u = s@.subrange(i as int, b as int);
    let mut j = b;
    while j > i && is_whitespace(s[j - 1])
        invariant
            a <= i <= j <= b <= s.len(),
            u == s@.subrange(i as int, b as int),
            forall|k: int| j - i <= k < u.len() ==> is_ws(#[trigger] u[k]),
        decreases j,
    {
        j = j - 1;
    }
    proof {
        lemma_trim_end_take(u, j - i);
        assert(u.take(j - i) =~= s@.subrange(i as int, j as int));
    }
    chars_between(s, i, j)
}

// ----- identifiers and metadata -----

/// The characters of an identifier: alphanumerics and `_`, or, in the
/// prototype dialect, alphanumerics only.
pub open spec fn ident_class(proto: bool) -> Class {
    if proto {
        Class::Alnum
    } else {
        Class::Ident
    }
}

/// An identifier between runs of spaces, trimmed.
pub open spec fn g_ident(s: Seq<char>, p: int, proto: bool) -> Pr<Seq<char>> {
    let q1 = run(s, p, Class::Space);
    let q2 = run(s, q1, ident_class(proto));
    if q2 == q1 {
        Pr::Fail(q1)
    } else {
        let q3 = run(s, q2, Class::Space);
        Pr::Done(trim(s.subrange(q1, q2)), q3, Some(q3))
    }
}

pub(crate) fn lex_ident(s: &Vec<char>, p: usize, proto: bool) -> (r: Parsed<String>)
    requires
        p <= s.len(),
    ensures
        parsed_is(r, g_ident(s@, p as int, proto)),
        r matches Parsed::Done(_, e, a) ==> p < e <= s.len() && (a matches Some(x) ==> x <= s.len()),
        r matches Parsed::Fail(e) ==> p <= e <= s.len(),
{
    let q1 = run_x(s, p, &Class::Space);
    let k = if proto { Class::Alnum } else { Class::Ident };
    let q2 = run_x(s, q1, &k);
    if q2 == q1 {
        Parsed::Fail(q1)
    } else {
        let q3 = run_x(s, q2, &Class::Space);
        Parsed::Done(trimmed_between(s, q1, q2), q3, Some(q3))
    }
}

/// A metadata value: the rest of the line up to a `|` (or, with `bar`,
/// the whole rest of the line), trimmed.
pub open spec fn g_meta_arg(s: Seq<char>, p: int, bar: bool) -> Pr<Seq<char>> {
    let q = run(s, p, if bar { Class::MetaArgBar } else { Class::MetaArg });
    Pr::Done(trim(s.subrange(p, q)), q, Some(q))
}

pub(crate) fn lex_meta_arg(s: &Vec<char>, p: usize, bar: bool) -> (r: Parsed<String>)
    requires
        p <= s.len(),
    ensures
        parsed_is(r, g_meta_arg(s@, p as int, bar)),
        r matches Parsed::Done(_, e, a) ==> p <= e <= s.len() && (a matches Some(x) ==> x <= s.len()),
{
    let k = if bar { Class::MetaArgBar } else { Class::MetaArg };
    let q = run_x(s, p, &k);
    Parsed::Done(trimmed_between(s, p, q), q, Some(q))
}

/// Name for the result of `str::to_lowercase`.
pub uninterp spec fn lowercase(s: Seq<char>) -> Seq<char>;

/// An ASCII character lower-cased: `A`..`Z` to `a`..`z`, the others kept.
pub open spec fn ascii_lower(c: char) -> char {
    if 'A' <= c && c <= 'Z' {
        ((c as u32) + 32) as char
    } else {
        c
    }
}

/// `str::to_lowercase`: its result is named by `lowercase`. A text of ASCII
/// characters alone is lower-cased character by character, `A`..`Z` to
/// `a`..`z`.
#[verifier::external_body]
pub(crate) fn to_lowercase(s: &str) -> (r: String)
    ensures
        r@ == lowercase(s@),
        (forall|i: int| 0 <= i < s@.len() ==> is_ascii_char(#[trigger] s@[i])) ==> r@ == s@.map_values(
            |c: char| ascii_lower(c),
        ),
{
    s.to_lowercase()
}

/// `key: value`, the key lower-cased.
pub open spec fn g_meta_line(s: Seq<char>, p: int, bar: bool, proto: bool) -> Pr<(Seq<char>, Seq<char>)> {
    match g_ident(s, p, proto) {
        Pr::Done(id, q, _) => if 0 <= q < s.len() && s[q] == ':' {
            match g_meta_arg(s, q + 1, bar) {
                Pr::Done(arg, r, _) => Pr::Done((lowercase(id), arg), r, Some(r)),
                _ => Pr::Panic,
            }
        } else {
            Pr::Fail(q)
        },
        Pr::Fail(e) => Pr::Fail(e),
        Pr::Panic => Pr::Panic,
    }
}

pub(crate) fn lex_meta_line(s: &Vec<char>, p: usize, bar: bool, proto: bool) -> (r: Parsed<(String, String)>)
    requires
        p <= s.len(),
    ensures
        parsed_is(r, g_meta_line(s@, p as int, bar, proto)),
        r matches Parsed::Done(_, e, a) ==> p < e <= s.len() && (a matches Some(x) ==> x <= s.len()),
        r matches Parsed::Fail(e) ==> p <= e <= s.len(),
{
    match lex_ident(s, p, proto) {
        Parsed::Done(id, q, _) => {
            if q < s.len() && s[q] == ':' {
                match lex_meta_arg(s, q + 1, bar) {
                    Parsed::Done(arg, r, _) => {
                        let key = to_lowercase(id.as_str());
                        Parsed::Done((key, arg), r, Some(r))
                    },
                    _ => Parsed::Panic,
                }
            } else {
                Parsed::Fail(q)
            }
        },
        Parsed::Fail(e) => Parsed::Fail(e),
        Parsed::Panic => Parsed::Panic,
    }
}

// ----- section headers -----

/// A section name: letters, at most three digits, then letters, digits and
/// `~`.
pub open spec fn g_section_name(s: Seq<char>, p: int) -> Pr<Seq<char>> {
    let q1 = run(s, p, Class::Alpha);
    if q1 == p {
        Pr::Fail(p)
    } else {
        let d = run(s, q1, Class::Digit);
        let q2 = if d > q1 + 3 { q1 + 3 } else { d };
        let q3 = run(s, q2, Class::NameTail);
        Pr::Done(s.subrange(p, q3), q3, Some(q3))
    }
}

pub(crate) fn lex_section_name(s: &Vec<char>, p: usize) -> (r: Parsed<String>)
    requires
        p <= s.len(),
    ensures
        parsed_is(r, g_section_name(s@, p as int)),
        r matches Parsed::Done(_, e, a) ==> p < e <= s.len() && (a matches Some(x) ==> x <= s.len()),
        r matches Parsed::Fail(e) ==> p <= e <= s.len(),
{
    let q1 = run_x(s, p, &Class::Alpha);
    if q1 == p {
        Parsed::Fail(p)
    } else {
        let d = run_x(s, q1, &Class::Digit);
        let q2 = if d - q1 > 3 { q1 + 3 } else { d };
        let q3 = run_x(s, q2, &Class::NameTail);
        Parsed::Done(chars_between(s, p, q3), q3, Some(q3))
    }
}

/// `@name description`.
pub open spec fn g_section_header(s: Seq<char>, p: int) -> Pr<(Seq<char>, Seq<char>)> {
    if 0 <= p < s.len() && s[p] == '@' {
        match g_section_name(s, p + 1) {
            Pr::Done(nm, q, _) => match g_meta_arg(s, q, false) {
                Pr::Done(d, r, _) => Pr::Done((nm, d), r, Some(r)),
                _ => Pr::Panic,
            },
            Pr::Fail(e) => Pr::Fail(e),
            Pr::Panic => Pr::Panic,
        }
    } else {
        Pr::Fail(p)
    }
}

pub(crate) fn lex_section_header(s: &Vec<char>, p: usize) -> (r: Parsed<(String, String)>)
    requires
        p <= s.len(),
    ensures
        parsed_is(r, g_section_header(s@, p as int)),
        r matches Parsed::Done(_, e, a) ==> p < e <= s.len() && (a matches Some(x) ==> x <= s.len()),
        r matches Parsed::Fail(e) ==> p <= e <= s.len(),
{
    if p < s.len() && s[p] == '@' {
        match lex_section_name(s, p + 1) {
            Parsed::Done(nm, q, _) => match lex_meta_arg(s, q, false) {
                Parsed::Done(d, r, _) => Parsed::Done((nm, d), r, Some(r)),
                _ => Parsed::Panic,
            },
            Parsed::Fail(e) => Parsed::Fail(e),
            Parsed::Panic => Parsed::Panic,
        }
    } else {
        Parsed::Fail(p)
    }
}

// ----- lyrics -----

/// One lyric event: `^` is a break, otherwise a run of lyric text. The
/// first text of a line may not start with `@`, nor with `--`.
pub open spec fn g_lyric_item(s: Seq<char>, p: int, first: bool) -> Pr<LyricEventView> {
    if 0 <= p < s.len() && s[p] == '^' {
        Pr::Done(LyricEventView::Break, p + 1, None)
    } else if 0 <= p < s.len() && !lyric_stop(s[p]) && !(first && (s[p] == '@' || s[p] == '-')) {
        let q = run(s, p, Class::Lyric);
        Pr::Done(LyricEventView::Text(s.subrange(p, q)), q, Some(q))
    } else if first && 0 <= p < s.len() && s[p] == '-' {
        if p + 1 < s.len() && !lyric_stop(s[p + 1]) && s[p + 1] != '-' {
            let q = run(s, p + 2, Class::Lyric);
            Pr::Done(LyricEventView::Text(s.subrange(p, q)), q, Some(q))
        } else {
            Pr::Fail(p + 1)
        }
    } else {
        Pr::Fail(p)
    }
}

pub(crate) fn lex_lyric_item(s: &Vec<char>, p: usize, first: bool) -> (r: Parsed<LyricEvent>)
    requires
        p <= s.len(),
    ensures
        parsed_is(r, g_lyric_item(s@, p as int, first)),
        r matches Parsed::Done(_, e, a) ==> p < e <= s.len() && (a matches Some(x) ==> x <= s.len()),
        r matches Parsed::Fail(e) ==> p <= e <= s.len(),
{
    let n = s.len();
    if p < n && s[p] == '^' {
        Parsed::Done(LyricEvent::LyricBreak, p + 1, None)
    } else if p < n && class_has(&Class::Lyric, s[p]) && !(first && (s[p] == '@' || s[p] == '-')) {
        let q = run_x(s, p, &Class::Lyric);
        Parsed::Done(LyricEvent::LyricText(chars_between(s, p, q)), q, Some(q))
    } else if first && p < n && s[p] == '-' {
        if p + 1 < n && class_has(&Class::Lyric, s[p + 1]) && s[p + 1] != '-' {
            let q = run_x(s, p + 2, &Class::Lyric);
            Parsed::Done(LyricEvent::LyricText(chars_between(s, p, q)), q, Some(q))
        } else {
            Parsed::Fail(p + 1)
        }
    } else {
        Parsed::Fail(p)
    }
}

/// Lyric events repeated from `p`, after `acc` was read with furthest
/// failure `alt`; at least one.
pub open spec fn lyric_rep(
    s: Seq<char>,
    p: int,
    first: bool,
    acc: Seq<LyricEventView>,
    alt: Option<int>,
) -> Pr<Seq<LyricEventView>>
    decreases s.len() - p,
{
    match g_lyric_item(s, p, first) {
        Pr::Done(v, q, a) => if p < q <= s.len() {
            lyric_rep(s, q, first, acc.push(v), amax(alt, a))
        } else {
            Pr::Panic
        },
        Pr::Fail(e) => if acc.len() == 0 {
            Pr::Fail(e)
        } else {
            Pr::Done(acc, p, amax(alt, Some(e)))
        },
        Pr::Panic => Pr::Panic,
    }
}

/// The lyrics of a block (`first`: the first block of a line).
pub open spec fn g_lyrics(s: Seq<char>, p: int, first: bool) -> Pr<Seq<LyricEventView>> {
    lyric_rep(s, p, first, Seq::empty(), None)
}

pub(crate) fn lex_lyrics(s: &Vec<char>, p: usize, first: bool) -> (r: Parsed<Vec<LyricEvent>>)
    requires
        p <= s.len(),
    ensures
        parsed_is(r, g_lyrics(s@, p as int, first)),
        r matches Parsed::Done(_, e, a) ==> p < e <= s.len() && (a matches Some(x) ==> x <= s.len()),
        r matches Parsed::Fail(e) ==> p <= e <= s.len(),
{
    let mut acc: Vec<LyricEvent> = Vec::new();
    let mut alt: Option<usize> = None;
    let mut i = p;
    assert(acc.deep_view() =~= Seq::<LyricEventView>::empty());
    loop
        invariant
            p <= i <= s.len(),
            acc.len() == 0 ==> i == p,
            alt matches Some(x) ==> x <= s.len(),
            g_lyrics(s@, p as int, first) == lyric_rep(s@, i as int, first, acc.deep_view(), opt_int(alt)),
        decreases s.len() - i,
    {
        match lex_lyric_item(s, i, first) {
            Parsed::Done(v, q, a) => {
                let ghost before = acc.deep_view();
                let ghost vv = v.deep_view();
                acc.push(v);
                assert(acc.deep_view() =~= before.push(vv));
                alt = amax_x(alt, a);
                i = q;
            },
            Parsed::Fail(e) => {
                if acc.len() == 0 {
                    return Parsed::Fail(e);
                } else {
                    let al = amax_x(alt, Some(e));
                    return Parsed::Done(acc, i, al);
                }
            },
            Parsed::Panic => {
                return Parsed::Panic;
            },
        }
    }
}

} // verus!
