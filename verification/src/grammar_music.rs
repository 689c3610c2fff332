//! The grammar of chord text: numbers, time offsets, note names, chord
//! keywords and alterations, chords, melodies, annotations, and the music
//! events of a block up to its `·` or `*`.

use vstd::prelude::*;
#[allow(unused_imports)]
use vstd::string::*;
use crate::base::{alteration_spelled, keyword_spelled, TimeOffset, ChordKeyword, ChordModifier, ChordAlteration, ChordAlterationKind,
    ChordKind, ChordEvent, ChordEventView, MusicEvent, MusicEventView};
use crate::text::is_digit;
use crate::parser::{root_value, digits_value};
use crate::grammar::{Pr, Parsed, parsed_is, opt_int, amax, emax, Class, run, run_x, amax_x, emax_x, chars_between};

verus! {

pub open spec fn imax(a: int, b: int) -> int {
    if a >= b {
        a
    } else {
        b
    }
}

// ----- literal text -----

/// How many characters of `w` the input matches from `p`, counting on
/// from `k`.
pub open spec fn match_len(s: Seq<char>, p: int, w: Seq<char>, k: int) -> int
    decreases w.len() - k,
{
    if 0 <= k < w.len() && 0 <= p + k < s.len() && s[p + k] == w[k] {
        match_len(s, p, w, k + 1)
    } else {
        k
    }
}

proof fn lemma_match_len(s: Seq<char>, p: int, w: Seq<char>, k: int, m: int)
    requires
        0 <= p,
        0 <= k <= m <= w.len(),
        p + m <= s.len(),
        forall|j: int| k <= j < m ==> s[p + j] == w[j],
        m == w.len() || p + m == s.len() || s[p + m] != w[m],
    ensures
        match_len(s, p, w, k) == m,
    decreases m - k,
{
    if k < m {
        lemma_match_len(s, p, w, k + 1, m);
    }
}

/// The literal text `w`; a mismatch fails where it is found.
pub open spec fn g_just(s: Seq<char>, p: int, w: Seq<char>) -> Pr<()> {
    let k = match_len(s, p, w, 0);
    if k >= w.len() {
        Pr::Done((), p + w.len(), None)
    } else {
        Pr::Fail(p + k)
    }
}

pub(crate) fn lex_just(s: &Vec<char>, p: usize, w: &str) -> (r: Parsed<()>)
    requires
        p <= s.len(),
    ensures
        parsed_is(r, g_just(s@, p as int, w@)),
        r matches Parsed::Done(_, e, _) ==> p + w@.len() == e <= s.len(),
        r matches Parsed::Fail(e) ==> p <= e <= s.len(),
{
    let m = w.unicode_len();
    let mut k: usize = 0;
    while k < m && p + k < s.len() && s[p + k] == w.get_char(k)
        invariant
            m == w@.len(),
            k <= m,
            p + k <= s.len(),
            forall|j: int| 0 <= j < k ==> s@[p + j] == w@[j],
        decreases m - k,
    {
        k = k + 1;
    }
    proof {
        lemma_match_len(s@, p as int, w@, 0, k as int);
    }
    if k == m {
        Parsed::Done((), p + m, None)
    } else {
        Parsed::Fail(p + k)
    }
}

/// The first option whose text the input starts with; the furthest
/// mismatch where none does.
pub open spec fn choice_from<T>(
    s: Seq<char>,
    p: int,
    opts: Seq<(Seq<char>, T)>,
    i: int,
    alt: Option<int>,
) -> Pr<T>
    decreases opts.len() - i,
{
    if 0 <= i < opts.len() {
        match g_just(s, p, opts[i].0) {
            Pr::Done(_, e, _) => Pr::Done(opts[i].1, e, None),
            Pr::Fail(e) => choice_from(s, p, opts, i + 1, amax(alt, Some(e))),
            Pr::Panic => Pr::Panic,
        }
    } else {
        match alt {
            Some(a) => Pr::Fail(a),
            None => Pr::Fail(p),
        }
    }
}

// ----- numbers -----

/// A number as far as the grammar needs it: values above `u16::MAX + 1`
/// count as `u16::MAX + 1`.
pub open spec fn cap(v: nat) -> u32 {
    if v > 65536 {
        65536
    } else {
        v as u32
    }
}

/// `str::parse::<u8>` of a digit string, or 0 where it overflows.
pub open spec fn small_u8(v: u32) -> u8 {
    if v <= 255 {
        v as u8
    } else {
        0
    }
}

/// `str::parse::<i8>` of a digit string, or 0 where it overflows.
pub open spec fn small_i8(v: u32) -> i8 {
    if v <= 127 {
        v as i8
    } else {
        0
    }
}

pub(crate) fn digits_capped(s: &Vec<char>, p: usize, q: usize) -> (r: u32)
    requires
        p <= q <= s.len(),
        forall|j: int| p <= j < q ==> is_digit(#[trigger] s@[j]),
    ensures
        r == cap(digits_value(s@.subrange(p as int, q as int))),
{
    let mut v: u32 = 0;
    let mut i = p;
    assert(s@.subrange(p as int, p as int).len() == 0);
    while i < q
        invariant
            p <= i <= q <= s.len(),
            forall|j: int| p <= j < q ==> is_digit(#[trigger] s@[j]),
            v == cap(digits_value(s@.subrange(p as int, i as int))),
        decreases q - i,
    {
        let ghost prev = s@.subrange(p as int, i as int);
        let ghost t = s@.subrange(p as int, i + 1);
        assert(t.drop_last() =~= prev);
        assert(t.last() == s@[i as int]);
        assert(is_digit(s@[i as int]));
        let d = (s[i] as u32) - ('0' as u32);
        assert(digits_value(t) == digits_value(prev) * 10 + d);
        if v >= 6554 {
            v = 65536;
        } else {
            let w = v * 10 + d;
            v = if w > 65536 {
                65536
            } else {
                w
            };
        }
        i = i + 1;
    }
    v
}

/// A run of digits (at least one) and its value.
pub open spec fn g_digits(s: Seq<char>, p: int) -> Pr<u32> {
    let q = run(s, p, Class::Digit);
    if q == p {
        Pr::Fail(p)
    } else {
        Pr::Done(cap(digits_value(s.subrange(p, q))), q, Some(q))
    }
}

pub proof fn lemma_run_digits(s: Seq<char>, p: int)
    requires
        0 <= p <= s.len(),
    ensures
        p <= run(s, p, Class::Digit) <= s.len(),
        forall|j: int| p <= j < run(s, p, Class::Digit) ==> is_digit(#[trigger] s[j]),
    decreases s.len() - p,
{
    if p < s.len() && is_digit(s[p]) {
        lemma_run_digits(s, p + 1);
    }
}

fn lex_digits(s: &Vec<char>, p: usize) -> (r: Parsed<u32>)
    requires
        p <= s.len(),
    ensures
        parsed_is(r, g_digits(s@, p as int)),
        r matches Parsed::Done(_, e, a) ==> p < e <= s.len() && (a matches Some(x) ==> x <= s.len()),
        r matches Parsed::Fail(e) ==> p <= e <= s.len(),
{
    let q = run_x(s, p, &Class::Digit);
    if q == p {
        Parsed::Fail(p)
    } else {
        proof {
            lemma_run_digits(s@, p as int);
        }
        Parsed::Done(digits_capped(s, p, q), q, Some(q))
    }
}

/// A positive integer without leading zeros, or `0`.
pub open spec fn g_int(s: Seq<char>, p: int) -> Pr<u32> {
    if 0 <= p < s.len() && is_digit(s[p]) && s[p] != '0' {
        let q = run(s, p + 1, Class::Digit);
        Pr::Done(cap(digits_value(s.subrange(p, q))), q, Some(q))
    } else if 0 <= p < s.len() && s[p] == '0' {
        Pr::Done(0, p + 1, Some(p))
    } else {
        Pr::Fail(p)
    }
}

fn lex_int(s: &Vec<char>, p: usize) -> (r: Parsed<u32>)
    requires
        p <= s.len(),
    ensures
        parsed_is(r, g_int(s@, p as int)),
        r matches Parsed::Done(_, e, a) ==> p < e <= s.len() && (a matches Some(x) ==> x <= s.len()),
        r matches Parsed::Fail(e) ==> p <= e <= s.len(),
{
    if p < s.len() && '1' <= s[p] && s[p] <= '9' {
        let q = run_x(s, p + 1, &Class::Digit);
        proof {
            lemma_run_digits(s@, p + 1);
        }
        Parsed::Done(digits_capped(s, p, q), q, Some(q))
    } else if p < s.len() && s[p] == '0' {
        Parsed::Done(0, p + 1, Some(p))
    } else {
        Parsed::Fail(p)
    }
}

// ----- time offsets -----

/// `+num,den`, or `'` or `"` for half a beat.
pub open spec fn g_fraction(s: Seq<char>, p: int) -> Pr<(u8, u8)> {
    let f = if 0 <= p < s.len() && s[p] == '+' {
        match g_digits(s, p + 1) {
            Pr::Done(a, q1, _) => if 0 <= q1 < s.len() && s[q1] == ',' {
                match g_digits(s, q1 + 1) {
                    Pr::Done(b, q2, _) => Pr::Done((small_u8(a), small_u8(b)), q2, Some(q2)),
                    Pr::Fail(e) => Pr::Fail(emax(e, Some(q1))),
                    Pr::Panic => Pr::Panic,
                }
            } else {
                Pr::Fail(q1)
            },
            Pr::Fail(e) => Pr::Fail(e),
            Pr::Panic => Pr::Panic,
        }
    } else {
        Pr::Fail(p)
    };
    match f {
        Pr::Fail(e) => if 0 <= p < s.len() && (s[p] == '\'' || s[p] == '"') {
            Pr::Done((1u8, 2u8), p + 1, Some(e))
        } else {
            Pr::Fail(emax(e, Some(p)))
        },
        _ => f,
    }
}

fn lex_fraction(s: &Vec<char>, p: usize) -> (r: Parsed<(u8, u8)>)
    requires
        p <= s.len(),
    ensures
        parsed_is(r, g_fraction(s@, p as int)),
        r matches Parsed::Done(_, e, a) ==> p < e <= s.len() && (a matches Some(x) ==> x <= s.len()),
        r matches Parsed::Fail(e) ==> p <= e <= s.len(),
{
    let f: Parsed<(u8, u8)> = if p < s.len() && s[p] == '+' {
        match lex_digits(s, p + 1) {
            Parsed::Done(a, q1, _) => if q1 < s.len() && s[q1] == ',' {
                match lex_digits(s, q1 + 1) {
                    Parsed::Done(b, q2, _) => {
                        let na: u8 = if a <= 255 { a as u8 } else { 0 };
                        let nb: u8 = if b <= 255 { b as u8 } else { 0 };
                        Parsed::Done((na, nb), q2, Some(q2))
                    },
                    Parsed::Fail(e) => Parsed::Fail(emax_x(e, Some(q1))),
                    Parsed::Panic => Parsed::Panic,
                }
            } else {
                Parsed::Fail(q1)
            },
            Parsed::Fail(e) => Parsed::Fail(e),
            Parsed::Panic => Parsed::Panic,
        }
    } else {
        Parsed::Fail(p)
    };
    match f {
        Parsed::Fail(e) => if p < s.len() && (s[p] == '\'' || s[p] == '"') {
            Parsed::Done((1u8, 2u8), p + 1, Some(e))
        } else {
            Parsed::Fail(emax_x(e, Some(p)))
        },
        _ => f,
    }
}

/// A beat number or `<` (the beat before), then optionally a fraction.
pub open spec fn g_time(s: Seq<char>, p: int) -> Pr<TimeOffset> {
    let beat: Pr<i8> = match g_digits(s, p) {
        Pr::Done(v, q, a) => Pr::Done(small_i8(v), q, a),
        Pr::Fail(e) => if 0 <= p < s.len() && s[p] == '<' {
            Pr::Done(-1i8, p + 1, Some(e))
        } else {
            Pr::Fail(emax(e, Some(p)))
        },
        Pr::Panic => Pr::Panic,
    };
    match beat {
        Pr::Done(b, q, a) => match g_fraction(s, q) {
            Pr::Done(f, r, a2) => Pr::Done(TimeOffset { beat: b, num: f.0, den: f.1 }, r, amax(a, a2)),
            Pr::Fail(e) => Pr::Done(TimeOffset { beat: b, num: 0, den: 1 }, q, amax(a, Some(e))),
            Pr::Panic => Pr::Panic,
        },
        Pr::Fail(e) => Pr::Fail(e),
        Pr::Panic => Pr::Panic,
    }
}

fn lex_time(s: &Vec<char>, p: usize) -> (r: Parsed<TimeOffset>)
    requires
        p <= s.len(),
    ensures
        parsed_is(r, g_time(s@, p as int)),
        r matches Parsed::Done(_, e, a) ==> p < e <= s.len() && (a matches Some(x) ==> x <= s.len()),
        r matches Parsed::Fail(e) ==> p <= e <= s.len(),
{
    let beat: Parsed<i8> = match lex_digits(s, p) {
        Parsed::Done(v, q, a) => {
            let b: i8 = if v <= 127 { v as i8 } else { 0 };
            Parsed::Done(b, q, a)
        },
        Parsed::Fail(e) => if p < s.len() && s[p] == '<' {
            Parsed::Done(-1i8, p + 1, Some(e))
        } else {
            Parsed::Fail(emax_x(e, Some(p)))
        },
        Parsed::Panic => Parsed::Panic,
    };
    match beat {
        Parsed::Done(b, q, a) => match lex_fraction(s, q) {
            Parsed::Done(f, r, a2) => Parsed::Done(
                TimeOffset { beat: b, num: f.0, den: f.1 },
                r,
                amax_x(a, a2),
            ),
            Parsed::Fail(e) => Parsed::Done(TimeOffset { beat: b, num: 0, den: 1 }, q, amax_x(a, Some(e))),
            Parsed::Panic => Parsed::Panic,
        },
        Parsed::Fail(e) => Parsed::Fail(e),
        Parsed::Panic => Parsed::Panic,
    }
}

// ----- notes -----

/// A note name `A`..`G` and an optional `#` or `b`; a flat below C aborts.
pub open spec fn g_root(s: Seq<char>, p: int) -> Pr<u8> {
    if 0 <= p < s.len() && root_value(s[p]) is Some {
        let v = root_value(s[p]).unwrap();
        if p + 1 < s.len() && s[p + 1] == '#' {
            Pr::Done((v + 1) as u8, p + 2, None)
        } else if p + 1 < s.len() && s[p + 1] == 'b' {
            if v == 0 {
                Pr::Panic
            } else {
                Pr::Done((v - 1) as u8, p + 2, None)
            }
        } else {
            Pr::Done(v, p + 1, Some(p + 1))
        }
    } else {
        Pr::Fail(p)
    }
}

fn root_of(c: char) -> (r: Option<u8>)
    ensures
        r == root_value(c),
{
    if c == 'C' {
        Some(0u8)
    } else if c == 'D' {
        Some(2u8)
    } else if c == 'E' {
        Some(4u8)
    } else if c == 'F' {
        Some(5u8)
    } else if c == 'G' {
        Some(7u8)
    } else if c == 'A' {
        Some(9u8)
    } else if c == 'B' {
        Some(11u8)
    } else {
        None
    }
}

pub(crate) fn lex_root(s: &Vec<char>, p: usize) -> (r: Parsed<u8>)
    requires
        p <= s.len(),
    ensures
        parsed_is(r, g_root(s@, p as int)),
        r matches Parsed::Done(_, e, a) ==> p < e <= s.len() && (a matches Some(x) ==> x <= s.len()),
        r matches Parsed::Fail(e) ==> p == e,
{
    if p < s.len() {
        match root_of(s[p]) {
            Some(v) => {
                if p + 1 < s.len() && s[p + 1] == '#' {
                    Parsed::Done(v + 1, p + 2, None)
                } else if p + 1 < s.len() && s[p + 1] == 'b' {
                    if v == 0 {
                        Parsed::Panic
                    } else {
                        Parsed::Done(v - 1, p + 2, None)
                    }
                } else {
                    Parsed::Done(v, p + 1, Some(p + 1))
                }
            },
            None => Parsed::Fail(p),
        }
    } else {
        Parsed::Fail(p)
    }
}

// ----- chord keywords and alterations -----

/// The chord keywords, in the order they are tried.
pub open spec fn keyword_options() -> Seq<(Seq<char>, ChordKeyword)> {
    seq![
        (seq!['s', 'u', 's', '4'], ChordKeyword::Sus4),
        (seq!['s', 'u', 's', '2'], ChordKeyword::Sus2),
        (seq!['a', 'd', 'd', '4'], ChordKeyword::Add4),
        (seq!['a', 'd', 'd', '2'], ChordKeyword::Add2),
        (seq!['a', 'd', 'd', '9'], ChordKeyword::Add9),
        (seq!['a', 'd', 'd', '1', '1'], ChordKeyword::Add11),
        (seq!['M', 'a', 'j'], ChordKeyword::Maj),
        (seq!['6', '/', '9'], ChordKeyword::K69),
        (seq!['a', 'u', 'g'], ChordKeyword::Aug),
        (seq!['d', 'i', 'm'], ChordKeyword::Dim),
        (seq!['6'], ChordKeyword::K6),
        (seq!['5'], ChordKeyword::K5),
        (seq!['7'], ChordKeyword::K7),
        (seq!['9'], ChordKeyword::K9),
        (seq!['1', '1'], ChordKeyword::K11),
        (seq!['1', '3'], ChordKeyword::K13),
    ]
}

fn keyword_option(i: usize) -> (r: (&'static str, ChordKeyword))
    requires
        i < 16,
    ensures
        r.0@ == keyword_options()[i as int].0,
        r.1 == keyword_options()[i as int].1,
{
    proof {
        reveal_strlit("sus4");
        reveal_strlit("sus2");
        reveal_strlit("add4");
        reveal_strlit("add2");
        reveal_strlit("add9");
        reveal_strlit("add11");
        reveal_strlit("Maj");
        reveal_strlit("6/9");
        reveal_strlit("aug");
        reveal_strlit("dim");
        reveal_strlit("6");
        reveal_strlit("5");
        reveal_strlit("7");
        reveal_strlit("9");
        reveal_strlit("11");
        reveal_strlit("13");
    }
    match i {
        0 => ("sus4", ChordKeyword::Sus4),
        1 => ("sus2", ChordKeyword::Sus2),
        2 => ("add4", ChordKeyword::Add4),
        3 => ("add2", ChordKeyword::Add2),
        4 => ("add9", ChordKeyword::Add9),
        5 => ("add11", ChordKeyword::Add11),
        6 => ("Maj", ChordKeyword::Maj),
        7 => ("6/9", ChordKeyword::K69),
        8 => ("aug", ChordKeyword::Aug),
        9 => ("dim", ChordKeyword::Dim),
        10 => ("6", ChordKeyword::K6),
        11 => ("5", ChordKeyword::K5),
        12 => ("7", ChordKeyword::K7),
        13 => ("9", ChordKeyword::K9),
        14 => ("11", ChordKeyword::K11),
        _ => ("13", ChordKeyword::K13),
    }
}

/// A chord keyword.
pub open spec fn g_keyword(s: Seq<char>, p: int) -> Pr<ChordKeyword> {
    choice_from(s, p, keyword_options(), 0, None)
}

fn lex_keyword(s: &Vec<char>, p: usize) -> (r: Parsed<ChordKeyword>)
    requires
        p <= s.len(),
    ensures
        parsed_is(r, g_keyword(s@, p as int)),
        r matches Parsed::Done(_, e, a) ==> p < e <= s.len() && (a matches Some(x) ==> x <= s.len()),
        r matches Parsed::Fail(e) ==> p <= e <= s.len(),
{
    let mut i: usize = 0;
    let mut alt: Option<usize> = None;
    while i < 16
        invariant
            i <= 16,
            p <= s.len(),
            keyword_options().len() == 16,
            g_keyword(s@, p as int) == choice_from(s@, p as int, keyword_options(), i as int, opt_int(alt)),
            alt matches Some(a) ==> p <= a <= s.len(),
            i > 0 ==> alt is Some,
        decreases 16 - i,
    {
        let (w, k) = keyword_option(i);
        match lex_just(s, p, w) {
            Parsed::Done(_, e, _) => {
                return Parsed::Done(k, e, None);
            },
            Parsed::Fail(e) => {
                alt = amax_x(alt, Some(e));
            },
            Parsed::Panic => {
                return Parsed::Panic;
            },
        }
        i = i + 1;
    }
    match alt {
        Some(a) => Parsed::Fail(a),
        None => Parsed::Fail(p),
    }
}

proof fn lemma_match_len_at(s: Seq<char>, p: int, w: Seq<char>, k: int, j: int)
    requires
        0 <= p,
        0 <= k <= j < w.len(),
        match_len(s, p, w, k) >= w.len(),
    ensures
        p + j < s.len(),
        s[p + j] == w[j],
    decreases j - k,
{
    if !(0 <= p + k < s.len() && s[p + k] == w[k]) {
        assert(match_len(s, p, w, k) == k);
    }
    if k < j {
        assert(match_len(s, p, w, k) == match_len(s, p, w, k + 1));
        lemma_match_len_at(s, p, w, k + 1, j);
    }
}

proof fn lemma_choice_reads<T>(s: Seq<char>, p: int, opts: Seq<(Seq<char>, T)>, i: int, alt: Option<int>)
    requires
        0 <= p <= s.len(),
        0 <= i,
    ensures
        choice_from(s, p, opts, i, alt) matches Pr::Done(k, e, _) ==> p <= e <= s.len() && exists|j: int|
            i <= j < opts.len() && (#[trigger] opts[j]).1 == k && s.subrange(p, e) == opts[j].0,
    decreases opts.len() - i,
{
    if i < opts.len() {
        let w = opts[i].0;
        if match_len(s, p, w, 0) >= w.len() {
            if w.len() > 0 {
                lemma_match_len_at(s, p, w, 0, w.len() - 1);
            }
            assert forall|j: int| 0 <= j < w.len() implies s.subrange(p, p + w.len())[j] == w[j] by {
                lemma_match_len_at(s, p, w, 0, j);
            }
            assert(s.subrange(p, p + w.len()) =~= w);
            assert(opts[i].1 == opts[i].1);
        } else {
            lemma_choice_reads(s, p, opts, i + 1, amax(alt, Some(p + match_len(s, p, w, 0))));
        }
    }
}

/// The song grammar reads a chord keyword as the keyword that its text
/// names: the characters it takes are a way of writing that keyword (`dim`
/// is `Dim`, `aug` is `Aug`, `sus4` is `Sus4`, ...).
pub proof fn lemma_keyword_spelled(s: Seq<char>, p: int)
    requires
        0 <= p <= s.len(),
    ensures
        g_keyword(s, p) matches Pr::Done(k, e, _) ==> p <= e <= s.len() && keyword_spelled(k, s.subrange(p, e)),
{
    let opts = keyword_options();
    assert forall|j: int| 0 <= j < opts.len() implies keyword_spelled(#[trigger] opts[j].1, opts[j].0) by {
        if j == 0 {} else if j == 1 {} else if j == 2 {} else if j == 3 {} else if j == 4 {}
        else if j == 5 {} else if j == 6 {} else if j == 7 {} else if j == 8 {} else if j == 9 {}
        else if j == 10 {} else if j == 11 {} else if j == 12 {} else if j == 13 {} else if j == 14 {}
        else {}
    }
    lemma_choice_reads(s, p, opts, 0, None);
}

/// The song grammar reads an alteration sign as the kind that its text
/// names: `no` is `No`, `b` is `Flat`, `#` is `Sharp`.
pub proof fn lemma_alteration_sign_spelled(s: Seq<char>, p: int)
    requires
        0 <= p <= s.len(),
    ensures
        choice_from(s, p, alteration_options(), 0, None) matches Pr::Done(k, e, _) ==> p <= e <= s.len()
            && alteration_spelled(k, s.subrange(p, e)),
{
    let opts = alteration_options();
    assert forall|j: int| 0 <= j < opts.len() implies alteration_spelled(#[trigger] opts[j].1, opts[j].0) by {
        if j == 0 {} else if j == 1 {} else {}
    }
    lemma_choice_reads(s, p, opts, 0, None);
}

/// The kinds of an alteration, in the order they are tried.
pub open spec fn alteration_options() -> Seq<(Seq<char>, ChordAlterationKind)> {
    seq![
        (seq!['n', 'o'], ChordAlterationKind::No),
        (seq!['b'], ChordAlterationKind::Flat),
        (seq!['#'], ChordAlterationKind::Sharp),
    ]
}

fn alteration_option(i: usize) -> (r: (&'static str, ChordAlterationKind))
    requires
        i < 3,
    ensures
        r.0@ == alteration_options()[i as int].0,
        r.1 == alteration_options()[i as int].1,
{
    proof {
        reveal_strlit("no");
        reveal_strlit("b");
        reveal_strlit("#");
    }
    match i {
        0 => ("no", ChordAlterationKind::No),
        1 => ("b", ChordAlterationKind::Flat),
        _ => ("#", ChordAlterationKind::Sharp),
    }
}

fn lex_alteration_kind(s: &Vec<char>, p: usize) -> (r: Parsed<ChordAlterationKind>)
    requires
        p <= s.len(),
    ensures
        parsed_is(r, choice_from(s@, p as int, alteration_options(), 0, None)),
        r matches Parsed::Done(_, e, a) ==> p < e <= s.len() && a is None,
        r matches Parsed::Fail(e) ==> p <= e <= s.len(),
{
    let mut i: usize = 0;
    let mut alt: Option<usize> = None;
    while i < 3
        invariant
            i <= 3,
            p <= s.len(),
            alteration_options().len() == 3,
            choice_from(s@, p as int, alteration_options(), 0, None) == choice_from(
                s@,
                p as int,
                alteration_options(),
                i as int,
                opt_int(alt),
            ),
            alt matches Some(a) ==> p <= a <= s.len(),
            i > 0 ==> alt is Some,
        decreases 3 - i,
    {
        let (w, k) = alteration_option(i);
        match lex_just(s, p, w) {
            Parsed::Done(_, e, _) => {
                return Parsed::Done(k, e, None);
            },
            Parsed::Fail(e) => {
                alt = amax_x(alt, Some(e));
            },
            Parsed::Panic => {
                return Parsed::Panic;
            },
        }
        i = i + 1;
    }
    match alt {
        Some(a) => Parsed::Fail(a),
        None => Parsed::Fail(p),
    }
}

/// The degree of an alteration: `13`, `11` or one digit.
pub open spec fn g_degree(s: Seq<char>, p: int) -> Pr<u8> {
    match g_just(s, p, seq!['1', '3']) {
        Pr::Done(_, e, _) => Pr::Done(13u8, e, None),
        Pr::Fail(e1) => match g_just(s, p, seq!['1', '1']) {
            Pr::Done(_, e, _) => Pr::Done(11u8, e, None),
            Pr::Fail(e2) => if 0 <= p < s.len() && is_digit(s[p]) {
                Pr::Done((s[p] as int - '0' as int) as u8, p + 1, None)
            } else {
                Pr::Fail(imax(imax(e1, e2), p))
            },
            Pr::Panic => Pr::Panic,
        },
        Pr::Panic => Pr::Panic,
    }
}

fn lex_degree(s: &Vec<char>, p: usize) -> (r: Parsed<u8>)
    requires
        p <= s.len(),
    ensures
        parsed_is(r, g_degree(s@, p as int)),
        r matches Parsed::Done(_, e, a) ==> p < e <= s.len() && a is None,
        r matches Parsed::Fail(e) ==> p <= e <= s.len(),
{
    proof {
        reveal_strlit("13");
        reveal_strlit("11");
    }
    assert("13"@ =~= seq!['1', '3']);
    assert("11"@ =~= seq!['1', '1']);
    match lex_just(s, p, "13") {
        Parsed::Done(_, e, _) => Parsed::Done(13u8, e, None),
        Parsed::Fail(e1) => match lex_just(s, p, "11") {
            Parsed::Done(_, e, _) => Parsed::Done(11u8, e, None),
            Parsed::Fail(e2) => if p < s.len() && '0' <= s[p] && s[p] <= '9' {
                let d = (s[p] as u32) - ('0' as u32);
                Parsed::Done(d as u8, p + 1, None)
            } else {
                let m = if e1 >= e2 { e1 } else { e2 };
                Parsed::Fail(if m >= p { m } else { p })
            },
            Parsed::Panic => Parsed::Panic,
        },
        Parsed::Panic => Parsed::Panic,
    }
}

/// An alteration: `no`, `b` or `#`, then a degree.
pub open spec fn g_alteration(s: Seq<char>, p: int) -> Pr<ChordModifier> {
    match choice_from(s, p, alteration_options(), 0, None) {
        Pr::Done(k, q, a) => match g_degree(s, q) {
            Pr::Done(d, r, b) => Pr::Done(
                ChordModifier::Alteration(ChordAlteration { kind: k, degree: d }),
                r,
                amax(a, b),
            ),
            Pr::Fail(e) => Pr::Fail(emax(e, a)),
            Pr::Panic => Pr::Panic,
        },
        Pr::Fail(e) => Pr::Fail(e),
        Pr::Panic => Pr::Panic,
    }
}

/// A chord modifier: a keyword, else an alteration.
pub open spec fn g_modifier(s: Seq<char>, p: int) -> Pr<ChordModifier> {
    match g_keyword(s, p) {
        Pr::Done(k, e, a) => Pr::Done(ChordModifier::Keyword(k), e, a),
        Pr::Fail(ek) => match g_alteration(s, p) {
            Pr::Done(v, e, a) => Pr::Done(v, e, amax(a, Some(ek))),
            Pr::Fail(ea) => Pr::Fail(imax(ek, ea)),
            Pr::Panic => Pr::Panic,
        },
        Pr::Panic => Pr::Panic,
    }
}

fn lex_modifier(s: &Vec<char>, p: usize) -> (r: Parsed<ChordModifier>)
    requires
        p <= s.len(),
    ensures
        parsed_is(r, g_modifier(s@, p as int)),
        r matches Parsed::Done(_, e, a) ==> p < e <= s.len() && (a matches Some(x) ==> x <= s.len()),
        r matches Parsed::Fail(e) ==> p <= e <= s.len(),
{
    match lex_keyword(s, p) {
        Parsed::Done(k, e, a) => Parsed::Done(ChordModifier::Keyword(k), e, a),
        Parsed::Fail(ek) => {
            let alt_res: Parsed<ChordModifier> = match lex_alteration_kind(s, p) {
                Parsed::Done(k, q, a) => match lex_degree(s, q) {
                    Parsed::Done(d, r, b) => Parsed::Done(
                        ChordModifier::Alteration(ChordAlteration { kind: k, degree: d }),
                        r,
                        amax_x(a, b),
                    ),
                    Parsed::Fail(e) => Parsed::Fail(emax_x(e, a)),
                    Parsed::Panic => Parsed::Panic,
                },
                Parsed::Fail(e) => Parsed::Fail(e),
                Parsed::Panic => Parsed::Panic,
            };
            match alt_res {
                Parsed::Done(v, e, a) => Parsed::Done(v, e, amax_x(a, Some(ek))),
                Parsed::Fail(ea) => Parsed::Fail(if ek >= ea { ek } else { ea }),
                Parsed::Panic => Parsed::Panic,
            }
        },
        Parsed::Panic => Parsed::Panic,
    }
}

/// Modifiers repeated from `p` after `acc`.
pub open spec fn mods_rep(s: Seq<char>, p: int, acc: Seq<ChordModifier>, alt: Option<int>) -> Pr<
    Seq<ChordModifier>,
>
    decreases s.len() - p,
{
    match g_modifier(s, p) {
        Pr::Done(v, q, a) => if p < q <= s.len() {
            mods_rep(s, q, acc.push(v), amax(alt, a))
        } else {
            Pr::Panic
        },
        Pr::Fail(e) => Pr::Done(acc, p, amax(alt, Some(e))),
        Pr::Panic => Pr::Panic,
    }
}

fn lex_modifiers(s: &Vec<char>, p: usize) -> (r: Parsed<Vec<ChordModifier>>)
    requires
        p <= s.len(),
    ensures
        parsed_is(r, mods_rep(s@, p as int, Seq::empty(), None)),
        r matches Parsed::Done(_, e, a) ==> p <= e <= s.len() && (a matches Some(x) ==> x <= s.len()),
        r matches Parsed::Fail(e) ==> p <= e <= s.len(),
{
    let mut acc: Vec<ChordModifier> = Vec::new();
    let mut alt: Option<usize> = None;
    let mut i = p;
    assert(acc.deep_view() =~= Seq::<ChordModifier>::empty());
    loop
        invariant
            p <= i <= s.len(),
            alt matches Some(x) ==> x <= s.len(),
            mods_rep(s@, p as int, Seq::empty(), None) == mods_rep(
                s@,
                i as int,
                acc.deep_view(),
                opt_int(alt),
            ),
        decreases s.len() - i,
    {
        match lex_modifier(s, i) {
            Parsed::Done(v, q, a) => {
                let ghost before = acc.deep_view();
                acc.push(v);
                assert(acc.deep_view() =~= before.push(v));
                alt = amax_x(alt, a);
                i = q;
            },
            Parsed::Fail(e) => {
                let al = amax_x(alt, Some(e));
                return Parsed::Done(acc, i, al);
            },
            Parsed::Panic => {
                return Parsed::Panic;
            },
        }
    }
}

// ----- melodies and annotations -----

/// A note of a melody, with the spaces around it.
pub open spec fn g_note(s: Seq<char>, p: int) -> Pr<u8> {
    let q1 = run(s, p, Class::Space);
    match g_root(s, q1) {
        Pr::Done(v, q2, a2) => {
            let q3 = run(s, q2, Class::Space);
            Pr::Done(v, q3, amax(amax(Some(q1), a2), Some(q3)))
        },
        Pr::Fail(e) => Pr::Fail(emax(e, Some(q1))),
        Pr::Panic => Pr::Panic,
    }
}

fn lex_note(s: &Vec<char>, p: usize) -> (r: Parsed<u8>)
    requires
        p <= s.len(),
    ensures
        parsed_is(r, g_note(s@, p as int)),
        r matches Parsed::Done(_, e, a) ==> p < e <= s.len() && (a matches Some(x) ==> x <= s.len()),
        r matches Parsed::Fail(e) ==> p <= e <= s.len(),
{
    let q1 = run_x(s, p, &Class::Space);
    match lex_root(s, q1) {
        Parsed::Done(v, q2, a2) => {
            let q3 = run_x(s, q2, &Class::Space);
            Parsed::Done(v, q3, amax_x(amax_x(Some(q1), a2), Some(q3)))
        },
        Parsed::Fail(e) => Parsed::Fail(emax_x(e, Some(q1))),
        Parsed::Panic => Parsed::Panic,
    }
}

/// Notes repeated from `p` after `acc`; at least one.
pub open spec fn notes_rep(s: Seq<char>, p: int, acc: Seq<u8>, alt: Option<int>) -> Pr<Seq<u8>>
    decreases s.len() - p,
{
    match g_note(s, p) {
        Pr::Done(v, q, a) => if p < q <= s.len() {
            notes_rep(s, q, acc.push(v), amax(alt, a))
        } else {
            Pr::Panic
        },
        Pr::Fail(e) => if acc.len() == 0 {
            Pr::Fail(e)
        } else {
            Pr::Done(acc, p, amax(alt, Some(e)))
        },
        Pr::Panic => Pr::Panic,
    }
}

/// A melody: notes between `[` and `]`.
pub open spec fn g_melody(s: Seq<char>, p: int) -> Pr<Seq<u8>> {
    if 0 <= p < s.len() && s[p] == '[' {
        match notes_rep(s, p + 1, Seq::empty(), None) {
            Pr::Done(ns, q, a) => if 0 <= q < s.len() && s[q] == ']' {
                Pr::Done(ns, q + 1, a)
            } else {
                Pr::Fail(emax(q, a))
            },
            Pr::Fail(e) => Pr::Fail(e),
            Pr::Panic => Pr::Panic,
        }
    } else {
        Pr::Fail(p)
    }
}

fn lex_notes(s: &Vec<char>, p: usize) -> (r: Parsed<Vec<u8>>)
    requires
        p <= s.len(),
    ensures
        parsed_is(r, notes_rep(s@, p as int, Seq::empty(), None)),
        r matches Parsed::Done(_, e, a) ==> p < e <= s.len() && (a matches Some(x) ==> x <= s.len()),
        r matches Parsed::Fail(e) ==> p <= e <= s.len(),
{
    let mut acc: Vec<u8> = Vec::new();
    let mut alt: Option<usize> = None;
    let mut i = p;
    assert(acc.deep_view() =~= Seq::<u8>::empty());
    loop
        invariant
            p <= i <= s.len(),
            acc.len() == 0 ==> i == p,
            alt matches Some(x) ==> x <= s.len(),
            notes_rep(s@, p as int, Seq::empty(), None) == notes_rep(
                s@,
                i as int,
                acc.deep_view(),
                opt_int(alt),
            ),
        decreases s.len() - i,
    {
        match lex_note(s, i) {
            Parsed::Done(v, q, a) => {
                let ghost before = acc.deep_view();
                acc.push(v);
                assert(acc.deep_view() =~= before.push(v));
                alt = amax_x(alt, a);
                i = q;
            },
            Parsed::Fail(e) => {
                if acc.len() == 0 {
                    return Parsed::Fail(e);
                } else {
                    let al = amax_x(alt, Some(e));
                    return Parsed::Done(acc, i, al);
                }
            },
            Parsed::Panic => {
                return Parsed::Panic;
            },
        }
    }
}

fn lex_melody(s: &Vec<char>, p: usize) -> (r: Parsed<Vec<u8>>)
    requires
        p <= s.len(),
    ensures
        parsed_is(r, g_melody(s@, p as int)),
        r matches Parsed::Done(_, e, a) ==> p < e <= s.len() && (a matches Some(x) ==> x <= s.len()),
        r matches Parsed::Fail(e) ==> p <= e <= s.len(),
{
    if !(p < s.len() && s[p] == '[') {
        return Parsed::Fail(p);
    }
    match lex_notes(s, p + 1) {
        Parsed::Done(ns, q, a) => if q < s.len() && s[q] == ']' {
            Parsed::Done(ns, q + 1, a)
        } else {
            Parsed::Fail(emax_x(q, a))
        },
        Parsed::Fail(e) => Parsed::Fail(e),
        Parsed::Panic => Parsed::Panic,
    }
}

/// Free text between double quotes.
pub open spec fn g_annotation(s: Seq<char>, p: int) -> Pr<Seq<char>> {
    if 0 <= p < s.len() && s[p] == '"' {
        let q = run(s, p + 1, Class::Annot);
        if q < s.len() && s[q] == '"' {
            Pr::Done(s.subrange(p + 1, q), q + 1, Some(q))
        } else {
            Pr::Fail(q)
        }
    } else {
        Pr::Fail(p)
    }
}

fn lex_annotation(s: &Vec<char>, p: usize) -> (r: Parsed<String>)
    requires
        p <= s.len(),
    ensures
        parsed_is(r, g_annotation(s@, p as int)),
        r matches Parsed::Done(_, e, a) ==> p < e <= s.len() && (a matches Some(x) ==> x <= s.len()),
        r matches Parsed::Fail(e) ==> p <= e <= s.len(),
{
    if p < s.len() && s[p] == '"' {
        let q = run_x(s, p + 1, &Class::Annot);
        if q < s.len() && s[q] == '"' {
            Parsed::Done(chars_between(s, p + 1, q), q + 1, Some(q))
        } else {
            Parsed::Fail(q)
        }
    } else {
        Parsed::Fail(p)
    }
}

// ----- chords and music events -----

/// The chord of the given parts.
pub open spec fn chord_view(
    root: u8,
    bass: Option<u8>,
    kind: ChordKind,
    mods: Seq<ChordModifier>,
    time: Option<TimeOffset>,
) -> ChordEventView {
    ChordEventView { root, bass, kind, modifier: mods, time }
}

/// The part of a chord after its root and its minor mark: modifiers, then
/// optionally `/` or `\` and a bass note.
pub open spec fn g_chord_tail(
    s: Seq<char>,
    q2: int,
    root: u8,
    kind: ChordKind,
    time: Option<TimeOffset>,
    a: Option<int>,
) -> Pr<ChordEventView> {
    match mods_rep(s, q2, Seq::empty(), None) {
        Pr::Done(ms, q3, a3) => if 0 <= q3 < s.len() && (s[q3] == '/' || s[q3] == '\\') {
            match g_root(s, q3 + 1) {
                Pr::Done(b, q4, a4) => Pr::Done(chord_view(root, Some(b), kind, ms, time), q4, amax(amax(a, a3), a4)),
                Pr::Fail(e) => Pr::Done(chord_view(root, None, kind, ms, time), q3, amax(amax(a, a3), Some(e))),
                Pr::Panic => Pr::Panic,
            }
        } else {
            Pr::Done(chord_view(root, None, kind, ms, time), q3, amax(amax(a, a3), Some(q3)))
        },
        Pr::Fail(e) => Pr::Fail(emax(e, a)),
        Pr::Panic => Pr::Panic,
    }
}

/// A chord: an optional time offset, a root, an optional `m`, modifiers and
/// an optional bass.
pub open spec fn g_chord(s: Seq<char>, p: int) -> Pr<ChordEventView> {
    let tr = g_time(s, p);
    if tr is Panic {
        Pr::Panic
    } else {
        let t = match tr {
            Pr::Done(v, _, _) => Some(v),
            _ => None,
        };
        let q0 = match tr {
            Pr::Done(_, q, _) => q,
            _ => p,
        };
        let a0 = match tr {
            Pr::Done(_, _, a) => a,
            Pr::Fail(e) => Some(e),
            Pr::Panic => None,
        };
        match g_root(s, q0) {
            Pr::Done(root, q1, a1) => if 0 <= q1 < s.len() && s[q1] == 'm' {
                g_chord_tail(s, q1 + 1, root, ChordKind::Minor, t, amax(a0, a1))
            } else {
                g_chord_tail(s, q1, root, ChordKind::Major, t, amax(amax(a0, a1), Some(q1)))
            },
            Pr::Fail(e) => Pr::Fail(emax(e, a0)),
            Pr::Panic => Pr::Panic,
        }
    }
}

fn lex_chord_tail(
    s: &Vec<char>,
    q2: usize,
    root: u8,
    kind: ChordKind,
    time: Option<TimeOffset>,
    a: Option<usize>,
) -> (r: Parsed<ChordEvent>)
    requires
        q2 <= s.len(),
        a matches Some(x) ==> x <= s.len(),
    ensures
        parsed_is(r, g_chord_tail(s@, q2 as int, root, kind, time, opt_int(a))),
        r matches Parsed::Done(_, e, al) ==> q2 <= e <= s.len() && (al matches Some(x) ==> x <= s.len()),
        r matches Parsed::Fail(e) ==> e <= s.len(),
{
    match lex_modifiers(s, q2) {
        Parsed::Done(ms, q3, a3) => {
        assert(ms.deep_view() =~= ms@);
        if q3 < s.len() && (s[q3] == '/' || s[q3] == '\\') {
            match lex_root(s, q3 + 1) {
                Parsed::Done(b, q4, a4) => {
                    let c = ChordEvent { root, bass: Some(b), kind, modifier: ms, time };
                    Parsed::Done(c, q4, amax_x(amax_x(a, a3), a4))
                },
                Parsed::Fail(e) => {
                    let c = ChordEvent { root, bass: None, kind, modifier: ms, time };
                    Parsed::Done(c, q3, amax_x(amax_x(a, a3), Some(e)))
                },
                Parsed::Panic => Parsed::Panic,
            }
        } else {
            let c = ChordEvent { root, bass: None, kind, modifier: ms, time };
            Parsed::Done(c, q3, amax_x(amax_x(a, a3), Some(q3)))
        }
        },
        Parsed::Fail(e) => Parsed::Fail(emax_x(e, a)),
        Parsed::Panic => Parsed::Panic,
    }
}

fn lex_chord(s: &Vec<char>, p: usize) -> (r: Parsed<ChordEvent>)
    requires
        p <= s.len(),
    ensures
        parsed_is(r, g_chord(s@, p as int)),
        r matches Parsed::Done(_, e, a) ==> p < e <= s.len() && (a matches Some(x) ==> x <= s.len()),
        r matches Parsed::Fail(e) ==> p <= e <= s.len(),
{
    let tr = lex_time(s, p);
    let (t, q0, a0): (Option<TimeOffset>, usize, Option<usize>) = match tr {
        Parsed::Done(v, q, a) => (Some(v), q, a),
        Parsed::Fail(e) => (None, p, Some(e)),
        Parsed::Panic => {
            return Parsed::Panic;
        },
    };
    match lex_root(s, q0) {
        Parsed::Done(root, q1, a1) => if q1 < s.len() && s[q1] == 'm' {
            lex_chord_tail(s, q1 + 1, root, ChordKind::Minor, t, amax_x(a0, a1))
        } else {
            lex_chord_tail(s, q1, root, ChordKind::Major, t, amax_x(amax_x(a0, a1), Some(q1)))
        },
        Parsed::Fail(e) => Parsed::Fail(emax_x(e, a0)),
        Parsed::Panic => Parsed::Panic,
    }
}

/// A measure number as a music event; `m` is the furthest failure of the
/// alternatives tried before.
pub open spec fn g_event_number(s: Seq<char>, p: int, m: int) -> Pr<MusicEventView> {
    match g_int(s, p) {
        Pr::Done(v, e, a) => if v > 65535 {
            Pr::Panic
        } else {
            Pr::Done(MusicEventView::NumberedMeasure(v as u16), e, a)
        },
        Pr::Panic => Pr::Panic,
        Pr::Fail(e9) => Pr::Fail(imax(m, e9)),
    }
}

/// The alternatives of a music event after `-:`: `(`, `)` (not in the
/// prototype dialect), then a measure number.
pub open spec fn g_event_tail(s: Seq<char>, p: int, proto: bool, m: int) -> Pr<MusicEventView> {
    if proto {
        g_event_number(s, p, m)
    } else {
        match g_just(s, p, seq!['(']) {
            Pr::Done(_, e, _) => Pr::Done(MusicEventView::OpenParen, e, None),
            Pr::Panic => Pr::Panic,
            Pr::Fail(e7) => match g_just(s, p, seq![')']) {
                Pr::Done(_, e, _) => Pr::Done(MusicEventView::CloseParen, e, None),
                Pr::Panic => Pr::Panic,
                Pr::Fail(e8) => g_event_number(s, p, imax(m, imax(e7, e8))),
            },
        }
    }
}

/// A music event: a chord, a melody, `%`, an annotation, `:-`, `-:`, `(`,
/// `)` or a measure number, tried in that order.
pub open spec fn g_music_event(s: Seq<char>, p: int, proto: bool) -> Pr<MusicEventView> {
    match g_chord(s, p) {
        Pr::Done(c, e, a) => Pr::Done(MusicEventView::Chord(c), e, a),
        Pr::Panic => Pr::Panic,
        Pr::Fail(e1) => match g_melody(s, p) {
            Pr::Done(m, e, a) => Pr::Done(MusicEventView::Melody(m), e, a),
            Pr::Panic => Pr::Panic,
            Pr::Fail(e2) => match g_just(s, p, seq!['%']) {
                Pr::Done(_, e, _) => Pr::Done(MusicEventView::RepeatMeasure, e, None),
                Pr::Panic => Pr::Panic,
                Pr::Fail(e3) => match g_annotation(s, p) {
                    Pr::Done(t, e, a) => Pr::Done(MusicEventView::Annotation(t), e, a),
                    Pr::Panic => Pr::Panic,
                    Pr::Fail(e4) => match g_just(s, p, seq![':', '-']) {
                        Pr::Done(_, e, _) => Pr::Done(MusicEventView::StartRepeat, e, None),
                        Pr::Panic => Pr::Panic,
                        Pr::Fail(e5) => match g_just(s, p, seq!['-', ':']) {
                            Pr::Done(_, e, _) => Pr::Done(MusicEventView::EndRepeat, e, None),
                            Pr::Panic => Pr::Panic,
                            Pr::Fail(e6) => g_event_tail(
                                s,
                                p,
                                proto,
                                imax(imax(imax(e1, e2), imax(e3, e4)), imax(e5, e6)),
                            ),
                        },
                    },
                },
            },
        },
    }
}

fn lex_event_number(s: &Vec<char>, p: usize, m: usize) -> (r: Parsed<MusicEvent>)
    requires
        p <= m <= s.len(),
    ensures
        parsed_is(r, g_event_number(s@, p as int, m as int)),
        r matches Parsed::Done(_, e, a) ==> p < e <= s.len() && (a matches Some(x) ==> x <= s.len()),
        r matches Parsed::Fail(e) ==> p <= e <= s.len(),
{
    match lex_int(s, p) {
        Parsed::Done(v, e, a) => if v > 65535 {
            Parsed::Panic
        } else {
            Parsed::Done(MusicEvent::NumberedMeasure(v as u16), e, a)
        },
        Parsed::Panic => Parsed::Panic,
        Parsed::Fail(e9) => Parsed::Fail(if m >= e9 { m } else { e9 }),
    }
}

fn lex_music_event(s: &Vec<char>, p: usize, proto: bool) -> (r: Parsed<MusicEvent>)
    requires
        p <= s.len(),
    ensures
        parsed_is(r, g_music_event(s@, p as int, proto)),
        r matches Parsed::Done(_, e, a) ==> p < e <= s.len() && (a matches Some(x) ==> x <= s.len()),
        r matches Parsed::Fail(e) ==> p <= e <= s.len(),
{
    proof {
        reveal_strlit("%");
        reveal_strlit(":-");
        reveal_strlit("-:");
        reveal_strlit("(");
        reveal_strlit(")");
    }
    assert("%"@ =~= seq!['%']);
    assert(":-"@ =~= seq![':', '-']);
    assert("-:"@ =~= seq!['-', ':']);
    assert("("@ =~= seq!['(']);
    assert(")"@ =~= seq![')']);
    let e1 = match lex_chord(s, p) {
        Parsed::Done(c, e, a) => {
            return Parsed::Done(MusicEvent::ChordEvent(c), e, a);
        },
        Parsed::Panic => {
            return Parsed::Panic;
        },
        Parsed::Fail(e) => e,
    };
    let e2 = match lex_melody(s, p) {
        Parsed::Done(m, e, a) => {
            assert(m.deep_view() =~= m@);
            return Parsed::Done(MusicEvent::MelodyEvent(m), e, a);
        },
        Parsed::Panic => {
            return Parsed::Panic;
        },
        Parsed::Fail(e) => e,
    };
    let e3 = match lex_just(s, p, "%") {
        Parsed::Done(_, e, _) => {
            return Parsed::Done(MusicEvent::RepeatMeasure, e, None);
        },
        Parsed::Panic => {
            return Parsed::Panic;
        },
        Parsed::Fail(e) => e,
    };
    let e4 = match lex_annotation(s, p) {
        Parsed::Done(t, e, a) => {
            return Parsed::Done(MusicEvent::Annotation(t), e, a);
        },
        Parsed::Panic => {
            return Parsed::Panic;
        },
        Parsed::Fail(e) => e,
    };
    let e5 = match lex_just(s, p, ":-") {
        Parsed::Done(_, e, _) => {
            return Parsed::Done(MusicEvent::StartRepeat, e, None);
        },
        Parsed::Panic => {
            return Parsed::Panic;
        },
        Parsed::Fail(e) => e,
    };
    let e6 = match lex_just(s, p, "-:") {
        Parsed::Done(_, e, _) => {
            return Parsed::Done(MusicEvent::EndRepeat, e, None);
        },
        Parsed::Panic => {
            return Parsed::Panic;
        },
        Parsed::Fail(e) => e,
    };
    let m12 = if e1 >= e2 { e1 } else { e2 };
    let m34 = if e3 >= e4 { e3 } else { e4 };
    let m56 = if e5 >= e6 { e5 } else { e6 };
    let m14 = if m12 >= m34 { m12 } else { m34 };
    let m16 = if m14 >= m56 { m14 } else { m56 };
    if proto {
        return lex_event_number(s, p, m16);
    }
    let e7 = match lex_just(s, p, "(") {
        Parsed::Done(_, e, _) => {
            return Parsed::Done(MusicEvent::OpenParen, e, None);
        },
        Parsed::Panic => {
            return Parsed::Panic;
        },
        Parsed::Fail(e) => e,
    };
    let e8 = match lex_just(s, p, ")") {
        Parsed::Done(_, e, _) => {
            return Parsed::Done(MusicEvent::CloseParen, e, None);
        },
        Parsed::Panic => {
            return Parsed::Panic;
        },
        Parsed::Fail(e) => e,
    };
    let m78 = if e7 >= e8 { e7 } else { e8 };
    lex_event_number(s, p, if m16 >= m78 { m16 } else { m78 })
}

/// A music event and the spaces after it.
pub open spec fn g_event_sp(s: Seq<char>, p: int, proto: bool) -> Pr<MusicEventView> {
    match g_music_event(s, p, proto) {
        Pr::Done(v, q, a) => {
            let q2 = run(s, q, Class::Space);
            Pr::Done(v, q2, amax(a, Some(q2)))
        },
        Pr::Fail(e) => Pr::Fail(e),
        Pr::Panic => Pr::Panic,
    }
}

/// Music events repeated from `p` after `acc`.
pub open spec fn events_rep(
    s: Seq<char>,
    p: int,
    proto: bool,
    acc: Seq<MusicEventView>,
    alt: Option<int>,
) -> Pr<Seq<MusicEventView>>
    decreases s.len() - p,
{
    match g_event_sp(s, p, proto) {
        Pr::Done(v, q, a) => if p < q <= s.len() {
            events_rep(s, q, proto, acc.push(v), amax(alt, a))
        } else {
            Pr::Panic
        },
        Pr::Fail(e) => Pr::Done(acc, p, amax(alt, Some(e))),
        Pr::Panic => Pr::Panic,
    }
}

/// The chords of a block: music events up to a `·` or `*`.
pub open spec fn g_chord_text(s: Seq<char>, p: int, proto: bool) -> Pr<Seq<MusicEventView>> {
    match events_rep(s, p, proto, Seq::empty(), None) {
        Pr::Done(evs, q, a) => if 0 <= q < s.len() && (s[q] == '·' || s[q] == '*') {
            Pr::Done(evs, q + 1, a)
        } else {
            Pr::Fail(emax(q, a))
        },
        Pr::Fail(e) => Pr::Fail(e),
        Pr::Panic => Pr::Panic,
    }
}

fn lex_events(s: &Vec<char>, p: usize, proto: bool) -> (r: Parsed<Vec<MusicEvent>>)
    requires
        p <= s.len(),
    ensures
        parsed_is(r, events_rep(s@, p as int, proto, Seq::empty(), None)),
        r matches Parsed::Done(_, e, a) ==> p <= e <= s.len() && (a matches Some(x) ==> x <= s.len()),
        r matches Parsed::Fail(e) ==> p <= e <= s.len(),
{
    let mut acc: Vec<MusicEvent> = Vec::new();
    let mut alt: Option<usize> = None;
    let mut i = p;
    assert(acc.deep_view() =~= Seq::<MusicEventView>::empty());
    loop
        invariant
            p <= i <= s.len(),
            alt matches Some(x) ==> x <= s.len(),
            events_rep(s@, p as int, proto, Seq::empty(), None) == events_rep(
                s@,
                i as int,
                proto,
                acc.deep_view(),
                opt_int(alt),
            ),
        decreases s.len() - i,
    {
        match lex_music_event(s, i, proto) {
            Parsed::Done(v, q, a) => {
                let q2 = run_x(s, q, &Class::Space);
                let ghost before = acc.deep_view();
                let ghost vv = v.deep_view();
                acc.push(v);
                assert(acc.deep_view() =~= before.push(vv));
                alt = amax_x(alt, amax_x(a, Some(q2)));
                i = q2;
            },
            Parsed::Fail(e) => {
                let al = amax_x(alt, Some(e));
                return Parsed::Done(acc, i, al);
            },
            Parsed::Panic => {
                return Parsed::Panic;
            },
        }
    }
}

pub(crate) fn lex_chord_text(s: &Vec<char>, p: usize, proto: bool) -> (r: Parsed<Vec<MusicEvent>>)
    requires
        p <= s.len(),
    ensures
        parsed_is(r, g_chord_text(s@, p as int, proto)),
        r matches Parsed::Done(_, e, a) ==> p < e <= s.len() && (a matches Some(x) ==> x <= s.len()),
        r matches Parsed::Fail(e) ==> p <= e <= s.len(),
{
    match lex_events(s, p, proto) {
        Parsed::Done(evs, q, a) => if q < s.len() && (s[q] == '·' || s[q] == '*') {
            Parsed::Done(evs, q + 1, a)
        } else {
            Parsed::Fail(emax_x(q, a))
        },
        Parsed::Fail(e) => Parsed::Fail(e),
        Parsed::Panic => Parsed::Panic,
    }
}

} // verus!
