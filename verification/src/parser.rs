//! Lexers for the pieces of a chord block: tone roots, tonalities, numbers,
//! time offsets, chord keywords and alterations, chords, melodies, literals,
//! and whole music blocks.
//!
//! Each lexer `parse_x` reads a prefix of its input and hands back what it
//! read with the rest of the input. Its meaning is the spec function
//! `spec_x` over the input's characters, whose `Outcome` is `Fail` where
//! `parse_x` returns `None`, `Done(value, rest)` where it returns
//! `Some((value, rest))`, and `Panic` on the inputs that `parse_x` does not
//! accept (its `requires` leaves them out).

use vstd::prelude::*;
use crate::base::{alteration_spelled, keyword_spelled, letter_pitch, NoteHeight, TonicKind, TimeOffset, ChordKeyword, ChordModifier, ChordAlteration, ChordAlterationKind, ChordKind, ChordEvent, ChordEventView, MusicEvent, MusicEventView, SHBParseError, SHBErrorKind, ParseErrorView, ErrorKindView};
use crate::text::{is_digit, is_ascii_digit, char_width, len_utf8, utf8_len, trim, trim_start, find_ws, str_trim, str_trim_start, str_byte_len, find_whitespace, lemma_trim_start_len, lemma_utf8_len_split, lemma_find_ws, lemma_trim_first, is_ws, lemma_trim_len};

verus! {

/// What a lexer does with an input.
pub ghost enum Outcome<T> {
    Fail,
    Panic,
    Done(T, Seq<char>),
}

/// `res` is what a lexer with meaning `o` returns.
pub open spec fn agrees<T: DeepView>(res: Option<(T, &str)>, o: Outcome<T::V>) -> bool {
    match o {
        Outcome::Done(v, r) => match res {
            Some((x, rest)) => x.deep_view() == v && rest@ == r,
            None => false,
        },
        Outcome::Fail => res is None,
        Outcome::Panic => false,
    }
}

pub open spec fn is_panic<T>(o: Outcome<T>) -> bool {
    o is Panic
}

/// What a total lexer returns: no token, an input the lexer does not
/// accept, or a token with the rest of the input.
pub enum Lexed<'a, T> {
    Fail,
    Panic,
    Done(T, &'a str),
}

/// `res` is what a total lexer with meaning `o` returns.
pub open spec fn lexed<T: DeepView>(res: Lexed<T>, o: Outcome<T::V>) -> bool {
    match o {
        Outcome::Done(v, r) => match res {
            Lexed::Done(x, rest) => x.deep_view() == v && rest@ == r,
            _ => false,
        },
        Outcome::Fail => res is Fail,
        Outcome::Panic => res is Panic,
    }
}

fn lexed_to_option<'a, T: DeepView>(res: Lexed<'a, T>, Ghost(o): Ghost<Outcome<T::V>>) -> (r: Option<(T, &'a str)>)
    requires
        lexed(res, o),
        !is_panic(o),
    ensures
        agrees(r, o),
{
    match res {
        Lexed::Done(v, rest) => Some((v, rest)),
        _ => None,
    }
}

// ----- seek -----

/// `s` starts with `p`: the rest of `s` after `p`.
pub open spec fn spec_seek(s: Seq<char>, p: Seq<char>) -> Option<Seq<char>> {
    if p.len() <= s.len() && s.take(p.len() as int) == p {
        Some(s.skip(p.len() as int))
    } else {
        None
    }
}

/// The rest of `s` after the prefix `pattern`, if `s` starts with it.
pub fn seek<'i>(s: &'i str, pattern: &str) -> (r: Option<&'i str>)
    ensures
        match spec_seek(s@, pattern@) {
            Some(rest) => r matches Some(x) && x@ == rest,
            None => r is None,
        },
{
    let n = s.unicode_len();
    let m = pattern.unicode_len();
    if m > n {
        return None;
    }
    let mut i: usize = 0;
    while i < m
        invariant
            n == s@.len(),
            m == pattern@.len(),
            m <= n,
            i <= m,
            forall|j: int| 0 <= j < i ==> s@[j] == pattern@[j],
        decreases m - i,
    {
        if s.get_char(i) != pattern.get_char(i) {
            assert(s@.take(m as int)[i as int] != pattern@[i as int]);
            return None;
        }
        i = i + 1;
    }
    assert(s@.take(m as int) =~= pattern@);
    Some(s.substring_char(m, n))
}

// ----- unsigned integers -----

/// Length of the run of ASCII digits that starts `s`.
pub open spec fn digit_run(s: Seq<char>) -> nat
    decreases s.len(),
{
    if s.len() > 0 && is_digit(s[0]) {
        1 + digit_run(s.drop_first())
    } else {
        0
    }
}

/// Decimal value of a sequence of digits.
pub open spec fn digits_value(s: Seq<char>) -> nat
    decreases s.len(),
{
    if s.len() == 0 {
        0
    } else {
        digits_value(s.drop_last()) * 10 + ((s.last() as int - '0' as int) as nat)
    }
}

/// Meaning of `parse_uint_until`: the decimal number that starts `s`; past
/// `u32::MAX` its arithmetic overflows.
pub open spec fn spec_uint(s: Seq<char>) -> Outcome<u32> {
    if s.len() == 0 || !is_digit(s[0]) {
        Outcome::Fail
    } else {
        let k = digit_run(s) as int;
        let v = digits_value(s.take(k));
        if v > u32::MAX {
            Outcome::Panic
        } else {
            Outcome::Done(v as u32, s.skip(k))
        }
    }
}

pub proof fn lemma_digit_run(s: Seq<char>)
    ensures
        digit_run(s) <= s.len(),
        forall|j: int| 0 <= j < digit_run(s) ==> is_digit(#[trigger] s[j]),
        digit_run(s) < s.len() ==> !is_digit(s[digit_run(s) as int]),
    decreases s.len(),
{
    if s.len() > 0 && is_digit(s[0]) {
        lemma_digit_run(s.drop_first());
        assert forall|j: int| 0 <= j < digit_run(s) implies is_digit(#[trigger] s[j]) by {
            if j > 0 {
                assert(s[j] == s.drop_first()[j - 1]);
            }
        }
    }
}

pub proof fn lemma_digits_value_mono(s: Seq<char>, i: int)
    requires
        0 <= i <= s.len(),
        forall|j: int| 0 <= j < s.len() ==> is_digit(#[trigger] s[j]),
    ensures
        digits_value(s.take(i)) <= digits_value(s),
    decreases s.len() - i,
{
    if i < s.len() {
        assert(s.drop_last().take(i) =~= s.take(i));
        assert forall|j: int| 0 <= j < s.drop_last().len() implies is_digit(
            #[trigger] s.drop_last()[j],
        ) by {
            assert(s.drop_last()[j] == s[j]);
        }
        lemma_digits_value_mono(s.drop_last(), i);
        assert(is_digit(s[s.len() - 1]));
    } else {
        assert(s.take(i) =~= s);
    }
}

/// Total form of `parse_uint_until`.
pub fn lex_uint(s: &str) -> (r: Lexed<u32>)
    ensures
        lexed(r, spec_uint(s@)),
{
    let n = s.unicode_len();
    if n == 0 || !is_ascii_digit(s.get_char(0)) {
        return Lexed::Fail;
    }
    let ghost k = digit_run(s@) as int;
    proof {
        lemma_digit_run(s@);
        assert forall|j: int| 0 <= j < s@.take(k).len() implies is_digit(#[trigger] s@.take(k)[j]) by {
            assert(s@.take(k)[j] == s@[j]);
        }
    }
    let mut i: usize = 0;
    let mut val: u32 = 0;
    while i < n && is_ascii_digit(s.get_char(i))
        invariant
            n == s@.len(),
            0 <= i <= k,
            k == digit_run(s@),
            k <= n,
            forall|j: int| 0 <= j < k ==> is_digit(#[trigger] s@[j]),
            k < n ==> !is_digit(s@[k]),
            forall|j: int| 0 <= j < s@.take(k).len() ==> is_digit(#[trigger] s@.take(k)[j]),
            val == digits_value(s@.take(i as int)),
        decreases n - i,
    {
        let c = s.get_char(i);
        proof {
            assert(s@.take(i + 1).drop_last() =~= s@.take(i as int));
            assert(s@.take(i + 1).last() == c);
            assert(s@.take(k).take(i + 1) =~= s@.take(i + 1));
            lemma_digits_value_mono(s@.take(k), i + 1);
        }
        let d = c as u32 - '0' as u32;
        match val.checked_mul(10) {
            Some(v10) => match v10.checked_add(d) {
                Some(v) => {
                    val = v;
                },
                None => {
                    return Lexed::Panic;
                },
            },
            None => {
                return Lexed::Panic;
            },
        }
        i = i + 1;
    }
    Lexed::Done(val, s.substring_char(i, n))
}

/// Reads the run of ASCII digits that starts `s` as a decimal `u32`.
pub fn parse_uint_until(s: &str) -> (r: Option<(u32, &str)>)
    requires
        !is_panic(spec_uint(s@)),
    ensures
        agrees(r, spec_uint(s@)),
{
    lexed_to_option(lex_uint(s), Ghost(spec_uint(s@)))
}

// ----- tone roots and tonalities -----

/// Pitch class of a natural note name.
pub open spec fn root_value(c: char) -> Option<u8> {
    if c == 'C' {
        Some(0u8)
    } else if c == 'D' {
        Some(2u8)
    } else if c == 'E' {
        Some(4u8)
    } else if c == 'F' {
        Some(5u8)
    } else if c == 'G' {
        Some(7u8)
    } else if c == 'A' {
        Some(9u8)
    } else if c == 'B' {
        Some(11u8)
    } else {
        None
    }
}

/// Meaning of `parse_tone_root`: a note name `A`..`G`, raised by a following
/// `#` or lowered by a following `b`. Lowering `C` underflows.
pub open spec fn spec_tone_root(s: Seq<char>) -> Outcome<u8> {
    if s.len() == 0 {
        Outcome::Fail
    } else {
        match root_value(s[0]) {
            None => Outcome::Fail,
            Some(v) => if s.len() >= 2 && s[1] == '#' {
                Outcome::Done((v + 1) as u8, s.skip(2))
            } else if s.len() >= 2 && s[1] == 'b' {
                if v == 0 {
                    Outcome::Panic
                } else {
                    Outcome::Done((v - 1) as u8, s.skip(2))
                }
            } else {
                Outcome::Done(v, s.skip(1))
            },
        }
    }
}

/// Total form of `parse_tone_root`.
pub fn lex_tone_root(s: &str) -> (r: Lexed<u8>)
    ensures
        lexed(r, spec_tone_root(s@)),
{
    let n = s.unicode_len();
    if n == 0 {
        return Lexed::Fail;
    }
    let first = s.get_char(0);
    let value: u8 = if first == 'C' {
        0
    } else if first == 'D' {
        2
    } else if first == 'E' {
        4
    } else if first == 'F' {
        5
    } else if first == 'G' {
        7
    } else if first == 'A' {
        9
    } else if first == 'B' {
        11
    } else {
        return Lexed::Fail;
    };
    if n >= 2 {
        let second = s.get_char(1);
        if second == '#' {
            Lexed::Done(value + 1, s.substring_char(2, n))
        } else if second == 'b' {
            if value == 0 {
                return Lexed::Panic;
            }
            Lexed::Done(value - 1, s.substring_char(2, n))
        } else {
            Lexed::Done(value, s.substring_char(1, n))
        }
    } else {
        Lexed::Done(value, s.substring_char(1, n))
    }
}

/// Reads a note name with an optional accidental.
pub fn parse_tone_root(s: &str) -> (r: Option<(u8, &str)>)
    requires
        !is_panic(spec_tone_root(s@)),
    ensures
        agrees(r, spec_tone_root(s@)),
{
    lexed_to_option(lex_tone_root(s), Ghost(spec_tone_root(s@)))
}

/// Meaning of `parse_tonality`: a tone root, minor when an `m` follows it.
pub open spec fn spec_tonality(s: Seq<char>) -> Outcome<(u8, TonicKind)> {
    match spec_tone_root(s) {
        Outcome::Fail => Outcome::Fail,
        Outcome::Panic => Outcome::Panic,
        Outcome::Done(root, rest) => Outcome::Done(
            (root, if rest.len() > 0 && rest[0] == 'm' { TonicKind::Minor } else { TonicKind::Major }),
            rest,
        ),
    }
}

/// Reads a tonality such as `F#m` or `Bb`.
pub fn parse_tonality(s: &str) -> (r: Option<(NoteHeight, TonicKind)>)
    requires
        !is_panic(spec_tonality(s@)),
    ensures
        match spec_tonality(s@) {
            Outcome::Done(v, _) => r == Some(v),
            _ => r is None,
        },
{
    let (root, s) = match parse_tone_root(s) {
        Some(x) => x,
        None => return None,
    };
    let mut kind = TonicKind::Major;
    if s.unicode_len() > 0 && s.get_char(0) == 'm' {
        kind = TonicKind::Minor;
    }
    Some((root, kind))
}

// ----- literals -----

/// Index of the first `c` in `s`.
pub open spec fn find_char(s: Seq<char>, c: char) -> Option<nat>
    decreases s.len(),
{
    if s.len() == 0 {
        None
    } else if s[0] == c {
        Some(0)
    } else {
        match find_char(s.drop_first(), c) {
            Some(k) => Some(k + 1),
            None => None,
        }
    }
}

pub proof fn lemma_find_char(s: Seq<char>, c: char)
    ensures
        match find_char(s, c) {
            Some(k) => k < s.len() && s[k as int] == c && forall|j: int| 0 <= j < k ==> s[j] != c,
            None => forall|j: int| 0 <= j < s.len() ==> s[j] != c,
        },
    decreases s.len(),
{
    if s.len() > 0 && s[0] != c {
        lemma_find_char(s.drop_first(), c);
        match find_char(s.drop_first(), c) {
            Some(k) => {
                assert forall|j: int| 0 <= j < k + 1 implies s[j] != c by {
                    if j > 0 {
                        assert(s[j] == s.drop_first()[j - 1]);
                    }
                }
            },
            None => {
                assert forall|j: int| 0 <= j < s.len() implies s[j] != c by {
                    if j > 0 {
                        assert(s[j] == s.drop_first()[j - 1]);
                    }
                }
            },
        }
    }
}

/// Meaning of `parse_literal`: a text between double quotes.
pub open spec fn spec_literal(s: Seq<char>) -> Option<(Seq<char>, Seq<char>)> {
    if s.len() > 0 && s[0] == '"' {
        let t = s.skip(1);
        match find_char(t, '"') {
            Some(k) => Some((t.take(k as int), t.skip(k + 1 as int))),
            None => None,
        }
    } else {
        None
    }
}

/// Reads a double-quoted text, handing back the text without its quotes.
pub fn parse_literal(s: &str) -> (r: Option<(String, &str)>)
    ensures
        match spec_literal(s@) {
            Some((text, rest)) => r matches Some((x, y)) && x@ == text && y@ == rest,
            None => r is None,
        },
{
    let n = s.unicode_len();
    if n == 0 || s.get_char(0) != '"' {
        return None;
    }
    let t = s.substring_char(1, n);
    let m = n - 1;
    proof {
        lemma_find_char(t@, '"');
    }
    let mut i: usize = 0;
    while i < m
        invariant
            m == t@.len(),
            n == s@.len(),
            n >= 1,
            s@[0] == '"',
            t@ == s@.subrange(1, n as int),
            i <= m,
            forall|j: int| 0 <= j < i ==> t@[j] != '"',
        decreases m - i,
    {
        if t.get_char(i) == '"' {
            proof {
                assert(t@ =~= s@.skip(1));
                lemma_find_char(t@, '"');
                assert(find_char(t@, '"') == Some(i as nat)) by {
                    match find_char(t@, '"') {
                        Some(k) => {
                            if k < i {
                                assert(t@[k as int] != '"');
                            }
                            if k > i {
                                assert(t@[i as int] != '"');
                            }
                        },
                        None => {
                            assert(t@[i as int] != '"');
                        },
                    }
                }
                assert(t@.take(i as int) =~= t@.subrange(0, i as int));
                assert(t@.skip(i + 1) =~= t@.subrange(i + 1, m as int));
            }
            let text = t.substring_char(0, i).to_owned();
            return Some((text, t.substring_char(i + 1, m)));
        }
        i = i + 1;
    }
    None
}

// ----- time offsets -----

/// The beat of a time offset: the number read, modulo 128, negated after a `-`.
pub open spec fn time_beat(b: u32, neg: bool) -> i8 {
    if neg {
        (-((b % 128) as int)) as i8
    } else {
        (b % 128) as i8
    }
}

/// Meaning of `parse_time_offset`: `<` (half a beat before the first beat),
/// or an optionally negated beat number followed by `+num,den`, by `'`
/// (half a beat), or by nothing.
pub open spec fn spec_time_offset(s: Seq<char>) -> Outcome<TimeOffset> {
    if s.len() == 0 {
        Outcome::Fail
    } else if s[0] == '<' {
        Outcome::Done(TimeOffset { beat: -1i8, num: 1u8, den: 2u8 }, s.skip(1))
    } else {
        let neg = s[0] == '-';
        let s1 = if neg { s.skip(1) } else { s };
        match spec_uint(s1) {
            Outcome::Fail => Outcome::Fail,
            Outcome::Panic => Outcome::Panic,
            Outcome::Done(b, s2) => {
                let beat = time_beat(b, neg);
                let plain = Outcome::Done(TimeOffset { beat, num: 0, den: 1 }, s2);
                if s2.len() > 0 && s2[0] == '+' {
                    match spec_uint(s2.skip(1)) {
                        Outcome::Panic => Outcome::Panic,
                        Outcome::Fail => plain,
                        Outcome::Done(num, ns) => if ns.len() > 0 && ns[0] == ',' {
                            match spec_uint(ns.skip(1)) {
                                Outcome::Panic => Outcome::Panic,
                                Outcome::Fail => plain,
                                Outcome::Done(den, s3) => Outcome::Done(
                                    TimeOffset { beat, num: num as u8, den: den as u8 },
                                    s3,
                                ),
                            }
                        } else {
                            plain
                        },
                    }
                } else if s2.len() > 0 && s2[0] == '\'' {
                    Outcome::Done(TimeOffset { beat, num: 1, den: 2 }, s2.skip(1))
                } else {
                    plain
                }
            },
        }
    }
}

/// Total form of `parse_time_offset`.
pub fn lex_time_offset(s: &str) -> (r: Lexed<TimeOffset>)
    ensures
        lexed(r, spec_time_offset(s@)),
{
    let n = s.unicode_len();
    if n == 0 {
        return Lexed::Fail;
    }
    let first_char = s.get_char(0);
    let mut neg: i8 = 1;
    let mut s1 = s;
    if first_char == '<' {
        return Lexed::Done(TimeOffset { beat: -1, num: 1, den: 2 }, s.substring_char(1, n));
    }
    if first_char == '-' {
        neg = -1;
        s1 = s.substring_char(1, n);
        assert(s1@ =~= s@.skip(1));
    } else {
        assert(s1@ =~= s@);
    }
    let (beat, s2) = match lex_uint(s1) {
        Lexed::Done(b, r) => (b, r),
        Lexed::Fail => return Lexed::Fail,
        Lexed::Panic => return Lexed::Panic,
    };
    let beat: i8 = ((beat % 128) as i8) * neg;
    let m = s2.unicode_len();
    if m > 0 && s2.get_char(0) == '+' {
        let t = s2.substring_char(1, m);
        assert(t@ =~= s2@.skip(1));
        match lex_uint(t) {
            Lexed::Panic => {
                return Lexed::Panic;
            },
            Lexed::Fail => {},
            Lexed::Done(num, ns) => {
                let k = ns.unicode_len();
                if k > 0 && ns.get_char(0) == ',' {
                    let u = ns.substring_char(1, k);
                    assert(u@ =~= ns@.skip(1));
                    match lex_uint(u) {
                        Lexed::Panic => {
                            return Lexed::Panic;
                        },
                        Lexed::Fail => {},
                        Lexed::Done(den, s3) => {
                            return Lexed::Done(
                                TimeOffset { beat, num: num as u8, den: den as u8 },
                                s3,
                            );
                        },
                    }
                }
            },
        }
    } else if m > 0 && s2.get_char(0) == '\'' {
        return Lexed::Done(TimeOffset { beat, num: 1, den: 2 }, s2.substring_char(1, m));
    }
    Lexed::Done(TimeOffset { beat, num: 0, den: 1 }, s2)
}

/// Reads the time offset written before a chord.
pub fn parse_time_offset(s: &str) -> (r: Option<(TimeOffset, &str)>)
    requires
        !is_panic(spec_time_offset(s@)),
    ensures
        agrees(r, spec_time_offset(s@)),
{
    lexed_to_option(lex_time_offset(s), Ghost(spec_time_offset(s@)))
}

// ----- chord keywords and alterations -----

/// Skips `n` bytes of the UTF-8 encoding of `s`; `None` where byte `n` is
/// not the start of a character or lies past the end.
pub open spec fn skip_bytes(s: Seq<char>, n: nat) -> Option<Seq<char>>
    decreases n,
{
    if n == 0 {
        Some(s)
    } else if s.len() == 0 {
        None
    } else if char_width(s[0]) <= n {
        skip_bytes(s.drop_first(), (n - char_width(s[0])) as nat)
    } else {
        None
    }
}

/// The degree written after an alteration sign, as `str::parse::<u8>` reads
/// the first two bytes, or else the first byte, of `s`.
pub open spec fn spec_degree(s: Seq<char>) -> Option<u8> {
    if s.len() >= 2 && is_digit(s[0]) && is_digit(s[1]) {
        Some((10 * (s[0] as int - '0' as int) + (s[1] as int - '0' as int)) as u8)
    } else if s.len() >= 2 && s[0] == '+' && is_digit(s[1]) {
        Some((s[1] as int - '0' as int) as u8)
    } else if s.len() >= 1 && is_digit(s[0]) {
        Some((s[0] as int - '0' as int) as u8)
    } else {
        None
    }
}

/// The first chord keyword that `s` starts with, in the order
/// `add11 add2 add4 add9 sus2 sus4 Maj 6/9 aug dim 11 13 9 7 6 5 M + °`.
pub open spec fn spec_chord_keyword(s: Seq<char>) -> Option<(ChordKeyword, Seq<char>)> {
    if let Some(r) = spec_seek(s, "add11"@) {
        Some((ChordKeyword::Add11, r))
    } else if let Some(r) = spec_seek(s, "add2"@) {
        Some((ChordKeyword::Add2, r))
    } else if let Some(r) = spec_seek(s, "add4"@) {
        Some((ChordKeyword::Add4, r))
    } else if let Some(r) = spec_seek(s, "add9"@) {
        Some((ChordKeyword::Add9, r))
    } else if let Some(r) = spec_seek(s, "sus2"@) {
        Some((ChordKeyword::Sus2, r))
    } else if let Some(r) = spec_seek(s, "sus4"@) {
        Some((ChordKeyword::Sus4, r))
    } else if let Some(r) = spec_seek(s, "Maj"@) {
        Some((ChordKeyword::Maj, r))
    } else if let Some(r) = spec_seek(s, "6/9"@) {
        Some((ChordKeyword::K69, r))
    } else if let Some(r) = spec_seek(s, "aug"@) {
        Some((ChordKeyword::Aug, r))
    } else if let Some(r) = spec_seek(s, "dim"@) {
        Some((ChordKeyword::Dim, r))
    } else if let Some(r) = spec_seek(s, "11"@) {
        Some((ChordKeyword::K11, r))
    } else if let Some(r) = spec_seek(s, "13"@) {
        Some((ChordKeyword::K13, r))
    } else if let Some(r) = spec_seek(s, "9"@) {
        Some((ChordKeyword::K9, r))
    } else if let Some(r) = spec_seek(s, "7"@) {
        Some((ChordKeyword::K7, r))
    } else if let Some(r) = spec_seek(s, "6"@) {
        Some((ChordKeyword::K6, r))
    } else if let Some(r) = spec_seek(s, "5"@) {
        Some((ChordKeyword::K5, r))
    } else if let Some(r) = spec_seek(s, "M"@) {
        Some((ChordKeyword::Maj, r))
    } else if let Some(r) = spec_seek(s, "+"@) {
        Some((ChordKeyword::Aug, r))
    } else if let Some(r) = spec_seek(s, "°"@) {
        Some((ChordKeyword::Dim, r))
    } else {
        None
    }
}

/// The alteration sign that `s` starts with: `no`, `b` or `#`.
pub open spec fn spec_alteration_sign(s: Seq<char>) -> Option<(ChordAlterationKind, Seq<char>)> {
    if let Some(r) = spec_seek(s, "no"@) {
        Some((ChordAlterationKind::No, r))
    } else if let Some(r) = spec_seek(s, "b"@) {
        Some((ChordAlterationKind::Flat, r))
    } else if let Some(r) = spec_seek(s, "#"@) {
        Some((ChordAlterationKind::Sharp, r))
    } else {
        None
    }
}

/// Meaning of `parse_keyword`: a chord keyword, or else an alteration sign
/// followed by a degree. After the degree `d` the lexer goes on `d / 10 + 1`
/// bytes past the sign; where that is not a character boundary of the input
/// (a degree of 20 or more at the end of the input) the slicing fails.
pub open spec fn spec_keyword(s: Seq<char>) -> Outcome<ChordModifier> {
    match spec_chord_keyword(s) {
        Some((k, r)) => Outcome::Done(ChordModifier::Keyword(k), r),
        None => match spec_alteration_sign(s) {
            None => Outcome::Fail,
            Some((kind, ns)) => match spec_degree(ns) {
                None => Outcome::Fail,
                Some(degree) => match skip_bytes(ns, (degree / 10 + 1) as nat) {
                    Some(rest) => Outcome::Done(
                        ChordModifier::Alteration(ChordAlteration { kind, degree }),
                        rest,
                    ),
                    None => Outcome::Panic,
                },
            },
        },
    }
}

fn skip_byte_count(s: &str, n: usize) -> (r: Option<&str>)
    ensures
        match skip_bytes(s@, n as nat) {
            Some(x) => r matches Some(y) && y@ == x,
            None => r is None,
        },
{
    let len = s.unicode_len();
    let mut i: usize = 0;
    let mut b: usize = 0;
    assert(s@.skip(0) =~= s@);
    while b < n
        invariant
            len == s@.len(),
            i <= len,
            b <= n,
            skip_bytes(s@, n as nat) == skip_bytes(s@.skip(i as int), (n - b) as nat),
        decreases n - b,
    {
        if i == len {
            return None;
        }
        let c = s.get_char(i);
        assert(s@.skip(i as int)[0] == c);
        assert(s@.skip(i as int).drop_first() =~= s@.skip(i + 1));
        let w = len_utf8(c);
        if w > n - b {
            return None;
        }
        b = b + w;
        i = i + 1;
    }
    assert(s@.skip(i as int) =~= s@.subrange(i as int, len as int));
    Some(s.substring_char(i, len))
}

fn digit_value(c: char) -> (r: u8)
    requires
        is_digit(c),
    ensures
        r == c as int - '0' as int,
{
    (c as u32 - '0' as u32) as u8
}

/// Total form of `parse_keyword`.
pub fn lex_keyword<'i>(s: &'i str) -> (r: Lexed<'i, ChordModifier>)
    ensures
        lexed(r, spec_keyword(s@)),
{
    if let Some(ns) = seek(s, "add11") {
        return Lexed::Done(ChordModifier::Keyword(ChordKeyword::Add11), ns);
    }
    if let Some(ns) = seek(s, "add2") {
        return Lexed::Done(ChordModifier::Keyword(ChordKeyword::Add2), ns);
    }
    if let Some(ns) = seek(s, "add4") {
        return Lexed::Done(ChordModifier::Keyword(ChordKeyword::Add4), ns);
    }
    if let Some(ns) = seek(s, "add9") {
        return Lexed::Done(ChordModifier::Keyword(ChordKeyword::Add9), ns);
    }
    if let Some(ns) = seek(s, "sus2") {
        return Lexed::Done(ChordModifier::Keyword(ChordKeyword::Sus2), ns);
    }
    if let Some(ns) = seek(s, "sus4") {
        return Lexed::Done(ChordModifier::Keyword(ChordKeyword::Sus4), ns);
    }
    if let Some(ns) = seek(s, "Maj") {
        return Lexed::Done(ChordModifier::Keyword(ChordKeyword::Maj), ns);
    }
    if let Some(ns) = seek(s, "6/9") {
        return Lexed::Done(ChordModifier::Keyword(ChordKeyword::K69), ns);
    }
    if let Some(ns) = seek(s, "aug") {
        return Lexed::Done(ChordModifier::Keyword(ChordKeyword::Aug), ns);
    }
    if let Some(ns) = seek(s, "dim") {
        return Lexed::Done(ChordModifier::Keyword(ChordKeyword::Dim), ns);
    }
    if let Some(ns) = seek(s, "11") {
        return Lexed::Done(ChordModifier::Keyword(ChordKeyword::K11), ns);
    }
    if let Some(ns) = seek(s, "13") {
        return Lexed::Done(ChordModifier::Keyword(ChordKeyword::K13), ns);
    }
    if let Some(ns) = seek(s, "9") {
        return Lexed::Done(ChordModifier::Keyword(ChordKeyword::K9), ns);
    }
    if let Some(ns) = seek(s, "7") {
        return Lexed::Done(ChordModifier::Keyword(ChordKeyword::K7), ns);
    }
    if let Some(ns) = seek(s, "6") {
        return Lexed::Done(ChordModifier::Keyword(ChordKeyword::K6), ns);
    }
    if let Some(ns) = seek(s, "5") {
        return Lexed::Done(ChordModifier::Keyword(ChordKeyword::K5), ns);
    }
    if let Some(ns) = seek(s, "M") {
        return Lexed::Done(ChordModifier::Keyword(ChordKeyword::Maj), ns);
    }
    if let Some(ns) = seek(s, "+") {
        return Lexed::Done(ChordModifier::Keyword(ChordKeyword::Aug), ns);
    }
    if let Some(ns) = seek(s, "°") {
        return Lexed::Done(ChordModifier::Keyword(ChordKeyword::Dim), ns);
    }
    let (kind, ns) = if let Some(ns) = seek(s, "no") {
        (ChordAlterationKind::No, ns)
    } else if let Some(ns) = seek(s, "b") {
        (ChordAlterationKind::Flat, ns)
    } else if let Some(ns) = seek(s, "#") {
        (ChordAlterationKind::Sharp, ns)
    } else {
        return Lexed::Fail;
    };
    let n = ns.unicode_len();
    let degree: u8 = if n >= 2 && is_ascii_digit(ns.get_char(0)) && is_ascii_digit(
        ns.get_char(1),
    ) {
        10 * digit_value(ns.get_char(0)) + digit_value(ns.get_char(1))
    } else if n >= 2 && ns.get_char(0) == '+' && is_ascii_digit(ns.get_char(1)) {
        digit_value(ns.get_char(1))
    } else if n >= 1 && is_ascii_digit(ns.get_char(0)) {
        digit_value(ns.get_char(0))
    } else {
        return Lexed::Fail;
    };
    let delta = degree / 10 + 1;
    match skip_byte_count(ns, delta as usize) {
        Some(rest) => Lexed::Done(ChordModifier::Alteration(ChordAlteration { kind, degree }), rest),
        None => Lexed::Panic,
    }
}

/// Reads a chord keyword or an alteration such as `b9`, `#11` or `no3`.
pub fn parse_keyword<'i>(s: &'i str) -> (r: Option<(ChordModifier, &'i str)>)
    requires
        !is_panic(spec_keyword(s@)),
    ensures
        agrees(r, spec_keyword(s@)),
{
    lexed_to_option(lex_keyword(s), Ghost(spec_keyword(s@)))
}

// ----- chords -----

/// `prefix` put before the modifiers of a lexed modifier list.
pub open spec fn prepend_modifiers(
    prefix: Seq<ChordModifier>,
    o: Outcome<Seq<ChordModifier>>,
) -> Outcome<Seq<ChordModifier>> {
    match o {
        Outcome::Done(ms, r) => Outcome::Done(prefix + ms, r),
        Outcome::Fail => Outcome::Fail,
        Outcome::Panic => Outcome::Panic,
    }
}

/// The modifiers after a chord root: keywords and alterations, skipping
/// parentheses, as many as follow. (A keyword always reads at least one
/// character; the branch where it would not is never taken.)
pub open spec fn spec_modifiers(s: Seq<char>) -> Outcome<Seq<ChordModifier>>
    decreases s.len(),
{
    match spec_keyword(s) {
        Outcome::Panic => Outcome::Panic,
        Outcome::Done(m, ns) => if ns.len() < s.len() {
            prepend_modifiers(seq![m], spec_modifiers(ns))
        } else {
            Outcome::Panic
        },
        Outcome::Fail => if s.len() > 0 && (s[0] == '(' || s[0] == ')') {
            spec_modifiers(s.skip(1))
        } else {
            Outcome::Done(Seq::empty(), s)
        },
    }
}

/// Meaning of `parse_chord`: an optional time offset, a tone root, an
/// optional `m` (minor), modifiers, an optional bass after `'` or `/`, and
/// an optional trailing `?`.
pub open spec fn spec_chord(s: Seq<char>) -> Outcome<ChordEventView> {
    let to = spec_time_offset(s);
    if to is Panic {
        Outcome::Panic
    } else {
        let time = match to {
            Outcome::Done(t, _) => Some(t),
            _ => None,
        };
        let s1 = match to {
            Outcome::Done(_, r) => r,
            _ => s,
        };
        match spec_tone_root(s1) {
            Outcome::Fail => Outcome::Fail,
            Outcome::Panic => Outcome::Panic,
            Outcome::Done(root, s2) => {
                let minor = s2.len() > 0 && s2[0] == 'm';
                let s3 = if minor { s2.skip(1) } else { s2 };
                match spec_modifiers(s3) {
                    Outcome::Fail => Outcome::Fail,
                    Outcome::Panic => Outcome::Panic,
                    Outcome::Done(mods, s4) => {
                        let bo = if s4.len() > 0 && (s4[0] == '\'' || s4[0] == '/') {
                            spec_tone_root(s4.skip(1))
                        } else {
                            Outcome::Fail
                        };
                        if bo is Panic {
                            Outcome::Panic
                        } else {
                            let bass = match bo {
                                Outcome::Done(b, _) => Some(b),
                                _ => None,
                            };
                            let s5 = match bo {
                                Outcome::Done(_, r) => r,
                                _ => s4,
                            };
                            let s6 = if s5.len() > 0 && s5[0] == '?' { s5.skip(1) } else { s5 };
                            Outcome::Done(
                                ChordEventView {
                                    root,
                                    bass,
                                    kind: if minor { ChordKind::Minor } else { ChordKind::Major },
                                    modifier: mods,
                                    time,
                                },
                                s6,
                            )
                        }
                    },
                }
            },
        }
    }
}

/// Total form of `parse_chord`.
pub fn lex_chord<'i>(s: &'i str) -> (r: Lexed<'i, ChordEvent>)
    ensures
        lexed(r, spec_chord(s@)),
{
    let mut s1 = s;
    let mut time = None;
    match lex_time_offset(s) {
        Lexed::Done(ntime, ns) => {
            time = Some(ntime);
            s1 = ns;
        },
        Lexed::Fail => {},
        Lexed::Panic => {
            return Lexed::Panic;
        },
    }
    let (root, s2) = match lex_tone_root(s1) {
        Lexed::Done(x, r) => (x, r),
        Lexed::Fail => return Lexed::Fail,
        Lexed::Panic => return Lexed::Panic,
    };
    let mut kind = ChordKind::Major;
    let mut modifier: Vec<ChordModifier> = Vec::new();
    let mut bass = None;
    let n2 = s2.unicode_len();
    let mut s3 = s2;
    if n2 > 0 && s2.get_char(0) == 'm' {
        kind = ChordKind::Minor;
        s3 = s2.substring_char(1, n2);
        assert(s3@ =~= s2@.skip(1));
    }
    let ghost s3_start = s3@;
    let mut cur = s3;
    assert(modifier@ + Seq::<ChordModifier>::empty() =~= modifier@);
    assert(prepend_modifiers(modifier@, spec_modifiers(cur@)) == spec_modifiers(s3_start)) by {
        match spec_modifiers(cur@) {
            Outcome::Done(ms, r) => {
                assert(modifier@ + ms =~= ms);
            },
            _ => {},
        }
    }
    assert(is_panic(spec_modifiers(s3_start)) ==> is_panic(spec_chord(s@)));
    loop
        invariant
            spec_modifiers(s3_start) == prepend_modifiers(modifier@, spec_modifiers(cur@)),
            is_panic(spec_modifiers(s3_start)) ==> is_panic(spec_chord(s@)),
        ensures
            spec_modifiers(cur@) == Outcome::Done(Seq::<ChordModifier>::empty(), cur@),
        decreases cur@.len(),
    {
        let ghost before = modifier@;
        let lk = lex_keyword(cur);
        if let Lexed::Panic = lk {
            proof {
                assert(spec_modifiers(cur@) is Panic);
            }
            return Lexed::Panic;
        }
        if let Lexed::Done(m, ns) = lk {
            proof {
                lemma_keyword_reads(cur@);
            }
            assert(modifier@.push(m) + Seq::<ChordModifier>::empty() =~= modifier@.push(m));
            proof {
                match spec_modifiers(ns@) {
                    Outcome::Done(ms, r) => {
                        assert(before + (seq![m] + ms) =~= before.push(m) + ms);
                    },
                    _ => {},
                }
            }
            modifier.push(m);
            cur = ns;
        } else {
            let k = cur.unicode_len();
            if k > 0 && (cur.get_char(0) == '(' || cur.get_char(0) == ')') {
                let next = cur.substring_char(1, k);
                assert(next@ =~= cur@.skip(1));
                cur = next;
            } else {
                break;
            }
        }
    }
    let n4 = cur.unicode_len();
    let mut s5 = cur;
    if n4 > 0 && (cur.get_char(0) == '\'' || cur.get_char(0) == '/') {
        let t = cur.substring_char(1, n4);
        assert(t@ =~= cur@.skip(1));
        match lex_tone_root(t) {
            Lexed::Done(nbass, ns) => {
                s5 = ns;
                bass = Some(nbass);
            },
            Lexed::Fail => {},
            Lexed::Panic => {
                return Lexed::Panic;
            },
        }
    }
    let n5 = s5.unicode_len();
    let mut s6 = s5;
    if n5 > 0 && s5.get_char(0) == '?' {
        s6 = s5.substring_char(1, n5);
        assert(s6@ =~= s5@.skip(1));
    }
    let ev = ChordEvent { root, bass, kind, modifier, time };
    proof {
        assert(modifier@ + Seq::<ChordModifier>::empty() =~= modifier@);
    }
    Lexed::Done(ev, s6)
}

/// Reads a chord such as `Am7`, `2+1,2F#m7b5/E` or `<Gsus4`.
pub fn parse_chord<'i>(s: &'i str) -> (r: Option<(ChordEvent, &'i str)>)
    requires
        !is_panic(spec_chord(s@)),
    ensures
        agrees(r, spec_chord(s@)),
{
    lexed_to_option(lex_chord(s), Ghost(spec_chord(s@)))
}

// ----- melodies -----

/// The notes of a melody after its `[`, up to the closing `]`, skipping
/// spaces.
pub open spec fn spec_melody_rest(s: Seq<char>, acc: Seq<u8>) -> Outcome<Seq<u8>>
    decreases s.len(),
{
    if s.len() == 0 {
        Outcome::Fail
    } else if s[0] == ' ' {
        spec_melody_rest(s.skip(1), acc)
    } else if s[0] == ']' {
        Outcome::Done(acc, s.skip(1))
    } else {
        match spec_tone_root(s) {
            Outcome::Panic => Outcome::Panic,
            Outcome::Fail => Outcome::Fail,
            Outcome::Done(root, ns) => if ns.len() < s.len() {
                spec_melody_rest(ns, acc.push(root))
            } else {
                Outcome::Panic
            },
        }
    }
}

/// Meaning of `parse_simple_melody`: tone roots between `[` and `]`.
pub open spec fn spec_melody(s: Seq<char>) -> Outcome<Seq<u8>> {
    if s.len() > 0 && s[0] == '[' {
        spec_melody_rest(s.skip(1), Seq::empty())
    } else {
        Outcome::Fail
    }
}

/// Total form of `parse_simple_melody`.
pub fn lex_melody(s: &str) -> (r: Lexed<Vec<u8>>)
    ensures
        lexed(r, spec_melody(s@)),
{
    let mut melody: Vec<u8> = Vec::new();
    let n = s.unicode_len();
    if n == 0 || s.get_char(0) != '[' {
        return Lexed::Fail;
    }
    let mut cur = s.substring_char(1, n);
    assert(cur@ =~= s@.skip(1));
    while !str_is_empty_len(cur)
        invariant
            spec_melody(s@) == spec_melody_rest(cur@, melody@),
        ensures
            spec_melody_rest(cur@, melody@) is Fail,
        decreases cur@.len(),
    {
        let k = cur.unicode_len();
        let c = cur.get_char(0);
        if c == ' ' {
            let next = cur.substring_char(1, k);
            assert(next@ =~= cur@.skip(1));
            cur = next;
            continue;
        }
        if c == ']' {
            let next = cur.substring_char(1, k);
            assert(next@ =~= cur@.skip(1));
            assert(melody.deep_view() =~= melody@);
            return Lexed::Done(melody, next);
        }
        match lex_tone_root(cur) {
            Lexed::Done(root, ns) => {
                proof {
                    lemma_tone_root_reads(cur@);
                }
                cur = ns;
                melody.push(root);
            },
            Lexed::Fail => {
                break;
            },
            Lexed::Panic => {
                return Lexed::Panic;
            },
        }
    }
    Lexed::Fail
}

/// Reads a melody such as `[C D Eb]`.
pub fn parse_simple_melody(s: &str) -> (r: Option<(Vec<u8>, &str)>)
    requires
        !is_panic(spec_melody(s@)),
    ensures
        match spec_melody(s@) {
            Outcome::Done(m, rest) => r matches Some((v, x)) && v@ == m && x@ == rest,
            _ => r is None,
        },
{
    let r = lex_melody(s);
    match r {
        Lexed::Done(v, rest) => {
            assert(v.deep_view() =~= v@);
            Some((v, rest))
        },
        _ => None,
    }
}

fn str_is_empty_len(s: &str) -> (r: bool)
    ensures
        r == (s@.len() == 0),
{
    s.unicode_len() == 0
}

// ----- music events -----

/// Meaning of `parse_music_event`: the first of a chord, a melody, a measure
/// number, an annotation, `:-`, `-:`, `(`, `)` and `%` that `s` starts with.
pub open spec fn spec_music_event(s: Seq<char>) -> Outcome<MusicEventView> {
    match spec_chord(s) {
        Outcome::Panic => Outcome::Panic,
        Outcome::Done(c, r) => Outcome::Done(MusicEventView::Chord(c), r),
        Outcome::Fail => match spec_melody(s) {
            Outcome::Panic => Outcome::Panic,
            Outcome::Done(m, r) => Outcome::Done(MusicEventView::Melody(m), r),
            Outcome::Fail => match spec_uint(s) {
                Outcome::Panic => Outcome::Panic,
                Outcome::Done(i, r) => Outcome::Done(MusicEventView::NumberedMeasure(i as u16), r),
                Outcome::Fail => match spec_literal(s) {
                    Some((l, r)) => Outcome::Done(MusicEventView::Annotation(l), r),
                    None => if let Some(r) = spec_seek(s, ":-"@) {
                        Outcome::Done(MusicEventView::StartRepeat, r)
                    } else if let Some(r) = spec_seek(s, "-:"@) {
                        Outcome::Done(MusicEventView::EndRepeat, r)
                    } else if let Some(r) = spec_seek(s, "("@) {
                        Outcome::Done(MusicEventView::OpenParen, r)
                    } else if let Some(r) = spec_seek(s, ")"@) {
                        Outcome::Done(MusicEventView::CloseParen, r)
                    } else if let Some(r) = spec_seek(s, "%"@) {
                        Outcome::Done(MusicEventView::RepeatMeasure, r)
                    } else {
                        Outcome::Fail
                    },
                },
            },
        },
    }
}

/// Total form of `parse_music_event`.
pub fn lex_music_event(s: &str) -> (r: Lexed<MusicEvent>)
    ensures
        lexed(r, spec_music_event(s@)),
{
    match lex_chord(s) {
        Lexed::Done(chord, ns) => {
            return Lexed::Done(MusicEvent::ChordEvent(chord), ns);
        },
        Lexed::Panic => {
            return Lexed::Panic;
        },
        Lexed::Fail => {},
    }
    match lex_melody(s) {
        Lexed::Done(melody, ns) => {
            let ev = MusicEvent::MelodyEvent(melody);
            assert(melody.deep_view() =~= melody@);
            return Lexed::Done(ev, ns);
        },
        Lexed::Panic => {
            return Lexed::Panic;
        },
        Lexed::Fail => {},
    }
    match lex_uint(s) {
        Lexed::Done(i, ns) => {
            return Lexed::Done(MusicEvent::NumberedMeasure(i as u16), ns);
        },
        Lexed::Panic => {
            return Lexed::Panic;
        },
        Lexed::Fail => {},
    }
    if let Some((lit, ns)) = parse_literal(s) {
        return Lexed::Done(MusicEvent::Annotation(lit), ns);
    }
    if let Some(ns) = seek(s, ":-") {
        return Lexed::Done(MusicEvent::StartRepeat, ns);
    }
    if let Some(ns) = seek(s, "-:") {
        return Lexed::Done(MusicEvent::EndRepeat, ns);
    }
    if let Some(ns) = seek(s, "(") {
        return Lexed::Done(MusicEvent::OpenParen, ns);
    }
    if let Some(ns) = seek(s, ")") {
        return Lexed::Done(MusicEvent::CloseParen, ns);
    }
    if let Some(ns) = seek(s, "%") {
        return Lexed::Done(MusicEvent::RepeatMeasure, ns);
    }
    Lexed::Fail
}

/// Reads one event of a chord block.
pub fn parse_music_event(s: &str) -> (r: Option<(MusicEvent, &str)>)
    requires
        !is_panic(spec_music_event(s@)),
    ensures
        agrees(r, spec_music_event(s@)),
{
    lexed_to_option(lex_music_event(s), Ghost(spec_music_event(s@)))
}

// ----- every lexer hands back a suffix of its input -----

/// `r` is a suffix of `s`.
pub open spec fn is_suffix(r: Seq<char>, s: Seq<char>) -> bool {
    r.len() <= s.len() && r == s.skip(s.len() - r.len())
}

/// `o`, where it succeeds, hands back a suffix of `s` that is shorter than
/// `s` when `strict`.
pub open spec fn reads_prefix<T>(o: Outcome<T>, s: Seq<char>, strict: bool) -> bool {
    o matches Outcome::Done(_, r) ==> is_suffix(r, s) && (strict ==> r.len() < s.len())
}

pub proof fn lemma_suffix_trans(a: Seq<char>, b: Seq<char>, c: Seq<char>)
    requires
        is_suffix(a, b),
        is_suffix(b, c),
    ensures
        is_suffix(a, c),
{
    assert(a =~= c.skip(c.len() - a.len()));
}

pub proof fn lemma_skip_suffix(s: Seq<char>, k: int)
    requires
        0 <= k <= s.len(),
    ensures
        is_suffix(s.skip(k), s),
{
    assert(s.skip(k) =~= s.skip(s.len() - s.skip(k).len()));
}

pub proof fn lemma_suffix_refl(s: Seq<char>)
    ensures
        is_suffix(s, s),
{
    assert(s =~= s.skip(0));
}

pub proof fn lemma_seek_suffix(s: Seq<char>, p: Seq<char>)
    ensures
        spec_seek(s, p) matches Some(r) ==> is_suffix(r, s) && (p.len() > 0 ==> r.len() < s.len()),
{
    if p.len() <= s.len() {
        lemma_skip_suffix(s, p.len() as int);
    }
}

pub proof fn lemma_uint_reads(s: Seq<char>)
    ensures
        reads_prefix(spec_uint(s), s, true),
{
    lemma_digit_run(s);
    if s.len() > 0 && is_digit(s[0]) {
        lemma_skip_suffix(s, digit_run(s) as int);
    }
}

pub proof fn lemma_tone_root_reads(s: Seq<char>)
    ensures
        reads_prefix(spec_tone_root(s), s, true),
{
    if s.len() >= 1 {
        lemma_skip_suffix(s, 1);
    }
    if s.len() >= 2 {
        lemma_skip_suffix(s, 2);
    }
}

pub proof fn lemma_time_offset_reads(s: Seq<char>)
    ensures
        reads_prefix(spec_time_offset(s), s, true),
{
    if s.len() >= 1 {
        lemma_skip_suffix(s, 1);
    }
    if s.len() > 0 && s[0] != '<' {
        let neg = s[0] == '-';
        let s1 = if neg { s.skip(1) } else { s };
        lemma_suffix_refl(s);
        assert(is_suffix(s1, s));
        lemma_uint_reads(s1);
        if let Outcome::Done(_, s2) = spec_uint(s1) {
            lemma_suffix_trans(s2, s1, s);
            if s2.len() > 0 {
                lemma_skip_suffix(s2, 1);
                let t = s2.skip(1);
                lemma_suffix_trans(t, s2, s);
                lemma_uint_reads(t);
                if let Outcome::Done(_, ns) = spec_uint(t) {
                    lemma_suffix_trans(ns, t, s);
                    if ns.len() > 0 {
                        lemma_skip_suffix(ns, 1);
                        let u = ns.skip(1);
                        lemma_suffix_trans(u, ns, s);
                        lemma_uint_reads(u);
                        if let Outcome::Done(_, s3) = spec_uint(u) {
                            lemma_suffix_trans(s3, u, s);
                        }
                    }
                }
            }
        }
    }
}

/// The lexers of numbers, tone roots and time offsets read at least one character.
pub proof fn lemma_number_lexers_read(s: Seq<char>)
    ensures
        reads_prefix(spec_uint(s), s, true),
        reads_prefix(spec_tone_root(s), s, true),
        reads_prefix(spec_time_offset(s), s, true),
{
    lemma_uint_reads(s);
    lemma_tone_root_reads(s);
    lemma_time_offset_reads(s);
}

pub proof fn lemma_skip_bytes_suffix(s: Seq<char>, n: nat)
    ensures
        skip_bytes(s, n) matches Some(r) ==> is_suffix(r, s) && (n > 0 ==> r.len() < s.len()),
    decreases n,
{
    if n == 0 {
        lemma_suffix_refl(s);
    } else if s.len() > 0 && char_width(s[0]) <= n {
        lemma_skip_bytes_suffix(s.drop_first(), (n - char_width(s[0])) as nat);
        lemma_skip_suffix(s, 1);
        assert(s.drop_first() =~= s.skip(1));
        if let Some(r) = skip_bytes(s, n) {
            lemma_suffix_trans(r, s.drop_first(), s);
        }
    }
}

/// A chord keyword or alteration reads at least one character.
pub proof fn lemma_keyword_reads(s: Seq<char>)
    ensures
        reads_prefix(spec_keyword(s), s, true),
{
    reveal_strlit("add11");
    reveal_strlit("add2");
    reveal_strlit("add4");
    reveal_strlit("add9");
    reveal_strlit("sus2");
    reveal_strlit("sus4");
    reveal_strlit("Maj");
    reveal_strlit("6/9");
    reveal_strlit("aug");
    reveal_strlit("dim");
    reveal_strlit("11");
    reveal_strlit("13");
    reveal_strlit("9");
    reveal_strlit("7");
    reveal_strlit("6");
    reveal_strlit("5");
    reveal_strlit("M");
    reveal_strlit("+");
    reveal_strlit("°");
    reveal_strlit("no");
    reveal_strlit("b");
    reveal_strlit("#");
    lemma_seek_suffix(s, "add11"@);
    lemma_seek_suffix(s, "add2"@);
    lemma_seek_suffix(s, "add4"@);
    lemma_seek_suffix(s, "add9"@);
    lemma_seek_suffix(s, "sus2"@);
    lemma_seek_suffix(s, "sus4"@);
    lemma_seek_suffix(s, "Maj"@);
    lemma_seek_suffix(s, "6/9"@);
    lemma_seek_suffix(s, "aug"@);
    lemma_seek_suffix(s, "dim"@);
    lemma_seek_suffix(s, "11"@);
    lemma_seek_suffix(s, "13"@);
    lemma_seek_suffix(s, "9"@);
    lemma_seek_suffix(s, "7"@);
    lemma_seek_suffix(s, "6"@);
    lemma_seek_suffix(s, "5"@);
    lemma_seek_suffix(s, "M"@);
    lemma_seek_suffix(s, "+"@);
    lemma_seek_suffix(s, "°"@);
    lemma_seek_suffix(s, "no"@);
    lemma_seek_suffix(s, "b"@);
    lemma_seek_suffix(s, "#"@);
    if let Some((_, ns)) = spec_alteration_sign(s) {
        if let Some(d) = spec_degree(ns) {
            lemma_skip_bytes_suffix(ns, (d / 10 + 1) as nat);
            if let Some(r) = skip_bytes(ns, (d / 10 + 1) as nat) {
                lemma_suffix_trans(r, ns, s);
            }
        }
    }
}

/// A text read as seek would read it: `t` then the rest.
proof fn lemma_seek_split(s: Seq<char>, t: Seq<char>)
    ensures
        spec_seek(s, t) matches Some(r) ==> s.len() == t.len() + r.len() && s.take(t.len() as int) == t
            && s.skip(t.len() as int) == r,
{
}

/// The chord keyword at the start of a text is the keyword that its text
/// names: the characters read are a way of writing that keyword (`dim` or
/// `°` is `Dim`, `aug` or `+` is `Aug`, `sus4` is `Sus4`, ...), and the rest
/// is what follows them. A text that starts with any way of writing a
/// keyword is read as a keyword; the keyword modifier of `parse_keyword` is
/// the same keyword.
pub proof fn lemma_chord_keyword_spelled(s: Seq<char>)
    ensures
        spec_chord_keyword(s) matches Some((k, r)) ==> r.len() < s.len() && keyword_spelled(
            k,
            s.take(s.len() - r.len()),
        ) && s.skip(s.len() - r.len()) == r,
        forall|k: ChordKeyword, t: Seq<char>|
            #[trigger] keyword_spelled(k, t) && t.len() <= s.len() && s.take(t.len() as int) == t
                ==> spec_chord_keyword(s) is Some,
        spec_keyword(s) matches Outcome::Done(ChordModifier::Keyword(k), r) ==> spec_chord_keyword(s) == Some(
            (k, r),
        ),
{
    reveal_strlit("add11");
    reveal_strlit("add2");
    reveal_strlit("add4");
    reveal_strlit("add9");
    reveal_strlit("sus2");
    reveal_strlit("sus4");
    reveal_strlit("Maj");
    reveal_strlit("6/9");
    reveal_strlit("aug");
    reveal_strlit("dim");
    reveal_strlit("11");
    reveal_strlit("13");
    reveal_strlit("9");
    reveal_strlit("7");
    reveal_strlit("6");
    reveal_strlit("5");
    reveal_strlit("M");
    reveal_strlit("+");
    reveal_strlit("°");
    assert("add11"@ =~= seq!['a', 'd', 'd', '1', '1']);
    assert("add2"@ =~= seq!['a', 'd', 'd', '2']);
    assert("add4"@ =~= seq!['a', 'd', 'd', '4']);
    assert("add9"@ =~= seq!['a', 'd', 'd', '9']);
    assert("sus2"@ =~= seq!['s', 'u', 's', '2']);
    assert("sus4"@ =~= seq!['s', 'u', 's', '4']);
    assert("Maj"@ =~= seq!['M', 'a', 'j']);
    assert("6/9"@ =~= seq!['6', '/', '9']);
    assert("aug"@ =~= seq!['a', 'u', 'g']);
    assert("dim"@ =~= seq!['d', 'i', 'm']);
    assert("11"@ =~= seq!['1', '1']);
    assert("13"@ =~= seq!['1', '3']);
    assert("9"@ =~= seq!['9']);
    assert("7"@ =~= seq!['7']);
    assert("6"@ =~= seq!['6']);
    assert("5"@ =~= seq!['5']);
    assert("M"@ =~= seq!['M']);
    assert("+"@ =~= seq!['+']);
    assert("°"@ =~= seq!['°']);
    lemma_seek_split(s, "add11"@);
    lemma_seek_split(s, "add2"@);
    lemma_seek_split(s, "add4"@);
    lemma_seek_split(s, "add9"@);
    lemma_seek_split(s, "sus2"@);
    lemma_seek_split(s, "sus4"@);
    lemma_seek_split(s, "Maj"@);
    lemma_seek_split(s, "6/9"@);
    lemma_seek_split(s, "aug"@);
    lemma_seek_split(s, "dim"@);
    lemma_seek_split(s, "11"@);
    lemma_seek_split(s, "13"@);
    lemma_seek_split(s, "9"@);
    lemma_seek_split(s, "7"@);
    lemma_seek_split(s, "6"@);
    lemma_seek_split(s, "5"@);
    lemma_seek_split(s, "M"@);
    lemma_seek_split(s, "+"@);
    lemma_seek_split(s, "°"@);
}

/// The alteration sign at the start of a text is the kind that its text
/// names (`no` is `No`, `b` is `Flat`, `#` is `Sharp`), and the rest is what
/// follows it.
pub proof fn lemma_alteration_sign_spelled(s: Seq<char>)
    ensures
        spec_alteration_sign(s) matches Some((k, r)) ==> r.len() < s.len() && alteration_spelled(
            k,
            s.take(s.len() - r.len()),
        ) && s.skip(s.len() - r.len()) == r,
{
    reveal_strlit("no");
    reveal_strlit("b");
    reveal_strlit("#");
    assert("no"@ =~= seq!['n', 'o']);
    assert("b"@ =~= seq!['b']);
    assert("#"@ =~= seq!['#']);
    lemma_seek_split(s, "no"@);
    lemma_seek_split(s, "b"@);
    lemma_seek_split(s, "#"@);
}

/// A tonality as it is written: a note letter `A`..`G` with its pitch,
/// raised by a `#` or lowered by a `b` right after it, then `m` for a minor
/// key. Whenever the root reads, the key is minor exactly when the text
/// right after the root (after its accidental) starts with `m`, and major
/// otherwise; the accidental changes the pitch and never the mode. A text
/// that does not start with a note letter is no tonality, and `Cb` aborts.
pub proof fn lemma_tonality_text(s: Seq<char>)
    ensures
        spec_tonality(s) matches Outcome::Done((root, kind), r) ==> {
            let n: int = if s.len() >= 2 && (s[1] == '#' || s[1] == 'b') { 2 } else { 1 };
            &&& s.len() > 0 && letter_pitch(s[0]) is Some
            &&& root == letter_pitch(s[0])->0 + (if n == 2 && s[1] == '#' {
                1int
            } else if n == 2 {
                -1int
            } else {
                0int
            })
            &&& r == s.skip(n)
            &&& (kind == TonicKind::Minor) == (s.len() > n && s[n] == 'm')
            &&& kind != TonicKind::Undefined
        },
        (s.len() == 0 || letter_pitch(s[0]) is None) ==> spec_tonality(s) is Fail,
        s.len() > 0 && letter_pitch(s[0]) is Some && !(s[0] == 'C' && s.len() >= 2 && s[1] == 'b')
            ==> spec_tonality(s) is Done,
        s.len() >= 2 && s[0] == 'C' && s[1] == 'b' ==> spec_tonality(s) is Panic,
{
}

/// The modifier list hands back a suffix of its input.
pub proof fn lemma_modifiers_reads(s: Seq<char>)
    ensures
        reads_prefix(spec_modifiers(s), s, false),
    decreases s.len(),
{
    lemma_keyword_reads(s);
    match spec_keyword(s) {
        Outcome::Done(m, ns) => {
            if ns.len() < s.len() {
                lemma_modifiers_reads(ns);
                if let Outcome::Done(_, r) = spec_modifiers(ns) {
                    lemma_suffix_trans(r, ns, s);
                }
            }
        },
        Outcome::Fail => {
            if s.len() > 0 && (s[0] == '(' || s[0] == ')') {
                lemma_modifiers_reads(s.skip(1));
                lemma_skip_suffix(s, 1);
                if let Outcome::Done(_, r) = spec_modifiers(s.skip(1)) {
                    lemma_suffix_trans(r, s.skip(1), s);
                }
            } else {
                lemma_suffix_refl(s);
            }
        },
        Outcome::Panic => {},
    }
}

/// What follows a chord's modifiers (bass and `?`) hands back a suffix.
proof fn lemma_chord_tail_reads(s4: Seq<char>)
    ensures
        ({
            let bo = if s4.len() > 0 && (s4[0] == '\'' || s4[0] == '/') {
                spec_tone_root(s4.skip(1))
            } else {
                Outcome::Fail
            };
            let s5 = match bo {
                Outcome::Done(_, r) => r,
                _ => s4,
            };
            let s6 = if s5.len() > 0 && s5[0] == '?' { s5.skip(1) } else { s5 };
            is_suffix(s6, s4)
        }),
{
    lemma_suffix_refl(s4);
    if s4.len() > 0 {
        lemma_skip_suffix(s4, 1);
        lemma_tone_root_reads(s4.skip(1));
        if let Outcome::Done(_, r) = spec_tone_root(s4.skip(1)) {
            lemma_suffix_trans(r, s4.skip(1), s4);
            if r.len() > 0 {
                lemma_skip_suffix(r, 1);
                lemma_suffix_trans(r.skip(1), r, s4);
            }
        }
        lemma_suffix_trans(s4.skip(1).skip(0), s4.skip(1), s4);
    }
}

/// A chord reads at least one character.
#[verifier::spinoff_prover]
#[verifier::rlimit(60)]
pub proof fn lemma_chord_reads(s: Seq<char>)
    ensures
        reads_prefix(spec_chord(s), s, true),
{
    lemma_time_offset_reads(s);
    let to = spec_time_offset(s);
    let s1 = match to {
        Outcome::Done(_, r) => r,
        _ => s,
    };
    lemma_suffix_refl(s);
    assert(is_suffix(s1, s));
    lemma_tone_root_reads(s1);
    if let Outcome::Done(_, s2) = spec_tone_root(s1) {
        lemma_suffix_trans(s2, s1, s);
        let minor = s2.len() > 0 && s2[0] == 'm';
        let s3 = if minor { s2.skip(1) } else { s2 };
        if minor {
            lemma_skip_suffix(s2, 1);
        } else {
            lemma_suffix_refl(s2);
        }
        lemma_suffix_trans(s3, s2, s);
        lemma_modifiers_reads(s3);
        if let Outcome::Done(_, s4) = spec_modifiers(s3) {
            lemma_suffix_trans(s4, s3, s);
            lemma_chord_tail_reads(s4);
            if let Outcome::Done(_, r) = spec_chord(s) {
                lemma_suffix_trans(r, s4, s);
            }
        }
    }
}

pub proof fn lemma_melody_rest_reads(s: Seq<char>, acc: Seq<u8>)
    ensures
        reads_prefix(spec_melody_rest(s, acc), s, true),
    decreases s.len(),
{
    if s.len() > 0 {
        lemma_skip_suffix(s, 1);
        if s[0] == ' ' {
            lemma_melody_rest_reads(s.skip(1), acc);
            if let Outcome::Done(_, r) = spec_melody_rest(s.skip(1), acc) {
                lemma_suffix_trans(r, s.skip(1), s);
            }
        } else if s[0] != ']' {
            lemma_number_lexers_read(s);
            if let Outcome::Done(root, ns) = spec_tone_root(s) {
                if ns.len() < s.len() {
                    lemma_melody_rest_reads(ns, acc.push(root));
                    if let Outcome::Done(_, r) = spec_melody_rest(ns, acc.push(root)) {
                        lemma_suffix_trans(r, ns, s);
                    }
                }
            }
        }
    }
}

/// A music event reads at least one character.
pub proof fn lemma_music_event_reads(s: Seq<char>)
    ensures
        reads_prefix(spec_music_event(s), s, true),
{
    lemma_chord_reads(s);
    lemma_number_lexers_read(s);
    if s.len() > 0 {
        lemma_skip_suffix(s, 1);
        lemma_melody_rest_reads(s.skip(1), Seq::empty());
        if let Outcome::Done(_, r) = spec_melody_rest(s.skip(1), Seq::empty()) {
            lemma_suffix_trans(r, s.skip(1), s);
        }
        let t = s.skip(1);
        lemma_find_char(t, '"');
        if let Some(k) = find_char(t, '"') {
            lemma_skip_suffix(t, k + 1 as int);
            lemma_suffix_trans(t.skip(k + 1 as int), t, s);
        }
    }
    reveal_strlit(":-");
    reveal_strlit("-:");
    reveal_strlit("(");
    reveal_strlit(")");
    reveal_strlit("%");
    lemma_seek_suffix(s, ":-"@);
    lemma_seek_suffix(s, "-:"@);
    lemma_seek_suffix(s, "("@);
    lemma_seek_suffix(s, ")"@);
    lemma_seek_suffix(s, "%"@);
}

// ----- music blocks -----

/// What `parse_music_block` hands back: the events read, the rest of the
/// block, and the errors for the words that were not events.
pub ghost struct BlockView {
    pub events: Seq<MusicEventView>,
    pub rest: Seq<char>,
    pub errors: Seq<ParseErrorView>,
}

/// The loop of `parse_music_block` on the remaining text `s` of a trimmed
/// block of `orig` bytes, with the events `out` and errors `err` read so far.
/// `None` where the lexing fails: on a lexer's failing input, and where
/// `&s[1..]` would cut the two-byte `·`. (Every event and every malformed
/// word reads at least one character; the branches where they would not
/// are never taken.)
pub open spec fn spec_block_loop(
    s: Seq<char>,
    orig: nat,
    out: Seq<MusicEventView>,
    err: Seq<ParseErrorView>,
) -> Option<BlockView>
    decreases s.len(),
{
    if s.len() == 0 {
        Some(BlockView { events: out, rest: s, errors: err })
    } else if s[0] == '*' {
        Some(BlockView { events: out, rest: s.skip(1), errors: err })
    } else if s[0] == '·' {
        None
    } else {
        match spec_music_event(s) {
            Outcome::Panic => None,
            Outcome::Done(e, ns) => if trim_start(ns).len() < s.len() {
                spec_block_loop(trim_start(ns), orig, out.push(e), err)
            } else {
                None
            },
            Outcome::Fail => match find_ws(s) {
                None => Some(BlockView { events: out, rest: s, errors: err }),
                Some(k) => if 0 < k && trim_start(s.skip(k as int)).len() < s.len() {
                    let start = (orig - utf8_len(s)) as usize;
                    let end = (orig - utf8_len(s) + utf8_len(s.take(k as int))) as usize;
                    spec_block_loop(
                        trim_start(s.skip(k as int)),
                        orig,
                        out,
                        err.push(
                            ParseErrorView {
                                start,
                                end,
                                line: 0,
                                kind: ErrorKindView::MalformedMusicEvent(s.take(k as int)),
                            },
                        ),
                    )
                } else {
                    None
                },
            },
        }
    }
}

/// The error lies in the first `orig` bytes.
pub open spec fn error_within(e: ParseErrorView, orig: nat) -> bool {
    e.start <= e.end <= orig
}

/// Every error of a block lies in the trimmed block.
pub proof fn lemma_block_loop_bounds(
    s: Seq<char>,
    orig: nat,
    out: Seq<MusicEventView>,
    err: Seq<ParseErrorView>,
)
    requires
        utf8_len(s) <= orig,
        orig <= usize::MAX,
        forall|i: int| 0 <= i < err.len() ==> error_within(#[trigger] err[i], orig),
    ensures
        spec_block_loop(s, orig, out, err) matches Some(b) ==> forall|i: int|
            0 <= i < b.errors.len() ==> error_within(#[trigger] b.errors[i], orig),
    decreases s.len(),
{
    if s.len() > 0 && s[0] != '*' && s[0] != '·' {
        match spec_music_event(s) {
            Outcome::Done(e, ns) => {
                if trim_start(ns).len() < s.len() {
                    lemma_music_event_reads(s);
                    lemma_utf8_len_split(s, s.len() - ns.len());
                    lemma_trim_start_len(ns);
                    lemma_block_loop_bounds(trim_start(ns), orig, out.push(e), err);
                }
            },
            Outcome::Fail => {
                lemma_find_ws(s);
                if let Some(k) = find_ws(s) {
                    if 0 < k && trim_start(s.skip(k as int)).len() < s.len() {
                        lemma_utf8_len_split(s, k as int);
                        lemma_trim_start_len(s.skip(k as int));
                        let start = (orig - utf8_len(s)) as usize;
                        let end = (orig - utf8_len(s) + utf8_len(s.take(k as int))) as usize;
                        let ne = ParseErrorView {
                            start,
                            end,
                            line: 0,
                            kind: ErrorKindView::MalformedMusicEvent(s.take(k as int)),
                        };
                        assert(utf8_len(s.take(k as int)) <= utf8_len(s));
                        assert(start as int == orig - utf8_len(s));
                        assert(end as int == orig - utf8_len(s) + utf8_len(s.take(k as int)));
                        assert(ne.start <= ne.end <= orig);
                        assert forall|i: int| 0 <= i < err.push(ne).len() implies error_within(#[trigger] err.push(ne)[i], orig) by {
                            if i < err.len() {
                                assert(err.push(ne)[i] == err[i]);
                            } else {
                                assert(err.push(ne)[i] == ne);
                            }
                        }
                        lemma_block_loop_bounds(trim_start(s.skip(k as int)), orig, out, err.push(ne));
                    }
                }
            },
            Outcome::Panic => {},
        }
    }
}

/// Every error of a block lies in its trimmed text.
pub proof fn lemma_block_bounds(s: Seq<char>)
    requires
        utf8_len(s) <= usize::MAX,
    ensures
        spec_block(s) matches Some(b) ==> forall|i: int|
            0 <= i < b.errors.len() ==> error_within(#[trigger] b.errors[i], utf8_len(trim(s))),
{
    lemma_trim_len(s);
    lemma_block_loop_bounds(trim(s), utf8_len(trim(s)), Seq::empty(), Seq::empty());
}

/// Meaning of `parse_music_block`: the events of the trimmed block `s`, read
/// up to its end or to a `*`; a word that is no event is recorded as an
/// error with its byte range in the trimmed block, and skipped.
pub open spec fn spec_block(s: Seq<char>) -> Option<BlockView> {
    spec_block_loop(trim(s), utf8_len(trim(s)), Seq::empty(), Seq::empty())
}

/// Total form of `parse_music_block`: `None` on the blocks that
/// `parse_music_block` does not accept.
pub fn lex_music_block(s: &str) -> (r: Option<(Vec<MusicEvent>, &str, Vec<SHBParseError>)>)
    requires
        utf8_len(s@) <= usize::MAX,
    ensures
        match spec_block(s@) {
            Some(b) => r matches Some(x) && x.0.deep_view() == b.events && x.1@ == b.rest
                && x.2.deep_view() == b.errors,
            None => r is None,
        },
{
    let mut out: Vec<MusicEvent> = Vec::new();
    let mut err: Vec<SHBParseError> = Vec::new();
    let mut cur = str_trim(s);
    let orig_size = str_byte_len(cur);
    proof {
        lemma_trim_first(s@);
    }
    let ghost goal = spec_block(s@);
    assert(out.deep_view() =~= Seq::<MusicEventView>::empty());
    assert(err.deep_view() =~= Seq::<ParseErrorView>::empty());
    loop
        invariant_except_break
            goal == spec_block_loop(cur@, orig_size as nat, out.deep_view(), err.deep_view()),
            cur@.len() > 0 ==> !is_ws(cur@[0]),
        invariant
            goal == spec_block(s@),
            utf8_len(cur@) <= orig_size,
            orig_size <= usize::MAX,
        ensures
            goal == Some(BlockView { events: out.deep_view(), rest: cur@, errors: err.deep_view() }),
        decreases cur@.len(),
    {
        let n = cur.unicode_len();
        if n == 0 {
            break;
        }
        let c0 = cur.get_char(0);
        if c0 == '·' {
            return None;
        }
        if c0 == '*' {
            let next = cur.substring_char(1, n);
            assert(next@ =~= cur@.skip(1));
            cur = next;
            break;
        }
        match lex_music_event(cur) {
            Lexed::Panic => {
                return None;
            },
            Lexed::Done(evt, ns) => {
                let next = str_trim_start(ns);
                proof {
                    lemma_trim_start_len(ns@);
                    lemma_trim_first(ns@);
                    lemma_music_event_reads(cur@);
                    lemma_utf8_len_split(cur@, cur@.len() - ns@.len());
                }
                let ghost old_dv = out.deep_view();
                let ghost ed = evt.deep_view();
                out.push(evt);
                assert(out.deep_view() =~= old_dv.push(ed));
                cur = next;
            },
            Lexed::Fail => {
                match find_whitespace(cur) {
                    Some((k, i)) => {
                        let cur_len = str_byte_len(cur);
                        let err_start = orig_size - cur_len;
                        proof {
                            lemma_find_ws(cur@);
                            lemma_utf8_len_split(cur@, k as int);
                        }
                        let word = cur.substring_char(0, k).to_owned();
                        assert(word@ =~= cur@.take(k as int));
                        let e = SHBParseError {
                            loc: core::ops::Range { start: err_start, end: err_start + i },
                            line: 0,
                            kind: SHBErrorKind::MalformedMusicEvent(word),
                        };
                        let rest = cur.substring_char(k, n);
                        assert(rest@ =~= cur@.skip(k as int));
                        let next = str_trim_start(rest);
                        proof {
                            lemma_trim_first(rest@);
                            lemma_trim_start_len(rest@);
                        }
                        let ghost old_dv = err.deep_view();
                        let ghost ed = e.deep_view();
                        err.push(e);
                        assert(err.deep_view() =~= old_dv.push(ed));
                        cur = next;
                    },
                    None => {
                        break;
                    },
                }
            },
        }
    }
    Some((out, cur, err))
}

/// Reads the events of a chord block, up to its end or to a `*`. Words that
/// are no event are reported as errors located in the trimmed block.
pub fn parse_music_block(s: &str) -> (r: (Vec<MusicEvent>, &str, Vec<SHBParseError>))
    requires
        utf8_len(s@) <= usize::MAX,
        spec_block(s@) is Some,
    ensures
        match spec_block(s@) {
            Some(b) => r.0.deep_view() == b.events && r.1@ == b.rest && r.2.deep_view()
                == b.errors,
            None => false,
        },
{
    match lex_music_block(s) {
        Some(x) => x,
        None => (Vec::new(), s, Vec::new()),
    }
}

} // verus!
