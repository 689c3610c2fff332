//! The grammar of song bodies: blocks of chords and lyrics, measures, lines,
//! subsections with their metadata, and sections.

use vstd::prelude::*;
#[allow(unused_imports)]
use vstd::string::*;
use crate::base::{MusicEvent, MusicEventView, LyricEvent, LyricEventView, Line, LineView};
use crate::shb_parser::{nonblank_text, is_nonblank_text};
use crate::grammar::{Pr, Parsed, parsed_is, opt_int, amax, emax, amax_x, emax_x, g_lyrics, lex_lyrics};
use crate::grammar_music::{imax, g_chord_text, lex_chord_text};

verus! {

/// A block as read: its chords, its lyrics, or both.
pub type BlockView = (Option<Seq<MusicEventView>>, Option<Seq<LyricEventView>>);

/// An executable block.
pub type Block = (Option<Vec<MusicEvent>>, Option<Vec<LyricEvent>>);

/// A line as read: measures, each absent or a sequence of blocks.
pub type RawLineView = Seq<Option<Seq<BlockView>>>;

// ----- blocks -----

/// A block: chords up to `·` then lyrics, or chords alone.
pub open spec fn g_block(s: Seq<char>, p: int, first: bool, proto: bool) -> Pr<BlockView> {
    let ct = g_chord_text(s, p, proto);
    if ct is Panic {
        Pr::Panic
    } else {
        let oc: Option<Seq<MusicEventView>> = match ct {
            Pr::Done(c, _, _) => Some(c),
            _ => None,
        };
        let q = match ct {
            Pr::Done(_, q, _) => q,
            _ => p,
        };
        let a = match ct {
            Pr::Done(_, _, a) => a,
            Pr::Fail(e) => Some(e),
            Pr::Panic => None,
        };
        let x: Pr<BlockView> = match g_lyrics(s, q, first) {
            Pr::Done(l, r, b) => Pr::Done((oc, Some(l)), r, amax(a, b)),
            Pr::Fail(e2) => Pr::Fail(emax(e2, a)),
            Pr::Panic => Pr::Panic,
        };
        match x {
            Pr::Fail(ex) => {
                let y: Pr<BlockView> = match ct {
                    Pr::Done(c, q, a) => match g_lyrics(s, q, first) {
                        Pr::Done(l, r, b) => Pr::Done((Some(c), Some(l)), r, amax(a, b)),
                        Pr::Fail(e2) => Pr::Done((Some(c), None), q, amax(a, Some(e2))),
                        Pr::Panic => Pr::Panic,
                    },
                    Pr::Fail(e) => Pr::Fail(e),
                    Pr::Panic => Pr::Panic,
                };
                match y {
                    Pr::Done(v, r, b) => Pr::Done(v, r, amax(b, Some(ex))),
                    Pr::Fail(ey) => Pr::Fail(imax(ex, ey)),
                    Pr::Panic => Pr::Panic,
                }
            },
            _ => x,
        }
    }
}

fn lex_block(s: &Vec<char>, p: usize, first: bool, proto: bool) -> (r: Parsed<Block>)
    requires
        p <= s.len(),
    ensures
        parsed_is(r, g_block(s@, p as int, first, proto)),
        r matches Parsed::Done(_, e, a) ==> p < e <= s.len() && (a matches Some(x) ==> x <= s.len()),
        r matches Parsed::Fail(e) ==> p <= e <= s.len(),
{
    match lex_chord_text(s, p, proto) {
        Parsed::Panic => Parsed::Panic,
        Parsed::Done(c, q, a) => match lex_lyrics(s, q, first) {
            Parsed::Done(l, r, b) => Parsed::Done((Some(c), Some(l)), r, amax_x(a, b)),
            Parsed::Panic => Parsed::Panic,
            Parsed::Fail(e2) => {
                let ex = emax_x(e2, a);
                Parsed::Done((Some(c), None), q, amax_x(amax_x(a, Some(e2)), Some(ex)))
            },
        },
        Parsed::Fail(e) => match lex_lyrics(s, p, first) {
            Parsed::Done(l, r, b) => Parsed::Done((None, Some(l)), r, amax_x(Some(e), b)),
            Parsed::Panic => Parsed::Panic,
            Parsed::Fail(e2) => {
                let ex = emax_x(e2, Some(e));
                Parsed::Fail(if ex >= e { ex } else { e })
            },
        },
    }
}

/// A block and an optional tie mark `` ` `` or `´`.
pub open spec fn g_block_t(s: Seq<char>, p: int, first: bool, proto: bool) -> Pr<BlockView> {
    match g_block(s, p, first, proto) {
        Pr::Done(v, q, a) => if 0 <= q < s.len() && (s[q] == '`' || s[q] == '´') {
            Pr::Done(v, q + 1, a)
        } else {
            Pr::Done(v, q, amax(a, Some(q)))
        },
        other => other,
    }
}

fn lex_block_t(s: &Vec<char>, p: usize, first: bool, proto: bool) -> (r: Parsed<Block>)
    requires
        p <= s.len(),
    ensures
        parsed_is(r, g_block_t(s@, p as int, first, proto)),
        r matches Parsed::Done(_, e, a) ==> p < e <= s.len() && (a matches Some(x) ==> x <= s.len()),
        r matches Parsed::Fail(e) ==> p <= e <= s.len(),
{
    match lex_block(s, p, first, proto) {
        Parsed::Done(v, q, a) => if q < s.len() && (s[q] == '`' || s[q] == '´') {
            Parsed::Done(v, q + 1, a)
        } else {
            Parsed::Done(v, q, amax_x(a, Some(q)))
        },
        other => other,
    }
}

/// Blocks repeated from `p` after `acc`; at least `min`.
pub open spec fn blocks_rep(
    s: Seq<char>,
    p: int,
    min: nat,
    proto: bool,
    acc: Seq<BlockView>,
    alt: Option<int>,
) -> Pr<Seq<BlockView>>
    decreases s.len() - p,
{
    match g_block_t(s, p, false, proto) {
        Pr::Done(v, q, a) => if p < q <= s.len() {
            blocks_rep(s, q, min, proto, acc.push(v), amax(alt, a))
        } else {
            Pr::Panic
        },
        Pr::Fail(e) => if acc.len() < min {
            Pr::Fail(e)
        } else {
            Pr::Done(acc, p, amax(alt, Some(e)))
        },
        Pr::Panic => Pr::Panic,
    }
}

fn lex_blocks(s: &Vec<char>, p: usize, min: usize, proto: bool) -> (r: Parsed<Vec<Block>>)
    requires
        p <= s.len(),
        min <= 1,
    ensures
        parsed_is(r, blocks_rep(s@, p as int, min as nat, proto, Seq::empty(), None)),
        r matches Parsed::Done(_, e, a) ==> p <= e <= s.len() && (a matches Some(x) ==> x <= s.len()),
        min > 0 ==> (r matches Parsed::Done(_, e, _) ==> p < e),
        r matches Parsed::Fail(e) ==> p <= e <= s.len(),
{
    let mut acc: Vec<Block> = Vec::new();
    let mut alt: Option<usize> = None;
    let mut i = p;
    assert(acc.deep_view() =~= Seq::<BlockView>::empty());
    loop
        invariant
            p <= i <= s.len(),
            min <= 1,
            acc.len() == 0 ==> i == p,
            acc.len() > 0 ==> p < i,
            alt matches Some(x) ==> x <= s.len(),
            blocks_rep(s@, p as int, min as nat, proto, Seq::empty(), None) == blocks_rep(
                s@,
                i as int,
                min as nat,
                proto,
                acc.deep_view(),
                opt_int(alt),
            ),
        decreases s.len() - i,
    {
        match lex_block_t(s, i, false, proto) {
            Parsed::Done(v, q, a) => {
                let ghost before = acc.deep_view();
                let ghost vv = v.deep_view();
                acc.push(v);
                assert(acc.deep_view() =~= before.push(vv));
                alt = amax_x(alt, a);
                i = q;
            },
            Parsed::Fail(e) => {
                if acc.len() < min {
                    return Parsed::Fail(e);
                } else {
                    let al = amax_x(alt, Some(e));
                    return Parsed::Done(acc, i, al);
                }
            },
            Parsed::Panic => {
                return Parsed::Panic;
            },
        }
    }
}

/// The first measure of a line: a first block, then blocks.
pub open spec fn g_first_measure(s: Seq<char>, p: int, proto: bool) -> Pr<Seq<BlockView>> {
    match g_block_t(s, p, true, proto) {
        Pr::Done(b, q, a) => match blocks_rep(s, q, 0, proto, Seq::empty(), None) {
            Pr::Done(bs, r, a2) => Pr::Done(seq![b] + bs, r, amax(a, a2)),
            Pr::Fail(e) => Pr::Fail(emax(e, a)),
            Pr::Panic => Pr::Panic,
        },
        Pr::Fail(e) => Pr::Fail(e),
        Pr::Panic => Pr::Panic,
    }
}

fn lex_first_measure(s: &Vec<char>, p: usize, proto: bool) -> (r: Parsed<Vec<Block>>)
    requires
        p <= s.len(),
    ensures
        parsed_is(r, g_first_measure(s@, p as int, proto)),
        r matches Parsed::Done(_, e, a) ==> p < e <= s.len() && (a matches Some(x) ==> x <= s.len()),
        r matches Parsed::Fail(e) ==> p <= e <= s.len(),
{
    match lex_block_t(s, p, true, proto) {
        Parsed::Done(b, q, a) => match lex_blocks(s, q, 0, proto) {
            Parsed::Done(bs, r, a2) => {
                let ghost bv = b.deep_view();
                let ghost bsv = bs.deep_view();
                let mut out: Vec<Block> = Vec::new();
                out.push(b);
                let mut rest = bs;
                out.append(&mut rest);
                assert(out.deep_view() =~= seq![bv] + bsv);
                Parsed::Done(out, r, amax_x(a, a2))
            },
            Parsed::Fail(e) => Parsed::Fail(emax_x(e, a)),
            Parsed::Panic => Parsed::Panic,
        },
        Parsed::Fail(e) => Parsed::Fail(e),
        Parsed::Panic => Parsed::Panic,
    }
}

/// A measure after a `|`: blocks, at least one, if any.
pub open spec fn g_opt_measure(s: Seq<char>, p: int, proto: bool) -> Pr<Option<Seq<BlockView>>> {
    match blocks_rep(s, p, 1, proto, Seq::empty(), None) {
        Pr::Done(m, r, a) => Pr::Done(Some(m), r, a),
        Pr::Fail(e) => Pr::Done(None, p, Some(e)),
        Pr::Panic => Pr::Panic,
    }
}

/// Measures separated by `|` from `p`, after `acc`.
pub open spec fn measures_rep(
    s: Seq<char>,
    p: int,
    proto: bool,
    acc: Seq<Option<Seq<BlockView>>>,
    alt: Option<int>,
) -> Pr<Seq<Option<Seq<BlockView>>>>
    decreases s.len() - p,
{
    if 0 <= p < s.len() && s[p] == '|' {
        match g_opt_measure(s, p + 1, proto) {
            Pr::Done(m, r, a) => if p < r <= s.len() {
                measures_rep(s, r, proto, acc.push(m), amax(alt, a))
            } else {
                Pr::Panic
            },
            Pr::Fail(e) => Pr::Fail(e),
            Pr::Panic => Pr::Panic,
        }
    } else {
        Pr::Done(acc, p, amax(alt, Some(p)))
    }
}

/// One or more measures separated by `|`.
pub open spec fn g_measures(s: Seq<char>, p: int, proto: bool) -> Pr<Seq<Option<Seq<BlockView>>>> {
    match g_opt_measure(s, p, proto) {
        Pr::Done(m, r, a) => measures_rep(s, r, proto, seq![m], a),
        Pr::Fail(e) => Pr::Fail(e),
        Pr::Panic => Pr::Panic,
    }
}

fn lex_opt_measure(s: &Vec<char>, p: usize, proto: bool) -> (r: Parsed<Option<Vec<Block>>>)
    requires
        p <= s.len(),
    ensures
        parsed_is(r, g_opt_measure(s@, p as int, proto)),
        r matches Parsed::Done(_, e, a) ==> p <= e <= s.len() && (a matches Some(x) ==> x <= s.len()),
        !(r is Fail),
{
    match lex_blocks(s, p, 1, proto) {
        Parsed::Done(m, r, a) => Parsed::Done(Some(m), r, a),
        Parsed::Fail(e) => Parsed::Done(None, p, Some(e)),
        Parsed::Panic => Parsed::Panic,
    }
}

fn lex_measures(s: &Vec<char>, p: usize, proto: bool) -> (r: Parsed<Vec<Option<Vec<Block>>>>)
    requires
        p <= s.len(),
    ensures
        parsed_is(r, g_measures(s@, p as int, proto)),
        r matches Parsed::Done(_, e, a) ==> p <= e <= s.len() && (a matches Some(x) ==> x <= s.len()),
        !(r is Fail),
{
    let (m0, r0, a0) = match lex_opt_measure(s, p, proto) {
        Parsed::Done(m, r, a) => (m, r, a),
        _ => {
            return Parsed::Panic;
        },
    };
    let mut acc: Vec<Option<Vec<Block>>> = Vec::new();
    let ghost m0v = m0.deep_view();
    acc.push(m0);
    assert(acc.deep_view() =~= seq![m0v]);
    let mut alt = a0;
    let mut i = r0;
    loop
        invariant
            p <= i <= s.len(),
            alt matches Some(x) ==> x <= s.len(),
            g_measures(s@, p as int, proto) == measures_rep(s@, i as int, proto, acc.deep_view(), opt_int(alt)),
        decreases s.len() - i,
    {
        if i < s.len() && s[i] == '|' {
            match lex_opt_measure(s, i + 1, proto) {
                Parsed::Done(m, r, a) => {
                    let ghost before = acc.deep_view();
                    let ghost mv = m.deep_view();
                    acc.push(m);
                    assert(acc.deep_view() =~= before.push(mv));
                    alt = amax_x(alt, a);
                    i = r;
                },
                _ => {
                    return Parsed::Panic;
                },
            }
        } else {
            let al = amax_x(alt, Some(i));
            return Parsed::Done(acc, i, al);
        }
    }
}

// ----- lines -----

pub open spec fn or_empty<T>(o: Option<Seq<T>>) -> Seq<T> {
    match o {
        Some(x) => x,
        None => Seq::empty(),
    }
}

/// Lyrics that hold more than whitespace.
pub open spec fn some_nonblank(l: Seq<LyricEventView>) -> bool {
    exists|k: int| 0 <= k < l.len() && nonblank_text(#[trigger] l[k])
}

/// A block whose lyrics hold more than whitespace.
pub open spec fn block_nonblank(b: BlockView) -> bool {
    match b.1 {
        Some(l) => some_nonblank(l),
        None => false,
    }
}

pub open spec fn measure_chords(m: Option<Seq<BlockView>>) -> bool {
    match m {
        Some(bs) => exists|j: int| 0 <= j < bs.len() && (#[trigger] bs[j]).0 is Some,
        None => false,
    }
}

pub open spec fn measure_lyrics(m: Option<Seq<BlockView>>) -> bool {
    match m {
        Some(bs) => exists|j: int| 0 <= j < bs.len() && block_nonblank(#[trigger] bs[j]),
        None => false,
    }
}

/// Some block of the line has chords.
pub open spec fn raw_has_chords(ms: RawLineView) -> bool {
    exists|i: int| 0 <= i < ms.len() && measure_chords(#[trigger] ms[i])
}

/// Some block of the line has lyrics that are not blank.
pub open spec fn raw_has_lyrics(ms: RawLineView) -> bool {
    exists|i: int| 0 <= i < ms.len() && measure_lyrics(#[trigger] ms[i])
}

pub open spec fn mixed_measure(m: Option<Seq<BlockView>>) -> Option<Seq<(Seq<MusicEventView>, Seq<LyricEventView>)>> {
    Some(
        match m {
            Some(bs) => bs.map_values(|b: BlockView| (or_empty(b.0), or_empty(b.1))),
            None => Seq::empty(),
        },
    )
}

pub open spec fn chords_measure(m: Option<Seq<BlockView>>) -> Option<Seq<Seq<MusicEventView>>> {
    Some(
        match m {
            Some(bs) => bs.map_values(|b: BlockView| or_empty(b.0)),
            None => Seq::empty(),
        },
    )
}

pub open spec fn lyrics_measure(m: Option<Seq<BlockView>>) -> Option<Seq<Seq<LyricEventView>>> {
    Some(
        match m {
            Some(bs) => bs.map_values(|b: BlockView| or_empty(b.1)),
            None => Seq::empty(),
        },
    )
}

/// The line that a sequence of measures makes: mixed where it has chords
/// and lyrics, chords only, else lyrics only; an absent measure becomes an
/// empty one.
pub open spec fn classify(ms: RawLineView) -> LineView {
    if raw_has_chords(ms) && raw_has_lyrics(ms) {
        LineView::Mixed(ms.map_values(|m: Option<Seq<BlockView>>| mixed_measure(m)))
    } else if raw_has_chords(ms) {
        LineView::Chords(ms.map_values(|m: Option<Seq<BlockView>>| chords_measure(m)))
    } else {
        LineView::Lyrics(ms.map_values(|m: Option<Seq<BlockView>>| lyrics_measure(m)))
    }
}

fn lyrics_nonblank(l: &Vec<LyricEvent>) -> (r: bool)
    ensures
        r == some_nonblank(l.deep_view()),
{
    let ghost v = l.deep_view();
    let mut k: usize = 0;
    while k < l.len()
        invariant
            v == l.deep_view(),
            k <= l.len(),
            forall|j: int| 0 <= j < k ==> !nonblank_text(#[trigger] v[j]),
        decreases l.len() - k,
    {
        if is_nonblank_text(&l[k]) {
            assert(nonblank_text(v[k as int]));
            return true;
        }
        k = k + 1;
    }
    false
}

fn measure_flags(m: &Option<Vec<Block>>) -> (r: (bool, bool))
    ensures
        r.0 == measure_chords(m.deep_view()),
        r.1 == measure_lyrics(m.deep_view()),
{
    match m {
        None => (false, false),
        Some(bs) => {
            let ghost v = bs.deep_view();
            let mut ch = false;
            let mut ly = false;
            let mut j: usize = 0;
            while j < bs.len()
                invariant
                    v == bs.deep_view(),
                    j <= bs.len(),
                    ch == exists|i: int| 0 <= i < j && (#[trigger] v[i]).0 is Some,
                    ly == exists|i: int| 0 <= i < j && block_nonblank(#[trigger] v[i]),
                decreases bs.len() - j,
            {
                let b = &bs[j];
                assert(v[j as int] == b.deep_view());
                if b.0.is_some() {
                    ch = true;
                }
                let bl = match &b.1 {
                    Some(l) => {
                        let x = lyrics_nonblank(l);
                        assert(v[j as int].1 == Some(l.deep_view()));
                        assert(x == block_nonblank(v[j as int]));
                        x
                    },
                    None => false,
                };
                assert(bl == block_nonblank(v[j as int]));
                if bl {
                    ly = true;
                }
                assert(ch == exists|i: int| 0 <= i < j + 1 && (#[trigger] v[i]).0 is Some) by {
                    if ch && !(v[j as int].0 is Some) {
                        let w = choose|i: int| 0 <= i < j + 1 && (#[trigger] v[i]).0 is Some;
                        assert(0 <= w < j);
                    }
                }
                assert(ly == exists|i: int| 0 <= i < j + 1 && block_nonblank(#[trigger] v[i])) by {
                    if ly && !block_nonblank(v[j as int]) {
                        let w = choose|i: int| 0 <= i < j + 1 && block_nonblank(#[trigger] v[i]);
                        assert(0 <= w < j);
                    }
                }
                j = j + 1;
            }
            (ch, ly)
        },
    }
}

fn line_flags(ms: &Vec<Option<Vec<Block>>>) -> (r: (bool, bool))
    ensures
        r.0 == raw_has_chords(ms.deep_view()),
        r.1 == raw_has_lyrics(ms.deep_view()),
{
    let ghost v = ms.deep_view();
    let mut ch = false;
    let mut ly = false;
    let mut i: usize = 0;
    while i < ms.len()
        invariant
            v == ms.deep_view(),
            i <= ms.len(),
            ch == exists|k: int| 0 <= k < i && measure_chords(#[trigger] v[k]),
            ly == exists|k: int| 0 <= k < i && measure_lyrics(#[trigger] v[k]),
        decreases ms.len() - i,
    {
        let (c, l) = measure_flags(&ms[i]);
        assert(v[i as int] == ms[i as int].deep_view());
        if c {
            ch = true;
        }
        if l {
            ly = true;
        }
        assert(ch == exists|k: int| 0 <= k < i + 1 && measure_chords(#[trigger] v[k])) by {
            if ch && !measure_chords(v[i as int]) {
                let w = choose|k: int| 0 <= k < i + 1 && measure_chords(#[trigger] v[k]);
                assert(0 <= w < i);
            }
        }
        assert(ly == exists|k: int| 0 <= k < i + 1 && measure_lyrics(#[trigger] v[k])) by {
            if ly && !measure_lyrics(v[i as int]) {
                let w = choose|k: int| 0 <= k < i + 1 && measure_lyrics(#[trigger] v[k]);
                assert(0 <= w < i);
            }
        }
        i = i + 1;
    }
    (ch, ly)
}

fn events_or_empty(o: Option<Vec<MusicEvent>>) -> (r: Vec<MusicEvent>)
    ensures
        r.deep_view() == or_empty(o.deep_view()),
{
    match o {
        Some(v) => v,
        None => {
            let v: Vec<MusicEvent> = Vec::new();
            assert(v.deep_view() =~= Seq::<MusicEventView>::empty());
            v
        },
    }
}

fn lyrics_or_empty(o: Option<Vec<LyricEvent>>) -> (r: Vec<LyricEvent>)
    ensures
        r.deep_view() == or_empty(o.deep_view()),
{
    match o {
        Some(v) => v,
        None => {
            let v: Vec<LyricEvent> = Vec::new();
            assert(v.deep_view() =~= Seq::<LyricEventView>::empty());
            v
        },
    }
}

/// The kind of line to build.
pub enum LineKind {
    Mixed,
    Chords,
    Lyrics,
}

/// The measures of the line of kind `k` that `bs` makes, as three vectors of
/// which only the one of kind `k` is filled.
fn convert_blocks(bs: Vec<Block>, k: &LineKind) -> (r: (
    Vec<(Vec<MusicEvent>, Vec<LyricEvent>)>,
    Vec<Vec<MusicEvent>>,
    Vec<Vec<LyricEvent>>,
))
    ensures
        *k is Mixed ==> r.0.deep_view() == bs.deep_view().map_values(
            |b: BlockView| (or_empty(b.0), or_empty(b.1)),
        ),
        *k is Chords ==> r.1.deep_view() == bs.deep_view().map_values(|b: BlockView| or_empty(b.0)),
        *k is Lyrics ==> r.2.deep_view() == bs.deep_view().map_values(|b: BlockView| or_empty(b.1)),
{
    let ghost v = bs.deep_view();
    let mut rest = bs;
    let mut o0: Vec<(Vec<MusicEvent>, Vec<LyricEvent>)> = Vec::new();
    let mut o1: Vec<Vec<MusicEvent>> = Vec::new();
    let mut o2: Vec<Vec<LyricEvent>> = Vec::new();
    let mut n: usize = 0;
    assert(v.len() == rest.len());
    while rest.len() > 0
        invariant
            n + rest.len() == v.len(),
            v.len() <= usize::MAX,
            forall|i: int| 0 <= i < rest.len() ==> #[trigger] rest.deep_view()[i] == v[n + i],
            *k is Mixed ==> o0.len() == n && forall|i: int|
                0 <= i < n ==> #[trigger] o0.deep_view()[i] == (or_empty(v[i].0), or_empty(v[i].1)),
            *k is Chords ==> o1.len() == n && forall|i: int|
                0 <= i < n ==> #[trigger] o1.deep_view()[i] == or_empty(v[i].0),
            *k is Lyrics ==> o2.len() == n && forall|i: int|
                0 <= i < n ==> #[trigger] o2.deep_view()[i] == or_empty(v[i].1),
        decreases rest.len(),
    {
        let ghost before = rest.deep_view();
        let b = rest.remove(0);
        assert(b.deep_view() == v[n as int]) by {
            assert(before[0] == v[n as int]);
        }
        assert forall|i: int| 0 <= i < rest.len() implies #[trigger] rest.deep_view()[i] == v[n + 1 + i] by {
            assert(rest.deep_view()[i] == before[i + 1]);
        }
        let (c, l) = b;
        match k {
            LineKind::Mixed => {
                let ghost prev = o0.deep_view();
                o0.push((events_or_empty(c), lyrics_or_empty(l)));
                assert forall|i: int| 0 <= i < n + 1 implies #[trigger] o0.deep_view()[i] == (
                    or_empty(v[i].0),
                    or_empty(v[i].1),
                ) by {
                    if i < n {
                        assert(o0.deep_view()[i] == prev[i]);
                    }
                }
            },
            LineKind::Chords => {
                let ghost prev = o1.deep_view();
                o1.push(events_or_empty(c));
                assert forall|i: int| 0 <= i < n + 1 implies #[trigger] o1.deep_view()[i] == or_empty(
                    v[i].0,
                ) by {
                    if i < n {
                        assert(o1.deep_view()[i] == prev[i]);
                    }
                }
            },
            LineKind::Lyrics => {
                let ghost prev = o2.deep_view();
                o2.push(lyrics_or_empty(l));
                assert forall|i: int| 0 <= i < n + 1 implies #[trigger] o2.deep_view()[i] == or_empty(
                    v[i].1,
                ) by {
                    if i < n {
                        assert(o2.deep_view()[i] == prev[i]);
                    }
                }
            },
        }
        n = n + 1;
    }
    assert(*k is Mixed ==> o0.deep_view() =~= v.map_values(|b: BlockView| (or_empty(b.0), or_empty(b.1))));
    assert(*k is Chords ==> o1.deep_view() =~= v.map_values(|b: BlockView| or_empty(b.0)));
    assert(*k is Lyrics ==> o2.deep_view() =~= v.map_values(|b: BlockView| or_empty(b.1)));
    (o0, o1, o2)
}

fn classify_x(ms: Vec<Option<Vec<Block>>>) -> (r: Line)
    ensures
        r.deep_view() == classify(ms.deep_view()),
{
    let ghost v = ms.deep_view();
    let (ch, ly) = line_flags(&ms);
    let k = if ch && ly {
        LineKind::Mixed
    } else if ch {
        LineKind::Chords
    } else {
        LineKind::Lyrics
    };
    let mut rest = ms;
    let mut o0: Vec<Option<Vec<(Vec<MusicEvent>, Vec<LyricEvent>)>>> = Vec::new();
    let mut o1: Vec<Option<Vec<Vec<MusicEvent>>>> = Vec::new();
    let mut o2: Vec<Option<Vec<Vec<LyricEvent>>>> = Vec::new();
    let mut n: usize = 0;
    assert(v.len() == rest.len());
    while rest.len() > 0
        invariant
            n + rest.len() == v.len(),
            v.len() <= usize::MAX,
            ch == raw_has_chords(v),
            ly == raw_has_lyrics(v),
            (k is Mixed) == (ch && ly),
            (k is Chords) == (ch && !ly),
            (k is Lyrics) == !ch,
            forall|i: int| 0 <= i < rest.len() ==> #[trigger] rest.deep_view()[i] == v[n + i],
            k is Mixed ==> o0.len() == n && forall|i: int|
                0 <= i < n ==> #[trigger] o0.deep_view()[i] == mixed_measure(v[i]),
            k is Chords ==> o1.len() == n && forall|i: int|
                0 <= i < n ==> #[trigger] o1.deep_view()[i] == chords_measure(v[i]),
            k is Lyrics ==> o2.len() == n && forall|i: int|
                0 <= i < n ==> #[trigger] o2.deep_view()[i] == lyrics_measure(v[i]),
        decreases rest.len(),
    {
        let ghost before = rest.deep_view();
        let m = rest.remove(0);
        assert(m.deep_view() == v[n as int]) by {
            assert(before[0] == v[n as int]);
        }
        assert forall|i: int| 0 <= i < rest.len() implies #[trigger] rest.deep_view()[i] == v[n + 1 + i] by {
            assert(rest.deep_view()[i] == before[i + 1]);
        }
        let ghost mv = m.deep_view();
        let bs: Vec<Block> = match m {
            Some(x) => x,
            None => Vec::new(),
        };
        assert(mv is None ==> bs.deep_view() =~= Seq::<BlockView>::empty());
        let (c0, c1, c2) = convert_blocks(bs, &k);
        match k {
            LineKind::Mixed => {
                let ghost prev = o0.deep_view();
                proof {
                    if mv is None {
                        assert(c0.deep_view() =~= Seq::<(Seq<MusicEventView>, Seq<LyricEventView>)>::empty());
                    }
                }
                o0.push(Some(c0));
                assert forall|i: int| 0 <= i < n + 1 implies #[trigger] o0.deep_view()[i] == mixed_measure(
                    v[i],
                ) by {
                    if i < n {
                        assert(o0.deep_view()[i] == prev[i]);
                    }
                }
            },
            LineKind::Chords => {
                let ghost prev = o1.deep_view();
                proof {
                    if mv is None {
                        assert(c1.deep_view() =~= Seq::<Seq<MusicEventView>>::empty());
                    }
                }
                o1.push(Some(c1));
                assert forall|i: int| 0 <= i < n + 1 implies #[trigger] o1.deep_view()[i] == chords_measure(
                    v[i],
                ) by {
                    if i < n {
                        assert(o1.deep_view()[i] == prev[i]);
                    }
                }
            },
            LineKind::Lyrics => {
                let ghost prev = o2.deep_view();
                proof {
                    if mv is None {
                        assert(c2.deep_view() =~= Seq::<Seq<LyricEventView>>::empty());
                    }
                }
                o2.push(Some(c2));
                assert forall|i: int| 0 <= i < n + 1 implies #[trigger] o2.deep_view()[i] == lyrics_measure(
                    v[i],
                ) by {
                    if i < n {
                        assert(o2.deep_view()[i] == prev[i]);
                    }
                }
            },
        }
        n = n + 1;
    }
    match k {
        LineKind::Mixed => {
            assert(o0.deep_view() =~= v.map_values(|m: Option<Seq<BlockView>>| mixed_measure(m)));
            Line::Mixed(o0)
        },
        LineKind::Chords => {
            assert(o1.deep_view() =~= v.map_values(|m: Option<Seq<BlockView>>| chords_measure(m)));
            Line::Chords(o1)
        },
        LineKind::Lyrics => {
            assert(o2.deep_view() =~= v.map_values(|m: Option<Seq<BlockView>>| lyrics_measure(m)));
            Line::Lyrics(o2)
        },
    }
}

/// All blocks of the measure, if present, have chords.
pub open spec fn measure_all_chords(m: Option<Seq<BlockView>>) -> bool {
    match m {
        Some(bs) => forall|j: int| 0 <= j < bs.len() ==> (#[trigger] bs[j]).0 is Some,
        None => true,
    }
}

/// All blocks of the line have chords.
pub open spec fn all_chords(ms: RawLineView) -> bool {
    forall|i: int| 0 <= i < ms.len() ==> measure_all_chords(#[trigger] ms[i])
}

pub open spec fn proto_mixed_measure(m: Option<Seq<BlockView>>) -> Option<Seq<(Seq<MusicEventView>, Seq<LyricEventView>)>> {
    match m {
        Some(bs) => Some(bs.map_values(|b: BlockView| (or_empty(b.0), or_empty(b.1)))),
        None => None,
    }
}

pub open spec fn proto_chords_measure(m: Option<Seq<BlockView>>) -> Option<Seq<Seq<MusicEventView>>> {
    match m {
        Some(bs) => Some(bs.map_values(|b: BlockView| or_empty(b.0))),
        None => None,
    }
}

pub open spec fn proto_lyrics_measure(m: Option<Seq<BlockView>>) -> Option<Seq<Seq<LyricEventView>>> {
    match m {
        Some(bs) => Some(bs.map_values(|b: BlockView| or_empty(b.1))),
        None => None,
    }
}

/// The line that a sequence of measures makes in the prototype dialect:
/// absent measures stay absent; `None` where a line of chords has a block
/// without chords (the prototype aborts there).
pub open spec fn classify_proto(ms: RawLineView) -> Option<LineView> {
    if raw_has_chords(ms) && raw_has_lyrics(ms) {
        Some(LineView::Mixed(ms.map_values(|m: Option<Seq<BlockView>>| proto_mixed_measure(m))))
    } else if raw_has_chords(ms) {
        if all_chords(ms) {
            Some(LineView::Chords(ms.map_values(|m: Option<Seq<BlockView>>| proto_chords_measure(m))))
        } else {
            None
        }
    } else {
        Some(LineView::Lyrics(ms.map_values(|m: Option<Seq<BlockView>>| proto_lyrics_measure(m))))
    }
}

fn line_all_chords(ms: &Vec<Option<Vec<Block>>>) -> (r: bool)
    ensures
        r == all_chords(ms.deep_view()),
{
    let ghost v = ms.deep_view();
    let mut i: usize = 0;
    while i < ms.len()
        invariant
            v == ms.deep_view(),
            i <= ms.len(),
            forall|k: int| 0 <= k < i ==> measure_all_chords(#[trigger] v[k]),
        decreases ms.len() - i,
    {
        assert(v[i as int] == ms[i as int].deep_view());
        match &ms[i] {
            None => {},
            Some(bs) => {
                let mut j: usize = 0;
                while j < bs.len()
                    invariant
                        v == ms.deep_view(),
                        i < ms.len(),
                        ms[i as int] matches Some(b2) && b2 == bs,
                        j <= bs.len(),
                        forall|k: int| 0 <= k < j ==> (#[trigger] bs.deep_view()[k]).0 is Some,
                    decreases bs.len() - j,
                {
                    assert(bs.deep_view()[j as int] == bs[j as int].deep_view());
                    if bs[j].0.is_none() {
                        assert(!measure_all_chords(v[i as int]));
                        return false;
                    }
                    j = j + 1;
                }
                assert(measure_all_chords(v[i as int]));
            },
        }
        i = i + 1;
    }
    true
}

fn classify_proto_x(ms: Vec<Option<Vec<Block>>>) -> (r: Option<Line>)
    ensures
        r.deep_view() == classify_proto(ms.deep_view()),
{
    let ghost v = ms.deep_view();
    let (ch, ly) = line_flags(&ms);
    if ch && !ly && !line_all_chords(&ms) {
        return None;
    }
    let k = if ch && ly {
        LineKind::Mixed
    } else if ch {
        LineKind::Chords
    } else {
        LineKind::Lyrics
    };
    let mut rest = ms;
    let mut o0: Vec<Option<Vec<(Vec<MusicEvent>, Vec<LyricEvent>)>>> = Vec::new();
    let mut o1: Vec<Option<Vec<Vec<MusicEvent>>>> = Vec::new();
    let mut o2: Vec<Option<Vec<Vec<LyricEvent>>>> = Vec::new();
    let mut n: usize = 0;
    assert(v.len() == rest.len());
    while rest.len() > 0
        invariant
            n + rest.len() == v.len(),
            v.len() <= usize::MAX,
            ch == raw_has_chords(v),
            ly == raw_has_lyrics(v),
            (k is Mixed) == (ch && ly),
            (k is Chords) == (ch && !ly),
            (k is Lyrics) == !ch,
            k is Chords ==> all_chords(v),
            forall|i: int| 0 <= i < rest.len() ==> #[trigger] rest.deep_view()[i] == v[n + i],
            k is Mixed ==> o0.len() == n && forall|i: int|
                0 <= i < n ==> #[trigger] o0.deep_view()[i] == proto_mixed_measure(v[i]),
            k is Chords ==> o1.len() == n && forall|i: int|
                0 <= i < n ==> #[trigger] o1.deep_view()[i] == proto_chords_measure(v[i]),
            k is Lyrics ==> o2.len() == n && forall|i: int|
                0 <= i < n ==> #[trigger] o2.deep_view()[i] == proto_lyrics_measure(v[i]),
        decreases rest.len(),
    {
        let ghost before = rest.deep_view();
        let m = rest.remove(0);
        assert(m.deep_view() == v[n as int]) by {
            assert(before[0] == v[n as int]);
        }
        assert forall|i: int| 0 <= i < rest.len() implies #[trigger] rest.deep_view()[i] == v[n + 1 + i] by {
            assert(rest.deep_view()[i] == before[i + 1]);
        }
        let ghost mv = m.deep_view();
        match m {
            Some(bs) => {
                let (c0, c1, c2) = convert_blocks(bs, &k);
                match k {
                    LineKind::Mixed => {
                        let ghost prev = o0.deep_view();
                        o0.push(Some(c0));
                        assert forall|i: int| 0 <= i < n + 1 implies #[trigger] o0.deep_view()[i]
                            == proto_mixed_measure(v[i]) by {
                            if i < n {
                                assert(o0.deep_view()[i] == prev[i]);
                            }
                        }
                    },
                    LineKind::Chords => {
                        let ghost prev = o1.deep_view();
                        o1.push(Some(c1));
                        assert forall|i: int| 0 <= i < n + 1 implies #[trigger] o1.deep_view()[i]
                            == proto_chords_measure(v[i]) by {
                            if i < n {
                                assert(o1.deep_view()[i] == prev[i]);
                            }
                        }
                    },
                    LineKind::Lyrics => {
                        let ghost prev = o2.deep_view();
                        o2.push(Some(c2));
                        assert forall|i: int| 0 <= i < n + 1 implies #[trigger] o2.deep_view()[i]
                            == proto_lyrics_measure(v[i]) by {
                            if i < n {
                                assert(o2.deep_view()[i] == prev[i]);
                            }
                        }
                    },
                }
            },
            None => {
                match k {
                    LineKind::Mixed => {
                        let ghost prev = o0.deep_view();
                        o0.push(None);
                        assert forall|i: int| 0 <= i < n + 1 implies #[trigger] o0.deep_view()[i]
                            == proto_mixed_measure(v[i]) by {
                            if i < n {
                                assert(o0.deep_view()[i] == prev[i]);
                            }
                        }
                    },
                    LineKind::Chords => {
                        let ghost prev = o1.deep_view();
                        o1.push(None);
                        assert forall|i: int| 0 <= i < n + 1 implies #[trigger] o1.deep_view()[i]
                            == proto_chords_measure(v[i]) by {
                            if i < n {
                                assert(o1.deep_view()[i] == prev[i]);
                            }
                        }
                    },
                    LineKind::Lyrics => {
                        let ghost prev = o2.deep_view();
                        o2.push(None);
                        assert forall|i: int| 0 <= i < n + 1 implies #[trigger] o2.deep_view()[i]
                            == proto_lyrics_measure(v[i]) by {
                            if i < n {
                                assert(o2.deep_view()[i] == prev[i]);
                            }
                        }
                    },
                }
            },
        }
        n = n + 1;
    }
    match k {
        LineKind::Mixed => {
            assert(o0.deep_view() =~= v.map_values(|m: Option<Seq<BlockView>>| proto_mixed_measure(m)));
            Some(Line::Mixed(o0))
        },
        LineKind::Chords => {
            assert(o1.deep_view() =~= v.map_values(|m: Option<Seq<BlockView>>| proto_chords_measure(m)));
            Some(Line::Chords(o1))
        },
        LineKind::Lyrics => {
            assert(o2.deep_view() =~= v.map_values(|m: Option<Seq<BlockView>>| proto_lyrics_measure(m)));
            Some(Line::Lyrics(o2))
        },
    }
}

/// The measures of a line as read: a first measure, possibly absent, then
/// `|`-separated measures; or a first measure alone.
pub open spec fn g_line_raw(s: Seq<char>, p: int, proto: bool) -> Pr<RawLineView> {
    let fm = g_first_measure(s, p, proto);
    if fm is Panic {
        Pr::Panic
    } else {
        let ofm: Option<Seq<BlockView>> = match fm {
            Pr::Done(m, _, _) => Some(m),
            _ => None,
        };
        let q = match fm {
            Pr::Done(_, q, _) => q,
            _ => p,
        };
        let a = match fm {
            Pr::Done(_, _, a) => a,
            Pr::Fail(e) => Some(e),
            Pr::Panic => None,
        };
        let x: Pr<RawLineView> = if 0 <= q < s.len() && s[q] == '|' {
            match g_measures(s, q + 1, proto) {
                Pr::Done(ms, r, b) => Pr::Done(seq![ofm] + ms, r, amax(a, b)),
                Pr::Fail(e) => Pr::Fail(emax(e, a)),
                Pr::Panic => Pr::Panic,
            }
        } else {
            Pr::Fail(emax(q, a))
        };
        match x {
            Pr::Fail(ex) => match fm {
                Pr::Done(m, q, a) => Pr::Done(seq![Some(m)], q, amax(a, Some(ex))),
                Pr::Fail(ey) => Pr::Fail(imax(ex, ey)),
                Pr::Panic => Pr::Panic,
            },
            _ => x,
        }
    }
}

/// A line of blocks. In the prototype dialect an absent measure stays
/// absent, and a line of chords whose blocks do not all have chords aborts.
pub open spec fn g_line(s: Seq<char>, p: int, proto: bool) -> Pr<LineView> {
    match g_line_raw(s, p, proto) {
        Pr::Done(ms, q, a) => if !proto {
            Pr::Done(classify(ms), q, a)
        } else {
            match classify_proto(ms) {
                Some(l) => Pr::Done(l, q, a),
                None => Pr::Panic,
            }
        },
        Pr::Fail(e) => Pr::Fail(e),
        Pr::Panic => Pr::Panic,
    }
}

fn lex_line_raw(s: &Vec<char>, p: usize, proto: bool) -> (r: Parsed<Vec<Option<Vec<Block>>>>)
    requires
        p <= s.len(),
    ensures
        parsed_is(r, g_line_raw(s@, p as int, proto)),
        r matches Parsed::Done(_, e, a) ==> p < e <= s.len() && (a matches Some(x) ==> x <= s.len()),
        r matches Parsed::Fail(e) ==> p <= e <= s.len(),
{
    match lex_first_measure(s, p, proto) {
        Parsed::Panic => Parsed::Panic,
        Parsed::Done(m, q, a) => {
            if q < s.len() && s[q] == '|' {
                match lex_measures(s, q + 1, proto) {
                    Parsed::Done(ms, r, b) => {
                        let ghost mv = m.deep_view();
                        let ghost msv = ms.deep_view();
                        let mut out: Vec<Option<Vec<Block>>> = Vec::new();
                        out.push(Some(m));
                        let mut rest = ms;
                        out.append(&mut rest);
                        assert(out.deep_view() =~= seq![Some(mv)] + msv);
                        Parsed::Done(out, r, amax_x(a, b))
                    },
                    _ => Parsed::Panic,
                }
            } else {
                let ex = emax_x(q, a);
                let ghost mv = m.deep_view();
                let mut out: Vec<Option<Vec<Block>>> = Vec::new();
                out.push(Some(m));
                assert(out.deep_view() =~= seq![Some(mv)]);
                Parsed::Done(out, q, amax_x(a, Some(ex)))
            }
        },
        Parsed::Fail(e) => {
            if p < s.len() && s[p] == '|' {
                match lex_measures(s, p + 1, proto) {
                    Parsed::Done(ms, r, b) => {
                        let ghost msv = ms.deep_view();
                        let mut out: Vec<Option<Vec<Block>>> = Vec::new();
                        out.push(None);
                        let mut rest = ms;
                        out.append(&mut rest);
                        assert(out.deep_view() =~= seq![None] + msv);
                        Parsed::Done(out, r, amax_x(Some(e), b))
                    },
                    _ => Parsed::Panic,
                }
            } else {
                let ex = emax_x(p, Some(e));
                Parsed::Fail(if ex >= e { ex } else { e })
            }
        },
    }
}

pub(crate) fn lex_line(s: &Vec<char>, p: usize, proto: bool) -> (r: Parsed<Line>)
    requires
        p <= s.len(),
    ensures
        parsed_is(r, g_line(s@, p as int, proto)),
        r matches Parsed::Done(_, e, a) ==> p < e <= s.len() && (a matches Some(x) ==> x <= s.len()),
        r matches Parsed::Fail(e) ==> p <= e <= s.len(),
{
    match lex_line_raw(s, p, proto) {
        Parsed::Done(ms, q, a) => if !proto {
            Parsed::Done(classify_x(ms), q, a)
        } else {
            match classify_proto_x(ms) {
                Some(l) => Parsed::Done(l, q, a),
                None => Parsed::Panic,
            }
        },
        Parsed::Fail(e) => Parsed::Fail(e),
        Parsed::Panic => Parsed::Panic,
    }
}

} // verus!
