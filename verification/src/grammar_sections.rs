//! The grammar of a whole song: the metadata at its head, sections with
//! their headers, subsections separated by `--` lines, and the metadata
//! lines (`--!key: value | ...`) of a subsection.

use vstd::prelude::*;
use crate::keyed::{assoc_fold, fold_entries};
#[allow(unused_imports)]
use vstd::string::*;
use crate::base::{Line, LineView, Subsection, SubsectionView, Section, SectionView};
use crate::grammar::{Pr, Parsed, parsed_is, opt_int, amax, emax, Class, run, run_x, amax_x, emax_x,
    g_meta_line, lex_meta_line, g_section_header, lex_section_header};
use crate::grammar_music::{g_just, lex_just};
use crate::grammar_song::{g_line, lex_line};

verus! {

/// A key and a value.
pub type KeyValue = (Seq<char>, Seq<char>);

// ----- subsection metadata -----

/// `key: value`, then an optional `|`.
pub open spec fn g_kv_item(s: Seq<char>, p: int, proto: bool) -> Pr<KeyValue> {
    match g_meta_line(s, p, false, proto) {
        Pr::Done(kv, r, a) => if 0 <= r < s.len() && s[r] == '|' {
            Pr::Done(kv, r + 1, a)
        } else {
            Pr::Done(kv, r, amax(a, Some(r)))
        },
        Pr::Fail(e) => Pr::Fail(e),
        Pr::Panic => Pr::Panic,
    }
}

/// Key-value items repeated from `p` after `acc`.
pub open spec fn kv_rep(s: Seq<char>, p: int, proto: bool, acc: Seq<KeyValue>, alt: Option<int>) -> Pr<
    Seq<KeyValue>,
>
    decreases s.len() - p,
{
    match g_kv_item(s, p, proto) {
        Pr::Done(v, q, a) => if p < q <= s.len() {
            kv_rep(s, q, proto, acc.push(v), amax(alt, a))
        } else {
            Pr::Panic
        },
        Pr::Fail(e) => Pr::Done(acc, p, amax(alt, Some(e))),
        Pr::Panic => Pr::Panic,
    }
}

fn lex_kvs(s: &Vec<char>, p: usize, proto: bool) -> (r: Parsed<Vec<(String, String)>>)
    requires
        p <= s.len(),
    ensures
        parsed_is(r, kv_rep(s@, p as int, proto, Seq::empty(), None)),
        r matches Parsed::Done(_, e, a) ==> p <= e <= s.len() && (a matches Some(x) ==> x <= s.len()),
        !(r is Fail),
{
    let mut acc: Vec<(String, String)> = Vec::new();
    let mut alt: Option<usize> = None;
    let mut i = p;
    assert(acc.deep_view() =~= Seq::<KeyValue>::empty());
    loop
        invariant
            p <= i <= s.len(),
            alt matches Some(x) ==> x <= s.len(),
            kv_rep(s@, p as int, proto, Seq::empty(), None) == kv_rep(s@, i as int, proto, acc.deep_view(), opt_int(alt)),
        decreases s.len() - i,
    {
        match lex_meta_line(s, i, false, proto) {
            Parsed::Done(kv, r, a) => {
                let (q, qa) = if r < s.len() && s[r] == '|' {
                    (r + 1, a)
                } else {
                    (r, amax_x(a, Some(r)))
                };
                let ghost before = acc.deep_view();
                let ghost kvv = kv.deep_view();
                acc.push(kv);
                assert(acc.deep_view() =~= before.push(kvv));
                alt = amax_x(alt, qa);
                i = q;
            },
            Parsed::Fail(e) => {
                let al = amax_x(alt, Some(e));
                return Parsed::Done(acc, i, al);
            },
            Parsed::Panic => {
                return Parsed::Panic;
            },
        }
    }
}

/// A subsection metadata line `--!` with its key-value items and the line
/// breaks after it.
pub open spec fn g_sub_meta(s: Seq<char>, p: int, proto: bool) -> Pr<Seq<KeyValue>> {
    match g_just(s, p, seq!['-', '-', '!']) {
        Pr::Done(_, q, _) => match kv_rep(s, q, proto, Seq::empty(), None) {
            Pr::Done(v, r, a) => {
                let r2 = run(s, r, Class::Newline);
                Pr::Done(v, r2, amax(a, Some(r2)))
            },
            Pr::Fail(e) => Pr::Fail(e),
            Pr::Panic => Pr::Panic,
        },
        Pr::Fail(e) => Pr::Fail(e),
        Pr::Panic => Pr::Panic,
    }
}

fn lex_sub_meta(s: &Vec<char>, p: usize, proto: bool) -> (r: Parsed<Vec<(String, String)>>)
    requires
        p <= s.len(),
    ensures
        parsed_is(r, g_sub_meta(s@, p as int, proto)),
        r matches Parsed::Done(_, e, a) ==> p < e <= s.len() && (a matches Some(x) ==> x <= s.len()),
        r matches Parsed::Fail(e) ==> p <= e <= s.len(),
{
    proof {
        reveal_strlit("--!");
    }
    assert("--!"@ =~= seq!['-', '-', '!']);
    match lex_just(s, p, "--!") {
        Parsed::Done(_, q, _) => match lex_kvs(s, q, proto) {
            Parsed::Done(v, r, a) => {
                let r2 = run_x(s, r, &Class::Newline);
                Parsed::Done(v, r2, amax_x(a, Some(r2)))
            },
            Parsed::Fail(e) => Parsed::Fail(e),
            Parsed::Panic => Parsed::Panic,
        },
        Parsed::Fail(e) => Parsed::Fail(e),
        Parsed::Panic => Parsed::Panic,
    }
}

/// Subsection metadata lines from `p`, their items gathered after `acc`.
pub open spec fn metas_rep(s: Seq<char>, p: int, proto: bool, acc: Seq<KeyValue>, alt: Option<int>) -> Pr<
    Seq<KeyValue>,
>
    decreases s.len() - p,
{
    match g_sub_meta(s, p, proto) {
        Pr::Done(v, q, a) => if p < q <= s.len() {
            metas_rep(s, q, proto, acc + v, amax(alt, a))
        } else {
            Pr::Panic
        },
        Pr::Fail(e) => Pr::Done(acc, p, amax(alt, Some(e))),
        Pr::Panic => Pr::Panic,
    }
}

fn lex_metas(s: &Vec<char>, p: usize, proto: bool) -> (r: Parsed<Vec<(String, String)>>)
    requires
        p <= s.len(),
    ensures
        parsed_is(r, metas_rep(s@, p as int, proto, Seq::empty(), None)),
        r matches Parsed::Done(_, e, a) ==> p <= e <= s.len() && (a matches Some(x) ==> x <= s.len()),
        !(r is Fail),
{
    let mut acc: Vec<(String, String)> = Vec::new();
    let mut alt: Option<usize> = None;
    let mut i = p;
    assert(acc.deep_view() =~= Seq::<KeyValue>::empty());
    loop
        invariant
            p <= i <= s.len(),
            alt matches Some(x) ==> x <= s.len(),
            metas_rep(s@, p as int, proto, Seq::empty(), None) == metas_rep(s@, i as int, proto, acc.deep_view(), opt_int(alt)),
        decreases s.len() - i,
    {
        match lex_sub_meta(s, i, proto) {
            Parsed::Done(v, q, a) => {
                let ghost before = acc.deep_view();
                let ghost vv = v.deep_view();
                let mut more = v;
                acc.append(&mut more);
                assert(acc.deep_view() =~= before + vv);
                alt = amax_x(alt, a);
                i = q;
            },
            Parsed::Fail(e) => {
                let al = amax_x(alt, Some(e));
                return Parsed::Done(acc, i, al);
            },
            Parsed::Panic => {
                return Parsed::Panic;
            },
        }
    }
}

// ----- subsections -----

/// Lines, each with the line breaks after it, from `p` after `acc`.
pub open spec fn lines_rep(s: Seq<char>, p: int, proto: bool, acc: Seq<LineView>, alt: Option<int>) -> Pr<
    Seq<LineView>,
>
    decreases s.len() - p,
{
    match g_line(s, p, proto) {
        Pr::Done(v, q, a) => {
            let q2 = run(s, q, Class::Newline);
            if p < q2 <= s.len() {
                lines_rep(s, q2, proto, acc.push(v), amax(alt, amax(a, Some(q2))))
            } else {
                Pr::Panic
            }
        },
        Pr::Fail(e) => Pr::Done(acc, p, amax(alt, Some(e))),
        Pr::Panic => Pr::Panic,
    }
}

fn lex_lines(s: &Vec<char>, p: usize, proto: bool) -> (r: Parsed<Vec<Line>>)
    requires
        p <= s.len(),
    ensures
        parsed_is(r, lines_rep(s@, p as int, proto, Seq::empty(), None)),
        r matches Parsed::Done(_, e, a) ==> p <= e <= s.len() && (a matches Some(x) ==> x <= s.len()),
        !(r is Fail),
{
    let mut acc: Vec<Line> = Vec::new();
    let mut alt: Option<usize> = None;
    let mut i = p;
    assert(acc.deep_view() =~= Seq::<LineView>::empty());
    loop
        invariant
            p <= i <= s.len(),
            alt matches Some(x) ==> x <= s.len(),
            lines_rep(s@, p as int, proto, Seq::empty(), None) == lines_rep(s@, i as int, proto, acc.deep_view(), opt_int(alt)),
        decreases s.len() - i,
    {
        match lex_line(s, i, proto) {
            Parsed::Done(v, q, a) => {
                let q2 = run_x(s, q, &Class::Newline);
                let ghost before = acc.deep_view();
                let ghost vv = v.deep_view();
                acc.push(v);
                assert(acc.deep_view() =~= before.push(vv));
                alt = amax_x(alt, amax_x(a, Some(q2)));
                i = q2;
            },
            Parsed::Fail(e) => {
                let al = amax_x(alt, Some(e));
                return Parsed::Done(acc, i, al);
            },
            Parsed::Panic => {
                return Parsed::Panic;
            },
        }
    }
}

/// A subsection: its metadata lines, then its lines. A key written again
/// in its metadata replaces the earlier value.
pub open spec fn g_subsection(s: Seq<char>, p: int, proto: bool) -> Pr<SubsectionView> {
    match metas_rep(s, p, proto, Seq::empty(), None) {
        Pr::Done(md, q, a) => match lines_rep(s, q, proto, Seq::empty(), None) {
            Pr::Done(ls, r, b) => Pr::Done(SubsectionView { metadata: assoc_fold(md), lines: ls }, r, amax(a, b)),
            Pr::Fail(e) => Pr::Fail(emax(e, a)),
            Pr::Panic => Pr::Panic,
        },
        Pr::Fail(e) => Pr::Fail(e),
        Pr::Panic => Pr::Panic,
    }
}

fn lex_subsection(s: &Vec<char>, p: usize, proto: bool) -> (r: Parsed<Subsection>)
    requires
        p <= s.len(),
    ensures
        parsed_is(r, g_subsection(s@, p as int, proto)),
        r matches Parsed::Done(_, e, a) ==> p <= e <= s.len() && (a matches Some(x) ==> x <= s.len()),
        !(r is Fail),
{
    match lex_metas(s, p, proto) {
        Parsed::Done(md, q, a) => match lex_lines(s, q, proto) {
            Parsed::Done(ls, r, b) => Parsed::Done(Subsection { metadata: fold_entries(md), lines: ls }, r, amax_x(a, b)),
            _ => Parsed::Panic,
        },
        _ => Parsed::Panic,
    }
}

/// A separator line: `--` and the rest of the line, with the line breaks
/// after it.
pub open spec fn g_separator(s: Seq<char>, p: int) -> Pr<()> {
    match g_just(s, p, seq!['-', '-']) {
        Pr::Done(_, q, _) => {
            let r1 = run(s, q, Class::MetaArgBar);
            let r2 = run(s, r1, Class::Newline);
            Pr::Done((), r2, amax(Some(r1), Some(r2)))
        },
        Pr::Fail(e) => Pr::Fail(e),
        Pr::Panic => Pr::Panic,
    }
}

fn lex_separator(s: &Vec<char>, p: usize) -> (r: Parsed<()>)
    requires
        p <= s.len(),
    ensures
        parsed_is(r, g_separator(s@, p as int)),
        r matches Parsed::Done(_, e, a) ==> p < e <= s.len() && (a matches Some(x) ==> x <= s.len()),
        r matches Parsed::Fail(e) ==> p <= e <= s.len(),
{
    proof {
        reveal_strlit("--");
    }
    assert("--"@ =~= seq!['-', '-']);
    match lex_just(s, p, "--") {
        Parsed::Done(_, q, _) => {
            let r1 = run_x(s, q, &Class::MetaArgBar);
            let r2 = run_x(s, r1, &Class::Newline);
            Parsed::Done((), r2, amax_x(Some(r1), Some(r2)))
        },
        Parsed::Fail(e) => Parsed::Fail(e),
        Parsed::Panic => Parsed::Panic,
    }
}

/// Subsections after a separator each, from `p` after `acc`.
pub open spec fn subs_rep(
    s: Seq<char>,
    p: int,
    proto: bool,
    acc: Seq<SubsectionView>,
    alt: Option<int>,
) -> Pr<Seq<SubsectionView>>
    decreases s.len() - p,
{
    match g_separator(s, p) {
        Pr::Done(_, t, d) => match g_subsection(s, t, proto) {
            Pr::Done(v, r, a) => if p < r <= s.len() {
                subs_rep(s, r, proto, acc.push(v), amax(amax(alt, d), a))
            } else {
                Pr::Panic
            },
            Pr::Fail(e) => Pr::Done(acc, p, amax(amax(alt, d), Some(e))),
            Pr::Panic => Pr::Panic,
        },
        Pr::Fail(e) => Pr::Done(acc, p, amax(alt, Some(e))),
        Pr::Panic => Pr::Panic,
    }
}

/// Subsections separated by separator lines.
pub open spec fn g_subsections(s: Seq<char>, p: int, proto: bool) -> Pr<Seq<SubsectionView>> {
    match g_subsection(s, p, proto) {
        Pr::Done(v, r, a) => subs_rep(s, r, proto, seq![v], a),
        Pr::Fail(e) => Pr::Done(Seq::empty(), p, Some(e)),
        Pr::Panic => Pr::Panic,
    }
}

pub(crate) fn lex_subsections(s: &Vec<char>, p: usize, proto: bool) -> (r: Parsed<Vec<Subsection>>)
    requires
        p <= s.len(),
    ensures
        parsed_is(r, g_subsections(s@, p as int, proto)),
        r matches Parsed::Done(_, e, a) ==> p <= e <= s.len() && (a matches Some(x) ==> x <= s.len()),
        !(r is Fail),
{
    let (v0, r0, a0) = match lex_subsection(s, p, proto) {
        Parsed::Done(v, r, a) => (v, r, a),
        _ => {
            return Parsed::Panic;
        },
    };
    let mut acc: Vec<Subsection> = Vec::new();
    let ghost v0v = v0.deep_view();
    acc.push(v0);
    assert(acc.deep_view() =~= seq![v0v]);
    let mut alt = a0;
    let mut i = r0;
    loop
        invariant
            p <= i <= s.len(),
            alt matches Some(x) ==> x <= s.len(),
            g_subsections(s@, p as int, proto) == subs_rep(s@, i as int, proto, acc.deep_view(), opt_int(alt)),
        decreases s.len() - i,
    {
        match lex_separator(s, i) {
            Parsed::Done(_, t, d) => match lex_subsection(s, t, proto) {
                Parsed::Done(v, r, a) => {
                    let ghost before = acc.deep_view();
                    let ghost vv = v.deep_view();
                    acc.push(v);
                    assert(acc.deep_view() =~= before.push(vv));
                    alt = amax_x(amax_x(alt, d), a);
                    i = r;
                },
                _ => {
                    return Parsed::Panic;
                },
            },
            Parsed::Fail(e) => {
                let al = amax_x(alt, Some(e));
                return Parsed::Done(acc, i, al);
            },
            Parsed::Panic => {
                return Parsed::Panic;
            },
        }
    }
}

// ----- sections and songs -----

/// A section: its header, line breaks, then its subsections.
pub open spec fn g_section(s: Seq<char>, p: int) -> Pr<SectionView> {
    match g_section_header(s, p) {
        Pr::Done(hd, q, a) => {
            let q1 = run(s, q, Class::Newline);
            match g_subsections(s, q1, false) {
                Pr::Done(ss, r, b) => Pr::Done(
                    SectionView { name: hd.0, description: hd.1, delta_tonic: 0, subsections: ss },
                    r,
                    amax(amax(a, Some(q1)), b),
                ),
                Pr::Fail(e) => Pr::Fail(emax(e, amax(a, Some(q1)))),
                Pr::Panic => Pr::Panic,
            }
        },
        Pr::Fail(e) => Pr::Fail(e),
        Pr::Panic => Pr::Panic,
    }
}

fn lex_section(s: &Vec<char>, p: usize) -> (r: Parsed<Section>)
    requires
        p <= s.len(),
    ensures
        parsed_is(r, g_section(s@, p as int)),
        r matches Parsed::Done(_, e, a) ==> p < e <= s.len() && (a matches Some(x) ==> x <= s.len()),
        r matches Parsed::Fail(e) ==> p <= e <= s.len(),
{
    match lex_section_header(s, p) {
        Parsed::Done(hd, q, a) => {
            let q1 = run_x(s, q, &Class::Newline);
            match lex_subsections(s, q1, false) {
                Parsed::Done(ss, r, b) => {
                    let (name, description) = hd;
                    Parsed::Done(
                        Section { name, description, delta_tonic: 0, subsections: ss },
                        r,
                        amax_x(amax_x(a, Some(q1)), b),
                    )
                },
                _ => Parsed::Panic,
            }
        },
        Parsed::Fail(e) => Parsed::Fail(e),
        Parsed::Panic => Parsed::Panic,
    }
}

/// Sections repeated from `p` after `acc`.
pub open spec fn sections_rep(s: Seq<char>, p: int, acc: Seq<SectionView>, alt: Option<int>) -> Pr<
    Seq<SectionView>,
>
    decreases s.len() - p,
{
    match g_section(s, p) {
        Pr::Done(v, q, a) => if p < q <= s.len() {
            sections_rep(s, q, acc.push(v), amax(alt, a))
        } else {
            Pr::Panic
        },
        Pr::Fail(e) => Pr::Done(acc, p, amax(alt, Some(e))),
        Pr::Panic => Pr::Panic,
    }
}

fn lex_sections(s: &Vec<char>, p: usize) -> (r: Parsed<Vec<Section>>)
    requires
        p <= s.len(),
    ensures
        parsed_is(r, sections_rep(s@, p as int, Seq::empty(), None)),
        r matches Parsed::Done(_, e, a) ==> p <= e <= s.len() && (a matches Some(x) ==> x <= s.len()),
        !(r is Fail),
{
    let mut acc: Vec<Section> = Vec::new();
    let mut alt: Option<usize> = None;
    let mut i = p;
    assert(acc.deep_view() =~= Seq::<SectionView>::empty());
    loop
        invariant
            p <= i <= s.len(),
            alt matches Some(x) ==> x <= s.len(),
            sections_rep(s@, p as int, Seq::empty(), None) == sections_rep(
                s@,
                i as int,
                acc.deep_view(),
                opt_int(alt),
            ),
        decreases s.len() - i,
    {
        match lex_section(s, i) {
            Parsed::Done(v, q, a) => {
                let ghost before = acc.deep_view();
                let ghost vv = v.deep_view();
                acc.push(v);
                assert(acc.deep_view() =~= before.push(vv));
                alt = amax_x(alt, a);
                i = q;
            },
            Parsed::Fail(e) => {
                let al = amax_x(alt, Some(e));
                return Parsed::Done(acc, i, al);
            },
            Parsed::Panic => {
                return Parsed::Panic;
            },
        }
    }
}

/// A head metadata line with the line breaks and bars after it.
pub open spec fn g_head_item(s: Seq<char>, p: int, proto: bool) -> Pr<KeyValue> {
    match g_meta_line(s, p, true, proto) {
        Pr::Done(kv, r, a) => {
            let q = run(s, r, Class::NewlineBar);
            Pr::Done(kv, q, amax(a, Some(q)))
        },
        Pr::Fail(e) => Pr::Fail(e),
        Pr::Panic => Pr::Panic,
    }
}

/// Head metadata lines from `p` after `acc`.
pub open spec fn head_rep(s: Seq<char>, p: int, proto: bool, acc: Seq<KeyValue>, alt: Option<int>) -> Pr<
    Seq<KeyValue>,
>
    decreases s.len() - p,
{
    match g_head_item(s, p, proto) {
        Pr::Done(v, q, a) => if p < q <= s.len() {
            head_rep(s, q, proto, acc.push(v), amax(alt, a))
        } else {
            Pr::Panic
        },
        Pr::Fail(e) => Pr::Done(acc, p, amax(alt, Some(e))),
        Pr::Panic => Pr::Panic,
    }
}

pub(crate) fn lex_head(s: &Vec<char>, p: usize, proto: bool) -> (r: Parsed<Vec<(String, String)>>)
    requires
        p <= s.len(),
    ensures
        parsed_is(r, head_rep(s@, p as int, proto, Seq::empty(), None)),
        r matches Parsed::Done(_, e, a) ==> p <= e <= s.len() && (a matches Some(x) ==> x <= s.len()),
        !(r is Fail),
{
    let mut acc: Vec<(String, String)> = Vec::new();
    let mut alt: Option<usize> = None;
    let mut i = p;
    assert(acc.deep_view() =~= Seq::<KeyValue>::empty());
    loop
        invariant
            p <= i <= s.len(),
            alt matches Some(x) ==> x <= s.len(),
            head_rep(s@, p as int, proto, Seq::empty(), None) == head_rep(s@, i as int, proto, acc.deep_view(), opt_int(alt)),
        decreases s.len() - i,
    {
        match lex_meta_line(s, i, true, proto) {
            Parsed::Done(kv, r, a) => {
                let q = run_x(s, r, &Class::NewlineBar);
                let ghost before = acc.deep_view();
                let ghost kvv = kv.deep_view();
                acc.push(kv);
                assert(acc.deep_view() =~= before.push(kvv));
                alt = amax_x(alt, amax_x(a, Some(q)));
                i = q;
            },
            Parsed::Fail(e) => {
                let al = amax_x(alt, Some(e));
                return Parsed::Done(acc, i, al);
            },
            Parsed::Panic => {
                return Parsed::Panic;
            },
        }
    }
}

/// A whole song text: head metadata between whitespace, then sections, then
/// the end of the text. A rejected text fails at the furthest position any
/// rule failed at on the way.
pub closed spec fn g_song(s: Seq<char>) -> Pr<(Seq<KeyValue>, Seq<SectionView>)> {
    let w1 = run(s, 0, Class::White);
    match head_rep(s, w1, false, Seq::empty(), None) {
        Pr::Done(md, q, a) => {
            let w2 = run(s, q, Class::White);
            match sections_rep(s, w2, Seq::empty(), None) {
                Pr::Done(secs, r, b) => if r == s.len() {
                    Pr::Done((md, secs), r, amax(a, b))
                } else {
                    Pr::Fail(emax(r, amax(a, b)))
                },
                Pr::Fail(e) => Pr::Fail(emax(e, a)),
                Pr::Panic => Pr::Panic,
            }
        },
        Pr::Fail(e) => Pr::Fail(e),
        Pr::Panic => Pr::Panic,
    }
}

pub(crate) fn lex_song(s: &Vec<char>) -> (r: Parsed<(Vec<(String, String)>, Vec<Section>)>)
    ensures
        parsed_is(r, g_song(s@)),
        r matches Parsed::Fail(e) ==> e <= s.len(),
{
    let w1 = run_x(s, 0, &Class::White);
    match lex_head(s, w1, false) {
        Parsed::Done(md, q, a) => {
            let w2 = run_x(s, q, &Class::White);
            match lex_sections(s, w2) {
                Parsed::Done(secs, r, b) => if r == s.len() {
                    Parsed::Done((md, secs), r, amax_x(a, b))
                } else {
                    Parsed::Fail(emax_x(r, amax_x(a, b)))
                },
                _ => Parsed::Panic,
            }
        },
        _ => Parsed::Panic,
    }
}

} // verus!
