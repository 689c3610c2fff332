//! The prototype dialect of the song grammar and the demo song it was
//! tried on: identifiers without `_`, section names split into their kind,
//! number and version, no parentheses among music events, absent measures
//! kept absent, and no requirement to reach the end of the text.

use vstd::prelude::*;
use crate::keyed::{assoc_fold, fold_entries};
#[allow(unused_imports)]
use vstd::string::*;
use crate::base::{NoteHeight, SectionName, Subsection, SubsectionView};
use crate::parser::digits_value;
use crate::grammar::{Pr, Parsed, parsed_is, opt_int, amax, amax_x, Class, run, run_x, chars_between,
    g_meta_arg, lex_meta_arg};
use crate::grammar_music::{cap, digits_capped, lemma_run_digits};
use crate::grammar_sections::{KeyValue, head_rep, lex_head, g_subsections, lex_subsections};
use crate::song_parse::chars_of;

verus! {

/// The song text that the prototype grammar was tried on.
pub const DEMO_SONG: &'static str = r#"
name: A Dios Sea La Gloria |E
tonic: C
@I1 Intro (aprox.)
Am·|%·|Fm·|Gsus4 G13·

@E1 Como agradecer	
|C·Cómo he de expres|Em/B·ar
Lo que |C7/Bb·Dios por mí ha |Asus4 A7·hecho
|Dm·Que sin mer|F·ecer`(C/E?)·
Dio |Dm·su sangre `G7· `carme|C·sí`G7·

@C1 Carísimos Ñ
--!ref: Read the manua | h:ood
--!plz: please.
Now, I present|·Cm
|A little|G·thing`asd`G·`hadoop
||
----
Good morin
----
--!ref:PIZAA!
Hello|G·est'there|sad^a`D·Ds"#;

pub ghost struct SectionNameView {
    pub kind: Seq<char>,
    pub number: u16,
    pub version: Seq<char>,
}

impl DeepView for SectionName {
    type V = SectionNameView;

    open spec fn deep_view(&self) -> SectionNameView {
        SectionNameView { kind: self.kind@, number: self.number, version: self.version@ }
    }
}

/// A section of the prototype dialect: its name split into parts.
#[derive(Debug)]
pub struct PrototypeSection {
    pub name: SectionName,
    pub description: String,
    pub delta_tonic: NoteHeight,
    pub subsections: Vec<Subsection>,
}

pub ghost struct PrototypeSectionView {
    pub name: SectionNameView,
    pub description: Seq<char>,
    pub delta_tonic: NoteHeight,
    pub subsections: Seq<SubsectionView>,
}

impl DeepView for PrototypeSection {
    type V = PrototypeSectionView;

    open spec fn deep_view(&self) -> PrototypeSectionView {
        PrototypeSectionView {
            name: self.name.deep_view(),
            description: self.description@,
            delta_tonic: self.delta_tonic,
            subsections: self.subsections.deep_view(),
        }
    }
}

/// A section name: letters, then up to three digits read as its number,
/// then letters and digits. Without digits the prototype aborts.
pub open spec fn g_proto_name(s: Seq<char>, p: int) -> Pr<SectionNameView> {
    let q1 = run(s, p, Class::Alpha);
    if q1 == p {
        Pr::Fail(p)
    } else {
        let d = run(s, q1, Class::Digit);
        let q2 = if d > q1 + 3 { q1 + 3 } else { d };
        if q2 == q1 {
            Pr::Panic
        } else {
            let q3 = run(s, q2, Class::Alnum);
            Pr::Done(
                SectionNameView {
                    kind: s.subrange(p, q1),
                    number: cap(digits_value(s.subrange(q1, q2))) as u16,
                    version: s.subrange(q2, q3),
                },
                q3,
                Some(q3),
            )
        }
    }
}

fn lex_proto_name(s: &Vec<char>, p: usize) -> (r: Parsed<SectionName>)
    requires
        p <= s.len(),
    ensures
        parsed_is(r, g_proto_name(s@, p as int)),
        r matches Parsed::Done(_, e, a) ==> p < e <= s.len() && (a matches Some(x) ==> x <= s.len()),
        r matches Parsed::Fail(e) ==> p <= e <= s.len(),
{
    let q1 = run_x(s, p, &Class::Alpha);
    if q1 == p {
        return Parsed::Fail(p);
    }
    let d = run_x(s, q1, &Class::Digit);
    let q2 = if d - q1 > 3 { q1 + 3 } else { d };
    if q2 == q1 {
        return Parsed::Panic;
    }
    proof {
        lemma_run_digits(s@, q1 as int);
    }
    let number = digits_capped(s, q1, q2);
    let q3 = run_x(s, q2, &Class::Alnum);
    let name = SectionName {
        kind: chars_between(s, p, q1),
        number: number as u16,
        version: chars_between(s, q2, q3),
    };
    Parsed::Done(name, q3, Some(q3))
}

/// A prototype section: `@`, its name and description, line breaks, then
/// its subsections.
pub open spec fn g_proto_section(s: Seq<char>, p: int) -> Pr<PrototypeSectionView> {
    if 0 <= p < s.len() && s[p] == '@' {
        match g_proto_name(s, p + 1) {
            Pr::Done(nm, q, _) => match g_meta_arg(s, q, false) {
                Pr::Done(d, r, _) => {
                    let q1 = run(s, r, Class::Newline);
                    match g_subsections(s, q1, true) {
                        Pr::Done(ss, r2, b) => Pr::Done(
                            PrototypeSectionView {
                                name: nm,
                                description: d,
                                delta_tonic: 0,
                                subsections: ss,
                            },
                            r2,
                            amax(Some(q1), b),
                        ),
                        Pr::Fail(e) => Pr::Fail(e),
                        Pr::Panic => Pr::Panic,
                    }
                },
                _ => Pr::Panic,
            },
            Pr::Fail(e) => Pr::Fail(e),
            Pr::Panic => Pr::Panic,
        }
    } else {
        Pr::Fail(p)
    }
}

fn lex_proto_section(s: &Vec<char>, p: usize) -> (r: Parsed<PrototypeSection>)
    requires
        p <= s.len(),
    ensures
        parsed_is(r, g_proto_section(s@, p as int)),
        r matches Parsed::Done(_, e, a) ==> p < e <= s.len() && (a matches Some(x) ==> x <= s.len()),
        r matches Parsed::Fail(e) ==> p <= e <= s.len(),
{
    if !(p < s.len() && s[p] == '@') {
        return Parsed::Fail(p);
    }
    match lex_proto_name(s, p + 1) {
        Parsed::Done(nm, q, _) => match lex_meta_arg(s, q, false) {
            Parsed::Done(d, r, _) => {
                let q1 = run_x(s, r, &Class::Newline);
                match lex_subsections(s, q1, true) {
                    Parsed::Done(ss, r2, b) => Parsed::Done(
                        PrototypeSection { name: nm, description: d, delta_tonic: 0, subsections: ss },
                        r2,
                        amax_x(Some(q1), b),
                    ),
                    _ => Parsed::Panic,
                }
            },
            _ => Parsed::Panic,
        },
        Parsed::Fail(e) => Parsed::Fail(e),
        Parsed::Panic => Parsed::Panic,
    }
}

/// Prototype sections repeated from `p` after `acc`.
pub open spec fn proto_sections_rep(
    s: Seq<char>,
    p: int,
    acc: Seq<PrototypeSectionView>,
    alt: Option<int>,
) -> Pr<Seq<PrototypeSectionView>>
    decreases s.len() - p,
{
    match g_proto_section(s, p) {
        Pr::Done(v, q, a) => if p < q <= s.len() {
            proto_sections_rep(s, q, acc.push(v), amax(alt, a))
        } else {
            Pr::Panic
        },
        Pr::Fail(e) => Pr::Done(acc, p, amax(alt, Some(e))),
        Pr::Panic => Pr::Panic,
    }
}

fn lex_proto_sections(s: &Vec<char>, p: usize) -> (r: Parsed<Vec<PrototypeSection>>)
    requires
        p <= s.len(),
    ensures
        parsed_is(r, proto_sections_rep(s@, p as int, Seq::empty(), None)),
        r matches Parsed::Done(_, e, a) ==> p <= e <= s.len() && (a matches Some(x) ==> x <= s.len()),
        !(r is Fail),
{
    let mut acc: Vec<PrototypeSection> = Vec::new();
    let mut alt: Option<usize> = None;
    let mut i = p;
    assert(acc.deep_view() =~= Seq::<PrototypeSectionView>::empty());
    loop
        invariant
            p <= i <= s.len(),
            alt matches Some(x) ==> x <= s.len(),
            proto_sections_rep(s@, p as int, Seq::empty(), None) == proto_sections_rep(
                s@,
                i as int,
                acc.deep_view(),
                opt_int(alt),
            ),
        decreases s.len() - i,
    {
        match lex_proto_section(s, i) {
            Parsed::Done(v, q, a) => {
                let ghost before = acc.deep_view();
                let ghost vv = v.deep_view();
                acc.push(v);
                assert(acc.deep_view() =~= before.push(vv));
                alt = amax_x(alt, a);
                i = q;
            },
            Parsed::Fail(e) => {
                let al = amax_x(alt, Some(e));
                return Parsed::Done(acc, i, al);
            },
            Parsed::Panic => {
                return Parsed::Panic;
            },
        }
    }
}

/// A text read with the prototype grammar: head metadata between
/// whitespace (a key written again replacing the earlier value), then
/// sections, as far as they go.
pub open spec fn g_proto_song(s: Seq<char>) -> Pr<(Seq<KeyValue>, Seq<PrototypeSectionView>)> {
    let w1 = run(s, 0, Class::White);
    match head_rep(s, w1, true, Seq::empty(), None) {
        Pr::Done(md, q, a) => {
            let w2 = run(s, q, Class::White);
            match proto_sections_rep(s, w2, Seq::empty(), None) {
                Pr::Done(secs, r, b) => Pr::Done((assoc_fold(md), secs), r, amax(a, b)),
                Pr::Fail(e) => Pr::Fail(e),
                Pr::Panic => Pr::Panic,
            }
        },
        Pr::Fail(e) => Pr::Fail(e),
        Pr::Panic => Pr::Panic,
    }
}

/// The head metadata and the sections that the prototype grammar reads from
/// a text; `None` on the texts on which the prototype aborts.
pub fn parse_prototype(s: &str) -> (r: Option<(Vec<(String, String)>, Vec<PrototypeSection>)>)
    ensures
        match g_proto_song(s@) {
            Pr::Done(v, _, _) => r matches Some(x) && x.deep_view() == v,
            Pr::Fail(_) => false,
            Pr::Panic => r is None,
        },
{
    let chars = chars_of(s);
    let w1 = run_x(&chars, 0, &Class::White);
    match lex_head(&chars, w1, true) {
        Parsed::Done(md, q, _) => {
            let w2 = run_x(&chars, q, &Class::White);
            match lex_proto_sections(&chars, w2) {
                Parsed::Done(secs, _, _) => Some((fold_entries(md), secs)),
                _ => None,
            }
        },
        _ => None,
    }
}

/// The prototype's demonstration: what the prototype grammar reads from
/// the demo song. The argument is not read.
pub fn parse_identifier(_input: &str) -> (r: Option<(Vec<(String, String)>, Vec<PrototypeSection>)>)
    ensures
        match g_proto_song(DEMO_SONG@) {
            Pr::Done(v, _, _) => r matches Some(x) && x.deep_view() == v,
            Pr::Fail(_) => false,
            Pr::Panic => r is None,
        },
{
    parse_prototype(DEMO_SONG)
}

} // verus!
