//! Copies of song parts that are equal to the original in their deep view.
//! (A derived `clone` promises nothing that a contract could use.)

use vstd::prelude::*;
use crate::base::{
    ChordEvent, ChordModifier, Line, LyricEvent, Metadata, MusicEvent, Section, Subsection,
};

verus! {

/// Copies each item of `v` with `f`, in order.
fn copy_vec<T: DeepView, F: Fn(&T) -> T>(v: &Vec<T>, f: F) -> (r: Vec<T>)
    requires
        forall|x: &T| call_requires(f, (x,)),
        forall|x: &T, y: T| #[trigger] call_ensures(f, (x,), y) ==> y.deep_view() == x.deep_view(),
    ensures
        r.deep_view() == v.deep_view(),
{
    let mut r: Vec<T> = Vec::new();
    let mut i: usize = 0;
    while i < v.len()
        invariant
            i <= v.len(),
            r.len() == i,
            forall|x: &T| call_requires(f, (x,)),
            forall|x: &T, y: T| #[trigger] call_ensures(f, (x,), y) ==> y.deep_view() == x.deep_view(),
            forall|j: int| 0 <= j < i ==> (#[trigger] r@[j]).deep_view() == v@[j].deep_view(),
        decreases v.len() - i,
    {
        let y = f(&v[i]);
        r.push(y);
        i = i + 1;
    }
    assert(r.deep_view() =~= v.deep_view());
    r
}

/// Copies an optional value with `f`.
fn copy_opt<T: DeepView, F: Fn(&T) -> T>(v: &Option<T>, f: F) -> (r: Option<T>)
    requires
        forall|x: &T| call_requires(f, (x,)),
        forall|x: &T, y: T| #[trigger] call_ensures(f, (x,), y) ==> y.deep_view() == x.deep_view(),
    ensures
        r.deep_view() == v.deep_view(),
{
    match v {
        Some(x) => Some(f(x)),
        None => None,
    }
}

fn copy_string(s: &String) -> (r: String)
    ensures
        r@ == s@,
{
    s.clone()
}

fn copy_modifier(m: &ChordModifier) -> (r: ChordModifier)
    ensures
        r.deep_view() == m.deep_view(),
{
    *m
}

fn copy_note(n: &u8) -> (r: u8)
    ensures
        r == *n,
{
    *n
}

fn copy_chord(c: &ChordEvent) -> (r: ChordEvent)
    ensures
        r.deep_view() == c.deep_view(),
{
    let modifier = copy_vec(&c.modifier, copy_modifier);
    assert(modifier@ =~= c.modifier@) by {
        assert(modifier@.len() == modifier.deep_view().len());
        assert forall|j: int| 0 <= j < modifier@.len() implies modifier@[j] == c.modifier@[j] by {
            assert(modifier.deep_view()[j] == c.modifier.deep_view()[j]);
        }
    }
    ChordEvent { root: c.root, bass: c.bass, kind: c.kind, modifier, time: c.time }
}

fn copy_lyric_event(e: &LyricEvent) -> (r: LyricEvent)
    ensures
        r.deep_view() == e.deep_view(),
{
    match e {
        LyricEvent::LyricText(s) => LyricEvent::LyricText(copy_string(s)),
        LyricEvent::LyricBreak => LyricEvent::LyricBreak,
    }
}

fn copy_music_event(e: &MusicEvent) -> (r: MusicEvent)
    ensures
        r.deep_view() == e.deep_view(),
{
    match e {
        MusicEvent::ChordEvent(c) => MusicEvent::ChordEvent(copy_chord(c)),
        MusicEvent::RepeatMeasure => MusicEvent::RepeatMeasure,
        MusicEvent::StartRepeat => MusicEvent::StartRepeat,
        MusicEvent::EndRepeat => MusicEvent::EndRepeat,
        MusicEvent::OpenParen => MusicEvent::OpenParen,
        MusicEvent::CloseParen => MusicEvent::CloseParen,
        MusicEvent::NumberedMeasure(n) => MusicEvent::NumberedMeasure(*n),
        MusicEvent::Annotation(s) => MusicEvent::Annotation(copy_string(s)),
        MusicEvent::MelodyEvent(m) => {
            let notes = copy_vec(m, copy_note);
            assert(notes@ =~= m@) by {
                assert(notes@.len() == notes.deep_view().len());
                assert forall|j: int| 0 <= j < notes@.len() implies notes@[j] == m@[j] by {
                    assert(notes.deep_view()[j] == m.deep_view()[j]);
                }
            }
            MusicEvent::MelodyEvent(notes)
        },
    }
}

fn copy_lyric_seq(v: &Vec<LyricEvent>) -> (r: Vec<LyricEvent>)
    ensures
        r.deep_view() == v.deep_view(),
{
    copy_vec(v, copy_lyric_event)
}

fn copy_music_seq(v: &Vec<MusicEvent>) -> (r: Vec<MusicEvent>)
    ensures
        r.deep_view() == v.deep_view(),
{
    copy_vec(v, copy_music_event)
}

fn copy_lyric_block(v: &Vec<Vec<LyricEvent>>) -> (r: Vec<Vec<LyricEvent>>)
    ensures
        r.deep_view() == v.deep_view(),
{
    copy_vec(v, copy_lyric_seq)
}

fn copy_music_block(v: &Vec<Vec<MusicEvent>>) -> (r: Vec<Vec<MusicEvent>>)
    ensures
        r.deep_view() == v.deep_view(),
{
    copy_vec(v, copy_music_seq)
}

fn copy_pair(p: &(Vec<MusicEvent>, Vec<LyricEvent>)) -> (r: (Vec<MusicEvent>, Vec<LyricEvent>))
    ensures
        r.deep_view() == p.deep_view(),
{
    (copy_music_seq(&p.0), copy_lyric_seq(&p.1))
}

fn copy_pair_block(v: &Vec<(Vec<MusicEvent>, Vec<LyricEvent>)>) -> (r: Vec<(Vec<MusicEvent>, Vec<LyricEvent>)>)
    ensures
        r.deep_view() == v.deep_view(),
{
    copy_vec(v, copy_pair)
}

fn copy_lyric_measure(v: &Option<Vec<Vec<LyricEvent>>>) -> (r: Option<Vec<Vec<LyricEvent>>>)
    ensures
        r.deep_view() == v.deep_view(),
{
    copy_opt(v, copy_lyric_block)
}

fn copy_music_measure(v: &Option<Vec<Vec<MusicEvent>>>) -> (r: Option<Vec<Vec<MusicEvent>>>)
    ensures
        r.deep_view() == v.deep_view(),
{
    copy_opt(v, copy_music_block)
}

fn copy_pair_measure(v: &Option<Vec<(Vec<MusicEvent>, Vec<LyricEvent>)>>) -> (r: Option<Vec<(Vec<MusicEvent>, Vec<LyricEvent>)>>)
    ensures
        r.deep_view() == v.deep_view(),
{
    copy_opt(v, copy_pair_block)
}

fn copy_line(l: &Line) -> (r: Line)
    ensures
        r.deep_view() == l.deep_view(),
{
    match l {
        Line::Lyrics(v) => Line::Lyrics(copy_vec(v, copy_lyric_measure)),
        Line::Chords(v) => Line::Chords(copy_vec(v, copy_music_measure)),
        Line::Mixed(v) => Line::Mixed(copy_vec(v, copy_pair_measure)),
    }
}

fn copy_entry(e: &(String, String)) -> (r: (String, String))
    ensures
        r.deep_view() == e.deep_view(),
{
    (copy_string(&e.0), copy_string(&e.1))
}

fn copy_subsection(s: &Subsection) -> (r: Subsection)
    ensures
        r.deep_view() == s.deep_view(),
{
    let metadata: Metadata = copy_vec(&s.metadata, copy_entry);
    Subsection { metadata, lines: copy_vec(&s.lines, copy_line) }
}

fn copy_section(s: &Section) -> (r: Section)
    ensures
        r.deep_view() == s.deep_view(),
{
    Section {
        name: copy_string(&s.name),
        description: copy_string(&s.description),
        delta_tonic: s.delta_tonic,
        subsections: copy_vec(&s.subsections, copy_subsection),
    }
}

/// A copy of a song's sections, equal to them in deep view.
pub fn copy_sections(v: &Vec<Section>) -> (r: Vec<Section>)
    ensures
        r.deep_view() == v.deep_view(),
{
    copy_vec(v, copy_section)
}

} // verus!
