//! Properties of pitch classes used when spelling chords.

use vstd::prelude::*;
use crate::base::{letter_pitch, NoteHeight};

verus! {

/// The pitch class `a % 12` is a black key of the piano (C#, D#, F#, G#, A#).
pub open spec fn spec_is_altered(a: NoteHeight) -> bool {
    let p = a % 12;
    p == 1 || p == 3 || p == 6 || p == 8 || p == 10
}

/// Whether the note is an altered (sharp or flat) pitch class.
pub fn is_altered(a: NoteHeight) -> (r: bool)
    ensures
        r == spec_is_altered(a),
{
    let a = a % 12;
    assert(a & 1 == a % 2) by (bit_vector);
    if a < 5 {
        a & 1 == 1
    } else {
        a & 1 == 0
    }
}

/// A note is altered exactly when no note letter names its pitch class: the
/// black keys C#, D#, F#, G#, A# are altered, the white keys C, D, E, F, G,
/// A, B are not.
pub proof fn lemma_altered_is_unnamed(a: NoteHeight)
    ensures
        spec_is_altered(a) == !(exists|c: char| letter_pitch(c) == Some((a % 12) as int)),
{
    let p = (a % 12) as int;
    if !spec_is_altered(a) {
        let c = if p == 0 {
            'C'
        } else if p == 2 {
            'D'
        } else if p == 4 {
            'E'
        } else if p == 5 {
            'F'
        } else if p == 7 {
            'G'
        } else if p == 9 {
            'A'
        } else {
            'B'
        };
        assert(letter_pitch(c) == Some(p));
    }
}

/// Tonics whose key signature is usually written with flats: Eb, F, Ab, Bb.
pub open spec fn spec_default_use_flat(a: NoteHeight) -> bool {
    a == 3 || a == 5 || a == 8 || a == 10
}

/// Whether chords in a song with this tonic are spelled with flats.
pub fn get_default_use_flat(a: NoteHeight) -> (r: bool)
    ensures
        r == spec_default_use_flat(a),
{
    a == 3 || a == 5 || a == 8 || a == 10
}

} // verus!
