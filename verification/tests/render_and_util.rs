use shibim::base::{ChordAlterationKind, ChordKeyword, CompiledSong, MusicEvent, SongRef, Subsection, TimeOffset, TonicKind};
use shibim::render::{
    alteration_label, chord_keyword_name, flat_tonic_name, get_default_order, get_orders_serialized, is_chorus,
    keyword_is_short, paren_state, root_spelling, sharp_tonic_name, subsection_ref, time_mark, TimeMark,
};
use shibim::song_parse::parse_song;
use shibim::text::is_float_text;
use shibim::toneutil::{get_default_use_flat, is_altered};
use shibim::util::Itertools;

fn song_with_orders(orders: Vec<(&str, Vec<usize>)>) -> shibim::base::Song {
    let mut song = shibim::base::Song::default();
    song.orders = orders.into_iter().map(|(k, v)| (k.to_string(), v)).collect();
    song
}

#[test]
fn altered_pitch_classes() {
    assert!(is_altered(1));
    assert!(is_altered(13));
    assert!(is_altered(10));
    assert!(!is_altered(0));
    assert!(!is_altered(4));
    assert!(!is_altered(11));
}

#[test]
fn flat_tonics() {
    assert!(get_default_use_flat(3));
    assert!(get_default_use_flat(10));
    assert!(!get_default_use_flat(7));
    assert!(!get_default_use_flat(1));
}

#[test]
fn tonic_names() {
    assert_eq!(sharp_tonic_name(1), "C");
    assert_eq!(flat_tonic_name(1), "D");
    assert_eq!(sharp_tonic_name(11), "B");
    assert_eq!(flat_tonic_name(6), "G");
}

#[test]
fn root_spelling_uses_accidentals_on_black_keys() {
    assert_eq!(root_spelling(1, true), ("D", Some("b")));
    assert_eq!(root_spelling(1, false), ("C", Some("#")));
    assert_eq!(root_spelling(0, true), ("C", None));
    assert_eq!(root_spelling(11, true), ("B", None));
    assert_eq!(root_spelling(8, true), ("A", Some("b")));
}

#[test]
fn time_marks() {
    assert_eq!(time_mark(&TimeOffset { beat: -1, num: 1, den: 2 }), TimeMark::Before);
    assert_eq!(time_mark(&TimeOffset { beat: -1, num: 1, den: 4 }), TimeMark::BeforeFraction(1, 4));
    assert_eq!(time_mark(&TimeOffset { beat: 3, num: 0, den: 0 }), TimeMark::Beat(3));
    assert_eq!(time_mark(&TimeOffset { beat: 1, num: 1, den: 2 }), TimeMark::BeatHalf(1));
    assert_eq!(time_mark(&TimeOffset { beat: 2, num: 0, den: 1 }), TimeMark::BeatFraction(2, 0, 1));
}

#[test]
fn keyword_labels() {
    assert_eq!(chord_keyword_name(ChordKeyword::Maj), Some("Δ"));
    assert_eq!(chord_keyword_name(ChordKeyword::Add11), Some("add11"));
    assert_eq!(chord_keyword_name(ChordKeyword::K5), None);
    assert!(keyword_is_short(ChordKeyword::K7));
    assert!(keyword_is_short(ChordKeyword::K5));
    assert!(!keyword_is_short(ChordKeyword::Sus4));
    assert_eq!(alteration_label(ChordAlterationKind::No), "no");
    assert_eq!(alteration_label(ChordAlterationKind::Flat), "b");
    assert_eq!(alteration_label(ChordAlterationKind::Sharp), "#");
}

#[test]
fn parentheses_state() {
    assert!(paren_state(false, &MusicEvent::OpenParen));
    assert!(!paren_state(true, &MusicEvent::CloseParen));
    assert!(paren_state(true, &MusicEvent::RepeatMeasure));
    assert!(!paren_state(false, &MusicEvent::RepeatMeasure));
}

#[test]
fn chorus_sections() {
    assert!(is_chorus("C1"));
    assert!(!is_chorus("V1"));
    assert!(!is_chorus(""));
}

#[test]
fn subsection_ref_takes_last_entry() {
    let sub = Subsection {
        metadata: vec![
            ("ref".to_string(), "A".to_string()),
            ("x".to_string(), "y".to_string()),
            ("ref".to_string(), "B".to_string()),
        ],
        lines: Vec::new(),
    };
    assert_eq!(subsection_ref(&sub).map(|s| s.as_str()), Some("B"));
    let empty = Subsection { metadata: Vec::new(), lines: Vec::new() };
    assert!(subsection_ref(&empty).is_none());
}

#[test]
fn default_order_prefers_default_then_full() {
    let s = song_with_orders(vec![("full", vec![0, 1]), ("default", vec![1])]);
    assert_eq!(get_default_order(&s), Some(("default", &vec![1])));
    let s = song_with_orders(vec![("a", vec![0]), ("full", vec![2])]);
    assert_eq!(get_default_order(&s), Some(("full", &vec![2])));
    let s = song_with_orders(vec![("b", vec![3]), ("b", vec![4])]);
    assert_eq!(get_default_order(&s), Some(("b", &vec![4])));
    let s = song_with_orders(vec![]);
    assert_eq!(get_default_order(&s), None);
}

#[test]
fn orders_serialized_as_json_list() {
    let s = song_with_orders(vec![("a", vec![0]), ("b", vec![1]), ("a", vec![2])]);
    assert_eq!(get_orders_serialized(&s), "[\"a\",\"b\"]");
    let s = song_with_orders(vec![("say \"hi\"", vec![])]);
    assert_eq!(get_orders_serialized(&s), "[\"say \\\"hi\\\"\"]");
    let s = song_with_orders(vec![]);
    assert_eq!(get_orders_serialized(&s), "[]");
    let s = song_with_orders(vec![("a\tb\u{1}/\\", vec![]), ("ñ", vec![])]);
    assert_eq!(get_orders_serialized(&s), "[\"a\\tb\\u0001/\\\\\",\"ñ\"]");
}

#[test]
fn partition_keeps_order_and_loses_nothing() {
    let v = vec![1, 2, 3, 4, 5];
    let (evens, odds): (Vec<i32>, Vec<i32>) = v.partition_result(|x| if x % 2 == 0 { Ok(x) } else { Err(x) });
    assert_eq!(evens, vec![2, 4]);
    assert_eq!(odds, vec![1, 3, 5]);
    let empty: Vec<i32> = Vec::new();
    let (a, b): (Vec<i32>, Vec<i32>) = empty.partition_result(|x| Ok(x));
    assert!(a.is_empty() && b.is_empty());
}

#[test]
fn float_text() {
    assert!(is_float_text("120"));
    assert!(is_float_text("1.5e3"));
    assert!(is_float_text("-0.5"));
    assert!(is_float_text("inf"));
    assert!(is_float_text("NaN"));
    assert!(!is_float_text("abc"));
    assert!(!is_float_text(""));
    assert!(!is_float_text("1,5"));
}

#[test]
fn compiled_song_keeps_rendered_parts() {
    let mut w = Vec::new();
    let song = parse_song("tonic: Em\n@V1\nla\n", &mut w).unwrap();
    let r = SongRef::from(&song);
    assert_eq!(r.tonic, 7);
    assert_eq!(r.sections.len(), 1);
    let c = CompiledSong::from(song);
    assert_eq!(c.tonic, 7);
    assert!(matches!(c.tonic_kind, TonicKind::Minor));
    assert_eq!(c.sections.len(), 1);
    assert_eq!(c.sections[0].name, "V1");
    let r2 = SongRef::from(&c);
    assert_eq!(r2.name, "");
}

#[test]
fn english_day_names() {
    assert_eq!(shibim::render::en_text("Mon"), Some("Mon"));
    assert_eq!(shibim::render::en_text("Sun"), Some("Sat"));
    assert_eq!(shibim::render::en_text("Xyz"), None);
}
