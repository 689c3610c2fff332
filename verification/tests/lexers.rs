use shibim::base::{ChordAlterationKind, ChordKeyword, ChordKind, ChordModifier, MusicEvent, SHBErrorKind, TonicKind};
use shibim::parser::{
    parse_chord, parse_keyword, parse_literal, parse_music_block, parse_music_event, parse_simple_melody,
    parse_time_offset, parse_tonality, parse_tone_root, parse_uint_until, seek,
};

#[test]
fn tone_root_reads_sharps_and_flats() {
    assert_eq!(parse_tone_root("C#m7"), Some((1, "m7")));
    assert_eq!(parse_tone_root("Bb"), Some((10, "")));
    assert_eq!(parse_tone_root("E"), Some((4, "")));
    assert_eq!(parse_tone_root("Fb"), Some((4, "")));
    assert_eq!(parse_tone_root("B#"), Some((12, "")));
}

#[test]
fn tone_root_rejects_other_letters() {
    assert_eq!(parse_tone_root("H"), None);
    assert_eq!(parse_tone_root(""), None);
    assert_eq!(parse_tone_root("c"), None);
}

#[test]
fn tonality_reads_minor_mark() {
    assert!(matches!(parse_tonality("Am"), Some((9, TonicKind::Minor))));
    assert!(matches!(parse_tonality("F#"), Some((6, TonicKind::Major))));
    assert!(matches!(parse_tonality("x"), None));
}

#[test]
fn literal_reads_quoted_text() {
    assert_eq!(parse_literal("\"Intro\" rest"), Some(("Intro".to_string(), " rest")));
    assert_eq!(parse_literal("abc"), None);
    assert_eq!(parse_literal("\"open"), None);
    assert_eq!(parse_literal("\"\""), Some((String::new(), "")));
}

#[test]
fn uint_reads_leading_digits() {
    assert_eq!(parse_uint_until("123abc"), Some((123, "abc")));
    assert_eq!(parse_uint_until("7"), Some((7, "")));
    assert_eq!(parse_uint_until("abc"), None);
    assert_eq!(parse_uint_until(""), None);
}

#[test]
fn seek_strips_prefix() {
    assert_eq!(seek("hello", "he"), Some("llo"));
    assert_eq!(seek("he", "hello"), None);
    assert_eq!(seek("hello", "lo"), None);
    assert_eq!(seek("abc", ""), Some("abc"));
}

#[test]
fn time_offset_forms() {
    let (t, rest) = parse_time_offset("2+1,3C").unwrap();
    assert_eq!((t.beat, t.num, t.den, rest), (2, 1, 3, "C"));
    let (t, rest) = parse_time_offset("<C").unwrap();
    assert_eq!((t.beat, t.num, t.den, rest), (-1, 1, 2, "C"));
    let (t, rest) = parse_time_offset("-1'G").unwrap();
    assert_eq!((t.beat, t.num, t.den, rest), (-1, 1, 2, "G"));
    let (t, rest) = parse_time_offset("3G").unwrap();
    assert_eq!((t.beat, t.num, t.den, rest), (3, 0, 1, "G"));
    assert!(parse_time_offset("G").is_none());
}

#[test]
fn keyword_forms() {
    let (m, rest) = parse_keyword("add9x").unwrap();
    assert!(matches!(m, ChordModifier::Keyword(ChordKeyword::Add9)));
    assert_eq!(rest, "x");
    let (m, rest) = parse_keyword("Maj7").unwrap();
    assert!(matches!(m, ChordModifier::Keyword(ChordKeyword::Maj)));
    assert_eq!(rest, "7");
    let (m, rest) = parse_keyword("b9").unwrap();
    assert!(matches!(m, ChordModifier::Alteration(a) if matches!(a.kind, ChordAlterationKind::Flat) && a.degree == 9));
    assert_eq!(rest, "");
    let (m, rest) = parse_keyword("#11").unwrap();
    assert!(matches!(m, ChordModifier::Alteration(a) if matches!(a.kind, ChordAlterationKind::Sharp) && a.degree == 11));
    assert_eq!(rest, "");
    let (m, _) = parse_keyword("no3").unwrap();
    assert!(matches!(m, ChordModifier::Alteration(a) if matches!(a.kind, ChordAlterationKind::No) && a.degree == 3));
    assert!(parse_keyword("x").is_none());
}

#[test]
fn chord_with_bass() {
    let (c, rest) = parse_chord("Am7/G").unwrap();
    assert_eq!(c.root, 9);
    assert!(matches!(c.kind, ChordKind::Minor));
    assert_eq!(c.modifier.len(), 1);
    assert!(matches!(c.modifier[0], ChordModifier::Keyword(ChordKeyword::K7)));
    assert_eq!(c.bass, Some(7));
    assert!(c.time.is_none());
    assert_eq!(rest, "");
}

#[test]
fn chord_with_time() {
    let (c, rest) = parse_chord("2C").unwrap();
    let t = c.time.unwrap();
    assert_eq!((t.beat, t.num, t.den), (2, 0, 1));
    assert_eq!(c.root, 0);
    assert!(matches!(c.kind, ChordKind::Major));
    assert_eq!(rest, "");
    assert!(parse_chord("x").is_none());
}

#[test]
fn melody_reads_notes() {
    assert_eq!(parse_simple_melody("[C E G] x"), Some((vec![0, 4, 7], " x")));
    assert_eq!(parse_simple_melody("[C"), None);
    assert_eq!(parse_simple_melody("C"), None);
}

#[test]
fn music_event_kinds() {
    assert!(matches!(parse_music_event("%"), Some((MusicEvent::RepeatMeasure, ""))));
    assert!(matches!(parse_music_event("\"ann\""), Some((MusicEvent::Annotation(ref a), "")) if a == "ann"));
    assert!(matches!(parse_music_event(":-"), Some((MusicEvent::StartRepeat, ""))));
    assert!(matches!(parse_music_event("-:"), Some((MusicEvent::EndRepeat, ""))));
    assert!(matches!(parse_music_event("12 "), Some((MusicEvent::NumberedMeasure(12), " "))));
    assert!(matches!(parse_music_event("("), Some((MusicEvent::OpenParen, ""))));
    assert!(parse_music_event("?").is_none());
}

#[test]
fn music_block_stops_at_dot() {
    let (evs, rest, errs) = parse_music_block("C G7 *rest");
    assert_eq!(evs.len(), 2);
    assert!(matches!(&evs[0], MusicEvent::ChordEvent(c) if c.root == 0));
    assert!(matches!(&evs[1], MusicEvent::ChordEvent(c) if c.root == 7 && c.modifier.len() == 1));
    assert_eq!(rest, "rest");
    assert!(errs.is_empty());
}

#[test]
fn music_block_reports_malformed_words() {
    let (evs, rest, errs) = parse_music_block("C xyz G *");
    assert_eq!(evs.len(), 2);
    assert_eq!(rest, "");
    assert_eq!(errs.len(), 1);
    assert_eq!(errs[0].loc, 2..5);
    assert_eq!(errs[0].line, 0);
    assert!(matches!(&errs[0].kind, SHBErrorKind::MalformedMusicEvent(w) if w == "xyz"));
}
