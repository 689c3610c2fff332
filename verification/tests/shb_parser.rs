use shibim::base::{Line, LyricEvent, MusicEvent, SHBErrorKind, TonicKind};
use shibim::shb_parser::{parse_shb, shb_accepts, try_parse_shb, SHBParser};

const SONG: &str = "name: Amazing\ntonic: G\n\n@V1 Verse one\nG·Hello |C·world\n";

#[test]
fn shb_reads_head_and_section() {
    let (song, errors) = parse_shb(SONG);
    assert!(errors.is_empty());
    assert_eq!(song.name, "Amazing");
    assert_eq!(song.tonic, 7);
    assert!(matches!(song.tonic_kind, TonicKind::Major));
    assert_eq!(song.sections.len(), 1);
    assert_eq!(song.sections[0].name, "V1");
    assert_eq!(song.sections[0].description, "Verse one");
    assert_eq!(song.sections[0].subsections.len(), 1);
    assert_eq!(song.sections[0].subsections[0].lines.len(), 1);
}

#[test]
fn shb_builds_mixed_line() {
    let (song, _) = parse_shb(SONG);
    match &song.sections[0].subsections[0].lines[0] {
        Line::Mixed(measures) => {
            assert_eq!(measures.len(), 2);
            let m0 = measures[0].as_ref().unwrap();
            assert_eq!(m0.len(), 1);
            assert!(matches!(&m0[0].0[0], MusicEvent::ChordEvent(c) if c.root == 7));
            assert!(matches!(&m0[0].1[0], LyricEvent::LyricText(t) if t == "Hello "));
            let m1 = measures[1].as_ref().unwrap();
            assert!(matches!(&m1[0].0[0], MusicEvent::ChordEvent(c) if c.root == 0));
            assert!(matches!(&m1[0].1[0], LyricEvent::LyricText(t) if t == "world"));
        },
        _ => panic!("expected a mixed line"),
    }
}

#[test]
fn shb_chords_only_line() {
    let (song, errors) = parse_shb("@C1\nAm·|F·\n");
    assert!(errors.is_empty());
    match &song.sections[0].subsections[0].lines[0] {
        Line::Chords(measures) => {
            assert_eq!(measures.len(), 2);
            assert!(matches!(&measures[0].as_ref().unwrap()[0][0], MusicEvent::ChordEvent(c) if c.root == 9));
        },
        _ => panic!("expected a chords line"),
    }
}

#[test]
fn shb_wrong_tonic_is_reported() {
    let (song, errors) = parse_shb("tonic: X\n");
    assert_eq!(errors.len(), 1);
    assert!(matches!(errors[0].kind, SHBErrorKind::WrongTonicFormat));
    assert_eq!(errors[0].line, 1);
    assert_eq!(errors[0].loc, 6..8);
    assert!(matches!(song.tonic_kind, TonicKind::Undefined));
}

#[test]
fn shb_metadata_and_subsections() {
    let (song, _) = parse_shb("author: Me\n@V1\nla\n---\n--!ref: x\nlo\n");
    assert_eq!(song.metadata.len(), 1);
    assert_eq!(song.metadata[0].0, "author");
    assert_eq!(song.metadata[0].1, "Me");
    let sec = &song.sections[0];
    assert_eq!(sec.subsections.len(), 2);
    assert_eq!(sec.subsections[1].metadata.len(), 1);
    assert_eq!(sec.subsections[1].metadata[0].0, "ref");
    assert_eq!(sec.subsections[1].metadata[0].1, "x");
}

#[test]
fn shb_last_line_waits_for_finalize() {
    let text = "@V1\nla la";
    let (song, _) = parse_shb(text);
    assert_eq!(song.sections[0].subsections[0].lines.len(), 0);
    let mut p = SHBParser::new();
    p.parse_str(text);
    p.finalize();
    let song = p.extract_song();
    assert_eq!(song.sections[0].subsections[0].lines.len(), 1);
    assert!(matches!(&song.sections[0].subsections[0].lines[0], Line::Lyrics(_)));
}

#[test]
fn shb_reading_in_pieces_is_reading_whole() {
    let mut a = SHBParser::new();
    a.parse_str("name: X\n@V1\n");
    a.parse_str("G·la\n");
    let (s1, e1) = a.extract();
    let (s2, e2) = parse_shb("name: X\n@V1\nG·la\n");
    assert_eq!(format!("{:?}", s1), format!("{:?}", s2));
    assert_eq!(e1.len(), e2.len());
}

#[test]
fn shb_accepts_ordinary_text() {
    assert!(shb_accepts(SONG));
    assert!(try_parse_shb(SONG).is_some());
}

#[test]
fn shb_step_by_step() {
    let mut p = SHBParser::new();
    for c in "name: Y\n".chars() {
        assert!(p.step(c));
    }
    let song = p.extract_song();
    assert_eq!(song.name, "Y");
}

#[test]
fn compiled_copy_of_borrowed_song() {
    let (song, _) = parse_shb(SONG);
    let c = shibim::base::CompiledSong::from(&song);
    assert_eq!(c.name, "Amazing");
    assert_eq!(c.tonic, 7);
    assert!(matches!(c.tonic_kind, TonicKind::Major));
    assert_eq!(c.sections.len(), 1);
    assert_eq!(c.sections[0].description, "Verse one");
    assert_eq!(format!("{:?}", c.sections), format!("{:?}", song.sections));
}

#[test]
fn shb_repeated_keys_keep_the_last_value() {
    let (song, _) = parse_shb("author: X\nauthor: Y\n@V1\n--!ref: a\n--!ref: b\nla\n");
    assert_eq!(song.metadata, vec![("author".to_string(), "Y".to_string())]);
    assert_eq!(song.sections[0].subsections[0].metadata, vec![("ref".to_string(), "b".to_string())]);
}

#[test]
fn shb_carriage_return_only_moves_the_offset() {
    let (s1, e1) = parse_shb("tonic: H\r\n@V1\r\nG·la |C·lo\r\n");
    let (s2, e2) = parse_shb("tonic: H\n@V1\nG·la |C·lo\n");
    assert_eq!(format!("{:?}", s1), format!("{:?}", s2));
    assert_eq!(e1.len(), 1);
    assert_eq!(e2.len(), 1);
    assert_eq!(e1[0].line, e2[0].line);
    assert_eq!(e2[0].loc, 6..8);
    assert_eq!(e1[0].loc, 7..9);
}

#[test]
fn shb_line_kinds_at_line_end() {
    let (song, _) = parse_shb("@V1\nG·la |C·lo\nG·|C·\nla lo\n   \n");
    let lines = &song.sections[0].subsections[0].lines;
    assert_eq!(lines.len(), 3);
    assert!(matches!(&lines[0], Line::Mixed(_)));
    assert!(matches!(&lines[1], Line::Chords(_)));
    assert!(matches!(&lines[2], Line::Lyrics(_)));
}
