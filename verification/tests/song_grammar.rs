use shibim::base::{Line, LyricEvent, MusicEvent, ParseSongWarnings, SHBErrorKind, TonicKind};
use shibim::prototype::{parse_identifier, parse_prototype};
use shibim::song_parse::{parse_song, try_parse_song};

const SONG: &str = "name: Amazing\ntonic: G\n\n@V1 Verse one\nG·Hello |C·world\n";

#[test]
fn grammar_reads_head_and_section() {
    let mut w = Vec::new();
    let song = parse_song(SONG, &mut w).unwrap();
    assert!(w.is_empty());
    assert_eq!(song.name, "");
    assert_eq!(song.tonic, 7);
    assert!(matches!(song.tonic_kind, TonicKind::Major));
    assert_eq!(song.metadata.len(), 1);
    assert_eq!(song.metadata[0].0, "name");
    assert_eq!(song.metadata[0].1, "Amazing");
    assert_eq!(song.sections.len(), 1);
    assert_eq!(song.sections[0].name, "V1");
    assert_eq!(song.sections[0].description, "Verse one");
    assert_eq!(song.sections[0].delta_tonic, 0);
    assert_eq!(song.section_names, vec![("V1".to_string(), 0)]);
}

#[test]
fn grammar_builds_mixed_line() {
    let mut w = Vec::new();
    let song = parse_song(SONG, &mut w).unwrap();
    let sub = &song.sections[0].subsections[0];
    assert_eq!(sub.lines.len(), 1);
    match &sub.lines[0] {
        Line::Mixed(measures) => {
            assert_eq!(measures.len(), 2);
            let m0 = measures[0].as_ref().unwrap();
            assert!(matches!(&m0[0].0[0], MusicEvent::ChordEvent(c) if c.root == 7));
            assert!(matches!(&m0[0].1[0], LyricEvent::LyricText(t) if t == "Hello "));
            let m1 = measures[1].as_ref().unwrap();
            assert!(matches!(&m1[0].0[0], MusicEvent::ChordEvent(c) if c.root == 0));
            assert!(matches!(&m1[0].1[0], LyricEvent::LyricText(t) if t == "world"));
        },
        _ => panic!("expected a mixed line"),
    }
}

#[test]
fn grammar_rejects_at_furthest_failure() {
    let mut w = Vec::new();
    let r = try_parse_song("name: x\n!!", &mut w).unwrap();
    let errs = r.unwrap_err();
    assert_eq!(errs.len(), 1);
    assert_eq!(errs[0].loc, 8..9);
    assert_eq!(errs[0].line, 0);
    assert!(matches!(&errs[0].kind, SHBErrorKind::Unexpected(t) if t == "!"));
    assert!(w.is_empty());
}

#[test]
fn grammar_error_at_end_is_empty() {
    let mut w = Vec::new();
    let errs = parse_song("@", &mut w).unwrap_err();
    assert_eq!(errs.len(), 1);
    assert_eq!(errs[0].loc, 1..1);
    assert!(matches!(&errs[0].kind, SHBErrorKind::Unexpected(t) if t.is_empty()));
}

#[test]
fn grammar_unclosed_quote_reads_as_lyrics() {
    let mut w = Vec::new();
    let song = parse_song("@V1\n\"open", &mut w).unwrap();
    match &song.sections[0].subsections[0].lines[0] {
        Line::Lyrics(ms) => {
            assert!(matches!(&ms[0].as_ref().unwrap()[0][0], LyricEvent::LyricText(t) if t == "\"open"));
        },
        _ => panic!("expected a lyrics line"),
    }
}

#[test]
fn grammar_aborts_on_flat_below_c() {
    let mut w = Vec::new();
    assert!(try_parse_song("tonic: Cb\n", &mut w).is_none());
    assert!(try_parse_song("@V1\nCb·\n", &mut w).is_none());
}

#[test]
fn grammar_aborts_on_huge_measure_number() {
    let mut w = Vec::new();
    assert!(try_parse_song("@V1\n70000·\n", &mut w).is_none());
    assert!(try_parse_song("@V1\n65535·\n", &mut w).is_some());
}

#[test]
fn grammar_head_metadata_meanings() {
    let mut w = Vec::new();
    let text = "cat: hymn\nbpm: 120\ntonic: Am\nord: main V1 X1\n@V1\nC·\n";
    let song = parse_song(text, &mut w).unwrap();
    assert_eq!(song.categories, vec!["hymn".to_string()]);
    assert_eq!(song.bpm, Some("120".to_string()));
    assert_eq!(song.tonic, 0);
    assert!(matches!(song.tonic_kind, TonicKind::Minor));
    assert_eq!(song.orders, vec![("main".to_string(), vec![0])]);
    assert_eq!(w.len(), 1);
    assert!(matches!(&w[0], ParseSongWarnings::SectionNotFound(n) if n == "X1"));
    match &song.sections[0].subsections[0].lines[0] {
        Line::Chords(ms) => {
            assert_eq!(ms.len(), 1);
            assert!(matches!(&ms[0].as_ref().unwrap()[0][0], MusicEvent::ChordEvent(c) if c.root == 0));
        },
        _ => panic!("expected a chords line"),
    }
}

#[test]
fn grammar_bad_tempo_and_tonic() {
    let mut w = Vec::new();
    let song = parse_song("bpm: fast\ntonic: H\n", &mut w).unwrap();
    assert_eq!(song.bpm, None);
    assert!(matches!(song.tonic_kind, TonicKind::Undefined));
    assert_eq!(w.len(), 1);
    assert!(matches!(w[0], ParseSongWarnings::WrongTonicFormat));
}

#[test]
fn grammar_repeated_section_name_warns() {
    let mut w = Vec::new();
    let song = parse_song("@V1\nC·\n@V1\nD·\n", &mut w).unwrap();
    assert_eq!(song.sections.len(), 2);
    assert_eq!(song.section_names, vec![("V1".to_string(), 0)]);
    assert_eq!(w.len(), 1);
    assert!(matches!(&w[0], ParseSongWarnings::RepeatedSectionName(n) if n == "V1"));
}

#[test]
fn grammar_subsections_and_their_metadata() {
    let mut w = Vec::new();
    let song = parse_song("@C1\nla\n----\n--!ref: x | k: v\nlo\n", &mut w).unwrap();
    let sec = &song.sections[0];
    assert_eq!(sec.subsections.len(), 2);
    assert_eq!(sec.subsections[0].lines.len(), 1);
    let md = &sec.subsections[1].metadata;
    assert_eq!(md.len(), 2);
    assert_eq!(md[0], ("ref".to_string(), "x".to_string()));
    assert_eq!(md[1], ("k".to_string(), "v".to_string()));
    assert!(matches!(&sec.subsections[1].lines[0], Line::Lyrics(_)));
}

#[test]
fn grammar_keys_are_lower_cased() {
    let mut w = Vec::new();
    let song = parse_song("Author: Me\n", &mut w).unwrap();
    assert_eq!(song.metadata, vec![("author".to_string(), "Me".to_string())]);
}

#[test]
fn grammar_chord_details() {
    let mut w = Vec::new();
    let song = parse_song("@V1\n2+1,2Am7/G [C E] % \"x\" ·\n", &mut w).unwrap();
    match &song.sections[0].subsections[0].lines[0] {
        Line::Chords(ms) => {
            let evs = &ms[0].as_ref().unwrap()[0];
            assert_eq!(evs.len(), 4);
            match &evs[0] {
                MusicEvent::ChordEvent(c) => {
                    assert_eq!(c.root, 9);
                    assert_eq!(c.bass, Some(7));
                    assert_eq!(c.modifier.len(), 1);
                    let t = c.time.unwrap();
                    assert_eq!((t.beat, t.num, t.den), (2, 1, 2));
                },
                _ => panic!("expected a chord"),
            }
            assert!(matches!(&evs[1], MusicEvent::MelodyEvent(m) if m == &vec![0u8, 4]));
            assert!(matches!(&evs[2], MusicEvent::RepeatMeasure));
            assert!(matches!(&evs[3], MusicEvent::Annotation(a) if a == "x"));
        },
        _ => panic!("expected a chords line"),
    }
}

#[test]
fn grammar_empty_text_is_an_empty_song() {
    let mut w = Vec::new();
    let song = parse_song("", &mut w).unwrap();
    assert!(song.sections.is_empty());
    assert!(song.metadata.is_empty());
    assert!(matches!(song.tonic_kind, TonicKind::Undefined));
}

#[test]
fn prototype_reads_demo_song() {
    let (meta, sections) = parse_identifier("jacobi9 0").unwrap();
    assert_eq!(
        meta,
        vec![
            ("name".to_string(), "A Dios Sea La Gloria |E".to_string()),
            ("tonic".to_string(), "C".to_string()),
        ]
    );
    assert_eq!(sections.len(), 3);
    assert_eq!(sections[0].name.kind, "I");
    assert_eq!(sections[0].name.number, 1);
    assert_eq!(sections[0].name.version, "");
    assert_eq!(sections[0].description, "Intro (aprox.)");
    assert_eq!(sections[0].subsections[0].lines.len(), 1);
    match &sections[0].subsections[0].lines[0] {
        Line::Chords(ms) => {
            assert_eq!(ms.len(), 4);
            assert_eq!(ms[3].as_ref().unwrap()[0].len(), 2);
        },
        _ => panic!("expected a chords line"),
    }
    assert_eq!(sections[1].description, "Como agradecer");
    assert_eq!(sections[1].subsections[0].lines.len(), 4);
    match &sections[1].subsections[0].lines[0] {
        Line::Mixed(ms) => {
            assert_eq!(ms.len(), 3);
            assert!(ms[0].is_none());
        },
        _ => panic!("expected a mixed line"),
    }
    let c1 = &sections[2];
    assert_eq!(c1.description, "Carísimos Ñ");
    assert_eq!(c1.subsections.len(), 3);
    assert_eq!(
        c1.subsections[0].metadata,
        vec![
            ("ref".to_string(), "Read the manua".to_string()),
            ("h".to_string(), "ood".to_string()),
            ("plz".to_string(), "please.".to_string()),
        ]
    );
    assert_eq!(c1.subsections[0].lines.len(), 3);
    match &c1.subsections[0].lines[2] {
        Line::Lyrics(ms) => {
            assert_eq!(ms.len(), 3);
            assert!(ms.iter().all(|m| m.is_none()));
        },
        _ => panic!("expected an empty lyrics line"),
    }
    assert_eq!(c1.subsections[2].metadata, vec![("ref".to_string(), "PIZAA!".to_string())]);
}

#[test]
fn prototype_dialect_differences() {
    // a section name without digits aborts the prototype
    assert!(parse_prototype("@Intro\nC·\n").is_none());
    // a chords line with a block of blank lyrics aborts the prototype
    assert!(parse_prototype("@V1\nC·|  \n").is_none());
    // the prototype stops where it cannot go on
    let (meta, secs) = parse_prototype("a_b: x\n").unwrap();
    assert!(meta.is_empty());
    assert!(secs.is_empty());
    let mut w = Vec::new();
    assert_eq!(parse_song("a_b: x\n", &mut w).unwrap().metadata, vec![("a_b".to_string(), "x".to_string())]);
}

#[test]
fn grammar_repeated_head_keys_keep_the_last_value() {
    let mut w = Vec::new();
    let text = "cat: a\ncat: a\ncategory: b\nauthor: X\nauthor: Y\nord: main V1\nord: main V1 V1\n@V1\nla\n";
    let song = parse_song(text, &mut w).unwrap();
    assert_eq!(song.categories, vec!["a".to_string(), "b".to_string()]);
    assert_eq!(song.metadata, vec![("author".to_string(), "Y".to_string())]);
    assert_eq!(song.orders, vec![("main".to_string(), vec![0, 0])]);
}

#[test]
fn grammar_repeated_subsection_keys_keep_the_last_value() {
    let mut w = Vec::new();
    let song = parse_song("@C1\n--!ref: x | k: v\n--!ref: y\nlo\n", &mut w).unwrap();
    let md = &song.sections[0].subsections[0].metadata;
    assert_eq!(md, &vec![("ref".to_string(), "y".to_string()), ("k".to_string(), "v".to_string())]);
}

#[test]
fn aborting_text_is_tested_first() {
    let mut w = Vec::new();
    assert!(shibim::song_parse::song_aborts("tonic: Cb\n"));
    assert!(try_parse_song("tonic: Cb\n", &mut w).is_none());
    assert!(!shibim::song_parse::song_aborts(SONG));
}
