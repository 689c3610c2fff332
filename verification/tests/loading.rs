use shibim::base::{SHBErrorKind, SHBParseError};
use shibim::loading::{collect_batch, has_extension, io_load_error, load_result, song_name, LoadErrorPayload};
use shibim::song_parse::parse_song;

#[test]
fn extensions_as_path_reads_them() {
    assert!(has_extension("song.shb", "shb"));
    assert!(has_extension("a.b.shb", "shb"));
    assert!(!has_extension("song.txt", "shb"));
    assert!(!has_extension(".shb", "shb"));
    assert!(!has_extension("noext", "shb"));
    assert!(!has_extension("..", ""));
    assert!(has_extension("trailing.", ""));
}

#[test]
fn song_names_drop_the_extension() {
    assert_eq!(song_name("dir/song.shb"), "dir/song");
    assert_eq!(song_name("song.shb"), "song");
    assert_eq!(song_name("a.b/c"), "a.b/c");
    assert_eq!(song_name("x.tar.gz"), "x.tar");
    assert_eq!(song_name(".hidden"), ".hidden");
}

#[test]
fn load_result_wraps_parse_errors() {
    let errs = vec![SHBParseError { loc: 1..2, line: 0, kind: SHBErrorKind::Unexpected("!".to_string()) }];
    let r = load_result("f.shb".to_string(), Err(errs));
    let e = r.unwrap_err();
    assert_eq!(e.file, "f.shb");
    match e.detail {
        LoadErrorPayload::ParseError(v) => assert_eq!(v.len(), 1),
        _ => panic!("expected a parse error"),
    }
    let mut w = Vec::new();
    let song = parse_song("@V1\nla\n", &mut w).unwrap();
    assert!(load_result("g.shb".to_string(), Ok(song)).is_ok());
}

#[test]
fn io_errors_name_the_file() {
    let e = io_load_error("x.shb".to_string(), std::io::Error::new(std::io::ErrorKind::NotFound, "gone"));
    assert_eq!(e.file, "x.shb");
    assert!(matches!(e.detail, LoadErrorPayload::IOError(_)));
}

#[test]
fn batch_indexes_songs_by_name() {
    let mut w = Vec::new();
    let a = parse_song("@V1\nla\n", &mut w).unwrap();
    let b = parse_song("@C1\nlo\n", &mut w).unwrap();
    let bad = load_result("bad.shb".to_string(), Err(Vec::new()));
    let loaded = vec![
        ("/d/a.shb".to_string(), "a.shb".to_string(), Ok(a)),
        ("/d/bad.shb".to_string(), "bad.shb".to_string(), bad),
        ("/d/sub/b.shb".to_string(), "sub/b.shb".to_string(), Ok(b)),
    ];
    let r = collect_batch(loaded);
    assert_eq!(r.songs.len(), 2);
    assert_eq!(r.songs[0].0, "/d/a.shb");
    assert_eq!(r.songs[1].0, "/d/sub/b.shb");
    assert_eq!(r.songs[1].1.sections[0].name, "C1");
    assert_eq!(r.errors.len(), 1);
    assert_eq!(r.errors[0].file, "bad.shb");
    assert_eq!(r.names, vec![("a".to_string(), 0), ("sub/b".to_string(), 1)]);
}

#[test]
fn batch_name_index_keeps_the_last_song_of_a_name() {
    let mut w = Vec::new();
    let a = parse_song("@V1\nla\n", &mut w).unwrap();
    let b = parse_song("@C1\nlo\n", &mut w).unwrap();
    let loaded = vec![
        ("/d/a.shb".to_string(), "a.shb".to_string(), Ok(a)),
        ("/e/a.shb".to_string(), "a.shb".to_string(), Ok(b)),
    ];
    let r = collect_batch(loaded);
    assert_eq!(r.songs.len(), 2);
    assert_eq!(r.names, vec![("a".to_string(), 1)]);
}

#[test]
fn io_error_is_carried_as_given() {
    let e = std::io::Error::new(std::io::ErrorKind::NotFound, "gone");
    let le = io_load_error("x.shb".to_string(), e);
    match le.detail {
        LoadErrorPayload::IOError(inner) => {
            assert_eq!(inner.kind(), std::io::ErrorKind::NotFound);
            assert_eq!(inner.to_string(), "gone");
        },
        _ => panic!("expected an I/O error"),
    }
}

#[test]
fn visitor_error_keeps_its_cause() {
    let e = shibim::loading::VisitorError::new("bad".to_string(), Some("why".to_string()));
    assert_eq!(e.msg, "bad");
    assert_eq!(e.detail().map(|s| s.as_str()), Some("why"));
    let e = shibim::loading::VisitorError::new("plain".to_string(), None);
    assert!(e.detail().is_none());
}
