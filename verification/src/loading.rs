//! Loading songs from a directory: which files are songs, the errors of a
//! file that cannot be read or parsed, and the index of the songs loaded by
//! their names.

use vstd::prelude::*;
use crate::keyed::{assoc_put, keys_distinct, lemma_assoc_put, put_entry};
#[allow(unused_imports)]
use vstd::string::*;
use crate::base::{Song, SongView, SHBParseError};
use crate::util::{Itertools, oks, errs};

verus! {

#[verifier::external_type_specification]
#[verifier::external_body]
pub struct ExIoError(std::io::Error);

/// Why a file could not be loaded.
#[derive(Debug)]
pub enum LoadErrorPayload {
    IOError(std::io::Error),
    ParseError(Vec<SHBParseError>),
}

/// A file that could not be loaded, and why.
#[derive(Debug)]
pub struct LoadError {
    pub file: String,
    pub detail: LoadErrorPayload,
}

/// An error raised while post-processing songs.
#[derive(Debug)]
pub struct VisitorError {
    pub msg: String,
    detail: Option<String>,
}

impl VisitorError {
    /// The text of the cause, if any.
    pub closed spec fn detail_text(&self) -> Option<Seq<char>> {
        self.detail.deep_view()
    }

    /// The message.
    pub closed spec fn message(&self) -> Seq<char> {
        self.msg@
    }

    /// An error with a message and, optionally, the text of its cause.
    pub fn new(msg: String, detail: Option<String>) -> (r: VisitorError)
        ensures
            r.message() == msg@,
            r.detail_text() == detail.deep_view(),
    {
        VisitorError { msg, detail }
    }

    /// The text of the cause, if any.
    pub fn detail(&self) -> (r: Option<&String>)
        ensures
            r.deep_view() == self.detail_text(),
    {
        match &self.detail {
            Some(d) => Some(d),
            None => None,
        }
    }
}

/// The error of a file that could not be read.
pub fn io_load_error(file: String, e: std::io::Error) -> (r: LoadError)
    ensures
        r.file@ == file@,
        r.detail == LoadErrorPayload::IOError(e),
{
    LoadError { file, detail: LoadErrorPayload::IOError(e) }
}

/// A parsed file's song, or the error that names the file and carries the
/// parse errors.
pub fn load_result(file: String, parsed: Result<Song, Vec<SHBParseError>>) -> (r: Result<Song, LoadError>)
    ensures
        match parsed {
            Ok(song) => r matches Ok(s2) && s2.deep_view() == song.deep_view(),
            Err(es) => r matches Err(le) && le.file@ == file@ && (le.detail matches LoadErrorPayload::ParseError(
                es2,
            ) && es2.deep_view() == es.deep_view()),
        },
{
    match parsed {
        Ok(song) => Ok(song),
        Err(es) => Err(LoadError { file, detail: LoadErrorPayload::ParseError(es) }),
    }
}

// ----- file names -----

/// Index of the last `c` in `s`.
pub open spec fn last_index(s: Seq<char>, c: char) -> Option<int>
    decreases s.len(),
{
    if s.len() == 0 {
        None
    } else if s.last() == c {
        Some(s.len() - 1)
    } else {
        last_index(s.drop_last(), c)
    }
}

/// The extension of a file name, as `Path::extension` reads it: what
/// follows the last `.`, where the name has a `.` that does not start it.
pub open spec fn extension_of(name: Seq<char>) -> Option<Seq<char>> {
    if name == seq!['.', '.'] {
        None
    } else {
        match last_index(name, '.') {
            Some(i) => if i > 0 {
                Some(name.skip(i + 1))
            } else {
                None
            },
            None => None,
        }
    }
}

fn find_last(s: &str, c: char) -> (r: Option<usize>)
    ensures
        match r {
            Some(k) => last_index(s@, c) == Some(k as int) && k < s@.len(),
            None => last_index(s@, c) is None,
        },
{
    let n = s.unicode_len();
    let mut j = n;
    assert(s@.take(n as int) =~= s@);
    while j > 0
        invariant
            n == s@.len(),
            j <= n,
            last_index(s@, c) == last_index(s@.take(j as int), c),
        decreases j,
    {
        if s.get_char(j - 1) == c {
            return Some(j - 1);
        }
        assert(s@.take(j as int).drop_last() =~= s@.take(j - 1));
        j = j - 1;
    }
    None
}

/// Whether a file name has the extension `ext`.
pub fn has_extension(name: &str, ext: &str) -> (r: bool)
    ensures
        r == (extension_of(name@) == Some(ext@)),
{
    proof {
        reveal_strlit("..");
    }
    let n = name.unicode_len();
    if n == 2 && name.get_char(0) == '.' && name.get_char(1) == '.' {
        assert(name@ =~= seq!['.', '.']);
        return false;
    }
    assert(name@ != seq!['.', '.']);
    match find_last(name, '.') {
        Some(i) => {
            if i == 0 {
                false
            } else {
                let e = name.substring_char(i + 1, n);
                assert(e@ =~= name@.skip(i + 1));
                crate::text::str_eq(e, ext)
            }
        },
        None => false,
    }
}

/// A relative path without the extension of its last component, as
/// `Path::with_extension("")` gives it.
pub open spec fn without_extension(path: Seq<char>) -> Seq<char> {
    let start = match last_index(path, '/') {
        Some(i) => i + 1,
        None => 0,
    };
    match extension_of(path.skip(start)) {
        Some(e) => path.take(path.len() - e.len() - 1),
        None => path,
    }
}

proof fn lemma_last_index_bounds(s: Seq<char>, c: char)
    ensures
        last_index(s, c) matches Some(i) ==> 0 <= i < s.len() && s[i] == c,
    decreases s.len(),
{
    if s.len() > 0 && s.last() != c {
        lemma_last_index_bounds(s.drop_last(), c);
    }
}

/// The name a song file is known by: its path below the directory, without
/// the extension.
pub fn song_name(rel: &str) -> (r: String)
    ensures
        r@ == without_extension(rel@),
{
    let n = rel.unicode_len();
    let start = match find_last(rel, '/') {
        Some(i) => i + 1,
        None => 0,
    };
    let file = rel.substring_char(start, n);
    assert(file@ =~= rel@.skip(start as int));
    let is_dots = file.unicode_len() == 2 && file.get_char(0) == '.' && file.get_char(1) == '.';
    if is_dots {
        assert(file@ =~= seq!['.', '.']);
        return rel.to_owned();
    }
    assert(file@ != seq!['.', '.']);
    match find_last(file, '.') {
        Some(i) => {
            if i == 0 {
                rel.to_owned()
            } else {
                proof {
                    lemma_last_index_bounds(file@, '.');
                }
                let ghost e = file@.skip(i + 1);
                assert(e.len() == file@.len() - i - 1);
                let r = rel.substring_char(0, start + i);
                assert(r@ =~= rel@.take(rel@.len() - e.len() - 1));
                r.to_owned()
            }
        },
        None => rel.to_owned(),
    }
}

// ----- batches -----

/// The songs loaded from a directory, the files that could not be loaded,
/// and the index of each song by its name.
pub struct SHBBatchResults {
    pub songs: Vec<(String, Song)>,
    pub errors: Vec<LoadError>,
    pub names: Vec<(String, usize)>,
}

/// A file's path, its path below the directory, and what loading it gave.
pub type Loaded = (String, String, Result<Song, LoadError>);

fn accept(e: Loaded) -> (r: Result<(String, String, Song), LoadError>)
    ensures
        match e.2 {
            Ok(song) => r matches Ok(t) && t.0@ == e.0@ && t.1@ == e.1@ && t.2.deep_view() == song.deep_view(),
            Err(le) => r == Err::<(String, String, Song), LoadError>(le),
        },
{
    let (path, rel, res) = e;
    match res {
        Ok(song) => Ok((path, rel, song)),
        Err(le) => Err(le),
    }
}

/// The successfully loaded files, as (path, path below the directory,
/// song), in order.
pub open spec fn loaded_songs(items: Seq<(Seq<char>, Seq<char>, Result<SongView, ()>)>) -> Seq<
    (Seq<char>, Seq<char>, SongView),
>
    decreases items.len(),
{
    if items.len() == 0 {
        Seq::empty()
    } else {
        let prev = loaded_songs(items.drop_last());
        match items.last().2 {
            Ok(sv) => prev.push((items.last().0, items.last().1, sv)),
            Err(_) => prev,
        }
    }
}

/// What a loaded entry is, leaving out the contents of its error.
pub open spec fn loaded_view(e: Loaded) -> (Seq<char>, Seq<char>, Result<SongView, ()>) {
    (
        e.0@,
        e.1@,
        match e.2 {
            Ok(s) => Ok(s.deep_view()),
            Err(_) => Err(()),
        },
    )
}

proof fn lemma_accept_oks(items: Seq<Loaded>, res: Seq<Result<(String, String, Song), LoadError>>)
    requires
        res.len() == items.len(),
        forall|i: int| 0 <= i < res.len() ==> call_ensures(accept, (items[i],), #[trigger] res[i]),
    ensures
        oks(res).map_values(|t: (String, String, Song)| (t.0@, t.1@, t.2.deep_view())) == loaded_songs(
            items.map_values(|e: Loaded| loaded_view(e)),
        ),
    decreases items.len(),
{
    let f = |t: (String, String, Song)| (t.0@, t.1@, t.2.deep_view());
    let g = |e: Loaded| loaded_view(e);
    if items.len() == 0 {
        assert(oks(res).map_values(f) =~= Seq::empty());
    } else {
        let n = items.len() - 1;
        assert forall|i: int| 0 <= i < res.drop_last().len() implies call_ensures(
            accept,
            (items.drop_last()[i],),
            #[trigger] res.drop_last()[i],
        ) by {
            assert(res.drop_last()[i] == res[i]);
            assert(items.drop_last()[i] == items[i]);
        }
        lemma_accept_oks(items.drop_last(), res.drop_last());
        assert(items.map_values(g).drop_last() =~= items.drop_last().map_values(g));
        assert(call_ensures(accept, (items[n],), res[n]));
        match res.last() {
            Ok(t) => {
                assert(oks(res) == oks(res.drop_last()).push(t));
                assert(oks(res).map_values(f) =~= oks(res.drop_last()).map_values(f).push(f(t)));
            },
            Err(_) => {
                assert(oks(res) == oks(res.drop_last()));
            },
        }
    }
}

/// The errors of the files that could not be loaded, in order.
pub open spec fn load_errors(items: Seq<Loaded>) -> Seq<LoadError>
    decreases items.len(),
{
    if items.len() == 0 {
        Seq::empty()
    } else {
        let prev = load_errors(items.drop_last());
        match items.last().2 {
            Ok(_) => prev,
            Err(le) => prev.push(le),
        }
    }
}

proof fn lemma_accept_errs(items: Seq<Loaded>, res: Seq<Result<(String, String, Song), LoadError>>)
    requires
        res.len() == items.len(),
        forall|i: int| 0 <= i < res.len() ==> call_ensures(accept, (items[i],), #[trigger] res[i]),
    ensures
        errs(res) == load_errors(items),
    decreases items.len(),
{
    if items.len() > 0 {
        let n = items.len() - 1;
        assert forall|i: int| 0 <= i < res.drop_last().len() implies call_ensures(
            accept,
            (items.drop_last()[i],),
            #[trigger] res.drop_last()[i],
        ) by {
            assert(res.drop_last()[i] == res[i]);
            assert(items.drop_last()[i] == items[i]);
        }
        lemma_accept_errs(items.drop_last(), res.drop_last());
        assert(call_ensures(accept, (items[n],), res[n]));
    }
}

/// The index of songs by name: each loaded song under its name, a later
/// song replacing an earlier one of the same name.
pub open spec fn name_index(songs: Seq<(Seq<char>, Seq<char>, SongView)>) -> Seq<(Seq<char>, usize)>
    decreases songs.len(),
{
    if songs.len() == 0 {
        Seq::empty()
    } else {
        assoc_put(name_index(songs.drop_last()), without_extension(songs.last().1), (songs.len() - 1) as usize)
    }
}

proof fn lemma_name_index_distinct(songs: Seq<(Seq<char>, Seq<char>, SongView)>)
    ensures
        keys_distinct(name_index(songs)),
    decreases songs.len(),
{
    if songs.len() > 0 {
        lemma_name_index_distinct(songs.drop_last());
        lemma_assoc_put(
            name_index(songs.drop_last()),
            without_extension(songs.last().1),
            (songs.len() - 1) as usize,
        );
    }
}

/// Gathers what loading the files of a directory gave: the songs in order,
/// the errors in order, and each song's index under its name.
pub fn collect_batch(loaded: Vec<Loaded>) -> (r: SHBBatchResults)
    ensures
        ({
            let songs = loaded_songs(loaded@.map_values(|e: Loaded| loaded_view(e)));
            &&& r.songs.len() == songs.len()
            &&& forall|i: int|
                0 <= i < songs.len() ==> (#[trigger] r.songs@[i]).0@ == songs[i].0 && r.songs@[i].1.deep_view()
                    == songs[i].2
            &&& r.names.deep_view() == name_index(songs)
            &&& keys_distinct(r.names.deep_view())
            &&& r.errors@ == load_errors(loaded@)
        }),
{
    let ghost items = loaded@;
    let (oks_v, errors) = loaded.partition_result(accept);
    let ghost res = choose|res: Seq<Result<(String, String, Song), LoadError>>|
        #![trigger oks(res)]
        res.len() == items.len() && (forall|i: int|
            0 <= i < res.len() ==> call_ensures(accept, (items[i],), #[trigger] res[i])) && oks_v@ == oks(
            res,
        ) && errors@ == errs(res);
    proof {
        lemma_accept_oks(items, res);
        lemma_accept_errs(items, res);
    }
    let ghost target = loaded_songs(items.map_values(|e: Loaded| loaded_view(e)));
    let ghost ov = oks_v@.map_values(|t: (String, String, Song)| (t.0@, t.1@, t.2.deep_view()));
    assert(ov == target);
    let mut songs: Vec<(String, Song)> = Vec::new();
    let mut names: Vec<(String, usize)> = Vec::new();
    let mut rest = oks_v;
    let mut k: usize = 0;
    assert(names.deep_view() =~= Seq::<(Seq<char>, usize)>::empty());
    assert(target.take(0) =~= Seq::<(Seq<char>, Seq<char>, SongView)>::empty());
    assert(ov.len() == rest.len());
    while rest.len() > 0
        invariant
            k + rest.len() == ov.len(),
            ov.len() <= usize::MAX,
            ov == target,
            forall|i: int|
                0 <= i < rest.len() ==> (#[trigger] rest@[i]).0@ == ov[k + i].0 && rest@[i].1@ == ov[k
                    + i].1 && rest@[i].2.deep_view() == ov[k + i].2,
            songs.len() == k,
            forall|i: int|
                0 <= i < k ==> (#[trigger] songs@[i]).0@ == ov[i].0 && songs@[i].1.deep_view() == ov[i].2,
            names.deep_view() == name_index(ov.take(k as int)),
        decreases rest.len(),
    {
        let ghost before = rest@;
        let (path, rel, song) = rest.remove(0);
        assert(path@ == ov[k as int].0 && rel@ == ov[k as int].1 && song.deep_view() == ov[k as int].2) by {
            assert(before[0] == (path, rel, song));
        }
        assert forall|i: int| 0 <= i < rest.len() implies (#[trigger] rest@[i]).0@ == ov[k + 1 + i].0
            && rest@[i].1@ == ov[k + 1 + i].1 && rest@[i].2.deep_view() == ov[k + 1 + i].2 by {
            assert(rest@[i] == before[i + 1]);
        }
        let name = song_name(rel.as_str());
        assert(ov.take(k + 1).drop_last() =~= ov.take(k as int));
        put_entry(&mut names, name, k);
        songs.push((path, song));
        k = k + 1;
    }
    assert(ov.take(k as int) =~= ov);
    proof {
        lemma_name_index_distinct(target);
    }
    SHBBatchResults { songs, errors, names }
}

} // verus!
