//! The character-driven song parser: a state machine that reads an SHB text
//! one character at a time and builds the song, its sections, subsections
//! and lines, collecting located errors on the way.
//!
//! Its meaning is `spec_step`, the transition on one character of the
//! parser's view (`ParserView`). `spec_step` is `None` on the characters
//! that the parser does not accept in a state: a `tonic:` value whose note
//! lowers C, a chord block that its lexers reject, or a counter past
//! `usize::MAX`.

use vstd::prelude::*;
use crate::keyed::{assoc_put, keys_distinct, lemma_assoc_put, put_entry};
use crate::base::{
    Song, Section, Subsection, Line, LyricEvent, MusicEvent, SHBParseError, SHBErrorKind,
    SongView, SectionView, SubsectionView, LineView, LyricEventView, MusicEventView,
    ParseErrorView, ErrorKindView, empty_section, empty_subsection, empty_song,
};
use crate::text::{
    is_ws, is_whitespace, alphanumeric, is_alphanumeric, char_width, len_utf8, utf8_len, trim,
    str_trim, str_byte_len, string_push, float_syntax, is_float_text, str_eq, lemma_utf8_len_push, lemma_trim_len,
};
use crate::parser::{Outcome, spec_tonality, spec_block, parse_tonality, lex_music_block, lemma_block_bounds, error_within, lex_tone_root, Lexed};

verus! {

#[derive(PartialEq, Eq, Debug, Clone, Copy, Structural)]
pub enum ParsingState {
    MetaStart,
    MetaArg,
    MetaVal,
    SectionStart,
    SectionHeadId,
    SectionHeadDesc,
    SubsectionStart,
    LineStart,
    MeasureStart,
    BlockStart,
    MaybeLyricBlock,
    TrueLyricBlock,
    LineEnd,
    SubsectionDelim(u8),
    SubsectionMetaArg,
    SubsectionMetaVal,
}

#[derive(PartialEq, Eq, Debug, Clone, Copy, Structural)]
pub enum ParserStatus {
    New,
    Processing,
    Completed,
    Error,
}

/// The state of the parser, as values.
pub ghost struct ParserView {
    pub line: usize,
    pub byte_offset: usize,
    pub errors: Seq<ParseErrorView>,
    pub line_has_content: bool,
    pub meta_arg: Seq<char>,
    pub meta_val: Seq<char>,
    pub section_id: Seq<char>,
    pub section_desc: Seq<char>,
    pub lyric: Seq<char>,
    pub chord: Seq<char>,
    pub line_buffer: Seq<Seq<(Seq<MusicEventView>, Seq<LyricEventView>)>>,
    pub state: ParsingState,
    pub status: ParserStatus,
    pub song: SongView,
}

/// The parser of an SHB text.
pub struct SHBParser {
    line: usize,
    byte_offset: usize,
    errors: Vec<SHBParseError>,
    line_has_content: bool,
    meta_arg_buffer: String,
    meta_val_buffer: String,
    section_id_buffer: String,
    section_desc_buffer: String,
    lyric_buffer: String,
    chord_buffer: String,
    line_buffer: Vec<Vec<(Vec<MusicEvent>, Vec<LyricEvent>)>>,
    state: ParsingState,
    status: ParserStatus,
    song: Song,
}

impl View for SHBParser {
    type V = ParserView;

    closed spec fn view(&self) -> ParserView {
        ParserView {
            line: self.line,
            byte_offset: self.byte_offset,
            errors: self.errors.deep_view(),
            line_has_content: self.line_has_content,
            meta_arg: self.meta_arg_buffer@,
            meta_val: self.meta_val_buffer@,
            section_id: self.section_id_buffer@,
            section_desc: self.section_desc_buffer@,
            lyric: self.lyric_buffer@,
            chord: self.chord_buffer@,
            line_buffer: self.line_buffer.deep_view(),
            state: self.state,
            status: self.status,
            song: self.song.deep_view(),
        }
    }
}

// ----- the view of a fresh parser and its well-formedness -----

/// A parser that has read nothing.
pub open spec fn initial_view() -> ParserView {
    ParserView {
        line: 1,
        byte_offset: 0,
        errors: Seq::empty(),
        line_has_content: false,
        meta_arg: Seq::empty(),
        meta_val: Seq::empty(),
        section_id: Seq::empty(),
        section_desc: Seq::empty(),
        lyric: Seq::empty(),
        chord: Seq::empty(),
        line_buffer: Seq::empty(),
        state: ParsingState::MetaStart,
        status: ParserStatus::New,
        song: empty_song(),
    }
}

/// States in which a current subsection exists.
pub open spec fn in_subsection(st: ParsingState) -> bool {
    match st {
        ParsingState::LineStart | ParsingState::MeasureStart | ParsingState::BlockStart
        | ParsingState::MaybeLyricBlock | ParsingState::TrueLyricBlock | ParsingState::LineEnd
        | ParsingState::SubsectionDelim(_) | ParsingState::SubsectionMetaArg
        | ParsingState::SubsectionMetaVal => true,
        _ => false,
    }
}

/// States in which a current section exists.
pub open spec fn in_section(st: ParsingState) -> bool {
    in_subsection(st) || st == ParsingState::SectionHeadId || st == ParsingState::SectionHeadDesc
        || st == ParsingState::SubsectionStart
}

/// States in which a current block exists.
pub open spec fn in_block(st: ParsingState) -> bool {
    st == ParsingState::MaybeLyricBlock || st == ParsingState::TrueLyricBlock
}

/// What holds of every parser between two characters (with `slack` = 0), and
/// after a transition that took the character into a buffer (with `slack`
/// its width): the buffers hold no more bytes than were read, the chord
/// buffer is empty, and the section, subsection, measure and block that the
/// state works on exist.
pub open spec fn view_wf(p: ParserView, slack: nat) -> bool {
    &&& utf8_len(p.lyric) <= p.byte_offset + slack
    &&& utf8_len(p.meta_val) <= p.byte_offset + slack
    &&& p.chord.len() == 0
    &&& in_section(p.state) ==> p.song.sections.len() > 0
    &&& in_subsection(p.state) ==> p.song.sections.len() > 0
        && p.song.sections.last().subsections.len() > 0
    &&& (p.state == ParsingState::BlockStart || in_block(p.state)) ==> p.line_buffer.len() > 0
    &&& in_block(p.state) ==> p.line_buffer.len() > 0 && p.line_buffer.last().len() > 0
}

// ----- updates of the view -----

pub open spec fn with_state(p: ParserView, st: ParsingState) -> ParserView {
    ParserView { state: st, ..p }
}

pub open spec fn with_song(p: ParserView, song: SongView) -> ParserView {
    ParserView { song, ..p }
}

pub open spec fn last_section(p: ParserView) -> SectionView {
    p.song.sections.last()
}

pub open spec fn with_last_section(p: ParserView, sec: SectionView) -> ParserView {
    with_song(
        p,
        SongView { sections: p.song.sections.update(p.song.sections.len() - 1, sec), ..p.song },
    )
}

pub open spec fn last_subsection(p: ParserView) -> SubsectionView {
    last_section(p).subsections.last()
}

pub open spec fn with_last_subsection(p: ParserView, sub: SubsectionView) -> ParserView {
    let sec = last_section(p);
    with_last_section(
        p,
        SectionView { subsections: sec.subsections.update(sec.subsections.len() - 1, sub), ..sec },
    )
}

pub open spec fn last_block(p: ParserView) -> (Seq<MusicEventView>, Seq<LyricEventView>) {
    p.line_buffer.last().last()
}

pub open spec fn with_last_block(
    p: ParserView,
    b: (Seq<MusicEventView>, Seq<LyricEventView>),
) -> ParserView {
    let m = p.line_buffer.last();
    ParserView {
        line_buffer: p.line_buffer.update(p.line_buffer.len() - 1, m.update(m.len() - 1, b)),
        ..p
    }
}

/// `evs` added to the lyrics of the current block.
pub open spec fn push_lyrics(p: ParserView, evs: Seq<LyricEventView>) -> ParserView {
    let b = last_block(p);
    with_last_block(p, (b.0, b.1 + evs))
}

// ----- lyric fragments -----

/// Scan of a lyric buffer from index `j`, where the pending fragment starts
/// at `fs`: each `^` ends the pending fragment (when it is not empty) and
/// adds a break.
pub open spec fn lyric_scan(buf: Seq<char>, j: int, fs: int, acc: Seq<LyricEventView>) -> (
    Seq<LyricEventView>,
    int,
)
    decreases buf.len() - j,
{
    if j >= buf.len() || j < 0 {
        (acc, fs)
    } else if buf[j] == '^' {
        if j > fs {
            lyric_scan(
                buf,
                j + 1,
                j + 1,
                acc.push(LyricEventView::Text(buf.subrange(fs, j))).push(LyricEventView::Break),
            )
        } else {
            lyric_scan(buf, j + 1, fs, acc.push(LyricEventView::Break))
        }
    } else {
        lyric_scan(buf, j + 1, fs, acc)
    }
}

/// The lyric events of a lyric buffer, and whether the buffer is used up:
/// the fragments between carets, then the rest after the last fragment.
pub open spec fn lyric_events(buf: Seq<char>) -> (Seq<LyricEventView>, bool) {
    let (evs, fs) = lyric_scan(buf, 0, 0, Seq::empty());
    if fs < buf.len() {
        (evs.push(LyricEventView::Text(buf.subrange(fs, buf.len() as int))), true)
    } else {
        (evs, false)
    }
}

/// The lyric buffer turned into lyric events of the current block; the
/// buffer is emptied where its end was taken.
pub open spec fn flush_lyrics(p: ParserView) -> ParserView {
    let (evs, used) = lyric_events(p.lyric);
    let q = push_lyrics(p, evs);
    if used {
        ParserView { lyric: Seq::empty(), ..q }
    } else {
        q
    }
}

// ----- lines -----

/// Some block of the line holds a chord event.
pub open spec fn has_chords(lb: Seq<Seq<(Seq<MusicEventView>, Seq<LyricEventView>)>>) -> bool {
    exists|i: int, j: int|
        0 <= i < lb.len() && 0 <= j < lb[i].len() && #[trigger] lb[i][j].0.len() > 0
}

/// A lyric text that holds more than whitespace.
pub open spec fn nonblank_text(e: LyricEventView) -> bool {
    match e {
        LyricEventView::Text(t) => trim(t).len() > 0,
        LyricEventView::Break => false,
    }
}

/// Some lyric text of the line holds more than whitespace.
pub open spec fn has_lyrics(lb: Seq<Seq<(Seq<MusicEventView>, Seq<LyricEventView>)>>) -> bool {
    exists|i: int, j: int, k: int|
        0 <= i < lb.len() && 0 <= j < lb[i].len() && 0 <= k < lb[i][j].1.len()
            && nonblank_text(#[trigger] lb[i][j].1[k])
}

/// The line that a line buffer makes: mixed when it holds chords and
/// lyrics, chords only, or lyrics only.
pub open spec fn make_line(lb: Seq<Seq<(Seq<MusicEventView>, Seq<LyricEventView>)>>) -> LineView {
    if has_chords(lb) && has_lyrics(lb) {
        LineView::Mixed(Seq::new(lb.len(), |i: int| Some(lb[i])))
    } else if has_chords(lb) {
        LineView::Chords(
            Seq::new(lb.len(), |i: int| Some(Seq::new(lb[i].len(), |j: int| lb[i][j].0))),
        )
    } else {
        LineView::Lyrics(
            Seq::new(lb.len(), |i: int| Some(Seq::new(lb[i].len(), |j: int| lb[i][j].1))),
        )
    }
}

// ----- transitions -----

/// An error of a chord block moved to its place in the input.
pub open spec fn shift_error(e: ParseErrorView, off: int, line: usize) -> ParseErrorView {
    ParseErrorView {
        start: (e.start + off) as usize,
        end: (e.end + off) as usize,
        line,
        kind: e.kind,
    }
}

pub open spec fn on_meta_start(p: ParserView, c: char) -> (ParserView, bool) {
    if is_ws(c) {
        (p, false)
    } else if c == '@' {
        (with_state(p, ParsingState::SectionStart), false)
    } else if c == '_' || alphanumeric(c) {
        (with_state(p, ParsingState::MetaArg), true)
    } else {
        (p, false)
    }
}

pub open spec fn on_meta_arg(p: ParserView, c: char, next_val: ParsingState, next_line: ParsingState) -> (
    ParserView,
    bool,
) {
    if c == ':' {
        (with_state(p, next_val), false)
    } else if c == '\n' {
        (ParserView { meta_arg: Seq::empty(), state: next_line, ..p }, false)
    } else if c == ' ' || c == '_' || alphanumeric(c) {
        (ParserView { meta_arg: p.meta_arg.push(c), ..p }, false)
    } else {
        (p, false)
    }
}

/// The song metadata line `arg: val` taken into the song.
pub open spec fn song_meta(p: ParserView) -> Option<ParserView> {
    let arg = trim(p.meta_arg);
    let val = trim(p.meta_val);
    let q = ParserView { meta_arg: Seq::empty(), meta_val: Seq::empty(), ..p };
    if arg == "name"@ {
        Some(with_song(q, SongView { name: val, ..p.song }))
    } else if arg == "tonic"@ {
        match spec_tonality(val) {
            Outcome::Panic => None,
            Outcome::Done((root, kind), _) => Some(
                with_song(q, SongView { tonic: root, tonic_kind: kind, ..p.song }),
            ),
            Outcome::Fail => Some(
                ParserView {
                    errors: p.errors.push(
                        ParseErrorView {
                            start: (p.byte_offset - utf8_len(p.meta_val)) as usize,
                            end: p.byte_offset,
                            line: p.line,
                            kind: ErrorKindView::WrongTonicFormat,
                        },
                    ),
                    ..q
                },
            ),
        }
    } else if arg == "bpm"@ {
        if float_syntax(val) {
            Some(with_song(q, SongView { bpm: Some(val), ..p.song }))
        } else {
            Some(q)
        }
    } else {
        Some(with_song(q, SongView { metadata: assoc_put(p.song.metadata, arg, val), ..p.song }))
    }
}

pub open spec fn on_meta_val(p: ParserView, c: char) -> Option<(ParserView, bool)> {
    if c == '\n' {
        match song_meta(p) {
            Some(q) => Some((with_state(q, ParsingState::MetaStart), false)),
            None => None,
        }
    } else {
        Some((ParserView { meta_val: p.meta_val.push(c), ..p }, false))
    }
}

pub open spec fn on_section_start(p: ParserView) -> (ParserView, bool) {
    let q = with_song(p, SongView { sections: p.song.sections.push(empty_section()), ..p.song });
    (with_state(q, ParsingState::SectionHeadId), true)
}

pub open spec fn on_section_head_id(p: ParserView, c: char) -> (ParserView, bool) {
    if c == '\n' || is_ws(c) {
        let sec = last_section(p);
        let q = with_last_section(p, SectionView { name: trim(p.section_id), ..sec });
        let q = ParserView { section_id: Seq::empty(), ..q };
        (
            with_state(
                q,
                if c == '\n' {
                    ParsingState::SubsectionStart
                } else {
                    ParsingState::SectionHeadDesc
                },
            ),
            false,
        )
    } else if alphanumeric(c) || c == '~' {
        (ParserView { section_id: p.section_id.push(c), ..p }, false)
    } else {
        (p, false)
    }
}

pub open spec fn on_section_head_desc(p: ParserView, c: char) -> (ParserView, bool) {
    if c == '\n' {
        let sec = last_section(p);
        let q = with_last_section(p, SectionView { description: trim(p.section_desc), ..sec });
        let q = ParserView { section_desc: Seq::empty(), ..q };
        (with_state(q, ParsingState::SubsectionStart), false)
    } else {
        (ParserView { section_desc: p.section_desc.push(c), ..p }, false)
    }
}

pub open spec fn on_subsection_start(p: ParserView) -> (ParserView, bool) {
    let sec = last_section(p);
    let q = with_last_section(
        p,
        SectionView { subsections: sec.subsections.push(empty_subsection()), ..sec },
    );
    (with_state(q, ParsingState::LineStart), true)
}

pub open spec fn on_line_start(p: ParserView, c: char) -> (ParserView, bool) {
    if c == '@' {
        (ParserView { state: ParsingState::SectionStart, lyric: Seq::empty(), ..p }, false)
    } else if c == ' ' {
        (ParserView { lyric: p.lyric.push(' '), ..p }, false)
    } else if c == '-' {
        (ParserView { state: ParsingState::SubsectionDelim(1), lyric: p.lyric.push('-'), ..p }, false)
    } else {
        (with_state(p, ParsingState::MeasureStart), true)
    }
}

pub open spec fn on_measure_start(p: ParserView) -> (ParserView, bool) {
    (
        ParserView {
            state: ParsingState::BlockStart,
            line_buffer: p.line_buffer.push(Seq::empty()),
            ..p
        },
        true,
    )
}

pub open spec fn on_block_start(p: ParserView) -> (ParserView, bool) {
    let m = p.line_buffer.last();
    (
        ParserView {
            state: ParsingState::MaybeLyricBlock,
            line_buffer: p.line_buffer.update(
                p.line_buffer.len() - 1,
                m.push((Seq::empty(), Seq::empty())),
            ),
            ..p
        },
        true,
    )
}

/// The chord block held in the lyric buffer, read into the current block.
pub open spec fn chord_block(p: ParserView) -> Option<ParserView> {
    match spec_block(p.lyric) {
        None => None,
        Some(b) => {
            let off = p.byte_offset - utf8_len(p.lyric);
            let shifted = Seq::new(b.errors.len(), |i: int| shift_error(b.errors[i], off, p.line));
            let extra = if b.rest.len() > 0 {
                seq![
                    ParseErrorView {
                        start: off as usize,
                        end: p.byte_offset,
                        line: p.line,
                        kind: ErrorKindView::MalformedMusicEvent(b.rest),
                    },
                ]
            } else {
                Seq::empty()
            };
            let blk = last_block(p);
            let q = with_last_block(p, (b.events, blk.1));
            Some(
                ParserView {
                    errors: p.errors + shifted + extra,
                    lyric: Seq::empty(),
                    chord: Seq::empty(),
                    state: ParsingState::TrueLyricBlock,
                    ..q
                },
            )
        },
    }
}

pub open spec fn on_maybe_lyric(p: ParserView, c: char) -> Option<(ParserView, bool)> {
    if c == '\n' {
        Some((with_state(flush_lyrics(p), ParsingState::LineEnd), true))
    } else if c == '·' || c == '*' {
        match chord_block(p) {
            Some(q) => Some((q, false)),
            None => None,
        }
    } else if c == '|' {
        Some((with_state(flush_lyrics(p), ParsingState::MeasureStart), false))
    } else if c == '´' || c == '`' {
        Some((with_state(flush_lyrics(p), ParsingState::BlockStart), false))
    } else {
        Some((ParserView { lyric: p.lyric.push(c), ..p }, false))
    }
}

/// The lyric buffer as one text of the current block, the buffer emptied.
pub open spec fn take_lyric(p: ParserView) -> ParserView {
    ParserView { lyric: Seq::empty(), ..push_lyrics(p, seq![LyricEventView::Text(p.lyric)]) }
}

pub open spec fn on_true_lyric(p: ParserView, c: char) -> (ParserView, bool) {
    if c == '|' {
        (with_state(take_lyric(p), ParsingState::MeasureStart), false)
    } else if c == '´' || c == '`' {
        (with_state(take_lyric(p), ParsingState::BlockStart), false)
    } else if c == '·' || c == '*' {
        (p, false)
    } else if c == '^' {
        (push_lyrics(take_lyric(p), seq![LyricEventView::Break]), false)
    } else if c == '\n' {
        (with_state(take_lyric(p), ParsingState::LineEnd), true)
    } else {
        (ParserView { lyric: p.lyric.push(c), ..p }, false)
    }
}

pub open spec fn on_line_end(p: ParserView) -> (ParserView, bool) {
    let q = ParserView { state: ParsingState::LineStart, line_buffer: Seq::empty(), ..p };
    if !p.line_has_content {
        (q, false)
    } else {
        let sub = last_subsection(p);
        (
            with_last_subsection(
                q,
                SubsectionView { lines: sub.lines.push(make_line(p.line_buffer)), ..sub },
            ),
            false,
        )
    }
}

pub open spec fn on_subsection_delim(p: ParserView, n: u8, c: char) -> (ParserView, bool) {
    if n == 1 {
        if c == '-' {
            (
                ParserView {
                    state: ParsingState::SubsectionDelim(2),
                    lyric: p.lyric.push('-'),
                    ..p
                },
                false,
            )
        } else {
            (with_state(p, ParsingState::MeasureStart), true)
        }
    } else if n == 2 {
        if c == '-' {
            (ParserView { state: ParsingState::SubsectionDelim(3), lyric: Seq::empty(), ..p }, false)
        } else if c == '!' {
            (ParserView { state: ParsingState::SubsectionMetaArg, lyric: Seq::empty(), ..p }, false)
        } else {
            (with_state(p, ParsingState::MeasureStart), true)
        }
    } else if n == 3 {
        if c == '\n' {
            (with_state(p, ParsingState::SubsectionStart), false)
        } else {
            (p, false)
        }
    } else {
        (p, false)
    }
}

pub open spec fn on_subsection_meta_val(p: ParserView, c: char) -> (ParserView, bool) {
    if c == '\n' {
        let sub = last_subsection(p);
        let q = with_last_subsection(
            p,
            SubsectionView {
                metadata: assoc_put(sub.metadata, trim(p.meta_arg), trim(p.meta_val)),
                ..sub
            },
        );
        (
            ParserView {
                meta_arg: Seq::empty(),
                meta_val: Seq::empty(),
                state: ParsingState::LineStart,
                ..q
            },
            false,
        )
    } else {
        (ParserView { meta_val: p.meta_val.push(c), ..p }, false)
    }
}

/// One transition of the parser on `c`, and whether `c` is handled again in
/// the new state.
pub open spec fn dispatch(p: ParserView, c: char) -> Option<(ParserView, bool)> {
    match p.state {
        ParsingState::MetaStart => Some(on_meta_start(p, c)),
        ParsingState::MetaArg => Some(
            on_meta_arg(p, c, ParsingState::MetaVal, ParsingState::MetaStart),
        ),
        ParsingState::MetaVal => on_meta_val(p, c),
        ParsingState::SectionStart => Some(on_section_start(p)),
        ParsingState::SectionHeadId => Some(on_section_head_id(p, c)),
        ParsingState::SectionHeadDesc => Some(on_section_head_desc(p, c)),
        ParsingState::SubsectionStart => Some(on_subsection_start(p)),
        ParsingState::LineStart => Some(on_line_start(p, c)),
        ParsingState::MeasureStart => Some(on_measure_start(p)),
        ParsingState::BlockStart => Some(on_block_start(p)),
        ParsingState::MaybeLyricBlock => on_maybe_lyric(p, c),
        ParsingState::TrueLyricBlock => Some(on_true_lyric(p, c)),
        ParsingState::LineEnd => Some(on_line_end(p)),
        ParsingState::SubsectionDelim(n) => Some(on_subsection_delim(p, n, c)),
        ParsingState::SubsectionMetaArg => Some(
            on_meta_arg(p, c, ParsingState::SubsectionMetaVal, ParsingState::LineStart),
        ),
        ParsingState::SubsectionMetaVal => Some(on_subsection_meta_val(p, c)),
    }
}

/// Rank of a state along the chains of transitions that handle a
/// character again.
pub open spec fn rank(st: ParsingState) -> nat {
    match st {
        ParsingState::MetaStart => 2,
        ParsingState::MetaArg => 1,
        ParsingState::MetaVal => 1,
        ParsingState::SectionStart => 3,
        ParsingState::SectionHeadId => 2,
        ParsingState::SectionHeadDesc => 1,
        ParsingState::SubsectionStart => 7,
        ParsingState::LineStart => 6,
        ParsingState::MeasureStart => 5,
        ParsingState::BlockStart => 4,
        ParsingState::MaybeLyricBlock => 3,
        ParsingState::TrueLyricBlock => 3,
        ParsingState::LineEnd => 2,
        ParsingState::SubsectionDelim(_) => 7,
        ParsingState::SubsectionMetaArg => 1,
        ParsingState::SubsectionMetaVal => 1,
    }
}

/// The transitions on `c` from `p` until one does not hand `c` on.
/// (Every hand-on lowers the rank; the branch where it would not is never taken.)
pub open spec fn run_char(p: ParserView, c: char) -> Option<ParserView>
    decreases rank(p.state),
{
    match dispatch(p, c) {
        None => None,
        Some((q, again)) => if !again {
            Some(q)
        } else if rank(q.state) < rank(p.state) {
            run_char(q, c)
        } else {
            None
        },
    }
}

/// The parser marked as processing once it reads its first character.
pub open spec fn started(p: ParserView) -> ParserView {
    if p.status == ParserStatus::New {
        ParserView { status: ParserStatus::Processing, ..p }
    } else {
        p
    }
}

/// Meaning of `parse_char`: the parser after reading `c`.
pub open spec fn spec_step(p: ParserView, c: char) -> Option<ParserView> {
    let p1 = started(p);
    if c == '\r' {
        if p1.byte_offset + 1 > usize::MAX {
            None
        } else {
            Some(ParserView { byte_offset: (p1.byte_offset + 1) as usize, ..p1 })
        }
    } else {
        match run_char(p1, c) {
            None => None,
            Some(p2) => {
                if c == '\n' && p2.line + 1 > usize::MAX {
                    None
                } else if p2.byte_offset + char_width(c) > usize::MAX {
                    None
                } else {
                    let p3 = if c == '\n' {
                        ParserView { line: (p2.line + 1) as usize, line_has_content: false, ..p2 }
                    } else if !is_ws(c) {
                        ParserView { line_has_content: true, ..p2 }
                    } else {
                        p2
                    };
                    Some(ParserView { byte_offset: (p3.byte_offset + char_width(c)) as usize, ..p3 })
                }
            },
        }
    }
}

/// Meaning of `parse_str`: the parser after reading the characters of `s`
/// in order.
pub open spec fn spec_run(p: ParserView, s: Seq<char>) -> Option<ParserView>
    decreases s.len(),
{
    if s.len() == 0 {
        Some(p)
    } else {
        match spec_run(p, s.drop_last()) {
            None => None,
            Some(q) => spec_step(q, s.last()),
        }
    }
}

} // verus!

verus! {

// ----- building lines -----

type LineBuffer = Vec<Vec<(Vec<MusicEvent>, Vec<LyricEvent>)>>;

fn line_has_chords(lb: &LineBuffer) -> (r: bool)
    ensures
        r == has_chords(lb.deep_view()),
{
    let ghost v = lb.deep_view();
    let mut i: usize = 0;
    while i < lb.len()
        invariant
            v == lb.deep_view(),
            i <= lb.len(),
            forall|a: int, b: int| 0 <= a < i && 0 <= b < v[a].len() ==> #[trigger] v[a][b].0.len() == 0,
        decreases lb.len() - i,
    {
        let m = &lb[i];
        let mut j: usize = 0;
        while j < m.len()
            invariant
                v == lb.deep_view(),
                i < lb.len(),
                m == lb@[i as int],
                j <= m.len(),
                forall|a: int, b: int| 0 <= a < i && 0 <= b < v[a].len() ==> #[trigger] v[a][b].0.len() == 0,
                forall|b: int| 0 <= b < j ==> #[trigger] v[i as int][b].0.len() == 0,
            decreases m.len() - j,
        {
            assert(v[i as int][j as int].0 == m@[j as int].0.deep_view());
            if m[j].0.len() > 0 {
                assert(v[i as int][j as int].0.len() > 0);
                return true;
            }
            j = j + 1;
        }
        i = i + 1;
    }
    false
}

pub(crate) fn is_nonblank_text(e: &LyricEvent) -> (r: bool)
    ensures
        r == nonblank_text(e.deep_view()),
{
    match e {
        LyricEvent::LyricText(t) => {
            let tt = str_trim(t.as_str());
            tt.unicode_len() > 0
        },
        LyricEvent::LyricBreak => false,
    }
}

fn line_has_lyrics(lb: &LineBuffer) -> (r: bool)
    ensures
        r == has_lyrics(lb.deep_view()),
{
    let ghost v = lb.deep_view();
    let mut i: usize = 0;
    while i < lb.len()
        invariant
            v == lb.deep_view(),
            i <= lb.len(),
            forall|a: int, b: int, k: int|
                0 <= a < i && 0 <= b < v[a].len() && 0 <= k < v[a][b].1.len() ==> !nonblank_text(
                    #[trigger] v[a][b].1[k],
                ),
        decreases lb.len() - i,
    {
        let m = &lb[i];
        let mut j: usize = 0;
        while j < m.len()
            invariant
                v == lb.deep_view(),
                i < lb.len(),
                m == lb@[i as int],
                j <= m.len(),
                forall|a: int, b: int, k: int|
                    0 <= a < i && 0 <= b < v[a].len() && 0 <= k < v[a][b].1.len()
                        ==> !nonblank_text(#[trigger] v[a][b].1[k]),
                forall|b: int, k: int|
                    0 <= b < j && 0 <= k < v[i as int][b].1.len() ==> !nonblank_text(
                        #[trigger] v[i as int][b].1[k],
                    ),
            decreases m.len() - j,
        {
            let ly = &m[j].1;
            let mut k: usize = 0;
            while k < ly.len()
                invariant
                    v == lb.deep_view(),
                    i < lb.len(),
                    m == lb@[i as int],
                    j < m.len(),
                    ly == m@[j as int].1,
                    k <= ly.len(),
                    forall|a: int, b: int, kk: int|
                        0 <= a < i && 0 <= b < v[a].len() && 0 <= kk < v[a][b].1.len()
                            ==> !nonblank_text(#[trigger] v[a][b].1[kk]),
                    forall|b: int, kk: int|
                        0 <= b < j && 0 <= kk < v[i as int][b].1.len() ==> !nonblank_text(
                            #[trigger] v[i as int][b].1[kk],
                        ),
                    forall|kk: int| 0 <= kk < k ==> !nonblank_text(#[trigger] v[i as int][j as int].1[kk]),
                decreases ly.len() - k,
            {
                assert(v[i as int][j as int].1[k as int] == ly@[k as int].deep_view());
                if is_nonblank_text(&ly[k]) {
                    return true;
                }
                k = k + 1;
            }
            assert forall|b: int, kk: int|
                0 <= b < j + 1 && 0 <= kk < v[i as int][b].1.len() implies !nonblank_text(
                v[i as int][b].1[kk],
            ) by {
                if b < j {
                } else {
                    assert(0 <= kk < k);
                }
            }
            j = j + 1;
        }
        assert(v[i as int].len() == m.len());
        assert forall|a: int, b: int, kk: int|
            0 <= a < i + 1 && 0 <= b < v[a].len() && 0 <= kk < v[a][b].1.len() implies !nonblank_text(
            v[a][b].1[kk],
        ) by {
            if a < i {
                assert(!nonblank_text(v[a][b].1[kk]));
            } else {
                assert(a == i);
                assert(0 <= b < j);
                assert(!nonblank_text(v[i as int][b].1[kk]));
            }
        }
        i = i + 1;
    }
    false
}


fn mixed_line(lb: LineBuffer) -> (r: Line)
    ensures
        r.deep_view() == LineView::Mixed(
            Seq::new(lb.deep_view().len(), |i: int| Some(lb.deep_view()[i])),
        ),
{
    let ghost v = lb.deep_view();
    let mut rest = lb;
    let mut out: Vec<Option<Vec<(Vec<MusicEvent>, Vec<LyricEvent>)>>> = Vec::new();
    while rest.len() > 0
        invariant
            out.len() + rest.len() == v.len(),
            forall|i: int| 0 <= i < out.len() ==> #[trigger] out.deep_view()[i] == Some(v[i]),
            forall|i: int| 0 <= i < rest.len() ==> #[trigger] rest.deep_view()[i] == v[out.len() + i],
        decreases rest.len(),
    {
        let ghost before = rest.deep_view();
        let m = rest.remove(0);
        assert(m.deep_view() == before[0]);
        assert forall|i: int| 0 <= i < rest.len() implies #[trigger] rest.deep_view()[i] == v[out.len() + 1 + i] by {
            assert(rest.deep_view()[i] == before[i + 1]);
        }
        let ghost od = out.deep_view();
        let ghost id = Some(m.deep_view());
        out.push(Some(m));
        assert(out.deep_view() =~= od.push(id));
    }
    let r = Line::Mixed(out);
    assert(out.deep_view() =~= Seq::new(v.len(), |i: int| Some(v[i])));
    r
}

fn chord_measure(m: Vec<(Vec<MusicEvent>, Vec<LyricEvent>)>) -> (r: Vec<Vec<MusicEvent>>)
    ensures
        r.deep_view() == Seq::new(m.deep_view().len(), |j: int| m.deep_view()[j].0),
{
    let ghost v = m.deep_view();
    let mut rest = m;
    let mut out: Vec<Vec<MusicEvent>> = Vec::new();
    while rest.len() > 0
        invariant
            out.len() + rest.len() == v.len(),
            forall|i: int| 0 <= i < out.len() ==> #[trigger] out.deep_view()[i] == v[i].0,
            forall|i: int| 0 <= i < rest.len() ==> #[trigger] rest.deep_view()[i] == v[out.len() + i],
        decreases rest.len(),
    {
        let ghost before = rest.deep_view();
        let (ch, _ly) = rest.remove(0);
        assert(ch.deep_view() == before[0].0);
        assert forall|i: int| 0 <= i < rest.len() implies #[trigger] rest.deep_view()[i] == v[out.len() + 1 + i] by {
            assert(rest.deep_view()[i] == before[i + 1]);
        }
        let ghost od = out.deep_view();
        let ghost id = ch.deep_view();
        out.push(ch);
        assert(out.deep_view() =~= od.push(id));
    }
    assert(out.deep_view() =~= Seq::new(v.len(), |j: int| v[j].0));
    out
}

fn lyric_measure(m: Vec<(Vec<MusicEvent>, Vec<LyricEvent>)>) -> (r: Vec<Vec<LyricEvent>>)
    ensures
        r.deep_view() == Seq::new(m.deep_view().len(), |j: int| m.deep_view()[j].1),
{
    let ghost v = m.deep_view();
    let mut rest = m;
    let mut out: Vec<Vec<LyricEvent>> = Vec::new();
    while rest.len() > 0
        invariant
            out.len() + rest.len() == v.len(),
            forall|i: int| 0 <= i < out.len() ==> #[trigger] out.deep_view()[i] == v[i].1,
            forall|i: int| 0 <= i < rest.len() ==> #[trigger] rest.deep_view()[i] == v[out.len() + i],
        decreases rest.len(),
    {
        let ghost before = rest.deep_view();
        let (_ch, ly) = rest.remove(0);
        assert(ly.deep_view() == before[0].1);
        assert forall|i: int| 0 <= i < rest.len() implies #[trigger] rest.deep_view()[i] == v[out.len() + 1 + i] by {
            assert(rest.deep_view()[i] == before[i + 1]);
        }
        let ghost od = out.deep_view();
        let ghost id = ly.deep_view();
        out.push(ly);
        assert(out.deep_view() =~= od.push(id));
    }
    assert(out.deep_view() =~= Seq::new(v.len(), |j: int| v[j].1));
    out
}

fn chords_line(lb: LineBuffer) -> (r: Line)
    ensures
        r.deep_view() == LineView::Chords(
            Seq::new(
                lb.deep_view().len(),
                |i: int| Some(Seq::new(lb.deep_view()[i].len(), |j: int| lb.deep_view()[i][j].0)),
            ),
        ),
{
    let ghost v = lb.deep_view();
    let mut rest = lb;
    let mut out: Vec<Option<Vec<Vec<MusicEvent>>>> = Vec::new();
    while rest.len() > 0
        invariant
            out.len() + rest.len() == v.len(),
            forall|i: int| 0 <= i < out.len() ==> #[trigger] out.deep_view()[i] == Some(Seq::new(v[i].len(), |j: int| v[i][j].0)),
            forall|i: int| 0 <= i < rest.len() ==> #[trigger] rest.deep_view()[i] == v[out.len() + i],
        decreases rest.len(),
    {
        let ghost before = rest.deep_view();
        let m = rest.remove(0);
        assert(m.deep_view() == before[0]);
        assert forall|i: int| 0 <= i < rest.len() implies #[trigger] rest.deep_view()[i] == v[out.len() + 1 + i] by {
            assert(rest.deep_view()[i] == before[i + 1]);
        }
        let cm = chord_measure(m);
        let ghost od = out.deep_view();
        let ghost id = Some(cm.deep_view());
        out.push(Some(cm));
        assert(out.deep_view() =~= od.push(id));
    }
    let ghost target = Seq::new(v.len(), |i: int| Some(Seq::new(v[i].len(), |j: int| v[i][j].0)));
    assert(out.deep_view() =~= target);
    Line::Chords(out)
}

fn lyrics_line(lb: LineBuffer) -> (r: Line)
    ensures
        r.deep_view() == LineView::Lyrics(
            Seq::new(
                lb.deep_view().len(),
                |i: int| Some(Seq::new(lb.deep_view()[i].len(), |j: int| lb.deep_view()[i][j].1)),
            ),
        ),
{
    let ghost v = lb.deep_view();
    let mut rest = lb;
    let mut out: Vec<Option<Vec<Vec<LyricEvent>>>> = Vec::new();
    while rest.len() > 0
        invariant
            out.len() + rest.len() == v.len(),
            forall|i: int| 0 <= i < out.len() ==> #[trigger] out.deep_view()[i] == Some(Seq::new(v[i].len(), |j: int| v[i][j].1)),
            forall|i: int| 0 <= i < rest.len() ==> #[trigger] rest.deep_view()[i] == v[out.len() + i],
        decreases rest.len(),
    {
        let ghost before = rest.deep_view();
        let m = rest.remove(0);
        assert(m.deep_view() == before[0]);
        assert forall|i: int| 0 <= i < rest.len() implies #[trigger] rest.deep_view()[i] == v[out.len() + 1 + i] by {
            assert(rest.deep_view()[i] == before[i + 1]);
        }
        let lm = lyric_measure(m);
        let ghost od = out.deep_view();
        let ghost id = Some(lm.deep_view());
        out.push(Some(lm));
        assert(out.deep_view() =~= od.push(id));
    }
    let ghost target = Seq::new(v.len(), |i: int| Some(Seq::new(v[i].len(), |j: int| v[i][j].1)));
    assert(out.deep_view() =~= target);
    Line::Lyrics(out)
}

/// The line that a line buffer makes (see `make_line`).
fn build_line(lb: LineBuffer) -> (r: Line)
    ensures
        r.deep_view() == make_line(lb.deep_view()),
{
    let hc = line_has_chords(&lb);
    let hl = line_has_lyrics(&lb);
    if hc && hl {
        mixed_line(lb)
    } else if hc {
        chords_line(lb)
    } else {
        lyrics_line(lb)
    }
}


impl SHBParser {
    fn last_section_set_name(&mut self, name: String)
        requires
            old(self)@.song.sections.len() > 0,
        ensures
            final(self)@ == with_last_section(
                old(self)@,
                SectionView { name: name@, ..last_section(old(self)@) },
            ),
    {
        let ghost old_secs = self.song.sections.deep_view();
        let mut sec = self.song.sections.pop().unwrap();
        sec.name = name;
        self.song.sections.push(sec);
        assert(self.song.sections.deep_view() =~= old_secs.update(
            old_secs.len() - 1,
            SectionView { name: name@, ..old_secs.last() },
        ));
    }

    fn last_section_set_description(&mut self, desc: String)
        requires
            old(self)@.song.sections.len() > 0,
        ensures
            final(self)@ == with_last_section(
                old(self)@,
                SectionView { description: desc@, ..last_section(old(self)@) },
            ),
    {
        let ghost old_secs = self.song.sections.deep_view();
        let mut sec = self.song.sections.pop().unwrap();
        sec.description = desc;
        self.song.sections.push(sec);
        assert(self.song.sections.deep_view() =~= old_secs.update(
            old_secs.len() - 1,
            SectionView { description: desc@, ..old_secs.last() },
        ));
    }

    fn last_section_push_subsection(&mut self)
        requires
            old(self)@.song.sections.len() > 0,
        ensures
            final(self)@ == with_last_section(
                old(self)@,
                SectionView {
                    subsections: last_section(old(self)@).subsections.push(empty_subsection()),
                    ..last_section(old(self)@)
                },
            ),
    {
        let ghost old_secs = self.song.sections.deep_view();
        let mut sec = self.song.sections.pop().unwrap();
        let ghost old_subs = sec.subsections.deep_view();
        sec.subsections.push(Subsection::default());
        assert(sec.subsections.deep_view() =~= old_subs.push(empty_subsection()));
        self.song.sections.push(sec);
        assert(self.song.sections.deep_view() =~= old_secs.update(
            old_secs.len() - 1,
            SectionView { subsections: old_subs.push(empty_subsection()), ..old_secs.last() },
        ));
    }

    fn last_subsection_push_line(&mut self, line: Line)
        requires
            old(self)@.song.sections.len() > 0,
            last_section(old(self)@).subsections.len() > 0,
        ensures
            final(self)@ == with_last_subsection(
                old(self)@,
                SubsectionView {
                    lines: last_subsection(old(self)@).lines.push(line.deep_view()),
                    ..last_subsection(old(self)@)
                },
            ),
    {
        let ghost old_secs = self.song.sections.deep_view();
        let ghost ld = line.deep_view();
        let mut sec = self.song.sections.pop().unwrap();
        let ghost old_subs = sec.subsections.deep_view();
        let mut sub = sec.subsections.pop().unwrap();
        let ghost old_lines = sub.lines.deep_view();
        sub.lines.push(line);
        assert(sub.lines.deep_view() =~= old_lines.push(ld));
        sec.subsections.push(sub);
        let ghost new_sub = SubsectionView { lines: old_lines.push(ld), ..old_subs.last() };
        assert(sec.subsections.deep_view() =~= old_subs.update(old_subs.len() - 1, new_sub));
        self.song.sections.push(sec);
        assert(self.song.sections.deep_view() =~= old_secs.update(
            old_secs.len() - 1,
            SectionView {
                subsections: old_subs.update(old_subs.len() - 1, new_sub),
                ..old_secs.last()
            },
        ));
    }

    fn last_subsection_put_meta(&mut self, key: String, val: String)
        requires
            old(self)@.song.sections.len() > 0,
            last_section(old(self)@).subsections.len() > 0,
        ensures
            final(self)@ == with_last_subsection(
                old(self)@,
                SubsectionView {
                    metadata: assoc_put(last_subsection(old(self)@).metadata, key@, val@),
                    ..last_subsection(old(self)@)
                },
            ),
    {
        let ghost old_secs = self.song.sections.deep_view();
        let ghost kv = (key@, val@);
        let mut sec = self.song.sections.pop().unwrap();
        let ghost old_subs = sec.subsections.deep_view();
        let mut sub = sec.subsections.pop().unwrap();
        let ghost old_meta = sub.metadata.deep_view();
        put_entry(&mut sub.metadata, key, val);
        sec.subsections.push(sub);
        let ghost new_sub = SubsectionView { metadata: assoc_put(old_meta, kv.0, kv.1), ..old_subs.last() };
        assert(sec.subsections.deep_view() =~= old_subs.update(old_subs.len() - 1, new_sub));
        self.song.sections.push(sec);
        assert(self.song.sections.deep_view() =~= old_secs.update(
            old_secs.len() - 1,
            SectionView {
                subsections: old_subs.update(old_subs.len() - 1, new_sub),
                ..old_secs.last()
            },
        ));
    }

    fn last_block_append_lyrics(&mut self, evs: Vec<LyricEvent>)
        requires
            old(self)@.line_buffer.len() > 0,
            old(self)@.line_buffer.last().len() > 0,
        ensures
            final(self)@ == push_lyrics(old(self)@, evs.deep_view()),
    {
        let ghost old_lb = self.line_buffer.deep_view();
        let ghost ed = evs.deep_view();
        let mut m = self.line_buffer.pop().unwrap();
        let ghost old_m = m.deep_view();
        let (ch, mut ly) = m.pop().unwrap();
        let ghost old_ly = ly.deep_view();
        let mut evs = evs;
        ly.append(&mut evs);
        assert(ly.deep_view() =~= old_ly + ed);
        let ghost nb = (ch.deep_view(), old_ly + ed);
        m.push((ch, ly));
        assert(m.deep_view() =~= old_m.update(old_m.len() - 1, nb));
        self.line_buffer.push(m);
        assert(self.line_buffer.deep_view() =~= old_lb.update(
            old_lb.len() - 1,
            old_m.update(old_m.len() - 1, nb),
        ));
    }

    fn last_block_set_events(&mut self, evs: Vec<MusicEvent>)
        requires
            old(self)@.line_buffer.len() > 0,
            old(self)@.line_buffer.last().len() > 0,
        ensures
            final(self)@ == with_last_block(
                old(self)@,
                (evs.deep_view(), last_block(old(self)@).1),
            ),
    {
        let ghost old_lb = self.line_buffer.deep_view();
        let ghost ed = evs.deep_view();
        let mut m = self.line_buffer.pop().unwrap();
        let ghost old_m = m.deep_view();
        let (_ch, ly) = m.pop().unwrap();
        let ghost nb = (ed, ly.deep_view());
        m.push((evs, ly));
        assert(m.deep_view() =~= old_m.update(old_m.len() - 1, nb));
        self.line_buffer.push(m);
        assert(self.line_buffer.deep_view() =~= old_lb.update(
            old_lb.len() - 1,
            old_m.update(old_m.len() - 1, nb),
        ));
    }
}


impl SHBParser {
    fn flush_lyrics(&mut self)
        requires
            old(self)@.line_buffer.len() > 0,
            old(self)@.line_buffer.last().len() > 0,
        ensures
            final(self)@ == flush_lyrics(old(self)@),
    {
        let ghost buf = self.lyric_buffer@;
        let mut evs: Vec<LyricEvent> = Vec::new();
        let mut fs: usize = 0;
        let mut j: usize = 0;
        let n = self.lyric_buffer.as_str().unicode_len();
        assert(evs.deep_view() =~= Seq::<LyricEventView>::empty());
        while j < n
            invariant
                buf == self.lyric_buffer@,
                n == buf.len(),
                fs <= j <= n,
                lyric_scan(buf, 0, 0, Seq::empty()) == lyric_scan(buf, j as int, fs as int, evs.deep_view()),
            decreases n - j,
        {
            let c = self.lyric_buffer.as_str().get_char(j);
            if c == '^' {
                if j > fs {
                    let t = self.lyric_buffer.as_str().substring_char(fs, j).to_owned();
                    let ghost od = evs.deep_view();
                    let ghost td = LyricEventView::Text(t@);
                    evs.push(LyricEvent::LyricText(t));
                    assert(evs.deep_view() =~= od.push(td));
                    fs = j + 1;
                }
                let ghost od2 = evs.deep_view();
                evs.push(LyricEvent::LyricBreak);
                assert(evs.deep_view() =~= od2.push(LyricEventView::Break));
            }
            j = j + 1;
        }
        if fs < n {
            let t = self.lyric_buffer.as_str().substring_char(fs, n).to_owned();
            let ghost od = evs.deep_view();
            let ghost td = LyricEventView::Text(t@);
            evs.push(LyricEvent::LyricText(t));
            assert(evs.deep_view() =~= od.push(td));
            self.lyric_buffer = String::new();
            let ghost mid = self@;
            self.last_block_append_lyrics(evs);
            assert(self@ == ParserView { lyric: Seq::empty(), ..push_lyrics(old(self)@, evs.deep_view()) });
        } else {
            self.last_block_append_lyrics(evs);
        }
    }

    /// The lyric buffer as one text of the current block.
    fn take_lyric(&mut self)
        requires
            old(self)@.line_buffer.len() > 0,
            old(self)@.line_buffer.last().len() > 0,
        ensures
            final(self)@ == take_lyric(old(self)@),
    {
        let t = self.lyric_buffer.clone();
        self.lyric_buffer = String::new();
        let mut evs: Vec<LyricEvent> = Vec::new();
        evs.push(LyricEvent::LyricText(t));
        assert(evs.deep_view() =~= seq![LyricEventView::Text(old(self)@.lyric)]);
        self.last_block_append_lyrics(evs);
    }
}


impl SHBParser {
    fn on_meta_start(&mut self, c: char) -> (r: bool)
        ensures
            (final(self)@, r) == on_meta_start(old(self)@, c),
    {
        if is_whitespace(c) {
            false
        } else if c == '@' {
            self.state = ParsingState::SectionStart;
            false
        } else if c == '_' || is_alphanumeric(c) {
            self.state = ParsingState::MetaArg;
            true
        } else {
            false
        }
    }

    fn on_meta_arg(&mut self, c: char, next_val: ParsingState, next_line: ParsingState) -> (r: bool)
        ensures
            (final(self)@, r) == on_meta_arg(old(self)@, c, next_val, next_line),
    {
        if c == ':' {
            self.state = next_val;
        } else if c == '\n' {
            self.meta_arg_buffer = String::new();
            self.state = next_line;
        } else if c == ' ' || c == '_' || is_alphanumeric(c) {
            string_push(&mut self.meta_arg_buffer, c);
        }
        false
    }

    fn on_meta_val(&mut self, c: char) -> (r: Option<bool>)
        requires
            view_wf(old(self)@, 0),
        ensures
            match on_meta_val(old(self)@, c) {
                Some((q, again)) => r == Some(again) && final(self)@ == q,
                None => r is None,
            },
    {
        if c == '\n' {
            let ghost p = self@;
            proof {
                reveal_strlit("name");
                reveal_strlit("tonic");
                reveal_strlit("bpm");
            }
            let trim_arg = str_trim(self.meta_arg_buffer.as_str());
            let trim_val = str_trim(self.meta_val_buffer.as_str());
            if str_eq(trim_arg, "tonic") {
                if let Lexed::Panic = lex_tone_root(trim_val) {
                    return None;
                }
            }
            if str_eq(trim_arg, "name") {
                self.song.name = trim_val.to_owned();
            } else if str_eq(trim_arg, "tonic") {
                match parse_tonality(trim_val) {
                    Some((root, kind)) => {
                        self.song.tonic = root;
                        self.song.tonic_kind = kind;
                    },
                    None => {
                        let vlen = str_byte_len(self.meta_val_buffer.as_str());
                        let err_offset = self.byte_offset - vlen;
                        let e = SHBParseError {
                            loc: core::ops::Range { start: err_offset, end: self.byte_offset },
                            line: self.line,
                            kind: SHBErrorKind::WrongTonicFormat,
                        };
                        let ghost od = self.errors.deep_view();
                        let ghost ed = e.deep_view();
                        self.errors.push(e);
                        assert(self.errors.deep_view() =~= od.push(ed));
                    },
                }
            } else if str_eq(trim_arg, "bpm") {
                if is_float_text(trim_val) {
                    self.song.bpm = Some(trim_val.to_owned());
                }
            } else {
                let k = trim_arg.to_owned();
                let v = trim_val.to_owned();
                put_entry(&mut self.song.metadata, k, v);
            }
            self.meta_arg_buffer = String::new();
            self.meta_val_buffer = String::new();
            self.state = ParsingState::MetaStart;
            Some(false)
        } else {
            string_push(&mut self.meta_val_buffer, c);
            Some(false)
        }
    }

    fn on_section_start(&mut self) -> (r: bool)
        ensures
            (final(self)@, r) == on_section_start(old(self)@),
    {
        let ghost od = self.song.sections.deep_view();
        self.song.sections.push(Section::default());
        assert(self.song.sections.deep_view() =~= od.push(empty_section()));
        self.state = ParsingState::SectionHeadId;
        true
    }

    fn on_section_head_id(&mut self, c: char) -> (r: bool)
        requires
            old(self)@.song.sections.len() > 0,
        ensures
            (final(self)@, r) == on_section_head_id(old(self)@, c),
    {
        if c == '\n' || is_whitespace(c) {
            let name = str_trim(self.section_id_buffer.as_str()).to_owned();
            self.last_section_set_name(name);
            self.section_id_buffer = String::new();
            self.state = if c == '\n' {
                ParsingState::SubsectionStart
            } else {
                ParsingState::SectionHeadDesc
            };
        } else if is_alphanumeric(c) || c == '~' {
            string_push(&mut self.section_id_buffer, c);
        }
        false
    }

    fn on_section_head_desc(&mut self, c: char) -> (r: bool)
        requires
            old(self)@.song.sections.len() > 0,
        ensures
            (final(self)@, r) == on_section_head_desc(old(self)@, c),
    {
        if c == '\n' {
            let desc = str_trim(self.section_desc_buffer.as_str()).to_owned();
            self.last_section_set_description(desc);
            self.section_desc_buffer = String::new();
            self.state = ParsingState::SubsectionStart;
        } else {
            string_push(&mut self.section_desc_buffer, c);
        }
        false
    }

    fn on_subsection_start(&mut self) -> (r: bool)
        requires
            old(self)@.song.sections.len() > 0,
        ensures
            (final(self)@, r) == on_subsection_start(old(self)@),
    {
        self.last_section_push_subsection();
        self.state = ParsingState::LineStart;
        true
    }

    fn on_line_start(&mut self, c: char) -> (r: bool)
        ensures
            (final(self)@, r) == on_line_start(old(self)@, c),
    {
        if c == '@' {
            self.state = ParsingState::SectionStart;
            self.lyric_buffer = String::new();
            false
        } else if c == ' ' {
            string_push(&mut self.lyric_buffer, ' ');
            false
        } else if c == '-' {
            string_push(&mut self.lyric_buffer, '-');
            self.state = ParsingState::SubsectionDelim(1);
            false
        } else {
            self.state = ParsingState::MeasureStart;
            true
        }
    }

    fn on_measure_start(&mut self) -> (r: bool)
        ensures
            (final(self)@, r) == on_measure_start(old(self)@),
    {
        let ghost od = self.line_buffer.deep_view();
        let nm: Vec<(Vec<MusicEvent>, Vec<LyricEvent>)> = Vec::new();
        assert(nm.deep_view() =~= Seq::<(Seq<MusicEventView>, Seq<LyricEventView>)>::empty());
        self.line_buffer.push(nm);
        assert(self.line_buffer.deep_view() =~= od.push(Seq::empty()));
        self.state = ParsingState::BlockStart;
        true
    }

    fn on_block_start(&mut self) -> (r: bool)
        requires
            old(self)@.line_buffer.len() > 0,
        ensures
            (final(self)@, r) == on_block_start(old(self)@),
    {
        let ghost od = self.line_buffer.deep_view();
        let mut m = self.line_buffer.pop().unwrap();
        let ghost om = m.deep_view();
        let e1: Vec<MusicEvent> = Vec::new();
        let e2: Vec<LyricEvent> = Vec::new();
        assert(e1.deep_view() =~= Seq::<MusicEventView>::empty());
        assert(e2.deep_view() =~= Seq::<LyricEventView>::empty());
        m.push((e1, e2));
        assert(m.deep_view() =~= om.push((Seq::empty(), Seq::empty())));
        self.line_buffer.push(m);
        assert(self.line_buffer.deep_view() =~= od.update(
            od.len() - 1,
            om.push((Seq::empty(), Seq::empty())),
        ));
        self.state = ParsingState::MaybeLyricBlock;
        true
    }

    fn chord_block(&mut self) -> (ok: bool)
        requires
            view_wf(old(self)@, 0),
            in_block(old(self)@.state),
        ensures
            match chord_block(old(self)@) {
                Some(q) => ok && final(self)@ == q,
                None => !ok,
            },
    {
        let ghost p = self@;
        assert(p.chord =~= Seq::<char>::empty());
        std::mem::swap(&mut self.lyric_buffer, &mut self.chord_buffer);
        proof {
            lemma_block_bounds(p.lyric);
            lemma_trim_len(p.lyric);
        }
        let blen = str_byte_len(self.chord_buffer.as_str());
        let err_offset = self.byte_offset - blen;
        let (events, remainder, c_errors) = match lex_music_block(self.chord_buffer.as_str()) {
            Some(x) => x,
            None => {
                return false;
            },
        };
        let ghost b = spec_block(p.lyric)->0;
        let rem_nonempty = remainder.unicode_len() > 0;
        let rem_owned = remainder.to_owned();
        let mut shifted: Vec<SHBParseError> = Vec::new();
        let mut rest = c_errors;
        while rest.len() > 0
            invariant
                shifted.len() + rest.len() == b.errors.len(),
                forall|i: int| 0 <= i < shifted.len() ==> #[trigger] shifted.deep_view()[i]
                    == shift_error(b.errors[i], err_offset as int, p.line),
                forall|i: int| 0 <= i < rest.len() ==> #[trigger] rest.deep_view()[i]
                    == b.errors[shifted.len() + i],
                forall|i: int| 0 <= i < b.errors.len() ==> error_within(#[trigger] b.errors[i], utf8_len(trim(p.lyric))),
                utf8_len(trim(p.lyric)) <= blen,
                err_offset + blen == p.byte_offset,
                self.line == p.line,
            decreases rest.len(),
        {
            let ghost before = rest.deep_view();
            let e = rest.remove(0);
            assert(e.deep_view() == before[0]);
            assert(error_within(b.errors[shifted.len() as int], utf8_len(trim(p.lyric))));
            assert forall|i: int| 0 <= i < rest.len() implies #[trigger] rest.deep_view()[i] == b.errors[shifted.len() + 1 + i] by {
                assert(rest.deep_view()[i] == before[i + 1]);
            }
            let ne = SHBParseError {
                loc: core::ops::Range { start: e.loc.start + err_offset, end: e.loc.end + err_offset },
                line: self.line,
                kind: e.kind,
            };
            let ghost od = shifted.deep_view();
            let ghost nd = ne.deep_view();
            shifted.push(ne);
            assert(shifted.deep_view() =~= od.push(nd));
        }
        let ghost shifted_v = Seq::new(b.errors.len(), |i: int| shift_error(b.errors[i], err_offset as int, p.line));
        assert(shifted.deep_view() =~= shifted_v);
        let ghost oe = self.errors.deep_view();
        self.errors.append(&mut shifted);
        assert(self.errors.deep_view() =~= oe + shifted_v);
        if rem_nonempty {
            let e = SHBParseError {
                loc: core::ops::Range { start: err_offset, end: self.byte_offset },
                line: self.line,
                kind: SHBErrorKind::MalformedMusicEvent(rem_owned),
            };
            let ghost od = self.errors.deep_view();
            let ghost ed = e.deep_view();
            self.errors.push(e);
            assert(self.errors.deep_view() =~= od.push(ed));
        }
        self.last_block_set_events(events);
        self.chord_buffer = String::new();
        self.state = ParsingState::TrueLyricBlock;
        proof {
            let extra = if b.rest.len() > 0 {
                seq![
                    ParseErrorView {
                        start: err_offset,
                        end: p.byte_offset,
                        line: p.line,
                        kind: ErrorKindView::MalformedMusicEvent(b.rest),
                    },
                ]
            } else {
                Seq::empty()
            };
            assert(self.errors.deep_view() =~= p.errors + shifted_v + extra);
            let q = with_last_block(p, (b.events, last_block(p).1));
            assert(self.line_buffer.deep_view() == q.line_buffer);
            assert(self.lyric_buffer@ == Seq::<char>::empty());
            assert(self.chord_buffer@ == Seq::<char>::empty());
            assert(self.song.deep_view() == p.song);
        }
        true
    }
}


impl SHBParser {
    fn on_maybe_lyric(&mut self, c: char) -> (r: Option<bool>)
        requires
            view_wf(old(self)@, 0),
            in_block(old(self)@.state),
        ensures
            match on_maybe_lyric(old(self)@, c) {
                Some((q, again)) => r == Some(again) && final(self)@ == q,
                None => r is None,
            },
    {
        if c == '\n' {
            self.flush_lyrics();
            self.state = ParsingState::LineEnd;
            Some(true)
        } else if c == '·' || c == '*' {
            if self.chord_block() {
                Some(false)
            } else {
                None
            }
        } else if c == '|' {
            self.flush_lyrics();
            self.state = ParsingState::MeasureStart;
            Some(false)
        } else if c == '´' || c == '`' {
            self.flush_lyrics();
            self.state = ParsingState::BlockStart;
            Some(false)
        } else {
            string_push(&mut self.lyric_buffer, c);
            Some(false)
        }
    }

    fn on_true_lyric(&mut self, c: char) -> (r: bool)
        requires
            view_wf(old(self)@, 0),
            in_block(old(self)@.state),
        ensures
            (final(self)@, r) == on_true_lyric(old(self)@, c),
    {
        if c == '|' {
            self.take_lyric();
            self.state = ParsingState::MeasureStart;
            false
        } else if c == '´' || c == '`' {
            self.take_lyric();
            self.state = ParsingState::BlockStart;
            false
        } else if c == '·' || c == '*' {
            false
        } else if c == '^' {
            self.take_lyric();
            let mut evs: Vec<LyricEvent> = Vec::new();
            evs.push(LyricEvent::LyricBreak);
            assert(evs.deep_view() =~= seq![LyricEventView::Break]);
            self.last_block_append_lyrics(evs);
            false
        } else if c == '\n' {
            self.take_lyric();
            self.state = ParsingState::LineEnd;
            true
        } else {
            string_push(&mut self.lyric_buffer, c);
            false
        }
    }

    fn on_line_end(&mut self) -> (r: bool)
        requires
            view_wf(old(self)@, 0),
            in_subsection(old(self)@.state),
        ensures
            (final(self)@, r) == on_line_end(old(self)@),
    {
        self.state = ParsingState::LineStart;
        let mut lb: LineBuffer = Vec::new();
        std::mem::swap(&mut lb, &mut self.line_buffer);
        assert(self.line_buffer.deep_view() =~= Seq::<Seq<(Seq<MusicEventView>, Seq<LyricEventView>)>>::empty());
        if !self.line_has_content {
            return false;
        }
        let line = build_line(lb);
        self.last_subsection_push_line(line);
        false
    }

    fn on_subsection_delim(&mut self, n: u8, c: char) -> (r: bool)
        ensures
            (final(self)@, r) == on_subsection_delim(old(self)@, n, c),
    {
        if n == 1 {
            if c == '-' {
                self.state = ParsingState::SubsectionDelim(2);
                string_push(&mut self.lyric_buffer, '-');
                false
            } else {
                self.state = ParsingState::MeasureStart;
                true
            }
        } else if n == 2 {
            if c == '-' {
                self.state = ParsingState::SubsectionDelim(3);
                self.lyric_buffer = String::new();
                false
            } else if c == '!' {
                self.state = ParsingState::SubsectionMetaArg;
                self.lyric_buffer = String::new();
                false
            } else {
                self.state = ParsingState::MeasureStart;
                true
            }
        } else if n == 3 {
            if c == '\n' {
                self.state = ParsingState::SubsectionStart;
            }
            false
        } else {
            false
        }
    }

    fn on_subsection_meta_val(&mut self, c: char) -> (r: bool)
        requires
            view_wf(old(self)@, 0),
            in_subsection(old(self)@.state),
        ensures
            (final(self)@, r) == on_subsection_meta_val(old(self)@, c),
    {
        if c == '\n' {
            let k = str_trim(self.meta_arg_buffer.as_str()).to_owned();
            let v = str_trim(self.meta_val_buffer.as_str()).to_owned();
            self.last_subsection_put_meta(k, v);
            self.meta_arg_buffer = String::new();
            self.meta_val_buffer = String::new();
            self.state = ParsingState::LineStart;
            false
        } else {
            string_push(&mut self.meta_val_buffer, c);
            false
        }
    }

    /// One transition on `c`; `true` where `c` is handled again.
    fn dispatch(&mut self, c: char) -> (r: Option<bool>)
        requires
            view_wf(old(self)@, 0),
        ensures
            match dispatch(old(self)@, c) {
                Some((q, again)) => r == Some(again) && final(self)@ == q,
                None => r is None,
            },
    {
        match self.state {
            ParsingState::MetaStart => Some(self.on_meta_start(c)),
            ParsingState::MetaArg => Some(
                self.on_meta_arg(c, ParsingState::MetaVal, ParsingState::MetaStart),
            ),
            ParsingState::MetaVal => self.on_meta_val(c),
            ParsingState::SectionStart => Some(self.on_section_start()),
            ParsingState::SectionHeadId => Some(self.on_section_head_id(c)),
            ParsingState::SectionHeadDesc => Some(self.on_section_head_desc(c)),
            ParsingState::SubsectionStart => Some(self.on_subsection_start()),
            ParsingState::LineStart => Some(self.on_line_start(c)),
            ParsingState::MeasureStart => Some(self.on_measure_start()),
            ParsingState::BlockStart => Some(self.on_block_start()),
            ParsingState::MaybeLyricBlock => self.on_maybe_lyric(c),
            ParsingState::TrueLyricBlock => Some(self.on_true_lyric(c)),
            ParsingState::LineEnd => Some(self.on_line_end()),
            ParsingState::SubsectionDelim(n) => Some(self.on_subsection_delim(n, c)),
            ParsingState::SubsectionMetaArg => Some(
                self.on_meta_arg(c, ParsingState::SubsectionMetaVal, ParsingState::LineStart),
            ),
            ParsingState::SubsectionMetaVal => Some(self.on_subsection_meta_val(c)),
        }
    }
}


// ----- what every transition keeps -----

proof fn lemma_lyric_states_wf(p: ParserView, c: char)
    requires
        view_wf(p, 0),
        in_block(p.state),
    ensures
        dispatch(p, c) matches Some((q, again)) ==> view_wf(
            q,
            if again {
                0
            } else {
                char_width(c)
            },
        ),
{
    lemma_utf8_len_push(p.lyric, c);
    assert(utf8_len(Seq::<char>::empty()) == 0);
    let f = flush_lyrics(p);
    assert(f.lyric == p.lyric || f.lyric == Seq::<char>::empty());
    assert(f.line_buffer.len() == p.line_buffer.len());
    assert(f.line_buffer.last().len() == p.line_buffer.last().len());
    let t = take_lyric(p);
    assert(t.line_buffer.len() == p.line_buffer.len());
    assert(t.line_buffer.last().len() == p.line_buffer.last().len());
    let tb = push_lyrics(t, seq![LyricEventView::Break]);
    assert(tb.line_buffer.len() == p.line_buffer.len());
    assert(tb.line_buffer.last().len() == p.line_buffer.last().len());
    if let Some(q) = chord_block(p) {
        assert(q.line_buffer.len() == p.line_buffer.len());
        assert(q.line_buffer.last().len() == p.line_buffer.last().len());
    }
}

proof fn lemma_meta_val_wf(p: ParserView, c: char)
    requires
        view_wf(p, 0),
        p.state == ParsingState::MetaVal,
    ensures
        dispatch(p, c) matches Some((q, again)) ==> view_wf(
            q,
            if again {
                0
            } else {
                char_width(c)
            },
        ),
{
    lemma_utf8_len_push(p.meta_val, c);
    assert(utf8_len(Seq::<char>::empty()) == 0);
}

/// A transition keeps the parser well formed; a transition that takes the
/// character into a buffer ends the chain of transitions on it.
pub proof fn lemma_dispatch_wf(p: ParserView, c: char)
    requires
        view_wf(p, 0),
    ensures
        dispatch(p, c) matches Some((q, again)) ==> view_wf(
            q,
            if again {
                0
            } else {
                char_width(c)
            },
        ),
{
    match p.state {
        ParsingState::MaybeLyricBlock | ParsingState::TrueLyricBlock => {
            lemma_lyric_states_wf(p, c);
        },
        ParsingState::MetaVal => {
            lemma_meta_val_wf(p, c);
        },
        ParsingState::SubsectionMetaVal => {
            lemma_utf8_len_push(p.meta_val, c);
            assert(utf8_len(Seq::<char>::empty()) == 0);
        },
        _ => {
            lemma_utf8_len_push(p.lyric, c);
            assert(utf8_len(Seq::<char>::empty()) == 0);
        },
    }
}

/// A transition that hands the character on lowers the rank of the state.
pub proof fn lemma_dispatch_rank(p: ParserView, c: char)
    ensures
        dispatch(p, c) matches Some((q, again)) ==> (again ==> rank(q.state) < rank(p.state)),
{
}

/// The transitions on one character keep the parser well formed.
pub proof fn lemma_run_char_wf(p: ParserView, c: char)
    requires
        view_wf(p, 0),
    ensures
        run_char(p, c) matches Some(q) ==> view_wf(q, char_width(c)),
    decreases rank(p.state),
{
    lemma_dispatch_wf(p, c);
    if let Some((q, again)) = dispatch(p, c) {
        if again && rank(q.state) < rank(p.state) {
            lemma_run_char_wf(q, c);
        }
    }
}

/// Reading a character keeps the parser well formed.
pub proof fn lemma_step_wf(p: ParserView, c: char)
    requires
        view_wf(p, 0),
    ensures
        spec_step(p, c) matches Some(q) ==> view_wf(q, 0),
{
    lemma_run_char_wf(started(p), c);
}

impl SHBParser {
    /// A parser that has read nothing.
    pub fn new() -> (r: SHBParser)
        ensures
            r@ == initial_view(),
            view_wf(r@, 0),
    {
        let r = SHBParser {
            line: 1,
            byte_offset: 0,
            errors: Vec::new(),
            line_has_content: false,
            meta_arg_buffer: String::new(),
            meta_val_buffer: String::new(),
            section_id_buffer: String::new(),
            section_desc_buffer: String::new(),
            line_buffer: Vec::new(),
            lyric_buffer: String::new(),
            chord_buffer: String::new(),
            state: ParsingState::MetaStart,
            status: ParserStatus::New,
            song: Song::default(),
        };
        assert(r.errors.deep_view() =~= Seq::<ParseErrorView>::empty());
        assert(r.line_buffer.deep_view() =~= Seq::<Seq<(Seq<MusicEventView>, Seq<LyricEventView>)>>::empty());
        assert(utf8_len(Seq::<char>::empty()) == 0);
        r
    }

    /// Reads one character of the song text where the parser accepts it
    /// in its state, and says whether it did. (Where it does not, the parser
    /// is left in an unspecified state.)
    pub fn step(&mut self, c: char) -> (ok: bool)
        requires
            view_wf(old(self)@, 0),
        ensures
            ok == spec_step(old(self)@, c) is Some,
            ok ==> view_wf(final(self)@, 0) && final(self)@ == spec_step(old(self)@, c)->0,
    {
        proof {
            lemma_step_wf(old(self)@, c);
        }
        if self.status == ParserStatus::New {
            self.status = ParserStatus::Processing;
        }
        if c == '\r' {
            if self.byte_offset == usize::MAX {
                return false;
            }
            self.byte_offset = self.byte_offset + 1;
            return true;
        }
        let ghost p1 = self@;
        loop
            invariant_except_break
                view_wf(self@, 0),
                run_char(p1, c) == run_char(self@, c),
            invariant
                p1 == started(old(self)@),
                c != '\r',
            ensures
                run_char(p1, c) == Some(self@),
                view_wf(self@, char_width(c)),
            decreases rank(self.state),
        {
            let ghost before = self@;
            proof {
                lemma_dispatch_wf(before, c);
                lemma_dispatch_rank(before, c);
            }
            match self.dispatch(c) {
                None => {
                    return false;
                },
                Some(again) => {
                    if !again {
                        break;
                    }
                },
            }
        }
        let w = len_utf8(c);
        if c == '\n' && self.line == usize::MAX {
            return false;
        }
        if self.byte_offset > usize::MAX - w {
            return false;
        }
        if c == '\n' {
            self.line = self.line + 1;
            self.line_has_content = false;
        } else if !is_whitespace(c) {
            self.line_has_content = true;
        }
        self.byte_offset = self.byte_offset + w;
        true
    }

    /// Reads one character of the song text.
    pub fn parse_char(&mut self, c: char)
        requires
            view_wf(old(self)@, 0),
            spec_step(old(self)@, c) is Some,
        ensures
            view_wf(final(self)@, 0),
            final(self)@ == spec_step(old(self)@, c)->0,
    {
        let _ = self.step(c);
    }
}


/// A run that reads a text reads each of its prefixes.
pub proof fn lemma_run_prefix(p: ParserView, s: Seq<char>, i: int)
    requires
        0 <= i <= s.len(),
        spec_run(p, s) is Some,
    ensures
        spec_run(p, s.take(i)) is Some,
    decreases s.len() - i,
{
    if i < s.len() {
        assert(s.drop_last().take(i) =~= s.take(i));
        lemma_run_prefix(p, s.drop_last(), i);
    } else {
        assert(s.take(i) =~= s);
    }
}

/// Reading `s` then `c` is reading `s` pushed with `c`.
pub proof fn lemma_run_push(p: ParserView, s: Seq<char>, c: char)
    ensures
        spec_run(p, s.push(c)) == match spec_run(p, s) {
            Some(q) => spec_step(q, c),
            None => None,
        },
{
    assert(s.push(c).drop_last() =~= s);
}

/// A run keeps the parser well formed.
pub proof fn lemma_run_wf(p: ParserView, s: Seq<char>)
    requires
        view_wf(p, 0),
    ensures
        spec_run(p, s) matches Some(q) ==> view_wf(q, 0),
    decreases s.len(),
{
    if s.len() > 0 {
        lemma_run_wf(p, s.drop_last());
        if let Some(q) = spec_run(p, s.drop_last()) {
            lemma_step_wf(q, s.last());
        }
    }
}

/// Meaning of `finalize`: a last newline read, and the parse marked complete
/// unless it failed.
pub open spec fn spec_finalize(p: ParserView) -> Option<ParserView> {
    match spec_step(p, '\n') {
        None => None,
        Some(q) => Some(
            if q.status != ParserStatus::Error {
                ParserView { status: ParserStatus::Completed, ..q }
            } else {
                q
            },
        ),
    }
}

impl SHBParser {
    /// Reads the characters of `s` in order where the parser accepts each,
    /// and says whether it did. (Where it does not, the parser is left in
    /// an unspecified state.)
    pub fn feed(&mut self, s: &str) -> (ok: bool)
        requires
            view_wf(old(self)@, 0),
        ensures
            ok == spec_run(old(self)@, s@) is Some,
            ok ==> view_wf(final(self)@, 0) && final(self)@ == spec_run(old(self)@, s@)->0,
    {
        let n = s.unicode_len();
        let mut i: usize = 0;
        assert(s@.take(0) =~= Seq::<char>::empty());
        while i < n
            invariant
                n == s@.len(),
                i <= n,
                view_wf(self@, 0),
                spec_run(old(self)@, s@.take(i as int)) == Some(self@),
            decreases n - i,
        {
            let c = s.get_char(i);
            proof {
                assert(s@.take(i + 1) =~= s@.take(i as int).push(c));
                lemma_run_push(old(self)@, s@.take(i as int), c);
            }
            if !self.step(c) {
                proof {
                    assert(spec_run(old(self)@, s@.take(i + 1)) is None);
                    if spec_run(old(self)@, s@) is Some {
                        lemma_run_prefix(old(self)@, s@, i + 1);
                    }
                }
                return false;
            }
            i = i + 1;
        }
        assert(s@.take(n as int) =~= s@);
        true
    }

    /// Reads the characters of `s` in order.
    pub fn parse_str(&mut self, s: &str)
        requires
            view_wf(old(self)@, 0),
            spec_run(old(self)@, s@) is Some,
        ensures
            view_wf(final(self)@, 0),
            final(self)@ == spec_run(old(self)@, s@)->0,
    {
        let _ = self.feed(s);
    }

    /// Ends the text with a newline and marks the parse complete.
    pub fn finalize(&mut self)
        requires
            view_wf(old(self)@, 0),
            spec_finalize(old(self)@) is Some,
        ensures
            view_wf(final(self)@, 0),
            final(self)@ == spec_finalize(old(self)@)->0,
    {
        self.parse_char('\n');
        if self.status != ParserStatus::Error {
            self.status = ParserStatus::Completed;
        }
    }

    /// The song read so far and the errors found.
    pub fn extract(self) -> (r: (Song, Vec<SHBParseError>))
        ensures
            r.0.deep_view() == self@.song,
            r.1.deep_view() == self@.errors,
    {
        (self.song, self.errors)
    }

    /// The song read so far.
    pub fn extract_song(self) -> (r: Song)
        ensures
            r.deep_view() == self@.song,
    {
        self.song
    }
}

impl Default for SHBParser {
    fn default() -> (r: SHBParser)
        ensures
            r@ == initial_view(),
            view_wf(r@, 0),
    {
        SHBParser::new()
    }
}

/// Parses a whole song text (without a final `finalize`): the song and the
/// errors found.
pub fn parse_shb(song: &str) -> (r: (Song, Vec<SHBParseError>))
    requires
        spec_run(initial_view(), song@) is Some,
    ensures
        r.0.deep_view() == spec_run(initial_view(), song@)->0.song,
        r.1.deep_view() == spec_run(initial_view(), song@)->0.errors,
        song_keys_distinct(r.0.deep_view()),
{
    proof {
        assert(keys_distinct(initial_view().song.metadata));
        lemma_run_keys_distinct(initial_view(), song@);
    }
    let mut parser = SHBParser::new();
    parser.parse_str(song);
    parser.extract()
}

/// Whether `parse_shb` accepts the text: whether the parser accepts each of
/// its characters in turn.
pub fn shb_accepts(song: &str) -> (r: bool)
    ensures
        r == spec_run(initial_view(), song@) is Some,
{
    let mut parser = SHBParser::new();
    parser.feed(song)
}

/// `parse_shb` where it accepts the text, `None` elsewhere.
pub fn try_parse_shb(song: &str) -> (r: Option<(Song, Vec<SHBParseError>)>)
    ensures
        match spec_run(initial_view(), song@) {
            Some(q) => r matches Some(x) && x.0.deep_view() == q.song && x.1.deep_view() == q.errors,
            None => r is None,
        },
{
    if shb_accepts(song) {
        Some(parse_shb(song))
    } else {
        None
    }
}


// ----- laws of the parser -----

/// Reading a text in two pieces is reading it whole.
pub proof fn lemma_run_concat(p: ParserView, a: Seq<char>, b: Seq<char>)
    ensures
        spec_run(p, a + b) == match spec_run(p, a) {
            Some(q) => spec_run(q, b),
            None => None,
        },
    decreases b.len(),
{
    if b.len() == 0 {
        assert(a + b =~= a);
    } else {
        assert((a + b).drop_last() =~= a + b.drop_last());
        assert((a + b).last() == b.last());
        lemma_run_concat(p, a, b.drop_last());
    }
}

/// Number of newlines in `s`.
pub open spec fn newlines(s: Seq<char>) -> nat
    decreases s.len(),
{
    if s.len() == 0 {
        0
    } else {
        newlines(s.drop_last()) + if s.last() == '\n' {
            1nat
        } else {
            0
        }
    }
}

/// The transitions on a character leave the counters and the errors that
/// were found before alone: errors are only added.
pub proof fn lemma_dispatch_counters(p: ParserView, c: char)
    ensures
        dispatch(p, c) matches Some((q, _)) ==> q.byte_offset == p.byte_offset && q.line == p.line
            && q.line_has_content == p.line_has_content && q.errors.len() >= p.errors.len()
            && q.errors.take(p.errors.len() as int) == p.errors,
{
    if let Some((q, _)) = dispatch(p, c) {
        assert(q.errors.take(p.errors.len() as int) =~= p.errors);
    }
}

pub proof fn lemma_run_char_counters(p: ParserView, c: char)
    ensures
        run_char(p, c) matches Some(q) ==> q.byte_offset == p.byte_offset && q.line == p.line
            && q.errors.len() >= p.errors.len() && q.errors.take(p.errors.len() as int) == p.errors,
    decreases rank(p.state),
{
    lemma_dispatch_counters(p, c);
    if let Some((q, again)) = dispatch(p, c) {
        if again && rank(q.state) < rank(p.state) {
            lemma_run_char_counters(q, c);
            if let Some(r) = run_char(q, c) {
                assert(r.errors.take(p.errors.len() as int) =~= q.errors.take(p.errors.len() as int));
            }
        }
    }
}

/// Reading a character adds its UTF-8 width to the byte offset and one to
/// the line for a newline, and only adds errors.
pub proof fn lemma_step_counters(p: ParserView, c: char)
    ensures
        spec_step(p, c) matches Some(q) ==> q.byte_offset == p.byte_offset + char_width(c) && q.line
            == p.line + (if c == '\n' {
            1nat
        } else {
            0
        }) && q.errors.len() >= p.errors.len() && q.errors.take(p.errors.len() as int) == p.errors,
{
    lemma_run_char_counters(started(p), c);
}

/// After reading `s`, the byte offset has grown by the UTF-8 length of
/// `s`, the line by its number of newlines, and the errors found before are
/// kept, in front of those found since.
pub proof fn lemma_run_counters(p: ParserView, s: Seq<char>)
    ensures
        spec_run(p, s) matches Some(q) ==> q.byte_offset == p.byte_offset + utf8_len(s) && q.line
            == p.line + newlines(s) && q.errors.len() >= p.errors.len() && q.errors.take(
            p.errors.len() as int,
        ) == p.errors,
    decreases s.len(),
{
    if s.len() > 0 {
        lemma_run_counters(p, s.drop_last());
        if let Some(q) = spec_run(p, s.drop_last()) {
            lemma_step_counters(q, s.last());
            assert(s =~= s.drop_last().push(s.last()));
            lemma_utf8_len_push(s.drop_last(), s.last());
            if let Some(r) = spec_step(q, s.last()) {
                assert(r.errors.take(p.errors.len() as int) =~= q.errors.take(p.errors.len() as int));
            }
        }
    } else {
        assert(p.errors.take(p.errors.len() as int) =~= p.errors);
    }
}


/// Every error found lies in the bytes read so far.
pub open spec fn errors_within(p: ParserView) -> bool {
    forall|i: int| 0 <= i < p.errors.len() ==> error_within(#[trigger] p.errors[i], p.byte_offset as nat)
}

proof fn lemma_chord_block_errors_within(p: ParserView)
    requires
        view_wf(p, 0),
        errors_within(p),
    ensures
        chord_block(p) matches Some(q) ==> errors_within(q),
{
    lemma_block_bounds(p.lyric);
    lemma_trim_len(p.lyric);
    if let Some(q) = chord_block(p) {
        let b = spec_block(p.lyric)->0;
        let off = p.byte_offset - utf8_len(p.lyric);
        let shifted = Seq::new(b.errors.len(), |i: int| shift_error(b.errors[i], off, p.line));
        assert forall|i: int| 0 <= i < q.errors.len() implies error_within(#[trigger] q.errors[i], q.byte_offset as nat) by {
            if i < p.errors.len() {
                assert(q.errors[i] == p.errors[i]);
            } else if i < p.errors.len() + shifted.len() {
                let k = i - p.errors.len();
                assert(q.errors[i] == shifted[k]);
                assert(error_within(b.errors[k], utf8_len(trim(p.lyric))));
            } else {
                assert(b.rest.len() > 0);
            }
        }
    }
}

/// A transition keeps every error in the bytes read.
pub proof fn lemma_dispatch_errors_within(p: ParserView, c: char)
    requires
        view_wf(p, 0),
        errors_within(p),
    ensures
        dispatch(p, c) matches Some((q, _)) ==> errors_within(q),
{
    if p.state == ParsingState::MaybeLyricBlock {
        lemma_chord_block_errors_within(p);
        let f = flush_lyrics(p);
        assert(f.errors == p.errors);
    } else if p.state == ParsingState::MetaVal {
        if let Some((q, _)) = dispatch(p, c) {
            assert forall|i: int| 0 <= i < q.errors.len() implies error_within(#[trigger] q.errors[i], q.byte_offset as nat) by {
                if i < p.errors.len() {
                    assert(q.errors[i] == p.errors[i]);
                }
            }
        }
    }
}

pub proof fn lemma_run_char_errors_within(p: ParserView, c: char)
    requires
        view_wf(p, 0),
        errors_within(p),
    ensures
        run_char(p, c) matches Some(q) ==> errors_within(q),
    decreases rank(p.state),
{
    lemma_dispatch_errors_within(p, c);
    lemma_dispatch_wf(p, c);
    if let Some((q, again)) = dispatch(p, c) {
        if again && rank(q.state) < rank(p.state) {
            lemma_run_char_errors_within(q, c);
        }
    }
}

/// Every error that the parser reports lies in the bytes it has read: the
/// start of its byte range is at most its end, and the end at most the
/// byte offset.
pub proof fn lemma_run_errors_within(p: ParserView, s: Seq<char>)
    requires
        view_wf(p, 0),
        errors_within(p),
    ensures
        spec_run(p, s) matches Some(q) ==> errors_within(q),
    decreases s.len(),
{
    if s.len() > 0 {
        lemma_run_errors_within(p, s.drop_last());
        lemma_run_wf(p, s.drop_last());
        if let Some(q) = spec_run(p, s.drop_last()) {
            let c = s.last();
            lemma_run_char_errors_within(started(q), c);
            lemma_run_char_counters(started(q), c);
        }
    }
}


// ----- carriage returns -----

/// `q` is `p` but for a byte offset no smaller and the places of the errors:
/// the same errors in number, each on the same line and of the same kind.
pub open spec fn agrees_but_offsets(p: ParserView, q: ParserView) -> bool {
    &&& q == ParserView { byte_offset: q.byte_offset, errors: q.errors, ..p }
    &&& p.byte_offset <= q.byte_offset
    &&& q.errors.len() == p.errors.len()
    &&& forall|i: int|
        0 <= i < p.errors.len() ==> (#[trigger] q.errors[i]).line == p.errors[i].line && q.errors[i].kind
            == p.errors[i].kind
}

proof fn lemma_meta_val_agree(p: ParserView, q: ParserView, c: char)
    requires
        agrees_but_offsets(p, q),
        p.state == ParsingState::MetaVal,
    ensures
        (dispatch(p, c) is Some) == (dispatch(q, c) is Some),
        dispatch(p, c) matches Some((p2, a)) ==> dispatch(q, c) matches Some((q2, b)) && a == b
            && agrees_but_offsets(p2, q2),
{
        if c == '\n' {
            let pe = p.errors.push(
                ParseErrorView {
                    start: (p.byte_offset - utf8_len(p.meta_val)) as usize,
                    end: p.byte_offset,
                    line: p.line,
                    kind: ErrorKindView::WrongTonicFormat,
                },
            );
            let qe = q.errors.push(
                ParseErrorView {
                    start: (q.byte_offset - utf8_len(q.meta_val)) as usize,
                    end: q.byte_offset,
                    line: q.line,
                    kind: ErrorKindView::WrongTonicFormat,
                },
            );
            assert forall|i: int| 0 <= i < pe.len() implies (#[trigger] qe[i]).line == pe[i].line
                && qe[i].kind == pe[i].kind by {
                if i < p.errors.len() {
                    assert(qe[i] == q.errors[i]);
                    assert(pe[i] == p.errors[i]);
                }
            }
        }
}

#[verifier::spinoff_prover]
proof fn lemma_chord_block_agree(p: ParserView, q: ParserView, c: char)
    requires
        agrees_but_offsets(p, q),
        p.state == ParsingState::MaybeLyricBlock,
    ensures
        (dispatch(p, c) is Some) == (dispatch(q, c) is Some),
        dispatch(p, c) matches Some((p2, a)) ==> dispatch(q, c) matches Some((q2, b)) && a == b
            && agrees_but_offsets(p2, q2),
{
        if (c == '·' || c == '*') && spec_block(p.lyric) is Some {
            let b = spec_block(p.lyric)->0;
            let poff = p.byte_offset - utf8_len(p.lyric);
            let qoff = q.byte_offset - utf8_len(q.lyric);
            let ps = Seq::new(b.errors.len(), |i: int| shift_error(b.errors[i], poff, p.line));
            let qs = Seq::new(b.errors.len(), |i: int| shift_error(b.errors[i], qoff, q.line));
            let px = if b.rest.len() > 0 {
                seq![
                    ParseErrorView {
                        start: poff as usize,
                        end: p.byte_offset,
                        line: p.line,
                        kind: ErrorKindView::MalformedMusicEvent(b.rest),
                    },
                ]
            } else {
                Seq::empty()
            };
            let qx = if b.rest.len() > 0 {
                seq![
                    ParseErrorView {
                        start: qoff as usize,
                        end: q.byte_offset,
                        line: q.line,
                        kind: ErrorKindView::MalformedMusicEvent(b.rest),
                    },
                ]
            } else {
                Seq::empty()
            };
            let pe = p.errors + ps + px;
            let qe = q.errors + qs + qx;
            assert(chord_block(p) == Some(ParserView {
                errors: pe,
                lyric: Seq::empty(),
                chord: Seq::empty(),
                state: ParsingState::TrueLyricBlock,
                ..with_last_block(p, (b.events, last_block(p).1))
            }));
            assert(chord_block(q) == Some(ParserView {
                errors: qe,
                lyric: Seq::empty(),
                chord: Seq::empty(),
                state: ParsingState::TrueLyricBlock,
                ..with_last_block(q, (b.events, last_block(q).1))
            }));
            assert forall|i: int| 0 <= i < pe.len() implies (#[trigger] qe[i]).line == pe[i].line
                && qe[i].kind == pe[i].kind by {
                let n = p.errors.len();
                let m = b.errors.len();
                if i < n {
                    assert(qe[i] == q.errors[i]);
                    assert(pe[i] == p.errors[i]);
                } else if i < n + m {
                    assert(qe[i] == qs[i - n]);
                    assert(pe[i] == ps[i - n]);
                } else {
                    assert(qe[i] == qx[i - n - m]);
                    assert(pe[i] == px[i - n - m]);
                }
            }
        }
}

#[verifier::spinoff_prover]
proof fn lemma_dispatch_agree(p: ParserView, q: ParserView, c: char)
    requires
        agrees_but_offsets(p, q),
    ensures
        (dispatch(p, c) is Some) == (dispatch(q, c) is Some),
        dispatch(p, c) matches Some((p2, a)) ==> dispatch(q, c) matches Some((q2, b)) && a == b
            && agrees_but_offsets(p2, q2),
{
    if p.state == ParsingState::MetaVal {
        lemma_meta_val_agree(p, q, c);
    } else if p.state == ParsingState::MaybeLyricBlock {
        lemma_chord_block_agree(p, q, c);
    }
}

proof fn lemma_run_char_agree(p: ParserView, q: ParserView, c: char)
    requires
        agrees_but_offsets(p, q),
    ensures
        (run_char(p, c) is Some) == (run_char(q, c) is Some),
        run_char(p, c) matches Some(p2) ==> run_char(q, c) matches Some(q2) && agrees_but_offsets(p2, q2),
    decreases rank(p.state),
{
    lemma_dispatch_agree(p, q, c);
    if let Some((p2, again)) = dispatch(p, c) {
        let (q2, _) = dispatch(q, c)->0;
        if again && rank(p2.state) < rank(p.state) {
            lemma_run_char_agree(p2, q2, c);
        }
    }
}

proof fn lemma_step_agree(p: ParserView, q: ParserView, c: char)
    requires
        agrees_but_offsets(p, q),
    ensures
        spec_step(q, c) is Some ==> spec_step(p, c) is Some,
        spec_step(q, c) matches Some(q2) ==> agrees_but_offsets(spec_step(p, c)->0, q2),
{
    let p1 = started(p);
    let q1 = started(q);
    assert(agrees_but_offsets(p1, q1));
    if c != '\r' {
        lemma_run_char_agree(p1, q1, c);
    }
}

proof fn lemma_run_agree(p: ParserView, q: ParserView, s: Seq<char>)
    requires
        agrees_but_offsets(p, q),
    ensures
        spec_run(q, s) is Some ==> spec_run(p, s) is Some,
        spec_run(q, s) matches Some(q2) ==> agrees_but_offsets(spec_run(p, s)->0, q2),
    decreases s.len(),
{
    if s.len() > 0 {
        lemma_run_agree(p, q, s.drop_last());
        if let Some(q1) = spec_run(q, s.drop_last()) {
            lemma_step_agree(spec_run(p, s.drop_last())->0, q1, s.last());
        }
    }
}

proof fn lemma_run_started(p: ParserView, s: Seq<char>)
    requires
        s.len() > 0,
    ensures
        spec_run(started(p), s) == spec_run(p, s),
    decreases s.len(),
{
    assert(started(started(p)) == started(p));
    assert(spec_step(started(p), s.last()) == spec_step(p, s.last()));
    if s.len() > 1 {
        lemma_run_started(p, s.drop_last());
    } else {
        assert(s.drop_last() =~= Seq::<char>::empty());
        assert(spec_run(p, s.drop_last()) == Some(p));
        assert(spec_run(started(p), s.drop_last()) == Some(started(p)));
    }
}

/// A carriage return is skipped: it only marks the parser started and moves
/// the byte offset on by one. Whatever text follows reads as it would have
/// without the carriage return, but for the byte offset and the places of
/// the errors: the same song, state, buffers and line, and the same errors
/// in number, lines and kinds.
pub proof fn lemma_carriage_return(p: ParserView, s: Seq<char>)
    ensures
        spec_step(p, '\r') == (if p.byte_offset + 1 <= usize::MAX {
            Some(ParserView { byte_offset: (p.byte_offset + 1) as usize, ..started(p) })
        } else {
            None::<ParserView>
        }),
        s.len() > 0 ==> spec_run(started(p), s) == spec_run(p, s),
        spec_run(p, seq!['\r'] + s) matches Some(q1) ==> spec_run(started(p), s) matches Some(q2)
            && agrees_but_offsets(q2, q1) && q1.song == q2.song,
{
    if s.len() > 0 {
        lemma_run_started(p, s);
    }
    lemma_run_concat(p, seq!['\r'], s);
    assert(seq!['\r'].drop_last() =~= Seq::<char>::empty());
    assert(spec_run(p, seq!['\r'].drop_last()) == Some(p));
    assert(spec_run(p, seq!['\r']) == spec_step(p, '\r'));
    if let Some(r) = spec_step(p, '\r') {
        assert(agrees_but_offsets(started(p), r));
        lemma_run_agree(started(p), r, s);
    }
}


// ----- the end of a line -----

/// The kind of line that a line buffer makes: mixed exactly when some block
/// holds a chord event and some lyric text holds more than whitespace;
/// chords when it holds chord events and no such text; lyrics otherwise.
/// Each kind keeps every measure of the buffer, in order: a mixed line its
/// blocks, a chord line their chord events, a lyric line their lyrics.
pub proof fn lemma_make_line(lb: Seq<Seq<(Seq<MusicEventView>, Seq<LyricEventView>)>>)
    ensures
        (make_line(lb) is Mixed) == (has_chords(lb) && has_lyrics(lb)),
        (make_line(lb) is Chords) == (has_chords(lb) && !has_lyrics(lb)),
        (make_line(lb) is Lyrics) == !has_chords(lb),
        make_line(lb) matches LineView::Mixed(ms) ==> ms.len() == lb.len() && forall|i: int|
            0 <= i < lb.len() ==> #[trigger] ms[i] == Some(lb[i]),
        make_line(lb) matches LineView::Chords(ms) ==> ms.len() == lb.len() && forall|i: int|
            0 <= i < lb.len() ==> #[trigger] ms[i] == Some(Seq::new(lb[i].len(), |j: int| lb[i][j].0)),
        make_line(lb) matches LineView::Lyrics(ms) ==> ms.len() == lb.len() && forall|i: int|
            0 <= i < lb.len() ==> #[trigger] ms[i] == Some(Seq::new(lb[i].len(), |j: int| lb[i][j].1)),
{
}

/// A newline inside a block ends the song line: the pending lyrics go into
/// their block, the line buffer is emptied, the line count grows by one and
/// the parser waits at the start of a line. Exactly one line, the one that
/// `make_line` makes of the line buffer, is added to the current subsection
/// where the line had content (a character other than whitespace); a line of
/// only whitespace adds nothing. Nothing else of the song changes.
pub proof fn lemma_line_end(p: ParserView)
    requires
        view_wf(p, 0),
        in_block(p.state),
    ensures
        spec_step(p, '\n') matches Some(q) ==> {
            let lb = if p.state == ParsingState::MaybeLyricBlock {
                flush_lyrics(p).line_buffer
            } else {
                take_lyric(p).line_buffer
            };
            let sub = last_subsection(p);
            &&& q.state == ParsingState::LineStart
            &&& q.line_buffer.len() == 0
            &&& q.line == p.line + 1
            &&& q.errors == p.errors
            &&& q.song == with_last_subsection(
                p,
                SubsectionView {
                    lines: if p.line_has_content {
                        sub.lines.push(make_line(lb))
                    } else {
                        sub.lines
                    },
                    ..sub
                },
            ).song
        },
{
    let p1 = started(p);
    let c = '\n';
    let (p2, a) = dispatch(p1, c)->0;
    assert(a);
    assert(rank(p2.state) < rank(p1.state));
    assert(p2.state == ParsingState::LineEnd);
    let (p3, b) = dispatch(p2, c)->0;
    assert(!b);
    assert(run_char(p1, c) == run_char(p2, c));
    assert(run_char(p2, c) == Some(p3));
    if !p.line_has_content {
        let sub = last_subsection(p);
        assert(p.song.sections.last().subsections.update(
            p.song.sections.last().subsections.len() - 1,
            sub,
        ) =~= p.song.sections.last().subsections);
        assert(p.song.sections.update(p.song.sections.len() - 1, p.song.sections.last())
            =~= p.song.sections);
    }
}


// ----- one entry per key -----

/// The song's metadata, and that of each of its subsections, holds each key
/// once.
pub open spec fn song_keys_distinct(song: SongView) -> bool {
    &&& keys_distinct(song.metadata)
    &&& forall|i: int, j: int|
        0 <= i < song.sections.len() && 0 <= j < song.sections[i].subsections.len() ==> keys_distinct(
            #[trigger] song.sections[i].subsections[j].metadata,
        )
}

#[verifier::spinoff_prover]
proof fn lemma_dispatch_keys(p: ParserView, c: char)
    requires
        view_wf(p, 0),
        song_keys_distinct(p.song),
    ensures
        dispatch(p, c) matches Some((q, _)) ==> song_keys_distinct(q.song),
{
    let secs = p.song.sections;
    match p.state {
        ParsingState::MetaVal => {
            lemma_assoc_put(p.song.metadata, trim(p.meta_arg), trim(p.meta_val));
        },
        ParsingState::SubsectionMetaVal => {
            if c == '\n' {
                let sub = last_subsection(p);
                lemma_assoc_put(sub.metadata, trim(p.meta_arg), trim(p.meta_val));
                let (q, _) = dispatch(p, c)->0;
                let sec = last_section(p);
                let nsub = SubsectionView { metadata: assoc_put(sub.metadata, trim(p.meta_arg), trim(p.meta_val)), ..sub };
                let nsubs = sec.subsections.update(sec.subsections.len() - 1, nsub);
                assert(q.song.sections == secs.update(secs.len() - 1, SectionView { subsections: nsubs, ..sec }));
                assert forall|i: int, j: int|
                    0 <= i < q.song.sections.len() && 0 <= j < q.song.sections[i].subsections.len()
                    implies keys_distinct(#[trigger] q.song.sections[i].subsections[j].metadata) by {
                    if i == secs.len() - 1 && j == sec.subsections.len() - 1 {
                    } else if i == secs.len() - 1 {
                        assert(q.song.sections[i].subsections[j] == sec.subsections[j]);
                    } else {
                        assert(q.song.sections[i] == secs[i]);
                    }
                }
            }
        },
        ParsingState::SectionStart => {
            let (q, _) = dispatch(p, c)->0;
            assert forall|i: int, j: int|
                0 <= i < q.song.sections.len() && 0 <= j < q.song.sections[i].subsections.len()
                implies keys_distinct(#[trigger] q.song.sections[i].subsections[j].metadata) by {
                assert(q.song.sections[i] == secs[i]);
            }
        },
        ParsingState::SubsectionStart => {
            let (q, _) = dispatch(p, c)->0;
            let sec = last_section(p);
            assert forall|i: int, j: int|
                0 <= i < q.song.sections.len() && 0 <= j < q.song.sections[i].subsections.len()
                implies keys_distinct(#[trigger] q.song.sections[i].subsections[j].metadata) by {
                if i == secs.len() - 1 {
                    if j < sec.subsections.len() {
                        assert(q.song.sections[i].subsections[j] == sec.subsections[j]);
                    }
                } else {
                    assert(q.song.sections[i] == secs[i]);
                }
            }
        },
        ParsingState::SectionHeadId | ParsingState::SectionHeadDesc | ParsingState::LineEnd => {
            let (q, _) = dispatch(p, c)->0;
            assert forall|i: int, j: int|
                0 <= i < q.song.sections.len() && 0 <= j < q.song.sections[i].subsections.len()
                implies keys_distinct(#[trigger] q.song.sections[i].subsections[j].metadata) by {
                if i == secs.len() - 1 {
                    let sec = last_section(p);
                    assert(q.song.sections[i].subsections.len() == sec.subsections.len());
                    assert(q.song.sections[i].subsections[j].metadata == sec.subsections[j].metadata);
                } else {
                    assert(q.song.sections[i] == secs[i]);
                }
            }
        },
        _ => {},
    }
}

proof fn lemma_run_char_keys(p: ParserView, c: char)
    requires
        view_wf(p, 0),
        song_keys_distinct(p.song),
    ensures
        run_char(p, c) matches Some(q) ==> song_keys_distinct(q.song),
    decreases rank(p.state),
{
    lemma_dispatch_keys(p, c);
    lemma_dispatch_wf(p, c);
    if let Some((q, again)) = dispatch(p, c) {
        if again && rank(q.state) < rank(p.state) {
            lemma_run_char_keys(q, c);
        }
    }
}

/// Whatever text the parser reads, the song's metadata and that of each
/// subsection keep one entry per key: a key written again replaces its value.
pub proof fn lemma_run_keys_distinct(p: ParserView, s: Seq<char>)
    requires
        view_wf(p, 0),
        song_keys_distinct(p.song),
    ensures
        spec_run(p, s) matches Some(q) ==> song_keys_distinct(q.song),
    decreases s.len(),
{
    if s.len() > 0 {
        lemma_run_keys_distinct(p, s.drop_last());
        lemma_run_wf(p, s.drop_last());
        if let Some(q) = spec_run(p, s.drop_last()) {
            if s.last() != '\r' {
                lemma_run_char_keys(started(q), s.last());
            }
        }
    }
}


// ----- the tempo line -----

/// A head line `bpm: v` sets the song's tempo to the trimmed value `v` when
/// `v` reads as a number, and leaves the tempo as it was when it does not.
/// Nothing is reported either way.
pub proof fn lemma_tempo_line(p: ParserView)
    requires
        view_wf(p, 0),
        p.state == ParsingState::MetaVal,
        trim(p.meta_arg) == seq!['b', 'p', 'm'],
    ensures
        spec_step(p, '\n') matches Some(q) ==> q.song.bpm == (if float_syntax(trim(p.meta_val)) {
            Some(trim(p.meta_val))
        } else {
            p.song.bpm
        }) && q.errors == p.errors && q.state == ParsingState::MetaStart,
{
    reveal_strlit("name");
    reveal_strlit("tonic");
    reveal_strlit("bpm");
    assert("name"@ =~= seq!['n', 'a', 'm', 'e']);
    assert("tonic"@ =~= seq!['t', 'o', 'n', 'i', 'c']);
    assert("bpm"@ =~= seq!['b', 'p', 'm']);
    assert(trim(p.meta_arg) != "name"@);
    assert(trim(p.meta_arg) != "tonic"@);
    let p1 = started(p);
    let c = '\n';
    if let Some((p2, a)) = dispatch(p1, c) {
        assert(!a);
        assert(run_char(p1, c) == Some(p2));
    }
}

} // verus!
