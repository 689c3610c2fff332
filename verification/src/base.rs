//! The song data model: songs, sections, lines, chord and lyric events,
//! parse errors and warnings, with the mathematical views the contracts use.

use vstd::prelude::*;
use crate::deep_copy::copy_sections;

verus! {

/// Pitch class of a note: 0 = C, 1 = C#/Db, ..., 11 = B.
pub type NoteHeight = u8;

#[derive(Debug, Clone, Copy, PartialEq, Eq, Structural)]
pub enum TonicKind {
    Minor,
    Major,
    Undefined,
}

#[derive(Debug, Clone, Copy, PartialEq, Eq, Structural)]
pub enum ChordKind {
    Minor,
    Major,
    Undefined,
}

#[derive(Debug, Clone, Copy, PartialEq, Eq, Structural)]
pub enum FormatSize {
    Smaller,
    Small,
    Normal,
}

#[derive(Debug, Clone, Copy, PartialEq, Eq, Hash, PartialOrd, Ord)]
pub enum ChordKeyword {
    Sus2,
    Sus4,
    Add2,
    Add4,
    Add9,
    Add11,
    Maj,
    K6,
    K5,
    K7,
    K9,
    K11,
    K13,
    K69,
    Aug,
    Dim,
}

/// The chord keywords under their plural name.
pub type ChordKeywords = ChordKeyword;

/// The ways a chord keyword is written after a chord's root: its name
/// (`sus4`, `add9`, `Maj`, `6/9`, `aug`, `dim`, `7`, ...), and the short
/// forms `M` for `Maj`, `+` for `aug` and `°` for `dim`.
pub open spec fn keyword_spelled(k: ChordKeyword, t: Seq<char>) -> bool {
    match k {
        ChordKeyword::Sus2 => t == seq!['s', 'u', 's', '2'],
        ChordKeyword::Sus4 => t == seq!['s', 'u', 's', '4'],
        ChordKeyword::Add2 => t == seq!['a', 'd', 'd', '2'],
        ChordKeyword::Add4 => t == seq!['a', 'd', 'd', '4'],
        ChordKeyword::Add9 => t == seq!['a', 'd', 'd', '9'],
        ChordKeyword::Add11 => t == seq!['a', 'd', 'd', '1', '1'],
        ChordKeyword::Maj => t == seq!['M', 'a', 'j'] || t == seq!['M'],
        ChordKeyword::K6 => t == seq!['6'],
        ChordKeyword::K5 => t == seq!['5'],
        ChordKeyword::K7 => t == seq!['7'],
        ChordKeyword::K9 => t == seq!['9'],
        ChordKeyword::K11 => t == seq!['1', '1'],
        ChordKeyword::K13 => t == seq!['1', '3'],
        ChordKeyword::K69 => t == seq!['6', '/', '9'],
        ChordKeyword::Aug => t == seq!['a', 'u', 'g'] || t == seq!['+'],
        ChordKeyword::Dim => t == seq!['d', 'i', 'm'] || t == seq!['°'],
    }
}

/// The ways an alteration sign is written: `no`, `b` for a flat, `#` for a
/// sharp.
pub open spec fn alteration_spelled(k: ChordAlterationKind, t: Seq<char>) -> bool {
    match k {
        ChordAlterationKind::No => t == seq!['n', 'o'],
        ChordAlterationKind::Flat => t == seq!['b'],
        ChordAlterationKind::Sharp => t == seq!['#'],
    }
}

/// The pitch class of a natural note letter: C is 0, D 2, E 4, F 5, G 7,
/// A 9, B 11 (the white keys of the piano).
pub open spec fn letter_pitch(c: char) -> Option<int> {
    if c == 'C' {
        Some(0)
    } else if c == 'D' {
        Some(2)
    } else if c == 'E' {
        Some(4)
    } else if c == 'F' {
        Some(5)
    } else if c == 'G' {
        Some(7)
    } else if c == 'A' {
        Some(9)
    } else if c == 'B' {
        Some(11)
    } else {
        None
    }
}

#[derive(Debug, Clone, Copy, PartialEq, Eq, Structural)]
pub enum ChordAlterationKind {
    Flat,
    Sharp,
    No,
}

#[derive(Debug, Clone, Copy)]
pub struct ChordAlteration {
    pub kind: ChordAlterationKind,
    pub degree: u8,
}

#[derive(Debug, Clone, Copy)]
pub enum ChordModifier {
    Keyword(ChordKeyword),
    Alteration(ChordAlteration),
}

/// Position of a chord inside a measure: `beat`, plus the fraction `num/den`
/// of a beat.
#[derive(Debug, Clone, Copy, PartialEq, Eq, Structural)]
pub struct TimeOffset {
    pub beat: i8,
    pub num: u8,
    pub den: u8,
}

#[derive(Debug, Clone)]
pub struct ChordEvent {
    pub root: NoteHeight,
    pub bass: Option<NoteHeight>,
    pub kind: ChordKind,
    pub modifier: Vec<ChordModifier>,
    pub time: Option<TimeOffset>,
}

#[derive(Debug, Clone)]
pub enum LyricEvent {
    LyricText(String),
    LyricBreak,
}

#[derive(Debug, Clone)]
pub enum MusicEvent {
    ChordEvent(ChordEvent),
    RepeatMeasure,
    StartRepeat,
    EndRepeat,
    OpenParen,
    CloseParen,
    NumberedMeasure(u16),
    Annotation(String),
    MelodyEvent(Vec<NoteHeight>),
}

/// A line: a sequence of possibly empty measures; a measure is a sequence of
/// blocks.
#[derive(Debug, Clone)]
pub enum Line {
    Lyrics(Vec<Option<Vec<Vec<LyricEvent>>>>),
    Chords(Vec<Option<Vec<Vec<MusicEvent>>>>),
    Mixed(Vec<Option<Vec<(Vec<MusicEvent>, Vec<LyricEvent>)>>>),
}

/// Key/value metadata as an association list: a later entry overrides an
/// earlier one with the same key (see `assoc_get`).
pub type Metadata = Vec<(String, String)>;

#[derive(Debug, Clone)]
pub struct Subsection {
    pub metadata: Metadata,
    pub lines: Vec<Line>,
}

#[derive(Debug, Clone)]
pub struct Section {
    pub name: String,
    pub description: String,
    pub delta_tonic: NoteHeight,
    pub subsections: Vec<Subsection>,
}

#[derive(Debug, Clone)]
pub struct SectionName {
    pub kind: String,
    pub number: u16,
    pub version: String,
}

/// A parsed song. `bpm` holds the metadata text of the tempo, kept only when
/// it reads as a decimal number; `categories`, `section_names` and `orders`
/// are association lists like `metadata`.
#[derive(Debug, Clone)]
pub struct Song {
    pub name: String,
    pub tonic: NoteHeight,
    pub tonic_kind: TonicKind,
    pub bpm: Option<String>,
    pub sections: Vec<Section>,
    pub categories: Vec<String>,
    pub metadata: Metadata,
    pub section_names: Vec<(String, usize)>,
    pub orders: Vec<(String, Vec<usize>)>,
}

/// The part of a song that is rendered.
#[derive(Debug, Clone)]
pub struct CompiledSong {
    pub name: String,
    pub tonic: NoteHeight,
    pub tonic_kind: TonicKind,
    pub bpm: Option<String>,
    pub sections: Vec<Section>,
}

/// A view of the part of a song or compiled song that is rendered.
pub struct SongRef<'i> {
    pub name: &'i String,
    pub tonic: NoteHeight,
    pub tonic_kind: TonicKind,
    pub bpm: Option<&'i String>,
    pub sections: &'i Vec<Section>,
}

impl From<Song> for CompiledSong {
    fn from(item: Song) -> (r: CompiledSong) {
        CompiledSong {
            name: item.name,
            tonic: item.tonic,
            tonic_kind: item.tonic_kind,
            bpm: item.bpm,
            sections: item.sections,
        }
    }
}

impl vstd::std_specs::convert::FromSpecImpl<Song> for CompiledSong {
    open spec fn obeys_from_spec() -> bool {
        true
    }

    open spec fn from_spec(item: Song) -> CompiledSong {
        CompiledSong {
            name: item.name,
            tonic: item.tonic,
            tonic_kind: item.tonic_kind,
            bpm: item.bpm,
            sections: item.sections,
        }
    }
}

/// A compiled copy of a song: name, tonic, tempo and sections. Its sections
/// are copies, equal to the song's in deep view (not the same values), so no
/// `from_spec` is claimed for it.
impl<'a> From<&'a Song> for CompiledSong {
    fn from(item: &'a Song) -> (r: CompiledSong)
        ensures
            r.name@ == item.name@,
            r.tonic == item.tonic,
            r.tonic_kind == item.tonic_kind,
            r.bpm.deep_view() == item.bpm.deep_view(),
            r.sections.deep_view() == item.sections.deep_view(),
    {
        CompiledSong {
            name: item.name.clone(),
            tonic: item.tonic,
            tonic_kind: item.tonic_kind,
            bpm: match &item.bpm {
                Some(b) => Some(b.clone()),
                None => None,
            },
            sections: copy_sections(&item.sections),
        }
    }
}

impl<'a> vstd::std_specs::convert::FromSpecImpl<&'a Song> for CompiledSong {
    open spec fn obeys_from_spec() -> bool {
        false
    }

    open spec fn from_spec(item: &'a Song) -> CompiledSong {
        CompiledSong {
            name: item.name,
            tonic: item.tonic,
            tonic_kind: item.tonic_kind,
            bpm: item.bpm,
            sections: item.sections,
        }
    }
}

impl<'i> From<&'i Song> for SongRef<'i> {
    fn from(item: &'i Song) -> (r: SongRef<'i>) {
        SongRef {
            name: &item.name,
            tonic: item.tonic,
            tonic_kind: item.tonic_kind,
            bpm: match &item.bpm {
                Some(b) => Some(b),
                None => None,
            },
            sections: &item.sections,
        }
    }
}

impl<'i> vstd::std_specs::convert::FromSpecImpl<&'i Song> for SongRef<'i> {
    open spec fn obeys_from_spec() -> bool {
        true
    }

    open spec fn from_spec(item: &'i Song) -> SongRef<'i> {
        SongRef {
            name: &item.name,
            tonic: item.tonic,
            tonic_kind: item.tonic_kind,
            bpm: match &item.bpm {
                Some(b) => Some(b),
                None => None,
            },
            sections: &item.sections,
        }
    }
}

impl<'i> From<&'i CompiledSong> for SongRef<'i> {
    fn from(item: &'i CompiledSong) -> (r: SongRef<'i>) {
        SongRef {
            name: &item.name,
            tonic: item.tonic,
            tonic_kind: item.tonic_kind,
            bpm: match &item.bpm {
                Some(b) => Some(b),
                None => None,
            },
            sections: &item.sections,
        }
    }
}

impl<'i> vstd::std_specs::convert::FromSpecImpl<&'i CompiledSong> for SongRef<'i> {
    open spec fn obeys_from_spec() -> bool {
        true
    }

    open spec fn from_spec(item: &'i CompiledSong) -> SongRef<'i> {
        SongRef {
            name: &item.name,
            tonic: item.tonic,
            tonic_kind: item.tonic_kind,
            bpm: match &item.bpm {
                Some(b) => Some(b),
                None => None,
            },
            sections: &item.sections,
        }
    }
}

#[derive(Debug)]
pub struct SonglistEntry {
    pub id_file: String,
    pub rename: Option<String>,
    pub tonic: Option<(u8, bool)>,
    pub explicit_order: Option<Vec<String>>,
    pub named_order: Option<String>,
    pub joined: bool,
    pub inline_data: Option<String>,
    pub file_line: usize,
}

#[derive(Debug, Clone)]
pub enum SHBErrorKind {
    WrongTonicFormat,
    MalformedMusicEvent(String),
    /// The song grammar stopped at this text (empty at the end of the text).
    Unexpected(String),
}

/// A located parse error: `loc` is a byte range of the input, `line` its
/// 1-based line (0 where the line is not known yet).
#[derive(Debug)]
pub struct SHBParseError {
    pub loc: core::ops::Range<usize>,
    pub line: usize,
    pub kind: SHBErrorKind,
}

#[derive(Debug, Clone)]
pub enum ParseSongWarnings {
    /// A second section with this name and its own content.
    RepeatedSectionName(String),
    UnNamed,
    NoTonic,
    /// A tonic that does not read as a note name.
    WrongTonicFormat,
    /// An order names a section that the song does not have.
    SectionNotFound(String),
}

pub enum ParseListWarnings {
    SongNotFound(String),
    SongSectionsNotFound(Vec<String>),
    FirstJoined,
    UnknownSongArgs(String),
}

// ----- views -----

impl DeepView for ChordKeyword {
    type V = ChordKeyword;

    open spec fn deep_view(&self) -> ChordKeyword {
        *self
    }
}

impl DeepView for ChordAlterationKind {
    type V = ChordAlterationKind;

    open spec fn deep_view(&self) -> ChordAlterationKind {
        *self
    }
}

impl DeepView for TonicKind {
    type V = TonicKind;

    open spec fn deep_view(&self) -> TonicKind {
        *self
    }
}

impl DeepView for ChordModifier {
    type V = ChordModifier;

    open spec fn deep_view(&self) -> ChordModifier {
        *self
    }
}

impl DeepView for TimeOffset {
    type V = TimeOffset;

    open spec fn deep_view(&self) -> TimeOffset {
        *self
    }
}

pub ghost struct ChordEventView {
    pub root: NoteHeight,
    pub bass: Option<NoteHeight>,
    pub kind: ChordKind,
    pub modifier: Seq<ChordModifier>,
    pub time: Option<TimeOffset>,
}

impl DeepView for ChordEvent {
    type V = ChordEventView;

    open spec fn deep_view(&self) -> ChordEventView {
        ChordEventView {
            root: self.root,
            bass: self.bass,
            kind: self.kind,
            modifier: self.modifier@,
            time: self.time,
        }
    }
}

pub ghost enum LyricEventView {
    Text(Seq<char>),
    Break,
}

impl DeepView for LyricEvent {
    type V = LyricEventView;

    open spec fn deep_view(&self) -> LyricEventView {
        match self {
            LyricEvent::LyricText(s) => LyricEventView::Text(s@),
            LyricEvent::LyricBreak => LyricEventView::Break,
        }
    }
}

pub ghost enum MusicEventView {
    Chord(ChordEventView),
    RepeatMeasure,
    StartRepeat,
    EndRepeat,
    OpenParen,
    CloseParen,
    NumberedMeasure(u16),
    Annotation(Seq<char>),
    Melody(Seq<NoteHeight>),
}

impl DeepView for MusicEvent {
    type V = MusicEventView;

    open spec fn deep_view(&self) -> MusicEventView {
        match self {
            MusicEvent::ChordEvent(c) => MusicEventView::Chord(c.deep_view()),
            MusicEvent::RepeatMeasure => MusicEventView::RepeatMeasure,
            MusicEvent::StartRepeat => MusicEventView::StartRepeat,
            MusicEvent::EndRepeat => MusicEventView::EndRepeat,
            MusicEvent::OpenParen => MusicEventView::OpenParen,
            MusicEvent::CloseParen => MusicEventView::CloseParen,
            MusicEvent::NumberedMeasure(n) => MusicEventView::NumberedMeasure(*n),
            MusicEvent::Annotation(s) => MusicEventView::Annotation(s@),
            MusicEvent::MelodyEvent(m) => MusicEventView::Melody(m@),
        }
    }
}

pub ghost enum ErrorKindView {
    WrongTonicFormat,
    MalformedMusicEvent(Seq<char>),
    Unexpected(Seq<char>),
}

pub ghost struct ParseErrorView {
    pub start: usize,
    pub end: usize,
    pub line: usize,
    pub kind: ErrorKindView,
}

impl DeepView for SHBParseError {
    type V = ParseErrorView;

    open spec fn deep_view(&self) -> ParseErrorView {
        ParseErrorView {
            start: self.loc.start,
            end: self.loc.end,
            line: self.line,
            kind: match self.kind {
                SHBErrorKind::WrongTonicFormat => ErrorKindView::WrongTonicFormat,
                SHBErrorKind::MalformedMusicEvent(s) => ErrorKindView::MalformedMusicEvent(s@),
                SHBErrorKind::Unexpected(s) => ErrorKindView::Unexpected(s@),
            },
        }
    }
}

pub ghost enum WarningView {
    RepeatedSectionName(Seq<char>),
    UnNamed,
    NoTonic,
    WrongTonicFormat,
    SectionNotFound(Seq<char>),
}

impl DeepView for ParseSongWarnings {
    type V = WarningView;

    open spec fn deep_view(&self) -> WarningView {
        match self {
            ParseSongWarnings::RepeatedSectionName(s) => WarningView::RepeatedSectionName(s@),
            ParseSongWarnings::UnNamed => WarningView::UnNamed,
            ParseSongWarnings::NoTonic => WarningView::NoTonic,
            ParseSongWarnings::WrongTonicFormat => WarningView::WrongTonicFormat,
            ParseSongWarnings::SectionNotFound(s) => WarningView::SectionNotFound(s@),
        }
    }
}

pub ghost enum LineView {
    Lyrics(Seq<Option<Seq<Seq<LyricEventView>>>>),
    Chords(Seq<Option<Seq<Seq<MusicEventView>>>>),
    Mixed(Seq<Option<Seq<(Seq<MusicEventView>, Seq<LyricEventView>)>>>),
}

impl DeepView for Line {
    type V = LineView;

    open spec fn deep_view(&self) -> LineView {
        match self {
            Line::Lyrics(v) => LineView::Lyrics(v.deep_view()),
            Line::Chords(v) => LineView::Chords(v.deep_view()),
            Line::Mixed(v) => LineView::Mixed(v.deep_view()),
        }
    }
}

pub ghost struct SubsectionView {
    pub metadata: Seq<(Seq<char>, Seq<char>)>,
    pub lines: Seq<LineView>,
}

impl DeepView for Subsection {
    type V = SubsectionView;

    open spec fn deep_view(&self) -> SubsectionView {
        SubsectionView { metadata: self.metadata.deep_view(), lines: self.lines.deep_view() }
    }
}

pub ghost struct SectionView {
    pub name: Seq<char>,
    pub description: Seq<char>,
    pub delta_tonic: NoteHeight,
    pub subsections: Seq<SubsectionView>,
}

impl DeepView for Section {
    type V = SectionView;

    open spec fn deep_view(&self) -> SectionView {
        SectionView {
            name: self.name@,
            description: self.description@,
            delta_tonic: self.delta_tonic,
            subsections: self.subsections.deep_view(),
        }
    }
}

pub ghost struct SongView {
    pub name: Seq<char>,
    pub tonic: NoteHeight,
    pub tonic_kind: TonicKind,
    pub bpm: Option<Seq<char>>,
    pub sections: Seq<SectionView>,
    pub categories: Seq<Seq<char>>,
    pub metadata: Seq<(Seq<char>, Seq<char>)>,
    pub section_names: Seq<(Seq<char>, usize)>,
    pub orders: Seq<(Seq<char>, Seq<usize>)>,
}

impl DeepView for Song {
    type V = SongView;

    open spec fn deep_view(&self) -> SongView {
        SongView {
            name: self.name@,
            tonic: self.tonic,
            tonic_kind: self.tonic_kind,
            bpm: self.bpm.deep_view(),
            sections: self.sections.deep_view(),
            categories: self.categories.deep_view(),
            metadata: self.metadata.deep_view(),
            section_names: self.section_names.deep_view(),
            orders: self.orders.deep_view(),
        }
    }
}

/// The empty subsection.
pub open spec fn empty_subsection() -> SubsectionView {
    SubsectionView { metadata: Seq::empty(), lines: Seq::empty() }
}

/// The empty section.
pub open spec fn empty_section() -> SectionView {
    SectionView {
        name: Seq::empty(),
        description: Seq::empty(),
        delta_tonic: 0,
        subsections: Seq::empty(),
    }
}

/// The song with no name, tonic C of undefined kind, and nothing else.
pub open spec fn empty_song() -> SongView {
    SongView {
        name: Seq::empty(),
        tonic: 0,
        tonic_kind: TonicKind::Undefined,
        bpm: None,
        sections: Seq::empty(),
        categories: Seq::empty(),
        metadata: Seq::empty(),
        section_names: Seq::empty(),
        orders: Seq::empty(),
    }
}

impl Default for Subsection {
    fn default() -> (r: Subsection)
        ensures
            r.deep_view() == empty_subsection(),
    {
        let r = Subsection { metadata: Vec::new(), lines: Vec::new() };
        assert(r.metadata.deep_view() =~= Seq::<(Seq<char>, Seq<char>)>::empty());
        assert(r.lines.deep_view() =~= Seq::<LineView>::empty());
        r
    }
}

impl Default for Section {
    fn default() -> (r: Section)
        ensures
            r.deep_view() == empty_section(),
    {
        let r = Section {
            name: String::new(),
            description: String::new(),
            delta_tonic: 0,
            subsections: Vec::new(),
        };
        assert(r.subsections.deep_view() =~= Seq::<SubsectionView>::empty());
        r
    }
}

impl Default for Song {
    fn default() -> (r: Song)
        ensures
            r.deep_view() == empty_song(),
    {
        let r = Song {
            name: String::new(),
            tonic: 0,
            tonic_kind: TonicKind::Undefined,
            bpm: None,
            sections: Vec::new(),
            categories: Vec::new(),
            metadata: Vec::new(),
            section_names: Vec::new(),
            orders: Vec::new(),
        };
        assert(r.sections.deep_view() =~= Seq::<SectionView>::empty());
        assert(r.categories.deep_view() =~= Seq::<Seq<char>>::empty());
        assert(r.metadata.deep_view() =~= Seq::<(Seq<char>, Seq<char>)>::empty());
        assert(r.section_names.deep_view() =~= Seq::<(Seq<char>, usize)>::empty());
        assert(r.orders.deep_view() =~= Seq::<(Seq<char>, Seq<usize>)>::empty());
        r
    }
}

/// Value of `key` in an association list: the last entry with that key wins.
pub open spec fn assoc_get<V>(s: Seq<(Seq<char>, V)>, key: Seq<char>) -> Option<V>
    decreases s.len(),
{
    if s.len() == 0 {
        None
    } else if s.last().0 == key {
        Some(s.last().1)
    } else {
        assoc_get(s.drop_last(), key)
    }
}

} // verus!
