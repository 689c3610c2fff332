# shibim

A library for songbook files in the SHB text format: the song data model,
the chord, time-offset and music-block lexers, the character-driven SHB
parser, the section-based song grammar, and the decisions behind the HTML
rendering of songs. Every function in `src/` carries a contract that Verus
checks.

Layout:

- `src/base.rs`: songs, sections, lines, events, errors and warnings, with
  their deep views; conversions between `Song`, `CompiledSong` and `SongRef`.
- `src/parser.rs`: lexers for tone roots, tonalities, literals, numbers, time
  offsets, chord keywords, chords, melodies and music blocks.
- `src/shb_parser.rs`: the SHB parser as a state machine fed one character at
  a time, specified by a step function over its view.
- `src/grammar*.rs`, `src/song_parse.rs`: the song grammar as a PEG over
  characters, with the position of the first error; `parse_song`.
- `src/prototype.rs`: the older prototype dialect of section headers.
- `src/render.rs`, `src/toneutil.rs`: tonic spelling, chord labels, default
  orders and the names of a song's orders.
- `src/loading.rs`: load errors and the gathering of a batch of songs.
- `src/keyed.rs`: lists used as maps and sets of texts, where a key written
  again replaces its entry.
- `src/text.rs`, `src/util.rs`, `src/deep_copy.rs`: character and string
  helpers, `partition_result`, and deep copies of sections.
- `app/`: the command-line program, file system access, the batch rendering
  of a song directory and the HTML templates.
- `tests/`: tests of the library on concrete inputs.
