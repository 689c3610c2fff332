//! Reading a whole song with the combinator grammar: the grammar's result,
//! then what its head metadata means (categories, tonic, orders, tempo),
//! the index of section names, and the warnings on the way.

use vstd::prelude::*;
#[allow(unused_imports)]
use vstd::string::*;
use crate::base::{letter_pitch, TonicKind, Section, SectionView, Song, SongView, SHBParseError, SHBErrorKind,
    ParseErrorView, ErrorKindView, ParseSongWarnings, WarningView, assoc_get};
use crate::text::{trim, utf8_len, float_syntax, str_trim, str_eq, str_byte_len, is_float_text,
    lemma_utf8_len_split};
use crate::grammar::{Pr, Parsed, parsed_is, Class, run, run_x, g_ident, lex_ident, g_section_name,
    lex_section_name};
use crate::grammar_music::{g_root, lex_root};
use crate::keyed::{assoc_put, keys_distinct, lemma_assoc_put, lemma_set_put, put_entry, put_item, set_put};
use crate::grammar_sections::{KeyValue, g_song, lex_song};

verus! {

// ----- text of a value -----

/// The characters of a string.
pub fn chars_of(s: &str) -> (r: Vec<char>)
    ensures
        r@ == s@,
{
    let n = s.unicode_len();
    let mut out: Vec<char> = Vec::new();
    let mut i: usize = 0;
    while i < n
        invariant
            n == s@.len(),
            i <= n,
            out@ == s@.take(i as int),
        decreases n - i,
    {
        out.push(s.get_char(i));
        assert(s@.take(i + 1) =~= s@.take(i as int).push(s@[i as int]));
        i = i + 1;
    }
    assert(s@.take(n as int) =~= s@);
    out
}

// ----- tonic -----

/// A tonic value: a note name after whitespace, minor with a following
/// `m` (a minor key counts as its relative major); what follows is not read.
pub open spec fn g_tonality(t: Seq<char>) -> Pr<(u8, TonicKind)> {
    let w = run(t, 0, Class::White);
    match g_root(t, w) {
        Pr::Done(r, q, a) => if 0 <= q < t.len() && t[q] == 'm' {
            Pr::Done((((r as int + 3) % 12) as u8, TonicKind::Minor), q + 1, a)
        } else {
            Pr::Done((r, TonicKind::Major), q, a)
        },
        Pr::Fail(e) => Pr::Fail(e),
        Pr::Panic => Pr::Panic,
    }
}

/// A tonic value as it is written: after whitespace, a note letter with its
/// pitch, raised by `#` or lowered by `b` right after it, then `m` for a
/// minor key. The key is minor exactly when the text right after the root
/// starts with `m`; a major key is stored as its pitch, a minor key as the
/// pitch three semitones up (its relative major).
pub proof fn lemma_tonality_text(t: Seq<char>)
    ensures
        g_tonality(t) matches Pr::Done((v, kind), _, _) ==> {
            let w = run(t, 0, Class::White);
            let n: int = if w + 1 < t.len() && (t[w + 1] == '#' || t[w + 1] == 'b') { 2 } else { 1 };
            let pitch = letter_pitch(t[w])->0 + (if n == 2 && t[w + 1] == '#' {
                1int
            } else if n == 2 {
                -1int
            } else {
                0int
            });
            &&& 0 <= w < t.len() && letter_pitch(t[w]) is Some
            &&& (kind == TonicKind::Minor) == (w + n < t.len() && t[w + n] == 'm')
            &&& kind != TonicKind::Undefined
            &&& v == (if kind == TonicKind::Minor { (pitch + 3) % 12 } else { pitch })
        },
{
}

fn lex_tonality(t: &Vec<char>) -> (r: Parsed<(u8, TonicKind)>)
    ensures
        parsed_is(r, g_tonality(t@)),
{
    let w = run_x(t, 0, &Class::White);
    match lex_root(t, w) {
        Parsed::Done(r, q, a) => if q < t.len() && t[q] == 'm' {
            Parsed::Done((((r as u32 + 3) % 12) as u8, TonicKind::Minor), q + 1, a)
        } else {
            Parsed::Done((r, TonicKind::Major), q, a)
        },
        Parsed::Fail(e) => Parsed::Fail(e),
        Parsed::Panic => Parsed::Panic,
    }
}

// ----- orders -----

/// A section name in an order, with the whitespace around it.
pub open spec fn g_order_item(t: Seq<char>, p: int) -> Pr<Seq<char>> {
    let q1 = run(t, p, Class::White);
    match g_section_name(t, q1) {
        Pr::Done(nm, r, a) => Pr::Done(nm, run(t, r, Class::White), a),
        Pr::Fail(e) => Pr::Fail(e),
        Pr::Panic => Pr::Panic,
    }
}

/// Section names of an order from `p` after `acc`; at least one.
pub open spec fn order_items(t: Seq<char>, p: int, acc: Seq<Seq<char>>) -> Option<Seq<Seq<char>>>
    decreases t.len() - p,
{
    match g_order_item(t, p) {
        Pr::Done(nm, q, _) => if p < q <= t.len() {
            order_items(t, q, acc.push(nm))
        } else {
            None
        },
        _ => if acc.len() == 0 {
            None
        } else {
            Some(acc)
        },
    }
}

/// An order value: its name, then the names of its sections; what follows
/// is not read.
pub open spec fn order_of(t: Seq<char>) -> Option<(Seq<char>, Seq<Seq<char>>)> {
    let w = run(t, 0, Class::White);
    match g_ident(t, w, false) {
        Pr::Done(id, q, _) => match order_items(t, q, Seq::empty()) {
            Some(ns) => Some((id, ns)),
            None => None,
        },
        _ => None,
    }
}

fn lex_order(t: &Vec<char>) -> (r: Option<(String, Vec<String>)>)
    ensures
        r.deep_view() == order_of(t@),
{
    let w = run_x(t, 0, &Class::White);
    let (id, q) = match lex_ident(t, w, false) {
        Parsed::Done(id, q, _) => (id, q),
        _ => {
            return None;
        },
    };
    let mut acc: Vec<String> = Vec::new();
    let mut i = q;
    assert(acc.deep_view() =~= Seq::<Seq<char>>::empty());
    loop
        invariant
            q <= i <= t.len(),
            order_items(t@, q as int, Seq::empty()) == order_items(t@, i as int, acc.deep_view()),
            g_ident(t@, run(t@, 0, Class::White), false) matches Pr::Done(idv, qq, _) && idv == id@ && qq == q,
        decreases t.len() - i,
    {
        let q1 = run_x(t, i, &Class::White);
        match lex_section_name(t, q1) {
            Parsed::Done(nm, r, _) => {
                let r2 = run_x(t, r, &Class::White);
                let ghost before = acc.deep_view();
                let ghost nmv = nm@;
                acc.push(nm);
                assert(acc.deep_view() =~= before.push(nmv));
                i = r2;
            },
            _ => {
                if acc.len() == 0 {
                    return None;
                } else {
                    return Some((id, acc));
                }
            },
        }
    }
}

/// The indices of the sections that an order names, and a warning for
/// each name that no section has.
pub open spec fn resolve(refs: Seq<Seq<char>>, names: Seq<(Seq<char>, usize)>) -> (Seq<usize>, Seq<WarningView>)
    decreases refs.len(),
{
    if refs.len() == 0 {
        (Seq::empty(), Seq::empty())
    } else {
        let (ix, ws) = resolve(refs.drop_last(), names);
        match assoc_get(names, refs.last()) {
            Some(u) => (ix.push(u), ws),
            None => (ix, ws.push(WarningView::SectionNotFound(refs.last()))),
        }
    }
}

/// The value of `key` in an association list of names.
fn find_name(names: &Vec<(String, usize)>, key: &str) -> (r: Option<usize>)
    ensures
        r == assoc_get(names.deep_view(), key@),
{
    let ghost v = names.deep_view();
    let mut j = names.len();
    assert(v.take(j as int) =~= v);
    while j > 0
        invariant
            v == names.deep_view(),
            j <= names.len(),
            assoc_get(v, key@) == assoc_get(v.take(j as int), key@),
        decreases j,
    {
        let entry = &names[j - 1];
        assert(v.take(j as int).last() == (entry.0@, entry.1));
        if str_eq(entry.0.as_str(), key) {
            return Some(entry.1);
        }
        assert(v.take(j as int).drop_last() =~= v.take(j - 1));
        j = j - 1;
    }
    None
}

fn lex_resolve(refs: Vec<String>, names: &Vec<(String, usize)>, warnings: &mut Vec<ParseSongWarnings>) -> (r: Vec<
    usize,
>)
    ensures
        r@ == resolve(refs.deep_view(), names.deep_view()).0,
        final(warnings).deep_view() == old(warnings).deep_view() + resolve(refs.deep_view(), names.deep_view()).1,
{
    let ghost rv = refs.deep_view();
    let ghost w0 = warnings.deep_view();
    let mut out: Vec<usize> = Vec::new();
    let mut i: usize = 0;
    assert(rv.take(0) =~= Seq::<Seq<char>>::empty());
    assert(warnings.deep_view() =~= w0 + Seq::<WarningView>::empty());
    while i < refs.len()
        invariant
            rv == refs.deep_view(),
            i <= refs.len(),
            out@ == resolve(rv.take(i as int), names.deep_view()).0,
            warnings.deep_view() == w0 + resolve(rv.take(i as int), names.deep_view()).1,
        decreases refs.len() - i,
    {
        let ghost pre = rv.take(i as int);
        assert(rv.take(i + 1).drop_last() =~= pre);
        assert(rv.take(i + 1).last() == refs[i as int]@);
        match find_name(names, refs[i].as_str()) {
            Some(u) => {
                out.push(u);
            },
            None => {
                let ghost before = warnings.deep_view();
                warnings.push(ParseSongWarnings::SectionNotFound(refs[i].clone()));
                assert(warnings.deep_view() =~= before.push(WarningView::SectionNotFound(refs[i as int]@)));
                assert(warnings.deep_view() =~= w0 + resolve(rv.take(i + 1), names.deep_view()).1);
            },
        }
        i = i + 1;
    }
    assert(rv.take(refs.len() as int) =~= rv);
    out
}

// ----- section names -----

/// The section names of the first `k` sections, each with the index of the
/// first section that has it.
pub open spec fn names_upto(secs: Seq<SectionView>, k: int) -> Seq<(Seq<char>, usize)>
    decreases k,
{
    if k <= 0 {
        Seq::empty()
    } else {
        let prev = names_upto(secs, k - 1);
        if assoc_get(prev, secs[k - 1].name) is Some {
            prev
        } else {
            prev.push((secs[k - 1].name, (k - 1) as usize))
        }
    }
}

/// A warning for each of the first `k` sections whose name an earlier
/// section has, and which has content of its own.
pub open spec fn name_warnings(secs: Seq<SectionView>, k: int) -> Seq<WarningView>
    decreases k,
{
    if k <= 0 {
        Seq::empty()
    } else {
        let prev = name_warnings(secs, k - 1);
        if assoc_get(names_upto(secs, k - 1), secs[k - 1].name) is Some
            && secs[k - 1].subsections.len() > 0 {
            prev.push(WarningView::RepeatedSectionName(secs[k - 1].name))
        } else {
            prev
        }
    }
}

fn index_names(secs: &Vec<Section>, warnings: &mut Vec<ParseSongWarnings>) -> (r: Vec<(String, usize)>)
    ensures
        r.deep_view() == names_upto(secs.deep_view(), secs.len() as int),
        final(warnings).deep_view() == old(warnings).deep_view() + name_warnings(
            secs.deep_view(),
            secs.len() as int,
        ),
{
    let ghost sv = secs.deep_view();
    let ghost w0 = warnings.deep_view();
    let mut names: Vec<(String, usize)> = Vec::new();
    let mut i: usize = 0;
    assert(names.deep_view() =~= Seq::<(Seq<char>, usize)>::empty());
    assert(warnings.deep_view() =~= w0 + Seq::<WarningView>::empty());
    while i < secs.len()
        invariant
            sv == secs.deep_view(),
            i <= secs.len(),
            names.deep_view() == names_upto(sv, i as int),
            warnings.deep_view() == w0 + name_warnings(sv, i as int),
        decreases secs.len() - i,
    {
        let sec = &secs[i];
        assert(sv[i as int] == sec.deep_view());
        match find_name(&names, sec.name.as_str()) {
            Some(_) => {
                if sec.subsections.len() > 0 {
                    let ghost before = warnings.deep_view();
                    warnings.push(ParseSongWarnings::RepeatedSectionName(sec.name.clone()));
                    assert(warnings.deep_view() =~= before.push(
                        WarningView::RepeatedSectionName(sv[i as int].name),
                    ));
                    assert(warnings.deep_view() =~= w0 + name_warnings(sv, i + 1));
                } else {
                    assert(sec.subsections.deep_view().len() == 0);
                }
            },
            None => {
                let ghost before = names.deep_view();
                names.push((sec.name.clone(), i));
                assert(names.deep_view() =~= before.push((sv[i as int].name, i)));
            },
        }
        i = i + 1;
    }
    names
}

// ----- head metadata -----

/// What the head metadata of a song sets.
pub ghost struct HeadView {
    pub categories: Seq<Seq<char>>,
    pub tonic: u8,
    pub tonic_kind: TonicKind,
    pub bpm: Option<Seq<char>>,
    pub metadata: Seq<KeyValue>,
    pub orders: Seq<(Seq<char>, Seq<usize>)>,
    pub warnings: Seq<WarningView>,
}

/// Nothing set: tonic C of undefined kind.
pub open spec fn empty_head() -> HeadView {
    HeadView {
        categories: Seq::empty(),
        tonic: 0,
        tonic_kind: TonicKind::Undefined,
        bpm: None,
        metadata: Seq::empty(),
        orders: Seq::empty(),
        warnings: Seq::empty(),
    }
}

pub open spec fn is_category_key(k: Seq<char>) -> bool {
    ||| k == seq!['c', 'a', 't']
    ||| k == seq!['c', 'a', 't', 'e', 'g', 'o', 'r', 'y']
    ||| k == seq!['c', 'a', 't', 'e', 'g', 'o', 'r', 'i', 'e', 's']
}

pub open spec fn is_tonic_key(k: Seq<char>) -> bool {
    ||| k == seq!['t', 'o', 'n', 'i', 'c']
    ||| k == seq!['t', 'o', 'n', 'e']
    ||| k == seq!['r', 'o', 'o', 't']
}

pub open spec fn is_order_key(k: Seq<char>) -> bool {
    ||| k == seq!['o', 'r', 'd']
    ||| k == seq!['o', 'r', 'd', 'e', 'r']
}

pub open spec fn is_bpm_key(k: Seq<char>) -> bool {
    k == seq!['b', 'p', 'm']
}

/// What one head entry does: a category, the tonic, an order of sections,
/// the tempo, or other metadata. `None` where reading the tonic aborts.
pub open spec fn head_step(h: HeadView, kv: KeyValue, names: Seq<(Seq<char>, usize)>) -> Option<HeadView> {
    let var = kv.0;
    let val = kv.1;
    if is_category_key(var) {
        Some(HeadView { categories: set_put(h.categories, val), ..h })
    } else if is_tonic_key(var) {
        match g_tonality(val) {
            Pr::Done(tk, _, _) => Some(HeadView { tonic: tk.0, tonic_kind: tk.1, ..h }),
            Pr::Fail(_) => Some(HeadView { warnings: h.warnings.push(WarningView::WrongTonicFormat), ..h }),
            Pr::Panic => None,
        }
    } else if is_order_key(var) {
        match order_of(val) {
            Some(o) => Some(
                HeadView {
                    orders: assoc_put(h.orders, o.0, resolve(o.1, names).0),
                    warnings: h.warnings + resolve(o.1, names).1,
                    ..h
                },
            ),
            None => Some(h),
        }
    } else if is_bpm_key(var) {
        if float_syntax(trim(val)) {
            Some(HeadView { bpm: Some(trim(val)), ..h })
        } else {
            Some(h)
        }
    } else {
        Some(HeadView { metadata: assoc_put(h.metadata, kv.0, kv.1), ..h })
    }
}

/// A head entry `bpm: v` sets the tempo to the trimmed value when it reads
/// as a number and leaves everything as it was when it does not.
pub proof fn lemma_head_tempo(h: HeadView, kv: KeyValue, names: Seq<(Seq<char>, usize)>)
    requires
        is_bpm_key(kv.0),
    ensures
        head_step(h, kv, names) == Some(
            if float_syntax(trim(kv.1)) {
                HeadView { bpm: Some(trim(kv.1)), ..h }
            } else {
                h
            },
        ),
{
    assert(kv.0[0] == 'b');
    assert(!is_category_key(kv.0)) by {
        assert(seq!['c', 'a', 't'][0] == 'c');
        assert(seq!['c', 'a', 't', 'e', 'g', 'o', 'r', 'y'][0] == 'c');
        assert(seq!['c', 'a', 't', 'e', 'g', 'o', 'r', 'i', 'e', 's'][0] == 'c');
    }
    assert(!is_tonic_key(kv.0)) by {
        assert(seq!['t', 'o', 'n', 'i', 'c'][0] == 't');
        assert(seq!['t', 'o', 'n', 'e'][0] == 't');
        assert(seq!['r', 'o', 'o', 't'][0] == 'r');
    }
    assert(!is_order_key(kv.0)) by {
        assert(seq!['o', 'r', 'd'][0] == 'o');
        assert(seq!['o', 'r', 'd', 'e', 'r'][0] == 'o');
    }
}

/// The head entries read in order.
pub open spec fn head_fold(md: Seq<KeyValue>, names: Seq<(Seq<char>, usize)>) -> Option<HeadView>
    decreases md.len(),
{
    if md.len() == 0 {
        Some(empty_head())
    } else {
        match head_fold(md.drop_last(), names) {
            Some(h) => head_step(h, md.last(), names),
            None => None,
        }
    }
}

proof fn lemma_head_fold_none(md: Seq<KeyValue>, names: Seq<(Seq<char>, usize)>, j: int)
    requires
        0 <= j <= md.len(),
        head_fold(md.take(j), names) is None,
    ensures
        head_fold(md, names) is None,
    decreases md.len() - j,
{
    if j == md.len() {
        assert(md.take(j) =~= md);
    } else {
        assert(md.take(j + 1).drop_last() =~= md.take(j));
        lemma_head_fold_none(md, names, j + 1);
    }
}

/// What the head metadata of a song sets, as values.
pub struct Head {
    pub categories: Vec<String>,
    pub tonic: u8,
    pub tonic_kind: TonicKind,
    pub bpm: Option<String>,
    pub metadata: Vec<(String, String)>,
    pub orders: Vec<(String, Vec<usize>)>,
}

/// `h` holds what `hv` says, but for the warnings.
pub open spec fn head_is(h: Head, hv: HeadView) -> bool {
    &&& h.categories.deep_view() == hv.categories
    &&& h.tonic == hv.tonic
    &&& h.tonic_kind == hv.tonic_kind
    &&& h.bpm.deep_view() == hv.bpm
    &&& h.metadata.deep_view() == hv.metadata
    &&& h.orders.deep_view() == hv.orders
}

fn read_head(md: Vec<(String, String)>, names: &Vec<(String, usize)>, warnings: &mut Vec<ParseSongWarnings>) -> (r:
    Option<Head>)
    ensures
        match head_fold(md.deep_view(), names.deep_view()) {
            Some(hv) => r matches Some(h) && head_is(h, hv) && final(warnings).deep_view()
                == old(warnings).deep_view() + hv.warnings,
            None => r is None,
        },
{
    let ghost mdv = md.deep_view();
    let ghost nv = names.deep_view();
    let ghost w0 = warnings.deep_view();
    let mut h = Head {
        categories: Vec::new(),
        tonic: 0,
        tonic_kind: TonicKind::Undefined,
        bpm: None,
        metadata: Vec::new(),
        orders: Vec::new(),
    };
    let ghost mut hv = empty_head();
    assert(h.categories.deep_view() =~= Seq::<Seq<char>>::empty());
    assert(h.metadata.deep_view() =~= Seq::<KeyValue>::empty());
    assert(h.orders.deep_view() =~= Seq::<(Seq<char>, Seq<usize>)>::empty());
    assert(warnings.deep_view() =~= w0 + Seq::<WarningView>::empty());
    let mut rest = md;
    let mut k: usize = 0;
    assert(mdv.take(0) =~= Seq::<KeyValue>::empty());
    assert(mdv.len() == rest.len());
    while rest.len() > 0
        invariant
            k + rest.len() == mdv.len(),
            mdv.len() <= usize::MAX,
            mdv == md.deep_view(),
            nv == names.deep_view(),
            forall|i: int| 0 <= i < rest.len() ==> #[trigger] rest.deep_view()[i] == mdv[k + i],
            head_fold(mdv.take(k as int), nv) == Some(hv),
            head_is(h, hv),
            warnings.deep_view() == w0 + hv.warnings,
        decreases rest.len(),
    {
        proof {
            reveal_strlit("cat");
            reveal_strlit("category");
            reveal_strlit("categories");
            reveal_strlit("tonic");
            reveal_strlit("tone");
            reveal_strlit("root");
            reveal_strlit("ord");
            reveal_strlit("order");
            reveal_strlit("bpm");
        }
        assert("cat"@ =~= seq!['c', 'a', 't']);
        assert("category"@ =~= seq!['c', 'a', 't', 'e', 'g', 'o', 'r', 'y']);
        assert("categories"@ =~= seq!['c', 'a', 't', 'e', 'g', 'o', 'r', 'i', 'e', 's']);
        assert("tonic"@ =~= seq!['t', 'o', 'n', 'i', 'c']);
        assert("tone"@ =~= seq!['t', 'o', 'n', 'e']);
        assert("root"@ =~= seq!['r', 'o', 'o', 't']);
        assert("ord"@ =~= seq!['o', 'r', 'd']);
        assert("order"@ =~= seq!['o', 'r', 'd', 'e', 'r']);
        assert("bpm"@ =~= seq!['b', 'p', 'm']);
        let ghost before = rest.deep_view();
        let (var, val) = rest.remove(0);
        assert((var@, val@) == mdv[k as int]) by {
            assert(before[0] == mdv[k as int]);
        }
        assert forall|i: int| 0 <= i < rest.len() implies #[trigger] rest.deep_view()[i] == mdv[k + 1 + i] by {
            assert(rest.deep_view()[i] == before[i + 1]);
        }
        assert(mdv.take(k + 1).drop_last() =~= mdv.take(k as int));
        assert(mdv.take(k + 1).last() == (var@, val@));
        let ghost kvv = (var@, val@);
        assert(head_fold(mdv.take(k + 1), nv) == head_step(hv, kvv, nv));
        let v = var.as_str();
        if str_eq(v, "cat") || str_eq(v, "category") || str_eq(v, "categories") {
            put_item(&mut h.categories, val);
            proof {
                hv = HeadView { categories: set_put(hv.categories, kvv.1), ..hv };
            }
        } else if str_eq(v, "tonic") || str_eq(v, "tone") || str_eq(v, "root") {
            let t = chars_of(val.as_str());
            match lex_tonality(&t) {
                Parsed::Done(tk, _, _) => {
                    h.tonic = tk.0;
                    h.tonic_kind = tk.1;
                    proof {
                        hv = HeadView { tonic: tk.0, tonic_kind: tk.1, ..hv };
                    }
                },
                Parsed::Fail(_) => {
                    let ghost prev = warnings.deep_view();
                    warnings.push(ParseSongWarnings::WrongTonicFormat);
                    assert(warnings.deep_view() =~= prev.push(WarningView::WrongTonicFormat));
                    proof {
                        hv = HeadView { warnings: hv.warnings.push(WarningView::WrongTonicFormat), ..hv };
                    }
                    assert(warnings.deep_view() =~= w0 + hv.warnings);
                },
                Parsed::Panic => {
                    proof {
                        lemma_head_fold_none(mdv, nv, k + 1);
                    }
                    return None;
                },
            }
        } else if str_eq(v, "ord") || str_eq(v, "order") {
            let t = chars_of(val.as_str());
            match lex_order(&t) {
                Some((nm, refs)) => {
                    let ghost refsv = refs.deep_view();
                    let ghost nmv = nm@;
                    let ghost wb = warnings.deep_view();
                    let ix = lex_resolve(refs, names, warnings);
                    let ghost ixv = ix@;
                    assert(ix.deep_view() =~= ixv);
                    put_entry(&mut h.orders, nm, ix);
                    proof {
                        hv = HeadView {
                            orders: assoc_put(hv.orders, nmv, resolve(refsv, nv).0),
                            warnings: hv.warnings + resolve(refsv, nv).1,
                            ..hv
                        };
                    }
                    assert(warnings.deep_view() =~= w0 + hv.warnings);
                },
                None => {},
            }
        } else if str_eq(v, "bpm") {
            let tr = str_trim(val.as_str());
            if is_float_text(tr) {
                h.bpm = Some(tr.to_owned());
                proof {
                    hv = HeadView { bpm: Some(trim(kvv.1)), ..hv };
                }
            }
        } else {
            put_entry(&mut h.metadata, var, val);
            proof {
                hv = HeadView { metadata: assoc_put(hv.metadata, kvv.0, kvv.1), ..hv };
            }
        }
        k = k + 1;
    }
    assert(mdv.take(k as int) =~= mdv);
    Some(h)
}

// ----- songs -----

/// What reading a song text gives: the song and the warnings raised on the
/// way; the position at which the text is rejected; or an input on which
/// reading aborts (a flat below C, a measure number above `u16::MAX`).
pub ghost enum SongOutcome {
    Read(SongView, Seq<WarningView>),
    Rejected(int),
    Aborted,
}

/// The song that the grammar's result makes: its sections, the index of
/// their names, and what its head metadata sets; the song's name is empty.
pub open spec fn song_outcome(s: Seq<char>) -> SongOutcome {
    match g_song(s) {
        Pr::Done(v, _, _) => {
            let secs = v.1;
            let names = names_upto(secs, secs.len() as int);
            match head_fold(v.0, names) {
                Some(h) => SongOutcome::Read(
                    SongView {
                        name: Seq::empty(),
                        tonic: h.tonic,
                        tonic_kind: h.tonic_kind,
                        bpm: h.bpm,
                        sections: secs,
                        categories: h.categories,
                        metadata: h.metadata,
                        section_names: names,
                        orders: h.orders,
                    },
                    name_warnings(secs, secs.len() as int) + h.warnings,
                ),
                None => SongOutcome::Aborted,
            }
        },
        Pr::Fail(at) => SongOutcome::Rejected(at),
        Pr::Panic => SongOutcome::Aborted,
    }
}

/// The error for a text rejected at character `at`: the byte range of that
/// character (empty at the end of the text) and its text.
pub open spec fn error_at(s: Seq<char>, at: int) -> ParseErrorView {
    let a = if at < s.len() {
        at
    } else {
        s.len() as int
    };
    let b = if at < s.len() {
        at + 1
    } else {
        s.len() as int
    };
    ParseErrorView {
        start: utf8_len(s.take(a)) as usize,
        end: utf8_len(s.take(b)) as usize,
        line: 0,
        kind: ErrorKindView::Unexpected(s.subrange(a, b)),
    }
}

fn error_for(s: &str, at: usize) -> (r: SHBParseError)
    requires
        at <= s@.len(),
        utf8_len(s@) <= usize::MAX,
    ensures
        r.deep_view() == error_at(s@, at as int),
{
    let n = s.unicode_len();
    let (a, b) = if at < n {
        (at, at + 1)
    } else {
        (n, n)
    };
    proof {
        lemma_utf8_len_split(s@, a as int);
        lemma_utf8_len_split(s@, b as int);
        assert(s@.subrange(0, a as int) =~= s@.take(a as int));
        assert(s@.subrange(0, b as int) =~= s@.take(b as int));
    }
    let start = str_byte_len(s.substring_char(0, a));
    let end = str_byte_len(s.substring_char(0, b));
    let msg = s.substring_char(a, b).to_owned();
    SHBParseError {
        loc: core::ops::Range { start, end },
        line: 0,
        kind: SHBErrorKind::Unexpected(msg),
    }
}

fn song_of(h: Head, secs: Vec<Section>, names: Vec<(String, usize)>) -> (r: Song)
    ensures
        r.deep_view() == (SongView {
            name: Seq::empty(),
            tonic: h.tonic,
            tonic_kind: h.tonic_kind,
            bpm: h.bpm.deep_view(),
            sections: secs.deep_view(),
            categories: h.categories.deep_view(),
            metadata: h.metadata.deep_view(),
            section_names: names.deep_view(),
            orders: h.orders.deep_view(),
        }),
{
    let r = Song {
        name: String::new(),
        tonic: h.tonic,
        tonic_kind: h.tonic_kind,
        bpm: h.bpm,
        sections: secs,
        categories: h.categories,
        metadata: h.metadata,
        section_names: names,
        orders: h.orders,
    };
    assert(r.name@ =~= Seq::<char>::empty());
    r
}

fn error_list(s: &str, at: usize) -> (r: Vec<SHBParseError>)
    requires
        at <= s@.len(),
        utf8_len(s@) <= usize::MAX,
    ensures
        r.deep_view() == seq![error_at(s@, at as int)],
{
    let e = error_for(s, at);
    let ghost ev = e.deep_view();
    let mut es: Vec<SHBParseError> = Vec::new();
    es.push(e);
    assert(es.deep_view() =~= seq![ev]);
    es
}

/// Reads a song; `None` where reading aborts.
#[verifier::spinoff_prover]
fn read_song(s: &str, warnings: &mut Vec<ParseSongWarnings>) -> (r: Option<Result<Song, Vec<SHBParseError>>>)
    requires
        utf8_len(s@) <= usize::MAX,
    ensures
        match song_outcome(s@) {
            SongOutcome::Read(sv, ws) => r matches Some(Ok(song)) && song.deep_view() == sv
                && final(warnings).deep_view() == old(warnings).deep_view() + ws,
            SongOutcome::Rejected(at) => r matches Some(Err(es)) && es.deep_view() == seq![error_at(s@, at)]
                && final(warnings).deep_view() == old(warnings).deep_view() && 0 <= at <= s@.len(),
            SongOutcome::Aborted => r is None,
        },
{
    let chars = chars_of(s);
    let ghost g = g_song(s@);
    match lex_song(&chars) {
        Parsed::Done(parts, _, _) => {
            let (md, secs) = parts;
            let ghost mdv = md.deep_view();
            let ghost sv = secs.deep_view();
            assert(g matches Pr::Done(v, _, _) && v.0 == mdv && v.1 == sv);
            let ghost w0 = warnings.deep_view();
            let names = index_names(&secs, warnings);
            let ghost nv = names.deep_view();
            let ghost w1 = warnings.deep_view();
            assert(nv == names_upto(sv, sv.len() as int));
            match read_head(md, &names, warnings) {
                Some(h) => {
                    let ghost hv = head_fold(mdv, nv)->0;
                    let ghost hw = hv.warnings;
                    let ghost nw = name_warnings(sv, sv.len() as int);
                    assert(w1 == w0 + nw);
                    assert(warnings.deep_view() == w1 + hw);
                    assert((w0 + nw) + hw =~= w0 + (nw + hw));
                    let song = song_of(h, secs, names);
                    Some(Ok(song))
                },
                None => None,
            }
        },
        Parsed::Fail(at) => Some(Err(error_list(s, at))),
        Parsed::Panic => None,
    }
}

/// Reads a song with the combinator grammar. On success the song comes back
/// and the warnings raised on the way are appended to `warnings`; a rejected
/// text gives the one error at the furthest position the grammar reached.
pub fn parse_song(s: &str, warnings: &mut Vec<ParseSongWarnings>) -> (r: Result<Song, Vec<SHBParseError>>)
    requires
        utf8_len(s@) <= usize::MAX,
        !(song_outcome(s@) is Aborted),
    ensures
        match song_outcome(s@) {
            SongOutcome::Read(sv, ws) => r matches Ok(song) && song.deep_view() == sv
                && final(warnings).deep_view() == old(warnings).deep_view() + ws,
            SongOutcome::Rejected(at) => r matches Err(es) && es.deep_view() == seq![error_at(s@, at)]
                && final(warnings).deep_view() == old(warnings).deep_view() && 0 <= at <= s@.len(),
            SongOutcome::Aborted => false,
        },
        r matches Ok(song) ==> song.categories.deep_view().no_duplicates() && keys_distinct(
            song.metadata.deep_view(),
        ) && keys_distinct(song.orders.deep_view()),
{
    proof {
        lemma_song_maps_distinct(s@);
    }
    match read_song(s, warnings) {
        Some(r) => r,
        None => Err(Vec::new()),
    }
}

/// Whether reading the text aborts (a flat below C, a measure number above
/// `u16::MAX`), the texts that `parse_song` does not take.
pub fn song_aborts(s: &str) -> (r: bool)
    requires
        utf8_len(s@) <= usize::MAX,
    ensures
        r == song_outcome(s@) is Aborted,
{
    let mut scratch: Vec<ParseSongWarnings> = Vec::new();
    read_song(s, &mut scratch).is_none()
}

/// `parse_song` on any text: `None` on the texts on which reading aborts,
/// which it tests first.
pub fn try_parse_song(s: &str, warnings: &mut Vec<ParseSongWarnings>) -> (r: Option<Result<Song, Vec<SHBParseError>>>)
    requires
        utf8_len(s@) <= usize::MAX,
    ensures
        match song_outcome(s@) {
            SongOutcome::Read(sv, ws) => r matches Some(Ok(song)) && song.deep_view() == sv
                && final(warnings).deep_view() == old(warnings).deep_view() + ws,
            SongOutcome::Rejected(at) => r matches Some(Err(es)) && es.deep_view() == seq![error_at(s@, at)]
                && final(warnings).deep_view() == old(warnings).deep_view() && 0 <= at <= s@.len(),
            SongOutcome::Aborted => r is None,
        },
{
    if song_aborts(s) {
        None
    } else {
        Some(parse_song(s, warnings))
    }
}

// ----- laws -----

proof fn lemma_assoc_get_push<V>(s: Seq<(Seq<char>, V)>, k: Seq<char>, v: V, key: Seq<char>)
    ensures
        assoc_get(s.push((k, v)), key) == if key == k {
            Some(v)
        } else {
            assoc_get(s, key)
        },
{
    assert(s.push((k, v)).drop_last() =~= s);
}

proof fn lemma_assoc_get_some<V>(s: Seq<(Seq<char>, V)>, key: Seq<char>)
    ensures
        assoc_get(s, key) matches Some(v) ==> exists|j: int| 0 <= j < s.len() && #[trigger] s[j] == (key, v),
    decreases s.len(),
{
    if s.len() > 0 {
        if s.last().0 != key {
            lemma_assoc_get_some(s.drop_last(), key);
            if assoc_get(s.drop_last(), key) is Some {
                let j = choose|j: int| 0 <= j < s.drop_last().len() && #[trigger] s.drop_last()[j] == (
                    key,
                    assoc_get(s, key)->0,
                );
                assert(s[j] == s.drop_last()[j]);
            }
        } else {
            assert(s[s.len() - 1] == (key, s.last().1));
        }
    }
}

proof fn lemma_names_upto(secs: Seq<SectionView>, k: int)
    requires
        0 <= k <= secs.len(),
        secs.len() <= usize::MAX,
    ensures
        ({
            let names = names_upto(secs, k);
            &&& forall|j: int|
                0 <= j < names.len() ==> {
                    &&& (#[trigger] names[j]).1 < k
                    &&& secs[names[j].1 as int].name == names[j].0
                    &&& forall|i: int| 0 <= i < names[j].1 ==> secs[i].name != names[j].0
                }
            &&& forall|i: int| 0 <= i < k ==> assoc_get(names, #[trigger] secs[i].name) is Some
        }),
    decreases k,
{
    if k > 0 {
        lemma_names_upto(secs, k - 1);
        let prev = names_upto(secs, k - 1);
        let nm = secs[k - 1].name;
        if assoc_get(prev, nm) is None {
            assert forall|i: int| 0 <= i < k - 1 implies secs[i].name != nm by {
                if secs[i].name == nm {
                    assert(assoc_get(prev, secs[i].name) is Some);
                }
            }
            assert forall|i: int| 0 <= i < k implies assoc_get(names_upto(secs, k), #[trigger] secs[i].name) is Some by {
                lemma_assoc_get_push(prev, nm, (k - 1) as usize, secs[i].name);
            }
        }
    }
}

/// The index of section names of a song: each entry gives a section with
/// that name, the first one; and every section's name is in the index.
pub proof fn lemma_section_index(secs: Seq<SectionView>)
    requires
        secs.len() <= usize::MAX,
    ensures
        ({
            let names = names_upto(secs, secs.len() as int);
            &&& forall|j: int|
                0 <= j < names.len() ==> {
                    &&& (#[trigger] names[j]).1 < secs.len()
                    &&& secs[names[j].1 as int].name == names[j].0
                    &&& forall|i: int| 0 <= i < names[j].1 ==> secs[i].name != names[j].0
                }
            &&& forall|i: int| 0 <= i < secs.len() ==> assoc_get(names, #[trigger] secs[i].name) is Some
        }),
{
    lemma_names_upto(secs, secs.len() as int);
}

proof fn lemma_resolve_in_range(refs: Seq<Seq<char>>, names: Seq<(Seq<char>, usize)>, bound: int)
    requires
        forall|j: int| 0 <= j < names.len() ==> (#[trigger] names[j]).1 < bound,
    ensures
        forall|i: int| 0 <= i < resolve(refs, names).0.len() ==> #[trigger] resolve(refs, names).0[i] < bound,
    decreases refs.len(),
{
    if refs.len() > 0 {
        lemma_resolve_in_range(refs.drop_last(), names, bound);
        lemma_assoc_get_some(names, refs.last());
        let (ix, ws) = resolve(refs.drop_last(), names);
        if let Some(u) = assoc_get(names, refs.last()) {
            let j = choose|j: int| 0 <= j < names.len() && #[trigger] names[j] == (refs.last(), u);
            assert(names[j].1 < bound);
            assert(resolve(refs, names).0 == ix.push(u));
            assert forall|i: int| 0 <= i < resolve(refs, names).0.len() implies #[trigger] resolve(
                refs,
                names,
            ).0[i] < bound by {
                if i < ix.len() {
                    assert(resolve(refs, names).0[i] == ix[i]);
                }
            }
        }
    }
}

proof fn lemma_head_orders_in_range(md: Seq<KeyValue>, names: Seq<(Seq<char>, usize)>, bound: int)
    requires
        forall|j: int| 0 <= j < names.len() ==> (#[trigger] names[j]).1 < bound,
    ensures
        head_fold(md, names) matches Some(h) ==> forall|i: int, x: int|
            0 <= i < h.orders.len() && 0 <= x < h.orders[i].1.len() ==> #[trigger] h.orders[i].1[x] < bound,
    decreases md.len(),
{
    if md.len() > 0 {
        lemma_head_orders_in_range(md.drop_last(), names, bound);
        let kv = md.last();
        if let Some(o) = order_of(kv.1) {
            lemma_resolve_in_range(o.1, names, bound);
            if let Some(h0) = head_fold(md.drop_last(), names) {
                if is_order_key(kv.0) && !is_category_key(kv.0) && !is_tonic_key(kv.0) {
                    let r = assoc_put(h0.orders, o.0, resolve(o.1, names).0);
                    lemma_assoc_put(h0.orders, o.0, resolve(o.1, names).0);
                    assert forall|i: int, x: int| 0 <= i < r.len() && 0 <= x < r[i].1.len()
                        implies #[trigger] r[i].1[x] < bound by {
                        if r[i] != (o.0, resolve(o.1, names).0) {
                            let j = choose|j: int| 0 <= j < h0.orders.len() && h0.orders[j] == r[i];
                            assert(h0.orders[j].1[x] < bound);
                        }
                    }
                }
            }
        }
    }
}

/// Every section that an order of a read song names is one of the song's
/// sections.
pub proof fn lemma_orders_in_range(s: Seq<char>)
    ensures
        song_outcome(s) matches SongOutcome::Read(sv, _) ==> forall|i: int, x: int|
            0 <= i < sv.orders.len() && 0 <= x < sv.orders[i].1.len() ==> #[trigger] sv.orders[i].1[x]
                < sv.sections.len(),
{
    if let Pr::Done(v, _, _) = g_song(s) {
        let secs = v.1;
        if secs.len() <= usize::MAX {
            lemma_section_index(secs);
            lemma_head_orders_in_range(v.0, names_upto(secs, secs.len() as int), secs.len() as int);
        }
    }
}

proof fn lemma_head_distinct(md: Seq<KeyValue>, names: Seq<(Seq<char>, usize)>)
    ensures
        head_fold(md, names) matches Some(h) ==> h.categories.no_duplicates() && keys_distinct(h.metadata)
            && keys_distinct(h.orders),
    decreases md.len(),
{
    if md.len() > 0 {
        lemma_head_distinct(md.drop_last(), names);
        if let Some(h0) = head_fold(md.drop_last(), names) {
            let kv = md.last();
            lemma_set_put(h0.categories, kv.1);
            lemma_assoc_put(h0.metadata, kv.0, kv.1);
            if let Some(o) = order_of(kv.1) {
                lemma_assoc_put(h0.orders, o.0, resolve(o.1, names).0);
            }
        }
    }
}

/// A read song keeps one entry per metadata key and per order name, and
/// each category once; a later value replaces an earlier one.
pub proof fn lemma_song_maps_distinct(s: Seq<char>)
    ensures
        song_outcome(s) matches SongOutcome::Read(sv, _) ==> sv.categories.no_duplicates() && keys_distinct(
            sv.metadata,
        ) && keys_distinct(sv.orders),
{
    if let Pr::Done(v, _, _) = g_song(s) {
        lemma_head_distinct(v.0, names_upto(v.1, v.1.len() as int));
    }
}

/// The error of a rejected text lies within the text.
pub proof fn lemma_error_within(s: Seq<char>, at: int)
    requires
        0 <= at <= s.len(),
        utf8_len(s) <= usize::MAX,
    ensures
        error_at(s, at).start <= error_at(s, at).end <= utf8_len(s),
{
    let a = if at < s.len() { at } else { s.len() as int };
    let b = if at < s.len() { at + 1 } else { s.len() as int };
    lemma_utf8_len_split(s, a);
    lemma_utf8_len_split(s, b);
    lemma_utf8_len_split(s.take(b), a);
    assert(s.take(b).take(a) =~= s.take(a));
}

} // verus!
