//! Character and string utilities shared by the parsers: Unicode whitespace,
//! UTF-8 widths, trimming, and the few `std` string calls the parsers make.

use vstd::prelude::*;
use vstd::utf8::*;
#[allow(unused_imports)]
use vstd::string::*;

verus! {

/// The Unicode `White_Space` property, as `char::is_whitespace` tests it.
pub open spec fn is_ws(c: char) -> bool {
    ||| c == ' '
    ||| ('\u{9}' <= c && c <= '\u{d}')
    ||| c == '\u{85}'
    ||| c == '\u{a0}'
    ||| c == '\u{1680}'
    ||| ('\u{2000}' <= c && c <= '\u{200a}')
    ||| c == '\u{2028}'
    ||| c == '\u{2029}'
    ||| c == '\u{202f}'
    ||| c == '\u{205f}'
    ||| c == '\u{3000}'
}

/// `char::is_whitespace`.
pub fn is_whitespace(c: char) -> (r: bool)
    ensures
        r == is_ws(c),
{
    c == ' ' || ('\u{9}' <= c && c <= '\u{d}') || c == '\u{85}' || c == '\u{a0}' || c == '\u{1680}'
        || ('\u{2000}' <= c && c <= '\u{200a}') || c == '\u{2028}' || c == '\u{2029}' || c
        == '\u{202f}' || c == '\u{205f}' || c == '\u{3000}'
}

/// ASCII decimal digit.
pub open spec fn is_digit(c: char) -> bool {
    '0' <= c && c <= '9'
}

/// `char::is_ascii_digit`.
pub fn is_ascii_digit(c: char) -> (r: bool)
    ensures
        r == is_digit(c),
{
    '0' <= c && c <= '9'
}

/// Number of bytes of the UTF-8 encoding of `c`.
pub open spec fn char_width(c: char) -> nat {
    if (c as u32) < 0x80 {
        1
    } else if (c as u32) < 0x800 {
        2
    } else if (c as u32) < 0x10000 {
        3
    } else {
        4
    }
}

/// Number of bytes of the UTF-8 encoding of a character sequence.
pub open spec fn utf8_len(s: Seq<char>) -> nat
    decreases s.len(),
{
    if s.len() == 0 {
        0
    } else {
        char_width(s[0]) + utf8_len(s.drop_first())
    }
}

/// `char::len_utf8`.
pub fn len_utf8(c: char) -> (r: usize)
    ensures
        r == char_width(c),
        1 <= r <= 4,
{
    let u = c as u32;
    if u < 0x80 {
        1
    } else if u < 0x800 {
        2
    } else if u < 0x10000 {
        3
    } else {
        4
    }
}

pub proof fn lemma_utf8_len_concat(a: Seq<char>, b: Seq<char>)
    ensures
        utf8_len(a + b) == utf8_len(a) + utf8_len(b),
    decreases a.len(),
{
    if a.len() == 0 {
        assert(a + b =~= b);
    } else {
        assert((a + b).drop_first() =~= a.drop_first() + b);
        lemma_utf8_len_concat(a.drop_first(), b);
    }
}

pub proof fn lemma_utf8_len_push(a: Seq<char>, c: char)
    ensures
        utf8_len(a.push(c)) == utf8_len(a) + char_width(c),
{
    lemma_utf8_len_concat(a, seq![c]);
    assert(a.push(c) =~= a + seq![c]);
    assert(seq![c].drop_first() =~= Seq::<char>::empty());
    assert(utf8_len(Seq::<char>::empty()) == 0);
    assert(utf8_len(seq![c]) == char_width(c) + utf8_len(seq![c].drop_first()));
}

pub proof fn lemma_utf8_len_bounds(a: Seq<char>)
    ensures
        a.len() <= utf8_len(a) <= 4 * a.len(),
    decreases a.len(),
{
    if a.len() > 0 {
        lemma_utf8_len_bounds(a.drop_first());
    }
}

proof fn lemma_encode_len(s: Seq<char>)
    ensures
        encode_utf8(s).len() == utf8_len(s),
    decreases s.len(),
{
    if s.len() > 0 {
        let c = s[0];
        char_is_scalar(c);
        lemma_encode_len(s.drop_first());
    }
}

/// Byte length of a string slice, stated over its characters.
pub fn str_byte_len(s: &str) -> (r: usize)
    requires
        utf8_len(s@) <= usize::MAX,
    ensures
        r == utf8_len(s@),
{
    proof {
        lemma_encode_len(s@);
    }
    s.len()
}

pub proof fn lemma_utf8_len_split(s: Seq<char>, k: int)
    requires
        0 <= k <= s.len(),
    ensures
        utf8_len(s) == utf8_len(s.take(k)) + utf8_len(s.skip(k)),
        utf8_len(s.take(k)) <= utf8_len(s),
        utf8_len(s.skip(k)) <= utf8_len(s),
{
    assert(s =~= s.take(k) + s.skip(k));
    lemma_utf8_len_concat(s.take(k), s.skip(k));
}

pub proof fn lemma_utf8_len_subrange(s: Seq<char>, i: int, j: int)
    requires
        0 <= i <= j <= s.len(),
    ensures
        utf8_len(s.subrange(i, j)) <= utf8_len(s),
{
    lemma_utf8_len_split(s, j);
    lemma_utf8_len_split(s.take(j), i);
    assert(s.take(j).skip(i) =~= s.subrange(i, j));
}

/// `s` without its leading whitespace.
pub open spec fn trim_start(s: Seq<char>) -> Seq<char>
    decreases s.len(),
{
    if s.len() > 0 && is_ws(s[0]) {
        trim_start(s.drop_first())
    } else {
        s
    }
}

/// `s` without its trailing whitespace.
pub open spec fn trim_end(s: Seq<char>) -> Seq<char>
    decreases s.len(),
{
    if s.len() > 0 && is_ws(s.last()) {
        trim_end(s.drop_last())
    } else {
        s
    }
}

/// `s` without leading and trailing whitespace (`str::trim`).
pub open spec fn trim(s: Seq<char>) -> Seq<char> {
    trim_end(trim_start(s))
}

pub proof fn lemma_trim_start_skip(s: Seq<char>, i: int)
    requires
        0 <= i <= s.len(),
        forall|j: int| 0 <= j < i ==> is_ws(#[trigger] s[j]),
    ensures
        trim_start(s) == trim_start(s.skip(i)),
    decreases i,
{
    if i > 0 {
        assert(is_ws(s[0]));
        assert(s.drop_first().skip(i - 1) =~= s.skip(i));
        assert forall|j: int| 0 <= j < i - 1 implies is_ws(#[trigger] s.drop_first()[j]) by {
            assert(s.drop_first()[j] == s[j + 1]);
        }
        lemma_trim_start_skip(s.drop_first(), i - 1);
    } else {
        assert(s.skip(0) =~= s);
    }
}

pub proof fn lemma_trim_end_take(s: Seq<char>, j: int)
    requires
        0 <= j <= s.len(),
        forall|k: int| j <= k < s.len() ==> is_ws(#[trigger] s[k]),
    ensures
        trim_end(s) == trim_end(s.take(j)),
    decreases s.len() - j,
{
    if j < s.len() {
        assert(s.drop_last().take(j) =~= s.take(j));
        lemma_trim_end_take(s.drop_last(), j);
    } else {
        assert(s.take(j) =~= s);
    }
}

/// Index of the first non-whitespace character of `s`, or `s.len()`.
pub open spec fn ws_prefix_len(s: Seq<char>) -> nat
    decreases s.len(),
{
    if s.len() > 0 && is_ws(s[0]) {
        1 + ws_prefix_len(s.drop_first())
    } else {
        0
    }
}

pub proof fn lemma_trim_start_is_skip(s: Seq<char>)
    ensures
        ws_prefix_len(s) <= s.len(),
        trim_start(s) == s.skip(ws_prefix_len(s) as int),
        forall|j: int| 0 <= j < ws_prefix_len(s) ==> is_ws(#[trigger] s[j]),
        ws_prefix_len(s) < s.len() ==> !is_ws(s[ws_prefix_len(s) as int]),
    decreases s.len(),
{
    if s.len() > 0 && is_ws(s[0]) {
        lemma_trim_start_is_skip(s.drop_first());
        assert(s.drop_first().skip(ws_prefix_len(s.drop_first()) as int) =~= s.skip(
            ws_prefix_len(s) as int,
        ));
        assert forall|j: int| 0 <= j < ws_prefix_len(s) implies is_ws(#[trigger] s[j]) by {
            if j > 0 {
                assert(s[j] == s.drop_first()[j - 1]);
            }
        }
    } else {
        assert(s.skip(0) =~= s);
    }
}

/// `str::trim_start`.
pub fn str_trim_start(s: &str) -> (r: &str)
    ensures
        r@ == trim_start(s@),
        r@.len() <= s@.len(),
        utf8_len(r@) <= utf8_len(s@),
{
    let n = s.unicode_len();
    let mut i: usize = 0;
    while i < n && is_whitespace(s.get_char(i))
        invariant
            n == s@.len(),
            i <= n,
            forall|j: int| 0 <= j < i ==> is_ws(#[trigger] s@[j]),
        decreases n - i,
    {
        i = i + 1;
    }
    proof {
        lemma_trim_start_skip(s@, i as int);
        assert(s@.skip(i as int) =~= s@.subrange(i as int, n as int));
        lemma_utf8_len_subrange(s@, i as int, n as int);
    }
    s.substring_char(i, n)
}

/// `str::trim`.
pub fn str_trim(s: &str) -> (r: &str)
    ensures
        r@ == trim(s@),
        r@.len() <= s@.len(),
        utf8_len(r@) <= utf8_len(s@),
{
    let t = str_trim_start(s);
    let n = t.unicode_len();
    let mut j: usize = n;
    while j > 0 && is_whitespace(t.get_char(j - 1))
        invariant
            n == t@.len(),
            j <= n,
            forall|k: int| j <= k < n ==> is_ws(#[trigger] t@[k]),
        decreases j,
    {
        j = j - 1;
    }
    proof {
        lemma_trim_end_take(t@, j as int);
        let u = t@.take(j as int);
        assert(u.len() == 0 || !is_ws(u.last()));
        assert(trim_end(u) == u);
        assert(u =~= t@.subrange(0, j as int));
        lemma_utf8_len_subrange(t@, 0, j as int);
    }
    t.substring_char(0, j)
}

pub proof fn lemma_trim_start_len(s: Seq<char>)
    ensures
        trim_start(s).len() <= s.len(),
        utf8_len(trim_start(s)) <= utf8_len(s),
{
    lemma_trim_start_is_skip(s);
    lemma_utf8_len_split(s, ws_prefix_len(s) as int);
}

pub proof fn lemma_trim_end_first(t: Seq<char>)
    requires
        t.len() > 0,
        !is_ws(t[0]),
    ensures
        trim_end(t).len() > 0,
        trim_end(t)[0] == t[0],
    decreases t.len(),
{
    if is_ws(t.last()) {
        assert(t.len() > 1);
        assert(t.drop_last()[0] == t[0]);
        lemma_trim_end_first(t.drop_last());
    }
}

/// A trimmed text does not start with whitespace.
pub proof fn lemma_trim_first(s: Seq<char>)
    ensures
        trim(s).len() > 0 ==> !is_ws(trim(s)[0]),
        trim_start(s).len() > 0 ==> !is_ws(trim_start(s)[0]),
{
    lemma_trim_start_is_skip(s);
    let t = trim_start(s);
    if t.len() > 0 {
        assert(t[0] == s[ws_prefix_len(s) as int]);
        lemma_trim_end_first(t);
    } else {
        assert(t =~= Seq::<char>::empty());
    }
}

pub proof fn lemma_trim_end_len(s: Seq<char>)
    ensures
        utf8_len(trim_end(s)) <= utf8_len(s),
    decreases s.len(),
{
    if s.len() > 0 && is_ws(s.last()) {
        lemma_trim_end_len(s.drop_last());
        lemma_utf8_len_split(s, s.len() - 1);
        assert(s.take(s.len() - 1) =~= s.drop_last());
    }
}

pub proof fn lemma_trim_len(s: Seq<char>)
    ensures
        utf8_len(trim(s)) <= utf8_len(s),
{
    lemma_trim_start_len(s);
    lemma_trim_end_len(trim_start(s));
}

/// Index of the first whitespace character of `s`.
pub open spec fn find_ws(s: Seq<char>) -> Option<nat>
    decreases s.len(),
{
    if s.len() == 0 {
        None
    } else if is_ws(s[0]) {
        Some(0)
    } else {
        match find_ws(s.drop_first()) {
            Some(k) => Some(k + 1),
            None => None,
        }
    }
}

pub proof fn lemma_find_ws(s: Seq<char>)
    ensures
        match find_ws(s) {
            Some(k) => k < s.len() && is_ws(s[k as int]) && forall|j: int|
                0 <= j < k ==> !is_ws(#[trigger] s[j]),
            None => forall|j: int| 0 <= j < s.len() ==> !is_ws(#[trigger] s[j]),
        },
    decreases s.len(),
{
    if s.len() > 0 && !is_ws(s[0]) {
        lemma_find_ws(s.drop_first());
        match find_ws(s.drop_first()) {
            Some(k) => {
                assert forall|j: int| 0 <= j < k + 1 implies !is_ws(#[trigger] s[j]) by {
                    if j > 0 {
                        assert(s[j] == s.drop_first()[j - 1]);
                    }
                }
            },
            None => {
                assert forall|j: int| 0 <= j < s.len() implies !is_ws(#[trigger] s[j]) by {
                    if j > 0 {
                        assert(s[j] == s.drop_first()[j - 1]);
                    }
                }
            },
        }
    }
}

/// `str::find(char::is_whitespace)`, as a character index together with
/// the byte index that `str::find` reports.
pub fn find_whitespace(s: &str) -> (r: Option<(usize, usize)>)
    requires
        utf8_len(s@) <= usize::MAX,
    ensures
        match find_ws(s@) {
            Some(k) => r == Some((k as usize, utf8_len(s@.take(k as int)) as usize)),
            None => r is None,
        },
{
    let n = s.unicode_len();
    let mut i: usize = 0;
    let mut b: usize = 0;
    proof {
        lemma_find_ws(s@);
    }
    while i < n
        invariant
            n == s@.len(),
            i <= n,
            b == utf8_len(s@.take(i as int)),
            utf8_len(s@) <= usize::MAX,
            forall|j: int| 0 <= j < i ==> !is_ws(#[trigger] s@[j]),
            match find_ws(s@) {
                Some(k) => k < n && is_ws(s@[k as int]) && forall|j: int|
                    0 <= j < k ==> !is_ws(#[trigger] s@[j]),
                None => forall|j: int| 0 <= j < n ==> !is_ws(#[trigger] s@[j]),
            },
        decreases n - i,
    {
        let c = s.get_char(i);
        if is_whitespace(c) {
            proof {
                match find_ws(s@) {
                    Some(k) => {
                        if k < i {
                            assert(!is_ws(s@[k as int]));
                        }
                        if k > i {
                            assert(!is_ws(s@[i as int]));
                        }
                    },
                    None => {
                        assert(!is_ws(s@[i as int]));
                    },
                }
            }
            return Some((i, b));
        }
        proof {
            assert(s@.take(i + 1) =~= s@.take(i as int).push(c));
            lemma_utf8_len_push(s@.take(i as int), c);
            lemma_utf8_len_split(s@, i + 1);
        }
        b = b + len_utf8(c);
        i = i + 1;
    }
    proof {
        match find_ws(s@) {
            Some(k) => {
                assert(!is_ws(s@[k as int]));
            },
            None => {},
        }
    }
    None
}

/// Whether two strings hold the same characters.
pub fn str_eq(a: &str, b: &str) -> (r: bool)
    ensures
        r == (a@ == b@),
{
    let n = a.unicode_len();
    if n != b.unicode_len() {
        return false;
    }
    let mut i: usize = 0;
    while i < n
        invariant
            n == a@.len(),
            n == b@.len(),
            i <= n,
            forall|j: int| 0 <= j < i ==> a@[j] == b@[j],
        decreases n - i,
    {
        if a.get_char(i) != b.get_char(i) {
            return false;
        }
        i = i + 1;
    }
    assert(a@ =~= b@);
    true
}

/// Whether the string has no characters.
pub fn str_is_empty(s: &str) -> (r: bool)
    ensures
        r == (s@.len() == 0),
{
    s.unicode_len() == 0
}

/// `c` lowered to ASCII lower case is the lower-case letter `w`.
pub open spec fn same_ignore_case(c: char, w: char) -> bool {
    c == w || ('a' <= w && w <= 'z' && (c as u32) + 32 == (w as u32))
}

/// `s` equals `word` (given in lower case) ignoring ASCII case.
pub open spec fn eq_ignore_case(s: Seq<char>, word: Seq<char>) -> bool {
    s.len() == word.len() && forall|i: int|
        0 <= i < s.len() ==> same_ignore_case(#[trigger] s[i], word[i])
}

/// Length of the run of ASCII digits that starts `s`.
pub open spec fn digits_len(s: Seq<char>) -> nat
    decreases s.len(),
{
    if s.len() > 0 && is_digit(s[0]) {
        1 + digits_len(s.drop_first())
    } else {
        0
    }
}

/// An exponent `e`/`E`, an optional sign and at least one digit, or nothing.
pub open spec fn exponent_syntax(r: Seq<char>) -> bool {
    r.len() == 0 || ((r[0] == 'e' || r[0] == 'E') && {
        let d = if r.len() > 1 && (r[1] == '+' || r[1] == '-') {
            r.skip(2)
        } else {
            r.skip(1)
        };
        d.len() > 0 && digits_len(d) == d.len()
    })
}

/// Digits with an optional decimal point, at least one digit in all, then
/// an optional exponent.
pub open spec fn number_syntax(t: Seq<char>) -> bool {
    let a = digits_len(t);
    let r1 = t.skip(a as int);
    if r1.len() > 0 && r1[0] == '.' {
        let r2 = r1.skip(1);
        let b = digits_len(r2);
        a + b > 0 && exponent_syntax(r2.skip(b as int))
    } else {
        a > 0 && exponent_syntax(r1)
    }
}

/// The texts that `str::parse` reads as a floating-point number, as its
/// documentation gives them: an optional sign, then `inf`, `infinity`,
/// `nan` (in any case) or a decimal number.
pub open spec fn float_syntax(s: Seq<char>) -> bool {
    let t = if s.len() > 0 && (s[0] == '+' || s[0] == '-') {
        s.skip(1)
    } else {
        s
    };
    eq_ignore_case(t, "inf"@) || eq_ignore_case(t, "infinity"@) || eq_ignore_case(t, "nan"@)
        || number_syntax(t)
}

proof fn lemma_all_digits_len(s: Seq<char>)
    requires
        forall|i: int| 0 <= i < s.len() ==> is_digit(#[trigger] s[i]),
    ensures
        digits_len(s) == s.len(),
    decreases s.len(),
{
    if s.len() > 0 {
        assert forall|i: int| 0 <= i < s.drop_first().len() implies is_digit(#[trigger] s.drop_first()[i]) by {
            assert(s.drop_first()[i] == s[i + 1]);
        }
        lemma_all_digits_len(s.drop_first());
    }
}

/// A tempo of digits alone reads as a number; one that starts (after an
/// optional sign) with a letter other than the `i` of `inf` or the `n` of
/// `nan`, such as `fast`, does not.
pub proof fn lemma_float_syntax_examples(s: Seq<char>)
    ensures
        s.len() > 0 && (forall|i: int| 0 <= i < s.len() ==> is_digit(#[trigger] s[i])) ==> float_syntax(s),
        ({
            let t = if s.len() > 0 && (s[0] == '+' || s[0] == '-') { s.skip(1) } else { s };
            t.len() > 0 && ascii_letter(t[0]) && t[0] != 'i' && t[0] != 'I' && t[0] != 'n' && t[0] != 'N'
        }) ==> !float_syntax(s),
{
    reveal_strlit("inf");
    reveal_strlit("infinity");
    reveal_strlit("nan");
    if s.len() > 0 && (forall|i: int| 0 <= i < s.len() ==> is_digit(#[trigger] s[i])) {
        assert(is_digit(s[0]));
        lemma_all_digits_len(s);
        assert(s.skip(s.len() as int) =~= Seq::<char>::empty());
    }
    let t = if s.len() > 0 && (s[0] == '+' || s[0] == '-') { s.skip(1) } else { s };
    if t.len() > 0 && ascii_letter(t[0]) && t[0] != 'i' && t[0] != 'I' && t[0] != 'n' && t[0] != 'N' {
        assert(!is_digit(t[0]));
        assert(digits_len(t) == 0);
        assert(t.skip(0) =~= t);
        assert(!same_ignore_case(t[0], 'i'));
        assert(!same_ignore_case(t[0], 'n'));
        assert("inf"@[0] == 'i');
        assert("infinity"@[0] == 'i');
        assert("nan"@[0] == 'n');
    }
}

pub proof fn lemma_digits_len(s: Seq<char>)
    ensures
        digits_len(s) <= s.len(),
        forall|j: int| 0 <= j < digits_len(s) ==> is_digit(#[trigger] s[j]),
        digits_len(s) < s.len() ==> !is_digit(s[digits_len(s) as int]),
    decreases s.len(),
{
    if s.len() > 0 && is_digit(s[0]) {
        lemma_digits_len(s.drop_first());
        assert forall|j: int| 0 <= j < digits_len(s) implies is_digit(#[trigger] s[j]) by {
            if j > 0 {
                assert(s[j] == s.drop_first()[j - 1]);
            }
        }
    }
}

fn count_digits(s: &str, from: usize) -> (r: usize)
    requires
        from <= s@.len(),
    ensures
        r == digits_len(s@.skip(from as int)),
        from + r <= s@.len(),
{
    let n = s.unicode_len();
    let mut i = from;
    proof {
        lemma_digits_len(s@.skip(from as int));
    }
    while i < n && is_ascii_digit(s.get_char(i))
        invariant
            n == s@.len(),
            from <= i <= n,
            i - from <= digits_len(s@.skip(from as int)),
            forall|j: int| 0 <= j < digits_len(s@.skip(from as int)) ==> is_digit(
                #[trigger] s@.skip(from as int)[j],
            ),
            digits_len(s@.skip(from as int)) <= s@.skip(from as int).len(),
            digits_len(s@.skip(from as int)) < s@.skip(from as int).len() ==> !is_digit(
                s@.skip(from as int)[digits_len(s@.skip(from as int)) as int],
            ),
        decreases n - i,
    {
        assert(s@.skip(from as int)[i - from] == s@[i as int]);
        i = i + 1;
    }
    if i < n {
        assert(s@.skip(from as int)[i - from] == s@[i as int]);
    }
    i - from
}

fn same_ignore_case_exec(c: char, w: char) -> (r: bool)
    ensures
        r == same_ignore_case(c, w),
{
    c == w || ('a' <= w && w <= 'z' && (c as u32) + 32 == (w as u32))
}

fn matches_ignore_case(s: &str, from: usize, word: &str) -> (r: bool)
    requires
        from <= s@.len(),
    ensures
        r == eq_ignore_case(s@.skip(from as int), word@),
{
    let n = s.unicode_len();
    let m = word.unicode_len();
    if n - from != m {
        return false;
    }
    let mut i: usize = 0;
    while i < m
        invariant
            n == s@.len(),
            m == word@.len(),
            n - from == m,
            from <= n,
            i <= m,
            forall|j: int| 0 <= j < i ==> same_ignore_case(#[trigger] s@.skip(from as int)[j], word@[j]),
        decreases m - i,
    {
        assert(s@.skip(from as int)[i as int] == s@[from + i]);
        if !same_ignore_case_exec(s.get_char(from + i), word.get_char(i)) {
            return false;
        }
        i = i + 1;
    }
    true
}

fn exponent_ok(s: &str, q: usize) -> (r: bool)
    requires
        q <= s@.len(),
    ensures
        r == exponent_syntax(s@.skip(q as int)),
{
    let n = s.unicode_len();
    if q == n {
        assert(s@.skip(q as int).len() == 0);
        return true;
    }
    assert(s@.skip(q as int)[0] == s@[q as int]);
    let e = s.get_char(q);
    if e != 'e' && e != 'E' {
        return false;
    }
    let d: usize = if q + 1 < n && (s.get_char(q + 1) == '+' || s.get_char(q + 1) == '-') {
        assert(s@.skip(q as int)[1] == s@[q + 1]);
        assert(s@.skip(q as int).skip(2) =~= s@.skip(q + 2));
        q + 2
    } else {
        if q + 1 < n {
            assert(s@.skip(q as int)[1] == s@[q + 1]);
        }
        assert(s@.skip(q as int).skip(1) =~= s@.skip(q + 1));
        q + 1
    };
    let k = count_digits(s, d);
    d < n && k == n - d
}

fn number_ok(s: &str, start: usize) -> (r: bool)
    requires
        start <= s@.len(),
    ensures
        r == number_syntax(s@.skip(start as int)),
{
    let ghost t = s@.skip(start as int);
    let n = s.unicode_len();
    let a = count_digits(s, start);
    let p = start + a;
    assert(t.skip(a as int) =~= s@.skip(p as int));
    if p < n && s.get_char(p) == '.' {
        assert(t.skip(a as int)[0] == s@[p as int]);
        let b = count_digits(s, p + 1);
        assert(t.skip(a as int).skip(1) =~= s@.skip(p + 1));
        assert(s@.skip(p + 1).skip(b as int) =~= s@.skip(p + 1 + b));
        if a + b == 0 {
            return false;
        }
        exponent_ok(s, p + 1 + b)
    } else {
        if p < n {
            assert(t.skip(a as int)[0] == s@[p as int]);
        }
        if a == 0 {
            return false;
        }
        exponent_ok(s, p)
    }
}

/// Whether `str::parse` reads the text as a floating-point number.
pub fn is_float_text(s: &str) -> (r: bool)
    ensures
        r == float_syntax(s@),
{
    let n = s.unicode_len();
    let start: usize = if n > 0 && (s.get_char(0) == '+' || s.get_char(0) == '-') {
        1
    } else {
        0
    };
    let ghost t = if s@.len() > 0 && (s@[0] == '+' || s@[0] == '-') {
        s@.skip(1)
    } else {
        s@
    };
    assert(t =~= s@.skip(start as int));
    if matches_ignore_case(s, start, "inf") || matches_ignore_case(s, start, "infinity")
        || matches_ignore_case(s, start, "nan") {
        return true;
    }
    number_ok(s, start)
}

/// `String::push`: appends one character.
#[verifier::external_body]
pub(crate) fn string_push(s: &mut String, c: char)
    ensures
        final(s)@ == old(s)@.push(c),
{
    s.push(c)
}

/// An ASCII letter.
pub open spec fn ascii_letter(c: char) -> bool {
    ('a' <= c && c <= 'z') || ('A' <= c && c <= 'Z')
}

/// An ASCII character: below U+0080.
pub open spec fn is_ascii_char(c: char) -> bool {
    (c as u32) < 128
}

/// Name for the result of `char::is_alphanumeric` (Unicode `Alphabetic` or `Numeric`).
pub uninterp spec fn alphanumeric(c: char) -> bool;

/// `char::is_alphanumeric`: its result is named by `alphanumeric`. Among
/// ASCII characters, the letters and digits are alphanumeric and no others.
#[verifier::external_body]
pub(crate) fn is_alphanumeric(c: char) -> (r: bool)
    ensures
        r == alphanumeric(c),
        is_ascii_char(c) ==> (r == (ascii_letter(c) || is_digit(c))),
{
    c.is_alphanumeric()
}

} // verus!
