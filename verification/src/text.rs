//! Character-level text helpers shared by the parsers.
use vstd::prelude::*;
use vstd::utf8::{decode_utf8, valid_utf8};

verus! {

/// The characters of `s`, in order.
pub fn chars_of(s: &str) -> (v: Vec<char>)
    ensures
        v@ == s@,
{
    let mut v: Vec<char> = Vec::new();
    for c in it: s.chars()
        invariant
            v@ == it.seq().take(it.index() as int),
            it.seq() == s@,
    {
        v.push(c);
    }
    v
}

/// The text that `String::from_utf8_lossy` makes of `bytes`.
pub uninterp spec fn utf8_lossy(bytes: Seq<u8>) -> Seq<char>;

/// `String::from_utf8_lossy`: decodes `bytes` as UTF-8, each invalid sequence becoming
/// U+FFFD. Claimed: the result is a fixed function of the bytes (named `utf8_lossy`), and
/// valid UTF-8 decodes as `from_utf8` decodes it; how invalid sequences are replaced is not
/// stated.
#[verifier::external_body]
pub(crate) fn lossy_string(bytes: &[u8]) -> (s: String)
    ensures
        s@ == utf8_lossy(bytes@),
        valid_utf8(bytes@) ==> s@ == decode_utf8(bytes@),
{
    String::from_utf8_lossy(bytes).into_owned()
}

/// The text that `std::str::from_utf8` decodes from `bytes`, or `None` where they are not
/// valid UTF-8.
pub open spec fn utf8_decode(bytes: Seq<u8>) -> Option<Seq<char>> {
    if valid_utf8(bytes) {
        Some(decode_utf8(bytes))
    } else {
        None
    }
}

/// `std::str::from_utf8`: the text of `bytes` when they are valid UTF-8, `None` when they
/// are not (validity and decoding as vstd's `valid_utf8` and `decode_utf8` define them).
#[verifier::external_body]
pub(crate) fn decode_utf8_text(bytes: &[u8]) -> (r: Option<String>)
    ensures
        match r {
            Some(s) => utf8_decode(bytes@) == Some(s@),
            None => utf8_decode(bytes@) is None,
        },
{
    std::str::from_utf8(bytes).ok().map(String::from)
}

/// The text that `str::to_lowercase` makes of `s` (full Unicode lower-casing).
pub uninterp spec fn unicode_lower(s: Seq<char>) -> Seq<char>;

/// `str::to_lowercase`. Claimed: the result is a fixed function of the text (named
/// `unicode_lower`); the Unicode case tables are not stated.
#[verifier::external_body]
pub(crate) fn lowercase(s: &str) -> (r: String)
    ensures
        r@ == unicode_lower(s@),
{
    s.to_lowercase()
}

/// `c` with ASCII upper-case letters mapped to lower case.
pub open spec fn lower_ascii_char(c: char) -> char {
    if 'A' <= c && c <= 'Z' {
        ((c as u32) + 32) as char
    } else {
        c
    }
}

pub fn lower_ascii(c: char) -> (r: char)
    ensures
        r == lower_ascii_char(c),
{
    if 'A' <= c && c <= 'Z' {
        ((c as u8) + 32) as char
    } else {
        c
    }
}

/// `String::push`: appends one character.
#[verifier::external_body]
pub(crate) fn push_char(s: &mut String, c: char)
    ensures
        final(s)@ == old(s)@.push(c),
{
    s.push(c);
}

/// The text of `v[from..to]` as a `String`.
pub fn string_of(v: &[char], from: usize, to: usize) -> (s: String)
    requires
        from <= to <= v@.len(),
    ensures
        s@ == v@.subrange(from as int, to as int),
{
    let mut s = String::new();
    let mut i = from;
    while i < to
        invariant
            from <= i <= to <= v@.len(),
            s@ == v@.subrange(from as int, i as int),
        decreases to - i,
    {
        push_char(&mut s, v[i]);
        assert(s@ =~= v@.subrange(from as int, i + 1));
        i = i + 1;
    }
    s
}

/// The text of all of `v` as a `String`.
pub fn string_all(v: &[char]) -> (s: String)
    ensures
        s@ == v@,
{
    let s = string_of(v, 0, v.len());
    assert(v@.subrange(0, v@.len() as int) =~= v@);
    s
}

/// Whether `n` occurs in `h` starting at position `i`.
pub open spec fn occurs_at(h: Seq<char>, n: Seq<char>, i: int) -> bool {
    0 <= i && i + n.len() <= h.len() && h.subrange(i, i + n.len()) == n
}

/// Whether `n` occurs anywhere in `h` (`str::contains`).
pub open spec fn contains(h: Seq<char>, n: Seq<char>) -> bool {
    exists|i: int| occurs_at(h, n, i)
}

/// `str::starts_with`.
pub open spec fn starts_with(h: Seq<char>, n: Seq<char>) -> bool {
    occurs_at(h, n, 0)
}

/// `str::ends_with`.
pub open spec fn ends_with(h: Seq<char>, n: Seq<char>) -> bool {
    occurs_at(h, n, h.len() - n.len())
}

/// Whether `n` occurs in `h` at position `i`.
pub fn occurs_at_exec(h: &[char], n: &[char], i: usize) -> (r: bool)
    ensures
        r == occurs_at(h@, n@, i as int),
{
    if i > h.len() || n.len() > h.len() - i {
        return false;
    }
    let hl = h.len();
    let mut k: usize = 0;
    while k < n.len()
        invariant
            hl == h@.len(),
            i + n@.len() <= h@.len(),
            k <= n@.len(),
            forall|j: int| 0 <= j < k ==> h@[i + j] == n@[j],
        decreases n@.len() - k,
    {
        if h[i + k] != n[k] {
            assert(h@.subrange(i as int, i + n@.len())[k as int] != n@[k as int]);
            return false;
        }
        k = k + 1;
    }
    assert(h@.subrange(i as int, i + n@.len()) =~= n@);
    true
}

/// The first position at or after `from` where `n` occurs in `h`.
pub open spec fn find_from(h: Seq<char>, n: Seq<char>, from: int) -> Option<int>
    decreases h.len() + 1 - from,
{
    if from < 0 || from + n.len() > h.len() {
        None
    } else if occurs_at(h, n, from) {
        Some(from)
    } else {
        find_from(h, n, from + 1)
    }
}

/// `find_from` is the first occurrence at or after `from`.
pub proof fn lemma_find_from(h: Seq<char>, n: Seq<char>, from: int)
    requires
        0 <= from,
    ensures
        find_from(h, n, from) matches Some(i) ==> from <= i && occurs_at(h, n, i) && forall|j: int|
            from <= j < i ==> !occurs_at(h, n, j),
        find_from(h, n, from) is None ==> forall|j: int| from <= j ==> !occurs_at(h, n, j),
    decreases h.len() + 1 - from,
{
    if from + n.len() <= h.len() && !occurs_at(h, n, from) {
        lemma_find_from(h, n, from + 1);
    }
}

/// Finds the first occurrence of `n` in `h` at or after `from`.
pub fn find_exec(h: &[char], n: &[char], from: usize) -> (r: Option<usize>)
    ensures
        match r {
            Some(i) => find_from(h@, n@, from as int) == Some(i as int),
            None => find_from(h@, n@, from as int) is None,
        },
{
    if n.len() > h.len() {
        return None;
    }
    let last = h.len() - n.len();
    let mut i = from;
    while i <= last
        invariant
            from <= i,
            last == h@.len() - n@.len(),
            find_from(h@, n@, from as int) == find_from(h@, n@, i as int),
        decreases last + 1 - i,
    {
        if occurs_at_exec(h, n, i) {
            return Some(i);
        }
        if i == last {
            assert(find_from(h@, n@, i + 1) is None);
            return None;
        }
        i = i + 1;
    }
    None
}

/// Whether `n` occurs in `h`.
pub fn contains_exec(h: &[char], n: &[char]) -> (r: bool)
    ensures
        r == contains(h@, n@),
{
    proof {
        lemma_find_from(h@, n@, 0);
    }
    match find_exec(h, n, 0) {
        Some(i) => true,
        None => {
            assert forall|j: int| !occurs_at(h@, n@, j) by {
                if j < 0 {
                }
            }
            false
        },
    }
}

/// Whether `h` ends with `n`.
pub fn ends_with_exec(h: &[char], n: &[char]) -> (r: bool)
    ensures
        r == ends_with(h@, n@),
{
    if n.len() > h.len() {
        return false;
    }
    occurs_at_exec(h, n, h.len() - n.len())
}

/// Whether `h` starts with `n`.
pub fn starts_with_exec(h: &[char], n: &[char]) -> (r: bool)
    ensures
        r == starts_with(h@, n@),
{
    occurs_at_exec(h, n, 0)
}

/// `str::to_ascii_lowercase`.
pub open spec fn lower_ascii_seq(s: Seq<char>) -> Seq<char> {
    s.map_values(|c: char| lower_ascii_char(c))
}

/// The characters of `v` with ASCII letters in lower case.
pub fn lower_ascii_vec(v: &[char]) -> (r: Vec<char>)
    ensures
        r@ == lower_ascii_seq(v@),
{
    let mut r: Vec<char> = Vec::new();
    let mut i: usize = 0;
    while i < v.len()
        invariant
            i <= v@.len(),
            r@ == lower_ascii_seq(v@.take(i as int)),
        decreases v@.len() - i,
    {
        r.push(lower_ascii(v[i]));
        assert(lower_ascii_seq(v@.take(i + 1)) =~= lower_ascii_seq(v@.take(i as int)).push(
            lower_ascii_char(v@[i as int]),
        ));
        i = i + 1;
    }
    assert(v@.take(v@.len() as int) =~= v@);
    r
}

/// Unicode `White_Space`, as `char::is_whitespace` tests it.
pub open spec fn is_white(c: char) -> bool {
    ('\u{9}' <= c && c <= '\u{d}') || c == ' ' || c == '\u{85}' || c == '\u{a0}' || c == '\u{1680}'
        || ('\u{2000}' <= c && c <= '\u{200a}') || c == '\u{2028}' || c == '\u{2029}' || c
        == '\u{202f}' || c == '\u{205f}' || c == '\u{3000}'
}

/// Whether `c` is white space (`char::is_whitespace`).
pub fn is_white_exec(c: char) -> (r: bool)
    ensures
        r == is_white(c),
{
    ('\u{9}' <= c && c <= '\u{d}') || c == ' ' || c == '\u{85}' || c == '\u{a0}' || c == '\u{1680}'
        || ('\u{2000}' <= c && c <= '\u{200a}') || c == '\u{2028}' || c == '\u{2029}' || c
        == '\u{202f}' || c == '\u{205f}' || c == '\u{3000}'
}

/// `s` without leading white space.
pub open spec fn trim_start(s: Seq<char>) -> Seq<char>
    decreases s.len(),
{
    if s.len() > 0 && is_white(s[0]) {
        trim_start(s.drop_first())
    } else {
        s
    }
}

/// `s` without trailing white space.
pub open spec fn trim_end(s: Seq<char>) -> Seq<char>
    decreases s.len(),
{
    if s.len() > 0 && is_white(s.last()) {
        trim_end(s.drop_last())
    } else {
        s
    }
}

/// `str::trim`.
pub open spec fn trim(s: Seq<char>) -> Seq<char> {
    trim_end(trim_start(s))
}

proof fn lemma_trim_start_at(s: Seq<char>, a: int)
    requires
        0 <= a <= s.len(),
        forall|j: int| 0 <= j < a ==> is_white(s[j]),
        a == s.len() || !is_white(s[a]),
    ensures
        trim_start(s) == s.subrange(a, s.len() as int),
    decreases a,
{
    if a > 0 {
        assert forall|j: int| 0 <= j < a - 1 implies is_white(s.drop_first()[j]) by {
            assert(s.drop_first()[j] == s[j + 1]);
        }
        lemma_trim_start_at(s.drop_first(), a - 1);
        assert(s.drop_first().subrange(a - 1, s.len() - 1) =~= s.subrange(a, s.len() as int));
    } else {
        assert(s.subrange(0, s.len() as int) =~= s);
    }
}

proof fn lemma_trim_end_at(s: Seq<char>, b: int)
    requires
        0 <= b <= s.len(),
        forall|j: int| b <= j < s.len() ==> is_white(s[j]),
        b == 0 || !is_white(s[b - 1]),
    ensures
        trim_end(s) == s.subrange(0, b),
    decreases s.len() - b,
{
    if b < s.len() {
        lemma_trim_end_at(s.drop_last(), b);
        assert(s.drop_last().subrange(0, b) =~= s.subrange(0, b));
    } else {
        assert(s.subrange(0, b) =~= s);
    }
}

/// The bounds `(a, b)` of `trim(v[from..to])` inside `v`.
pub fn trim_bounds(v: &[char], from: usize, to: usize) -> (r: (usize, usize))
    requires
        from <= to <= v@.len(),
    ensures
        from <= r.0 <= r.1 <= to,
        v@.subrange(r.0 as int, r.1 as int) == trim(v@.subrange(from as int, to as int)),
{
    let ghost s = v@.subrange(from as int, to as int);
    let mut a = from;
    while a < to && is_white_exec(v[a])
        invariant
            from <= a <= to <= v@.len(),
            s == v@.subrange(from as int, to as int),
            forall|j: int| 0 <= j < a - from ==> is_white(s[j]),
        decreases to - a,
    {
        a = a + 1;
    }
    proof {
        lemma_trim_start_at(s, a - from);
        assert(s.subrange(a - from, s.len() as int) =~= v@.subrange(a as int, to as int));
    }
    let ghost t = v@.subrange(a as int, to as int);
    let mut b = to;
    while b > a && is_white_exec(v[b - 1])
        invariant
            a <= b <= to <= v@.len(),
            t == v@.subrange(a as int, to as int),
            forall|j: int| b - a <= j < t.len() ==> is_white(t[j]),
        decreases b - a,
    {
        b = b - 1;
    }
    proof {
        lemma_trim_end_at(t, b - a);
        assert(t.subrange(0, b - a) =~= v@.subrange(a as int, b as int));
    }
    (a, b)
}

/// The first position at or after `from` holding `c`.
pub open spec fn find_char(s: Seq<char>, c: char, from: int) -> Option<int>
    decreases s.len() - from,
{
    if from < 0 || from >= s.len() {
        None
    } else if s[from] == c {
        Some(from)
    } else {
        find_char(s, c, from + 1)
    }
}

/// `find_char` finds the first occurrence.
pub proof fn lemma_find_char(s: Seq<char>, c: char, from: int)
    requires
        0 <= from,
    ensures
        find_char(s, c, from) matches Some(i) ==> from <= i < s.len() && s[i] == c && forall|j: int|
            from <= j < i ==> s[j] != c,
        find_char(s, c, from) is None ==> forall|j: int| from <= j < s.len() ==> s[j] != c,
    decreases s.len() - from,
{
    if from < s.len() && s[from] != c {
        lemma_find_char(s, c, from + 1);
    }
}

/// Finds `c` in `v` at or after `from`.
pub fn find_char_exec(v: &[char], c: char, from: usize) -> (r: Option<usize>)
    ensures
        match r {
            Some(i) => find_char(v@, c, from as int) == Some(i as int),
            None => find_char(v@, c, from as int) is None,
        },
{
    let mut i = from;
    while i < v.len()
        invariant
            from <= i,
            find_char(v@, c, from as int) == find_char(v@, c, i as int),
        decreases v@.len() - i,
    {
        if v[i] == c {
            return Some(i);
        }
        i = i + 1;
    }
    None
}

/// Where the line starting at `pos` ends (its `\n`, or the end of the text).
pub open spec fn line_stop(s: Seq<char>, pos: int) -> int {
    match find_char(s, '\n', pos) {
        Some(i) => i,
        None => s.len() as int,
    }
}

/// The line starting at `pos`, without its `\n` and, when it had one, a `\r` before it
/// (`str::lines`).
pub open spec fn line_at(s: Seq<char>, pos: int) -> Seq<char> {
    let raw = s.subrange(pos, line_stop(s, pos));
    if find_char(s, '\n', pos) is Some && raw.len() > 0 && raw.last() == '\r' {
        raw.drop_last()
    } else {
        raw
    }
}

/// Where the line after the one at `pos` starts.
pub open spec fn next_line_pos(s: Seq<char>, pos: int) -> int {
    match find_char(s, '\n', pos) {
        Some(i) => i + 1,
        None => s.len() as int,
    }
}

/// The next line start lies past `pos`.
pub proof fn lemma_next_line_pos(s: Seq<char>, pos: int)
    requires
        0 <= pos < s.len(),
    ensures
        pos < next_line_pos(s, pos) <= s.len(),
        pos <= line_stop(s, pos) <= s.len(),
{
    lemma_find_char(s, '\n', pos);
}

/// The lines of `s` from position `pos` on, as `str::lines` yields them.
pub open spec fn lines_from(s: Seq<char>, pos: int) -> Seq<Seq<char>>
    decreases s.len() - pos,
{
    if pos < 0 || pos >= s.len() {
        Seq::empty()
    } else {
        proof {
            lemma_next_line_pos(s, pos);
        }
        seq![line_at(s, pos)] + lines_from(s, next_line_pos(s, pos))
    }
}

/// The bounds of the line starting at `pos`, and where the next one starts.
pub fn next_line(v: &[char], pos: usize) -> (r: (usize, usize, usize))
    requires
        pos < v@.len(),
    ensures
        pos <= r.0 <= r.1 <= v@.len(),
        r.0 == pos,
        v@.subrange(r.0 as int, r.1 as int) == line_at(v@, pos as int),
        r.2 == next_line_pos(v@, pos as int),
        pos < r.2 <= v@.len(),
{
    proof {
        lemma_next_line_pos(v@, pos as int);
    }
    let len = v.len();
    match find_char_exec(v, '\n', pos) {
        Some(i) => {
            assert(i < len);
            let end = if i > pos && v[i - 1] == '\r' {
                i - 1
            } else {
                i
            };
            if i > pos {
                assert(v@.subrange(pos as int, i as int).drop_last() =~= v@.subrange(pos as int, i - 1));
            }
            (pos, end, i + 1)
        },
        None => (pos, v.len(), v.len()),
    }
}

/// Appends `v[from..to]` to `s`.
pub fn push_slice(s: &mut String, v: &[char], from: usize, to: usize)
    requires
        from <= to <= v@.len(),
    ensures
        final(s)@ == old(s)@ + v@.subrange(from as int, to as int),
{
    let mut i = from;
    while i < to
        invariant
            from <= i <= to <= v@.len(),
            s@ == old(s)@ + v@.subrange(from as int, i as int),
        decreases to - i,
    {
        push_char(s, v[i]);
        assert(s@ =~= old(s)@ + v@.subrange(from as int, i + 1));
        i = i + 1;
    }
}

/// Appends all of `t` to `s`.
pub fn push_str(s: &mut String, t: &str)
    ensures
        final(s)@ == old(s)@ + t@,
{
    let v = chars_of(t);
    push_slice(s, &v, 0, v.len());
    assert(v@.subrange(0, v@.len() as int) =~= v@);
}

/// Whether `a` and `b` hold the same characters.
pub fn same_chars(a: &[char], b: &[char]) -> (r: bool)
    ensures
        r == (a@ == b@),
{
    if a.len() != b.len() {
        return false;
    }
    let r = occurs_at_exec(a, b, 0);
    assert(r ==> a@.subrange(0, b@.len() as int) =~= a@);
    proof {
        if a@ == b@ {
            assert(a@.subrange(0, b@.len() as int) =~= a@);
        }
    }
    r
}

/// The view of a result holding strings.
pub open spec fn text_result(r: Result<String, String>) -> Result<Seq<char>, Seq<char>> {
    match r {
        Ok(t) => Ok(t@),
        Err(e) => Err(e@),
    }
}

/// The views of a list of strings.
pub open spec fn strings_view(v: Seq<String>) -> Seq<Seq<char>> {
    v.map_values(|s: String| s@)
}

} // verus!
