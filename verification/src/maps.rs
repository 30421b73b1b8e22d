//! Reading `/proc/<pid>/maps`: which file each mapping comes from and where it starts.
use vstd::prelude::*;
use crate::num::{parse_unsigned, parse_unsigned_exec};
use crate::path::{file_name, file_name_bounds, file_name_or_empty};
use crate::text::{
    chars_of, contains, contains_exec, find_char, find_char_exec, lemma_find_char, line_at,
    lines_from, next_line, starts_with, starts_with_exec, string_of, trim, trim_bounds,
};

verus! {

/// The position just past the `k`-th space at or after `from`.
pub open spec fn after_spaces(s: Seq<char>, from: int, k: nat) -> Option<int>
    decreases k,
{
    if k == 0 {
        Some(from)
    } else {
        match find_char(s, ' ', from) {
            None => None,
            Some(i) => after_spaces(s, i + 1, (k - 1) as nat),
        }
    }
}

/// The address-range field of a maps line: the text before its first space.
pub open spec fn range_field(line: Seq<char>) -> Seq<char> {
    match find_char(line, ' ', 0) {
        Some(i) => line.take(i),
        None => line,
    }
}

/// The path field of a maps line: everything after its fifth space, trimmed;
/// `None` when there is no such field or it is blank.
pub open spec fn path_field(line: Seq<char>) -> Option<Seq<char>> {
    match after_spaces(line, 0, 5) {
        None => None,
        Some(p) => {
            let t = trim(line.subrange(p, line.len() as int));
            if t.len() == 0 {
                None
            } else {
                Some(t)
            }
        },
    }
}

/// The start address of an address range `start-end`, read as hexadecimal.
pub open spec fn map_start(range: Seq<char>) -> Option<u64> {
    let head = match find_char(range, '-', 0) {
        Some(i) => range.take(i),
        None => range,
    };
    match parse_unsigned(head, 16, u64::MAX as nat) {
        Some(v) => Some(v as u64),
        None => None,
    }
}

proof fn lemma_after_spaces(s: Seq<char>, from: int, k: nat)
    requires
        0 <= from <= s.len(),
    ensures
        after_spaces(s, from, k) matches Some(p) ==> from <= p <= s.len(),
    decreases k,
{
    if k > 0 {
        lemma_find_char(s, ' ', from);
        if let Some(i) = find_char(s, ' ', from) {
            lemma_after_spaces(s, i + 1, (k - 1) as nat);
        }
    }
}

/// Splits a maps line into its range field (ending at the returned index) and the bounds
/// of its path field.
pub fn split_line(line: &[char]) -> (r: (usize, Option<(usize, usize)>))
    ensures
        r.0 <= line@.len(),
        line@.take(r.0 as int) == range_field(line@),
        match r.1 {
            Some((a, b)) => a <= b <= line@.len() && path_field(line@) == Some(
                line@.subrange(a as int, b as int),
            ),
            None => path_field(line@) is None,
        },
{
    let range_end = match find_char_exec(line, ' ', 0) {
        Some(i) => i,
        None => {
            assert(line@.take(line@.len() as int) =~= line@);
            line.len()
        },
    };
    proof {
        lemma_find_char(line@, ' ', 0);
    }
    let len = line.len();
    let mut from: usize = 0;
    let mut k: usize = 0;
    while k < 5
        invariant
            k <= 5,
            len == line@.len(),
            range_end <= line@.len(),
            line@.take(range_end as int) == range_field(line@),
            from <= line@.len(),
            after_spaces(line@, 0, 5) == after_spaces(line@, from as int, (5 - k) as nat),
        decreases 5 - k,
    {
        match find_char_exec(line, ' ', from) {
            None => {
                return (range_end, None);
            },
            Some(i) => {
                proof {
                    lemma_find_char(line@, ' ', from as int);
                }
                from = i + 1;
            },
        }
        k = k + 1;
    }
    let (a, b) = trim_bounds(line, from, line.len());
    if a == b {
        (range_end, None)
    } else {
        (range_end, Some((a, b)))
    }
}

/// Parses the start address of an address range.
fn parse_start(range: &[char]) -> (r: Option<u64>)
    ensures
        r == map_start(range@),
{
    let end = match find_char_exec(range, '-', 0) {
        Some(i) => {
            proof {
                lemma_find_char(range@, '-', 0);
            }
            i
        },
        None => {
            assert(range@.take(range@.len() as int) =~= range@);
            range.len()
        },
    };
    let head = &range[0..end];
    assert(head@ =~= range@.take(end as int));
    parse_unsigned_exec(head, 16, u64::MAX)
}

/// Whether a file name is that of the C library (`libc.so…` or `libc-…`).
pub open spec fn is_libc_name(name: Seq<char>) -> bool {
    starts_with(name, "libc.so"@) || starts_with(name, "libc-"@)
}

/// Whether `name` is the file name of the C library.
pub fn is_libc(name: &str) -> (r: bool)
    ensures
        r == is_libc_name(name@),
{
    let v = chars_of(name);
    starts_with_exec(&v, &chars_of("libc.so")) || starts_with_exec(&v, &chars_of("libc-"))
}

/// The lines of a maps text.
pub open spec fn maps_lines(content: Seq<char>) -> Seq<Seq<char>> {
    lines_from(content, 0)
}

/// The lowest start address among the mappings of the C library, scanning `lines` with
/// the lowest so far in `best`; `None` as soon as such a mapping's start cannot be read.
pub open spec fn libc_base_in(lines: Seq<Seq<char>>, best: Option<u64>) -> Option<u64>
    decreases lines.len(),
{
    if lines.len() == 0 {
        best
    } else {
        let line = lines[0];
        let is_lib = match path_field(line) {
            Some(p) => is_libc_name(file_name_or_empty(p)),
            None => false,
        };
        if is_lib {
            match map_start(range_field(line)) {
                None => None,
                Some(st) => libc_base_in(
                    lines.drop_first(),
                    Some(
                        match best {
                            Some(b) => if b < st {
                                b
                            } else {
                                st
                            },
                            None => st,
                        },
                    ),
                ),
            }
        } else {
            libc_base_in(lines.drop_first(), best)
        }
    }
}

/// The file name of the path field `line[a..b]` (empty when it has none).
pub fn name_of(line: &[char], a: usize, b: usize) -> (r: (usize, usize))
    requires
        a <= b <= line@.len(),
    ensures
        a <= r.0 <= r.1 <= b,
        line@.subrange(r.0 as int, r.1 as int) == file_name_or_empty(line@.subrange(a as int, b as int)),
{
    let p = &line[a..b];
    match file_name_bounds(p) {
        Some((x, y)) => {
            assert(p@.subrange(x as int, y as int) =~= line@.subrange(a + x, a + y));
            (a + x, a + y)
        },
        None => {
            assert(line@.subrange(a as int, a as int) =~= Seq::<char>::empty());
            (a, a)
        },
    }
}

/// The lowest start address of a mapping of the C library in the maps text `content`
/// (where `load_base` is given the C-library predicate).
pub fn load_base(content: &str) -> (r: Option<u64>)
    ensures
        r == libc_base_in(maps_lines(content@), None),
{
    let v = chars_of(content);
    let libc_so = chars_of("libc.so");
    let libc_dash = chars_of("libc-");
    let mut best: Option<u64> = None;
    let mut pos: usize = 0;
    while pos < v.len()
        invariant
            pos <= v@.len(),
            v@ == content@,
            libc_so@ == "libc.so"@,
            libc_dash@ == "libc-"@,
            libc_base_in(maps_lines(content@), None) == libc_base_in(lines_from(v@, pos as int), best),
        decreases v@.len() - pos,
    {
        let (a, b, next) = next_line(&v, pos);
        let line = &v[a..b];
        assert(line@ == line_at(v@, pos as int));
        let ghost rest = lines_from(v@, next as int);
        assert(lines_from(v@, pos as int) == seq![line@] + rest);
        assert((seq![line@] + rest).drop_first() =~= rest);
        let (range_end, path) = split_line(line);
        if let Some((pa, pb)) = path {
            let (na, nb) = name_of(line, pa, pb);
            let name = &line[na..nb];
            if starts_with_exec(name, &libc_so) || starts_with_exec(name, &libc_dash) {
                match parse_start(&line[0..range_end]) {
                    None => {
                        return None;
                    },
                    Some(st) => {
                        best = Some(
                            match best {
                                Some(b) => if b < st {
                                    b
                                } else {
                                    st
                                },
                                None => st,
                            },
                        );
                    },
                }
            }
        }
        pos = next;
    }
    best
}

/// Whether a file name carries one of the Mono runtime markers.
pub open spec fn has_mono_marker(name: Seq<char>) -> bool {
    contains(name, "libmonobdwgc-2.0"@) || contains(name, "libmonosgen-2.0"@) || contains(
        name,
        "libmono-2.0"@,
    ) || contains(name, "libmonoboehm"@) || contains(name, "libmono"@)
}

/// The path of the Mono runtime among `lines`: the first mapping whose file name carries a
/// Mono marker and not `native`; otherwise the first one that does carry `native`
/// (kept in `fallback`).
pub open spec fn mono_so_in(lines: Seq<Seq<char>>, fallback: Option<Seq<char>>) -> Option<Seq<char>>
    decreases lines.len(),
{
    if lines.len() == 0 {
        fallback
    } else {
        match path_field(lines[0]) {
            Some(p) => {
                let name = file_name_or_empty(p);
                if has_mono_marker(name) {
                    if contains(name, "native"@) {
                        mono_so_in(
                            lines.drop_first(),
                            if fallback is None {
                                Some(p)
                            } else {
                                fallback
                            },
                        )
                    } else {
                        Some(p)
                    }
                } else {
                    mono_so_in(lines.drop_first(), fallback)
                }
            },
            None => mono_so_in(lines.drop_first(), fallback),
        }
    }
}

/// The literal Mono markers, in order.
struct Markers {
    bdwgc: Vec<char>,
    sgen: Vec<char>,
    mono2: Vec<char>,
    boehm: Vec<char>,
    plain: Vec<char>,
}

impl Markers {
    fn new() -> (m: Markers)
        ensures
            m.ok(),
    {
        Markers {
            bdwgc: chars_of("libmonobdwgc-2.0"),
            sgen: chars_of("libmonosgen-2.0"),
            mono2: chars_of("libmono-2.0"),
            boehm: chars_of("libmonoboehm"),
            plain: chars_of("libmono"),
        }
    }

    spec fn ok(&self) -> bool {
        &&& self.bdwgc@ == "libmonobdwgc-2.0"@
        &&& self.sgen@ == "libmonosgen-2.0"@
        &&& self.mono2@ == "libmono-2.0"@
        &&& self.boehm@ == "libmonoboehm"@
        &&& self.plain@ == "libmono"@
    }

    fn any_in(&self, name: &[char]) -> (r: bool)
        requires
            self.ok(),
        ensures
            r == has_mono_marker(name@),
    {
        contains_exec(name, &self.bdwgc) || contains_exec(name, &self.sgen) || contains_exec(
            name,
            &self.mono2,
        ) || contains_exec(name, &self.boehm) || contains_exec(name, &self.plain)
    }
}

/// The path of the Mono runtime mapped in the maps text `content`, preferring a
/// non-`native` library.
pub fn find_mono_so(content: &str) -> (r: Option<String>)
    ensures
        match r {
            Some(p) => mono_so_in(maps_lines(content@), None) == Some(p@),
            None => mono_so_in(maps_lines(content@), None) is None,
        },
{
    let v = chars_of(content);
    let markers = Markers::new();
    let native = chars_of("native");
    let mut fallback: Option<String> = None;
    let mut pos: usize = 0;
    while pos < v.len()
        invariant
            pos <= v@.len(),
            v@ == content@,
            markers.ok(),
            native@ == "native"@,
            mono_so_in(maps_lines(content@), None) == mono_so_in(
                lines_from(v@, pos as int),
                match fallback {
                    Some(f) => Some(f@),
                    None => None,
                },
            ),
        decreases v@.len() - pos,
    {
        let (a, b, next) = next_line(&v, pos);
        let line = &v[a..b];
        let ghost rest = lines_from(v@, next as int);
        assert(lines_from(v@, pos as int) == seq![line@] + rest);
        assert((seq![line@] + rest).drop_first() =~= rest);
        let (_, path) = split_line(line);
        if let Some((pa, pb)) = path {
            let (na, nb) = name_of(line, pa, pb);
            let name = &line[na..nb];
            if markers.any_in(name) {
                if contains_exec(name, &native) {
                    if fallback.is_none() {
                        fallback = Some(string_of(line, pa, pb));
                    }
                } else {
                    return Some(string_of(line, pa, pb));
                }
            }
        }
        pos = next;
    }
    fallback
}

/// The C library's path and lowest start address among `lines`, the best so far in `best`:
/// a mapping replaces the best unless the best starts no higher.
pub open spec fn libc_mapping_in(lines: Seq<Seq<char>>, best: Option<(Seq<char>, u64)>) -> Option<
    (Seq<char>, u64),
>
    decreases lines.len(),
{
    if lines.len() == 0 {
        best
    } else {
        let line = lines[0];
        let next = match path_field(line) {
            Some(p) => if is_libc_name(file_name_or_empty(p)) {
                match map_start(range_field(line)) {
                    Some(st) => match best {
                        Some((bp, b)) => if b <= st {
                            best
                        } else {
                            Some((p, st))
                        },
                        None => Some((p, st)),
                    },
                    None => best,
                }
            } else {
                best
            },
            None => best,
        };
        libc_mapping_in(lines.drop_first(), next)
    }
}

/// The path and lowest start address of the C library mapped in the maps text `content`.
pub fn libc_mapping(content: &str) -> (r: Option<(String, u64)>)
    ensures
        match r {
            Some((p, b)) => libc_mapping_in(maps_lines(content@), None) == Some((p@, b)),
            None => libc_mapping_in(maps_lines(content@), None) is None,
        },
{
    let v = chars_of(content);
    let libc_so = chars_of("libc.so");
    let libc_dash = chars_of("libc-");
    let mut best: Option<(String, u64)> = None;
    let mut pos: usize = 0;
    while pos < v.len()
        invariant
            pos <= v@.len(),
            v@ == content@,
            libc_so@ == "libc.so"@,
            libc_dash@ == "libc-"@,
            libc_mapping_in(maps_lines(content@), None) == libc_mapping_in(
                lines_from(v@, pos as int),
                match best {
                    Some((p, b)) => Some((p@, b)),
                    None => None,
                },
            ),
        decreases v@.len() - pos,
    {
        let (a, b, next) = next_line(&v, pos);
        let line = &v[a..b];
        let ghost rest = lines_from(v@, next as int);
        assert(lines_from(v@, pos as int) == seq![line@] + rest);
        assert((seq![line@] + rest).drop_first() =~= rest);
        let (range_end, path) = split_line(line);
        if let Some((pa, pb)) = path {
            let (na, nb) = name_of(line, pa, pb);
            let name = &line[na..nb];
            if starts_with_exec(name, &libc_so) || starts_with_exec(name, &libc_dash) {
                if let Some(st) = parse_start(&line[0..range_end]) {
                    let keep = match &best {
                        Some((_, b)) => *b <= st,
                        None => false,
                    };
                    if !keep {
                        best = Some((string_of(line, pa, pb), st));
                    }
                }
            }
        }
        pos = next;
    }
    best
}

} // verus!
