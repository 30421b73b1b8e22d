//! Recognising Unity games among running processes: which runtime a process maps, how the
//! list of found processes is ordered and de-duplicated, and what is read from a process's
//! command line and environment.
use vstd::prelude::*;
use crate::maps::{maps_lines, name_of, path_field, split_line};
use crate::order::{
    lemma_insert_keys, lemma_lex_asymmetric, lemma_lex_irreflexive, lemma_lex_le_transitive,
    lemma_lex_total, lemma_lex_transitive, lemma_push_keys, lex_less, lex_lt, same_per_key,
    with_key,
};
use crate::path::{
    file_name_bounds, file_name_or_empty, file_stem, join_path, joined_path, last_dot_exec,
    parent_of, path_parent,
};
use crate::procfs::{env_lookup, env_value, nul_parts, part_end, parts_from};
use crate::text::{
    chars_of, contains, contains_exec, ends_with, ends_with_exec, line_at, lines_from,
    lower_ascii_seq, lower_ascii_vec, next_line, same_chars, starts_with, starts_with_exec,
    string_of, lowercase, unicode_lower, decode_utf8_text, utf8_decode, find_from, find_exec,
    find_char, find_char_exec, lower_ascii, lower_ascii_char, push_char, push_slice, push_str,
};

verus! {

/// A running process that hosts a Unity runtime.
#[derive(Debug, Clone)]
pub struct MonoProcess {
    pub pid: i32,
    pub name: String,
    pub cmdline: String,
    pub flavor: String,
    pub mono_so_path: String,
    pub data_dir: Option<String>,
    pub game_dir: Option<String>,
    pub exe_path: Option<String>,
    pub thread_count: usize,
    pub suspect: bool,
    pub engine: String,
    pub injectable: bool,
    pub duplicate: bool,
    pub app_id: Option<String>,
    pub proton: bool,
}

/// The Mono flavour named by the first marker that a file name carries.
pub open spec fn mono_flavor(name: Seq<char>) -> Option<Seq<char>> {
    if contains(name, "libmonobdwgc-2.0"@) {
        Some("Mono BleedingEdge"@)
    } else if contains(name, "libmonosgen-2.0"@) {
        Some("Mono SGen"@)
    } else if contains(name, "libmono-2.0"@) {
        Some("Mono 2.0"@)
    } else if contains(name, "libmonoboehm"@) {
        Some("Mono Boehm"@)
    } else if contains(name, "libmono"@) {
        Some("Mono"@)
    } else {
        None
    }
}

fn mono_flavor_exec(name: &[char]) -> (r: Option<String>)
    ensures
        match r {
            Some(f) => mono_flavor(name@) == Some(f@),
            None => mono_flavor(name@) is None,
        },
{
    if contains_exec(name, &chars_of("libmonobdwgc-2.0")) {
        Some(String::from_str("Mono BleedingEdge"))
    } else if contains_exec(name, &chars_of("libmonosgen-2.0")) {
        Some(String::from_str("Mono SGen"))
    } else if contains_exec(name, &chars_of("libmono-2.0")) {
        Some(String::from_str("Mono 2.0"))
    } else if contains_exec(name, &chars_of("libmonoboehm")) {
        Some(String::from_str("Mono Boehm"))
    } else if contains_exec(name, &chars_of("libmono")) {
        Some(String::from_str("Mono"))
    } else {
        None
    }
}

/// The native Mono runtime's path and flavour among `lines`: the first mapping whose file
/// name carries a Mono marker and not `native`, else the first that also carries `native`.
pub open spec fn mono_mapping_in(lines: Seq<Seq<char>>, fallback: Option<(Seq<char>, Seq<char>)>) -> Option<
    (Seq<char>, Seq<char>),
>
    decreases lines.len(),
{
    if lines.len() == 0 {
        fallback
    } else {
        match path_field(lines[0]) {
            None => mono_mapping_in(lines.drop_first(), fallback),
            Some(p) => {
                let name = file_name_or_empty(p);
                match mono_flavor(name) {
                    None => mono_mapping_in(lines.drop_first(), fallback),
                    Some(fl) => if contains(name, "native"@) {
                        mono_mapping_in(
                            lines.drop_first(),
                            if fallback is None {
                                Some((p, fl))
                            } else {
                                fallback
                            },
                        )
                    } else {
                        Some((p, fl))
                    },
                }
            },
        }
    }
}

/// The view of an optional pair of strings.
pub open spec fn pair_view(p: Option<(String, String)>) -> Option<(Seq<char>, Seq<char>)> {
    match p {
        Some((a, b)) => Some((a@, b@)),
        None => None,
    }
}

/// Finds the native Mono runtime mapped in a maps text, with its flavour.
pub fn find_mono_mapping(maps: &str) -> (r: Option<(String, String)>)
    ensures
        pair_view(r) == mono_mapping_in(maps_lines(maps@), None),
{
    let v = chars_of(maps);
    let native = chars_of("native");
    let mut fallback: Option<(String, String)> = None;
    let mut pos: usize = 0;
    while pos < v.len()
        invariant
            pos <= v@.len(),
            v@ == maps@,
            native@ == "native"@,
            mono_mapping_in(maps_lines(maps@), None) == mono_mapping_in(
                lines_from(v@, pos as int),
                pair_view(fallback),
            ),
        decreases v@.len() - pos,
    {
        let (a, b, next) = next_line(&v, pos);
        let line = &v[a..b];
        let ghost rest = lines_from(v@, next as int);
        assert(lines_from(v@, pos as int) == seq![line@] + rest);
        assert((seq![line@] + rest).drop_first() =~= rest);
        let (_, path) = split_line(line);
        if let Some((pa, pb)) = path {
            let (na, nb) = name_of(line, pa, pb);
            let name = &line[na..nb];
            if let Some(fl) = mono_flavor_exec(name) {
                if contains_exec(name, &native) {
                    if fallback.is_none() {
                        fallback = Some((string_of(line, pa, pb), fl));
                    }
                } else {
                    return Some((string_of(line, pa, pb), fl));
                }
            }
        }
        pos = next;
    }
    fallback
}

/// Whether any mapping among `lines` is an IL2CPP game assembly.
pub open spec fn il2cpp_in(lines: Seq<Seq<char>>) -> bool
    decreases lines.len(),
{
    if lines.len() == 0 {
        false
    } else {
        let hit = match path_field(lines[0]) {
            Some(p) => {
                let name = file_name_or_empty(p);
                contains(name, "GameAssembly"@) || contains(name, "libil2cpp"@)
            },
            None => false,
        };
        hit || il2cpp_in(lines.drop_first())
    }
}

/// Whether a maps text shows an IL2CPP game (`GameAssembly` or `libil2cpp` mapped).
pub fn maps_has_il2cpp(maps: &str) -> (r: bool)
    ensures
        r == il2cpp_in(maps_lines(maps@)),
{
    let v = chars_of(maps);
    let ga = chars_of("GameAssembly");
    let li = chars_of("libil2cpp");
    let mut pos: usize = 0;
    while pos < v.len()
        invariant
            pos <= v@.len(),
            v@ == maps@,
            ga@ == "GameAssembly"@,
            li@ == "libil2cpp"@,
            il2cpp_in(maps_lines(maps@)) == il2cpp_in(lines_from(v@, pos as int)),
        decreases v@.len() - pos,
    {
        let (a, b, next) = next_line(&v, pos);
        let line = &v[a..b];
        let ghost rest = lines_from(v@, next as int);
        assert(lines_from(v@, pos as int) == seq![line@] + rest);
        assert((seq![line@] + rest).drop_first() =~= rest);
        let (_, path) = split_line(line);
        if let Some((pa, pb)) = path {
            let (na, nb) = name_of(line, pa, pb);
            let name = &line[na..nb];
            if contains_exec(name, &ga) || contains_exec(name, &li) {
                return true;
            }
        }
        pos = next;
    }
    false
}

/// The Proton Mono flavour of a (lower-case) Windows DLL name, if it is a Mono runtime.
pub open spec fn windows_flavor(file: Seq<char>) -> Option<Seq<char>> {
    if !ends_with(file, ".dll"@) {
        None
    } else if contains(file, "monobdwgc"@) || contains(file, "mono-2.0-bdwgc"@) {
        Some("Mono BleedingEdge (Proton)"@)
    } else if contains(file, "monosgen"@) || contains(file, "mono-2.0-sgen"@) {
        Some("Mono SGen (Proton)"@)
    } else if file == "mono.dll"@ || contains(file, "mono-2.0"@) {
        Some("Mono (Proton)"@)
    } else {
        None
    }
}

fn windows_flavor_exec(file: &[char]) -> (r: Option<String>)
    ensures
        match r {
            Some(f) => windows_flavor(file@) == Some(f@),
            None => windows_flavor(file@) is None,
        },
{
    if !ends_with_exec(file, &chars_of(".dll")) {
        None
    } else if contains_exec(file, &chars_of("monobdwgc")) || contains_exec(file, &chars_of("mono-2.0-bdwgc")) {
        Some(String::from_str("Mono BleedingEdge (Proton)"))
    } else if contains_exec(file, &chars_of("monosgen")) || contains_exec(file, &chars_of("mono-2.0-sgen")) {
        Some(String::from_str("Mono SGen (Proton)"))
    } else if same_chars(file, &chars_of("mono.dll")) || contains_exec(file, &chars_of("mono-2.0")) {
        Some(String::from_str("Mono (Proton)"))
    } else {
        None
    }
}

/// The flavour of the first mapping among `lines` that is a Windows Mono runtime DLL
/// (as Proton maps it).
pub open spec fn windows_mono_in(lines: Seq<Seq<char>>) -> Option<Seq<char>>
    decreases lines.len(),
{
    if lines.len() == 0 {
        None
    } else {
        let hit = match path_field(lines[0]) {
            Some(p) => windows_flavor(lower_ascii_seq(file_name_or_empty(p))),
            None => None,
        };
        match hit {
            Some(f) => Some(f),
            None => windows_mono_in(lines.drop_first()),
        }
    }
}

/// Finds a Windows Mono runtime mapped under Proton, giving its flavour.
pub fn find_windows_mono(maps: &str) -> (r: Option<String>)
    ensures
        match r {
            Some(f) => windows_mono_in(maps_lines(maps@)) == Some(f@),
            None => windows_mono_in(maps_lines(maps@)) is None,
        },
{
    let v = chars_of(maps);
    let mut pos: usize = 0;
    while pos < v.len()
        invariant
            pos <= v@.len(),
            v@ == maps@,
            windows_mono_in(maps_lines(maps@)) == windows_mono_in(lines_from(v@, pos as int)),
        decreases v@.len() - pos,
    {
        let (a, b, next) = next_line(&v, pos);
        let line = &v[a..b];
        let ghost rest = lines_from(v@, next as int);
        assert(lines_from(v@, pos as int) == seq![line@] + rest);
        assert((seq![line@] + rest).drop_first() =~= rest);
        let (_, path) = split_line(line);
        if let Some((pa, pb)) = path {
            let (na, nb) = name_of(line, pa, pb);
            let lower = lower_ascii_vec(&line[na..nb]);
            if let Some(f) = windows_flavor_exec(&lower) {
                return Some(f);
            }
        }
        pos = next;
    }
    None
}

/// Whether an executable's file name (lower-cased) is that of Wine, Proton or their
/// launchers rather than the game's.
pub open spec fn looks_like_wine_spec(exe: Seq<char>) -> bool {
    let f = lower_ascii_seq(file_name_or_empty(exe));
    starts_with(f, "wine"@) || contains(f, "wine"@) || contains(f, "proton"@) || contains(f, "preloader"@)
        || f == "pv-bwrap"@ || f == "srt-bwrap"@
}

/// Decides whether an executable path is Wine's or Proton's own.
pub fn looks_like_wine(exe: &str) -> (r: bool)
    ensures
        r == looks_like_wine_spec(exe@),
{
    let v = chars_of(exe);
    let f = match crate::path::file_name_bounds(&v) {
        Some((a, b)) => lower_ascii_vec(&v[a..b]),
        None => {
            assert(lower_ascii_seq(Seq::<char>::empty()) =~= Seq::<char>::empty());
            Vec::new()
        },
    };
    starts_with_exec(&f, &chars_of("wine")) || contains_exec(&f, &chars_of("wine")) || contains_exec(
        &f,
        &chars_of("proton"),
    ) || contains_exec(&f, &chars_of("preloader")) || same_chars(&f, &chars_of("pv-bwrap"))
        || same_chars(&f, &chars_of("srt-bwrap"))
}


/// `out` holds the processes of `inp` ordered by thread count, most threads first, those
/// with equal counts in the order they came.
pub open spec fn by_threads(inp: Seq<MonoProcess>, out: Seq<MonoProcess>) -> bool {
    &&& out.len() == inp.len()
    &&& forall|i: int, j: int|
        0 <= i < j < out.len() ==> out[j].thread_count <= out[i].thread_count
    &&& same_per_key(inp, out, |p: MonoProcess| p.thread_count)
}

/// Whether `exe` is the executable `e`.
pub open spec fn is_exe(exe: Option<String>, e: Seq<char>) -> bool {
    match exe {
        Some(f) => f@ == e,
        None => false,
    }
}

/// Whether a process before position `i` runs the same executable as the one at `i`.
pub open spec fn seen_before(s: Seq<MonoProcess>, i: int) -> bool {
    match s[i].exe_path {
        Some(e) => exists|j: int| 0 <= j < i && #[trigger] is_exe(s[j].exe_path, e@),
        None => false,
    }
}

/// `out` is `s` with every process whose executable an earlier process runs marked as a
/// duplicate.
pub open spec fn flagged(s: Seq<MonoProcess>, out: Seq<MonoProcess>) -> bool {
    &&& out.len() == s.len()
    &&& forall|i: int|
        0 <= i < s.len() ==> #[trigger] out[i] == (MonoProcess {
            duplicate: s[i].duplicate || seen_before(s, i),
            ..s[i]
        })
}

/// Orders processes by thread count, most first, keeping the order of those with equal
/// counts.
fn sort_by_threads(procs: Vec<MonoProcess>) -> (out: Vec<MonoProcess>)
    ensures
        by_threads(procs@, out@),
{
    let ghost key = |p: MonoProcess| p.thread_count;
    let mut rest = procs;
    let mut out: Vec<MonoProcess> = Vec::new();
    let ghost done: Seq<MonoProcess> = Seq::empty();
    while rest.len() > 0
        invariant
            procs@ == done + rest@,
            by_threads(done, out@),
            key == (|p: MonoProcess| p.thread_count),
        decreases rest@.len(),
    {
        let x = rest.remove(0);
        let mut pos = out.len();
        while pos > 0 && out[pos - 1].thread_count < x.thread_count
            invariant
                pos <= out@.len(),
                forall|j: int| pos <= j < out@.len() ==> (#[trigger] out@[j]).thread_count < x.thread_count,
            decreases pos,
        {
            pos = pos - 1;
        }
        proof {
            assert forall|k: usize| #[trigger] with_key(out@.insert(pos as int, x), key, k)
                == with_key(done.push(x), key, k) by {
                lemma_insert_keys(out@, pos as int, x, key, k);
                lemma_push_keys(done, x, key, k);
            }
            let new = out@.insert(pos as int, x);
            assert forall|i: int, j: int| 0 <= i < j < new.len() implies new[j].thread_count
                <= new[i].thread_count by {
                if j < pos {
                } else if j == pos {
                    assert(out@[i].thread_count >= out@[pos - 1].thread_count);
                } else if i < pos {
                    assert(new[j] == out@[j - 1]);
                } else if i == pos {
                    assert(new[j] == out@[j - 1]);
                } else {
                    assert(new[i] == out@[i - 1]);
                    assert(new[j] == out@[j - 1]);
                }
            }
        }
        out.insert(pos, x);
        proof {
            done = done.push(x);
            assert(procs@ =~= done + rest@);
        }
    }
    assert(done =~= procs@);
    out
}

/// The executable of a process as text, if it has one.
pub open spec fn exe_view(exe: Option<String>) -> Option<Seq<char>> {
    match exe {
        Some(e) => Some(e@),
        None => None,
    }
}

/// Marks, in order, each process whose executable an earlier one already runs.
fn flag_duplicates(procs: Vec<MonoProcess>) -> (out: Vec<MonoProcess>)
    ensures
        flagged(procs@, out@),
{
    let ghost s = procs@;
    let mut rest = procs;
    let mut out: Vec<MonoProcess> = Vec::new();
    let mut seen: Vec<Option<Vec<char>>> = Vec::new();
    while rest.len() > 0
        invariant
            s == out@.subrange(0, 0) + s.subrange(0, out@.len() as int) + rest@,
            out@.len() + rest@.len() == s.len(),
            seen@.len() == out@.len(),
            forall|j: int|
                0 <= j < seen@.len() ==> match #[trigger] seen@[j] {
                    Some(v) => exe_view(s[j].exe_path) == Some(v@),
                    None => s[j].exe_path is None,
                },
            forall|i: int|
                0 <= i < out@.len() ==> #[trigger] out@[i] == (MonoProcess {
                    duplicate: s[i].duplicate || seen_before(s, i),
                    ..s[i]
                }),
        decreases rest@.len(),
    {
        let ghost i = out@.len() as int;
        assert(s[i] == rest@[0]);
        let mut p = rest.remove(0);
        let ex: Option<Vec<char>> = match &p.exe_path {
            Some(e) => Some(chars_of(e.as_str())),
            None => None,
        };
        let mut dup = false;
        if let Some(v) = &ex {
            let mut j: usize = 0;
            while j < seen.len()
                invariant
                    j <= seen@.len(),
                    seen@.len() == i,
                    i < s.len(),
                    s[i].exe_path matches Some(e) && e@ == v@,
                    forall|k: int|
                        0 <= k < seen@.len() ==> match #[trigger] seen@[k] {
                            Some(w) => exe_view(s[k].exe_path) == Some(w@),
                            None => s[k].exe_path is None,
                        },
                    dup == exists|k: int| 0 <= k < j && #[trigger] is_exe(s[k].exe_path, v@),
                decreases seen@.len() - j,
            {
                let ghost before = dup;
                if let Some(w) = &seen[j] {
                    if same_chars(w, v) {
                        dup = true;
                    }
                }
                proof {
                    let jj = j as int;
                    assert(match seen@[jj] {
                        Some(w) => exe_view(s[jj].exe_path) == Some(w@),
                        None => s[jj].exe_path is None,
                    });
                    assert(dup == (before || is_exe(s[jj].exe_path, v@)));
                    if is_exe(s[jj].exe_path, v@) {
                        assert(exists|k: int| 0 <= k < j + 1 && #[trigger] is_exe(s[k].exe_path, v@));
                    }
                    if before {
                        let k = choose|k: int| 0 <= k < j && #[trigger] is_exe(s[k].exe_path, v@);
                        assert(0 <= k < j + 1 && is_exe(s[k].exe_path, v@));
                    }
                    if exists|k: int| 0 <= k < j + 1 && #[trigger] is_exe(s[k].exe_path, v@) {
                        let k = choose|k: int| 0 <= k < j + 1 && #[trigger] is_exe(s[k].exe_path, v@);
                        if k < j {
                            assert(before);
                        }
                    }
                }
                j = j + 1;
            }
        }
        proof {
            if s[i].exe_path is None {
                assert(!seen_before(s, i));
            } else {
                assert(dup == seen_before(s, i));
            }
        }
        p.duplicate = p.duplicate || dup;
        out.push(p);
        seen.push(ex);
        assert(out@.subrange(0, 0) + s.subrange(0, out@.len() as int) + rest@ =~= s);
    }
    out
}

/// Orders found processes by thread count and marks the duplicates: where several
/// processes run one executable, the one with the most threads is the primary one.
pub fn mark_duplicates(procs: Vec<MonoProcess>) -> (out: Vec<MonoProcess>)
    ensures
        exists|sorted: Seq<MonoProcess>| by_threads(procs@, sorted) && flagged(sorted, out@),
{
    let sorted = sort_by_threads(procs);
    let ghost mid = sorted@;
    let out = flag_duplicates(sorted);
    assert(by_threads(procs@, mid) && flagged(mid, out@));
    out
}

/// When several processes run one executable, the one kept as primary is the busiest:
/// every process that marking newly flags as a duplicate comes after a process with the
/// same executable and at least as many threads.
pub proof fn lemma_duplicates_follow_busier(
    inp: Seq<MonoProcess>,
    sorted: Seq<MonoProcess>,
    out: Seq<MonoProcess>,
)
    requires
        by_threads(inp, sorted),
        flagged(sorted, out),
    ensures
        forall|i: int|
            0 <= i < out.len() && (#[trigger] out[i]).duplicate && !sorted[i].duplicate ==> exists|j: int|
                0 <= j < i && exe_view(out[j].exe_path) == exe_view(out[i].exe_path) && exe_view(
                    out[i].exe_path,
                ) is Some && out[j].thread_count >= out[i].thread_count,
{
    assert forall|i: int|
        0 <= i < out.len() && (#[trigger] out[i]).duplicate && !sorted[i].duplicate implies exists|j: int|
            0 <= j < i && exe_view(out[j].exe_path) == exe_view(out[i].exe_path) && exe_view(
                out[i].exe_path,
            ) is Some && out[j].thread_count >= out[i].thread_count by {
        assert(out[i] == (MonoProcess { duplicate: sorted[i].duplicate || seen_before(sorted, i), ..sorted[i] }));
        let e = sorted[i].exe_path->0;
        let j = choose|j: int| 0 <= j < i && #[trigger] is_exe(sorted[j].exe_path, e@);
        assert(out[j] == (MonoProcess { duplicate: sorted[j].duplicate || seen_before(sorted, j), ..sorted[j] }));
        assert(sorted[i].thread_count <= sorted[j].thread_count);
    }
}

/// The key by which a scan lists processes: the lower-cased name, then primaries before
/// duplicates, then the process id.
pub open spec fn scan_key(p: MonoProcess) -> (Seq<char>, bool, i32) {
    (unicode_lower(p.name@), p.duplicate, p.pid)
}

/// Whether key `a` is listed before key `b`.
pub open spec fn key_before(a: (Seq<char>, bool, i32), b: (Seq<char>, bool, i32)) -> bool {
    lex_lt(a.0, b.0) || (a.0 == b.0 && ((!a.1 && b.1) || (a.1 == b.1 && a.2 < b.2)))
}

proof fn lemma_key_irreflexive(a: (Seq<char>, bool, i32))
    ensures
        !key_before(a, a),
{
    lemma_lex_irreflexive(a.0);
}

proof fn lemma_key_asymmetric(a: (Seq<char>, bool, i32), b: (Seq<char>, bool, i32))
    requires
        key_before(a, b),
    ensures
        !key_before(b, a),
{
    if lex_lt(a.0, b.0) {
        lemma_lex_asymmetric(a.0, b.0);
        if a.0 == b.0 {
            lemma_lex_irreflexive(a.0);
        }
    } else {
        lemma_lex_irreflexive(a.0);
    }
}

proof fn lemma_key_le_transitive(
    a: (Seq<char>, bool, i32),
    b: (Seq<char>, bool, i32),
    c: (Seq<char>, bool, i32),
)
    requires
        !key_before(b, a),
        !key_before(c, b),
    ensures
        !key_before(c, a),
{
    lemma_lex_le_transitive(a.0, b.0, c.0);
    lemma_lex_total(a.0, b.0);
    lemma_lex_total(b.0, c.0);
    lemma_lex_irreflexive(a.0);
    lemma_lex_irreflexive(b.0);
    if lex_lt(a.0, b.0) && lex_lt(b.0, c.0) {
        lemma_lex_transitive(a.0, b.0, c.0);
        lemma_lex_asymmetric(a.0, c.0);
    }
    if lex_lt(a.0, b.0) && b.0 == c.0 {
        lemma_lex_asymmetric(a.0, b.0);
    }
    if a.0 == b.0 && lex_lt(b.0, c.0) {
        lemma_lex_asymmetric(b.0, c.0);
    }
}

/// `out` is `inp` as a scan lists it: ordered by `scan_key`, stably.
pub open spec fn in_scan_order(inp: Seq<MonoProcess>, out: Seq<MonoProcess>) -> bool {
    &&& out.len() == inp.len()
    &&& forall|i: int, j: int|
        0 <= i < j < out.len() ==> !key_before(scan_key(out[j]), scan_key(out[i]))
    &&& same_per_key(inp, out, |p: MonoProcess| scan_key(p))
}

fn key_less(ka: &[char], a: &MonoProcess, kb: &[char], b: &MonoProcess) -> (r: bool)
    ensures
        r == key_before((ka@, a.duplicate, a.pid), (kb@, b.duplicate, b.pid)),
{
    lex_less(ka, kb) || (same_chars(ka, kb) && ((!a.duplicate && b.duplicate) || (a.duplicate
        == b.duplicate && a.pid < b.pid)))
}

/// Orders processes as a scan lists them.
fn sort_for_listing(procs: Vec<MonoProcess>) -> (out: Vec<MonoProcess>)
    ensures
        in_scan_order(procs@, out@),
{
    let ghost key = |p: MonoProcess| scan_key(p);
    let mut rest = procs;
    let mut out: Vec<MonoProcess> = Vec::new();
    let mut keys: Vec<Vec<char>> = Vec::new();
    let ghost done: Seq<MonoProcess> = Seq::empty();
    while rest.len() > 0
        invariant
            procs@ == done + rest@,
            in_scan_order(done, out@),
            keys@.len() == out@.len(),
            forall|i: int| 0 <= i < out@.len() ==> (#[trigger] keys@[i])@ == unicode_lower(out@[i].name@),
            key == (|p: MonoProcess| scan_key(p)),
        decreases rest@.len(),
    {
        let x = rest.remove(0);
        let kx = chars_of(lowercase(x.name.as_str()).as_str());
        let mut pos = out.len();
        while pos > 0 && key_less(&kx, &x, &keys[pos - 1], &out[pos - 1])
            invariant
                pos <= out@.len(),
                keys@.len() == out@.len(),
                kx@ == unicode_lower(x.name@),
                forall|i: int| 0 <= i < out@.len() ==> (#[trigger] keys@[i])@ == unicode_lower(out@[i].name@),
                forall|j: int| pos <= j < out@.len() ==> key_before(scan_key(x), scan_key(#[trigger] out@[j])),
            decreases pos,
        {
            assert(keys@[pos - 1]@ == unicode_lower(out@[pos - 1].name@));
            pos = pos - 1;
        }
        proof {
            if pos > 0 {
                assert(keys@[pos - 1]@ == unicode_lower(out@[pos - 1].name@));
            }
            assert forall|j: int| pos <= j < out@.len() implies key(#[trigger] out@[j]) != key(x) by {
                lemma_key_irreflexive(scan_key(x));
            }
            assert forall|k: (Seq<char>, bool, i32)| #[trigger] with_key(out@.insert(pos as int, x), key, k)
                == with_key(done.push(x), key, k) by {
                lemma_insert_keys(out@, pos as int, x, key, k);
                lemma_push_keys(done, x, key, k);
            }
            let new = out@.insert(pos as int, x);
            assert forall|i: int, j: int| 0 <= i < j < new.len() implies !key_before(
                scan_key(new[j]),
                scan_key(new[i]),
            ) by {
                if j < pos {
                } else if j == pos {
                    if i < pos - 1 {
                        lemma_key_le_transitive(scan_key(out@[i]), scan_key(out@[pos - 1]), scan_key(x));
                    }
                } else if i < pos {
                    assert(new[j] == out@[j - 1]);
                    assert(new[i] == out@[i]);
                } else if i == pos {
                    assert(new[j] == out@[j - 1]);
                    lemma_key_asymmetric(scan_key(x), scan_key(out@[j - 1]));
                } else {
                    assert(new[i] == out@[i - 1]);
                    assert(new[j] == out@[j - 1]);
                }
            }
        }
        out.insert(pos, x);
        keys.insert(pos, kx);
        proof {
            done = done.push(x);
            assert(procs@ =~= done + rest@);
        }
    }
    assert(done =~= procs@);
    out
}

/// The processes a scan found, as it lists them: duplicates marked (see `mark_duplicates`),
/// then ordered by lower-cased name, primaries before duplicates, then by process id.
pub fn arrange_scan(found: Vec<MonoProcess>) -> (out: Vec<MonoProcess>)
    ensures
        exists|sorted: Seq<MonoProcess>, marked: Seq<MonoProcess>|
            by_threads(found@, sorted) && flagged(sorted, marked) && in_scan_order(marked, out@),
{
    let marked = mark_duplicates(found);
    let out = sort_for_listing(marked);
    out
}


/// The runtime found in a process's memory map.
#[derive(Debug, Clone)]
pub struct Runtime {
    pub engine: String,
    pub flavor: String,
    pub mono_so_path: String,
    pub injectable: bool,
    pub suspect: bool,
}

/// What a maps text shows of a Unity runtime: engine, flavour, the native Mono library's
/// path and whether it can be injected. A native Mono runtime comes first, then a Windows
/// Mono under Proton, then IL2CPP; a process with none of them is no Unity game.
pub open spec fn runtime_in(maps: Seq<char>) -> Option<(Seq<char>, Seq<char>, Seq<char>, bool)> {
    let lines = maps_lines(maps);
    match mono_mapping_in(lines, None) {
        Some((so, fl)) => Some(("Mono"@, fl, so, true)),
        None => match windows_mono_in(lines) {
            Some(fl) => Some(("Mono"@, fl, Seq::empty(), false)),
            None => if il2cpp_in(lines) {
                Some(("IL2CPP"@, "IL2CPP"@, Seq::empty(), false))
            } else {
                None
            },
        },
    }
}

proof fn lemma_mono_mapping_is_mapped(lines: Seq<Seq<char>>, fallback: Option<(Seq<char>, Seq<char>)>)
    requires
        fallback matches Some(f) ==> f.0.len() > 0 && mono_flavor(file_name_or_empty(f.0)) == Some(f.1),
    ensures
        mono_mapping_in(lines, fallback) matches Some(m) ==> m.0.len() > 0 && mono_flavor(
            file_name_or_empty(m.0),
        ) == Some(m.1),
    decreases lines.len(),
{
    if lines.len() > 0 {
        match path_field(lines[0]) {
            None => lemma_mono_mapping_is_mapped(lines.drop_first(), fallback),
            Some(p) => {
                let name = file_name_or_empty(p);
                match mono_flavor(name) {
                    None => lemma_mono_mapping_is_mapped(lines.drop_first(), fallback),
                    Some(fl) => if contains(name, "native"@) {
                        let next = if fallback is None {
                            Some((p, fl))
                        } else {
                            fallback
                        };
                        lemma_mono_mapping_is_mapped(lines.drop_first(), next);
                    },
                }
            },
        }
    }
}

/// Only a native Mono runtime is offered for injection: a runtime found injectable is Mono,
/// loaded from a mapped library (a path that is not empty and whose file name carries a Mono
/// marker, the one its flavour is named after); a Mono runtime of Windows under Proton and an
/// IL2CPP game are never injectable.
pub proof fn lemma_only_native_mono_is_injectable(maps: Seq<char>)
    ensures
        runtime_in(maps) matches Some(rt) ==> {
            &&& rt.3 ==> rt.0 == "Mono"@ && rt.2.len() > 0 && mono_flavor(file_name_or_empty(rt.2))
                == Some(rt.1)
            &&& rt.2.len() == 0 ==> !rt.3
            &&& rt.0 != "Mono"@ ==> !rt.3
        },
{
    lemma_mono_mapping_is_mapped(maps_lines(maps), None);
}

proof fn lemma_mono_fallback_kept(lines: Seq<Seq<char>>, fallback: Option<(Seq<char>, Seq<char>)>)
    requires
        fallback is Some,
    ensures
        mono_mapping_in(lines, fallback) is Some,
    decreases lines.len(),
{
    if lines.len() > 0 {
        lemma_mono_fallback_kept(lines.drop_first(), fallback);
    }
}

proof fn lemma_mono_mapping_found(lines: Seq<Seq<char>>, fallback: Option<(Seq<char>, Seq<char>)>, i: int)
    requires
        0 <= i < lines.len(),
        path_field(lines[i]) matches Some(p) && mono_flavor(file_name_or_empty(p)) is Some,
    ensures
        mono_mapping_in(lines, fallback) is Some,
    decreases lines.len(),
{
    if i == 0 {
        let p = path_field(lines[0])->0;
        let fl = mono_flavor(file_name_or_empty(p))->0;
        if contains(file_name_or_empty(p), "native"@) {
            lemma_mono_fallback_kept(
                lines.drop_first(),
                if fallback is None {
                    Some((p, fl))
                } else {
                    fallback
                },
            );
        }
    } else {
        assert(lines.drop_first()[i - 1] == lines[i]);
        match path_field(lines[0]) {
            None => lemma_mono_mapping_found(lines.drop_first(), fallback, i - 1),
            Some(p) => {
                let name = file_name_or_empty(p);
                match mono_flavor(name) {
                    None => lemma_mono_mapping_found(lines.drop_first(), fallback, i - 1),
                    Some(fl) => if contains(name, "native"@) {
                        let next = if fallback is None {
                            Some((p, fl))
                        } else {
                            fallback
                        };
                        lemma_mono_mapping_found(lines.drop_first(), next, i - 1);
                    },
                }
            },
        }
    }
}

/// A process that maps a native Mono library is an injectable Mono game: when a line of its
/// maps text names a file that carries a Mono marker, the runtime found is Mono, injectable,
/// and loaded from a library so named (a Windows Mono or IL2CPP seen elsewhere does not
/// change that).
pub proof fn lemma_mapped_mono_is_injectable(maps: Seq<char>, i: int)
    requires
        0 <= i < maps_lines(maps).len(),
        path_field(maps_lines(maps)[i]) matches Some(p) && mono_flavor(file_name_or_empty(p)) is Some,
    ensures
        runtime_in(maps) matches Some(rt) && rt.0 == "Mono"@ && rt.3 && rt.2.len() > 0 && mono_flavor(
            file_name_or_empty(rt.2),
        ) == Some(rt.1),
{
    lemma_mono_mapping_found(maps_lines(maps), None, i);
    lemma_mono_mapping_is_mapped(maps_lines(maps), None);
}

/// Tells which Unity runtime a process maps, from its maps text; a runtime loaded from a
/// path containing `native` is suspect.
pub fn classify_runtime(maps: &str) -> (r: Option<Runtime>)
    ensures
        match r {
            Some(rt) => runtime_in(maps@) == Some((rt.engine@, rt.flavor@, rt.mono_so_path@, rt.injectable))
                && rt.suspect == contains(rt.mono_so_path@, "native"@),
            None => runtime_in(maps@) is None,
        },
{
    let (engine, flavor, so, injectable) = match find_mono_mapping(maps) {
        Some((so, fl)) => (String::from_str("Mono"), fl, so, true),
        None => match find_windows_mono(maps) {
            Some(fl) => (String::from_str("Mono"), fl, String::new(), false),
            None => {
                if maps_has_il2cpp(maps) {
                    (String::from_str("IL2CPP"), String::from_str("IL2CPP"), String::new(), false)
                } else {
                    return None;
                }
            },
        },
    };
    let suspect = contains_exec(&chars_of(so.as_str()), &chars_of("native"));
    Some(Runtime { engine, flavor, mono_so_path: so, injectable, suspect })
}

/// The parent of an optional path.
pub open spec fn parent_opt(p: Option<Seq<char>>) -> Option<Seq<char>> {
    match p {
        Some(q) => path_parent(q),
        None => None,
    }
}

/// The game directory as far as the process's own paths tell it: the Steam install path
/// when set and non-empty, else the parent of the data directory, else the directory of the
/// executable when that is not Wine's or Proton's.
pub open spec fn known_dir(
    install: Option<Seq<char>>,
    data_dir: Option<Seq<char>>,
    exe: Option<Seq<char>>,
) -> Option<Seq<char>> {
    if install is Some && install->0.len() > 0 {
        install
    } else if parent_opt(data_dir) is Some {
        parent_opt(data_dir)
    } else {
        match exe {
            Some(e) => if looks_like_wine_spec(e) {
                None
            } else {
                path_parent(e)
            },
            None => None,
        }
    }
}

fn parent_of_opt(p: &Option<String>) -> (r: Option<String>)
    ensures
        exe_view(r) == parent_opt(exe_view(*p)),
{
    match p {
        Some(q) => parent_of(q.as_str()),
        None => None,
    }
}

/// The game directory from the Steam install path, data directory and executable; `None`
/// leaves it to the Wine command line and the working directory.
pub fn known_game_dir(
    install: Option<String>,
    data_dir: Option<String>,
    exe_path: Option<String>,
) -> (r: Option<String>)
    ensures
        exe_view(r) == known_dir(exe_view(install), exe_view(data_dir), exe_view(exe_path)),
{
    if let Some(p) = &install {
        if !p.as_str().is_empty() {
            return install;
        }
    }
    let d = parent_of_opt(&data_dir);
    if d.is_some() {
        return d;
    }
    match &exe_path {
        Some(e) => if looks_like_wine(e.as_str()) {
            None
        } else {
            parent_of(e.as_str())
        },
        None => None,
    }
}

/// Whether a command-line word is a Windows executable path (ends in `.exe`, any case, and
/// holds a `\` or a `:`).
pub open spec fn is_windows_exe(t: Seq<char>) -> bool {
    ends_with(lower_ascii_seq(t), ".exe"@) && (contains(t, seq!['\\']) || contains(t, seq![':']))
}

/// The first part that is valid UTF-8 and a Windows executable path.
pub open spec fn first_windows_exe(parts: Seq<Seq<u8>>) -> Option<Seq<char>>
    decreases parts.len(),
{
    if parts.len() == 0 {
        None
    } else {
        match utf8_decode(parts[0]) {
            Some(t) => if is_windows_exe(t) {
                Some(t)
            } else {
                first_windows_exe(parts.drop_first())
            },
            None => first_windows_exe(parts.drop_first()),
        }
    }
}

/// `t` with every `\` turned into `/`.
pub open spec fn forward_slashes(t: Seq<char>) -> Seq<char> {
    t.map_values(|c: char| if c == '\\' { '/' } else { c })
}

/// A Windows path split after its drive: at the first `:/`, else at the first `:`.
pub open spec fn drive_split(w: Seq<char>) -> Option<(Seq<char>, Seq<char>)> {
    match find_from(w, ":/"@, 0) {
        Some(i) => Some((w.take(i), w.skip(i + 2))),
        None => match find_char(w, ':', 0) {
            Some(i) => Some((w.take(i), w.skip(i + 1))),
            None => None,
        },
    }
}

/// `s` without leading `c` (`trim_start_matches`).
pub open spec fn strip_leading(s: Seq<char>, c: char) -> Seq<char>
    decreases s.len(),
{
    if s.len() > 0 && s[0] == c {
        strip_leading(s.drop_first(), c)
    } else {
        s
    }
}

/// `s` without trailing `c` (`trim_end_matches`).
pub open spec fn strip_trailing(s: Seq<char>, c: char) -> Seq<char>
    decreases s.len(),
{
    if s.len() > 0 && s.last() == c {
        strip_trailing(s.drop_last(), c)
    } else {
        s
    }
}

/// The Linux path of the Windows executable on a Wine command line: drive `z:` is the root,
/// other drives live under the Wine prefix (`WINEPREFIX`, else `STEAM_COMPAT_DATA_PATH/pfx`).
pub open spec fn wine_exe_path(cmdline: Seq<u8>, environ: Seq<u8>) -> Option<Seq<char>> {
    match first_windows_exe(nul_parts(cmdline)) {
        None => None,
        Some(t) => match drive_split(forward_slashes(t)) {
            None => None,
            Some((drive, rest0)) => if drive.len() == 0 {
                None
            } else {
                let letter = lower_ascii_char(drive.last());
                let rest = strip_leading(rest0, '/');
                if letter == 'z' {
                    Some(seq!['/'] + rest)
                } else {
                    let prefix = match env_lookup(nul_parts(environ), "WINEPREFIX"@) {
                        Some(p) => Some(p),
                        None => match env_lookup(nul_parts(environ), "STEAM_COMPAT_DATA_PATH"@) {
                            Some(d) => Some(d + "/pfx"@),
                            None => None,
                        },
                    };
                    match prefix {
                        None => None,
                        Some(p) => Some(strip_trailing(p, '/') + "/drive_"@ + seq![letter] + seq!['/'] + rest),
                    }
                }
            },
        },
    }
}

fn first_windows_exe_exec(raw: &[u8]) -> (r: Option<Vec<char>>)
    ensures
        match r {
            Some(t) => first_windows_exe(nul_parts(raw@)) == Some(t@),
            None => first_windows_exe(nul_parts(raw@)) is None,
        },
{
    let len = raw.len();
    let exe = chars_of(".exe");
    let mut pos: usize = 0;
    loop
        invariant
            pos <= raw@.len(),
            len == raw@.len(),
            exe@ == ".exe"@,
            first_windows_exe(nul_parts(raw@)) == first_windows_exe(parts_from(raw@, pos as int)),
        decreases raw@.len() - pos,
    {
        let (end, last) = part_end(raw, pos);
        let ghost part = raw@.subrange(pos as int, end as int);
        assert((seq![part] + parts_from(raw@, end + 1))[0] == part);
        assert((seq![part] + parts_from(raw@, end + 1)).drop_first() =~= parts_from(raw@, end + 1));
        if let Some(text) = decode_utf8_text(&raw[pos..end]) {
            let t = chars_of(text.as_str());
            if ends_with_exec(&lower_ascii_vec(&t), &exe) && (contains_exec(&t, &['\\']) || contains_exec(&t, &[':'])) {
                assert(seq!['\\'] =~= ['\\']@);
                assert(seq![':'] =~= [':']@);
                return Some(t);
            }
            assert(seq!['\\'] =~= ['\\']@);
            assert(seq![':'] =~= [':']@);
        }
        if last {
            assert(parts_from(raw@, end + 1) =~= Seq::<Seq<u8>>::empty());
            assert(first_windows_exe(parts_from(raw@, end + 1)) is None);
            return None;
        }
        assert(end < len);
        pos = end + 1;
    }
}

/// The directory of the Windows executable that a Wine process runs, as a Linux path; the
/// caller still checks that it exists.
#[verifier::rlimit(40)]
pub fn wine_exe_dir(cmdline: &[u8], environ: &[u8]) -> (r: Option<String>)
    ensures
        exe_view(r) == match wine_exe_path(cmdline@, environ@) {
            Some(p) => path_parent(p),
            None => None,
        },
{
    let t = match first_windows_exe_exec(cmdline) {
        Some(t) => t,
        None => return None,
    };
    let mut w: Vec<char> = Vec::new();
    let mut i: usize = 0;
    while i < t.len()
        invariant
            i <= t@.len(),
            w@ == forward_slashes(t@.take(i as int)),
        decreases t@.len() - i,
    {
        w.push(if t[i] == '\\' { '/' } else { t[i] });
        assert(forward_slashes(t@.take(i + 1)) =~= forward_slashes(t@.take(i as int)).push(
            if t@[i as int] == '\\' { '/' } else { t@[i as int] },
        ));
        i = i + 1;
    }
    assert(t@.take(t@.len() as int) =~= t@);
    let wl = w.len();
    proof {
        crate::text::lemma_find_from(w@, [':', '/']@, 0);
        crate::text::lemma_find_char(w@, ':', 0);
    }
    let (drive_end, rest_start) = match find_exec(&w, &[':', '/'], 0) {
        Some(i) => {
            assert(":/"@ =~= [':', '/']@) by {
                reveal_strlit(":/");
            }
            (i, i + 2)
        },
        None => {
            assert(":/"@ =~= [':', '/']@) by {
                reveal_strlit(":/");
            }
            match find_char_exec(&w, ':', 0) {
                Some(i) => (i, i + 1),
                None => return None,
            }
        },
    };
    if drive_end == 0 {
        return None;
    }
    let letter = lower_ascii(w[drive_end - 1]);
    assert(w@.take(drive_end as int).last() == w@[drive_end - 1]);
    let mut r = rest_start;
    while r < w.len() && w[r] == '/'
        invariant
            rest_start <= r <= w@.len(),
            strip_leading(w@.skip(rest_start as int), '/') == strip_leading(w@.skip(r as int), '/'),
        decreases w@.len() - r,
    {
        assert(w@.skip(r as int).drop_first() =~= w@.skip(r + 1));
        r = r + 1;
    }
    assert(w@.skip(r as int) =~= w@.subrange(r as int, w@.len() as int));
    let mut path = String::new();
    if letter == 'z' {
        push_char(&mut path, '/');
        push_slice(&mut path, &w, r, w.len());
    } else {
        let prefix = match env_value(environ, "WINEPREFIX") {
            Some(p) => p,
            None => match env_value(environ, "STEAM_COMPAT_DATA_PATH") {
                Some(d) => {
                    let mut q = d;
                    push_str(&mut q, "/pfx");
                    q
                },
                None => return None,
            },
        };
        let pv = chars_of(prefix.as_str());
        let mut e = pv.len();
        assert(pv@.take(e as int) =~= pv@);
        while e > 0 && pv[e - 1] == '/'
            invariant
                e <= pv@.len(),
                strip_trailing(pv@, '/') == strip_trailing(pv@.take(e as int), '/'),
            decreases e,
        {
            assert(pv@.take(e as int).drop_last() =~= pv@.take(e - 1));
            e = e - 1;
        }
        assert(pv@.take(e as int) =~= pv@.subrange(0, e as int));
        push_slice(&mut path, &pv, 0, e);
        push_str(&mut path, "/drive_");
        push_char(&mut path, letter);
        push_char(&mut path, '/');
        push_slice(&mut path, &w, r, w.len());
    }
    proof {
        assert(path@ =~= match wine_exe_path(cmdline@, environ@) {
            Some(p) => p,
            None => path@,
        });
    }
    parent_of(path.as_str())
}

/// The data directory a Unity executable is expected to have beside it: `NAME_Data` for an
/// executable `NAME.ext`.
pub open spec fn data_dir_of(exe: Seq<char>) -> Option<Seq<char>> {
    match (path_parent(exe), file_stem(exe)) {
        (Some(dir), Some(stem)) => Some(joined_path(dir, stem + "_Data"@)),
        _ => None,
    }
}

/// The data directory to look for beside an executable; the caller checks that it exists
/// and otherwise looks for any `*_Data` directory there.
pub fn data_dir_candidate(exe_path: &str) -> (r: Option<String>)
    ensures
        exe_view(r) == data_dir_of(exe_path@),
{
    let dir = match parent_of(exe_path) {
        Some(d) => d,
        None => return None,
    };
    let v = chars_of(exe_path);
    let (a, b) = match file_name_bounds(&v) {
        Some(ab) => ab,
        None => return None,
    };
    let name = &v[a..b];
    let stem_end = match last_dot_exec(name) {
        Some(i) => if i == 0 {
            name.len()
        } else {
            i
        },
        None => name.len(),
    };
    let mut stem = string_of(name, 0, stem_end);
    proof {
        assert(name@.subrange(0, name@.len() as int) =~= name@);
        assert(name@.subrange(0, stem_end as int) =~= name@.take(stem_end as int));
    }
    push_str(&mut stem, "_Data");
    let r = join_path(dir.as_str(), stem.as_str());
    Some(r)
}

/// Whether a directory name is a Unity data directory's (`*_Data`).
pub fn is_data_dir_name(name: &str) -> (r: bool)
    ensures
        r == ends_with(name@, "_Data"@),
{
    ends_with_exec(&chars_of(name), &chars_of("_Data"))
}


/// The Steam app id a process was started for: `SteamAppId`, else `SteamGameId`.
pub open spec fn app_id_in(environ: Seq<u8>) -> Option<Seq<char>> {
    match env_lookup(nul_parts(environ), "SteamAppId"@) {
        Some(v) => Some(v),
        None => env_lookup(nul_parts(environ), "SteamGameId"@),
    }
}

/// Reads the Steam app id from a process's raw environment.
pub fn steam_app_id(environ: &[u8]) -> (r: Option<String>)
    ensures
        exe_view(r) == app_id_in(environ@),
{
    match env_value(environ, "SteamAppId") {
        Some(v) => Some(v),
        None => env_value(environ, "SteamGameId"),
    }
}

/// Whether a process runs under Proton or Wine: its environment sets
/// `STEAM_COMPAT_DATA_PATH`, `WINEPREFIX` or `PROTON_VERSION`.
pub open spec fn proton_env(environ: Seq<u8>) -> bool {
    env_lookup(nul_parts(environ), "STEAM_COMPAT_DATA_PATH"@) is Some || env_lookup(
        nul_parts(environ),
        "WINEPREFIX"@,
    ) is Some || env_lookup(nul_parts(environ), "PROTON_VERSION"@) is Some
}

/// Tells from a process's raw environment whether it runs under Proton or Wine.
pub fn is_proton(environ: &[u8]) -> (r: bool)
    ensures
        r == proton_env(environ@),
{
    env_value(environ, "STEAM_COMPAT_DATA_PATH").is_some() || env_value(environ, "WINEPREFIX").is_some()
        || env_value(environ, "PROTON_VERSION").is_some()
}

/// The name a process is listed under: its `comm`, trimmed, or `pid N` when that could not
/// be read.
pub open spec fn process_name_of(comm: Option<Seq<char>>, pid: i32) -> Seq<char> {
    match comm {
        Some(c) => crate::text::trim(c),
        None => "pid "@ + crate::num::signed_decimal(pid as int),
    }
}

/// The name a process is listed under, from its `comm` file when it was read.
pub fn process_name(comm: Option<String>, pid: i32) -> (r: String)
    ensures
        r@ == process_name_of(exe_view(comm), pid),
{
    match comm {
        Some(c) => {
            let v = chars_of(c.as_str());
            let (a, b) = crate::text::trim_bounds(&v, 0, v.len());
            assert(v@.subrange(0, v@.len() as int) =~= v@);
            string_of(&v, a, b)
        },
        None => {
            let mut s = String::from_str("pid ");
            crate::num::push_signed(&mut s, pid as i64);
            s
        },
    }
}

} // verus!
