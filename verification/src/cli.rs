//! The privileged injector's command line, and the checks it makes before it injects: the
//! target's ELF class, the assembly's header, and where the helper library can be staged so
//! that the target may load it.
use vstd::prelude::*;
use crate::injector::{arg_flags, inject_argv_of, InjectRequest};
use crate::maps::maps_lines;
use crate::num::{
    decimal, parse_i32, parse_i32_text, parse_unsigned, parse_unsigned_exec, push_signed,
    signed_decimal,
};
use crate::text::{
    chars_of, find_char, find_char_exec, lemma_find_char, lines_from, next_line, push_str,
    same_chars, starts_with, starts_with_exec, string_of, strings_view, text_result,
};

verus! {

/// The injector's parsed arguments.
#[derive(Debug, Clone)]
pub struct Args {
    pub pid: i32,
    pub so: String,
    pub dll: String,
    pub namespace: String,
    pub class: String,
    pub method: String,
    pub args: Vec<String>,
    pub timeout_secs: Option<u32>,
    pub cancel_flag: Option<String>,
}

/// What the command line asks for.
#[derive(Debug, Clone)]
pub enum Command {
    Help,
    Run(Args),
}

/// The arguments read so far, as text.
pub struct ArgsSoFar {
    pub pid: Option<i32>,
    pub so: Option<Seq<char>>,
    pub dll: Option<Seq<char>>,
    pub namespace: Seq<char>,
    pub class: Option<Seq<char>>,
    pub method: Option<Seq<char>>,
    pub args: Seq<Seq<char>>,
    pub timeout: Option<u32>,
    pub cancel: Option<Seq<char>>,
}

/// Reading the command line from position `i` on, with `st` read before it: `Ok(None)` asks
/// for help; a flag that takes a value and has none, a bad number or an unknown flag is an
/// error; a repeated flag keeps its last value, and each `--arg` adds one argument.
pub open spec fn read_from(argv: Seq<Seq<char>>, i: int, st: ArgsSoFar) -> Result<Option<ArgsSoFar>, Seq<char>>
    decreases argv.len() - i,
{
    if i < 0 || i >= argv.len() {
        Ok(Some(st))
    } else {
        let flag = argv[i];
        let has_val = i + 1 < argv.len();
        let val = argv[i + 1];
        let missing = Err("missing value for "@ + flag);
        if flag == "--pid"@ {
            if !has_val {
                missing
            } else {
                match parse_i32_text(val) {
                    Some(p) => read_from(argv, i + 2, ArgsSoFar { pid: Some(p), ..st }),
                    None => Err("bad --pid"@),
                }
            }
        } else if flag == "--so"@ {
            if !has_val {
                missing
            } else {
                read_from(argv, i + 2, ArgsSoFar { so: Some(val), ..st })
            }
        } else if flag == "--dll"@ {
            if !has_val {
                missing
            } else {
                read_from(argv, i + 2, ArgsSoFar { dll: Some(val), ..st })
            }
        } else if flag == "--namespace"@ {
            if !has_val {
                missing
            } else {
                read_from(argv, i + 2, ArgsSoFar { namespace: val, ..st })
            }
        } else if flag == "--class"@ {
            if !has_val {
                missing
            } else {
                read_from(argv, i + 2, ArgsSoFar { class: Some(val), ..st })
            }
        } else if flag == "--method"@ {
            if !has_val {
                missing
            } else {
                read_from(argv, i + 2, ArgsSoFar { method: Some(val), ..st })
            }
        } else if flag == "--arg"@ {
            if !has_val {
                missing
            } else {
                read_from(argv, i + 2, ArgsSoFar { args: st.args.push(val), ..st })
            }
        } else if flag == "--timeout"@ {
            if !has_val {
                missing
            } else {
                match parse_unsigned(val, 10, u32::MAX as nat) {
                    Some(t) => read_from(argv, i + 2, ArgsSoFar { timeout: Some(t as u32), ..st }),
                    None => Err("bad --timeout"@),
                }
            }
        } else if flag == "--cancel-flag"@ {
            if !has_val {
                missing
            } else {
                read_from(argv, i + 2, ArgsSoFar { cancel: Some(val), ..st })
            }
        } else if flag == "-h"@ || flag == "--help"@ {
            Ok(None)
        } else {
            Err("unknown argument: "@ + flag)
        }
    }
}

/// Nothing read yet.
pub open spec fn nothing_read() -> ArgsSoFar {
    ArgsSoFar {
        pid: None,
        so: None,
        dll: None,
        namespace: Seq::empty(),
        class: None,
        method: None,
        args: Seq::empty(),
        timeout: None,
        cancel: None,
    }
}

/// The view of parsed arguments.
pub open spec fn args_view(a: Args) -> ArgsSoFar {
    ArgsSoFar {
        pid: Some(a.pid),
        so: Some(a.so@),
        dll: Some(a.dll@),
        namespace: a.namespace@,
        class: Some(a.class@),
        method: Some(a.method@),
        args: strings_view(a.args@),
        timeout: a.timeout_secs,
        cancel: match a.cancel_flag {
            Some(c) => Some(c@),
            None => None,
        },
    }
}

/// What the command line (without the program name) asks for: help, a complete set of
/// arguments (pid, helper library, assembly, class and method are required, in that order
/// of complaint), or an error.
pub open spec fn command_of(argv: Seq<Seq<char>>) -> Result<Option<ArgsSoFar>, Seq<char>> {
    match read_from(argv, 0, nothing_read()) {
        Err(e) => Err(e),
        Ok(None) => Ok(None),
        Ok(Some(st)) => if st.pid is None {
            Err("--pid is required"@)
        } else if st.so is None {
            Err("--so is required"@)
        } else if st.dll is None {
            Err("--dll is required"@)
        } else if st.class is None {
            Err("--class is required"@)
        } else if st.method is None {
            Err("--method is required"@)
        } else {
            Ok(Some(st))
        },
    }
}

fn is_flag(v: &Vec<char>, flag: &str) -> (r: bool)
    ensures
        r == (v@ == flag@),
{
    same_chars(v, &chars_of(flag))
}

fn copy_text(s: &String) -> (r: String)
    ensures
        r@ == s@,
{
    s.clone()
}

/// Parses the injector's command line (without the program name).
pub fn parse_args(argv: &Vec<String>) -> (r: Result<Command, String>)
    ensures
        match r {
            Ok(Command::Help) => command_of(strings_view(argv@)) == Ok::<Option<ArgsSoFar>, Seq<char>>(None),
            Ok(Command::Run(a)) => command_of(strings_view(argv@)) == Ok::<Option<ArgsSoFar>, Seq<char>>(
                Some(args_view(a)),
            ),
            Err(e) => command_of(strings_view(argv@)) == Err::<Option<ArgsSoFar>, Seq<char>>(e@),
        },
{
    let ghost av = strings_view(argv@);
    let mut pid: Option<i32> = None;
    let mut so: Option<String> = None;
    let mut dll: Option<String> = None;
    let mut namespace = String::new();
    let mut class: Option<String> = None;
    let mut method: Option<String> = None;
    let mut args: Vec<String> = Vec::new();
    let mut timeout_secs: Option<u32> = None;
    let mut cancel_flag: Option<String> = None;
    let n = argv.len();
    let mut i: usize = 0;
    assert(strings_view(args@) =~= Seq::<Seq<char>>::empty());
    assert(namespace@ =~= Seq::<char>::empty());
    while i < n
        invariant
            n == argv@.len(),
            av == strings_view(argv@),
            read_from(av, 0, nothing_read()) == read_from(
                av,
                i as int,
                ArgsSoFar {
                    pid: pid,
                    so: match so {
                        Some(s) => Some(s@),
                        None => None,
                    },
                    dll: match dll {
                        Some(s) => Some(s@),
                        None => None,
                    },
                    namespace: namespace@,
                    class: match class {
                        Some(s) => Some(s@),
                        None => None,
                    },
                    method: match method {
                        Some(s) => Some(s@),
                        None => None,
                    },
                    args: strings_view(args@),
                    timeout: timeout_secs,
                    cancel: match cancel_flag {
                        Some(s) => Some(s@),
                        None => None,
                    },
                },
            ),
        decreases n - i,
    {
        let flag = chars_of(argv[i].as_str());
        assert(av[i as int] == flag@);
        let has_val = i + 1 < n;
        proof {
            reveal_strlit("-h");
            reveal_strlit("--help");
            reveal_strlit("--pid");
            reveal_strlit("--so");
            reveal_strlit("--dll");
            reveal_strlit("--namespace");
            reveal_strlit("--class");
            reveal_strlit("--method");
            reveal_strlit("--arg");
            reveal_strlit("--timeout");
            reveal_strlit("--cancel-flag");
        }
        if is_flag(&flag, "-h") || is_flag(&flag, "--help") {
            return Ok(Command::Help);
        }
        let known = is_flag(&flag, "--pid") || is_flag(&flag, "--so") || is_flag(&flag, "--dll")
            || is_flag(&flag, "--namespace") || is_flag(&flag, "--class") || is_flag(&flag, "--method")
            || is_flag(&flag, "--arg") || is_flag(&flag, "--timeout") || is_flag(&flag, "--cancel-flag");
        if !known {
            let mut e = String::from_str("unknown argument: ");
            push_str(&mut e, argv[i].as_str());
            return Err(e);
        }
        if !has_val {
            let mut e = String::from_str("missing value for ");
            push_str(&mut e, argv[i].as_str());
            return Err(e);
        }
        let val = &argv[i + 1];
        assert(av[i + 1] == val@);
        if is_flag(&flag, "--pid") {
            match parse_i32(&chars_of(val.as_str())) {
                Some(p) => pid = Some(p),
                None => return Err(String::from_str("bad --pid")),
            }
        } else if is_flag(&flag, "--so") {
            so = Some(copy_text(val));
        } else if is_flag(&flag, "--dll") {
            dll = Some(copy_text(val));
        } else if is_flag(&flag, "--namespace") {
            namespace = copy_text(val);
        } else if is_flag(&flag, "--class") {
            class = Some(copy_text(val));
        } else if is_flag(&flag, "--method") {
            method = Some(copy_text(val));
        } else if is_flag(&flag, "--arg") {
            let ghost before = strings_view(args@);
            args.push(copy_text(val));
            assert(strings_view(args@) =~= before.push(val@));
        } else if is_flag(&flag, "--timeout") {
            match parse_unsigned_exec(&chars_of(val.as_str()), 10, 0xFFFF_FFFF) {
                Some(t) => timeout_secs = Some(t as u32),
                None => return Err(String::from_str("bad --timeout")),
            }
        } else {
            cancel_flag = Some(copy_text(val));
        }
        i = i + 2;
    }
    let (pid, so, dll, class, method) = match (pid, so, dll, class, method) {
        (None, _, _, _, _) => return Err(String::from_str("--pid is required")),
        (_, None, _, _, _) => return Err(String::from_str("--so is required")),
        (_, _, None, _, _) => return Err(String::from_str("--dll is required")),
        (_, _, _, None, _) => return Err(String::from_str("--class is required")),
        (_, _, _, _, None) => return Err(String::from_str("--method is required")),
        (Some(p), Some(s), Some(d), Some(c), Some(m)) => (p, s, d, c, m),
    };
    let a = Args { pid, so, dll, namespace, class, method, args, timeout_secs, cancel_flag };
    Ok(Command::Run(a))
}

/// The ELF class byte of a target's header (its first five bytes), if it is an ELF file.
pub open spec fn class_of(hdr: Seq<u8>) -> Result<u8, Seq<char>> {
    if hdr[0] != 0x7f || hdr[1] != 0x45 || hdr[2] != 0x4c || hdr[3] != 0x46 {
        Err("target is not an ELF binary"@)
    } else {
        Ok(hdr[4])
    }
}

/// Reads the ELF class out of a target's header.
pub fn elf_class(hdr: &[u8]) -> (r: Result<u8, String>)
    requires
        hdr@.len() >= 5,
    ensures
        match r {
            Ok(c) => class_of(hdr@) == Ok::<u8, Seq<char>>(c),
            Err(e) => class_of(hdr@) == Err::<u8, Seq<char>>(e@),
        },
{
    if hdr[0] != 0x7f || hdr[1] != 0x45 || hdr[2] != 0x4c || hdr[3] != 0x46 {
        Err(String::from_str("target is not an ELF binary"))
    } else {
        Ok(hdr[4])
    }
}

/// Refuses a 32-bit target (ELF class 1); any other class is let through.
pub fn check_target_class(class: u8) -> (r: Result<(), String>)
    ensures
        match r {
            Ok(()) => class != 1,
            Err(e) => class == 1 && e@ == "32-bit target is not supported (Zyringe is x86_64 only)"@,
        },
{
    if class == 1 {
        Err(String::from_str("32-bit target is not supported (Zyringe is x86_64 only)"))
    } else {
        Ok(())
    }
}

/// Whether an assembly file starts with the `MZ` header of a PE file.
pub open spec fn assembly_check(path: Seq<char>, bytes: Seq<u8>) -> Result<(), Seq<char>> {
    if bytes.len() < 2 || bytes[0] != 0x4d || bytes[1] != 0x5a {
        Err(path + " is not a PE/.NET assembly (no MZ header)"@)
    } else {
        Ok(())
    }
}

/// Refuses an assembly without the `MZ` header.
pub fn check_assembly(path: &str, bytes: &[u8]) -> (r: Result<(), String>)
    ensures
        match r {
            Ok(()) => assembly_check(path@, bytes@) is Ok,
            Err(e) => assembly_check(path@, bytes@) == Err::<(), Seq<char>>(e@),
        },
{
    if bytes.len() < 2 || bytes[0] != 0x4d || bytes[1] != 0x5a {
        let mut e = String::from_str(path);
        push_str(&mut e, " is not a PE/.NET assembly (no MZ header)");
        Err(e)
    } else {
        Ok(())
    }
}

/// Whether `path` lies on the mount at `mount`.
pub open spec fn under(path: Seq<char>, mount: Seq<char>) -> bool {
    mount == "/"@ || path == mount || starts_with(path, mount.push('/'))
}

/// Whether `path` lies on the mount at `mount`.
pub fn path_under(path: &str, mount: &str) -> (r: bool)
    ensures
        r == under(path@, mount@),
{
    let p = chars_of(path);
    let m = chars_of(mount);
    if same_chars(&m, &chars_of("/")) || same_chars(&p, &m) {
        return true;
    }
    let mut ms = m;
    ms.push('/');
    starts_with_exec(&p, &ms)
}

/// The `c`-separated fields of `s` from `pos` on (`split(c)`).
pub open spec fn fields_from(s: Seq<char>, c: char, pos: int) -> Seq<Seq<char>>
    decreases s.len() + 1 - pos,
{
    if pos < 0 || pos > s.len() {
        Seq::empty()
    } else {
        match find_char(s, c, pos) {
            Some(i) => {
                proof {
                    lemma_find_char(s, c, pos);
                }
                seq![s.subrange(pos, i)] + fields_from(s, c, i + 1)
            },
            None => seq![s.subrange(pos, s.len() as int)],
        }
    }
}

/// The `c`-separated fields of `s`.
pub open spec fn fields(s: Seq<char>, c: char) -> Seq<Seq<char>> {
    fields_from(s, c, 0)
}

/// The mount that decides for `path` among mountinfo lines: the last of the longest (in
/// bytes) mount points that `path` lies under; `noexec` tells whether its options forbid
/// running programs.
pub open spec fn noexec_from(lines: Seq<Seq<char>>, path: Seq<char>, best: nat, noexec: bool) -> bool
    decreases lines.len(),
{
    if lines.len() == 0 {
        noexec
    } else {
        let f = fields(lines[0], ' ');
        let rest = lines.drop_first();
        if f.len() >= 6 && under(path, f[4]) && utf8_width(f[4]) >= best {
            noexec_from(rest, path, utf8_width(f[4]), fields(f[5], ',').contains("noexec"@))
        } else {
            noexec_from(rest, path, best, noexec)
        }
    }
}

/// Whether the mount holding `path` forbids running programs, from a mountinfo text.
pub open spec fn noexec_at(mountinfo: Seq<char>, path: Seq<char>) -> bool {
    noexec_from(maps_lines(mountinfo), path, 0, false)
}

/// The end of the field of `v[base..to]` that starts at `from`, split at `c`.
fn field_end(v: &[char], c: char, base: usize, from: usize, to: usize) -> (r: usize)
    requires
        base <= from <= to <= v@.len(),
    ensures
        from <= r <= to,
        match find_char(v@.subrange(base as int, to as int), c, from - base) {
            Some(i) => r == i + base,
            None => r == to,
        },
{
    let ghost s = v@.subrange(base as int, to as int);
    let mut i = from;
    while i < to && v[i] != c
        invariant
            base <= from <= i <= to <= v@.len(),
            s == v@.subrange(base as int, to as int),
            find_char(s, c, from - base) == find_char(s, c, i - base),
        decreases to - i,
    {
        assert(s[i - base] == v@[i as int]);
        i = i + 1;
    }
    if i < to {
        assert(s[i - base] == v@[i as int]);
    }
    i
}

/// The fields of `v[from..to]` split at `c`, as bounds into `v`.
fn split_fields(v: &[char], c: char, from: usize, to: usize) -> (r: Vec<(usize, usize)>)
    requires
        from <= to <= v@.len(),
    ensures
        r@.len() == fields(v@.subrange(from as int, to as int), c).len(),
        forall|k: int|
            0 <= k < r@.len() ==> (#[trigger] r@[k]).0 <= r@[k].1 <= to && from <= r@[k].0 && v@.subrange(
                r@[k].0 as int,
                r@[k].1 as int,
            ) == fields(v@.subrange(from as int, to as int), c)[k],
{
    let ghost s = v@.subrange(from as int, to as int);
    let mut out: Vec<(usize, usize)> = Vec::new();
    let mut pos = from;
    loop
        invariant
            from <= pos <= to <= v@.len(),
            s == v@.subrange(from as int, to as int),
            fields(s, c) == out@.map_values(|b: (usize, usize)| v@.subrange(b.0 as int, b.1 as int))
                + fields_from(s, c, pos - from),
            forall|k: int|
                0 <= k < out@.len() ==> (#[trigger] out@[k]).0 <= out@[k].1 <= to && from <= out@[k].0,
        decreases to - pos,
    {
        let e = field_end(v, c, from, pos, to);
        proof {
            lemma_find_char(s, c, pos - from);
        }
        let ghost before = out@.map_values(|b: (usize, usize)| v@.subrange(b.0 as int, b.1 as int));
        out.push((pos, e));
        assert(out@.map_values(|b: (usize, usize)| v@.subrange(b.0 as int, b.1 as int)) =~= before.push(
            v@.subrange(pos as int, e as int),
        ));
        if e == to {
            proof {
                assert(find_char(s, c, pos - from) is None);
                assert(s.subrange(pos - from, s.len() as int) =~= v@.subrange(pos as int, e as int));
                assert(fields_from(s, c, pos - from) == seq![v@.subrange(pos as int, e as int)]);
                assert(before.push(v@.subrange(pos as int, e as int)) =~= before + seq![v@.subrange(pos as int, e as int)]);
                assert forall|k: int| 0 <= k < out@.len() implies v@.subrange(
                    (#[trigger] out@[k]).0 as int,
                    out@[k].1 as int,
                ) == fields(s, c)[k] by {
                    assert(out@.map_values(|b: (usize, usize)| v@.subrange(b.0 as int, b.1 as int))[k]
                        == v@.subrange(out@[k].0 as int, out@[k].1 as int));
                }
            }
            return out;
        }
        proof {
            assert(find_char(s, c, pos - from) == Some(e - from));
            assert(s.subrange(pos - from, e - from) =~= v@.subrange(pos as int, e as int));
            assert(fields_from(s, c, pos - from) == seq![v@.subrange(pos as int, e as int)] + fields_from(s, c, e + 1 - from));
            assert(before + fields_from(s, c, pos - from) =~= before.push(v@.subrange(pos as int, e as int))
                + fields_from(s, c, e + 1 - from));
        }
        pos = e + 1;
    }
}

/// The length in bytes of the UTF-8 encoding of `s`.
pub open spec fn utf8_width(s: Seq<char>) -> nat
    decreases s.len(),
{
    if s.len() == 0 {
        0
    } else {
        let c = s.last() as u32;
        utf8_width(s.drop_last()) + if c <= 0x7f {
            1nat
        } else if c <= 0x7ff {
            2nat
        } else if c <= 0xffff {
            3nat
        } else {
            4nat
        }
    }
}

fn width_of(v: &[char]) -> (r: u128)
    ensures
        r == utf8_width(v@),
{
    let mut w: u128 = 0;
    let mut i: usize = 0;
    while i < v.len()
        invariant
            i <= v@.len(),
            w == utf8_width(v@.take(i as int)),
            w <= 4 * i,
        decreases v@.len() - i,
    {
        assert(v@.take(i + 1).drop_last() =~= v@.take(i as int));
        let c = v[i] as u32;
        w = w + if c <= 0x7f {
            1
        } else if c <= 0x7ff {
            2
        } else if c <= 0xffff {
            3
        } else {
            4
        };
        i = i + 1;
    }
    assert(v@.take(v@.len() as int) =~= v@);
    w
}

/// Whether the mount holding `path` forbids running programs, from the target's
/// `/proc/PID/mountinfo` text.
pub fn mount_noexec(mountinfo: &str, path: &str) -> (r: bool)
    ensures
        r == noexec_at(mountinfo@, path@),
{
    let v = chars_of(mountinfo);
    let noexec_word = chars_of("noexec");
    let mut best: u128 = 0;
    let mut noexec = false;
    let mut pos: usize = 0;
    while pos < v.len()
        invariant
            pos <= v@.len(),
            v@ == mountinfo@,
            noexec_word@ == "noexec"@,
            noexec_at(mountinfo@, path@) == noexec_from(lines_from(v@, pos as int), path@, best as nat, noexec),
        decreases v@.len() - pos,
    {
        let (a, b, next) = next_line(&v, pos);
        let line = &v[a..b];
        let ghost rest = lines_from(v@, next as int);
        assert(lines_from(v@, pos as int) == seq![line@] + rest);
        assert((seq![line@] + rest).drop_first() =~= rest);
        assert(line@.subrange(0, line@.len() as int) =~= line@);
        let ghost fl = fields(line@, ' ');
        let f = split_fields(line, ' ', 0, line.len());
        if f.len() >= 6 {
            let (ma, mb) = f[4];
            assert(line@.subrange(ma as int, mb as int) == fl[4]);
            let mount = string_of(line, ma, mb);
            let w = width_of(&line[ma..mb]);
            if path_under(path, mount.as_str()) && w >= best {
                best = w;
                let (oa, ob) = f[5];
                assert(line@.subrange(oa as int, ob as int) == fl[5]);
                let ghost ol = fields(fl[5], ',');
                let opts = split_fields(line, ',', oa, ob);
                let mut found = false;
                let mut k: usize = 0;
                while k < opts.len()
                    invariant
                        k <= opts@.len(),
                        oa <= ob <= line@.len(),
                        noexec_word@ == "noexec"@,
                        ol == fields(line@.subrange(oa as int, ob as int), ','),
                        opts@.len() == ol.len(),
                        forall|j: int|
                            0 <= j < opts@.len() ==> (#[trigger] opts@[j]).0 <= opts@[j].1 <= ob && oa <= opts@[j].0
                                && line@.subrange(opts@[j].0 as int, opts@[j].1 as int) == ol[j],
                        found == exists|j: int| 0 <= j < k && #[trigger] ol[j] == "noexec"@,
                    decreases opts@.len() - k,
                {
                    let (xa, xb) = opts[k];
                    let w = &line[xa..xb];
                    assert(w@ == ol[k as int]);
                    let ghost before = found;
                    if same_chars(w, &noexec_word) {
                        found = true;
                    }
                    proof {
                        if ol[k as int] == "noexec"@ {
                            assert(exists|j: int| 0 <= j < k + 1 && #[trigger] ol[j] == "noexec"@);
                        }
                        if before {
                            let j0 = choose|j: int| 0 <= j < k && #[trigger] ol[j] == "noexec"@;
                            assert(0 <= j0 < k + 1 && ol[j0] == "noexec"@);
                        }
                        if exists|j: int| 0 <= j < k + 1 && #[trigger] ol[j] == "noexec"@ {
                            let j0 = choose|j: int| 0 <= j < k + 1 && #[trigger] ol[j] == "noexec"@;
                            if j0 < k {
                                assert(before);
                            }
                        }
                    }
                    k = k + 1;
                }
                proof {
                    if found {
                        let j0 = choose|j: int| 0 <= j < k && #[trigger] ol[j] == "noexec"@;
                        assert(ol.contains("noexec"@));
                    }
                    if ol.contains("noexec"@) {
                        let j0 = choose|j: int| 0 <= j < ol.len() && ol[j] == "noexec"@;
                        assert(ol[j0] == "noexec"@);
                    }
                }
                noexec = found;
            }
        }
        pos = next;
    }
    noexec
}

/// Where the helper library is staged in `dir` for the target `pid`: its path as the target
/// sees it, and as the injector writes it (through the target's root).
pub open spec fn stage_paths_of(dir: Seq<char>, pid: i32) -> (Seq<char>, Seq<char>) {
    let in_target = dir + "/.zyringe-"@ + signed_decimal(pid as int) + ".so"@;
    (in_target, "/proc/"@ + signed_decimal(pid as int) + "/root"@ + in_target)
}

/// The staged helper's path in the target and through its root, for a directory.
pub fn stage_paths(dir: &str, pid: i32) -> (r: (String, String))
    ensures
        (r.0@, r.1@) == stage_paths_of(dir@, pid),
{
    let mut t = String::from_str(dir);
    push_str(&mut t, "/.zyringe-");
    push_signed(&mut t, pid as i64);
    push_str(&mut t, ".so");
    let mut h = String::from_str("/proc/");
    push_signed(&mut h, pid as i64);
    push_str(&mut h, "/root");
    push_str(&mut h, t.as_str());
    (t, h)
}

/// The directories tried, in order, for staging the helper: `/tmp`, `/dev/shm` and the
/// target's executable directory when their mounts allow running programs, then `/tmp`
/// whatever its mount says.
pub open spec fn stage_dirs_of(tmp_noexec: bool, shm_noexec: bool, exe_dir: Option<(Seq<char>, bool)>) -> Seq<Seq<char>> {
    (if tmp_noexec {
        Seq::empty()
    } else {
        seq!["/tmp"@]
    }) + (if shm_noexec {
        Seq::empty()
    } else {
        seq!["/dev/shm"@]
    }) + (match exe_dir {
        Some((d, ne)) => if ne {
            Seq::empty()
        } else {
            seq![d]
        },
        None => Seq::empty(),
    }) + seq!["/tmp"@]
}

/// The directories to try for staging the helper, given which mounts forbid running
/// programs (and the target's executable directory, if known, with its verdict).
pub fn stage_dirs(tmp_noexec: bool, shm_noexec: bool, exe_dir: Option<(String, bool)>) -> (r: Vec<String>)
    ensures
        strings_view(r@) == stage_dirs_of(
            tmp_noexec,
            shm_noexec,
            match exe_dir {
                Some((d, ne)) => Some((d@, ne)),
                None => None,
            },
        ),
{
    let mut v: Vec<String> = Vec::new();
    if !tmp_noexec {
        v.push(String::from_str("/tmp"));
    }
    if !shm_noexec {
        v.push(String::from_str("/dev/shm"));
    }
    let ghost before = strings_view(v@);
    let ghost exe_view = match &exe_dir {
        Some((d, ne)) => Some((d@, *ne)),
        None => None::<(Seq<char>, bool)>,
    };
    if let Some((d, ne)) = exe_dir {
        if !ne {
            v.push(d);
        }
    }
    v.push(String::from_str("/tmp"));
    proof {
        let a: Seq<Seq<char>> = if tmp_noexec { Seq::empty() } else { seq!["/tmp"@] };
        let b: Seq<Seq<char>> = if shm_noexec { Seq::empty() } else { seq!["/dev/shm"@] };
        assert(before =~= a + b);
        let c: Seq<Seq<char>> = match exe_view {
            Some((d, ne)) => if ne { Seq::empty() } else { seq![d] },
            None => Seq::empty(),
        };
        assert(strings_view(v@) =~= a + b + c + seq!["/tmp"@]);
    }
    v
}


proof fn lemma_read_arg_flags(x: Seq<Seq<char>>, a: Seq<Seq<char>>, t: Seq<Seq<char>>, st: ArgsSoFar)
    ensures
        read_from(x + arg_flags(a) + t, x.len() as int, st) == read_from(
            x + arg_flags(a) + t,
            x.len() + 2 * a.len() as int,
            ArgsSoFar { args: st.args + a, ..st },
        ),
    decreases a.len(),
{
    let s = x + arg_flags(a) + t;
    if a.len() == 0 {
        assert(st.args + a =~= st.args);
    } else {
        reveal_strlit("-h");
        reveal_strlit("--help");
        reveal_strlit("--pid");
        reveal_strlit("--so");
        reveal_strlit("--dll");
        reveal_strlit("--namespace");
        reveal_strlit("--class");
        reveal_strlit("--method");
        reveal_strlit("--arg");
        reveal_strlit("--timeout");
        reveal_strlit("--cancel-flag");
        let a1 = a.drop_last();
        let last = a.last();
        let t1 = seq!["--arg"@, last] + t;
        assert(s =~= x + arg_flags(a1) + t1);
        lemma_read_arg_flags(x, a1, t1, st);
        let j: int = x.len() + 2 * a1.len() as int;
        assert(arg_flags(a1).len() == 2 * a1.len()) by {
            lemma_arg_flags_len(a1);
        }
        assert(s[j] == "--arg"@);
        assert(s[j + 1] == last);
        assert("--arg"@[2] != "--pid"@[2]);
        assert("--arg"@[2] != "--dll"@[2]);
        assert("--arg"@ != "--pid"@);
        assert("--arg"@ != "--dll"@);
        let st1 = ArgsSoFar { args: st.args + a1, ..st };
        assert(read_from(s, j, st1) == read_from(s, j + 2, ArgsSoFar { args: st1.args.push(last), ..st1 }));
        assert(st1.args.push(last) =~= st.args + a);
    }
}

proof fn lemma_arg_flags_len(a: Seq<Seq<char>>)
    ensures
        arg_flags(a).len() == 2 * a.len(),
    decreases a.len(),
{
    if a.len() > 0 {
        lemma_arg_flags_len(a.drop_last());
    }
}

proof fn lemma_read_cancel_flag(s: Seq<Seq<char>>, i: int, st: ArgsSoFar)
    requires
        0 <= i,
        i + 1 < s.len(),
        s[i] == "--cancel-flag"@,
    ensures
        read_from(s, i, st) == read_from(s, i + 2, ArgsSoFar { cancel: Some(s[i + 1]), ..st }),
{
    reveal_strlit("-h");
    reveal_strlit("--help");
    reveal_strlit("--pid");
    reveal_strlit("--so");
    reveal_strlit("--dll");
    reveal_strlit("--namespace");
    reveal_strlit("--class");
    reveal_strlit("--method");
    reveal_strlit("--arg");
    reveal_strlit("--timeout");
    reveal_strlit("--cancel-flag");
    assert(s[i].len() == 13);
}

/// The injector reads back every request it is started for: the command line that
/// `inject_argv` builds (less the program name) parses to the request's pid, helper,
/// assembly, namespace, class, method, arguments, timeout and cancel flag (none when it
/// was given none).
#[verifier::rlimit(60)]
#[verifier::spinoff_prover]
pub proof fn lemma_inject_argv_parses_back(
    req: InjectRequest,
    bin: Seq<char>,
    cancel_flag: Option<Seq<char>>,
    helper: Seq<char>,
)
    ensures
        command_of(inject_argv_of(req, bin, cancel_flag, helper).drop_first()) == Ok::<
            Option<ArgsSoFar>,
            Seq<char>,
        >(
            Some(
                ArgsSoFar {
                    pid: Some(req.pid),
                    so: Some(helper),
                    dll: Some(req.dll_path@),
                    namespace: req.namespace@,
                    class: Some(req.class_name@),
                    method: Some(req.method@),
                    args: strings_view(req.args@),
                    timeout: req.timeout_secs,
                    cancel: cancel_flag,
                },
            ),
        ),
{
    reveal_strlit("-h");
    reveal_strlit("--help");
    reveal_strlit("--pid");
    reveal_strlit("--so");
    reveal_strlit("--dll");
    reveal_strlit("--namespace");
    reveal_strlit("--class");
    reveal_strlit("--method");
    reveal_strlit("--arg");
    reveal_strlit("--timeout");
    reveal_strlit("--cancel-flag");
    let pid_text = signed_decimal(req.pid as int);
    let lead = seq!["--pid"@, pid_text] + crate::injector::cancel_flag_args(cancel_flag);
    let fixed = lead + seq![
        "--so"@,
        helper,
        "--dll"@,
        req.dll_path@,
        "--namespace"@,
        req.namespace@,
        "--class"@,
        req.class_name@,
        "--method"@,
        req.method@,
    ];
    let a = strings_view(req.args@);
    let tail: Seq<Seq<char>> = match req.timeout_secs {
        Some(t) => seq!["--timeout"@, decimal(t as nat)],
        None => Seq::empty(),
    };
    let s = inject_argv_of(req, bin, cancel_flag, helper).drop_first();
    assert(s =~= fixed + arg_flags(a) + tail);
    lemma_arg_flags_len(a);
    crate::num::lemma_parse_signed_decimal(req.pid);
    let st0 = nothing_read();
    let st1 = ArgsSoFar { pid: Some(req.pid), ..st0 };
    let st2 = ArgsSoFar { cancel: cancel_flag, ..st1 };
    let k: int = lead.len() as int;
    assert(s[0] == "--pid"@ && s[1] == pid_text);
    assert(read_from(s, 0, st0) == read_from(s, 2, st1));
    match cancel_flag {
        Some(f) => {
            assert(k == 4);
            assert(s[2] == "--cancel-flag"@ && s[3] == f);
            lemma_read_cancel_flag(s, 2, st1);
        },
        None => {
            assert(k == 2);
            assert(st2 == st1);
        },
    }
    assert(read_from(s, 0, st0) == read_from(s, k, st2));
    let st3 = ArgsSoFar { so: Some(helper), ..st2 };
    let st4 = ArgsSoFar { dll: Some(req.dll_path@), ..st3 };
    let st5 = ArgsSoFar { namespace: req.namespace@, ..st4 };
    let st6 = ArgsSoFar { class: Some(req.class_name@), ..st5 };
    let st7 = ArgsSoFar { method: Some(req.method@), ..st6 };
    assert(s[k] == "--so"@ && s[k + 1] == helper);
    assert(s[k + 2] == "--dll"@ && s[k + 3] == req.dll_path@);
    assert(s[k + 4] == "--namespace"@ && s[k + 5] == req.namespace@);
    assert(s[k + 6] == "--class"@ && s[k + 7] == req.class_name@);
    assert(s[k + 8] == "--method"@ && s[k + 9] == req.method@);
    assert("--dll"@[2] != "--pid"@[2]);
    assert("--dll"@ != "--pid"@);
    assert(read_from(s, k, st2) == read_from(s, k + 2, st3));
    assert(read_from(s, k + 2, st3) == read_from(s, k + 4, st4));
    assert(read_from(s, k + 4, st4) == read_from(s, k + 6, st5));
    assert(read_from(s, k + 6, st5) == read_from(s, k + 8, st6));
    assert(read_from(s, k + 8, st6) == read_from(s, k + 10, st7));
    lemma_read_arg_flags(fixed, a, tail, st7);
    let st8 = ArgsSoFar { args: st7.args + a, ..st7 };
    let j: int = k + 10 + 2 * a.len() as int;
    assert(st7.args + a =~= a);
    match req.timeout_secs {
        Some(t) => {
            crate::num::lemma_parse_decimal(t as nat, u32::MAX as nat);
            assert(s[j] == "--timeout"@);
            assert(s[j + 1] == decimal(t as nat));
            let st9 = ArgsSoFar { timeout: Some(t), ..st8 };
            assert(read_from(s, j, st8) == read_from(s, j + 2, st9));
            assert(read_from(s, j + 2, st9) == Ok::<Option<ArgsSoFar>, Seq<char>>(Some(st9)));
        },
        None => {
            assert(read_from(s, j, st8) == Ok::<Option<ArgsSoFar>, Seq<char>>(Some(st8)));
        },
    }
}

} // verus!
