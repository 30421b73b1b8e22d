//! Requests to inject a mod into a running game or to launch a game with it preloaded: the
//! command line handed to the privileged injector, and how its outcome is reported.
use vstd::prelude::*;
use crate::json::{json_object_bytes, json_object_text};
use crate::num::{decimal, push_decimal, push_signed, signed_decimal};
use crate::path::{joined_path, join_path, parent_of, path_parent};
use crate::text::{
    strings_view,
    chars_of, contains, contains_exec, find_exec, find_from, lemma_find_from, string_all,
    string_of, trim, trim_bounds, push_str, text_result,
};

verus! {

/// A request to inject an assembly into a running process.
#[derive(Debug, Clone)]
pub struct InjectRequest {
    pub pid: i32,
    pub dll_path: String,
    pub namespace: String,
    pub class_name: String,
    pub method: String,
    pub args: Vec<String>,
    pub timeout_secs: Option<u32>,
}

/// A request to start a game with the helper preloaded.
#[derive(Debug, Clone)]
pub struct LaunchRequest {
    pub exe_path: String,
    pub dll_path: String,
    pub namespace: String,
    pub class_name: String,
    pub method: String,
    pub working_dir: Option<String>,
}

/// `Err("<what> not found: <path>")` unless the file exists.
pub open spec fn found_or(what: Seq<char>, path: Seq<char>, exists: bool) -> Result<(), Seq<char>> {
    if exists {
        Ok(())
    } else {
        Err(what + " not found: "@ + path)
    }
}

/// The view of a result whose error is a string.
pub open spec fn unit_result(r: Result<(), String>) -> Result<(), Seq<char>> {
    match r {
        Ok(()) => Ok(()),
        Err(e) => Err(e@),
    }
}

fn not_found(what: &str, path: &str) -> (r: String)
    ensures
        r@ == what@ + " not found: "@ + path@,
{
    let mut s = String::new();
    push_str(&mut s, what);
    push_str(&mut s, " not found: ");
    push_str(&mut s, path);
    assert(s@ =~= what@ + " not found: "@ + path@);
    s
}

/// Refuses an assembly path that is no file.
pub fn validate_dll(path: &str, is_file: bool) -> (r: Result<(), String>)
    ensures
        unit_result(r) == found_or("DLL"@, path@, is_file),
{
    if is_file {
        Ok(())
    } else {
        Err(not_found("DLL", path))
    }
}

/// Refuses an executable path that is no file.
pub fn check_executable(exe_path: &str, is_file: bool) -> (r: Result<(), String>)
    ensures
        unit_result(r) == found_or("Executable"@, exe_path@, is_file),
{
    if is_file {
        Ok(())
    } else {
        Err(not_found("Executable", exe_path))
    }
}

/// The name of the file whose existence asks the injector for `pid` to stop.
pub open spec fn cancel_flag_name(pid: i32) -> Seq<char> {
    "zyringe-cancel-"@ + signed_decimal(pid as int)
}

/// Where the cancel flag for `pid` lives inside the runtime directory `dir`.
pub fn cancel_flag_path(dir: &str, pid: i32) -> (r: String)
    ensures
        r@ == joined_path(dir@, cancel_flag_name(pid)),
{
    let mut name = String::new();
    push_str(&mut name, "zyringe-cancel-");
    push_signed(&mut name, pid as i64);
    join_path(dir, name.as_str())
}

/// The cancel flag for `pid`, kept in the user's private runtime directory: `runtime_dir` is
/// `$XDG_RUNTIME_DIR` where it is set, and `is_dir` tells whether it names a directory.
/// Without such a directory there is no cancel flag: a shared directory such as `/tmp` is
/// never used for it.
pub fn cancel_flag_for(runtime_dir: Option<String>, is_dir: bool, pid: i32) -> (r: Option<String>)
    ensures
        match runtime_dir {
            Some(d) => if is_dir {
                r matches Some(p) && p@ == joined_path(d@, cancel_flag_name(pid))
            } else {
                r is None
            },
            None => r is None,
        },
{
    match runtime_dir {
        Some(d) => if is_dir {
            Some(cancel_flag_path(d.as_str(), pid))
        } else {
            None
        },
        None => None,
    }
}

/// The `--arg` pairs for `args`.
pub open spec fn arg_flags(args: Seq<Seq<char>>) -> Seq<Seq<char>>
    decreases args.len(),
{
    if args.len() == 0 {
        Seq::empty()
    } else {
        arg_flags(args.drop_last()) + seq!["--arg"@, args.last()]
    }
}

/// The `--cancel-flag` pair, when the injector is given a cancel flag.
pub open spec fn cancel_flag_args(cancel_flag: Option<Seq<char>>) -> Seq<Seq<char>> {
    match cancel_flag {
        Some(f) => seq!["--cancel-flag"@, f],
        None => Seq::empty(),
    }
}

/// The arguments handed to `pkexec` to run the injector `bin` for a request.
pub open spec fn inject_argv_of(
    req: InjectRequest,
    bin: Seq<char>,
    cancel_flag: Option<Seq<char>>,
    helper: Seq<char>,
) -> Seq<Seq<char>> {
    seq![bin, "--pid"@, signed_decimal(req.pid as int)] + cancel_flag_args(cancel_flag) + seq![
        "--so"@,
        helper,
        "--dll"@,
        req.dll_path@,
        "--namespace"@,
        req.namespace@,
        "--class"@,
        req.class_name@,
        "--method"@,
        req.method@,
    ] + arg_flags(strings_view(req.args@)) + match req.timeout_secs {
        Some(t) => seq!["--timeout"@, decimal(t as nat)],
        None => Seq::empty(),
    }
}

fn text(s: &str) -> (r: String)
    ensures
        r@ == s@,
{
    String::from_str(s)
}

/// The command line (after `pkexec`) that runs the injector for `req`.
pub fn inject_argv(req: &InjectRequest, bin: &str, cancel_flag: Option<&str>, helper: &str) -> (r: Vec<String>)
    ensures
        strings_view(r@) == inject_argv_of(
            *req,
            bin@,
            match cancel_flag {
                Some(f) => Some(f@),
                None => None,
            },
            helper@,
        ),
{
    let ghost flag = match cancel_flag {
        Some(f) => Some(f@),
        None => None::<Seq<char>>,
    };
    let mut v: Vec<String> = Vec::new();
    v.push(text(bin));
    v.push(text("--pid"));
    let mut pid = String::new();
    push_signed(&mut pid, req.pid as i64);
    assert(pid@ =~= signed_decimal(req.pid as int));
    v.push(pid);
    let ghost start = strings_view(v@);
    assert(start =~= seq![bin@, "--pid"@, signed_decimal(req.pid as int)]);
    if let Some(f) = cancel_flag {
        v.push(text("--cancel-flag"));
        v.push(text(f));
        assert(strings_view(v@) =~= start + cancel_flag_args(flag));
    } else {
        assert(strings_view(v@) =~= start + cancel_flag_args(flag));
    }
    let ghost lead = strings_view(v@);
    v.push(text("--so"));
    v.push(text(helper));
    v.push(text("--dll"));
    v.push(text(req.dll_path.as_str()));
    v.push(text("--namespace"));
    v.push(text(req.namespace.as_str()));
    v.push(text("--class"));
    v.push(text(req.class_name.as_str()));
    v.push(text("--method"));
    v.push(text(req.method.as_str()));
    let ghost head = strings_view(v@);
    assert(head =~= lead + seq![
        "--so"@,
        helper@,
        "--dll"@,
        req.dll_path@,
        "--namespace"@,
        req.namespace@,
        "--class"@,
        req.class_name@,
        "--method"@,
        req.method@,
    ]);
    let ghost all_args = strings_view(req.args@);
    let mut i: usize = 0;
    while i < req.args.len()
        invariant
            i <= req.args@.len(),
            all_args == strings_view(req.args@),
            strings_view(v@) == head + arg_flags(all_args.take(i as int)),
        decreases req.args@.len() - i,
    {
        let ghost old_view = strings_view(v@);
        v.push(text("--arg"));
        v.push(text(req.args[i].as_str()));
        proof {
            assert(strings_view(v@) =~= old_view + seq!["--arg"@, req.args@[i as int]@]);
            assert(all_args.take(i + 1).drop_last() =~= all_args.take(i as int));
            assert(all_args.take(i + 1).last() == req.args@[i as int]@);
            assert(strings_view(v@) =~= head + arg_flags(all_args.take(i + 1)));
        }
        i = i + 1;
    }
    assert(all_args.take(req.args@.len() as int) =~= all_args);
    let ghost before = strings_view(v@);
    if let Some(t) = req.timeout_secs {
        v.push(text("--timeout"));
        let mut secs = String::new();
        push_decimal(&mut secs, t as u64);
        assert(secs@ =~= decimal(t as nat));
        v.push(secs);
        assert(strings_view(v@) =~= before + seq!["--timeout"@, decimal(t as nat)]);
    } else {
        assert(strings_view(v@) =~= before + Seq::<Seq<char>>::empty());
    }
    v
}

/// How an injector run that exited with `code` (none when a signal ended it) is reported.
pub open spec fn run_outcome(code: Option<i32>) -> Result<(), Seq<char>> {
    match code {
        Some(c) => if c == 0 {
            Ok(())
        } else if c == 126 || c == 127 {
            Err("Elevation was cancelled or not authorized (pkexec)."@)
        } else {
            Err("Injection failed (exit code "@ + signed_decimal(c as int) + ")."@)
        },
        None => Err("Injection process terminated by signal."@),
    }
}

/// Reports the end of an injector run from its exit code.
pub fn streaming_outcome(code: Option<i32>) -> (r: Result<(), String>)
    ensures
        unit_result(r) == run_outcome(code),
{
    match code {
        Some(c) => if c == 0 {
            Ok(())
        } else if c == 126 || c == 127 {
            Err(text("Elevation was cancelled or not authorized (pkexec)."))
        } else {
            let mut s = String::new();
            push_str(&mut s, "Injection failed (exit code ");
            push_signed(&mut s, c as i64);
            push_str(&mut s, ").");
            Err(s)
        },
        None => Err(text("Injection process terminated by signal.")),
    }
}

/// What one line of a launched game's output says of the mod: loaded (`invoked` and ` OK`),
/// failed (the text after `preload:`, trimmed), or nothing.
pub open spec fn launch_line(line: Seq<char>) -> Option<Result<(), Seq<char>>> {
    if contains(line, "invoked"@) && contains(line, " OK"@) {
        Some(Ok(()))
    } else {
        match find_from(line, "preload:"@, 0) {
            Some(i) => Some(Err(trim(line.skip(i + 8)))),
            None => None,
        }
    }
}

/// Reads one line of a launched game's output for the mod's verdict.
pub fn scan_launch_line(line: &str) -> (r: Option<Result<(), String>>)
    ensures
        match r {
            Some(res) => launch_line(line@) == Some(unit_result(res)),
            None => launch_line(line@) is None,
        },
{
    let v = chars_of(line);
    let vl = v.len();
    if contains_exec(&v, &chars_of("invoked")) && contains_exec(&v, &chars_of(" OK")) {
        return Some(Ok(()));
    }
    let needle = chars_of("preload:");
    assert(needle@.len() == 8) by {
        reveal_strlit("preload:");
    }
    proof {
        lemma_find_from(v@, needle@, 0);
    }
    match find_exec(&v, &needle, 0) {
        Some(i) => {
            let (a, b) = trim_bounds(&v, i + 8, vl);
            assert(v@.subrange(i + 8, v@.len() as int) =~= v@.skip(i + 8));
            Some(Err(string_of(&v, a, b)))
        },
        None => None,
    }
}

/// How waiting for a launched game's verdict ended.
#[derive(Debug, Clone)]
pub enum LaunchWait {
    Loaded,
    Failed(String),
    TimedOut,
    Exited,
}

/// How a launch is reported for each way the wait ended.
pub open spec fn launch_report(w: LaunchWait) -> Result<(), Seq<char>> {
    match w {
        LaunchWait::Loaded => Ok(()),
        LaunchWait::Failed(e) => Err("Mod failed to load — "@ + e@),
        LaunchWait::TimedOut => Err(
            "Game launched, but the mod hasn't reported back yet (still loading?). Check the Helper log."@,
        ),
        LaunchWait::Exited => Err(
            "Game exited before the mod loaded, or it produced no result. Check the Helper log."@,
        ),
    }
}

/// Reports a launch from how the wait for its verdict ended.
pub fn launch_outcome(w: LaunchWait) -> (r: Result<(), String>)
    ensures
        unit_result(r) == launch_report(w),
{
    match w {
        LaunchWait::Loaded => Ok(()),
        LaunchWait::Failed(e) => {
            let mut s = text("Mod failed to load — ");
            push_str(&mut s, e.as_str());
            Err(s)
        },
        LaunchWait::TimedOut => Err(
            text(
                "Game launched, but the mod hasn't reported back yet (still loading?). Check the Helper log.",
            ),
        ),
        LaunchWait::Exited => Err(
            text(
                "Game exited before the mod loaded, or it produced no result. Check the Helper log.",
            ),
        ),
    }
}

/// The directory a preloaded game starts in: the one asked for, else the executable's.
pub open spec fn workdir_of(working_dir: Option<Seq<char>>, exe: Seq<char>) -> Result<Seq<char>, Seq<char>> {
    match working_dir {
        Some(d) => Ok(d),
        None => match path_parent(exe) {
            Some(p) => Ok(p),
            None => Err("Could not determine working directory"@),
        },
    }
}

/// Chooses the directory a preloaded game starts in.
pub fn launch_workdir(working_dir: Option<String>, exe_path: &str) -> (r: Result<String, String>)
    ensures
        text_result(r) == workdir_of(
            match working_dir {
                Some(d) => Some(d@),
                None => None,
            },
            exe_path@,
        ),
{
    match working_dir {
        Some(d) => Ok(d),
        None => match parent_of(exe_path) {
            Some(p) => Ok(p),
            None => Err(text("Could not determine working directory")),
        },
    }
}


/// Where the helper library may be found, in the order tried (after an explicit
/// `ZYRINGE_HELPER_SO`): the bundled resource, the development build directories beside the
/// program, the program's own directory, the system install, and a relative `helper/`.
pub open spec fn helper_candidates_of(resource: Option<Seq<char>>, exe_dir: Option<Seq<char>>) -> Seq<Seq<char>> {
    (match resource {
        Some(r) => seq![r],
        None => Seq::empty(),
    }) + (match exe_dir {
        Some(d) => seq![
            joined_path(d, "../../helper/libzyringe.so"@),
            joined_path(d, "../../../helper/libzyringe.so"@),
            joined_path(d, "libzyringe.so"@),
        ],
        None => Seq::empty(),
    }) + seq!["/usr/lib/zyringe/libzyringe.so"@, "helper/libzyringe.so"@]
}

/// The places to look for the helper library, in order; the first that exists is used.
pub fn helper_candidates(resource: Option<String>, exe_dir: Option<String>) -> (r: Vec<String>)
    ensures
        strings_view(r@) == helper_candidates_of(
            match resource {
                Some(x) => Some(x@),
                None => None,
            },
            match exe_dir {
                Some(x) => Some(x@),
                None => None,
            },
        ),
{
    let ghost rv = match &resource {
        Some(x) => Some(x@),
        None => None::<Seq<char>>,
    };
    let ghost dv = match &exe_dir {
        Some(x) => Some(x@),
        None => None::<Seq<char>>,
    };
    let mut v: Vec<String> = Vec::new();
    if let Some(r) = resource {
        v.push(r);
    }
    let ghost a = strings_view(v@);
    if let Some(d) = &exe_dir {
        v.push(join_path(d.as_str(), "../../helper/libzyringe.so"));
        v.push(join_path(d.as_str(), "../../../helper/libzyringe.so"));
        v.push(join_path(d.as_str(), "libzyringe.so"));
    }
    let ghost b = strings_view(v@);
    v.push(text("/usr/lib/zyringe/libzyringe.so"));
    v.push(text("helper/libzyringe.so"));
    proof {
        let ra: Seq<Seq<char>> = match rv {
            Some(r) => seq![r],
            None => Seq::empty(),
        };
        let da: Seq<Seq<char>> = match dv {
            Some(d) => seq![
                joined_path(d, "../../helper/libzyringe.so"@),
                joined_path(d, "../../../helper/libzyringe.so"@),
                joined_path(d, "libzyringe.so"@),
            ],
            None => Seq::empty(),
        };
        assert(a =~= ra);
        assert(b =~= ra + da);
        assert(strings_view(v@) =~= ra + da + seq!["/usr/lib/zyringe/libzyringe.so"@, "helper/libzyringe.so"@]);
    }
    v
}

/// Where the injector program may be found, in the order tried (after an explicit
/// `ZYRINGE_INJECT_BIN`): the bundled resource, the program's own directory, the system
/// install, and the development build outputs.
pub open spec fn inject_bin_candidates_of(resource: Option<Seq<char>>, exe_dir: Option<Seq<char>>) -> Seq<Seq<char>> {
    (match resource {
        Some(r) => seq![r],
        None => Seq::empty(),
    }) + (match exe_dir {
        Some(d) => seq![joined_path(d, "zyringe-inject"@)],
        None => Seq::empty(),
    }) + seq![
        "/usr/lib/zyringe/zyringe-inject"@,
        "target/debug/zyringe-inject"@,
        "target/release/zyringe-inject"@,
    ]
}

/// The places to look for the injector program, in order; the first that exists is used.
pub fn inject_bin_candidates(resource: Option<String>, exe_dir: Option<String>) -> (r: Vec<String>)
    ensures
        strings_view(r@) == inject_bin_candidates_of(
            match resource {
                Some(x) => Some(x@),
                None => None,
            },
            match exe_dir {
                Some(x) => Some(x@),
                None => None,
            },
        ),
{
    let ghost rv = match &resource {
        Some(x) => Some(x@),
        None => None::<Seq<char>>,
    };
    let ghost dv = match &exe_dir {
        Some(x) => Some(x@),
        None => None::<Seq<char>>,
    };
    let mut v: Vec<String> = Vec::new();
    if let Some(r) = resource {
        v.push(r);
    }
    let ghost a = strings_view(v@);
    if let Some(d) = &exe_dir {
        v.push(join_path(d.as_str(), "zyringe-inject"));
    }
    let ghost b = strings_view(v@);
    v.push(text("/usr/lib/zyringe/zyringe-inject"));
    v.push(text("target/debug/zyringe-inject"));
    v.push(text("target/release/zyringe-inject"));
    proof {
        let ra: Seq<Seq<char>> = match rv {
            Some(r) => seq![r],
            None => Seq::empty(),
        };
        let da: Seq<Seq<char>> = match dv {
            Some(d) => seq![joined_path(d, "zyringe-inject"@)],
            None => Seq::empty(),
        };
        assert(a =~= ra);
        assert(b =~= ra + da);
        assert(strings_view(v@) =~= ra + da + seq![
            "/usr/lib/zyringe/zyringe-inject"@,
            "target/debug/zyringe-inject"@,
            "target/release/zyringe-inject"@,
        ]);
    }
    v
}


/// The members of the configuration a preloaded helper reads: the assembly, namespace,
/// class and method to run.
pub open spec fn config_members(req: LaunchRequest) -> Seq<(Seq<char>, Seq<char>)> {
    seq![
        ("dll"@, req.dll_path@),
        ("namespace"@, req.namespace@),
        ("class"@, req.class_name@),
        ("method"@, req.method@),
    ]
}

/// The JSON configuration for a preloaded helper, as bytes to write to its file: an object
/// of four text members always serialises, so this never fails.
pub fn launch_config(req: &LaunchRequest) -> (r: Result<Vec<u8>, String>)
    ensures
        r matches Ok(b) && b@ == json_object_text(config_members(*req)),
{
    let mut pairs: Vec<(String, String)> = Vec::new();
    pairs.push((text("dll"), text(req.dll_path.as_str())));
    pairs.push((text("namespace"), text(req.namespace.as_str())));
    pairs.push((text("class"), text(req.class_name.as_str())));
    pairs.push((text("method"), text(req.method.as_str())));
    assert(pairs@.map_values(|p: (String, String)| (p.0@, p.1@)) =~= config_members(*req));
    match json_object_bytes(&pairs) {
        Ok(b) => Ok(b),
        Err(e) => {
            let mut m = text("write config: ");
            push_str(&mut m, e.as_str());
            Err(m)
        },
    }
}

} // verus!
