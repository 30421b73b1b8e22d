use zyringe::cli::{parse_args, Command};
use zyringe::diag::{helper_log_path, is_player_log, open_helper_log, open_player_log, pick_newest};
use zyringe::injector::{
    cancel_flag_for, cancel_flag_path, check_executable, helper_candidates, inject_argv, inject_bin_candidates,
    launch_config, launch_outcome, launch_workdir, scan_launch_line, streaming_outcome,
    validate_dll, InjectRequest, LaunchRequest, LaunchWait,
};

fn request() -> InjectRequest {
    InjectRequest {
        pid: 4242,
        dll_path: "/m/Mod.dll".into(),
        namespace: "Ns".into(),
        class_name: "Loader".into(),
        method: "Init".into(),
        args: vec!["--pid".into(), "two words".into()],
        timeout_secs: Some(90),
    }
}

#[test]
fn inject_command_line_is_built_in_order() {
    let v = inject_argv(&request(), "/usr/lib/zyringe/zyringe-inject", Some("/run/user/1000/zyringe-cancel-4242"), "/h/libzyringe.so");
    assert_eq!(
        v,
        vec![
            "/usr/lib/zyringe/zyringe-inject", "--pid", "4242", "--cancel-flag",
            "/run/user/1000/zyringe-cancel-4242", "--so", "/h/libzyringe.so", "--dll", "/m/Mod.dll",
            "--namespace", "Ns", "--class", "Loader", "--method", "Init", "--arg", "--pid", "--arg",
            "two words", "--timeout", "90",
        ]
    );
}

#[test]
fn injector_reads_back_the_command_line() {
    let req = request();
    let v = inject_argv(&req, "bin", Some("/f"), "/h.so");
    let args: Vec<String> = v[1..].to_vec();
    match parse_args(&args).unwrap() {
        Command::Run(a) => {
            assert_eq!(a.pid, 4242);
            assert_eq!(a.so, "/h.so");
            assert_eq!(a.dll, "/m/Mod.dll");
            assert_eq!(a.namespace, "Ns");
            assert_eq!(a.class, "Loader");
            assert_eq!(a.method, "Init");
            assert_eq!(a.args, vec!["--pid", "two words"]);
            assert_eq!(a.timeout_secs, Some(90));
            assert_eq!(a.cancel_flag, Some("/f".to_string()));
        }
        Command::Help => panic!("help"),
    }
}

#[test]
fn injector_arguments_are_checked() {
    let a = |v: &[&str]| parse_args(&v.iter().map(|s| s.to_string()).collect());
    assert_eq!(a(&["--pid"]).err(), Some("missing value for --pid".to_string()));
    assert_eq!(a(&["--pid", "x"]).err(), Some("bad --pid".to_string()));
    assert_eq!(a(&["--pid", "1", "--timeout", "-1"]).err(), Some("bad --timeout".to_string()));
    assert_eq!(a(&["--frob"]).err(), Some("unknown argument: --frob".to_string()));
    assert_eq!(a(&[]).err(), Some("--pid is required".to_string()));
    assert_eq!(a(&["--pid", "1", "--so", "s", "--dll", "d", "--class", "c"]).err(), Some("--method is required".to_string()));
    assert!(matches!(a(&["--pid", "1", "-h", "--bogus"]), Ok(Command::Help)));
    match a(&["--pid", "-7", "--so", "s", "--dll", "d", "--class", "c", "--method", "m", "--pid", "8"]).unwrap() {
        Command::Run(x) => {
            assert_eq!(x.pid, 8);
            assert_eq!(x.namespace, "");
            assert_eq!(x.timeout_secs, None);
        }
        Command::Help => panic!("help"),
    }
}

#[test]
fn injection_outcomes_are_reported() {
    assert_eq!(streaming_outcome(Some(0)), Ok(()));
    assert_eq!(streaming_outcome(Some(126)), Err("Elevation was cancelled or not authorized (pkexec).".to_string()));
    assert_eq!(streaming_outcome(Some(127)), Err("Elevation was cancelled or not authorized (pkexec).".to_string()));
    assert_eq!(streaming_outcome(Some(1)), Err("Injection failed (exit code 1).".to_string()));
    assert_eq!(streaming_outcome(Some(-3)), Err("Injection failed (exit code -3).".to_string()));
    assert_eq!(streaming_outcome(None), Err("Injection process terminated by signal.".to_string()));
}

#[test]
fn launch_output_lines_are_read() {
    assert_eq!(scan_launch_line("[zyringe] entry point invoked OK"), Some(Ok(())));
    assert_eq!(
        scan_launch_line("[zyringe] preload:  no mono runtime \n"),
        Some(Err("no mono runtime".to_string()))
    );
    assert_eq!(scan_launch_line("just a log line"), None);
    assert_eq!(launch_outcome(LaunchWait::Loaded), Ok(()));
    assert_eq!(launch_outcome(LaunchWait::Failed("x".into())), Err("Mod failed to load — x".to_string()));
    assert!(launch_outcome(LaunchWait::TimedOut).unwrap_err().starts_with("Game launched, but"));
    assert!(launch_outcome(LaunchWait::Exited).unwrap_err().starts_with("Game exited before"));
}

#[test]
fn paths_and_checks_for_requests() {
    assert_eq!(cancel_flag_path("/run/user/1000", 77), "/run/user/1000/zyringe-cancel-77");
    assert_eq!(validate_dll("/m/x.dll", true), Ok(()));
    assert_eq!(validate_dll("/m/x.dll", false), Err("DLL not found: /m/x.dll".to_string()));
    assert_eq!(check_executable("/g/G", false), Err("Executable not found: /g/G".to_string()));
    assert_eq!(launch_workdir(None, "/g/G.x86_64"), Ok("/g".to_string()));
    assert_eq!(launch_workdir(Some("/w".into()), "/g/G"), Ok("/w".to_string()));
    assert_eq!(launch_workdir(None, "/"), Err("Could not determine working directory".to_string()));
    assert_eq!(launch_workdir(None, ""), Err("Could not determine working directory".to_string()));
    assert_eq!(launch_workdir(None, "/G.x86_64"), Ok("/".to_string()));
    assert_eq!(launch_workdir(None, "G.x86_64"), Ok(String::new()));
    assert_eq!(launch_workdir(None, "games/../G/G.x86_64"), Ok("games/../G".to_string()));
    let h = helper_candidates(None, Some("/opt/z/bin".into()));
    assert_eq!(h, vec![
        "/opt/z/bin/../../helper/libzyringe.so",
        "/opt/z/bin/../../../helper/libzyringe.so",
        "/opt/z/bin/libzyringe.so",
        "/usr/lib/zyringe/libzyringe.so",
        "helper/libzyringe.so",
    ]);
    let b = inject_bin_candidates(Some("/res/zyringe-inject".into()), None);
    assert_eq!(b[0], "/res/zyringe-inject");
    assert_eq!(b.len(), 4);
}

#[test]
fn diagnostics_logs() {
    assert_eq!(helper_log_path(12), "/tmp/.zyringe/helper-12.log");
    assert_eq!(open_helper_log(12, true), Ok("/tmp/.zyringe/helper-12.log".to_string()));
    assert_eq!(open_helper_log(12, false), Err("No helper log yet at /tmp/.zyringe/helper-12.log".to_string()));
    assert_eq!(open_player_log(None), Err("No Unity Player.log found under ~/.config/unity3d".to_string()));
    assert!(is_player_log("/home/u/.config/unity3d/Co/G/Player.log"));
    assert!(!is_player_log("/home/u/.config/unity3d/Co/G/Player-prev.log"));
    let c = vec![(5, 0, "/a".to_string()), (9, 1, "/b".to_string()), (9, 1, "/c".to_string()), (9, 0, "/d".to_string())];
    assert_eq!(pick_newest(&c), Some("/b".to_string()));
    assert_eq!(pick_newest(&Vec::new()), None);
}

#[test]
fn launch_config_is_json() {
    let req = LaunchRequest {
        exe_path: "/g/G".into(),
        dll_path: "/m/\"q\".dll".into(),
        namespace: "Ns".into(),
        class_name: "C".into(),
        method: "M".into(),
        working_dir: None,
    };
    let b = launch_config(&req).unwrap();
    assert_eq!(
        String::from_utf8(b).unwrap(),
        r#"{"class":"C","dll":"/m/\"q\".dll","method":"M","namespace":"Ns"}"#
    );
}

#[test]
fn cancel_flag_stays_in_the_private_runtime_dir() {
    assert_eq!(
        cancel_flag_for(Some("/run/user/1000".to_string()), true, 77),
        Some("/run/user/1000/zyringe-cancel-77".to_string())
    );
    assert_eq!(cancel_flag_for(Some("/run/user/1000".to_string()), false, 77), None);
    assert_eq!(cancel_flag_for(None, true, 77), None);
}

#[test]
fn injector_runs_without_a_cancel_flag_when_there_is_none() {
    let mut req = request();
    req.timeout_secs = None;
    let v = inject_argv(&req, "bin", None, "/h.so");
    assert!(!v.iter().any(|a| a == "--cancel-flag"));
    assert_eq!(&v[..5], &["bin", "--pid", "4242", "--so", "/h.so"]);
    match parse_args(&v[1..].to_vec()).unwrap() {
        Command::Run(a) => {
            assert_eq!(a.cancel_flag, None);
            assert_eq!(a.timeout_secs, None);
            assert_eq!(a.args, vec!["--pid", "two words"]);
        }
        Command::Help => panic!("help"),
    }
}
