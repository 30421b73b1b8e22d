use zyringe::scanner::{
    arrange_scan, classify_runtime, data_dir_candidate, find_mono_mapping, find_windows_mono,
    is_data_dir_name, is_proton, known_game_dir, looks_like_wine, maps_has_il2cpp,
    mark_duplicates, process_name, steam_app_id, wine_exe_dir, MonoProcess,
};

fn proc_(pid: i32, name: &str, exe: Option<&str>, threads: usize) -> MonoProcess {
    MonoProcess {
        pid,
        name: name.to_string(),
        cmdline: String::new(),
        flavor: "Mono".to_string(),
        mono_so_path: String::new(),
        data_dir: None,
        game_dir: None,
        exe_path: exe.map(|e| e.to_string()),
        thread_count: threads,
        suspect: false,
        engine: "Mono".to_string(),
        injectable: true,
        duplicate: false,
        app_id: None,
        proton: false,
    }
}

#[test]
fn finds_native_mono_runtime() {
    let maps = "7f0000000000-7f0000001000 r-xp 00000000 08:01 1234 /game/Game_Data/MonoBleedingEdge/x86_64/libmonobdwgc-2.0.so\n";
    let r = find_mono_mapping(maps);
    assert_eq!(
        r,
        Some((
            "/game/Game_Data/MonoBleedingEdge/x86_64/libmonobdwgc-2.0.so".to_string(),
            "Mono BleedingEdge".to_string()
        ))
    );
    let rt = classify_runtime(maps).unwrap();
    assert_eq!(rt.engine, "Mono");
    assert_eq!(rt.flavor, "Mono BleedingEdge");
    assert!(rt.injectable);
    assert!(!rt.suspect);
}

#[test]
fn native_named_runtime_is_a_fallback() {
    let maps = "\
7f0000000000-7f0000001000 r-xp 00000000 08:01 1 /opt/x/native/libmonosgen-2.0-native.so
7f0000002000-7f0000003000 r-xp 00000000 08:01 2 /game/libmonosgen-2.0.so
";
    assert_eq!(
        find_mono_mapping(maps),
        Some(("/game/libmonosgen-2.0.so".to_string(), "Mono SGen".to_string()))
    );
    let only_native = "7f0000000000-7f0000001000 r-xp 00000000 08:01 1 /opt/x/libmono-native.so\n";
    let (so, fl) = find_mono_mapping(only_native).unwrap();
    assert_eq!(so, "/opt/x/libmono-native.so");
    assert_eq!(fl, "Mono");
    assert!(classify_runtime(only_native).unwrap().suspect);
}

#[test]
fn windows_mono_and_il2cpp_are_recognised() {
    let proton = "7f0000000000-7f0000001000 r-xp 00000000 08:01 1 /g/MonoBleedingEdge/EmbedRuntime/MONO-2.0-BDWGC.DLL\n";
    assert_eq!(find_windows_mono(proton), Some("Mono BleedingEdge (Proton)".to_string()));
    let rt = classify_runtime(proton).unwrap();
    assert_eq!(rt.engine, "Mono");
    assert!(!rt.injectable);
    assert_eq!(rt.mono_so_path, "");
    let il2cpp = "7f0000000000-7f0000001000 r-xp 00000000 08:01 1 /g/GameAssembly.so\n";
    assert!(maps_has_il2cpp(il2cpp));
    let rt = classify_runtime(il2cpp).unwrap();
    assert_eq!(rt.engine, "IL2CPP");
    assert_eq!(rt.flavor, "IL2CPP");
    assert!(classify_runtime("7f0000000000-7f0000001000 r-xp 00000000 08:01 1 /usr/lib/libc.so.6\n").is_none());
    assert!(classify_runtime("").is_none());
}

#[test]
fn wine_executables_are_recognised() {
    assert!(looks_like_wine("/usr/bin/wine64-preloader"));
    assert!(looks_like_wine("/home/u/.steam/proton/files/bin/wineserver"));
    assert!(looks_like_wine("/usr/bin/pv-bwrap"));
    assert!(looks_like_wine("/opt/Proton/files/bin/PROTON"));
    assert!(!looks_like_wine("/games/Hollow/hollow_knight.x86_64"));
}

#[test]
fn duplicates_keep_the_busiest_as_primary() {
    let procs = vec![
        proc_(10, "Game", Some("/g/Game.x86_64"), 3),
        proc_(11, "Game", Some("/g/Game.x86_64"), 40),
        proc_(12, "Other", Some("/o/Other"), 5),
        proc_(13, "Game", Some("/g/Game.x86_64"), 40),
    ];
    let out = mark_duplicates(procs);
    let order: Vec<(i32, bool)> = out.iter().map(|p| (p.pid, p.duplicate)).collect();
    assert_eq!(order, vec![(11, false), (13, true), (12, false), (10, true)]);
}

#[test]
fn scan_lists_by_name_then_primaries_then_pid() {
    let procs = vec![
        proc_(30, "zeta", Some("/z"), 1),
        proc_(21, "Alpha", Some("/a"), 2),
        proc_(20, "alpha", Some("/a"), 9),
        proc_(5, "beta", None, 1),
    ];
    let out = arrange_scan(procs);
    let order: Vec<(i32, bool)> = out.iter().map(|p| (p.pid, p.duplicate)).collect();
    assert_eq!(order, vec![(20, false), (21, true), (5, false), (30, false)]);
}

#[test]
fn game_dir_prefers_install_path_then_data_dir_then_exe() {
    assert_eq!(
        known_game_dir(Some("/s/common/G".into()), Some("/x/G_Data".into()), None),
        Some("/s/common/G".to_string())
    );
    assert_eq!(
        known_game_dir(Some(String::new()), Some("/x/G/G_Data".into()), None),
        Some("/x/G".to_string())
    );
    assert_eq!(known_game_dir(None, None, Some("/games/G/G.x86_64".into())), Some("/games/G".to_string()));
    assert_eq!(known_game_dir(None, None, Some("/usr/bin/wine64".into())), None);
    assert_eq!(known_game_dir(None, None, None), None);
}

#[test]
fn wine_command_line_maps_to_linux_directories() {
    let cmd = b"/usr/bin/wine64\0Z:\\home\\u\\Games\\G\\G.exe\0-windowed\0";
    assert_eq!(wine_exe_dir(cmd, b""), Some("/home/u/Games/G".to_string()));
    let cmd = b"C:\\Program Files\\G\\G.EXE\0";
    let env = b"HOME=/home/u\0WINEPREFIX=/home/u/.wine/\0";
    assert_eq!(
        wine_exe_dir(cmd, env),
        Some("/home/u/.wine/drive_c/Program Files/G".to_string())
    );
    let env = b"STEAM_COMPAT_DATA_PATH=/s/compatdata/42\0";
    assert_eq!(
        wine_exe_dir(cmd, env),
        Some("/s/compatdata/42/pfx/drive_c/Program Files/G".to_string())
    );
    assert_eq!(wine_exe_dir(cmd, b""), None);
    assert_eq!(wine_exe_dir(b"/usr/bin/game\0", b""), None);
}

#[test]
fn data_dir_is_named_after_the_executable() {
    assert_eq!(data_dir_candidate("/g/Game.x86_64"), Some("/g/Game_Data".to_string()));
    assert_eq!(data_dir_candidate("/g/Game"), Some("/g/Game_Data".to_string()));
    assert_eq!(data_dir_candidate("/g/.hidden"), Some("/g/.hidden_Data".to_string()));
    assert!(is_data_dir_name("Game_Data"));
    assert!(!is_data_dir_name("Game_Data2"));
}

#[test]
fn environment_gives_app_id_and_proton() {
    let env = b"PATH=/bin\0SteamGameId=99\0SteamAppId=1234\0";
    assert_eq!(steam_app_id(env), Some("1234".to_string()));
    assert_eq!(steam_app_id(b"SteamGameId=99\0"), Some("99".to_string()));
    assert_eq!(steam_app_id(b"X=1"), None);
    assert!(is_proton(b"A=1\0PROTON_VERSION=8.0\0"));
    assert!(!is_proton(b"A=1\0WINEPREFIXX=2\0"));
}

#[test]
fn process_names_are_trimmed() {
    assert_eq!(process_name(Some("Game.x86_64\n".into()), 7), "Game.x86_64");
    assert_eq!(process_name(None, 42), "pid 42");
}
