use zyringe::json::Json;
use zyringe::loader::{
    add_plugin, appid_file, assets_from_json, assets_from_response, close_wait_step, entry_action,
    extract_summary, extracted_count, fetch_assets, is_active, is_dll_path, launch, layout,
    looks_like_zip, plugin_names, removal_summary, removal_targets, repo, status, verify_install,
    wanted_asset, CloseWait, EntryAction, InstallProbe, Release, ReleaseAsset, StatusProbe,
};

#[test]
fn loader_repositories_and_layouts() {
    assert_eq!(repo("BepInEx"), "BepInEx/BepInEx");
    assert_eq!(repo("MelonLoader"), "LavaGang/MelonLoader");
    assert_eq!(repo("anything"), "LavaGang/MelonLoader");
    assert_eq!(
        layout("/g", "BepInEx"),
        ("/g/BepInEx".to_string(), "/g/BepInEx/plugins".to_string())
    );
    assert_eq!(layout("/g/", "MelonLoader"), ("/g/MelonLoader".to_string(), "/g/Mods".to_string()));
}

#[test]
fn dll_paths_match_any_case() {
    assert!(is_dll_path("/p/Mod.dll"));
    assert!(is_dll_path("/p/Mod.DLL"));
    assert!(!is_dll_path("/p/Mod.dll.bak"));
    assert!(!is_dll_path("/p/.dll"));
    assert!(!is_dll_path("/p/dll"));
}

#[test]
fn plugins_are_listed_sorted() {
    let paths = vec![
        "/p/Zed.dll".to_string(),
        "/p/readme.txt".to_string(),
        "/p/alpha.DLL".to_string(),
        "/p/Beta.dll".to_string(),
    ];
    assert_eq!(plugin_names(&paths), vec!["Beta.dll", "Zed.dll", "alpha.DLL"]);
    let st = status(
        "/g",
        "BepInEx",
        &StatusProbe {
            install_dir_exists: true,
            plugin_paths: paths,
            run_script_exists: true,
            winhttp_exists: false,
            version_exists: true,
        },
    );
    assert!(st.installed);
    assert_eq!(st.plugins_dir, "/g/BepInEx/plugins");
    assert_eq!(st.plugins.len(), 3);
    assert_eq!(st.run_script, Some("/g/run_bepinex.sh".to_string()));
    assert!(st.windows_proxy);
}

#[test]
fn plugin_copies_need_a_dll() {
    let c = add_plugin("/g/Mods", "/home/u/Cool.Mod.dll").unwrap();
    assert_eq!(c.name, "Cool.Mod.dll");
    assert_eq!(c.target, "/g/Mods/Cool.Mod.dll");
    assert_eq!(add_plugin("/g/Mods", "/home/u/notes.txt").err(), Some("not a .dll file".to_string()));
}

#[test]
fn release_assets_are_filtered_to_zips() {
    let rel = |tag: &str, pre: bool, assets: Vec<(&str, &str, u64)>| Release {
        tag: tag.into(),
        prerelease: pre,
        assets: assets
            .into_iter()
            .map(|(n, u, s)| ReleaseAsset { name: n.into(), url: u.into(), size: s })
            .collect(),
    };
    let releases = vec![
        rel("v6", true, vec![("BepInEx-Unity.IL2CPP-win-x64.ZIP", "https://x/1", 10), ("src.tar.gz", "https://x/2", 5)]),
        rel("v5", false, vec![("a.zip", "", 1), ("b.zip", "https://x/3", 7)]),
    ];
    let out = fetch_assets(None, Some(releases)).unwrap();
    assert_eq!(out.len(), 2);
    assert_eq!(out[0].name, "BepInEx-Unity.IL2CPP-win-x64.ZIP");
    assert_eq!(out[0].tag, "v6");
    assert!(out[0].prerelease);
    assert_eq!(out[1].url, "https://x/3");
    assert_eq!(out[1].size, 7);
    assert_eq!(
        fetch_assets(Some("API rate limit exceeded".into()), None).err(),
        Some("GitHub: API rate limit exceeded".to_string())
    );
    assert_eq!(fetch_assets(None, None).err(), Some("unexpected GitHub response".to_string()));
    assert!(wanted_asset("X.Zip", "u"));
    assert!(!wanted_asset("", "u"));
}

#[test]
fn zip_signature_is_checked() {
    assert_eq!(looks_like_zip(b"PK\x03\x04"), Ok(()));
    assert_eq!(looks_like_zip(b"P"), Err("file is empty or unreadable".to_string()));
    assert!(looks_like_zip(b"<html>").unwrap_err().starts_with("that isn't a .zip"));
}

#[test]
fn extraction_count_reads_back() {
    let msg = extract_summary(1234, "/games/My Game");
    assert_eq!(msg, "extracted 1234 files into /games/My Game");
    assert_eq!(extracted_count(&msg), 1234);
    assert_eq!(extracted_count("  extracted   7 files"), 7);
    assert_eq!(extracted_count("extracted"), 0);
    assert_eq!(extracted_count("extracted lots"), 0);
    assert_eq!(extracted_count("extracted +5 files"), 5);
}

#[test]
fn installs_are_verified() {
    let none = InstallProbe {
        core_dir: false,
        winhttp: false,
        run_script: false,
        il2cpp_core: false,
        interop: false,
        melon_dir: false,
        version_dll: false,
        bootstrap: false,
    };
    let e = verify_install("BepInEx", 3, none).unwrap_err();
    assert!(e.starts_with("That archive didn't contain a complete BepInEx (extracted only 3 files;"));
    let mono = InstallProbe { core_dir: true, winhttp: true, ..none };
    assert!(verify_install("BepInEx", 9, mono).unwrap_err().starts_with("That's a Mono BepInEx build"));
    let good = InstallProbe { core_dir: true, run_script: true, interop: true, ..none };
    assert_eq!(verify_install("BepInEx", 9, good), Ok("BepInEx (IL2CPP) installed — extracted 9 files".to_string()));
    let melon = InstallProbe { melon_dir: true, bootstrap: true, ..none };
    assert_eq!(verify_install("MelonLoader", 4, melon), Ok("MelonLoader installed — extracted 4 files".to_string()));
    assert!(verify_install("MelonLoader", 0, none).unwrap_err().contains("(extracted only 0 files; MelonLoader/ + version.dll are missing)"));
}

#[test]
fn loader_activity_is_seen_in_maps() {
    assert!(is_active("7f-8f r-xp 0 0:0 0 /g/BepInEx/core/BepInEx.Core.dll"));
    assert!(is_active("7f-8f r-xp 0 0:0 0 /g/libDoorstop.so"));
    assert!(!is_active("7f-8f r-xp 0 0:0 0 /usr/lib/libc.so.6"));
}

#[test]
fn launches_are_planned() {
    let p = launch("/g", "/g/G.exe", "BepInEx", true, false, vec!["-a".into(), "b".into()], None).unwrap();
    assert_eq!(p.program, "bash");
    assert_eq!(p.args, vec!["/g/run_bepinex.sh", "/g/G.exe", "-a", "b"]);
    assert_eq!(p.script, Some("/g/run_bepinex.sh".to_string()));
    assert_eq!(p.label, "BepInEx");
    assert_eq!(p.cwd, "/g");
    assert!(launch("/g", "/g/G.exe", "BepInEx", false, true, vec![], None).unwrap_err().starts_with("run_bepinex.sh not found"));
    let p = launch("/g", "/g/G", "MelonLoader", false, false, vec![], Some("/cwd".into())).unwrap();
    assert_eq!(p.program, "/g/G");
    assert!(p.args.is_empty());
    assert_eq!(p.label, "MelonLoader");
    assert_eq!(p.cwd, "/cwd");
    let p = launch("/g", "/g/G", "MelonLoader", false, true, vec![], None).unwrap();
    assert_eq!(p.args, vec!["/g/run_melonloader.sh", "/g/G"]);
    assert_eq!(appid_file("/g", Some("730".into())), Some(("/g/steam_appid.txt".to_string(), "730".to_string())));
    assert_eq!(appid_file("/g", Some(String::new())), None);
}

#[test]
fn removal_targets_per_loader() {
    let t = removal_targets("/g", "MelonLoader");
    assert_eq!(t, vec!["/g/MelonLoader", "/g/version.dll", "/g/dobby.dll", "/g/NOTICE.txt"]);
    assert_eq!(removal_targets("/g", "BepInEx").len(), 9);
    assert_eq!(removal_summary(2, "/g"), "removed 2 loader item(s) from /g");
}

#[test]
fn github_reply_bodies_are_read() {
    let body = br#"[{"tag_name":"v0.7.1","prerelease":false,"assets":[
        {"name":"MelonLoader.x64.zip","browser_download_url":"https://g/ml.zip","size":4096},
        {"name":"MelonLoader.Installer.exe","browser_download_url":"https://g/i.exe","size":1}]},
        {"tag_name":"v0.7.2-ci","prerelease":true,"assets":[{"name":"X.zip","browser_download_url":"https://g/x.zip"}]}]"#;
    let out = assets_from_response(body).unwrap();
    assert_eq!(out.len(), 2);
    assert_eq!(out[0].name, "MelonLoader.x64.zip");
    assert_eq!(out[0].size, 4096);
    assert_eq!(out[0].tag, "v0.7.1");
    assert!(!out[0].prerelease);
    assert_eq!(out[1].size, 0);
    assert!(out[1].prerelease);
    assert_eq!(
        assets_from_response(br#"{"message":"Not Found"}"#).err(),
        Some("GitHub: Not Found".to_string())
    );
    assert_eq!(assets_from_response(br#"{"x":1}"#).err(), Some("unexpected GitHub response".to_string()));
    assert!(assets_from_response(b"<html>").unwrap_err().starts_with("bad GitHub response: "));
}

#[test]
fn parsed_replies_give_their_zip_assets() {
    let asset = |name: &str, url: &str, size: Option<u64>| {
        let mut es = vec![
            ("name".to_string(), Json::Str(name.to_string())),
            ("browser_download_url".to_string(), Json::Str(url.to_string())),
        ];
        if let Some(n) = size {
            es.push(("size".to_string(), Json::Number(Some(n))));
        }
        Json::Object(es)
    };
    let release = Json::Object(vec![
        ("tag_name".to_string(), Json::Str("v6.0.0".to_string())),
        ("prerelease".to_string(), Json::Bool(true)),
        (
            "assets".to_string(),
            Json::Array(vec![
                asset("BepInEx_x64.ZIP", "https://g/b.zip", Some(77)),
                asset("notes.txt", "https://g/n.txt", Some(1)),
                asset("nourl.zip", "", Some(2)),
                asset("odd.zip", "https://g/o.zip", None),
            ]),
        ),
    ]);
    let out = assets_from_json(&Json::Array(vec![release, Json::Null])).unwrap();
    assert_eq!(out.len(), 2);
    assert_eq!((out[0].name.as_str(), out[0].url.as_str(), out[0].size), ("BepInEx_x64.ZIP", "https://g/b.zip", 77));
    assert_eq!(out[0].tag, "v6.0.0");
    assert!(out[0].prerelease);
    assert_eq!((out[1].name.as_str(), out[1].size), ("odd.zip", 0));
    let refused = Json::Object(vec![("message".to_string(), Json::Str("Bad credentials".to_string()))]);
    assert_eq!(assets_from_json(&refused).err(), Some("GitHub: Bad credentials".to_string()));
    let numeric = Json::Object(vec![("message".to_string(), Json::Number(Some(3)))]);
    assert_eq!(assets_from_json(&numeric).err(), Some("unexpected GitHub response".to_string()));
}

#[test]
fn closing_game_is_waited_for_fifteen_seconds() {
    assert!(matches!(close_wait_step(false, 0), CloseWait::Closed));
    assert!(matches!(close_wait_step(false, 150), CloseWait::Closed));
    assert!(matches!(close_wait_step(true, 0), CloseWait::Pause));
    assert!(matches!(close_wait_step(true, 149), CloseWait::Pause));
    match close_wait_step(true, 150) {
        CloseWait::StillRunning(m) => assert!(m.starts_with("couldn't close the running game")),
        other => panic!("{other:?}"),
    }
}

#[test]
fn archive_entries_land_under_the_game_dir() {
    assert!(matches!(entry_action("/g", None, false), EntryAction::Skip));
    assert!(matches!(entry_action("/g", None, true), EntryAction::Skip));
    match entry_action("/g", Some("BepInEx/core/BepInEx.dll".to_string()), false) {
        EntryAction::WriteFile(p) => assert_eq!(p, "/g/BepInEx/core/BepInEx.dll"),
        other => panic!("{other:?}"),
    }
    match entry_action("/g/", Some("BepInEx/plugins/".to_string()), true) {
        EntryAction::MakeDir(p) => assert_eq!(p, "/g/BepInEx/plugins/"),
        other => panic!("{other:?}"),
    }
}

#[test]
fn an_added_plugin_is_listed_and_removal_clears_the_install() {
    let (install, plugins_dir) = layout("/g", "BepInEx");
    let copy = add_plugin(&plugins_dir, "/home/u/Downloads/Cheat.DLL").unwrap();
    assert_eq!(copy.name, "Cheat.DLL");
    assert_eq!(copy.target, "/g/BepInEx/plugins/Cheat.DLL");
    let probe = StatusProbe {
        install_dir_exists: true,
        plugin_paths: vec!["/g/BepInEx/plugins/zz.dll".to_string(), copy.target.clone(), "/g/BepInEx/plugins/notes.txt".to_string()],
        run_script_exists: false,
        winhttp_exists: false,
        version_exists: false,
    };
    let st = status("/g", "BepInEx", &probe);
    assert_eq!(st.plugins_dir, plugins_dir);
    assert!(st.plugins.contains(&copy.name));
    assert_eq!(removal_targets("/g", "BepInEx")[0], install);
    assert_eq!(removal_targets("/g", "MelonLoader")[0], layout("/g", "MelonLoader").0);
    let gone = StatusProbe { install_dir_exists: false, ..probe };
    assert!(!status("/g", "BepInEx", &gone).installed);
}
