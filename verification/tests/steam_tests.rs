use zyringe::steam::{
    launching_message, order_configs, run_url, set_launch_in_vdf, set_launch_option,
    userdata_roots, ConfigFile, ConfigRead,
};

const VDF: &str = "\"UserLocalConfigStore\"\n{\n\t\"Software\"\n\t{\n\t\t\"Valve\"\n\t\t{\n\t\t\t\"Steam\"\n\t\t\t{\n\t\t\t\t\"apps\"\n\t\t\t\t{\n\t\t\t\t\t\"730\"\n\t\t\t\t\t{\n\t\t\t\t\t\t\"LaunchOptions\"\t\t\"-novid\"\n\t\t\t\t\t}\n\t\t\t\t\t\"440\"\n\t\t\t\t\t{\n\t\t\t\t\t\t\"playtime\"\t\t\"3\"\n\t\t\t\t\t}\n\t\t\t\t}\n\t\t\t}\n\t\t}\n\t}\n}\n";

#[test]
fn replaces_an_existing_launch_option() {
    let out = set_launch_in_vdf(VDF, "730", "WINEDLLOVERRIDES=\"winhttp=n,b\" %command%").unwrap();
    assert!(out.contains("\"LaunchOptions\"\t\t\"WINEDLLOVERRIDES=\\\"winhttp=n,b\\\" %command%\""));
    assert!(!out.contains("-novid"));
    assert_eq!(out.len(), VDF.len() - "-novid".len() + "WINEDLLOVERRIDES=\\\"winhttp=n,b\\\" %command%".len());
}

#[test]
fn adds_launch_option_to_an_app_block() {
    let out = set_launch_in_vdf(VDF, "440", "%command% -x").unwrap();
    assert!(out.contains("\"440\"\n\t\t\t\t\t{\n\t\t\t\t\t\t\"LaunchOptions\"\t\t\"%command% -x\"\n\t\t\t\t\t\t\"playtime\""));
}

#[test]
fn adds_an_app_block_when_missing() {
    let out = set_launch_in_vdf(VDF, "999", "a\\b").unwrap();
    assert!(out.contains("\"apps\"\n\t\t\t\t{\n\t\t\t\t\t\"999\"\n\t\t\t\t\t{\n\t\t\t\t\t\t\"LaunchOptions\"\t\t\"a\\\\b\"\n\t\t\t\t\t}"));
    let twice = set_launch_in_vdf(&out, "999", "a\\b").unwrap();
    assert_eq!(twice, out);
}

#[test]
fn refuses_configs_without_apps() {
    assert_eq!(
        set_launch_in_vdf("\"x\" { }", "1", "o"),
        Err("no \"apps\" section in localconfig".to_string())
    );
}

#[test]
fn launch_option_is_refused_while_steam_runs() {
    let cfgs = vec![ConfigRead { path: "/c".into(), content: Ok(VDF.to_string()) }];
    let e = set_launch_option(true, "730", "x", &cfgs).unwrap_err();
    assert!(e.starts_with("Steam is running"));
    let e = set_launch_option(false, "730", "x", &Vec::new()).unwrap_err();
    assert_eq!(e, "Couldn't find Steam's config (localconfig.vdf). Is Steam installed for this user?");
}

#[test]
fn launch_option_goes_to_the_first_usable_config() {
    let cfgs = vec![
        ConfigRead { path: "/a/localconfig.vdf".into(), content: Err("denied".into()) },
        ConfigRead { path: "/b/localconfig.vdf".into(), content: Ok("nothing".into()) },
        ConfigRead { path: "/c/localconfig.vdf".into(), content: Ok(VDF.to_string()) },
    ];
    let edit = set_launch_option(false, "730", "-x", &cfgs).unwrap();
    assert_eq!(edit.index, 2);
    assert!(edit.new_content.contains("\"-x\""));
    let cfgs = vec![
        ConfigRead { path: "/b/localconfig.vdf".into(), content: Ok("nothing".into()) },
        ConfigRead { path: "/a/localconfig.vdf".into(), content: Err("denied".into()) },
    ];
    assert_eq!(
        set_launch_option(false, "730", "-x", &cfgs).unwrap_err(),
        "read /a/localconfig.vdf: denied"
    );
}

#[test]
fn configs_naming_the_app_come_first_else_newest_first() {
    let f = |p: &str, c: Option<&str>, m: Option<(u64, u32)>| ConfigFile {
        path: p.into(),
        content: c.map(String::from),
        modified: m,
    };
    let files = vec![
        f("/1", Some("\"730\""), Some((5, 0))),
        f("/2", Some("\"440\""), Some((9, 0))),
        f("/3", Some("x \"730\" y"), None),
    ];
    let out: Vec<String> = order_configs(files.clone(), "730").into_iter().map(|c| c.path).collect();
    assert_eq!(out, vec!["/1", "/3"]);
    let out: Vec<String> = order_configs(files, "1").into_iter().map(|c| c.path).collect();
    assert_eq!(out, vec!["/2", "/1", "/3"]);
}

#[test]
fn steam_paths_and_urls() {
    let roots = userdata_roots("/home/u");
    assert_eq!(roots[0], "/home/u/.steam/steam/userdata");
    assert_eq!(roots[3], "/home/u/.var/app/com.valvesoftware.Steam/.local/share/Steam/userdata");
    assert_eq!(run_url("730"), "steam://run/730");
    assert_eq!(launching_message("730"), "launching appid 730 via Steam");
}

/// Reads the VDF string that starts at `from` back, undoing its escapes.
fn read_vdf_string(s: &str, from: usize) -> String {
    let mut out = String::new();
    let mut esc = false;
    for c in s[from..].chars() {
        if esc {
            out.push(c);
            esc = false;
        } else if c == '\\' {
            esc = true;
        } else if c == '"' {
            break;
        } else {
            out.push(c);
        }
    }
    out
}

#[test]
fn launch_option_reads_back_whole() {
    let option = "a \"quoted\" path\\ and \\\"more\"";
    let out = set_launch_in_vdf(VDF, "730", option).unwrap();
    let key = "\"LaunchOptions\"\t\t\"";
    let at = out.find(key).unwrap() + key.len();
    assert_eq!(read_vdf_string(&out, at), option);
}

#[test]
fn setting_a_launch_option_again_changes_nothing() {
    for option in ["WINEDLLOVERRIDES=\"winhttp=n,b\" %command%", "{ } \" \\ apps", ""] {
        let once = set_launch_in_vdf(VDF, "730", option).unwrap();
        let twice = set_launch_in_vdf(&once, "730", option).unwrap();
        assert_eq!(twice, once);
    }
    let once = set_launch_in_vdf(VDF, "440", "%command% -x").unwrap();
    assert_eq!(set_launch_in_vdf(&once, "440", "%command% -x").unwrap(), once);
}

#[test]
fn a_second_edit_reads_an_apps_value_as_the_section_key() {
    let c = "\"Apps\"\n{\n}";
    let once = set_launch_in_vdf(c, "1", "apps").unwrap();
    assert!(once.contains("\"LaunchOptions\"\t\t\"apps\""));
    assert_eq!(set_launch_in_vdf(&once, "1", "apps"), Err("malformed apps".to_string()));
}

#[test]
fn a_section_keyed_apps_in_capitals_is_edited_once() {
    let c = VDF.replace("\"apps\"", "\"Apps\"");
    for (id, option) in [("730", "-novid -high"), ("440", "%command% -x"), ("999", "WINEDLLOVERRIDES=\"winhttp=n,b\" %command%")] {
        let once = set_launch_in_vdf(&c, id, option).unwrap();
        assert_eq!(set_launch_in_vdf(&once, id, option).unwrap(), once);
    }
}
