use zyringe::cli::{
    check_assembly, check_target_class, elf_class, mount_noexec, path_under, stage_dirs, stage_paths,
};
use zyringe::maps::{find_mono_so, is_libc, libc_mapping, load_base};

const MOUNTINFO: &str = "\
22 1 8:2 / / rw,relatime shared:1 - ext4 /dev/sda2 rw
30 22 0:26 / /tmp rw,nosuid,nodev,noexec shared:5 - tmpfs tmpfs rw
31 22 0:27 / /dev/shm rw,nosuid,nodev shared:6 - tmpfs tmpfs rw
40 22 8:3 / /home rw,relatime shared:7 - ext4 /dev/sda3 rw
41 40 8:4 / /home/u/Games rw,noexec,relatime shared:8 - ext4 /dev/sda4 rw
";

#[test]
fn noexec_mounts_are_found() {
    assert!(mount_noexec(MOUNTINFO, "/tmp"));
    assert!(!mount_noexec(MOUNTINFO, "/dev/shm"));
    assert!(!mount_noexec(MOUNTINFO, "/home/u"));
    assert!(mount_noexec(MOUNTINFO, "/home/u/Games/G"));
    assert!(!mount_noexec(MOUNTINFO, "/tmpfoo"));
    assert!(!mount_noexec("", "/tmp"));
    assert!(path_under("/a/b", "/"));
    assert!(path_under("/a/b", "/a"));
    assert!(path_under("/a", "/a"));
    assert!(!path_under("/ab", "/a"));
}

#[test]
fn helper_staging_places() {
    assert_eq!(
        stage_dirs(true, false, Some(("/g".to_string(), false))),
        vec!["/dev/shm", "/g", "/tmp"]
    );
    assert_eq!(stage_dirs(false, false, None), vec!["/tmp", "/dev/shm", "/tmp"]);
    assert_eq!(stage_dirs(true, true, Some(("/g".to_string(), true))), vec!["/tmp"]);
    assert_eq!(
        stage_paths("/dev/shm", 321),
        ("/dev/shm/.zyringe-321.so".to_string(), "/proc/321/root/dev/shm/.zyringe-321.so".to_string())
    );
}

#[test]
fn target_and_assembly_headers() {
    assert_eq!(elf_class(b"\x7fELF\x02"), Ok(2));
    assert_eq!(elf_class(b"\x7fELF\x01"), Ok(1));
    assert_eq!(elf_class(b"#!/bin"), Err("target is not an ELF binary".to_string()));
    assert_eq!(check_target_class(2), Ok(()));
    assert_eq!(check_target_class(0), Ok(()));
    assert_eq!(check_target_class(1), Err("32-bit target is not supported (Zyringe is x86_64 only)".to_string()));
    assert_eq!(check_assembly("/m/x.dll", b"MZ\x90"), Ok(()));
    assert_eq!(check_assembly("/m/x.dll", b"M"), Err("/m/x.dll is not a PE/.NET assembly (no MZ header)".to_string()));
}

const MAPS: &str = "\
55d0c0000000-55d0c0001000 r--p 00000000 08:02 100 /usr/bin/game
7f1000002000-7f1000003000 r-xp 00001000 08:02 200 /usr/lib/x86_64-linux-gnu/libc.so.6
7f1000000000-7f1000001000 r--p 00000000 08:02 200 /usr/lib/x86_64-linux-gnu/libc.so.6
7f2000000000-7f2000001000 r-xp 00000000 08:02 300 /g/Game_Data/Mono/libmono.so
7f3000000000-7f3000001000 rw-p 00000000 00:00 0 
";

#[test]
fn maps_give_libc_and_mono() {
    assert_eq!(load_base(MAPS), Some(0x7f1000000000));
    assert_eq!(
        libc_mapping(MAPS),
        Some(("/usr/lib/x86_64-linux-gnu/libc.so.6".to_string(), 0x7f1000000000))
    );
    assert_eq!(find_mono_so(MAPS), Some("/g/Game_Data/Mono/libmono.so".to_string()));
    assert!(is_libc("libc.so.6"));
    assert!(is_libc("libc-2.31.so"));
    assert!(!is_libc("libcrypto.so.3"));
    assert_eq!(load_base(""), None);
}
