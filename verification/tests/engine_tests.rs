use zyringe::engine::{
    args_block, call_stack_pointer, call_wait_step, next_after_staging, resume_budget, AfterStaging,
    Unwind, check_attached, check_dlopen, check_dlsym, check_helper_rc,
    check_mapping, classify_stop, cstr, cstr_to_string, dlopen_args, dlsym_args,
    exited_message, hijack_score, is_parked, mmap_args, pick_hijack, poll_step,
    poll_timeout_secs, prepare_call, thread_ids, thread_state, translate_symbol,
    wchan_benign, Cancel, PollVerdict, Regs, StopVerdict, ThreadProbe, MAP_FAILED,
};
use zyringe::payload::{build_buffer, plan, ERR_CAP, HDR_LEN, RET_CAP, ZY_MAGIC};

fn u64_at(b: &[u8], o: usize) -> u64 {
    u64::from_le_bytes(b[o..o + 8].try_into().unwrap())
}

#[test]
fn request_buffer_reads_back() {
    let dll = vec![0x4d, 0x5a, 1, 2, 3];
    let ns = cstr("Ns");
    let class = cstr("Loader");
    let method = cstr("Init");
    let mono = cstr("/g/libmonobdwgc-2.0.so");
    let path = cstr("/m/Mod.dll");
    let helper = cstr("/tmp/.zyringe-7.so");
    let zrun = cstr("zyringe_run");
    let args = args_block(&vec!["a".to_string(), "bc".to_string()]);
    assert_eq!(args, b"a\0bc\0".to_vec());
    let lay = plan(dll.len(), &ns, &class, &method, &mono, &path, &helper, &zrun, args.len());
    assert_eq!(lay.ns, HDR_LEN);
    assert_eq!(lay.total % 4096, 0);
    assert_eq!(lay.dll % 16, 0);
    assert_eq!(lay.error % 8, 0);
    assert_eq!(lay.ret, lay.error + ERR_CAP);
    assert_eq!(lay.args, lay.ret + RET_CAP);
    let base = 0x7000_0000_0000u64;
    let buf = build_buffer(base, &lay, &dll, &ns, &class, &method, &mono, &path, &helper, &zrun, &args, 2);
    assert_eq!(buf.len(), lay.total);
    assert_eq!(u32::from_le_bytes(buf[0..4].try_into().unwrap()), ZY_MAGIC);
    assert_eq!(u32::from_le_bytes(buf[4..8].try_into().unwrap()), 0);
    assert_eq!(u32::from_le_bytes(buf[8..12].try_into().unwrap()), 0);
    assert_eq!(u64_at(&buf, 16), base + lay.dll as u64);
    assert_eq!(u64_at(&buf, 24), dll.len() as u64);
    assert_eq!(u64_at(&buf, 32), base + lay.ns as u64);
    assert_eq!(u64_at(&buf, 72), ERR_CAP as u64);
    assert_eq!(u32::from_le_bytes(buf[88..92].try_into().unwrap()), 2);
    assert_eq!(u64_at(&buf, 120), lay.total as u64);
    assert_eq!(&buf[lay.dll..lay.dll + dll.len()], &dll[..]);
    assert_eq!(&buf[lay.helper..lay.helper + helper.len()], &helper[..]);
    assert_eq!(&buf[lay.args..lay.args + args.len()], &args[..]);
}

#[test]
fn remote_calls_are_prepared() {
    let p = Regs { rdi: 1, rsi: 2, rdx: 3, rcx: 4, r8: 5, r9: 6, rsp: 0x7ffd_0000_1237, rip: 9, rax: 7 };
    let r = prepare_call(p, 0xdead, &[10, 20]).unwrap();
    assert_eq!((r.rdi, r.rsi, r.rdx, r.rcx), (10, 20, 3, 4));
    assert_eq!(r.rip, 0xdead);
    assert_eq!(r.rax, 0);
    assert_eq!(r.rsp, ((0x7ffd_0000_1237u64 - 512) & !0xf) - 8);
    assert_eq!(r.rsp % 16, 8);
    assert_eq!(prepare_call(p, 1, &[0; 7]).err(), Some("too many args for remote_call".to_string()));
    assert_eq!(call_stack_pointer(100) % 16, 8);
    assert_eq!(mmap_args(8192), vec![0, 8192, 3, 0x22, u64::MAX, 0]);
    assert_eq!(dlopen_args(0x1000, 0x80), vec![0x1080, 2]);
    assert_eq!(dlsym_args(0x55, 0x1000, 0x90), vec![0x55, 0x1090]);
}

#[test]
fn remote_results_are_checked() {
    assert_eq!(check_mapping(MAP_FAILED).err(), Some("remote mmap failed".to_string()));
    assert_eq!(check_mapping(0).err(), Some("remote mmap failed".to_string()));
    assert_eq!(check_mapping(0x1000), Ok(0x1000));
    assert_eq!(check_dlopen(0).err(), Some("dlopen(helper) returned NULL in target".to_string()));
    assert_eq!(check_dlsym(0).err(), Some("dlsym(zyringe_run) returned NULL".to_string()));
    assert_eq!(check_dlsym(5), Ok(5));
    assert_eq!(check_helper_rc(0x1_0000_0000), Ok(()));
    assert_eq!(check_helper_rc(0xffff_ffff), Err("zyringe_run rejected the request (rc=-1)".to_string()));
    assert_eq!(check_attached(vec![]).err(), Some("could not attach to any thread".to_string()));
    assert_eq!(check_attached(vec![3]), Ok(vec![3]));
}

#[test]
fn stops_during_a_remote_call() {
    assert!(matches!(classify_stop(11, 0, 42), StopVerdict::Returned(42)));
    assert!(matches!(classify_stop(5, 0, 7), StopVerdict::Returned(7)));
    match classify_stop(11, 0xabc, 0) {
        StopVerdict::Failed(m) => assert_eq!(m, "unexpected SIGSEGV at rip=0xabc"),
        _ => panic!(),
    }
    assert!(matches!(classify_stop(19, 0, 0), StopVerdict::Deliver(19)));
    assert!(matches!(classify_stop(5, 1, 0), StopVerdict::Deliver(5)));
    assert_eq!(exited_message(-2), "target exited (code -2)");
}

#[test]
fn borrowed_thread_is_chosen() {
    let t = |tid, parked, state, benign| ThreadProbe { tid, regs_ok: true, parked, state, benign_wait: benign };
    let probes = vec![t(100, false, Some(b'S'), true), t(101, true, Some(b'S'), false), t(102, true, Some(b'S'), true)];
    assert_eq!(hijack_score(&probes[2], 100), 10);
    assert_eq!(pick_hijack(&probes, 100), Some(2));
    let weak = vec![t(100, false, Some(b'S'), true), t(101, false, Some(b'R'), true)];
    assert_eq!(pick_hijack(&weak, 100), None);
    assert!(is_parked(0x1002, Some(&[0x0f, 0x05])));
    assert!(!is_parked(0x1002, Some(&[0x0f, 0x04])));
    assert!(!is_parked(1, None));
    assert_eq!(thread_state("1234 (my (game)) S 1 2 3"), Some(b'S'));
    assert_eq!(thread_state("1234 (x)"), None);
    assert!(wchan_benign("futex_wait_queue"));
    assert!(!wchan_benign("0"));
    assert_eq!(thread_ids(&vec!["10".into(), "x".into(), "12".into()], 10), vec![10, 12]);
    assert_eq!(thread_ids(&vec!["x".into()], 7), vec![7]);
}

#[test]
fn helper_status_is_polled() {
    assert!(matches!(poll_step(1, b"", false, false), PollVerdict::Done(Ok(()))));
    match poll_step(2, b"boom\0junk", false, false) {
        PollVerdict::Done(Err(m)) => assert_eq!(m, "boom"),
        _ => panic!(),
    }
    match poll_step(2, b"\0", false, false) {
        PollVerdict::Done(Err(m)) => assert_eq!(m, "helper reported failure"),
        _ => panic!(),
    }
    match poll_step(0, b"", true, true) {
        PollVerdict::Done(Err(m)) => assert_eq!(m, "cancelled by user"),
        _ => panic!(),
    }
    match poll_step(0, b"", false, true) {
        PollVerdict::Done(Err(m)) => assert!(m.starts_with("timed out waiting for the managed entry point")),
        _ => panic!(),
    }
    assert!(matches!(poll_step(0, b"", false, false), PollVerdict::Wait));
    assert_eq!(poll_timeout_secs(None), 40);
    assert_eq!(poll_timeout_secs(Some(2)), 5);
    assert_eq!(poll_timeout_secs(Some(90)), 90);
}

#[test]
fn symbols_translate_between_processes() {
    assert_eq!(translate_symbol(Some(0x1000), Some(0x9000), 0x1234, "mmap"), Ok(0x9234));
    assert_eq!(translate_symbol(None, Some(1), 1, "mmap").err(), Some("libc base not found in self maps".to_string()));
    assert_eq!(translate_symbol(Some(1), None, 1, "mmap").err(), Some("libc base not found in target maps".to_string()));
    assert_eq!(translate_symbol(Some(1), Some(1), 0, "dlsym").err(), Some("dlsym(dlsym) returned NULL".to_string()));
    assert_eq!(translate_symbol(Some(0x1000), Some(1), 0x10, "mmap").err(), Some("mmap below libc base".to_string()));
}

#[test]
fn c_strings_round_trip() {
    assert_eq!(cstr("abc"), b"abc\0".to_vec());
    assert_eq!(cstr_to_string(b"abc\0def"), "abc");
    assert_eq!(cstr_to_string(b"ab\xffc"), "ab\u{fffd}c");
    let c = Cancel::new(Some("/run/x"));
    assert_eq!(c.path(), Some("/run/x"));
    assert_eq!(Cancel::new(None).path(), None);
}

#[test]
fn nul_free_text_reads_back_from_its_c_string() {
    for t in ["", "Init", "Zyringe.Loader", "déjà vu ✓", "日本語"] {
        let b = cstr(t);
        assert_eq!(b.len(), t.len() + 1);
        assert_eq!(*b.last().unwrap(), 0);
        assert_eq!(cstr_to_string(&b), t);
    }
}

#[test]
fn remote_call_waits_are_bounded() {
    assert_eq!(call_wait_step(true, true), Some("cancelled".to_string()));
    assert_eq!(
        call_wait_step(false, true),
        Some("remote call timed out — target may not be a live Mono game (no initialized runtime?)".to_string())
    );
    assert_eq!(call_wait_step(false, false), None);
    assert_eq!(resume_budget(0), Ok(()));
    assert_eq!(resume_budget(1023), Ok(()));
    assert_eq!(resume_budget(1024), Err("remote call did not return".to_string()));
}

#[test]
fn go_word_follows_the_detach() {
    let mut u = Unwind { staged: Ok(0x7000), restored: false, detached: false, armed: false };
    assert!(matches!(next_after_staging(&u), AfterStaging::RestoreRegisters));
    u.restored = true;
    assert!(matches!(next_after_staging(&u), AfterStaging::DetachAll));
    u.detached = true;
    assert!(matches!(next_after_staging(&u), AfterStaging::WriteGo(0x7000)));
    u.armed = true;
    assert!(matches!(next_after_staging(&u), AfterStaging::Poll(0x7000)));
    let failed = Unwind { staged: Err("dlopen failed".into()), restored: true, detached: false, armed: false };
    assert!(matches!(next_after_staging(&failed), AfterStaging::DetachAll));
    let failed = Unwind { detached: true, ..failed };
    match next_after_staging(&failed) {
        AfterStaging::Fail(m) => assert_eq!(m, "dlopen failed"),
        other => panic!("{other:?}"),
    }
}
