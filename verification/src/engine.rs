//! The decisions taken while injecting through `ptrace`: which thread to borrow, how a
//! remote call's stack is set up, how its stops are read, how the symbols of the target's
//! C library are located, and how the helper's result is read back.
use vstd::prelude::*;
use vstd::string::StringSliceAdditionalSpecFns;
use vstd::utf8::{decode_utf8, encode_scalar, encode_utf8, valid_utf8};
use crate::bytes::{cstr_prefix, lemma_nul_index};
use crate::elf::{lookup_from, Elf};
use crate::num::{hex, parse_i32, parse_i32_text, push_hex, push_signed, signed_decimal};
use crate::text::{chars_of, contains, contains_exec, lossy_string, push_str, strings_view, utf8_lossy};

verus! {

/// `s` as a NUL-terminated byte string.
pub fn cstr(s: &str) -> (v: Vec<u8>)
    ensures
        v@ == s.spec_bytes().push(0u8),
{
    let b = s.as_bytes();
    let mut v: Vec<u8> = Vec::new();
    let mut i: usize = 0;
    while i < b.len()
        invariant
            i <= b@.len(),
            v@ == b@.take(i as int),
        decreases b@.len() - i,
    {
        v.push(b[i]);
        assert(v@ =~= b@.take(i + 1));
        i = i + 1;
    }
    assert(b@.take(b@.len() as int) =~= b@);
    v.push(0);
    v
}

/// The text of a NUL-terminated byte string (all of `bytes` when there is no NUL).
pub fn cstr_to_string(bytes: &[u8]) -> (s: String)
    ensures
        s@ == utf8_lossy(cstr_prefix(bytes@)),
        valid_utf8(cstr_prefix(bytes@)) ==> s@ == decode_utf8(cstr_prefix(bytes@)),
{
    let n = crate::bytes::nul_offset(bytes, 0, bytes.len());
    assert(bytes@.subrange(0, bytes@.len() as int) =~= bytes@);
    let head = &bytes[0..n];
    assert(head@ =~= cstr_prefix(bytes@));
    lossy_string(head)
}

/// The UTF-8 encoding of a scalar other than zero holds no zero byte.
proof fn lemma_scalar_has_no_nul(c: u32)
    requires
        c != 0,
    ensures
        forall|i: int| 0 <= i < encode_scalar(c).len() ==> encode_scalar(c)[i] != 0u8,
{
    assert(c != 0 && c <= 0x7F ==> (c & 0x7F) as u8 != 0u8) by (bit_vector);
    assert(0x80u8 | ((c & 0x3F) as u8) != 0u8) by (bit_vector);
    assert(0x80u8 | (((c >> 6) & 0x3F) as u8) != 0u8) by (bit_vector);
    assert(0x80u8 | (((c >> 12) & 0x3F) as u8) != 0u8) by (bit_vector);
    assert(0xC0u8 | (((c >> 6) & 0x1F) as u8) != 0u8) by (bit_vector);
    assert(0xE0u8 | (((c >> 12) & 0x0F) as u8) != 0u8) by (bit_vector);
    assert(0xF0u8 | (((c >> 18) & 0x7) as u8) != 0u8) by (bit_vector);
}

/// The UTF-8 encoding of a text that holds no NUL character holds no zero byte.
proof fn lemma_encoding_has_no_nul(s: Seq<char>)
    requires
        !s.contains('\0'),
    ensures
        forall|i: int| 0 <= i < encode_utf8(s).len() ==> encode_utf8(s)[i] != 0u8,
    decreases s.len(),
{
    if s.len() > 0 {
        let head = encode_scalar(s[0] as u32);
        let rest = s.drop_first();
        assert(s[0] != '\0');
        assert(s[0] as u32 != 0) by {
            vstd::utf8::char_u32_cast(s[0], s[0] as u32);
            vstd::utf8::char_u32_cast('\0', '\0' as u32);
            assert('\0' as u32 == 0);
        }
        lemma_scalar_has_no_nul(s[0] as u32);
        assert(!rest.contains('\0')) by {
            if rest.contains('\0') {
                let k = choose|k: int| 0 <= k < rest.len() && rest[k] == '\0';
                assert(s[k + 1] == '\0');
            }
        }
        lemma_encoding_has_no_nul(rest);
        assert(encode_utf8(s) == head + encode_utf8(rest));
        assert forall|i: int| 0 <= i < encode_utf8(s).len() implies encode_utf8(s)[i] != 0u8 by {
            if i < head.len() {
                assert(encode_utf8(s)[i] == head[i]);
            } else {
                assert(encode_utf8(s)[i] == encode_utf8(rest)[i - head.len()]);
            }
        }
    }
}

/// A text that holds no NUL reads back from its NUL-terminated bytes unchanged: the bytes
/// `cstr` makes of `s` end at their first zero, and what comes before it is `s`'s valid UTF-8
/// encoding, so `cstr_to_string(&cstr(s))` gives `s`.
pub proof fn lemma_cstr_round_trip(s: Seq<char>)
    requires
        !s.contains('\0'),
    ensures
        cstr_prefix(encode_utf8(s).push(0u8)) == encode_utf8(s),
        valid_utf8(cstr_prefix(encode_utf8(s).push(0u8))),
        decode_utf8(cstr_prefix(encode_utf8(s).push(0u8))) == s,
{
    let e = encode_utf8(s);
    let b = e.push(0u8);
    lemma_encoding_has_no_nul(s);
    lemma_nul_index(b, e.len() as int);
    assert(b.take(e.len() as int) =~= e);
    vstd::utf8::encode_utf8_valid_utf8(s);
    vstd::utf8::encode_utf8_decode_utf8(s);
}

/// The arguments as one block of NUL-terminated strings.
pub open spec fn args_block_spec(args: Seq<Seq<u8>>) -> Seq<u8>
    decreases args.len(),
{
    if args.len() == 0 {
        Seq::empty()
    } else {
        args_block_spec(args.drop_last()) + args.last().push(0u8)
    }
}

/// The UTF-8 bytes of each argument.
pub open spec fn arg_bytes(args: Seq<String>) -> Seq<Seq<u8>> {
    args.map_values(|a: String| encode_utf8(a@))
}

/// Packs the arguments passed to the managed entry point into one block, each
/// NUL-terminated, in order.
pub fn args_block(args: &Vec<String>) -> (block: Vec<u8>)
    ensures
        block@ == args_block_spec(arg_bytes(args@)),
{
    let mut block: Vec<u8> = Vec::new();
    let mut i: usize = 0;
    while i < args.len()
        invariant
            i <= args@.len(),
            block@ == args_block_spec(arg_bytes(args@.take(i as int))),
        decreases args@.len() - i,
    {
        let b = args[i].as_str().as_bytes();
        let mut k: usize = 0;
        let ghost start = block@;
        while k < b.len()
            invariant
                k <= b@.len(),
                block@ == start + b@.take(k as int),
            decreases b@.len() - k,
        {
            block.push(b[k]);
            assert(block@ =~= start + b@.take(k + 1));
            k = k + 1;
        }
        block.push(0);
        proof {
            assert(b@.take(b@.len() as int) =~= b@);
            assert(arg_bytes(args@.take(i + 1)).drop_last() =~= arg_bytes(args@.take(i as int)));
            assert(arg_bytes(args@.take(i + 1)).last() == b@);
            assert(block@ =~= start + b@.push(0u8));
        }
        i = i + 1;
    }
    assert(args@.take(args@.len() as int) =~= args@);
    block
}

/// Whether the two bytes before the instruction pointer are a `syscall` instruction
/// (`0f 05`), i.e. the thread is parked in a system call.
pub open spec fn parked_spec(rip: u64, before: Option<Seq<u8>>) -> bool {
    rip >= 2 && before == Some(seq![0x0fu8, 0x05u8])
}

/// Decides whether a thread is parked in a system call from its instruction pointer and the
/// two bytes read just before it (if they could be read).
pub fn is_parked(rip: u64, before: Option<&[u8]>) -> (r: bool)
    ensures
        r == parked_spec(
            rip,
            match before {
                Some(b) => Some(b@),
                None => None,
            },
        ),
{
    if rip < 2 {
        return false;
    }
    match before {
        Some(b) => {
            if b.len() == 2 && b[0] == 0x0f && b[1] == 0x05 {
                assert(b@ =~= seq![0x0fu8, 0x05u8]);
                true
            } else {
                proof {
                    if b@ == seq![0x0fu8, 0x05u8] {
                        assert(b@[0] == 0x0fu8 && b@[1] == 0x05u8);
                    }
                }
                false
            }
        },
        None => false,
    }
}

/// What is known of one thread of the target when choosing which one to borrow.
#[derive(Clone, Copy, Debug)]
pub struct ThreadProbe {
    /// The thread id.
    pub tid: i32,
    /// Whether its registers could be read (threads whose registers cannot be read are skipped).
    pub regs_ok: bool,
    /// Whether it sits right after a `syscall` instruction.
    pub parked: bool,
    /// Its scheduler state letter, if known.
    pub state: Option<u8>,
    /// Whether it waits in a kernel function that is safe to interrupt.
    pub benign_wait: bool,
}

/// How suitable a thread is to be borrowed: parked in a system call counts most,
/// then sleeping (`S`), then waiting somewhere benign, then not being the main thread.
pub open spec fn hijack_score_spec(p: ThreadProbe, pid: i32) -> int {
    (if p.parked { 5int } else { 0 }) + (if p.state == Some(0x53u8) { 2int } else { 0 }) + (if p.benign_wait {
        2int
    } else {
        0
    }) + (if p.tid != pid { 1int } else { 0 })
}

/// The score of a thread.
pub fn hijack_score(p: &ThreadProbe, pid: i32) -> (s: i32)
    ensures
        s == hijack_score_spec(*p, pid),
{
    let mut score: i32 = 0;
    if p.parked {
        score = score + 5;
    }
    if p.state == Some(0x53u8) {
        score = score + 2;
    }
    if p.benign_wait {
        score = score + 2;
    }
    if p.tid != pid {
        score = score + 1;
    }
    score
}

/// The index of the first thread, among `probes[..k]` whose registers could be read,
/// with the highest score; `None` when there is none.
pub open spec fn best_probe(probes: Seq<ThreadProbe>, pid: i32, k: int) -> Option<int>
    decreases k,
{
    if k <= 0 {
        None
    } else {
        let prev = best_probe(probes, pid, k - 1);
        let p = probes[k - 1];
        if !p.regs_ok {
            prev
        } else {
            match prev {
                None => Some(k - 1),
                Some(b) => if hijack_score_spec(p, pid) > hijack_score_spec(probes[b], pid) {
                    Some(k - 1)
                } else {
                    prev
                },
            }
        }
    }
}

/// The thread to borrow: the best-scoring one if it is parked in a system call (a score of
/// at least 5); otherwise `None`, and the main thread is taken.
pub open spec fn pick_hijack_spec(probes: Seq<ThreadProbe>, pid: i32) -> Option<int> {
    match best_probe(probes, pid, probes.len() as int) {
        Some(b) => if hijack_score_spec(probes[b], pid) >= 5 {
            Some(b)
        } else {
            None
        },
        None => None,
    }
}

/// Chooses which thread to borrow for the remote calls.
pub fn pick_hijack(probes: &Vec<ThreadProbe>, pid: i32) -> (r: Option<usize>)
    ensures
        match r {
            Some(i) => pick_hijack_spec(probes@, pid) == Some(i as int) && i < probes@.len(),
            None => pick_hijack_spec(probes@, pid) is None,
        },
{
    let mut best: Option<(i32, usize)> = None;
    let mut k: usize = 0;
    while k < probes.len()
        invariant
            k <= probes@.len(),
            match best {
                None => best_probe(probes@, pid, k as int) is None,
                Some((s, b)) => best_probe(probes@, pid, k as int) == Some(b as int) && b < k && s
                    == hijack_score_spec(probes@[b as int], pid),
            },
        decreases probes@.len() - k,
    {
        let p = &probes[k];
        if p.regs_ok {
            let score = hijack_score(p, pid);
            let better = match best {
                None => true,
                Some((s, _)) => score > s,
            };
            if better {
                best = Some((score, k));
            }
        }
        k = k + 1;
    }
    match best {
        Some((s, b)) => if s >= 5 {
            Some(b)
        } else {
            None
        },
        None => None,
    }
}

/// The index of the last `)` in `b[..end]`, or -1.
pub open spec fn last_paren(b: Seq<u8>, end: int) -> int
    decreases end,
{
    if end <= 0 || end > b.len() {
        -1
    } else if b[end - 1] == 0x29 {
        end - 1
    } else {
        last_paren(b, end - 1)
    }
}

/// The scheduler state in a `/proc/<pid>/task/<tid>/stat` text: the byte two places after
/// the last `)` (which closes the command name).
pub open spec fn stat_state(stat: Seq<u8>) -> Option<u8> {
    let close = last_paren(stat, stat.len() as int);
    if close < 0 || close + 2 >= stat.len() {
        None
    } else {
        Some(stat[close + 2])
    }
}

/// Reads the scheduler state out of a thread's `stat` text.
pub fn thread_state(stat: &str) -> (r: Option<u8>)
    ensures
        r == stat_state(stat.spec_bytes()),
{
    let b = stat.as_bytes();
    let mut end = b.len();
    while end > 0 && b[end - 1] != 0x29
        invariant
            end <= b@.len(),
            last_paren(b@, b@.len() as int) == last_paren(b@, end as int),
        decreases end,
    {
        end = end - 1;
    }
    if end == 0 {
        return None;
    }
    let close = end - 1;
    if b.len() - close <= 2 {
        None
    } else {
        Some(b[close + 2])
    }
}

/// Whether a kernel wait channel name is one where interrupting the thread is harmless.
pub open spec fn wchan_benign_spec(w: Seq<char>) -> bool {
    contains(w, "futex"@) || contains(w, "poll"@) || contains(w, "select"@) || contains(w, "epoll"@)
        || contains(w, "read"@) || contains(w, "nanosleep"@) || contains(w, "wait"@) || contains(
        w,
        "sigtimedwait"@,
    ) || contains(w, "recv"@) || contains(w, "accept"@)
}

/// Decides whether a thread's wait channel is benign.
pub fn wchan_benign(w: &str) -> (r: bool)
    ensures
        r == wchan_benign_spec(w@),
{
    let v = chars_of(w);
    contains_exec(&v, &chars_of("futex")) || contains_exec(&v, &chars_of("poll")) || contains_exec(
        &v,
        &chars_of("select"),
    ) || contains_exec(&v, &chars_of("epoll")) || contains_exec(&v, &chars_of("read"))
        || contains_exec(&v, &chars_of("nanosleep")) || contains_exec(&v, &chars_of("wait"))
        || contains_exec(&v, &chars_of("sigtimedwait")) || contains_exec(&v, &chars_of("recv"))
        || contains_exec(&v, &chars_of("accept"))
}

/// `a - b` modulo 2^64.
pub open spec fn sub_wrap(a: u64, b: u64) -> u64 {
    if a >= b {
        (a - b) as u64
    } else {
        (a - b + 0x1_0000_0000_0000_0000) as u64
    }
}

/// The stack pointer for a call made on a thread whose stack pointer is `rsp`: 512 bytes
/// below it (past the red zone), aligned down to 16, less 8 for the zero return address
/// that makes the callee fault at address 0 when it returns.
pub open spec fn call_stack_spec(rsp: u64) -> u64 {
    sub_wrap(sub_wrap(rsp, 512) & !0xFu64, 8)
}

/// Computes the stack pointer for a remote call. The result is 8 modulo 16, as the
/// System V ABI has it at a function's entry.
pub fn call_stack_pointer(rsp: u64) -> (sp: u64)
    ensures
        sp == call_stack_spec(rsp),
        sp % 16 == 8,
{
    let a = rsp.wrapping_sub(512);
    let b = a & !0xFu64;
    let sp = b.wrapping_sub(8);
    assert(b % 16 == 0) by (bit_vector)
        requires
            b == a & !0xFu64,
    ;
    sp
}

/// How a stop of the borrowed thread during a remote call is handled.
pub enum StopVerdict {
    /// The call returned (it jumped to address 0): its result.
    Returned(u64),
    /// The call failed with this message.
    Failed(String),
    /// Another signal: deliver it and continue.
    Deliver(i32),
}

/// The signal number of `SIGTRAP`.
pub const SIGTRAP: i32 = 5;
/// The signal number of `SIGSEGV`.
pub const SIGSEGV: i32 = 11;

/// A stop by signal `sig` at `rip` ends the call when the thread jumped to address 0 (by
/// `SIGSEGV` or `SIGTRAP`), fails it on any other `SIGSEGV`, and is passed on otherwise.
pub fn classify_stop(sig: i32, rip: u64, rax: u64) -> (v: StopVerdict)
    ensures
        match v {
            StopVerdict::Returned(x) => (sig == SIGSEGV || sig == SIGTRAP) && rip == 0 && x == rax,
            StopVerdict::Failed(m) => sig == SIGSEGV && rip != 0 && m@ == "unexpected SIGSEGV at rip=0x"@
                + hex(rip as nat),
            StopVerdict::Deliver(s) => sig != SIGSEGV && !(sig == SIGTRAP && rip == 0) && s == sig,
        },
{
    if (sig == SIGSEGV || sig == SIGTRAP) && rip == 0 {
        return StopVerdict::Returned(rax);
    }
    if sig == SIGSEGV {
        let mut m = String::new();
        push_str(&mut m, "unexpected SIGSEGV at rip=0x");
        push_hex(&mut m, rip);
        return StopVerdict::Failed(m);
    }
    StopVerdict::Deliver(sig)
}

/// The message for a target that exited with `code` during a remote call.
pub fn exited_message(code: i32) -> (m: String)
    ensures
        m@ == "target exited (code "@ + signed_decimal(code as int) + ")"@,
{
    let mut m = String::new();
    push_str(&mut m, "target exited (code ");
    push_signed(&mut m, code as i64);
    push_str(&mut m, ")");
    m
}

/// The value `mmap` returns on failure.
pub const MAP_FAILED: u64 = 0xFFFF_FFFF_FFFF_FFFF;

/// Checks the address returned by the remote `mmap`.
pub fn check_mapping(base: u64) -> (r: Result<u64, String>)
    ensures
        match r {
            Ok(b) => b == base && base != MAP_FAILED && base != 0,
            Err(m) => (base == MAP_FAILED || base == 0) && m@ == "remote mmap failed"@,
        },
{
    if base == MAP_FAILED || base == 0 {
        Err(String::from_str("remote mmap failed"))
    } else {
        Ok(base)
    }
}

/// Checks the value returned by the helper's entry function: its low 32 bits must be 0.
pub fn check_helper_rc(rc: u64) -> (r: Result<(), String>)
    ensures
        match r {
            Ok(()) => rc as u32 == 0,
            Err(m) => rc as u32 != 0 && m@ == "zyringe_run rejected the request (rc="@ + signed_decimal(
                rc as i32 as int,
            ) + ")"@,
        },
{
    if rc as u32 == 0 {
        Ok(())
    } else {
        let mut m = String::new();
        push_str(&mut m, "zyringe_run rejected the request (rc=");
        push_signed(&mut m, rc as i32 as i64);
        push_str(&mut m, ")");
        Err(m)
    }
}

/// `a + b` modulo 2^64.
pub open spec fn add_wrap(a: u64, b: u64) -> u64 {
    if a + b <= u64::MAX {
        (a + b) as u64
    } else {
        (a + b - 0x1_0000_0000_0000_0000) as u64
    }
}

/// Where `mmap`, `dlopen` and `dlsym` are in the target.
#[derive(Clone, Copy, Debug)]
pub struct LibcSyms {
    pub mmap: u64,
    pub dlopen: u64,
    pub dlsym: u64,
}

/// The addresses of `mmap`, `dlopen` (or, failing that, `__libc_dlopen_mode`) and `dlsym`
/// in a C library image `d` with layout `info`, loaded `bias` bytes above its link-time
/// addresses; `None` unless all three are found.
pub open spec fn libc_syms_spec(d: Seq<u8>, info: crate::elf::ElfInfo, bias: u64) -> Option<LibcSyms> {
    let mmap = lookup_from(d, info, "mmap".spec_bytes(), 0);
    let dlopen = match lookup_from(d, info, "dlopen".spec_bytes(), 0) {
        Some(v) => Some(v),
        None => lookup_from(d, info, "__libc_dlopen_mode".spec_bytes(), 0),
    };
    let dlsym = lookup_from(d, info, "dlsym".spec_bytes(), 0);
    match (mmap, dlopen, dlsym) {
        (Some(m), Some(o), Some(s)) => Some(
            LibcSyms { mmap: add_wrap(bias, m), dlopen: add_wrap(bias, o), dlsym: add_wrap(bias, s) },
        ),
        _ => None,
    }
}

/// `v` moved by `base - low`, modulo 2^64: where a symbol at `v` in an image whose lowest
/// segment is at `low` lies when that segment is mapped at `base`.
pub open spec fn moved_to(v: u64, low: u64, base: u64) -> int {
    (base - low + v) % 0x1_0000_0000_0000_0000
}

/// The C library's symbols are found where the image puts them, moved with the image: each
/// of `mmap`, `dlopen` (else `__libc_dlopen_mode`) and `dlsym` lies at its symbol value moved
/// by the distance between the image's lowest segment and where that segment is mapped.
pub proof fn lemma_symbols_move_with_the_image(d: Seq<u8>, info: crate::elf::ElfInfo, base: u64)
    ensures
        libc_syms_spec(d, info, sub_wrap(base, info.min_vaddr)) matches Some(s) ==> {
            let dl = match lookup_from(d, info, "dlopen".spec_bytes(), 0) {
                Some(v) => v,
                None => lookup_from(d, info, "__libc_dlopen_mode".spec_bytes(), 0)->0,
            };
            &&& s.mmap == moved_to(lookup_from(d, info, "mmap".spec_bytes(), 0)->0, info.min_vaddr, base)
            &&& s.dlopen == moved_to(dl, info.min_vaddr, base)
            &&& s.dlsym == moved_to(lookup_from(d, info, "dlsym".spec_bytes(), 0)->0, info.min_vaddr, base)
        },
{
    let bias = sub_wrap(base, info.min_vaddr);
    assert(bias == (base - info.min_vaddr) % 0x1_0000_0000_0000_0000);
    assert forall|v: u64| #[trigger] add_wrap(bias, v) == moved_to(v, info.min_vaddr, base) by {
        assert(add_wrap(bias, v) == (bias + v) % 0x1_0000_0000_0000_0000);
        vstd::arithmetic::div_mod::lemma_add_mod_noop(
            base - info.min_vaddr,
            v as int,
            0x1_0000_0000_0000_0000,
        );
        vstd::arithmetic::div_mod::lemma_mod_twice(v as int, 0x1_0000_0000_0000_0000);
        vstd::arithmetic::div_mod::lemma_small_mod(v as nat, 0x1_0000_0000_0000_0000);
    }
}

/// Locates `mmap`, `dlopen` and `dlsym` in the target from its C library's image, mapped
/// with its lowest segment at `base`.
pub fn libc_symbols(elf: &Elf, base: u64) -> (r: Option<LibcSyms>)
    ensures
        r == libc_syms_spec(elf.bytes(), elf.info(), sub_wrap(base, elf.info().min_vaddr)),
{
    let bias = base.wrapping_sub(elf.min_vaddr());
    let mmap = elf.resolve("mmap");
    let dlopen = match elf.resolve("dlopen") {
        Some(v) => Some(v),
        None => elf.resolve("__libc_dlopen_mode"),
    };
    let dlsym = elf.resolve("dlsym");
    match (mmap, dlopen, dlsym) {
        (Some(m), Some(o), Some(s)) => Some(
            LibcSyms { mmap: bias.wrapping_add(m), dlopen: bias.wrapping_add(o), dlsym: bias.wrapping_add(s) },
        ),
        _ => None,
    }
}

/// The address in the target of a C-library symbol found at `local` in this process, given
/// where the C library starts here and there.
pub open spec fn translate_spec(local_base: Option<u64>, remote_base: Option<u64>, local: u64, name: Seq<char>) -> Result<u64, Seq<char>> {
    match local_base {
        None => Err("libc base not found in self maps"@),
        Some(lb) => match remote_base {
            None => Err("libc base not found in target maps"@),
            Some(rb) => if local == 0 {
                Err("dlsym("@ + name + ") returned NULL"@)
            } else if local < lb {
                Err(name + " below libc base"@)
            } else {
                Ok(add_wrap(rb, (local - lb) as u64))
            },
        },
    }
}

/// Translates a C-library symbol's address in this process into the target.
pub fn translate_symbol(local_base: Option<u64>, remote_base: Option<u64>, local: u64, name: &str) -> (r: Result<u64, String>)
    ensures
        match r {
            Ok(a) => translate_spec(local_base, remote_base, local, name@) == Ok::<u64, Seq<char>>(a),
            Err(m) => translate_spec(local_base, remote_base, local, name@) == Err::<u64, Seq<char>>(m@),
        },
{
    let lb = match local_base {
        None => {
            return Err(String::from_str("libc base not found in self maps"));
        },
        Some(b) => b,
    };
    let rb = match remote_base {
        None => {
            return Err(String::from_str("libc base not found in target maps"));
        },
        Some(b) => b,
    };
    if local == 0 {
        let mut m = String::new();
        push_str(&mut m, "dlsym(");
        push_str(&mut m, name);
        push_str(&mut m, ") returned NULL");
        return Err(m);
    }
    if local < lb {
        let mut m = String::new();
        push_str(&mut m, name);
        push_str(&mut m, " below libc base");
        return Err(m);
    }
    Ok(rb.wrapping_add(local - lb))
}

/// The thread ids named by the entries of `/proc/<pid>/task` that parse as `i32`, in order;
/// `[pid]` when there is none.
pub open spec fn thread_ids_spec(names: Seq<Seq<char>>, pid: i32) -> Seq<i32> {
    let ids = parsed_ids(names);
    if ids.len() == 0 {
        seq![pid]
    } else {
        ids
    }
}

/// The names that parse as `i32`, parsed, in order.
pub open spec fn parsed_ids(names: Seq<Seq<char>>) -> Seq<i32>
    decreases names.len(),
{
    if names.len() == 0 {
        Seq::empty()
    } else {
        let rest = parsed_ids(names.drop_last());
        match parse_i32_text(names.last()) {
            Some(t) => rest.push(t),
            None => rest,
        }
    }
}

/// Lists a target's threads from the entry names of its `task` directory.
pub fn thread_ids(names: &Vec<String>, pid: i32) -> (ids: Vec<i32>)
    ensures
        ids@ == thread_ids_spec(strings_view(names@), pid),
{
    let mut ids: Vec<i32> = Vec::new();
    let mut i: usize = 0;
    while i < names.len()
        invariant
            i <= names@.len(),
            ids@ == parsed_ids(strings_view(names@.take(i as int))),
        decreases names@.len() - i,
    {
        let v = chars_of(names[i].as_str());
        let r = parse_i32(&v);
        proof {
            assert(strings_view(names@.take(i + 1)).drop_last() =~= strings_view(names@.take(i as int)));
            assert(strings_view(names@.take(i + 1)).last() == names@[i as int]@);
        }
        if let Some(t) = r {
            ids.push(t);
        }
        i = i + 1;
    }
    assert(names@.take(names@.len() as int) =~= names@);
    if ids.len() == 0 {
        ids.push(pid);
        assert(ids@ =~= seq![pid]);
    }
    ids
}

/// How far an injection has got once its request was staged in the target, or staging
/// failed: whether the hijacked thread's registers were put back, whether every stopped
/// thread was let go, and whether the go word was written.
pub struct Unwind {
    pub staged: Result<u64, String>,
    pub restored: bool,
    pub detached: bool,
    pub armed: bool,
}

/// The next step of an injection once its request was staged.
#[derive(Debug)]
pub enum AfterStaging {
    /// Put the hijacked thread's registers back.
    RestoreRegisters,
    /// Let every stopped thread go.
    DetachAll,
    /// Write the go word of the request mapped at this base.
    WriteGo(u64),
    /// Wait for the helper's result for the request mapped at this base.
    Poll(u64),
    /// Staging failed: report this.
    Fail(String),
}

/// Decides the next step once the request was staged: the registers are put back and every
/// thread is let go whatever staging gave; then a failed staging is reported, and otherwise
/// the go word is written and the result awaited. The go word is thus never written while a
/// thread of the target is still stopped.
pub fn next_after_staging(u: &Unwind) -> (r: AfterStaging)
    ensures
        !u.restored ==> r is RestoreRegisters,
        u.restored && !u.detached ==> r is DetachAll,
        u.restored && u.detached ==> match u.staged {
            Err(m) => r matches AfterStaging::Fail(f) && f@ == m@,
            Ok(base) => if u.armed {
                r matches AfterStaging::Poll(b) && b == base
            } else {
                r matches AfterStaging::WriteGo(b) && b == base
            },
        },
        r is WriteGo ==> u.restored && u.detached && u.staged is Ok,
{
    if !u.restored {
        return AfterStaging::RestoreRegisters;
    }
    if !u.detached {
        return AfterStaging::DetachAll;
    }
    match &u.staged {
        Err(m) => AfterStaging::Fail(m.clone()),
        Ok(base) => if u.armed {
            AfterStaging::Poll(*base)
        } else {
            AfterStaging::WriteGo(*base)
        },
    }
}

/// What to do after reading the helper's status word.
pub enum PollVerdict {
    /// The helper finished: its outcome.
    Done(Result<(), String>),
    /// Not finished yet: wait and read again.
    Wait,
}

/// The message when the entry point does not report back in time.
pub open spec fn poll_timeout_text() -> Seq<char> {
    "timed out waiting for the managed entry point — the target may not be the real game process (duplicate PID?)"@
}

/// The status word is 1 when the entry point ran and 2 when the helper failed (with the
/// message in its error area, or a default one when that is empty); otherwise a
/// cancellation, then a timeout, end the wait.
pub open spec fn poll_spec(status: u32, error_area: Seq<u8>, cancelled: bool, timed_out: bool) -> Option<Result<(), Seq<char>>> {
    if status == 1 {
        Some(Ok(()))
    } else if status == 2 {
        let msg = utf8_lossy(cstr_prefix(error_area));
        Some(Err(if msg.len() == 0 { "helper reported failure"@ } else { msg }))
    } else if cancelled {
        Some(Err("cancelled by user"@))
    } else if timed_out {
        Some(Err(poll_timeout_text()))
    } else {
        None
    }
}

/// Decides what a read of the helper's status word means.
pub fn poll_step(status: u32, error_area: &[u8], cancelled: bool, timed_out: bool) -> (v: PollVerdict)
    ensures
        match v {
            PollVerdict::Done(Ok(())) => poll_spec(status, error_area@, cancelled, timed_out) == Some(
                Ok::<(), Seq<char>>(()),
            ),
            PollVerdict::Done(Err(m)) => poll_spec(status, error_area@, cancelled, timed_out) == Some(
                Err::<(), Seq<char>>(m@),
            ),
            PollVerdict::Wait => poll_spec(status, error_area@, cancelled, timed_out) is None,
        },
{
    if status == 1 {
        return PollVerdict::Done(Ok(()));
    }
    if status == 2 {
        let msg = cstr_to_string(error_area);
        if msg.as_str().is_empty() {
            return PollVerdict::Done(Err(String::from_str("helper reported failure")));
        }
        return PollVerdict::Done(Err(msg));
    }
    if cancelled {
        return PollVerdict::Done(Err(String::from_str("cancelled by user")));
    }
    if timed_out {
        return PollVerdict::Done(
            Err(
                String::from_str(
                    "timed out waiting for the managed entry point — the target may not be the real game process (duplicate PID?)",
                ),
            ),
        );
    }
    PollVerdict::Wait
}

/// How many times a remote call is resumed past stops that are not its return before it is
/// given up.
pub const MAX_RESUMES: u32 = 1024;

/// The message when a remote call does not come back in time.
pub open spec fn call_timeout_text() -> Seq<char> {
    "remote call timed out — target may not be a live Mono game (no initialized runtime?)"@
}

/// While a remote call has not stopped, a raised cancel flag (looked at first) ends it as
/// cancelled and a passed deadline as timed out; otherwise the wait goes on.
pub open spec fn call_wait_spec(cancelled: bool, timed_out: bool) -> Option<Seq<char>> {
    if cancelled {
        Some("cancelled"@)
    } else if timed_out {
        Some(call_timeout_text())
    } else {
        None
    }
}

/// Decides what a wait on a remote call that has not stopped yet does: the error that ends
/// it, or `None` to wait on.
pub fn call_wait_step(cancelled: bool, timed_out: bool) -> (r: Option<String>)
    ensures
        match r {
            Some(m) => call_wait_spec(cancelled, timed_out) == Some(m@),
            None => call_wait_spec(cancelled, timed_out) is None,
        },
{
    if cancelled {
        Some(String::from_str("cancelled"))
    } else if timed_out {
        Some(
            String::from_str(
                "remote call timed out — target may not be a live Mono game (no initialized runtime?)",
            ),
        )
    } else {
        None
    }
}

/// Whether a remote call resumed `resumed` times may be resumed again; once the budget is
/// spent, the error that it did not return.
pub fn resume_budget(resumed: u32) -> (r: Result<(), String>)
    ensures
        resumed < MAX_RESUMES <==> r is Ok,
        r matches Err(m) ==> m@ == "remote call did not return"@,
{
    if resumed < MAX_RESUMES {
        Ok(())
    } else {
        Err(String::from_str("remote call did not return"))
    }
}

/// How many seconds to wait for the entry point: the requested time (40 by default), at least 5.
pub fn poll_timeout_secs(timeout: Option<u32>) -> (s: u64)
    ensures
        s == (match timeout {
            Some(t) => if t > 5 { t as int } else { 5 },
            None => 40,
        }),
{
    let t = match timeout {
        Some(t) => t,
        None => 40,
    };
    if t > 5 {
        t as u64
    } else {
        5
    }
}

/// The cancellation flag of an injection: a file whose existence asks to stop.
pub struct Cancel {
    path: Option<String>,
}

impl Cancel {
    /// A flag at `path`, or none.
    pub fn new(path: Option<&str>) -> (c: Cancel)
        ensures
            match path {
                Some(p) => c.flag_path() == Some(p@),
                None => c.flag_path() is None,
            },
    {
        Cancel {
            path: match path {
                Some(p) => Some(String::from_str(p)),
                None => None,
            },
        }
    }

    /// The flag file's path.
    pub closed spec fn flag_path(&self) -> Option<Seq<char>> {
        match self.path {
            Some(p) => Some(p@),
            None => None,
        }
    }

    /// The flag file's path, if there is one.
    pub fn path(&self) -> (p: Option<&str>)
        ensures
            match p {
                Some(s) => self.flag_path() == Some(s@),
                None => self.flag_path() is None,
            },
    {
        match &self.path {
            Some(s) => Some(s.as_str()),
            None => None,
        }
    }
}


/// The registers of the borrowed thread that a remote call sets.
#[derive(Debug, Clone, Copy)]
pub struct Regs {
    pub rdi: u64,
    pub rsi: u64,
    pub rdx: u64,
    pub rcx: u64,
    pub r8: u64,
    pub r9: u64,
    pub rsp: u64,
    pub rip: u64,
    pub rax: u64,
}

/// The registers for calling `func` with `args` from the thread state `pristine`: the
/// arguments in the System V order (at most six), the stack moved below the red zone with a
/// zero return address, the instruction pointer at `func` and `rax` cleared.
pub open spec fn call_regs(pristine: Regs, func: u64, args: Seq<u64>) -> Option<Regs> {
    if args.len() > 6 {
        None
    } else {
        Some(
            Regs {
                rdi: if args.len() > 0 { args[0] } else { pristine.rdi },
                rsi: if args.len() > 1 { args[1] } else { pristine.rsi },
                rdx: if args.len() > 2 { args[2] } else { pristine.rdx },
                rcx: if args.len() > 3 { args[3] } else { pristine.rcx },
                r8: if args.len() > 4 { args[4] } else { pristine.r8 },
                r9: if args.len() > 5 { args[5] } else { pristine.r9 },
                rsp: call_stack_spec(pristine.rsp),
                rip: func,
                rax: 0,
            },
        )
    }
}

/// Prepares the registers for a remote call of `func` with `args`; more than six arguments
/// are refused.
pub fn prepare_call(pristine: Regs, func: u64, args: &[u64]) -> (r: Result<Regs, String>)
    ensures
        match r {
            Ok(regs) => call_regs(pristine, func, args@) == Some(regs),
            Err(m) => call_regs(pristine, func, args@) is None && m@ == "too many args for remote_call"@,
        },
{
    let n = args.len();
    if n > 6 {
        return Err(String::from_str("too many args for remote_call"));
    }
    let mut regs = pristine;
    if n > 0 {
        regs.rdi = args[0];
    }
    if n > 1 {
        regs.rsi = args[1];
    }
    if n > 2 {
        regs.rdx = args[2];
    }
    if n > 3 {
        regs.rcx = args[3];
    }
    if n > 4 {
        regs.r8 = args[4];
    }
    if n > 5 {
        regs.r9 = args[5];
    }
    regs.rsp = call_stack_pointer(pristine.rsp);
    regs.rip = func;
    regs.rax = 0;
    Ok(regs)
}

/// The register that carries integer argument `i` of a call in the System V AMD64 calling
/// convention: `rdi`, `rsi`, `rdx`, `rcx`, `r8`, `r9`.
pub open spec fn sysv_arg_reg(r: Regs, i: int) -> u64 {
    if i == 0 {
        r.rdi
    } else if i == 1 {
        r.rsi
    } else if i == 2 {
        r.rdx
    } else if i == 3 {
        r.rcx
    } else if i == 4 {
        r.r8
    } else {
        r.r9
    }
}

/// A remote call is set up as the System V ABI asks: argument `i` is in the `i`-th argument
/// register, the argument registers past the last argument keep the thread's values, the
/// call starts at `func` with `rax` cleared, and up to six arguments are accepted.
pub proof fn lemma_call_follows_sysv(pristine: Regs, func: u64, args: Seq<u64>)
    ensures
        call_regs(pristine, func, args) is Some <==> args.len() <= 6,
        call_regs(pristine, func, args) matches Some(r) ==> {
            &&& forall|i: int| 0 <= i < args.len() ==> #[trigger] sysv_arg_reg(r, i) == args[i]
            &&& forall|i: int| args.len() <= i < 6 ==> #[trigger] sysv_arg_reg(r, i) == sysv_arg_reg(pristine, i)
            &&& r.rip == func
            &&& r.rax == 0
        },
{
}

/// `dlopen`'s flag for resolving all symbols at once.
pub const RTLD_NOW: u64 = 2;
/// Read and write protection for `mmap`.
pub const PROT_RW: u64 = 3;
/// A private anonymous mapping for `mmap`.
pub const MAP_PRIV_ANON: u64 = 0x22;

/// The arguments of the remote `mmap` that makes room for a request of `total` bytes:
/// anywhere, readable and writable, private and anonymous, no file.
pub fn mmap_args(total: usize) -> (r: Vec<u64>)
    ensures
        r@ == seq![0u64, total as u64, PROT_RW, MAP_PRIV_ANON, u64::MAX, 0u64],
{
    let v: Vec<u64> = vec![0, total as u64, PROT_RW, MAP_PRIV_ANON, u64::MAX, 0];
    assert(v@ =~= seq![0u64, total as u64, PROT_RW, MAP_PRIV_ANON, u64::MAX, 0u64]);
    v
}

/// The arguments of the remote `dlopen` of the helper, whose path lies at `base + helper`.
pub fn dlopen_args(base: u64, helper: usize) -> (r: Vec<u64>)
    ensures
        r@ == seq![add_wrap(base, helper as u64), RTLD_NOW],
{
    let v: Vec<u64> = vec![base.wrapping_add(helper as u64), RTLD_NOW];
    assert(v@ =~= seq![add_wrap(base, helper as u64), RTLD_NOW]);
    v
}

/// The arguments of the remote `dlsym` of the helper's entry, whose name lies at
/// `base + zrun`.
pub fn dlsym_args(handle: u64, base: u64, zrun: usize) -> (r: Vec<u64>)
    ensures
        r@ == seq![handle, add_wrap(base, zrun as u64)],
{
    let v: Vec<u64> = vec![handle, base.wrapping_add(zrun as u64)];
    assert(v@ =~= seq![handle, add_wrap(base, zrun as u64)]);
    v
}

/// Checks the handle returned by the remote `dlopen` of the helper.
pub fn check_dlopen(handle: u64) -> (r: Result<u64, String>)
    ensures
        match r {
            Ok(h) => h == handle && handle != 0,
            Err(m) => handle == 0 && m@ == "dlopen(helper) returned NULL in target"@,
        },
{
    if handle == 0 {
        Err(String::from_str("dlopen(helper) returned NULL in target"))
    } else {
        Ok(handle)
    }
}

/// Checks the address returned by the remote `dlsym` of the helper's entry.
pub fn check_dlsym(addr: u64) -> (r: Result<u64, String>)
    ensures
        match r {
            Ok(a) => a == addr && addr != 0,
            Err(m) => addr == 0 && m@ == "dlsym(zyringe_run) returned NULL"@,
        },
{
    if addr == 0 {
        Err(String::from_str("dlsym(zyringe_run) returned NULL"))
    } else {
        Ok(addr)
    }
}

/// Checks that at least one thread was attached.
pub fn check_attached(attached: Vec<i32>) -> (r: Result<Vec<i32>, String>)
    ensures
        match r {
            Ok(v) => v@ == attached@ && attached@.len() > 0,
            Err(m) => attached@.len() == 0 && m@ == "could not attach to any thread"@,
        },
{
    if attached.len() == 0 {
        Err(String::from_str("could not attach to any thread"))
    } else {
        Ok(attached)
    }
}

} // verus!
