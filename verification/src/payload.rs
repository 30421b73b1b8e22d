//! The request buffer written into the target process: its layout, and its bytes.
use vstd::prelude::*;
use crate::bytes::{le_u32, le_u64};

verus! {

/// The magic number at the start of a request header.
pub const ZY_MAGIC: u32 = 0x5A595251;
/// Length of the request header.
pub const HDR_LEN: usize = 128;
/// Capacity of the error-message area.
pub const ERR_CAP: usize = 512;
/// Capacity of the return-value area.
pub const RET_CAP: usize = 512;

/// Where each part of the request lives, as offsets from the buffer's start.
#[derive(Clone, Copy, Debug)]
pub struct Layout {
    pub total: usize,
    pub ns: usize,
    pub class: usize,
    pub method: usize,
    pub mono_so: usize,
    pub path: usize,
    pub helper: usize,
    pub zrun: usize,
    pub error: usize,
    pub ret: usize,
    pub args: usize,
    pub dll: usize,
}

/// `x` rounded up to a multiple of `a`.
pub open spec fn align_up(x: int, a: int) -> int {
    (x + a - 1) / a * a
}

/// Rounds `x` up to a multiple of the power of two `a` (8, 16 or 4096).
pub fn align(x: usize, a: usize) -> (r: usize)
    requires
        a == 8 || a == 16 || a == 4096,
        x + a - 1 <= usize::MAX,
    ensures
        r == align_up(x as int, a as int),
{
    let y = x + (a - 1);
    if a == 8 {
        assert(y & !7usize == y - y % 8) by (bit_vector);
    } else if a == 16 {
        assert(y & !15usize == y - y % 16) by (bit_vector);
    } else {
        assert(y & !4095usize == y - y % 4096) by (bit_vector);
    }
    assert(y - y % a == y / a * a) by (nonlinear_arith)
        requires
            a > 0,
    ;
    y & !(a - 1)
}

/// The layout of a request: the header, then the NUL-terminated strings one after another
/// (each followed by one spare byte), the error and return areas from an 8-byte boundary,
/// the argument block (at least one byte), the assembly from a 16-byte boundary, and the
/// whole rounded up to a 4096-byte page.
pub open spec fn plan_spec(
    dll_len: int,
    ns_len: int,
    class_len: int,
    method_len: int,
    mono_len: int,
    path_len: int,
    helper_len: int,
    zrun_len: int,
    args_total: int,
) -> Layout {
    let ns = HDR_LEN as int;
    let class = ns + ns_len + 1;
    let method = class + class_len + 1;
    let mono_so = method + method_len + 1;
    let path = mono_so + mono_len + 1;
    let helper = path + path_len + 1;
    let zrun = helper + helper_len + 1;
    let error = align_up(zrun + zrun_len + 1, 8);
    let ret = error + ERR_CAP;
    let args = ret + RET_CAP;
    let args_end = args + if args_total > 1 { args_total } else { 1 };
    let dll = align_up(args_end, 16);
    let total = align_up(dll + dll_len, 4096);
    Layout {
        total: total as usize,
        ns: ns as usize,
        class: class as usize,
        method: method as usize,
        mono_so: mono_so as usize,
        path: path as usize,
        helper: helper as usize,
        zrun: zrun as usize,
        error: error as usize,
        ret: ret as usize,
        args: args as usize,
        dll: dll as usize,
    }
}

/// Whether a request of these sizes can be laid out without leaving `usize`.
pub open spec fn plan_fits(
    dll_len: int,
    ns_len: int,
    class_len: int,
    method_len: int,
    mono_len: int,
    path_len: int,
    helper_len: int,
    zrun_len: int,
    args_total: int,
) -> bool {
    HDR_LEN + ns_len + class_len + method_len + mono_len + path_len + helper_len + zrun_len + 7
        + 7 + ERR_CAP + RET_CAP + args_total + 1 + 15 + dll_len + 4095 <= usize::MAX
}

/// Lays out a request for the given strings (each already NUL-terminated), an argument block
/// of `args_total` bytes and an assembly of `dll_len` bytes.
pub fn plan(
    dll_len: usize,
    ns: &[u8],
    class: &[u8],
    method: &[u8],
    mono_so: &[u8],
    path: &[u8],
    helper: &[u8],
    zrun: &[u8],
    args_total: usize,
) -> (l: Layout)
    requires
        plan_fits(
            dll_len as int,
            ns@.len() as int,
            class@.len() as int,
            method@.len() as int,
            mono_so@.len() as int,
            path@.len() as int,
            helper@.len() as int,
            zrun@.len() as int,
            args_total as int,
        ),
    ensures
        l == plan_spec(
            dll_len as int,
            ns@.len() as int,
            class@.len() as int,
            method@.len() as int,
            mono_so@.len() as int,
            path@.len() as int,
            helper@.len() as int,
            zrun@.len() as int,
            args_total as int,
        ),
        // the parts follow one another without overlapping, inside the buffer
        HDR_LEN <= l.ns,
        l.ns + ns@.len() < l.class,
        l.class + class@.len() < l.method,
        l.method + method@.len() < l.mono_so,
        l.mono_so + mono_so@.len() < l.path,
        l.path + path@.len() < l.helper,
        l.helper + helper@.len() < l.zrun,
        l.zrun + zrun@.len() < l.error,
        l.error + ERR_CAP <= l.ret,
        l.ret + RET_CAP <= l.args,
        l.args + args_total <= l.dll,
        l.args < l.dll,
        l.dll + dll_len <= l.total,
        // alignment
        l.error % 8 == 0,
        l.dll % 16 == 0,
        l.total % 4096 == 0,
{
    let mut c = HDR_LEN;
    let ns_o = c;
    c = c + ns.len() + 1;
    let class_o = c;
    c = c + class.len() + 1;
    let method_o = c;
    c = c + method.len() + 1;
    let mono_o = c;
    c = c + mono_so.len() + 1;
    let path_o = c;
    c = c + path.len() + 1;
    let helper_o = c;
    c = c + helper.len() + 1;
    let zrun_o = c;
    c = c + zrun.len() + 1;
    c = align(c, 8);
    let error_o = c;
    c = c + ERR_CAP;
    let ret_o = c;
    c = c + RET_CAP;
    let args_o = c;
    c = c + if args_total > 1 { args_total } else { 1 };
    c = align(c, 16);
    let dll_o = c;
    c = c + dll_len;
    let total = align(c, 4096);
    let l = Layout {
        total,
        ns: ns_o,
        class: class_o,
        method: method_o,
        mono_so: mono_o,
        path: path_o,
        helper: helper_o,
        zrun: zrun_o,
        error: error_o,
        ret: ret_o,
        args: args_o,
        dll: dll_o,
    };
    proof {
        lemma_align_up(zrun_o + zrun@.len() + 1, 8);
        lemma_align_up(args_o + if args_total > 1 { args_total as int } else { 1 }, 16);
        lemma_align_up(dll_o + dll_len, 4096);
    }
    l
}

/// Rounding up lands on a multiple of `a`, no lower and less than `a` higher.
pub proof fn lemma_align_up(x: int, a: int)
    requires
        0 <= x,
        0 < a,
    ensures
        x <= align_up(x, a) < x + a,
        align_up(x, a) % a == 0,
{
    assert(x <= (x + a - 1) / a * a < x + a) by (nonlinear_arith)
        requires
            0 <= x,
            0 < a,
    ;
    assert(((x + a - 1) / a * a) % a == 0) by (nonlinear_arith)
        requires
            0 <= x,
            0 < a,
    ;
}

/// The little-endian bytes of `v`.
pub open spec fn le32_bytes(v: u32) -> Seq<u8> {
    seq![(v & 0xff) as u8, ((v >> 8u32) & 0xff) as u8, ((v >> 16u32) & 0xff) as u8, ((v >> 24u32) & 0xff) as u8]
}

/// The little-endian bytes of `v`.
pub open spec fn le64_bytes(v: u64) -> Seq<u8> {
    seq![
        (v & 0xff) as u8,
        ((v >> 8u64) & 0xff) as u8,
        ((v >> 16u64) & 0xff) as u8,
        ((v >> 24u64) & 0xff) as u8,
        ((v >> 32u64) & 0xff) as u8,
        ((v >> 40u64) & 0xff) as u8,
        ((v >> 48u64) & 0xff) as u8,
        ((v >> 56u64) & 0xff) as u8,
    ]
}

/// `n` zero bytes.
pub open spec fn zeros(n: int) -> Seq<u8> {
    Seq::new(n as nat, |i: int| 0u8)
}

/// The first half of the request header: magic, two status words left zero, the assembly's
/// address and size, and the addresses of the namespace, class, method and runtime names.
#[verifier::opaque]
pub open spec fn header_front(base: u64, l: Layout, dll_len: u64) -> Seq<u8> {
    le32_bytes(ZY_MAGIC) + zeros(12) + le64_bytes((base + l.dll) as u64) + le64_bytes(dll_len)
        + le64_bytes((base + l.ns) as u64) + le64_bytes((base + l.class) as u64) + le64_bytes(
        (base + l.method) as u64,
    ) + le64_bytes((base + l.mono_so) as u64)
}

/// The second half of the request header: the error area and its size, the assembly path,
/// the argument count and block, the return area and its size, and the buffer size.
#[verifier::opaque]
pub open spec fn header_back(base: u64, l: Layout, argc: u32) -> Seq<u8> {
    le64_bytes((base + l.error) as u64) + le64_bytes(ERR_CAP as u64) + le64_bytes(
        (base + l.path) as u64,
    ) + le32_bytes(argc) + zeros(4) + le64_bytes((base + l.args) as u64) + le64_bytes(
        (base + l.ret) as u64,
    ) + le64_bytes(RET_CAP as u64) + le64_bytes(l.total as u64)
}

/// The request header (all addresses are `base` plus a layout offset).
pub open spec fn header_spec(base: u64, l: Layout, dll_len: u64, argc: u32) -> Seq<u8> {
    header_front(base, l, dll_len) + header_back(base, l, argc)
}

/// The whole request buffer: the header, each part at its offset, zero bytes elsewhere.
#[verifier::opaque]
pub open spec fn buffer_spec(
    base: u64,
    l: Layout,
    dll: Seq<u8>,
    ns: Seq<u8>,
    class: Seq<u8>,
    method: Seq<u8>,
    mono_so: Seq<u8>,
    path: Seq<u8>,
    helper: Seq<u8>,
    zrun: Seq<u8>,
    args: Seq<u8>,
    argc: u32,
) -> Seq<u8> {
    header_spec(base, l, dll.len() as u64, argc) + ns + zeros(l.class - l.ns - ns.len()) + class
        + zeros(l.method - l.class - class.len()) + method + zeros(l.mono_so - l.method - method.len())
        + mono_so + zeros(l.path - l.mono_so - mono_so.len()) + path + zeros(
        l.helper - l.path - path.len(),
    ) + helper + zeros(l.zrun - l.helper - helper.len()) + zrun + zeros(
        l.error - l.zrun - zrun.len(),
    ) + zeros(ERR_CAP + RET_CAP) + args + zeros(l.dll - l.args - args.len()) + dll + zeros(
        l.total - l.dll - dll.len(),
    )
}

/// A `u64` written little-endian reads back as itself.
pub proof fn lemma_le64_roundtrip(s: Seq<u8>, o: int, v: u64)
    requires
        0 <= o,
        o + 8 <= s.len(),
        s.subrange(o, o + 8) == le64_bytes(v),
    ensures
        le_u64(s, o) == Some(v),
{
    assert(s[o] == s.subrange(o, o + 8)[0]);
    assert(s[o + 1] == s.subrange(o, o + 8)[1]);
    assert(s[o + 2] == s.subrange(o, o + 8)[2]);
    assert(s[o + 3] == s.subrange(o, o + 8)[3]);
    assert(s[o + 4] == s.subrange(o, o + 8)[4]);
    assert(s[o + 5] == s.subrange(o, o + 8)[5]);
    assert(s[o + 6] == s.subrange(o, o + 8)[6]);
    assert(s[o + 7] == s.subrange(o, o + 8)[7]);
    let (b0, b1, b2, b3, b4, b5, b6, b7) = (s[o], s[o + 1], s[o + 2], s[o + 3], s[o + 4], s[o + 5], s[o + 6], s[o + 7]);
    assert(b0 + 0x100 * b1 + 0x1_0000 * b2 + 0x100_0000 * b3 + 0x1_0000_0000 * b4 + 0x100_0000_0000
        * b5 + 0x1_0000_0000_0000 * b6 + 0x100_0000_0000_0000 * b7 == v) by (bit_vector)
        requires
            b0 == (v & 0xff) as u8,
            b1 == ((v >> 8u64) & 0xff) as u8,
            b2 == ((v >> 16u64) & 0xff) as u8,
            b3 == ((v >> 24u64) & 0xff) as u8,
            b4 == ((v >> 32u64) & 0xff) as u8,
            b5 == ((v >> 40u64) & 0xff) as u8,
            b6 == ((v >> 48u64) & 0xff) as u8,
            b7 == ((v >> 56u64) & 0xff) as u8,
    ;
}

/// A `u32` written little-endian reads back as itself.
pub proof fn lemma_le32_roundtrip(s: Seq<u8>, o: int, v: u32)
    requires
        0 <= o,
        o + 4 <= s.len(),
        s.subrange(o, o + 4) == le32_bytes(v),
    ensures
        le_u32(s, o) == Some(v),
{
    assert(s[o] == s.subrange(o, o + 4)[0]);
    assert(s[o + 1] == s.subrange(o, o + 4)[1]);
    assert(s[o + 2] == s.subrange(o, o + 4)[2]);
    assert(s[o + 3] == s.subrange(o, o + 4)[3]);
    let (b0, b1, b2, b3) = (s[o], s[o + 1], s[o + 2], s[o + 3]);
    assert(b0 + 0x100 * b1 + 0x1_0000 * b2 + 0x100_0000 * b3 == v) by (bit_vector)
        requires
            b0 == (v & 0xff) as u8,
            b1 == ((v >> 8u32) & 0xff) as u8,
            b2 == ((v >> 16u32) & 0xff) as u8,
            b3 == ((v >> 24u32) & 0xff) as u8,
    ;
}

fn push_le32(buf: &mut Vec<u8>, v: u32)
    ensures
        final(buf)@ == old(buf)@ + le32_bytes(v),
{
    buf.push((v & 0xff) as u8);
    buf.push(((v >> 8u32) & 0xff) as u8);
    buf.push(((v >> 16u32) & 0xff) as u8);
    buf.push(((v >> 24u32) & 0xff) as u8);
    assert(buf@ =~= old(buf)@ + le32_bytes(v));
}

fn push_le64(buf: &mut Vec<u8>, v: u64)
    ensures
        final(buf)@ == old(buf)@ + le64_bytes(v),
{
    buf.push((v & 0xff) as u8);
    buf.push(((v >> 8u64) & 0xff) as u8);
    buf.push(((v >> 16u64) & 0xff) as u8);
    buf.push(((v >> 24u64) & 0xff) as u8);
    buf.push(((v >> 32u64) & 0xff) as u8);
    buf.push(((v >> 40u64) & 0xff) as u8);
    buf.push(((v >> 48u64) & 0xff) as u8);
    buf.push(((v >> 56u64) & 0xff) as u8);
    assert(buf@ =~= old(buf)@ + le64_bytes(v));
}

fn push_zeros(buf: &mut Vec<u8>, n: usize)
    ensures
        final(buf)@ == old(buf)@ + zeros(n as int),
{
    let mut i: usize = 0;
    while i < n
        invariant
            i <= n,
            buf@ == old(buf)@ + zeros(i as int),
        decreases n - i,
    {
        buf.push(0);
        assert(buf@ =~= old(buf)@ + zeros(i + 1));
        i = i + 1;
    }
}

fn push_bytes(buf: &mut Vec<u8>, data: &[u8])
    ensures
        final(buf)@ == old(buf)@ + data@,
{
    let mut i: usize = 0;
    while i < data.len()
        invariant
            i <= data@.len(),
            buf@ == old(buf)@ + data@.take(i as int),
        decreases data@.len() - i,
    {
        buf.push(data[i]);
        assert(buf@ =~= old(buf)@ + data@.take(i + 1));
        i = i + 1;
    }
    assert(data@.take(data@.len() as int) =~= data@);
}

/// Appends `data` and then zero bytes up to offset `until`.
fn push_region(buf: &mut Vec<u8>, data: &[u8], until: usize)
    requires
        old(buf)@.len() + data@.len() <= until,
    ensures
        final(buf)@ == old(buf)@ + data@ + zeros(until - old(buf)@.len() - data@.len()),
        final(buf)@.len() == until,
{
    push_bytes(buf, data);
    let n = until - buf.len();
    push_zeros(buf, n);
}

/// Appends the first half of the header.
fn push_header_front(buf: &mut Vec<u8>, base: u64, lay: &Layout, dll_len: u64)
    requires
        base + lay.total <= u64::MAX,
        lay.dll <= lay.total,
        lay.ns <= lay.total,
        lay.class <= lay.total,
        lay.method <= lay.total,
        lay.mono_so <= lay.total,
    ensures
        final(buf)@ == old(buf)@ + header_front(base, *lay, dll_len),
{
    push_le32(buf, ZY_MAGIC);
    push_zeros(buf, 12);
    push_le64(buf, base + lay.dll as u64);
    push_le64(buf, dll_len);
    push_le64(buf, base + lay.ns as u64);
    push_le64(buf, base + lay.class as u64);
    push_le64(buf, base + lay.method as u64);
    push_le64(buf, base + lay.mono_so as u64);
    assert(final(buf)@ =~= old(buf)@ + header_front(base, *lay, dll_len)) by {
        reveal(header_front);
    }
}

/// Appends the second half of the header.
fn push_header_back(buf: &mut Vec<u8>, base: u64, lay: &Layout, argc: u32)
    requires
        base + lay.total <= u64::MAX,
        lay.error <= lay.total,
        lay.path <= lay.total,
        lay.args <= lay.total,
        lay.ret <= lay.total,
    ensures
        final(buf)@ == old(buf)@ + header_back(base, *lay, argc),
{
    push_le64(buf, base + lay.error as u64);
    push_le64(buf, ERR_CAP as u64);
    push_le64(buf, base + lay.path as u64);
    push_le32(buf, argc);
    push_zeros(buf, 4);
    push_le64(buf, base + lay.args as u64);
    push_le64(buf, base + lay.ret as u64);
    push_le64(buf, RET_CAP as u64);
    push_le64(buf, lay.total as u64);
    assert(final(buf)@ =~= old(buf)@ + header_back(base, *lay, argc)) by {
        reveal(header_back);
    }
}

/// The header is 128 bytes long.
proof fn lemma_header_len(base: u64, l: Layout, dll_len: u64, argc: u32)
    ensures
        header_front(base, l, dll_len).len() == 64,
        header_back(base, l, argc).len() == 64,
        header_spec(base, l, dll_len, argc).len() == 128,
{
    reveal(header_front);
    reveal(header_back);
}

/// Builds the request buffer for a buffer mapped at `base` in the target.
pub fn build_buffer(
    base: u64,
    lay: &Layout,
    dll: &[u8],
    ns: &[u8],
    class: &[u8],
    method: &[u8],
    mono_so: &[u8],
    path: &[u8],
    helper: &[u8],
    zrun: &[u8],
    args: &[u8],
    argc: u32,
) -> (buf: Vec<u8>)
    requires
        plan_fits(
            dll@.len() as int,
            ns@.len() as int,
            class@.len() as int,
            method@.len() as int,
            mono_so@.len() as int,
            path@.len() as int,
            helper@.len() as int,
            zrun@.len() as int,
            args@.len() as int,
        ),
        *lay == plan_spec(
            dll@.len() as int,
            ns@.len() as int,
            class@.len() as int,
            method@.len() as int,
            mono_so@.len() as int,
            path@.len() as int,
            helper@.len() as int,
            zrun@.len() as int,
            args@.len() as int,
        ),
        base + lay.total <= u64::MAX,
    ensures
        buf@ == buffer_spec(base, *lay, dll@, ns@, class@, method@, mono_so@, path@, helper@, zrun@, args@, argc),
        buf@.len() == lay.total,
{
    let ghost (dl, nl, cl, ml, mol, pl, hl, zl, al) = (
        dll@.len() as int,
        ns@.len() as int,
        class@.len() as int,
        method@.len() as int,
        mono_so@.len() as int,
        path@.len() as int,
        helper@.len() as int,
        zrun@.len() as int,
        args@.len() as int,
    );
    proof {
        lemma_align_up(lay.zrun + zl + 1, 8);
        lemma_align_up(lay.args + if al > 1 { al } else { 1 }, 16);
        lemma_align_up(lay.dll + dl, 4096);
    }
    let mut buf: Vec<u8> = Vec::new();
    push_header_front(&mut buf, base, lay, dll.len() as u64);
    push_header_back(&mut buf, base, lay, argc);
    proof {
        lemma_header_len(base, *lay, dll@.len() as u64, argc);
    }
    assert(buf@ =~= header_spec(base, *lay, dll@.len() as u64, argc));
    push_region(&mut buf, ns, lay.class);
    push_region(&mut buf, class, lay.method);
    push_region(&mut buf, method, lay.mono_so);
    push_region(&mut buf, mono_so, lay.path);
    push_region(&mut buf, path, lay.helper);
    push_region(&mut buf, helper, lay.zrun);
    push_region(&mut buf, zrun, lay.error);
    push_zeros(&mut buf, ERR_CAP + RET_CAP);
    push_region(&mut buf, args, lay.dll);
    push_region(&mut buf, dll, lay.total);
    proof {
        reveal(buffer_spec);
    }
    buf
}

/// What the helper reads from a built request is what was put into it: each part lies
/// at its planned offset, the header holds the magic number, zeroed status words, and the
/// addresses and sizes of the parts.
pub proof fn lemma_request_reads_back(
    base: u64,
    dll: Seq<u8>,
    ns: Seq<u8>,
    class: Seq<u8>,
    method: Seq<u8>,
    mono_so: Seq<u8>,
    path: Seq<u8>,
    helper: Seq<u8>,
    zrun: Seq<u8>,
    args: Seq<u8>,
    argc: u32,
)
    requires
        plan_fits(
            dll.len() as int,
            ns.len() as int,
            class.len() as int,
            method.len() as int,
            mono_so.len() as int,
            path.len() as int,
            helper.len() as int,
            zrun.len() as int,
            args.len() as int,
        ),
        base + plan_spec(
            dll.len() as int,
            ns.len() as int,
            class.len() as int,
            method.len() as int,
            mono_so.len() as int,
            path.len() as int,
            helper.len() as int,
            zrun.len() as int,
            args.len() as int,
        ).total <= u64::MAX,
    ensures
        ({
            let l = plan_spec(
                dll.len() as int,
                ns.len() as int,
                class.len() as int,
                method.len() as int,
                mono_so.len() as int,
                path.len() as int,
                helper.len() as int,
                zrun.len() as int,
                args.len() as int,
            );
            let b = buffer_spec(base, l, dll, ns, class, method, mono_so, path, helper, zrun, args, argc);
            &&& b.len() == l.total
            &&& b.subrange(l.ns as int, l.ns + ns.len()) == ns
            &&& b.subrange(l.class as int, l.class + class.len()) == class
            &&& b.subrange(l.method as int, l.method + method.len()) == method
            &&& b.subrange(l.mono_so as int, l.mono_so + mono_so.len()) == mono_so
            &&& b.subrange(l.path as int, l.path + path.len()) == path
            &&& b.subrange(l.helper as int, l.helper + helper.len()) == helper
            &&& b.subrange(l.zrun as int, l.zrun + zrun.len()) == zrun
            &&& b.subrange(l.error as int, l.error + ERR_CAP) == zeros(ERR_CAP as int)
            &&& b.subrange(l.ret as int, l.ret + RET_CAP) == zeros(RET_CAP as int)
            &&& b.subrange(l.args as int, l.args + args.len()) == args
            &&& b.subrange(l.dll as int, l.dll + dll.len()) == dll
            &&& le_u32(b, 0) == Some(ZY_MAGIC)
            &&& le_u32(b, 4) == Some(0u32)
            &&& le_u32(b, 8) == Some(0u32)
            &&& le_u64(b, 16) == Some((base + l.dll) as u64)
            &&& le_u64(b, 24) == Some(dll.len() as u64)
            &&& le_u64(b, 32) == Some((base + l.ns) as u64)
            &&& le_u64(b, 40) == Some((base + l.class) as u64)
            &&& le_u64(b, 48) == Some((base + l.method) as u64)
            &&& le_u64(b, 56) == Some((base + l.mono_so) as u64)
            &&& le_u64(b, 64) == Some((base + l.error) as u64)
            &&& le_u64(b, 72) == Some(ERR_CAP as u64)
            &&& le_u64(b, 80) == Some((base + l.path) as u64)
            &&& le_u32(b, 88) == Some(argc)
            &&& le_u64(b, 96) == Some((base + l.args) as u64)
            &&& le_u64(b, 104) == Some((base + l.ret) as u64)
            &&& le_u64(b, 112) == Some(RET_CAP as u64)
            &&& le_u64(b, 120) == Some(l.total as u64)
        }),
{
    let (dl, nl, cl, ml, mol, pl, hl, zl, al) = (
        dll.len() as int,
        ns.len() as int,
        class.len() as int,
        method.len() as int,
        mono_so.len() as int,
        path.len() as int,
        helper.len() as int,
        zrun.len() as int,
        args.len() as int,
    );
    let l = plan_spec(dl, nl, cl, ml, mol, pl, hl, zl, al);
    let h = header_spec(base, l, dl as u64, argc);
    let b = buffer_spec(base, l, dll, ns, class, method, mono_so, path, helper, zrun, args, argc);
    lemma_buffer_regions(base, dll, ns, class, method, mono_so, path, helper, zrun, args, argc);
    lemma_header_fields(base, l, dl as u64, argc);
    assert forall|o: int| 0 <= o && o + 8 <= 128 implies le_u64(b, o) == le_u64(h, o) by {
        lemma_prefix_reads(h, b, o);
    }
    assert forall|o: int| 0 <= o && o + 4 <= 128 implies le_u32(b, o) == le_u32(h, o) by {
        lemma_prefix_reads32(h, b, o);
    }
}

/// Whether `a` is a prefix of `b`.
pub open spec fn is_prefix(a: Seq<u8>, b: Seq<u8>) -> bool {
    a.len() <= b.len() && b.subrange(0, a.len() as int) == a
}

proof fn lemma_prefix_add(a: Seq<u8>, x: Seq<u8>)
    ensures
        is_prefix(a, a + x),
{
    assert((a + x).subrange(0, a.len() as int) =~= a);
}

proof fn lemma_prefix_self(a: Seq<u8>)
    ensures
        is_prefix(a, a),
{
    assert(a.subrange(0, a.len() as int) =~= a);
}

proof fn lemma_prefix_trans(a: Seq<u8>, b: Seq<u8>, c: Seq<u8>)
    requires
        is_prefix(a, b),
        is_prefix(b, c),
    ensures
        is_prefix(a, c),
{
    assert forall|i: int| 0 <= i < a.len() implies c[i] == a[i] by {
        assert(c[i] == c.subrange(0, b.len() as int)[i]);
        assert(b[i] == b.subrange(0, a.len() as int)[i]);
    }
    assert(c.subrange(0, a.len() as int) =~= a);
}

proof fn lemma_prefix_reads(a: Seq<u8>, b: Seq<u8>, o: int)
    requires
        is_prefix(a, b),
        0 <= o,
        o + 8 <= a.len(),
    ensures
        le_u64(b, o) == le_u64(a, o),
        le_u32(b, o) == le_u32(a, o),
{
    assert forall|i: int| 0 <= i < a.len() implies b[i] == a[i] by {
        assert(b[i] == b.subrange(0, a.len() as int)[i]);
    }
}

proof fn lemma_prefix_reads32(a: Seq<u8>, b: Seq<u8>, o: int)
    requires
        is_prefix(a, b),
        0 <= o,
        o + 4 <= a.len(),
    ensures
        le_u32(b, o) == le_u32(a, o),
{
    assert forall|i: int| 0 <= i < a.len() implies b[i] == a[i] by {
        assert(b[i] == b.subrange(0, a.len() as int)[i]);
    }
}

proof fn lemma_prefix_range(a: Seq<u8>, b: Seq<u8>, lo: int, hi: int)
    requires
        is_prefix(a, b),
        0 <= lo <= hi <= a.len(),
    ensures
        b.subrange(lo, hi) == a.subrange(lo, hi),
{
    assert forall|i: int| lo <= i < hi implies b[i] == a[i] by {
        assert(b[i] == b.subrange(0, a.len() as int)[i]);
    }
    assert(b.subrange(lo, hi) =~= a.subrange(lo, hi));
}

/// Reading a `u64` field that was appended right after `a`.
proof fn lemma_field64(a: Seq<u8>, v: u64, whole: Seq<u8>)
    requires
        is_prefix(a + le64_bytes(v), whole),
    ensures
        le_u64(whole, a.len() as int) == Some(v),
{
    lemma_mid(a, le64_bytes(v));
    lemma_le64_roundtrip(a + le64_bytes(v), a.len() as int, v);
    lemma_prefix_reads(a + le64_bytes(v), whole, a.len() as int);
}

/// Reading a `u32` field that was appended right after `a`.
proof fn lemma_field32(a: Seq<u8>, v: u32, whole: Seq<u8>)
    requires
        is_prefix(a + le32_bytes(v), whole),
    ensures
        le_u32(whole, a.len() as int) == Some(v),
{
    lemma_mid(a, le32_bytes(v));
    lemma_le32_roundtrip(a + le32_bytes(v), a.len() as int, v);
    lemma_prefix_reads32(a + le32_bytes(v), whole, a.len() as int);
}

/// The fields of the header's first half read back as written.
#[verifier::rlimit(40)]
proof fn lemma_front_fields(base: u64, l: Layout, dl: u64)
    requires
        base + l.total <= u64::MAX,
    ensures
        ({
            let h = header_front(base, l, dl);
            &&& h.len() == 64
            &&& le_u32(h, 0) == Some(ZY_MAGIC)
            &&& le_u32(h, 4) == Some(0u32)
            &&& le_u32(h, 8) == Some(0u32)
            &&& le_u64(h, 16) == Some((base + l.dll) as u64)
            &&& le_u64(h, 24) == Some(dl)
            &&& le_u64(h, 32) == Some((base + l.ns) as u64)
            &&& le_u64(h, 40) == Some((base + l.class) as u64)
            &&& le_u64(h, 48) == Some((base + l.method) as u64)
            &&& le_u64(h, 56) == Some((base + l.mono_so) as u64)
        }),
{
    let z = 0u32;
    assert(le32_bytes(z) =~= zeros(4)) by {
        assert((z & 0xff) as u8 == 0 && ((z >> 8u32) & 0xff) as u8 == 0 && ((z >> 16u32) & 0xff)
            as u8 == 0 && ((z >> 24u32) & 0xff) as u8 == 0) by (bit_vector)
            requires
                z == 0,
        ;
    }
    let e: Seq<u8> = Seq::empty();
    let h1 = le32_bytes(ZY_MAGIC);
    let h2 = h1 + zeros(12);
    let h3 = h2 + le64_bytes((base + l.dll) as u64);
    let h4 = h3 + le64_bytes(dl);
    let h5 = h4 + le64_bytes((base + l.ns) as u64);
    let h6 = h5 + le64_bytes((base + l.class) as u64);
    let h7 = h6 + le64_bytes((base + l.method) as u64);
    let h = header_front(base, l, dl);
    assert(h.len() == 64 && is_prefix(h7 + le64_bytes((base + l.mono_so) as u64), h)) by {
        reveal(header_front);
        lemma_prefix_self(h7 + le64_bytes((base + l.mono_so) as u64));
    }
    lemma_prefix_add(h7, le64_bytes((base + l.mono_so) as u64));
    lemma_prefix_trans(h7, h7 + le64_bytes((base + l.mono_so) as u64), h);
    lemma_prefix_add(h6, le64_bytes((base + l.method) as u64));
    lemma_prefix_trans(h6, h7, h);
    lemma_prefix_add(h5, le64_bytes((base + l.class) as u64));
    lemma_prefix_trans(h5, h6, h);
    lemma_prefix_add(h4, le64_bytes((base + l.ns) as u64));
    lemma_prefix_trans(h4, h5, h);
    lemma_prefix_add(h3, le64_bytes(dl));
    lemma_prefix_trans(h3, h4, h);
    lemma_prefix_add(h2, le64_bytes((base + l.dll) as u64));
    lemma_prefix_trans(h2, h3, h);
    lemma_prefix_add(h1, zeros(12));
    lemma_prefix_trans(h1, h2, h);
    assert(h1 =~= e + le32_bytes(ZY_MAGIC));
    lemma_field32(e, ZY_MAGIC, h);
    assert(h2.subrange(4, 16) =~= zeros(12));
    lemma_prefix_range(h2, h, 4, 16);
    assert(h.subrange(4, 8) =~= le32_bytes(z)) by {
        assert forall|i: int| 0 <= i < 4 implies h.subrange(4, 8)[i] == le32_bytes(z)[i] by {
            assert(h.subrange(4, 8)[i] == h.subrange(4, 16)[i]);
        }
    }
    assert(h.subrange(8, 12) =~= le32_bytes(z)) by {
        assert forall|i: int| 0 <= i < 4 implies h.subrange(8, 12)[i] == le32_bytes(z)[i] by {
            assert(h.subrange(8, 12)[i] == h.subrange(4, 16)[i + 4]);
        }
    }
    lemma_le32_roundtrip(h, 4, z);
    lemma_le32_roundtrip(h, 8, z);
    lemma_field64(h2, (base + l.dll) as u64, h);
    lemma_field64(h3, dl, h);
    lemma_field64(h4, (base + l.ns) as u64, h);
    lemma_field64(h5, (base + l.class) as u64, h);
    lemma_field64(h6, (base + l.method) as u64, h);
    lemma_field64(h7, (base + l.mono_so) as u64, h);
}

/// The fields of the header's second half read back as written.
#[verifier::rlimit(40)]
proof fn lemma_back_fields(base: u64, l: Layout, argc: u32)
    requires
        base + l.total <= u64::MAX,
    ensures
        ({
            let h = header_back(base, l, argc);
            &&& h.len() == 64
            &&& le_u64(h, 0) == Some((base + l.error) as u64)
            &&& le_u64(h, 8) == Some(ERR_CAP as u64)
            &&& le_u64(h, 16) == Some((base + l.path) as u64)
            &&& le_u32(h, 24) == Some(argc)
            &&& le_u64(h, 32) == Some((base + l.args) as u64)
            &&& le_u64(h, 40) == Some((base + l.ret) as u64)
            &&& le_u64(h, 48) == Some(RET_CAP as u64)
            &&& le_u64(h, 56) == Some(l.total as u64)
        }),
{
    let e: Seq<u8> = Seq::empty();
    let h1 = le64_bytes((base + l.error) as u64);
    let h2 = h1 + le64_bytes(ERR_CAP as u64);
    let h3 = h2 + le64_bytes((base + l.path) as u64);
    let h4 = h3 + le32_bytes(argc);
    let h5 = h4 + zeros(4);
    let h6 = h5 + le64_bytes((base + l.args) as u64);
    let h7 = h6 + le64_bytes((base + l.ret) as u64);
    let h8 = h7 + le64_bytes(RET_CAP as u64);
    let h = header_back(base, l, argc);
    assert(h.len() == 64 && is_prefix(h8 + le64_bytes(l.total as u64), h)) by {
        reveal(header_back);
        lemma_prefix_self(h8 + le64_bytes(l.total as u64));
    }
    lemma_prefix_add(h8, le64_bytes(l.total as u64));
    lemma_prefix_trans(h8, h8 + le64_bytes(l.total as u64), h);
    lemma_prefix_add(h7, le64_bytes(RET_CAP as u64));
    lemma_prefix_trans(h7, h8, h);
    lemma_prefix_add(h6, le64_bytes((base + l.ret) as u64));
    lemma_prefix_trans(h6, h7, h);
    lemma_prefix_add(h5, le64_bytes((base + l.args) as u64));
    lemma_prefix_trans(h5, h6, h);
    lemma_prefix_add(h4, zeros(4));
    lemma_prefix_trans(h4, h5, h);
    lemma_prefix_add(h3, le32_bytes(argc));
    lemma_prefix_trans(h3, h4, h);
    lemma_prefix_add(h2, le64_bytes((base + l.path) as u64));
    lemma_prefix_trans(h2, h3, h);
    lemma_prefix_add(h1, le64_bytes(ERR_CAP as u64));
    lemma_prefix_trans(h1, h2, h);
    assert(h1 =~= e + le64_bytes((base + l.error) as u64));
    lemma_field64(e, (base + l.error) as u64, h);
    lemma_field64(h1, ERR_CAP as u64, h);
    lemma_field64(h2, (base + l.path) as u64, h);
    lemma_field32(h3, argc, h);
    lemma_field64(h5, (base + l.args) as u64, h);
    lemma_field64(h6, (base + l.ret) as u64, h);
    lemma_field64(h7, RET_CAP as u64, h);
    lemma_field64(h8, l.total as u64, h);
}

/// Reading past the first part of a concatenation reads the second.
proof fn lemma_reads_after(a: Seq<u8>, b: Seq<u8>, o: int)
    requires
        0 <= o,
        o + 8 <= b.len(),
    ensures
        le_u64(a + b, a.len() + o) == le_u64(b, o),
        le_u32(a + b, a.len() + o) == le_u32(b, o),
{
}

/// The header's fields read back as written.
proof fn lemma_header_fields(base: u64, l: Layout, dl: u64, argc: u32)
    requires
        base + l.total <= u64::MAX,
    ensures
        ({
            let h = header_spec(base, l, dl, argc);
            &&& h.len() == 128
            &&& le_u32(h, 0) == Some(ZY_MAGIC)
            &&& le_u32(h, 4) == Some(0u32)
            &&& le_u32(h, 8) == Some(0u32)
            &&& le_u64(h, 16) == Some((base + l.dll) as u64)
            &&& le_u64(h, 24) == Some(dl)
            &&& le_u64(h, 32) == Some((base + l.ns) as u64)
            &&& le_u64(h, 40) == Some((base + l.class) as u64)
            &&& le_u64(h, 48) == Some((base + l.method) as u64)
            &&& le_u64(h, 56) == Some((base + l.mono_so) as u64)
            &&& le_u64(h, 64) == Some((base + l.error) as u64)
            &&& le_u64(h, 72) == Some(ERR_CAP as u64)
            &&& le_u64(h, 80) == Some((base + l.path) as u64)
            &&& le_u32(h, 88) == Some(argc)
            &&& le_u64(h, 96) == Some((base + l.args) as u64)
            &&& le_u64(h, 104) == Some((base + l.ret) as u64)
            &&& le_u64(h, 112) == Some(RET_CAP as u64)
            &&& le_u64(h, 120) == Some(l.total as u64)
        }),
{
    let f = header_front(base, l, dl);
    let k = header_back(base, l, argc);
    lemma_front_fields(base, l, dl);
    lemma_back_fields(base, l, argc);
    lemma_prefix_add(f, k);
    lemma_prefix_reads(f, f + k, 0);
    lemma_prefix_reads(f, f + k, 4);
    lemma_prefix_reads(f, f + k, 8);
    lemma_prefix_reads(f, f + k, 16);
    lemma_prefix_reads(f, f + k, 24);
    lemma_prefix_reads(f, f + k, 32);
    lemma_prefix_reads(f, f + k, 40);
    lemma_prefix_reads(f, f + k, 48);
    lemma_prefix_reads(f, f + k, 56);
    lemma_reads_after(f, k, 0);
    lemma_reads_after(f, k, 8);
    lemma_reads_after(f, k, 16);
    lemma_reads_after(f, k, 24);
    lemma_reads_after(f, k, 32);
    lemma_reads_after(f, k, 40);
    lemma_reads_after(f, k, 48);
    lemma_reads_after(f, k, 56);
}

/// Each part of a built request lies at its planned offset, after the header.
#[verifier::rlimit(50)]
proof fn lemma_buffer_regions(
    base: u64,
    dll: Seq<u8>,
    ns: Seq<u8>,
    class: Seq<u8>,
    method: Seq<u8>,
    mono_so: Seq<u8>,
    path: Seq<u8>,
    helper: Seq<u8>,
    zrun: Seq<u8>,
    args: Seq<u8>,
    argc: u32,
)
    requires
        plan_fits(
            dll.len() as int,
            ns.len() as int,
            class.len() as int,
            method.len() as int,
            mono_so.len() as int,
            path.len() as int,
            helper.len() as int,
            zrun.len() as int,
            args.len() as int,
        ),
    ensures
        ({
            let l = plan_spec(
                dll.len() as int,
                ns.len() as int,
                class.len() as int,
                method.len() as int,
                mono_so.len() as int,
                path.len() as int,
                helper.len() as int,
                zrun.len() as int,
                args.len() as int,
            );
            let b = buffer_spec(base, l, dll, ns, class, method, mono_so, path, helper, zrun, args, argc);
            &&& b.len() == l.total
            &&& is_prefix(header_spec(base, l, dll.len() as u64, argc), b)
            &&& b.subrange(l.ns as int, l.ns + ns.len()) == ns
            &&& b.subrange(l.class as int, l.class + class.len()) == class
            &&& b.subrange(l.method as int, l.method + method.len()) == method
            &&& b.subrange(l.mono_so as int, l.mono_so + mono_so.len()) == mono_so
            &&& b.subrange(l.path as int, l.path + path.len()) == path
            &&& b.subrange(l.helper as int, l.helper + helper.len()) == helper
            &&& b.subrange(l.zrun as int, l.zrun + zrun.len()) == zrun
            &&& b.subrange(l.error as int, l.error + ERR_CAP) == zeros(ERR_CAP as int)
            &&& b.subrange(l.ret as int, l.ret + RET_CAP) == zeros(RET_CAP as int)
            &&& b.subrange(l.args as int, l.args + args.len()) == args
            &&& b.subrange(l.dll as int, l.dll + dll.len()) == dll
        }),
{
    let (dl, nl, cl, ml, mol, pl, hl, zl, al) = (
        dll.len() as int,
        ns.len() as int,
        class.len() as int,
        method.len() as int,
        mono_so.len() as int,
        path.len() as int,
        helper.len() as int,
        zrun.len() as int,
        args.len() as int,
    );
    let l = plan_spec(dl, nl, cl, ml, mol, pl, hl, zl, al);
    lemma_align_up(l.zrun + zl + 1, 8);
    lemma_align_up(l.args + if al > 1 { al } else { 1 }, 16);
    lemma_align_up(l.dll + dl, 4096);
    let h = header_spec(base, l, dl as u64, argc);
    lemma_header_len(base, l, dl as u64, argc);
    let q1 = h + ns;
    let p1 = q1 + zeros(l.class - l.ns - nl);
    let q2 = p1 + class;
    let p2 = q2 + zeros(l.method - l.class - cl);
    let q3 = p2 + method;
    let p3 = q3 + zeros(l.mono_so - l.method - ml);
    let q4 = p3 + mono_so;
    let p4 = q4 + zeros(l.path - l.mono_so - mol);
    let q5 = p4 + path;
    let p5 = q5 + zeros(l.helper - l.path - pl);
    let q6 = p5 + helper;
    let p6 = q6 + zeros(l.zrun - l.helper - hl);
    let q7 = p6 + zrun;
    let p7 = q7 + zeros(l.error - l.zrun - zl);
    let p8 = p7 + zeros(ERR_CAP + RET_CAP);
    let q9 = p8 + args;
    let p9 = q9 + zeros(l.dll - l.args - al);
    let q10 = p9 + dll;
    let b = buffer_spec(base, l, dll, ns, class, method, mono_so, path, helper, zrun, args, argc);
    assert(is_prefix(q10, b) && b.len() == l.total) by {
        reveal(buffer_spec);
        lemma_prefix_add(q10, zeros(l.total - l.dll - dl));
    }
    lemma_prefix_add(p9, dll);
    lemma_prefix_trans(p9, q10, b);
    lemma_prefix_add(q9, zeros(l.dll - l.args - al));
    lemma_prefix_trans(q9, p9, b);
    lemma_prefix_add(p8, args);
    lemma_prefix_trans(p8, q9, b);
    lemma_prefix_add(p7, zeros(ERR_CAP + RET_CAP));
    lemma_prefix_trans(p7, p8, b);
    lemma_prefix_add(q7, zeros(l.error - l.zrun - zl));
    lemma_prefix_trans(q7, p7, b);
    lemma_prefix_add(p6, zrun);
    lemma_prefix_trans(p6, q7, b);
    lemma_prefix_add(q6, zeros(l.zrun - l.helper - hl));
    lemma_prefix_trans(q6, p6, b);
    lemma_prefix_add(p5, helper);
    lemma_prefix_trans(p5, q6, b);
    lemma_prefix_add(q5, zeros(l.helper - l.path - pl));
    lemma_prefix_trans(q5, p5, b);
    lemma_prefix_add(p4, path);
    lemma_prefix_trans(p4, q5, b);
    lemma_prefix_add(q4, zeros(l.path - l.mono_so - mol));
    lemma_prefix_trans(q4, p4, b);
    lemma_prefix_add(p3, mono_so);
    lemma_prefix_trans(p3, q4, b);
    lemma_prefix_add(q3, zeros(l.mono_so - l.method - ml));
    lemma_prefix_trans(q3, p3, b);
    lemma_prefix_add(p2, method);
    lemma_prefix_trans(p2, q3, b);
    lemma_prefix_add(q2, zeros(l.method - l.class - cl));
    lemma_prefix_trans(q2, p2, b);
    lemma_prefix_add(p1, class);
    lemma_prefix_trans(p1, q2, b);
    lemma_prefix_add(q1, zeros(l.class - l.ns - nl));
    lemma_prefix_trans(q1, p1, b);
    lemma_prefix_add(h, ns);
    lemma_prefix_trans(h, q1, b);
    lemma_mid(h, ns);
    lemma_prefix_range(q1, b, l.ns as int, l.ns + nl);
    lemma_mid(p1, class);
    lemma_prefix_range(q2, b, l.class as int, l.class + cl);
    lemma_mid(p2, method);
    lemma_prefix_range(q3, b, l.method as int, l.method + ml);
    lemma_mid(p3, mono_so);
    lemma_prefix_range(q4, b, l.mono_so as int, l.mono_so + mol);
    lemma_mid(p4, path);
    lemma_prefix_range(q5, b, l.path as int, l.path + pl);
    lemma_mid(p5, helper);
    lemma_prefix_range(q6, b, l.helper as int, l.helper + hl);
    lemma_mid(p6, zrun);
    lemma_prefix_range(q7, b, l.zrun as int, l.zrun + zl);
    assert(p8.subrange(l.error as int, l.error + ERR_CAP) =~= zeros(ERR_CAP as int));
    assert(p8.subrange(l.ret as int, l.ret + RET_CAP) =~= zeros(RET_CAP as int));
    lemma_prefix_range(p8, b, l.error as int, l.error + ERR_CAP);
    lemma_prefix_range(p8, b, l.ret as int, l.ret + RET_CAP);
    lemma_mid(p8, args);
    lemma_prefix_range(q9, b, l.args as int, l.args + al);
    lemma_mid(p9, dll);
    lemma_prefix_range(q10, b, l.dll as int, l.dll + dl);
}

/// A part appended after `a` is found right after it.
proof fn lemma_mid(a: Seq<u8>, d: Seq<u8>)
    ensures
        (a + d).subrange(a.len() as int, (a.len() + d.len()) as int) == d,
        (a + d).subrange(0, a.len() as int) == a,
{
    assert((a + d).subrange(a.len() as int, (a.len() + d.len()) as int) =~= d);
    assert((a + d).subrange(0, a.len() as int) =~= a);
}

} // verus!
