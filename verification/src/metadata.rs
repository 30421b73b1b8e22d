//! Lists the methods of a .NET assembly by walking its PE headers, the CLI header,
//! the metadata root and the `TypeDef` and `MethodDef` tables.
use vstd::prelude::*;
use crate::bytes::{at_u16, at_u32, at_u64, at_u8, byte_at, cstr_prefix, le_u16, le_u32, le_u64, nul_offset, bytes_match_at, nul_index};
use crate::text::{lossy_string, utf8_lossy};

verus! {

/// One method of a type in the assembly.
#[derive(Debug, Clone)]
pub struct EntryPoint {
    pub namespace: String,
    pub class: String,
    pub method: String,
    pub is_static: bool,
    pub param_count: u32,
    pub returns_void: bool,
}

/// An entry point, with its names as character sequences.
pub struct EntryView {
    pub namespace: Seq<char>,
    pub class: Seq<char>,
    pub method: Seq<char>,
    pub is_static: bool,
    pub param_count: u32,
    pub returns_void: bool,
}

impl View for EntryPoint {
    type V = EntryView;

    open spec fn view(&self) -> EntryView {
        EntryView {
            namespace: self.namespace@,
            class: self.class@,
            method: self.method@,
            is_static: self.is_static,
            param_count: self.param_count,
            returns_void: self.returns_void,
        }
    }
}

/// The views of a list of entry points.
pub open spec fn entries_view(v: Seq<EntryPoint>) -> Seq<EntryView> {
    v.map_values(|e: EntryPoint| e@)
}

/// A table index of `size` bytes (2 or 4) at offset `o`.
pub open spec fn idx_at(d: Seq<u8>, o: int, size: int) -> Option<u32> {
    if size == 2 {
        match le_u16(d, o) {
            Some(v) => Some(v as u32),
            None => None,
        }
    } else {
        le_u32(d, o)
    }
}

/// Reads a table index of `size` bytes (2 or 4) at offset `o`.
fn idx(d: &[u8], o: u128, size: u128) -> (r: Option<u32>)
    ensures
        r == idx_at(d@, o as int, size as int),
{
    if size == 2 {
        match at_u16(d, o) {
            Some(v) => Some(v as u32),
            None => None,
        }
    } else {
        at_u32(d, o)
    }
}

/// An ECMA-335 compressed unsigned integer at offset `o`, with the number of bytes it takes.
pub open spec fn compressed_at(d: Seq<u8>, o: int) -> Option<(u32, int)> {
    match byte_at(d, o) {
        None => None,
        Some(b0) => if b0 & 0x80 == 0 {
            Some((b0 as u32, 1))
        } else if b0 & 0xC0 == 0x80 {
            match byte_at(d, o + 1) {
                None => None,
                Some(b1) => Some(((((b0 & 0x3F) as u32) << 8u32) | (b1 as u32), 2)),
            }
        } else {
            match byte_at(d, o + 1) {
                None => None,
                Some(b1) => match byte_at(d, o + 2) {
                    None => None,
                    Some(b2) => match byte_at(d, o + 3) {
                        None => None,
                        Some(b3) => Some(
                            (
                                (((b0 & 0x1F) as u32) << 24u32) | ((b1 as u32) << 16u32) | ((
                                b2 as u32) << 8u32) | (b3 as u32),
                                4,
                            ),
                        ),
                    },
                },
            }
        },
    }
}

/// Decodes the compressed unsigned integer at offset `o`.
fn compressed(d: &[u8], o: u128) -> (r: Option<(u32, u128)>)
    requires
        o < 0x1_0000_0000_0000_0000_0000,
    ensures
        match r {
            Some((v, n)) => compressed_at(d@, o as int) == Some((v, n as int)),
            None => compressed_at(d@, o as int) is None,
        },
{
    let b0 = match at_u8(d, o) {
        None => {
            return None;
        },
        Some(b) => b,
    };
    if b0 & 0x80 == 0 {
        Some((b0 as u32, 1))
    } else if b0 & 0xC0 == 0x80 {
        let b1 = match at_u8(d, o + 1) {
            None => {
                return None;
            },
            Some(b) => b,
        };
        Some(((((b0 & 0x3F) as u32) << 8u32) | (b1 as u32), 2))
    } else {
        let b1 = match at_u8(d, o + 1) {
            None => {
                return None;
            },
            Some(b) => b,
        };
        let b2 = match at_u8(d, o + 2) {
            None => {
                return None;
            },
            Some(b) => b,
        };
        let b3 = match at_u8(d, o + 3) {
            None => {
                return None;
            },
            Some(b) => b,
        };
        Some(
            (
                (((b0 & 0x1F) as u32) << 24u32) | ((b1 as u32) << 16u32) | ((b2 as u32) << 8u32) | (
                b3 as u32),
                4,
            ),
        )
    }
}

/// The text of the NUL-terminated heap string at `heap + i` (empty past the end).
pub open spec fn heap_string(d: Seq<u8>, heap: int, i: int) -> Seq<char> {
    let start = heap + i;
    if start > d.len() {
        Seq::empty()
    } else {
        utf8_lossy(cstr_prefix(d.subrange(start, d.len() as int)))
    }
}

/// Reads the heap string at `strings_off + i`.
fn read_string(d: &[u8], strings_off: u128, i: u32) -> (s: String)
    requires
        strings_off < 0x1_0000_0000_0000_0000,
    ensures
        s@ == heap_string(d@, strings_off as int, i as int),
{
    let start = strings_off + i as u128;
    let len = d.len();
    if start > len as u128 {
        return String::new();
    }
    let start = start as usize;
    let n = nul_offset(d, start, len);
    let sub = &d[start..start + n];
    assert(sub@ =~= cstr_prefix(d@.subrange(start as int, len as int)));
    lossy_string(sub)
}

/// The parameter count and "returns void" flag read from a method signature blob at `p0`.
pub open spec fn sig_parse(d: Seq<u8>, p0: int) -> Option<(u32, bool)> {
    match compressed_at(d, p0) {
        None => None,
        Some((_, n1)) => {
            let p1 = p0 + n1;
            match byte_at(d, p1) {
                None => None,
                Some(cc) => {
                    let p2 = p1 + 1;
                    let p3 = if cc & 0x10 != 0 {
                        match compressed_at(d, p2) {
                            None => None,
                            Some((_, n)) => Some(p2 + n),
                        }
                    } else {
                        Some(p2)
                    };
                    match p3 {
                        None => None,
                        Some(p3) => match compressed_at(d, p3) {
                            None => None,
                            Some((pc, n)) => Some((pc, byte_at(d, p3 + n) == Some(1u8))),
                        },
                    }
                },
            }
        },
    }
}

/// The signature facts of blob `i`, `(0, false)` when the blob cannot be read.
pub open spec fn sig_info_spec(d: Seq<u8>, blob_off: int, i: int) -> (u32, bool) {
    match sig_parse(d, blob_off + i) {
        Some(x) => x,
        None => (0, false),
    }
}

/// Reads the parameter count and whether the return type is `void` from signature blob `i`.
fn sig_info(d: &[u8], blob_off: u128, i: u32) -> (r: (u32, bool))
    requires
        blob_off < 0x1_0000_0000_0000_0000,
    ensures
        r == sig_info_spec(d@, blob_off as int, i as int),
{
    let p0 = blob_off + i as u128;
    let n1 = match compressed(d, p0) {
        None => {
            return (0, false);
        },
        Some((_, n)) => n,
    };
    let p1 = p0 + n1;
    let cc = match at_u8(d, p1) {
        None => {
            return (0, false);
        },
        Some(c) => c,
    };
    let mut p = p1 + 1;
    if cc & 0x10 != 0 {
        match compressed(d, p) {
            None => {
                return (0, false);
            },
            Some((_, n)) => {
                p = p + n;
            },
        }
    }
    match compressed(d, p) {
        None => (0, false),
        Some((pc, n)) => (pc, at_u8(d, p + n) == Some(1u8)),
    }
}

/// A PE section header: where a range of relative virtual addresses lives in the file.
#[derive(Clone, Copy)]
pub struct Section {
    pub va: u32,
    pub vsize: u32,
    pub file_off: u32,
    pub raw_size: u32,
}

/// The file offset of `rva` according to the first section, from `k` on, that covers it.
pub open spec fn rva_off_from(secs: Seq<Section>, rva: u32, k: int) -> Option<int>
    decreases secs.len() - k,
{
    if k < 0 || k >= secs.len() {
        None
    } else {
        let s = secs[k];
        let span = if s.vsize >= s.raw_size {
            s.vsize
        } else {
            s.raw_size
        };
        if s.va <= rva && rva < s.va + span {
            Some(s.file_off + (rva - s.va))
        } else {
            rva_off_from(secs, rva, k + 1)
        }
    }
}

/// Maps a relative virtual address to a file offset.
fn rva_to_off(secs: &Vec<Section>, rva: u32) -> (r: Option<u128>)
    ensures
        match r {
            Some(o) => rva_off_from(secs@, rva, 0) == Some(o as int) && o < 0x2_0000_0000,
            None => rva_off_from(secs@, rva, 0) is None,
        },
{
    let mut k: usize = 0;
    while k < secs.len()
        invariant
            k <= secs@.len(),
            rva_off_from(secs@, rva, 0) == rva_off_from(secs@, rva, k as int),
        decreases secs@.len() - k,
    {
        let s = secs[k];
        let span: u64 = if s.vsize >= s.raw_size {
            s.vsize as u64
        } else {
            s.raw_size as u64
        };
        if s.va <= rva && (rva as u64) < s.va as u64 + span {
            return Some(s.file_off as u128 + (rva - s.va) as u128);
        }
        k = k + 1;
    }
    None
}

/// The section headers `i..n` of the table at `sec_start`; `None` if one cannot be read.
pub open spec fn sections_from(d: Seq<u8>, sec_start: int, i: int, n: int) -> Option<Seq<Section>>
    decreases n - i,
{
    if i >= n {
        Some(Seq::empty())
    } else {
        let b = sec_start + i * 40;
        match (le_u32(d, b + 12), le_u32(d, b + 8), le_u32(d, b + 20), le_u32(d, b + 16)) {
            (Some(va), Some(vsize), Some(file_off), Some(raw_size)) => match sections_from(
                d,
                sec_start,
                i + 1,
                n,
            ) {
                None => None,
                Some(rest) => Some(
                    seq![Section { va, vsize, file_off, raw_size }] + rest,
                ),
            },
            _ => None,
        }
    }
}

/// The PE signature `PE\0\0`.
pub open spec fn pe_signature() -> Seq<u8> {
    seq![0x50u8, 0x45u8, 0u8, 0u8]
}

/// The section table and the CLI header's RVA of a PE image with a CLI data directory.
pub open spec fn pe_spec(d: Seq<u8>) -> Option<(Seq<Section>, u32)> {
    match le_u32(d, 0x3C) {
        None => None,
        Some(e) => {
            let e = e as int;
            if e + 4 > d.len() || d.subrange(e, e + 4) != pe_signature() {
                None
            } else {
                let coff = e + 4;
                match le_u16(d, coff + 2) {
                    None => None,
                    Some(nsec) => match le_u16(d, coff + 16) {
                        None => None,
                        Some(opt_size) => {
                            let opt = coff + 20;
                            match le_u16(d, opt) {
                                None => None,
                                Some(magic) => if magic != 0x10B && magic != 0x20B {
                                    None
                                } else {
                                    let datadir = if magic == 0x10B {
                                        opt + 96
                                    } else {
                                        opt + 112
                                    };
                                    match le_u32(d, datadir + 14 * 8) {
                                        None => None,
                                        Some(cli) => if cli == 0 {
                                            None
                                        } else {
                                            match sections_from(d, opt + opt_size, 0, nsec as int) {
                                                None => None,
                                                Some(secs) => Some((secs, cli)),
                                            }
                                        },
                                    }
                                },
                            }
                        },
                    },
                }
            }
        },
    }
}

/// Reads the PE headers: the section table and the CLI header's RVA.
fn pe_headers(d: &[u8]) -> (r: Option<(Vec<Section>, u32)>)
    ensures
        match r {
            Some((secs, cli)) => pe_spec(d@) == Some((secs@, cli)),
            None => pe_spec(d@) is None,
        },
{
    let e_lfanew = match at_u32(d, 0x3C) {
        None => {
            return None;
        },
        Some(v) => v as u128,
    };
    let len = d.len();
    if e_lfanew + 4 > len as u128 {
        return None;
    }
    let e = e_lfanew as usize;
    if !bytes_match_at(d, e, &[0x50u8, 0x45u8, 0u8, 0u8]) {
        return None;
    }
    let coff = e_lfanew + 4;
    let num_sections = match at_u16(d, coff + 2) {
        None => {
            return None;
        },
        Some(v) => v as u128,
    };
    let opt_size = match at_u16(d, coff + 16) {
        None => {
            return None;
        },
        Some(v) => v as u128,
    };
    let opt = coff + 20;
    let magic = match at_u16(d, opt) {
        None => {
            return None;
        },
        Some(v) => v,
    };
    let datadir = if magic == 0x10B {
        opt + 96
    } else if magic == 0x20B {
        opt + 112
    } else {
        return None;
    };
    let cli_rva = match at_u32(d, datadir + 14 * 8) {
        None => {
            return None;
        },
        Some(v) => v,
    };
    if cli_rva == 0 {
        return None;
    }
    let sec_start = opt + opt_size;
    let mut secs: Vec<Section> = Vec::new();
    let ghost whole = sections_from(d@, sec_start as int, 0, num_sections as int);
    assert(pe_spec(d@) == match whole {
        None => None,
        Some(all) => Some((all, cli_rva)),
    });
    let mut i: u128 = 0;
    while i < num_sections
        invariant
            i <= num_sections < 0x1_0000,
            whole == sections_from(d@, sec_start as int, 0, num_sections as int),
            pe_spec(d@) == match whole {
                None => None,
                Some(all) => Some((all, cli_rva)),
            },
            sec_start < 0x1_0000_0000_0000,
            sections_from(d@, sec_start as int, 0, num_sections as int) matches Some(all) ==> (
            sections_from(d@, sec_start as int, i as int, num_sections as int) matches Some(rest)
                && all == secs@ + rest),
            sections_from(d@, sec_start as int, 0, num_sections as int) is None ==> sections_from(
                d@,
                sec_start as int,
                i as int,
                num_sections as int,
            ) is None,
            sections_from(d@, sec_start as int, i as int, num_sections as int) is Some
                ==> sections_from(d@, sec_start as int, 0, num_sections as int) is Some,
        decreases num_sections - i,
    {
        let b = sec_start + i * 40;
        let va = at_u32(d, b + 12);
        let vsize = at_u32(d, b + 8);
        let file_off = at_u32(d, b + 20);
        let raw_size = at_u32(d, b + 16);
        match (va, vsize, file_off, raw_size) {
            (Some(va), Some(vsize), Some(file_off), Some(raw_size)) => {
                let ghost before = secs@;
                let sec = Section { va, vsize, file_off, raw_size };
                secs.push(sec);
                proof {
                    let cur = sections_from(d@, sec_start as int, i as int, num_sections as int);
                    let nxt = sections_from(d@, sec_start as int, i + 1, num_sections as int);
                    if let Some(rest) = nxt {
                        assert(cur == Some(seq![sec] + rest));
                        assert(before + (seq![sec] + rest) =~= secs@ + rest);
                    }
                }
            },
            _ => {
                return None;
            },
        }
        i = i + 1;
    }
    assert(secs@ + Seq::<Section>::empty() =~= secs@);
    Some((secs, cli_rva))
}

/// The metadata root's file offset, the offset just past its version string, and
/// its stream count.
pub open spec fn root_spec(d: Seq<u8>, secs: Seq<Section>, cli: u32) -> Option<(int, int, int)> {
    match rva_off_from(secs, cli, 0) {
        None => None,
        Some(cli_off) => match le_u32(d, cli_off + 8) {
            None => None,
            Some(md_rva) => match rva_off_from(secs, md_rva, 0) {
                None => None,
                Some(md) => match le_u32(d, md) {
                    None => None,
                    Some(sig) => if sig != 0x424A5342 {
                        None
                    } else {
                        match le_u32(d, md + 12) {
                            None => None,
                            Some(ver_len) => {
                                let after_ver = md + 16 + (ver_len + 3) / 4 * 4;
                                match le_u16(d, after_ver + 2) {
                                    None => None,
                                    Some(n) => Some((md, after_ver, n as int)),
                                }
                            },
                        }
                    },
                },
            },
        },
    }
}

/// Locates the metadata root through the CLI header.
fn metadata_root(d: &[u8], secs: &Vec<Section>, cli: u32) -> (r: Option<(u128, u128, u16)>)
    ensures
        match r {
            Some((md, after_ver, n)) => root_spec(d@, secs@, cli) == Some(
                (md as int, after_ver as int, n as int),
            ) && md < 0x2_0000_0000 && after_ver < 0x4_0000_0000,
            None => root_spec(d@, secs@, cli) is None,
        },
{
    let cli_off = match rva_to_off(secs, cli) {
        None => {
            return None;
        },
        Some(o) => o,
    };
    let md_rva = match at_u32(d, cli_off + 8) {
        None => {
            return None;
        },
        Some(v) => v,
    };
    let md = match rva_to_off(secs, md_rva) {
        None => {
            return None;
        },
        Some(o) => o,
    };
    match at_u32(d, md) {
        Some(sig) if sig == 0x424A5342 => {},
        _ => {
            return None;
        },
    }
    let ver_len = match at_u32(d, md + 12) {
        None => {
            return None;
        },
        Some(v) => v as u128,
    };
    let after_ver = md + 16 + (ver_len + 3) / 4 * 4;
    match at_u16(d, after_ver + 2) {
        None => None,
        Some(n) => Some((md, after_ver, n)),
    }
}

/// `#~`, the compressed tables stream.
pub open spec fn name_tables() -> Seq<u8> {
    seq![0x23u8, 0x7eu8]
}

/// `#-`, the uncompressed tables stream.
pub open spec fn name_tables_raw() -> Seq<u8> {
    seq![0x23u8, 0x2du8]
}

/// `#Strings`.
pub open spec fn name_strings() -> Seq<u8> {
    seq![0x23u8, 0x53u8, 0x74u8, 0x72u8, 0x69u8, 0x6eu8, 0x67u8, 0x73u8]
}

/// `#Blob`.
pub open spec fn name_blob() -> Seq<u8> {
    seq![0x23u8, 0x42u8, 0x6cu8, 0x6fu8, 0x62u8]
}

/// Where the tables, `#Strings` and `#Blob` streams start, as far as they were found.
pub type Heaps = (Option<int>, Option<int>, Option<int>);

/// Scans stream headers `k..n` starting at `cur`; a later header with a known name
/// replaces an earlier one. `None` when a header cannot be read or its name is unterminated.
pub open spec fn streams_from(d: Seq<u8>, md: int, cur: int, k: int, n: int, h: Heaps) -> Option<Heaps>
    decreases n - k,
{
    if k >= n {
        Some(h)
    } else {
        match le_u32(d, cur) {
            None => None,
            Some(off) => match le_u32(d, cur + 4) {
                None => None,
                Some(_) => {
                    let name_start = cur + 8;
                    if name_start > d.len() {
                        None
                    } else {
                        let rest = d.subrange(name_start, d.len() as int);
                        let nlen = nul_index(rest) as int;
                        if nlen >= rest.len() {
                            None
                        } else {
                            let name = rest.take(nlen);
                            let padded = (nlen + 4) / 4 * 4;
                            let at = md + off;
                            let h2: Heaps = if name == name_tables() || name == name_tables_raw() {
                                (Some(at), h.1, h.2)
                            } else if name == name_strings() {
                                (h.0, Some(at), h.2)
                            } else if name == name_blob() {
                                (h.0, h.1, Some(at))
                            } else {
                                h
                            };
                            streams_from(d, md, name_start + padded, k + 1, n, h2)
                        }
                    }
                },
            },
        }
    }
}

/// The exec form of a found stream offset.
pub open spec fn opt_wide(o: Option<u128>) -> Option<int> {
    match o {
        Some(v) => Some(v as int),
        None => None,
    }
}

/// Whether the `len` bytes at `start` are exactly `lit`.
fn name_is(d: &[u8], start: usize, len: usize, lit: &[u8]) -> (r: bool)
    requires
        start + len <= d@.len(),
    ensures
        r == (d@.subrange(start as int, start + len) == lit@),
{
    if len != lit.len() {
        return false;
    }
    bytes_match_at(d, start, lit)
}

/// Scans the stream headers for the tables, `#Strings` and `#Blob` streams.
fn find_streams(d: &[u8], md: u128, after_ver: u128, n: u16) -> (r: Option<
    (Option<u128>, Option<u128>, Option<u128>),
>)
    requires
        md < 0x2_0000_0000,
        after_ver < 0x4_0000_0000,
    ensures
        match r {
            Some((t, s, b)) => streams_from(
                d@,
                md as int,
                after_ver + 4,
                0,
                n as int,
                (None, None, None),
            ) == Some((opt_wide(t), opt_wide(s), opt_wide(b))) && (t matches Some(v) ==> v
                < 0x4_0000_0000) && (s matches Some(v) ==> v < 0x4_0000_0000) && (b matches Some(
                v,
            ) ==> v < 0x4_0000_0000),
            None => streams_from(d@, md as int, after_ver + 4, 0, n as int, (None, None, None))
                is None,
        },
{
    let len = d.len();
    let mut tables: Option<u128> = None;
    let mut strings: Option<u128> = None;
    let mut blob: Option<u128> = None;
    let mut cur: u128 = after_ver + 4;
    let mut k: u16 = 0;
    while k < n
        invariant
            k <= n,
            len == d@.len(),
            md < 0x2_0000_0000,
            cur <= 0x4_0000_0004 + len,
            tables matches Some(v) ==> v < 0x4_0000_0000,
            strings matches Some(v) ==> v < 0x4_0000_0000,
            blob matches Some(v) ==> v < 0x4_0000_0000,
            streams_from(d@, md as int, after_ver + 4, 0, n as int, (None, None, None))
                == streams_from(
                d@,
                md as int,
                cur as int,
                k as int,
                n as int,
                (opt_wide(tables), opt_wide(strings), opt_wide(blob)),
            ),
        decreases n - k,
    {
        let off = match at_u32(d, cur) {
            None => {
                return None;
            },
            Some(v) => v as u128,
        };
        if at_u32(d, cur + 4).is_none() {
            return None;
        }
        let name_start = cur + 8;
        if name_start > len as u128 {
            return None;
        }
        let ns = name_start as usize;
        let nlen = nul_offset(d, ns, len);
        if nlen >= len - ns {
            return None;
        }
        let at = md + off;
        if name_is(d, ns, nlen, &[0x23u8, 0x7eu8]) || name_is(d, ns, nlen, &[0x23u8, 0x2du8]) {
            tables = Some(at);
        } else if name_is(d, ns, nlen, &[0x23u8, 0x53u8, 0x74u8, 0x72u8, 0x69u8, 0x6eu8, 0x67u8, 0x73u8]) {
            strings = Some(at);
        } else if name_is(d, ns, nlen, &[0x23u8, 0x42u8, 0x6cu8, 0x6fu8, 0x62u8]) {
            blob = Some(at);
        }
        proof {
            let rest = d@.subrange(ns as int, len as int);
            assert(rest.take(nlen as int) =~= d@.subrange(ns as int, ns + nlen));
        }
        cur = name_start + (nlen as u128 + 4) / 4 * 4;
        k = k + 1;
    }
    Some((tables, strings, blob))
}

/// The row counts of tables `id..64` present in `valid`, read from `cursor` on and
/// appended to `rc` (absent tables count 0), with the offset just past the counts.
pub open spec fn rows_from(d: Seq<u8>, valid: u64, cursor: int, id: int, rc: Seq<u32>) -> Option<
    (Seq<u32>, int),
>
    decreases 64 - id,
{
    if id < 0 || id >= 64 {
        Some((rc, cursor))
    } else if valid & (1u64 << (id as u64)) != 0 {
        match le_u32(d, cursor) {
            None => None,
            Some(v) => rows_from(d, valid, cursor + 4, id + 1, rc.push(v)),
        }
    } else {
        rows_from(d, valid, cursor, id + 1, rc.push(0u32))
    }
}

/// Reads the row counts of the 64 tables of the tables stream at `tables_off`.
fn row_counts(d: &[u8], valid: u64, tables_off: u128) -> (r: Option<(Vec<u32>, u128)>)
    requires
        tables_off < 0x4_0000_0000,
    ensures
        match r {
            Some((rc, ds)) => rows_from(d@, valid, tables_off + 24, 0, Seq::empty()) == Some(
                (rc@, ds as int),
            ) && rc@.len() == 64 && ds < 0x5_0000_0000,
            None => rows_from(d@, valid, tables_off + 24, 0, Seq::empty()) is None,
        },
{
    let mut rc: Vec<u32> = Vec::new();
    let mut cursor: u128 = tables_off + 24;
    let mut id: u64 = 0;
    while id < 64
        invariant
            id <= 64,
            rc@.len() == id,
            cursor <= tables_off + 24 + 4 * id,
            tables_off < 0x4_0000_0000,
            rows_from(d@, valid, tables_off + 24, 0, Seq::empty()) == rows_from(
                d@,
                valid,
                cursor as int,
                id as int,
                rc@,
            ),
        decreases 64 - id,
    {
        if valid & (1u64 << id) != 0 {
            match at_u32(d, cursor) {
                None => {
                    return None;
                },
                Some(v) => {
                    rc.push(v);
                    cursor = cursor + 4;
                },
            }
        } else {
            rc.push(0);
        }
        id = id + 1;
    }
    Some((rc, cursor))
}

/// Sizes and offsets of the metadata tables that matter here.
pub struct MdLayout {
    pub rc: Seq<u32>,
    pub str_i: int,
    pub blob_i: int,
    pub strings_off: int,
    pub blob_off: int,
    pub typedef_off: int,
    pub sz_typedef: int,
    pub method_col: int,
    pub methoddef_off: int,
    pub sz_methoddef: int,
}

/// Width of a simple index into table `t`.
pub open spec fn simple_w(rc: Seq<u32>, t: int) -> int {
    if rc[t] < 65536 {
        2
    } else {
        4
    }
}

/// Width of a `TypeDefOrRef` coded index.
pub open spec fn coded_type_w(rc: Seq<u32>) -> int {
    if rc[0x02] < 16384 && rc[0x01] < 16384 && rc[0x1B] < 16384 {
        2
    } else {
        4
    }
}

/// Width of a `ResolutionScope` coded index.
pub open spec fn coded_scope_w(rc: Seq<u32>) -> int {
    if rc[0x00] < 16384 && rc[0x1A] < 16384 && rc[0x23] < 16384 && rc[0x01] < 16384 {
        2
    } else {
        4
    }
}

/// The table layout given the row counts, the start of the rows, the heap-size flags and
/// the heap offsets.
pub open spec fn layout_of(rc: Seq<u32>, data_start: int, heap_sizes: u8, strings_off: int, blob_off: int) -> MdLayout {
    let str_i: int = if heap_sizes & 0x01 != 0 { 4 } else { 2 };
    let guid_i: int = if heap_sizes & 0x02 != 0 { 4 } else { 2 };
    let blob_i: int = if heap_sizes & 0x04 != 0 { 4 } else { 2 };
    let sz_module = 2 + str_i + 3 * guid_i;
    let sz_typeref = coded_scope_w(rc) + 2 * str_i;
    let sz_typedef = 4 + 2 * str_i + coded_type_w(rc) + simple_w(rc, 0x04) + simple_w(rc, 0x06);
    let sz_fieldptr = simple_w(rc, 0x04);
    let sz_field = 2 + str_i + blob_i;
    let sz_methodptr = simple_w(rc, 0x06);
    let sz_methoddef = 4 + 2 + 2 + str_i + blob_i + simple_w(rc, 0x08);
    let typedef_off = data_start + rc[0x00] * sz_module + rc[0x01] * sz_typeref;
    let methoddef_off = typedef_off + rc[0x02] * sz_typedef + rc[0x03] * sz_fieldptr + rc[0x04]
        * sz_field + rc[0x05] * sz_methodptr;
    MdLayout {
        rc,
        str_i,
        blob_i,
        strings_off,
        blob_off,
        typedef_off,
        sz_typedef,
        method_col: 4 + 2 * str_i + coded_type_w(rc) + simple_w(rc, 0x04),
        methoddef_off,
        sz_methoddef,
    }
}

/// The width in bytes of an index whose target has `rows` rows, or that selects among tables
/// by `tag_bits` low bits (the largest of the tables counting): 2 bytes while the rows fit in
/// the bits that are left of 16, else 4 (ECMA-335 II.24.2.6).
pub open spec fn index_bytes(rows: int, tag_bits: int) -> int {
    if rows < pow2_16(tag_bits) {
        2
    } else {
        4
    }
}

/// `2^(16 - tag_bits)` for the tag widths in use.
pub open spec fn pow2_16(tag_bits: int) -> int {
    if tag_bits == 0 {
        65536
    } else if tag_bits == 2 {
        16384
    } else {
        0
    }
}

/// The tables sit where ECMA-335 II.22 puts them: each table's rows come one after the
/// other, in table order, each row the sum of its columns. A `Module` row is a 2-byte
/// generation, a name and three GUIDs; a `TypeRef` row a `ResolutionScope` and two names
/// (name and namespace); a `TypeDef` row 4 bytes of flags, two names, an `Extends`
/// (`TypeDefOrRef`), and indexes into `Field` and `MethodDef`; a `FieldPtr` row an index into
/// `Field`; a `Field` row 2 bytes of flags, a name and a signature blob; a `MethodPtr` row an
/// index into `MethodDef`; a `MethodDef` row an RVA, implementation flags, flags, a name, a
/// signature blob and an index into `Param`. A method's `MethodList` column follows the
/// `TypeDef` row's flags, names, `Extends` and `FieldList`.
pub proof fn lemma_tables_follow_ecma_rows(
    rc: Seq<u32>,
    data_start: int,
    heap_sizes: u8,
    strings_off: int,
    blob_off: int,
)
    requires
        rc.len() == 64,
    ensures
        ({
            let l = layout_of(rc, data_start, heap_sizes, strings_off, blob_off);
            let name: int = if heap_sizes & 0x01 != 0 { 4 } else { 2 };
            let guid: int = if heap_sizes & 0x02 != 0 { 4 } else { 2 };
            let blob: int = if heap_sizes & 0x04 != 0 { 4 } else { 2 };
            let module_i = rc[0x00] as int;
            let typeref_i = rc[0x01] as int;
            let typedef_i = rc[0x02] as int;
            let fieldptr_i = rc[0x03] as int;
            let field_i = rc[0x04] as int;
            let methodptr_i = rc[0x05] as int;
            let methoddef_i = rc[0x06] as int;
            let param_i = rc[0x08] as int;
            let moduleref_i = rc[0x1A] as int;
            let typespec_i = rc[0x1B] as int;
            let assemblyref_i = rc[0x23] as int;
            let scope_rows = vstd::math::max(
                vstd::math::max(module_i, moduleref_i),
                vstd::math::max(assemblyref_i, typeref_i),
            );
            let extends_rows = vstd::math::max(vstd::math::max(typedef_i, typeref_i), typespec_i);
            let module_row = 2 + name + guid + guid + guid;
            let typeref_row = index_bytes(scope_rows, 2) + name + name;
            let typedef_row = 4 + name + name + index_bytes(extends_rows, 2) + index_bytes(field_i, 0)
                + index_bytes(methoddef_i, 0);
            let fieldptr_row = index_bytes(field_i, 0);
            let field_row = 2 + name + blob;
            let methodptr_row = index_bytes(methoddef_i, 0);
            let methoddef_row = 4 + 2 + 2 + name + blob + index_bytes(param_i, 0);
            &&& l.typedef_off == data_start + module_i * module_row + typeref_i * typeref_row
            &&& l.sz_typedef == typedef_row
            &&& l.methoddef_off == l.typedef_off + typedef_i * typedef_row + fieldptr_i * fieldptr_row
                + field_i * field_row + methodptr_i * methodptr_row
            &&& l.sz_methoddef == methoddef_row
            &&& l.method_col == 4 + name + name + index_bytes(extends_rows, 2) + index_bytes(field_i, 0)
            &&& l.str_i == name
            &&& l.blob_i == blob
        }),
{
}

/// The computed table layout.
struct Layout {
    rc: Vec<u32>,
    str_i: u128,
    blob_i: u128,
    strings_off: u128,
    blob_off: u128,
    typedef_off: u128,
    sz_typedef: u128,
    method_col: u128,
    methoddef_off: u128,
    sz_methoddef: u128,
}

impl Layout {
    spec fn view(&self) -> MdLayout {
        MdLayout {
            rc: self.rc@,
            str_i: self.str_i as int,
            blob_i: self.blob_i as int,
            strings_off: self.strings_off as int,
            blob_off: self.blob_off as int,
            typedef_off: self.typedef_off as int,
            sz_typedef: self.sz_typedef as int,
            method_col: self.method_col as int,
            methoddef_off: self.methoddef_off as int,
            sz_methoddef: self.sz_methoddef as int,
        }
    }

    /// Offsets stay far below the range of `u128`, widths are 2 or 4.
    spec fn bounded(&self) -> bool {
        &&& self.rc@.len() == 64
        &&& (self.str_i == 2 || self.str_i == 4)
        &&& (self.blob_i == 2 || self.blob_i == 4)
        &&& self.strings_off < 0x4_0000_0000
        &&& self.blob_off < 0x4_0000_0000
        &&& self.typedef_off < 0x1_0000_0000_0000
        &&& self.methoddef_off < 0x1_0000_0000_0000
        &&& self.sz_typedef <= 24
        &&& self.sz_methoddef <= 20
        &&& self.method_col <= 24
    }
}

proof fn lemma_count_times_width(n: u32, w: int)
    requires
        0 <= w <= 24,
    ensures
        0 <= n * w <= 0xFFFF_FFFF * 24,
{
    assert(0 <= n * w <= 0xFFFF_FFFF * 24) by (nonlinear_arith)
        requires
            0 <= w <= 24,
            0 <= n <= 0xFFFF_FFFF,
    ;
}

/// Width of a simple index into table `t`.
fn simple(rc: &Vec<u32>, t: usize) -> (w: u128)
    requires
        t < rc@.len(),
    ensures
        w == simple_w(rc@, t as int),
{
    if rc[t] < 65536 {
        2
    } else {
        4
    }
}

/// Computes the table layout.
#[verifier::rlimit(40)]
fn table_layout(rc: Vec<u32>, data_start: u128, heap_sizes: u8, strings_off: u128, blob_off: u128) -> (l: Layout)
    requires
        rc@.len() == 64,
        data_start < 0x5_0000_0000,
        strings_off < 0x4_0000_0000,
        blob_off < 0x4_0000_0000,
    ensures
        l@ == layout_of(rc@, data_start as int, heap_sizes, strings_off as int, blob_off as int),
        l.bounded(),
{
    let str_i: u128 = if heap_sizes & 0x01 != 0 { 4 } else { 2 };
    let guid_i: u128 = if heap_sizes & 0x02 != 0 { 4 } else { 2 };
    let blob_i: u128 = if heap_sizes & 0x04 != 0 { 4 } else { 2 };
    let coded_type: u128 = if rc[0x02] < 16384 && rc[0x01] < 16384 && rc[0x1B] < 16384 {
        2
    } else {
        4
    };
    let coded_scope: u128 = if rc[0x00] < 16384 && rc[0x1A] < 16384 && rc[0x23] < 16384 && rc[0x01]
        < 16384 {
        2
    } else {
        4
    };
    let sz_module = 2 + str_i + 3 * guid_i;
    let sz_typeref = coded_scope + 2 * str_i;
    let sz_typedef = 4 + 2 * str_i + coded_type + simple(&rc, 0x04) + simple(&rc, 0x06);
    let sz_fieldptr = simple(&rc, 0x04);
    let sz_field = 2 + str_i + blob_i;
    let sz_methodptr = simple(&rc, 0x06);
    let sz_methoddef = 4 + 2 + 2 + str_i + blob_i + simple(&rc, 0x08);
    let r0 = rc[0x00] as u128;
    let r1 = rc[0x01] as u128;
    let r2 = rc[0x02] as u128;
    let r3 = rc[0x03] as u128;
    let r4 = rc[0x04] as u128;
    let r5 = rc[0x05] as u128;
    proof {
        lemma_count_times_width(rc@[0x00], sz_module as int);
        lemma_count_times_width(rc@[0x01], sz_typeref as int);
        lemma_count_times_width(rc@[0x02], sz_typedef as int);
        lemma_count_times_width(rc@[0x03], sz_fieldptr as int);
        lemma_count_times_width(rc@[0x04], sz_field as int);
        lemma_count_times_width(rc@[0x05], sz_methodptr as int);
    }
    let p0 = r0 * sz_module;
    let p1 = r1 * sz_typeref;
    let p2 = r2 * sz_typedef;
    let p3 = r3 * sz_fieldptr;
    let p4 = r4 * sz_field;
    let p5 = r5 * sz_methodptr;
    let typedef_off = data_start + p0 + p1;
    let methoddef_off = typedef_off + p2 + p3 + p4 + p5;
    let method_col = 4 + 2 * str_i + coded_type + simple(&rc, 0x04);
    Layout {
        rc,
        str_i,
        blob_i,
        strings_off,
        blob_off,
        typedef_off,
        sz_typedef,
        method_col,
        methoddef_off,
        sz_methoddef,
    }
}

/// A row of the `TypeDef` table: its namespace, name and first method index.
pub struct TypeRow {
    pub ns: Seq<char>,
    pub name: Seq<char>,
    pub method_start: u32,
}

/// The `TypeDef` rows `i..n`; `None` if an index in one of them cannot be read.
pub open spec fn types_from(d: Seq<u8>, l: MdLayout, i: int, n: int) -> Option<Seq<TypeRow>>
    decreases n - i,
{
    if i >= n {
        Some(Seq::empty())
    } else {
        let base = l.typedef_off + i * l.sz_typedef;
        match idx_at(d, base + 4, l.str_i) {
            None => None,
            Some(name_i) => match idx_at(d, base + 4 + l.str_i, l.str_i) {
                None => None,
                Some(ns_i) => match idx_at(d, base + l.method_col, simple_w(l.rc, 0x06)) {
                    None => None,
                    Some(method_start) => match types_from(d, l, i + 1, n) {
                        None => None,
                        Some(rest) => Some(
                            seq![
                                TypeRow {
                                    ns: heap_string(d, l.strings_off, ns_i as int),
                                    name: heap_string(d, l.strings_off, name_i as int),
                                    method_start,
                                },
                            ] + rest,
                        ),
                    },
                },
            },
        }
    }
}

/// A read `TypeDef` row.
struct Ty {
    ns: String,
    name: String,
    method_start: u32,
}

/// The rows as read.
spec fn types_view(v: Seq<Ty>) -> Seq<TypeRow> {
    v.map_values(|t: Ty| TypeRow { ns: t.ns@, name: t.name@, method_start: t.method_start })
}

proof fn lemma_index_times_width(i: int, n: int, w: int)
    requires
        0 <= i < n <= 0x1_0000_0000,
        0 <= w <= 24,
    ensures
        0 <= i * w <= 0x1_0000_0000 * 24,
{
    assert(0 <= i * w <= 0x1_0000_0000 * 24) by (nonlinear_arith)
        requires
            0 <= i < n <= 0x1_0000_0000,
            0 <= w <= 24,
    ;
}

/// Reads all rows of the `TypeDef` table.
fn type_rows(d: &[u8], l: &Layout) -> (r: Option<Vec<Ty>>)
    requires
        l.bounded(),
    ensures
        match r {
            Some(v) => types_from(d@, l@, 0, l@.rc[0x02] as int) == Some(types_view(v@)),
            None => types_from(d@, l@, 0, l@.rc[0x02] as int) is None,
        },
{
    let n = l.rc[0x02] as u128;
    let method_w = simple(&l.rc, 0x06);
    let mut types: Vec<Ty> = Vec::new();
    let mut i: u128 = 0;
    while i < n
        invariant
            i <= n,
            n == l@.rc[0x02],
            l.bounded(),
            method_w == simple_w(l@.rc, 0x06),
            types_from(d@, l@, 0, n as int) matches Some(all) ==> (types_from(
                d@,
                l@,
                i as int,
                n as int,
            ) matches Some(rest) && all == types_view(types@) + rest),
            types_from(d@, l@, i as int, n as int) is Some ==> types_from(d@, l@, 0, n as int)
                is Some,
        decreases n - i,
    {
        proof {
            lemma_index_times_width(i as int, n as int, l.sz_typedef as int);
        }
        let base = l.typedef_off + i * l.sz_typedef;
        let name_i = match idx(d, base + 4, l.str_i) {
            None => {
                return None;
            },
            Some(v) => v,
        };
        let ns_i = match idx(d, base + 4 + l.str_i, l.str_i) {
            None => {
                return None;
            },
            Some(v) => v,
        };
        let method_start = match idx(d, base + l.method_col, method_w) {
            None => {
                return None;
            },
            Some(v) => v,
        };
        let t = Ty {
            ns: read_string(d, l.strings_off, ns_i),
            name: read_string(d, l.strings_off, name_i),
            method_start,
        };
        let ghost before = types@;
        types.push(t);
        proof {
            let row = TypeRow { ns: t.ns@, name: t.name@, method_start };
            assert(types_view(types@) =~= types_view(before).push(row));
            if let Some(rest) = types_from(d@, l@, i + 1, n as int) {
                assert(types_from(d@, l@, i as int, n as int) == Some(seq![row] + rest));
                assert(types_view(before) + (seq![row] + rest) =~= types_view(types@) + rest);
            }
        }
        i = i + 1;
    }
    assert(types_view(types@) + Seq::<TypeRow>::empty() =~= types_view(types@));
    Some(types)
}

/// Whether a method name is listed: it is neither empty nor starts with `.`
/// (constructors and other special names).
pub open spec fn listed_name(name: Seq<char>) -> bool {
    name.len() != 0 && name[0] != '.'
}

/// The entry points of the `MethodDef` rows `j..end` (1-based) belonging to type `ty`;
/// rows out of range or whose fields cannot be read are skipped.
pub open spec fn methods_from(d: Seq<u8>, l: MdLayout, ty: TypeRow, j: int, end: int) -> Seq<EntryView>
    decreases end - j,
{
    if j >= end {
        Seq::empty()
    } else {
        let rest = methods_from(d, l, ty, j + 1, end);
        if j == 0 || j > l.rc[0x06] {
            rest
        } else {
            let base = l.methoddef_off + (j - 1) * l.sz_methoddef;
            match (le_u16(d, base + 6), idx_at(d, base + 8, l.str_i), idx_at(d, base + 8 + l.str_i, l.blob_i)) {
                (Some(flags), Some(name_i), Some(sig_i)) => {
                    let name = heap_string(d, l.strings_off, name_i as int);
                    if !listed_name(name) {
                        rest
                    } else {
                        let (pc, rv) = sig_info_spec(d, l.blob_off, sig_i as int);
                        seq![
                            EntryView {
                                namespace: ty.ns,
                                class: ty.name,
                                method: name,
                                is_static: flags & 0x0010 != 0,
                                param_count: pc,
                                returns_void: rv,
                            },
                        ] + rest
                    }
                },
                _ => rest,
            }
        }
    }
}

/// The row just past the last method of type `i`.
pub open spec fn method_end(l: MdLayout, types: Seq<TypeRow>, i: int) -> int {
    if i + 1 < types.len() {
        types[i + 1].method_start as int
    } else {
        l.rc[0x06] + 1
    }
}

/// The entry points of the types `i..`, in table order.
pub open spec fn entries_from(d: Seq<u8>, l: MdLayout, types: Seq<TypeRow>, i: int) -> Seq<EntryView>
    decreases types.len() - i,
{
    if i < 0 || i >= types.len() {
        Seq::empty()
    } else {
        methods_from(d, l, types[i], types[i].method_start as int, method_end(l, types, i))
            + entries_from(d, l, types, i + 1)
    }
}

/// The entry points of rows `j..end` of type `types[i]` (exec form).
fn collect_methods(
    d: &[u8],
    l: &Layout,
    types: &Vec<Ty>,
    i: usize,
    start: u64,
    end: u64,
    out: &mut Vec<EntryPoint>,
)
    requires
        l.bounded(),
        i < types@.len(),
        end <= 0x1_0000_0001,
    ensures
        entries_view(final(out)@) == entries_view(old(out)@) + methods_from(
            d@,
            l@,
            types_view(types@)[i as int],
            start as int,
            end as int,
        ),
{
    let ghost ty = types_view(types@)[i as int];
    let ghost orig = entries_view(out@);
    let n_methods = l.rc[0x06] as u64;
    let method_w = simple(&l.rc, 0x06);
    let mut j = start;
    while j < end
        invariant
            l.bounded(),
            i < types@.len(),
            ty == types_view(types@)[i as int],
            n_methods == l@.rc[0x06],
            method_w == simple_w(l@.rc, 0x06),
            start <= j || j >= end,
            end <= 0x1_0000_0001,
            orig + methods_from(d@, l@, ty, start as int, end as int) == entries_view(out@)
                + methods_from(d@, l@, ty, j as int, end as int),
        decreases end - j,
    {
        let ghost before = entries_view(out@);
        let ghost rest = methods_from(d@, l@, ty, j + 1, end as int);
        if j != 0 && j <= n_methods {
            proof {
                lemma_index_times_width(j - 1, 0x1_0000_0000, l.sz_methoddef as int);
            }
            let base = l.methoddef_off + (j - 1) as u128 * l.sz_methoddef;
            let flags = at_u16(d, base + 6);
            let name_i = idx(d, base + 8, l.str_i);
            let sig_i = idx(d, base + 8 + l.str_i, l.blob_i);
            match (flags, name_i, sig_i) {
                (Some(flags), Some(name_i), Some(sig_i)) => {
                    let name = read_string(d, l.strings_off, name_i);
                    let listed = !name.as_str().is_empty() && name.as_str().get_char(0) != '.';
                    if listed {
                        let (pc, rv) = sig_info(d, l.blob_off, sig_i);
                        let e = EntryPoint {
                            namespace: types[i].ns.clone(),
                            class: types[i].name.clone(),
                            method: name,
                            is_static: flags & 0x0010 != 0,
                            param_count: pc,
                            returns_void: rv,
                        };
                        out.push(e);
                        proof {
                            assert(entries_view(out@) =~= before.push(e@));
                            assert(before + (seq![e@] + rest) =~= entries_view(out@) + rest);
                        }
                    }
                },
                _ => {},
            }
        }
        j = j + 1;
    }
}

/// The entry points of all types (exec form).
fn collect_entries(d: &[u8], l: &Layout, types: &Vec<Ty>) -> (out: Vec<EntryPoint>)
    requires
        l.bounded(),
    ensures
        entries_view(out@) == entries_from(d@, l@, types_view(types@), 0),
{
    let ghost tv = types_view(types@);
    let n_methods = l.rc[0x06] as u64;
    let mut out: Vec<EntryPoint> = Vec::new();
    let mut i: usize = 0;
    while i < types.len()
        invariant
            i <= types@.len(),
            tv == types_view(types@),
            n_methods == l@.rc[0x06],
            l.bounded(),
            entries_view(out@) + entries_from(d@, l@, tv, i as int) == entries_from(d@, l@, tv, 0),
        decreases types@.len() - i,
    {
        let start = types[i].method_start as u64;
        let end: u64 = if i + 1 < types.len() {
            types[i + 1].method_start as u64
        } else {
            n_methods + 1
        };
        let ghost before = entries_view(out@);
        collect_methods(d, l, types, i, start, end, &mut out);
        proof {
            assert(end == method_end(l@, tv, i as int));
            let m = methods_from(d@, l@, tv[i as int], start as int, end as int);
            assert(entries_from(d@, l@, tv, i as int) == m + entries_from(d@, l@, tv, i + 1));
            assert(before + (m + entries_from(d@, l@, tv, i + 1)) =~= (before + m) + entries_from(
                d@,
                l@,
                tv,
                i + 1,
            ));
        }
        i = i + 1;
    }
    assert(entries_view(out@) + Seq::<EntryView>::empty() =~= entries_view(out@));
    out
}

/// The entry points listed in the .NET assembly `d`, or `None` when its PE headers, CLI
/// header, metadata root, streams or `TypeDef` rows cannot be read.
pub open spec fn metadata_entries(d: Seq<u8>) -> Option<Seq<EntryView>> {
    match pe_spec(d) {
        None => None,
        Some((secs, cli)) => match root_spec(d, secs, cli) {
            None => None,
            Some((md, after_ver, n)) => match streams_from(d, md, after_ver + 4, 0, n, (None, None, None)) {
                None => None,
                Some((tables, strings, blob)) => match (tables, strings) {
                    (Some(t), Some(s)) => {
                        let b = match blob {
                            Some(b) => b,
                            None => 0,
                        };
                        match byte_at(d, t + 6) {
                            None => None,
                            Some(heap_sizes) => match le_u64(d, t + 8) {
                                None => None,
                                Some(valid) => match rows_from(d, valid, t + 24, 0, Seq::empty()) {
                                    None => None,
                                    Some((rc, data_start)) => {
                                        let l = layout_of(rc, data_start, heap_sizes, s, b);
                                        match types_from(d, l, 0, rc[0x02] as int) {
                                            None => None,
                                            Some(types) => Some(entries_from(d, l, types, 0)),
                                        }
                                    },
                                },
                            },
                        }
                    },
                    _ => None,
                },
            },
        },
    }
}

/// Parses the .NET metadata of the assembly image `d` and lists the methods of its types.
/// Any bytes are accepted: offsets and row counts read from them are checked, so a truncated
/// or hostile image gives `None`.
pub fn parse(d: &[u8]) -> (r: Option<Vec<EntryPoint>>)
    ensures
        match r {
            Some(v) => metadata_entries(d@) == Some(entries_view(v@)),
            None => metadata_entries(d@) is None,
        },
{
    let (secs, cli) = match pe_headers(d) {
        None => {
            return None;
        },
        Some(x) => x,
    };
    let (md, after_ver, n) = match metadata_root(d, &secs, cli) {
        None => {
            return None;
        },
        Some(x) => x,
    };
    let (tables, strings, blob) = match find_streams(d, md, after_ver, n) {
        None => {
            return None;
        },
        Some(x) => x,
    };
    let tables_off = match tables {
        None => {
            return None;
        },
        Some(t) => t,
    };
    let strings_off = match strings {
        None => {
            return None;
        },
        Some(s) => s,
    };
    let blob_off = match blob {
        Some(b) => b,
        None => 0,
    };
    let heap_sizes = match at_u8(d, tables_off + 6) {
        None => {
            return None;
        },
        Some(h) => h,
    };
    let valid = match at_u64(d, tables_off + 8) {
        None => {
            return None;
        },
        Some(v) => v,
    };
    let (rc, data_start) = match row_counts(d, valid, tables_off) {
        None => {
            return None;
        },
        Some(x) => x,
    };
    let l = table_layout(rc, data_start, heap_sizes, strings_off, blob_off);
    let types = match type_rows(d, &l) {
        None => {
            return None;
        },
        Some(t) => t,
    };
    Some(collect_entries(d, &l, &types))
}

/// Lists the methods of the .NET assembly whose bytes are `data`.
pub fn list_entry_points(data: &[u8]) -> (r: Result<Vec<EntryPoint>, String>)
    ensures
        match r {
            Ok(v) => metadata_entries(data@) == Some(entries_view(v@)),
            Err(m) => metadata_entries(data@) is None && m@
                == "could not parse .NET metadata (not a managed assembly?)"@,
        },
{
    match parse(data) {
        Some(v) => Ok(v),
        None => Err(String::from_str("could not parse .NET metadata (not a managed assembly?)")),
    }
}

} // verus!
