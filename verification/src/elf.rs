//! Just enough of an ELF64 little-endian reader to find where a shared object's
//! dynamic symbols live and to look a symbol's address up by name.
use vstd::prelude::*;
use vstd::string::StringSliceAdditionalSpecFns;
use crate::bytes::{bytes_match_at, cstr_prefix, nul_offset, field_u16, field_u32, field_u64, le_u16, le_u32, le_u64, rd_u16, rd_u64};

verus! {

/// Program-header type of a loadable segment.
pub const PT_LOAD: u32 = 1;
/// Section-header type of the dynamic symbol table.
pub const SHT_DYNSYM: u32 = 11;

/// Why a buffer was not accepted as an ELF image with a dynamic symbol table.
pub enum ElfFault {
    NotElf,
    NotElf64,
    NotLittleEndian,
    Stripped,
    ShOffset,
    ShSize,
    ShLink,
    ShEntsize,
    NoDynsym,
    BadEntsize,
    DynstrOff,
    DynstrSize,
}

/// The message returned for each fault.
pub open spec fn fault_text(f: ElfFault) -> Seq<char> {
    match f {
        ElfFault::NotElf => "not an ELF file"@,
        ElfFault::NotElf64 => "not ELF64"@,
        ElfFault::NotLittleEndian => "not little-endian ELF"@,
        ElfFault::Stripped => "no section headers (stripped); use fallback"@,
        ElfFault::ShOffset => "sh_offset"@,
        ElfFault::ShSize => "sh_size"@,
        ElfFault::ShLink => "sh_link"@,
        ElfFault::ShEntsize => "sh_entsize"@,
        ElfFault::NoDynsym => "no .dynsym section"@,
        ElfFault::BadEntsize => "bad dynsym entsize"@,
        ElfFault::DynstrOff => "dynstr off"@,
        ElfFault::DynstrSize => "dynstr size"@,
    }
}

/// What a successful parse extracts from the image.
pub struct ElfInfo {
    pub min_vaddr: u64,
    pub dynsym_off: u64,
    pub dynsym_size: u64,
    pub dynsym_entsize: u64,
    pub dynstr_off: u64,
    pub dynstr_size: u64,
}

/// The lowest virtual address among the first `k` program headers of type `PT_LOAD`
/// whose address field can be read (`u64::MAX` when there is none).
pub open spec fn load_vaddr_min(d: Seq<u8>, phoff: int, phentsize: int, k: nat) -> u64
    decreases k,
{
    if k == 0 {
        u64::MAX
    } else {
        let m = load_vaddr_min(d, phoff, phentsize, (k - 1) as nat);
        let i = k - 1;
        if le_u32(d, phoff + i * phentsize + 0) == Some(PT_LOAD) {
            match le_u64(d, phoff + i * phentsize + 16) {
                Some(v) => if v < m { v } else { m },
                None => m,
            }
        } else {
            m
        }
    }
}

/// The virtual address of the program header `i` of a table at `phoff`, `phentsize` bytes
/// apart, when it is a `PT_LOAD` header whose address can be read.
pub open spec fn ph_load_vaddr(d: Seq<u8>, phoff: int, phentsize: int, i: int) -> Option<u64> {
    if le_u32(d, phoff + i * phentsize + 0) == Some(PT_LOAD) {
        le_u64(d, phoff + i * phentsize + 16)
    } else {
        None
    }
}

/// The virtual address of program header `i` of the image `d` when it is a readable
/// `PT_LOAD` header (the headers start at `e_phoff`, `e_phentsize` bytes apart).
pub open spec fn load_header_vaddr(d: Seq<u8>, i: int) -> Option<u64> {
    ph_load_vaddr(d, le_u64(d, 0x20).unwrap() as int, le_u16(d, 0x36).unwrap() as int, i)
}

proof fn lemma_load_vaddr_min_is_lowest(d: Seq<u8>, phoff: int, phentsize: int, k: nat)
    ensures
        ({
            let m = load_vaddr_min(d, phoff, phentsize, k);
            &&& forall|i: int| 0 <= i < k && #[trigger] ph_load_vaddr(d, phoff, phentsize, i) is Some ==> m
                <= ph_load_vaddr(d, phoff, phentsize, i)->0
            &&& m == u64::MAX || exists|i: int| 0 <= i < k && #[trigger] ph_load_vaddr(d, phoff, phentsize, i)
                == Some(m)
        }),
    decreases k,
{
    if k > 0 {
        lemma_load_vaddr_min_is_lowest(d, phoff, phentsize, (k - 1) as nat);
        let m = load_vaddr_min(d, phoff, phentsize, k);
        let i = k - 1;
        assert(ph_load_vaddr(d, phoff, phentsize, i) is Some ==> m == ph_load_vaddr(d, phoff, phentsize, i)->0
            || m < ph_load_vaddr(d, phoff, phentsize, i)->0);
    }
}

/// The load bias is taken from the lowest loaded address: the `min_vaddr` of a parsed image
/// is at most the address of every readable `PT_LOAD` program header, and is the address of
/// one of them (0 when there is none).
pub proof fn lemma_min_vaddr_is_lowest_load(d: Seq<u8>)
    requires
        elf_parse(d) is Ok,
    ensures
        ({
            let v = elf_parse(d)->Ok_0.min_vaddr;
            let phnum = le_u16(d, 0x38).unwrap() as int;
            &&& forall|i: int| 0 <= i < phnum && #[trigger] load_header_vaddr(d, i) is Some ==> v
                <= load_header_vaddr(d, i)->0
            &&& v == 0 || exists|i: int| 0 <= i < phnum && #[trigger] load_header_vaddr(d, i) == Some(v)
        }),
{
    let phoff = le_u64(d, 0x20).unwrap() as int;
    let phentsize = le_u16(d, 0x36).unwrap() as int;
    let phnum = le_u16(d, 0x38).unwrap() as nat;
    lemma_load_vaddr_min_is_lowest(d, phoff, phentsize, phnum);
    let m = load_vaddr_min(d, phoff, phentsize, phnum);
    let v = elf_parse(d)->Ok_0.min_vaddr;
    assert(v == if m == u64::MAX { 0u64 } else { m });
    assert forall|i: int| 0 <= i < phnum && #[trigger] load_header_vaddr(d, i) is Some implies v
        <= load_header_vaddr(d, i)->0 by {
        assert(load_header_vaddr(d, i) == ph_load_vaddr(d, phoff, phentsize, i));
    }
    if v != 0 {
        let i = choose|i: int| 0 <= i < phnum && #[trigger] ph_load_vaddr(d, phoff, phentsize, i) == Some(m);
        assert(load_header_vaddr(d, i) == Some(v));
    }
}

/// The index of the first section header at or after `i` whose type is `SHT_DYNSYM`.
pub open spec fn first_dynsym(d: Seq<u8>, shoff: int, shentsize: int, shnum: int, i: int) -> Option<int>
    decreases shnum - i,
{
    if i >= shnum {
        None
    } else if le_u32(d, shoff + i * shentsize + 4) == Some(SHT_DYNSYM) {
        Some(i)
    } else {
        first_dynsym(d, shoff, shentsize, shnum, i + 1)
    }
}

/// Whether `d` starts with the ELF magic number.
pub open spec fn has_elf_magic(d: Seq<u8>) -> bool {
    d.len() >= 4 && d[0] == 0x7f && d[1] == 0x45 && d[2] == 0x4c && d[3] == 0x46
}

/// The outcome of parsing the image `d`.
pub open spec fn elf_parse(d: Seq<u8>) -> Result<ElfInfo, ElfFault> {
    if d.len() < 64 || !has_elf_magic(d) {
        Err(ElfFault::NotElf)
    } else if d[4] != 2 {
        Err(ElfFault::NotElf64)
    } else if d[5] != 1 {
        Err(ElfFault::NotLittleEndian)
    } else {
        let phoff = le_u64(d, 0x20).unwrap() as int;
        let phentsize = le_u16(d, 0x36).unwrap() as int;
        let phnum = le_u16(d, 0x38).unwrap() as nat;
        let shoff = le_u64(d, 0x28).unwrap() as int;
        let shentsize = le_u16(d, 0x3a).unwrap() as int;
        let shnum = le_u16(d, 0x3c).unwrap() as int;
        let m = load_vaddr_min(d, phoff, phentsize, phnum);
        let min_vaddr = if m == u64::MAX { 0u64 } else { m };
        if shnum == 0 || shoff == 0 {
            Err(ElfFault::Stripped)
        } else {
            match first_dynsym(d, shoff, shentsize, shnum, 0) {
                None => Err(ElfFault::NoDynsym),
                Some(i) => match le_u64(d, shoff + i * shentsize + 24) {
                    None => Err(ElfFault::ShOffset),
                    Some(sym_off) => match le_u64(d, shoff + i * shentsize + 32) {
                        None => Err(ElfFault::ShSize),
                        Some(sym_size) => match le_u32(d, shoff + i * shentsize + 40) {
                            None => Err(ElfFault::ShLink),
                            Some(link) => match le_u64(d, shoff + i * shentsize + 56) {
                                None => Err(ElfFault::ShEntsize),
                                Some(entsize) => if entsize == 0 {
                                    Err(ElfFault::BadEntsize)
                                } else {
                                    match le_u64(d, shoff + link * shentsize + 24) {
                                        None => Err(ElfFault::DynstrOff),
                                        Some(str_off) => match le_u64(
                                            d,
                                            shoff + link * shentsize + 32,
                                        ) {
                                            None => Err(ElfFault::DynstrSize),
                                            Some(str_size) => Ok(
                                                ElfInfo {
                                                    min_vaddr,
                                                    dynsym_off: sym_off,
                                                    dynsym_size: sym_size,
                                                    dynsym_entsize: entsize,
                                                    dynstr_off: str_off,
                                                    dynstr_size: str_size,
                                                },
                                            ),
                                        },
                                    }
                                },
                            },
                        },
                    },
                },
            }
        }
    }
}

/// Whether the string-table entry at `st_name` is exactly `want`: the bytes from
/// `dynstr_off + st_name` up to the first NUL, never reading past the table or the image.
pub open spec fn name_at_is(d: Seq<u8>, info: ElfInfo, st_name: int, want: Seq<u8>) -> bool {
    let start = info.dynstr_off + st_name;
    let table_end = info.dynstr_off + info.dynstr_size;
    let end = if table_end < d.len() { table_end } else { d.len() as int };
    &&& st_name < info.dynstr_size
    &&& start < end
    &&& cstr_prefix(d.subrange(start, end)) == want
}

/// The value of the first dynamic symbol, from index `i` on, that has a non-zero value
/// and the name `want`; `None` when there is none, or when an entry before it cannot be read.
pub open spec fn lookup_from(d: Seq<u8>, info: ElfInfo, want: Seq<u8>, i: int) -> Option<u64>
    decreases info.dynsym_size / info.dynsym_entsize - i,
{
    let count = info.dynsym_size / info.dynsym_entsize;
    if info.dynsym_entsize == 0 || i < 0 || i >= count {
        None
    } else {
        let o = info.dynsym_off + i * info.dynsym_entsize;
        match le_u32(d, o + 0) {
            None => None,
            Some(st_name) => match le_u64(d, o + 8) {
                None => None,
                Some(v) => if v != 0 && name_at_is(d, info, st_name as int, want) {
                    Some(v)
                } else {
                    lookup_from(d, info, want, i + 1)
                },
            },
        }
    }
}

/// A parsed ELF image: where its dynamic symbol table and string table are.
pub struct Elf<'a> {
    data: &'a [u8],
    min_vaddr: u64,
    dynsym_off: u64,
    dynsym_size: u64,
    dynsym_entsize: u64,
    dynstr_off: u64,
    dynstr_size: u64,
}

impl<'a> Elf<'a> {
    #[verifier::type_invariant]
    spec fn has_entries(&self) -> bool {
        self.dynsym_entsize != 0
    }

    /// The image this was parsed from.
    pub closed spec fn bytes(&self) -> Seq<u8> {
        self.data@
    }

    /// The extracted layout.
    pub closed spec fn info(&self) -> ElfInfo {
        ElfInfo {
            min_vaddr: self.min_vaddr,
            dynsym_off: self.dynsym_off,
            dynsym_size: self.dynsym_size,
            dynsym_entsize: self.dynsym_entsize,
            dynstr_off: self.dynstr_off,
            dynstr_size: self.dynstr_size,
        }
    }

    /// The lowest virtual address of a loadable segment (0 when there is none).
    pub fn min_vaddr(&self) -> (v: u64)
        ensures
            v == self.info().min_vaddr,
    {
        self.min_vaddr
    }

    /// Parses the headers of an ELF64 little-endian image.
    pub fn parse(data: &'a [u8]) -> (r: Result<Elf<'a>, String>)
        ensures
            match r {
                Ok(e) => e.bytes() == data@ && elf_parse(data@) == Ok::<ElfInfo, ElfFault>(
                    e.info(),
                ),
                Err(m) => elf_parse(data@) matches Err(f) && m@ == fault_text(f),
            },
    {
        let d = data;
        if d.len() < 64 || d[0] != 0x7f || d[1] != 0x45 || d[2] != 0x4c || d[3] != 0x46 {
            return Err(String::from_str("not an ELF file"));
        }
        if d[4] != 2 {
            return Err(String::from_str("not ELF64"));
        }
        if d[5] != 1 {
            return Err(String::from_str("not little-endian ELF"));
        }
        let e_phoff = rd_u64(d, 0x20).unwrap();
        let e_phentsize = rd_u16(d, 0x36).unwrap() as u64;
        let e_phnum = rd_u16(d, 0x38).unwrap() as u64;
        let e_shoff = rd_u64(d, 0x28).unwrap();
        let e_shentsize = rd_u16(d, 0x3a).unwrap() as u64;
        let e_shnum = rd_u16(d, 0x3c).unwrap() as u64;

        let mut min_vaddr = u64::MAX;
        let mut i: u64 = 0;
        while i < e_phnum
            invariant
                i <= e_phnum,
                min_vaddr == load_vaddr_min(d@, e_phoff as int, e_phentsize as int, i as nat),
            decreases e_phnum - i,
        {
            if field_u32(d, e_phoff, i, e_phentsize, 0) == Some(PT_LOAD) {
                if let Some(v) = field_u64(d, e_phoff, i, e_phentsize, 16) {
                    if v < min_vaddr {
                        min_vaddr = v;
                    }
                }
            }
            i = i + 1;
        }
        if min_vaddr == u64::MAX {
            min_vaddr = 0;
        }
        if e_shnum == 0 || e_shoff == 0 {
            return Err(String::from_str("no section headers (stripped); use fallback"));
        }
        let mut j: u64 = 0;
        let mut found: Option<u64> = None;
        while j < e_shnum
            invariant_except_break
                j <= e_shnum,
                found is None,
                first_dynsym(d@, e_shoff as int, e_shentsize as int, e_shnum as int, 0)
                    == first_dynsym(d@, e_shoff as int, e_shentsize as int, e_shnum as int, j as int),
            ensures
                found is None ==> first_dynsym(d@, e_shoff as int, e_shentsize as int, e_shnum as int, 0)
                    is None,
                found matches Some(k) ==> first_dynsym(d@, e_shoff as int, e_shentsize as int, e_shnum as int, 0)
                    == Some(k as int),
            decreases e_shnum - j,
        {
            if field_u32(d, e_shoff, j, e_shentsize, 4) == Some(SHT_DYNSYM) {
                found = Some(j);
                break;
            }
            j = j + 1;
        }
        let k = match found {
            None => {
                return Err(String::from_str("no .dynsym section"));
            },
            Some(k) => k,
        };
        let sh_offset = match field_u64(d, e_shoff, k, e_shentsize, 24) {
            None => {
                return Err(String::from_str("sh_offset"));
            },
            Some(v) => v,
        };
        let sh_size = match field_u64(d, e_shoff, k, e_shentsize, 32) {
            None => {
                return Err(String::from_str("sh_size"));
            },
            Some(v) => v,
        };
        let sh_link = match field_u32(d, e_shoff, k, e_shentsize, 40) {
            None => {
                return Err(String::from_str("sh_link"));
            },
            Some(v) => v,
        };
        let sh_entsize = match field_u64(d, e_shoff, k, e_shentsize, 56) {
            None => {
                return Err(String::from_str("sh_entsize"));
            },
            Some(v) => v,
        };
        if sh_entsize == 0 {
            return Err(String::from_str("bad dynsym entsize"));
        }
        let dynstr_off = match field_u64(d, e_shoff, sh_link as u64, e_shentsize, 24) {
            None => {
                return Err(String::from_str("dynstr off"));
            },
            Some(v) => v,
        };
        let dynstr_size = match field_u64(d, e_shoff, sh_link as u64, e_shentsize, 32) {
            None => {
                return Err(String::from_str("dynstr size"));
            },
            Some(v) => v,
        };
        Ok(
            Elf {
                data,
                min_vaddr,
                dynsym_off: sh_offset,
                dynsym_size: sh_size,
                dynsym_entsize: sh_entsize,
                dynstr_off,
                dynstr_size,
            },
        )
    }
    /// The address of the first defined dynamic symbol named `name`, relative to the
    /// image's link-time base.
    pub fn resolve(&self, name: &str) -> (r: Option<u64>)
        ensures
            r == lookup_from(self.bytes(), self.info(), name.spec_bytes(), 0),
    {
        proof {
            use_type_invariant(self);
        }
        let want = name.as_bytes();
        let count = self.dynsym_size / self.dynsym_entsize;
        let mut i: u64 = 0;
        while i < count
            invariant
                i <= count,
                count == self.info().dynsym_size / self.info().dynsym_entsize,
                self.info().dynsym_entsize != 0,
                want@ == name.spec_bytes(),
                lookup_from(self.bytes(), self.info(), want@, 0) == lookup_from(
                    self.bytes(),
                    self.info(),
                    want@,
                    i as int,
                ),
            decreases count - i,
        {
            let st_name = match field_u32(self.data, self.dynsym_off, i, self.dynsym_entsize, 0) {
                None => {
                    return None;
                },
                Some(v) => v,
            };
            let st_value = match field_u64(self.data, self.dynsym_off, i, self.dynsym_entsize, 8) {
                None => {
                    return None;
                },
                Some(v) => v,
            };
            if st_value != 0 && self.name_matches(st_name as u64, want) {
                return Some(st_value);
            }
            i = i + 1;
        }
        None
    }

    /// Whether the string-table entry at `st_name` is exactly `want`.
    fn name_matches(&self, st_name: u64, want: &[u8]) -> (r: bool)
        ensures
            r == name_at_is(self.bytes(), self.info(), st_name as int, want@),
    {
        if st_name >= self.dynstr_size {
            return false;
        }
        let len = self.data.len();
        let start = match self.dynstr_off.checked_add(st_name) {
            None => {
                return false;
            },
            Some(s) => s,
        };
        let end: u64 = match self.dynstr_off.checked_add(self.dynstr_size) {
            Some(e) if e < len as u64 => e,
            _ => len as u64,
        };
        if start >= end {
            return false;
        }
        let (start, end) = (start as usize, end as usize);
        let n = nul_offset(self.data, start, end);
        let ghost sub = self.data@.subrange(start as int, end as int);
        assert(cstr_prefix(sub).len() == n);
        if n != want.len() {
            return false;
        }
        assert(cstr_prefix(sub) =~= self.data@.subrange(start as int, start + n));
        bytes_match_at(self.data, start, want)
    }
}

} // verus!
