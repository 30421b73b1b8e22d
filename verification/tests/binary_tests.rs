use zyringe::elf::Elf;
use zyringe::engine::{libc_symbols, LibcSyms};
use zyringe::metadata::{list_entry_points, parse};

fn put16(d: &mut Vec<u8>, o: usize, v: u16) {
    d[o..o + 2].copy_from_slice(&v.to_le_bytes());
}
fn put32(d: &mut Vec<u8>, o: usize, v: u32) {
    d[o..o + 4].copy_from_slice(&v.to_le_bytes());
}
fn put64(d: &mut Vec<u8>, o: usize, v: u64) {
    d[o..o + 8].copy_from_slice(&v.to_le_bytes());
}

/// A small ELF64 image: one PT_LOAD at 0x400000 and a .dynsym naming mmap, dlopen and dlsym.
fn sample_elf() -> Vec<u8> {
    let mut d = vec![0u8; 512];
    d[0..4].copy_from_slice(b"\x7fELF");
    d[4] = 2;
    d[5] = 1;
    put64(&mut d, 0x20, 64); // e_phoff
    put64(&mut d, 0x28, 120); // e_shoff
    put16(&mut d, 0x36, 56); // e_phentsize
    put16(&mut d, 0x38, 1); // e_phnum
    put16(&mut d, 0x3a, 64); // e_shentsize
    put16(&mut d, 0x3c, 3); // e_shnum
    // program header
    put32(&mut d, 64, 1);
    put64(&mut d, 64 + 16, 0x400000);
    // section 1: .dynsym at 312, 4 entries of 24 bytes, strings in section 2
    let s1 = 120 + 64;
    put32(&mut d, s1 + 4, 11);
    put64(&mut d, s1 + 24, 312);
    put64(&mut d, s1 + 32, 96);
    put32(&mut d, s1 + 40, 2);
    put64(&mut d, s1 + 56, 24);
    // section 2: .dynstr at 408
    let s2 = 120 + 128;
    put32(&mut d, s2 + 4, 3);
    put64(&mut d, s2 + 24, 408);
    put64(&mut d, s2 + 32, 19);
    // symbols: [null], mmap, dlopen, dlsym
    put32(&mut d, 312 + 24, 1);
    put64(&mut d, 312 + 24 + 8, 0x1100);
    put32(&mut d, 312 + 48, 6);
    put64(&mut d, 312 + 48 + 8, 0x2200);
    put32(&mut d, 312 + 72, 13);
    put64(&mut d, 312 + 72 + 8, 0x3300);
    d[408..427].copy_from_slice(b"\0mmap\0dlopen\0dlsym\0");
    d
}

#[test]
fn elf_parse_reads_load_base_and_symbols() {
    let d = sample_elf();
    let elf = Elf::parse(&d).expect("parses");
    assert_eq!(elf.min_vaddr(), 0x400000);
    assert_eq!(elf.resolve("mmap"), Some(0x1100));
    assert_eq!(elf.resolve("dlopen"), Some(0x2200));
    assert_eq!(elf.resolve("dlsym"), Some(0x3300));
    assert_eq!(elf.resolve("dlsy"), None);
    assert_eq!(elf.resolve("printf"), None);
}

#[test]
fn elf_parse_rejects_bad_headers() {
    assert_eq!(Elf::parse(b"short").err(), Some("not an ELF file".to_string()));
    let mut d = sample_elf();
    d[4] = 1;
    assert_eq!(Elf::parse(&d).err(), Some("not ELF64".to_string()));
    let mut d = sample_elf();
    d[5] = 2;
    assert_eq!(Elf::parse(&d).err(), Some("not little-endian ELF".to_string()));
    let mut d = sample_elf();
    put16(&mut d, 0x3c, 0);
    assert_eq!(
        Elf::parse(&d).err(),
        Some("no section headers (stripped); use fallback".to_string())
    );
    let mut d = sample_elf();
    put32(&mut d, 120 + 64 + 4, 2);
    assert_eq!(Elf::parse(&d).err(), Some("no .dynsym section".to_string()));
    let mut d = sample_elf();
    put64(&mut d, 120 + 64 + 56, 0);
    assert_eq!(Elf::parse(&d).err(), Some("bad dynsym entsize".to_string()));
}

#[test]
fn libc_symbols_are_rebased() {
    let d = sample_elf();
    let elf = Elf::parse(&d).unwrap();
    let syms: LibcSyms = libc_symbols(&elf, 0x7f00_0000_0000).unwrap();
    let bias = 0x7f00_0000_0000u64 - 0x400000;
    assert_eq!(syms.mmap, bias + 0x1100);
    assert_eq!(syms.dlopen, bias + 0x2200);
    assert_eq!(syms.dlsym, bias + 0x3300);
}

/// A minimal PE32 assembly with one type `MyMod.Loader` holding `Init()`, `.ctor` and
/// `Run(string, string)`.
fn sample_assembly() -> Vec<u8> {
    let mut d = vec![0u8; 0x700];
    d[0] = b'M';
    d[1] = b'Z';
    put32(&mut d, 0x3c, 0x80);
    d[0x80..0x84].copy_from_slice(b"PE\0\0");
    let coff = 0x84;
    put16(&mut d, coff + 2, 1);
    put16(&mut d, coff + 16, 0xe0);
    let opt = coff + 20;
    put16(&mut d, opt, 0x10b);
    let datadir = opt + 96;
    put32(&mut d, datadir + 14 * 8, 0x2000);
    let sec = opt + 0xe0;
    put32(&mut d, sec + 8, 0x1000);
    put32(&mut d, sec + 12, 0x2000);
    put32(&mut d, sec + 16, 0x1000);
    put32(&mut d, sec + 20, 0x200);
    // CLI header at rva 0x2000 (file 0x200); metadata at rva 0x2050 (file 0x250)
    put32(&mut d, 0x200 + 8, 0x2050);
    let md = 0x250;
    put32(&mut d, md, 0x424a5342);
    put32(&mut d, md + 12, 4);
    d[md + 16..md + 20].copy_from_slice(b"v4\0\0");
    let after_ver = md + 20;
    put16(&mut d, after_ver + 2, 3);
    let mut cur = after_ver + 4;
    for (off, name) in [(0x100u32, &b"#~\0\0"[..]), (0x200, &b"#Strings\0\0\0\0"[..]), (0x300, &b"#Blob\0\0\0"[..])] {
        put32(&mut d, cur, off);
        put32(&mut d, cur + 4, 0x40);
        d[cur + 8..cur + 8 + name.len()].copy_from_slice(name);
        cur += 8 + name.len();
    }
    // tables: Module (1 row), TypeDef (2 rows), MethodDef (3 rows)
    let t = md + 0x100;
    d[t + 6] = 0;
    put64(&mut d, t + 8, (1 << 0) | (1 << 2) | (1 << 6));
    put32(&mut d, t + 24, 1);
    put32(&mut d, t + 28, 2);
    put32(&mut d, t + 32, 3);
    let data_start = t + 36;
    let typedef = data_start + 10;
    // strings: "\0<Module>\0MyMod\0Loader\0Init\0.ctor\0Run\0"
    let strings = b"\0<Module>\0MyMod\0Loader\0Init\0.ctor\0Run\0";
    d[md + 0x200..md + 0x200 + strings.len()].copy_from_slice(strings);
    let s_module = 1u16;
    let s_mymod = 10u16;
    let s_loader = 16u16;
    let s_init = 23u16;
    let s_ctor = 28u16;
    let s_run = 34u16;
    // type rows: flags(4) name ns extends fields methods
    put16(&mut d, typedef + 4, s_module);
    put16(&mut d, typedef + 12, 1);
    let row1 = typedef + 14;
    put16(&mut d, row1 + 4, s_loader);
    put16(&mut d, row1 + 6, s_mymod);
    put16(&mut d, row1 + 12, 1);
    // method rows: rva(4) impl(2) flags(2) name sig params
    let methods = typedef + 28;
    let rows = [(0x0016u16, s_init, 1u16), (0x1886, s_ctor, 11), (0x0016, s_run, 5)];
    for (k, (flags, name, sig)) in rows.iter().enumerate() {
        let b = methods + k * 14;
        put16(&mut d, b + 6, *flags);
        put16(&mut d, b + 8, *name);
        put16(&mut d, b + 10, *sig);
    }
    // blobs: void Init(), void Run(string, string), instance void .ctor()
    let blob = md + 0x300;
    d[blob + 1..blob + 5].copy_from_slice(&[0x03, 0x00, 0x00, 0x01]);
    d[blob + 5..blob + 11].copy_from_slice(&[0x05, 0x00, 0x02, 0x01, 0x0e, 0x0e]);
    d[blob + 11..blob + 15].copy_from_slice(&[0x03, 0x20, 0x00, 0x01]);
    d
}

#[test]
fn lists_entry_points_of_an_assembly() {
    let eps = list_entry_points(&sample_assembly()).expect("parses");
    assert_eq!(eps.len(), 2);
    assert_eq!(eps[0].namespace, "MyMod");
    assert_eq!(eps[0].class, "Loader");
    assert_eq!(eps[0].method, "Init");
    assert!(eps[0].is_static);
    assert_eq!(eps[0].param_count, 0);
    assert!(eps[0].returns_void);
    assert_eq!(eps[1].method, "Run");
    assert_eq!(eps[1].param_count, 2);
    assert!(eps[1].returns_void);
}

#[test]
fn refuses_what_is_not_an_assembly() {
    let msg = "could not parse .NET metadata (not a managed assembly?)".to_string();
    assert_eq!(list_entry_points(b"MZ").err(), Some(msg.clone()));
    let mut d = sample_assembly();
    d[0x80] = b'X';
    assert_eq!(list_entry_points(&d).err(), Some(msg.clone()));
    let mut d = sample_assembly();
    put32(&mut d, 0x250, 0);
    assert_eq!(list_entry_points(&d).err(), Some(msg));
}

#[test]
fn metadata_parser_survives_damaged_images() {
    let good = sample_assembly();
    assert!(parse(&good).is_some());
    for n in 0..good.len() {
        let _ = parse(&good[..n]);
    }
    for i in 0..good.len() {
        let mut d = good.clone();
        d[i] = 0;
        let _ = parse(&d);
    }
}
