use std::sync::Arc;

use elk::elf::{ProgramHeader, PF_R, PF_W, PT_LOAD, PT_TLS};
use elk::loader::{convex_hull, mem_range, plan_segments, LoadError};
use elk::name::{bytes_eq, find_nul, Name, NAME_WINDOW};
use elk::paths::{expand_origin, join, parent};
use elk::print::{print, print_hex, print_num, PrintArg};
use elk::process::segment_protection;
use elk::procfs::{mappings, Source};
use elk::start::{build_stack, AuxType, Auxv, StartOptions};

fn ph(typ: u32, vaddr: u64, memsz: u64) -> ProgramHeader {
    ProgramHeader { typ, flags: PF_R, offset: vaddr, vaddr, filesz: memsz, memsz }
}

#[test]
fn decimal_and_hex_output() {
    let mut out = Vec::new();
    print_num(&mut out, 0);
    print_num(&mut out, 1234567);
    assert_eq!(out, b"01234567".to_vec());
    let mut out = Vec::new();
    print_hex(&mut out, 0xdeadbeef);
    assert_eq!(out, b"deadbeef".to_vec());
    let mut out = Vec::new();
    print(&mut out, &[PrintArg::String(b"argc = ".to_vec()), PrintArg::Number(3), PrintArg::Hex(255)]);
    assert_eq!(out, b"argc = 30xff".to_vec());
}

#[test]
fn parent_and_join() {
    assert_eq!(parent(b"/opt/app/bin/prog"), Some(b"/opt/app/bin".to_vec()));
    assert_eq!(parent(b"/prog"), Some(b"/".to_vec()));
    assert_eq!(parent(b"/"), None);
    assert_eq!(parent(b"prog"), None);
    assert_eq!(join(b"/usr/lib", b"libc.so.6"), b"/usr/lib/libc.so.6".to_vec());
    assert_eq!(join(b"/usr/lib/", b"libc.so.6"), b"/usr/lib/libc.so.6".to_vec());
    assert_eq!(join(b"/usr/lib", b"/abs/libc.so.6"), b"/abs/libc.so.6".to_vec());
    assert_eq!(join(b"", b"libc.so.6"), b"libc.so.6".to_vec());
}

#[test]
fn origin_expansion() {
    assert_eq!(expand_origin(b"$ORIGIN/../lib", b"/opt/app/bin"), b"/opt/app/bin/../lib".to_vec());
    assert_eq!(expand_origin(b"$ORIGIN:$ORIGIN/x", b"/o"), b"/o:/o/x".to_vec());
    assert_eq!(expand_origin(b"/usr/$ORIGI", b"/o"), b"/usr/$ORIGI".to_vec());
}

#[test]
fn names_end_at_nul() {
    let data = Arc::new(b"\0puts\0printf\0".to_vec());
    assert_eq!(find_nul(&data, 1), Some(4));
    let n = Name::mapped(&data, 6);
    assert_eq!(n.as_slice(), b"printf");
    assert!(n == Name::owned(b"printf".to_vec()));
    assert!(n != Name::owned(b"puts".to_vec()));
    assert_eq!(find_nul(b"abc", 0), None);
    let long = vec![b'a'; NAME_WINDOW + 1];
    assert_eq!(find_nul(&long, 0), None);
    assert!(bytes_eq(b"abc", b"abc"));
    assert!(!bytes_eq(b"abc", b"abd"));
}

#[test]
fn hull_of_load_segments() {
    let phs = vec![ph(PT_LOAD, 0x1000, 0x100), ph(PT_TLS, 0, 0x9000), ph(PT_LOAD, 0x400, 0x10)];
    let r = mem_range(&phs).ok().unwrap();
    assert_eq!((r.start, r.end), (0x400, 0x1100));
    assert!(matches!(mem_range(&vec![ph(PT_TLS, 0, 8)]), Err(LoadError::NoLoadSegments)));
    let h = convex_hull(5..10, 2..7);
    assert_eq!((h.start, h.end), (2, 10));
}

#[test]
fn segment_plans_are_page_aligned() {
    let phs = vec![
        ProgramHeader { typ: PT_LOAD, flags: PF_R | PF_W, offset: 0x2e10, vaddr: 0x3e10, filesz: 0x200, memsz: 0x400 },
        ph(PT_LOAD, 0x9000, 0),
    ];
    let segs = plan_segments(&phs, 0x7f00_0000_0000).unwrap();
    assert_eq!(segs.len(), 1);
    let s = &segs[0];
    assert_eq!((s.vaddr_range.start, s.vaddr_range.end), (0x3000, 0x4210));
    assert_eq!(s.padding, 0xe10);
    assert_eq!(s.file_offset, 0x2000);
    assert_eq!(s.map_len, 0x1010);
    assert_eq!((0x7f00_0000_0000 + s.vaddr_range.start) % 4096, 0);
    let bad = vec![ProgramHeader { typ: PT_LOAD, flags: 0, offset: 0, vaddr: 0x10, filesz: 1, memsz: 1 }];
    assert!(plan_segments(&bad, 0).is_none());
}

#[test]
fn protection_bits() {
    assert_eq!(segment_protection(PF_R), 1);
    assert_eq!(segment_protection(PF_R | PF_W), 3);
    assert_eq!(segment_protection(5), 5);
    assert_eq!(segment_protection(0), 0);
}

#[test]
fn stack_layout() {
    let opts = StartOptions {
        exec_index: 0,
        args: vec![0x1000, 0x2000],
        env: vec![0x3000],
        auxv: vec![Auxv { typ: AuxType::PageSz, value: 4096 }],
    };
    let stack = build_stack(&opts);
    assert_eq!(stack, vec![2, 0x1000, 0x2000, 0, 0x3000, 0, 6, 4096, 0, 0]);
    let opts = StartOptions { exec_index: 0, args: vec![0x1000], env: vec![], auxv: vec![] };
    let stack = build_stack(&opts);
    assert_eq!(stack, vec![1, 0x1000, 0, 0, 0, 0]);
    let opts = StartOptions { exec_index: 0, args: vec![], env: vec![], auxv: vec![] };
    assert_eq!(build_stack(&opts), vec![0, 0, 0, 0, 0, 0]);
    let opts = StartOptions { exec_index: 0, args: vec![7, 8], env: vec![], auxv: vec![] };
    assert_eq!(build_stack(&opts), vec![2, 7, 8, 0, 0, 0, 0, 0]);
}

#[test]
fn known_auxv_skips_zero_values() {
    let types = Auxv::known_types();
    assert_eq!(types.len(), 23);
    let mut values = vec![0u64; 23];
    values[4] = 4096;
    values[22] = 0x7fff_0000;
    let got = Auxv::get_known(&values);
    assert_eq!(
        got,
        vec![Auxv { typ: AuxType::PageSz, value: 4096 }, Auxv { typ: AuxType::SysInfoEHdr, value: 0x7fff_0000 }]
    );
    assert_eq!(AuxType::SysInfoEHdr.number(), 33);
    assert_eq!(AuxType::Secure.number(), 23);
}

#[test]
fn parse_proc_maps() {
    let text = b"55d0c3a00000-55d0c3a02000 r--p 00000000 08:01 1048 /usr/bin/cat\n\
7ffd1c000000-7ffd1c021000 rw-p 00000000 00:00 0                          [stack]\n\
7f0000000000-7f0000001000 r-xp 00001000 fd:0A 77 /tmp/gone (deleted)\n\
7f0000002000-7f0000003000 ---p 00000000 00:00 0 \n";
    let maps = mappings(text).unwrap();
    assert_eq!(maps.len(), 4);
    let m = &maps[0];
    assert_eq!((m.addr_range.start, m.addr_range.end), (0x55d0c3a00000, 0x55d0c3a02000));
    assert!(m.perms.r && !m.perms.w && !m.perms.x && m.perms.p);
    assert_eq!((m.offset, m.dev.major, m.dev.minor, m.len), (0, 8, 1, 1048));
    match m.source {
        Source::File(a, b) => assert_eq!(&text[a..b], b"/usr/bin/cat"),
        _ => panic!("expected a file"),
    }
    assert!(m.source.is_file());
    match maps[1].source {
        Source::Special(a, b) => assert_eq!(&text[a..b], b"stack"),
        _ => panic!("expected a special mapping"),
    }
    assert!(!maps[1].source.is_file());
    assert!(maps[2].deleted && maps[2].perms.x);
    assert_eq!((maps[2].offset, maps[2].dev.major, maps[2].dev.minor), (0x1000, 0xfd, 0xa));
    assert_eq!(maps[3].source, Source::Anonymous);
    assert!(mappings(b"").unwrap().is_empty());
    assert!(mappings(b"zz-10 r--p 0 0:0 0\n").is_none());
    assert!(mappings(b"10-20 r--p 0 0:0 0").is_none());
    assert!(mappings(b"10000000000000000-20 r--p 0 0:0 0\n").is_none());
}

#[test]
fn parse_minimal_elf() {
    let mut bytes = vec![0u8; 64 + 56];
    bytes[0..6].copy_from_slice(&[0x7f, b'E', b'L', b'F', 2, 1]);
    bytes[24..32].copy_from_slice(&0x401000u64.to_le_bytes());
    bytes[32..40].copy_from_slice(&64u64.to_le_bytes());
    bytes[54..56].copy_from_slice(&56u16.to_le_bytes());
    bytes[56..58].copy_from_slice(&1u16.to_le_bytes());
    let ph = &mut bytes[64..120];
    ph[0..4].copy_from_slice(&PT_LOAD.to_le_bytes());
    ph[4..8].copy_from_slice(&(PF_R | PF_W).to_le_bytes());
    ph[16..24].copy_from_slice(&0x400000u64.to_le_bytes());
    ph[32..40].copy_from_slice(&0x78u64.to_le_bytes());
    ph[40..48].copy_from_slice(&0x1000u64.to_le_bytes());
    let f = elk::elf::ElfFile::parse(&bytes).unwrap();
    assert_eq!(f.entry_point, 0x401000);
    assert_eq!(
        f.program_headers,
        vec![ProgramHeader { typ: PT_LOAD, flags: PF_R | PF_W, offset: 0, vaddr: 0x400000, filesz: 0x78, memsz: 0x1000 }]
    );
    assert!(f.needed.is_empty() && f.dynsyms.is_empty() && f.strtab.is_none());
    bytes[1] = b'X';
    assert!(elk::elf::ElfFile::parse(&bytes).is_none());
    assert!(elk::elf::ElfFile::parse(&bytes[..10]).is_none());
}
