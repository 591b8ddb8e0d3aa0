use std::sync::Arc;

use elk::elf::{
    ElfFile, ProgramHeader, Rela, Sym, PF_R, PF_W, PF_X, PT_LOAD, PT_TLS, R_X86_64_64, R_X86_64_COPY,
    R_X86_64_DTPMOD64, R_X86_64_GLOB_DAT, R_X86_64_IRELATIVE, R_X86_64_JUMP_SLOT, R_X86_64_RELATIVE,
    R_X86_64_TPOFF64, STB_WEAK,
};
use elk::loader::{LoadError, Loader, ObjectSym, ResolvedSym};
use elk::process::{GetResult, Loading, Patch, Process, RelocationError, TCBHEAD_SIZE};

const STB_GLOBAL: u8 = 1;

fn load(vaddr: u64, size: u64, flags: u32) -> ProgramHeader {
    ProgramHeader { typ: PT_LOAD, flags, offset: vaddr, vaddr, filesz: size, memsz: size }
}

/// A string table holding the names, each NUL-terminated, after one NUL;
/// and the offset of each name.
fn strtab(names: &[&str]) -> (Vec<u8>, Vec<u32>) {
    let mut table = vec![0u8];
    let mut offsets = Vec::new();
    for n in names {
        offsets.push(table.len() as u32);
        table.extend_from_slice(n.as_bytes());
        table.push(0);
    }
    (table, offsets)
}

fn sym(name: u32, bind: u8, shndx: u16, value: u64, size: u64) -> Sym {
    Sym { name, bind, shndx, value, size }
}

fn rela(offset: u64, typ: u32, sym: u32, addend: u64) -> Rela {
    Rela { offset, typ, sym, addend }
}

/// A file whose single loadable segment holds `image` from address 0, with
/// the string table at the start of the image.
fn file_with(image: &[u8], needed: &[&str], syms: Vec<Sym>, rela: Vec<Rela>) -> ElfFile {
    ElfFile {
        entry_point: 0x100,
        program_headers: vec![load(0, 0x3000.max(image.len() as u64), PF_R | PF_W | PF_X)],
        needed: needed.iter().map(|n| n.as_bytes().to_vec()).collect(),
        rpath: Vec::new(),
        runpath: Vec::new(),
        strtab: Some(0),
        dynsyms: syms,
        rela,
        jmprel: Vec::new(),
    }
}

fn image_of(table: &[u8]) -> Arc<Vec<u8>> {
    let mut bytes = table.to_vec();
    bytes.resize(0x3000, 0);
    Arc::new(bytes)
}

fn add(p: &mut Process<Loading>, path: &str, image: Arc<Vec<u8>>, file: ElfFile, base: u64) -> usize {
    assert!(p.state.loader.object_index(path.as_bytes()).is_none());
    p.load_object(path.as_bytes().to_vec(), image, file, base).unwrap()
}

#[test]
fn static_pie_single_object_relative_only() {
    let mut p = Process::<Loading>::new();
    let (table, _) = strtab(&[]);
    let file = file_with(&table, &[], Vec::new(), vec![rela(0x2008, R_X86_64_RELATIVE, 0, 0x1234)]);
    let exec = add(&mut p, "/bin/hello", image_of(&table), file, 0x7000_0000_0000);
    p.state.loader.begin_dependencies(exec);
    assert!(p.state.loader.next_dependency().is_none());
    assert_eq!(p.state.loader.objects.len(), 1);
    let block: Vec<u8> = Vec::with_capacity(TCBHEAD_SIZE as usize);
    let p = p.allocate_tls(block, 0x1000);
    let (_p, patches) = p.apply_relocations().ok().unwrap();
    assert_eq!(patches, vec![Patch::Word { addr: 0x7000_0000_2008, value: 0x7000_0000_1234 }]);
}

#[test]
fn shared_library_copy_relocation() {
    let mut p = Process::<Loading>::new();
    let (table, names) = strtab(&["msg"]);
    let exec_syms = vec![sym(0, 0, 0, 0, 0), sym(names[0], STB_GLOBAL, 5, 0x2800, 0x26)];
    let exec_file = file_with(&table, &["libmsg.so"], exec_syms, vec![rela(0x2800, R_X86_64_COPY, 1, 0)]);
    let exec = add(&mut p, "/opt/bin/hello-dl", image_of(&table), exec_file, 0x10_0000);
    p.state.loader.begin_dependencies(exec);
    let dep = p.state.loader.next_dependency().unwrap();
    assert_eq!(dep, b"libmsg.so".to_vec());
    let lib_syms = vec![sym(0, 0, 0, 0, 0), sym(names[0], STB_GLOBAL, 7, 0x2000, 0x26)];
    let lib_file = file_with(&table, &[], lib_syms, Vec::new());
    let lib = add(&mut p, "/usr/lib/x86_64-linux-gnu/libmsg.so", image_of(&table), lib_file, 0x40_0000);
    p.state.loader.record_dependency(lib);
    assert!(p.state.loader.next_dependency().is_none());
    assert_eq!(p.state.loader.objects[exec].deps, vec![lib]);
    let p = p.allocate_tls(Vec::with_capacity(TCBHEAD_SIZE as usize), 0x1000);
    let (_p, patches) = p.apply_relocations().ok().unwrap();
    assert_eq!(patches, vec![Patch::Copy { addr: 0x10_2800, src: 0x40_2000, len: 0x26 }]);
}

#[test]
fn weak_undefined_symbol_resolves_to_zero() {
    let mut p = Process::<Loading>::new();
    let (table, names) = strtab(&["__gmon_start__"]);
    let syms = vec![sym(0, 0, 0, 0, 0), sym(names[0], STB_WEAK, 0, 0, 0)];
    let file = file_with(&table, &[], syms, vec![rela(0x2ff0, R_X86_64_GLOB_DAT, 1, 0)]);
    add(&mut p, "/bin/weak", image_of(&table), file, 0x20_0000);
    let p = p.allocate_tls(Vec::with_capacity(TCBHEAD_SIZE as usize), 0x1000);
    let (_p, patches) = p.apply_relocations().ok().unwrap();
    assert_eq!(patches, vec![Patch::Word { addr: 0x20_2ff0, value: 0 }]);
}

#[test]
fn strong_undefined_symbol_fails() {
    let mut p = Process::<Loading>::new();
    let (table, names) = strtab(&["definitely_absent"]);
    let syms = vec![sym(0, 0, 0, 0, 0), sym(names[0], STB_GLOBAL, 0, 0, 0)];
    let file = file_with(&table, &[], syms, vec![rela(0x2ff0, R_X86_64_JUMP_SLOT, 1, 0)]);
    let exec = add(&mut p, "/bin/strong", image_of(&table), file, 0x20_0000);
    let p = p.allocate_tls(Vec::with_capacity(TCBHEAD_SIZE as usize), 0x1000);
    match p.apply_relocations() {
        Err(RelocationError::UndefinedSymbol(os)) => assert_eq!(os, ObjectSym { obj: exec, sym: 1 }),
        _ => panic!("expected an undefined symbol"),
    }
}

#[test]
fn origin_in_runpath() {
    let mut p = Process::<Loading>::new();
    let (table, _) = strtab(&[]);
    let mut file = file_with(&table, &["libfoo.so"], Vec::new(), Vec::new());
    file.runpath = vec![b"$ORIGIN/../lib".to_vec()];
    add(&mut p, "/opt/app/bin/prog", image_of(&table), file, 0x10_0000);
    assert_eq!(p.state.loader.search_path[1], b"/opt/app/bin/../lib".to_vec());
    let candidates = p.state.loader.object_candidates(b"libfoo.so");
    assert_eq!(candidates[0], b"/usr/lib/x86_64-linux-gnu/libfoo.so".to_vec());
    assert_eq!(candidates[1], b"/opt/app/bin/../lib/libfoo.so".to_vec());
}

#[test]
fn tls_template_and_tcb() {
    let mut p = Process::<Loading>::new();
    let (table, _) = strtab(&[]);
    let mut file = file_with(&table, &[], Vec::new(), Vec::new());
    file.program_headers.push(ProgramHeader { typ: PT_TLS, flags: PF_R, offset: 0x2000, vaddr: 0x2000, filesz: 8, memsz: 16 });
    add(&mut p, "/bin/tls", image_of(&table), file, 0x10_0000);
    assert_eq!(p.tls_storage_space(), Some(16));
    let block: Vec<u8> = Vec::with_capacity(16 + TCBHEAD_SIZE as usize);
    let p = p.allocate_tls(block, 0x5000);
    assert_eq!(p.state.tls.tcb_addr, 0x5010);
    assert_eq!(p.state.tls.offsets.get(&0x10_0000), Some(&16));
    let (p, _) = p.apply_relocations().ok().unwrap();
    let template: Vec<u8> = (1..=8).collect();
    let p = p.initialize_tls(&vec![template.clone()]);
    let block = &p.state.tls.block;
    assert_eq!(block.len(), 16 + TCBHEAD_SIZE as usize);
    assert_eq!(&block[0..8], &template[..]);
    assert_eq!(&block[8..16], &[0u8; 8]);
    assert_eq!(&block[16..24], &0x5010u64.to_le_bytes());
    assert_eq!(&block[32..40], &0x5010u64.to_le_bytes());
    assert_eq!(&block[56..64], &0xDEADBEEFu64.to_le_bytes());
    assert_eq!(&block[64..72], &0xFEEDFACEu64.to_le_bytes());
}

#[test]
fn relocation_kinds() {
    let mut p = Process::<Loading>::new();
    let (table, names) = strtab(&["var", "tlsvar", "resolver"]);
    let lib_syms = vec![
        sym(0, 0, 0, 0, 0),
        sym(names[0], STB_GLOBAL, 3, 0x2100, 8),
        sym(names[1], STB_GLOBAL, 3, 0x4, 4),
    ];
    let mut lib_file = file_with(&table, &[], lib_syms, Vec::new());
    lib_file.program_headers.push(ProgramHeader { typ: PT_TLS, flags: PF_R, offset: 0x2000, vaddr: 0x2000, filesz: 8, memsz: 8 });
    let exec_syms = vec![
        sym(0, 0, 0, 0, 0),
        sym(names[0], STB_GLOBAL, 0, 0, 0),
        sym(names[1], STB_GLOBAL, 0, 0, 0),
    ];
    let exec_rels = vec![
        rela(0x2000, R_X86_64_64, 1, 0x10),
        rela(0x2008, R_X86_64_TPOFF64, 2, 0),
        rela(0x2010, R_X86_64_DTPMOD64, 2, 0),
        rela(0x2018, R_X86_64_IRELATIVE, 0, 0x500),
        rela(0x2020, R_X86_64_GLOB_DAT, 1, 0),
    ];
    let exec_file = file_with(&table, &["libvar.so"], exec_syms, exec_rels);
    let exec = add(&mut p, "/bin/kinds", image_of(&table), exec_file, 0x10_0000);
    let lib = add(&mut p, "/lib/libvar.so", image_of(&table), lib_file, 0x40_0000);
    let found = p.state.loader.lookup_symbol(ObjectSym { obj: exec, sym: 1 }, false);
    assert_eq!(found, ResolvedSym::Defined(ObjectSym { obj: lib, sym: 1 }));
    let p = p.allocate_tls(Vec::with_capacity(8 + TCBHEAD_SIZE as usize), 0x9000);
    let (_p, patches) = p.apply_relocations().ok().unwrap();
    assert_eq!(
        patches,
        vec![
            Patch::Word { addr: 0x10_2000, value: 0x40_2110 },
            Patch::Word { addr: 0x10_2008, value: 4u64.wrapping_sub(8) },
            Patch::Resolve { addr: 0x10_2018, resolver: 0x10_0500 },
            Patch::Word { addr: 0x10_2020, value: 0x40_2100 },
        ]
    );
}

#[test]
fn unimplemented_and_unknown_relocations() {
    let mut p = Process::<Loading>::new();
    let (table, _) = strtab(&[]);
    let file = file_with(&table, &[], vec![sym(0, 0, 0, 0, 0)], vec![rela(0x2000, 99, 0, 0)]);
    let exec = add(&mut p, "/bin/odd", image_of(&table), file, 0x10_0000);
    let p = p.allocate_tls(Vec::with_capacity(TCBHEAD_SIZE as usize), 0x1000);
    match p.apply_relocations() {
        Err(RelocationError::UnimplementedRelocation(o, 99)) => assert_eq!(o, exec),
        _ => panic!("expected an unimplemented relocation"),
    }
    let mut p = Process::<Loading>::new();
    let file = file_with(&table, &[], vec![sym(0, 0, 0, 0, 0)], vec![rela(0x2000, R_X86_64_64, 7, 0)]);
    add(&mut p, "/bin/odd", image_of(&table), file, 0x10_0000);
    let p = p.allocate_tls(Vec::with_capacity(TCBHEAD_SIZE as usize), 0x1000);
    assert!(matches!(p.apply_relocations(), Err(RelocationError::UnknownSymbolNumber(7))));
}

#[test]
fn tls_relocation_without_storage_fails() {
    let mut p = Process::<Loading>::new();
    let (table, names) = strtab(&["t"]);
    let syms = vec![sym(0, 0, 0, 0, 0), sym(names[0], STB_GLOBAL, 3, 0x10, 4)];
    let file = file_with(&table, &[], syms, vec![rela(0x2000, R_X86_64_TPOFF64, 1, 0)]);
    let exec = add(&mut p, "/bin/notls", image_of(&table), file, 0x10_0000);
    let p = p.allocate_tls(Vec::with_capacity(TCBHEAD_SIZE as usize), 0x1000);
    match p.apply_relocations() {
        Err(RelocationError::NoThreadLocalStorage(o)) => assert_eq!(o, exec),
        _ => panic!("expected missing thread-local storage"),
    }
}

#[test]
fn load_errors() {
    let (table, _) = strtab(&[]);
    let mut p = Process::<Loading>::new();
    let file = file_with(&table, &[], Vec::new(), Vec::new());
    assert!(matches!(
        p.load_object(b"relative".to_vec(), image_of(&table), file.clone(), 0),
        Err(LoadError::InvalidPath(_))
    ));
    let mut no_load = file.clone();
    no_load.program_headers.clear();
    assert!(matches!(
        p.load_object(b"/bin/x".to_vec(), image_of(&table), no_load, 0),
        Err(LoadError::NoLoadSegments)
    ));
    let mut unterminated = file.clone();
    unterminated.dynsyms = vec![sym(0x2fff, STB_GLOBAL, 1, 0, 0)];
    let mut image = vec![7u8; 0x3000];
    image[0] = 0;
    assert!(matches!(
        p.load_object(b"/bin/x".to_vec(), Arc::new(image), unterminated, 0),
        Err(LoadError::ParseError(_))
    ));
    let mut no_strtab = file.clone();
    no_strtab.strtab = None;
    no_strtab.dynsyms = vec![sym(0, 0, 0, 0, 0)];
    assert!(matches!(
        p.load_object(b"/bin/x".to_vec(), image_of(&table), no_strtab, 0),
        Err(LoadError::ParseError(_))
    ));
    assert!(matches!(
        p.load_object(b"/bin/x".to_vec(), image_of(&table), file, u64::MAX - 0x100),
        Err(LoadError::ParseError(_))
    ));
    assert_eq!(p.state.loader.objects.len(), 0);
}

#[test]
fn cached_object_is_not_loaded_twice() {
    let mut p = Process::<Loading>::new();
    let (table, _) = strtab(&[]);
    let exec_file = file_with(&table, &["liba.so", "liba.so"], Vec::new(), Vec::new());
    let exec = add(&mut p, "/bin/twice", image_of(&table), exec_file, 0x10_0000);
    p.state.loader.begin_dependencies(exec);
    let mut results = Vec::new();
    while let Some(name) = p.state.loader.next_dependency() {
        let path = [b"/lib/".to_vec(), name].concat();
        let got = match p.state.loader.object_index(&path) {
            Some(i) => GetResult::Cached(i),
            None => {
                let f = file_with(&table, &[], Vec::new(), Vec::new());
                GetResult::Fresh(p.load_object(path, image_of(&table), f, 0x40_0000).unwrap())
            }
        };
        p.state.loader.record_dependency(got.index());
        results.push(got);
    }
    assert_eq!(results, vec![GetResult::Fresh(1), GetResult::Cached(1)]);
    assert_eq!(results[0].fresh(), Some(1));
    assert_eq!(results[1].fresh(), None);
    assert_eq!(p.state.loader.objects.len(), 2);
    assert_eq!(p.state.loader.objects[exec].deps, vec![1, 1]);
}

#[test]
fn symbol_lookup_prefers_first_defined_in_load_order() {
    let mut p = Process::<Loading>::new();
    let (table, names) = strtab(&["f"]);
    let a_syms = vec![sym(0, 0, 0, 0, 0), sym(names[0], STB_GLOBAL, 0, 0, 0), sym(names[0], STB_GLOBAL, 2, 0x10, 0)];
    let b_syms = vec![sym(0, 0, 0, 0, 0), sym(names[0], STB_GLOBAL, 2, 0x20, 0)];
    let a = add(&mut p, "/bin/a", image_of(&table), file_with(&table, &[], a_syms, Vec::new()), 0x10_0000);
    let b = add(&mut p, "/lib/b", image_of(&table), file_with(&table, &[], b_syms, Vec::new()), 0x40_0000);
    let own = p.lookup_symbol(ObjectSym { obj: a, sym: 1 }, false);
    assert_eq!(own, ResolvedSym::Defined(ObjectSym { obj: a, sym: 2 }));
    let other = p.lookup_symbol(ObjectSym { obj: a, sym: 1 }, true);
    assert_eq!(other, ResolvedSym::Defined(ObjectSym { obj: b, sym: 1 }));
    let loader: &Loader = &p.state.loader;
    assert_eq!(loader.lookup_name(b"missing", None), ResolvedSym::Undefined);
}

#[test]
fn protections_follow_segment_flags() {
    let mut p = Process::<Loading>::new();
    let (table, _) = strtab(&[]);
    let mut file = file_with(&table, &[], Vec::new(), Vec::new());
    file.program_headers = vec![load(0, 0x1000, PF_R | PF_X), load(0x1010, 0x20, PF_R | PF_W), load(0x3000, 0x10, 0)];
    add(&mut p, "/bin/prot", image_of(&table), file, 0x10_0000);
    let p = p.allocate_tls(Vec::with_capacity(TCBHEAD_SIZE as usize), 0x1000);
    let (p, _) = p.apply_relocations().ok().unwrap();
    let p = p.initialize_tls(&vec![Vec::new()]);
    let (p, prots) = p.adjust_protections();
    let got: Vec<(u64, u64, u32)> = prots.iter().map(|x| (x.addr, x.len, x.prot)).collect();
    assert_eq!(got, vec![(0x10_0000, 0x1000, 5), (0x10_1000, 0x30, 3), (0x10_3000, 0x10, 0)]);
    assert_eq!(p.entry_point(0), 0x10_0100);
    assert_eq!(p.tcb_addr(), 0x1000);
}
