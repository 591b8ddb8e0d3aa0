use vstd::prelude::*;
use crate::name::{find_nul, name_len};

verus! {

/// Segment type of a loadable segment.
pub const PT_LOAD: u32 = 1;

/// Segment type of the dynamic section.
pub const PT_DYNAMIC: u32 = 2;

/// Segment type of the thread-local storage template.
pub const PT_TLS: u32 = 7;

/// Segment flag: executable.
pub const PF_X: u32 = 1;

/// Segment flag: writable.
pub const PF_W: u32 = 2;

/// Segment flag: readable.
pub const PF_R: u32 = 4;

/// Symbol binding: weak.
pub const STB_WEAK: u8 = 2;

/// Section index of an undefined symbol.
pub const SHN_UNDEF: u16 = 0;

/// Relocation types of x86-64 that the loader knows.
pub const R_X86_64_64: u32 = 1;

pub const R_X86_64_COPY: u32 = 5;

pub const R_X86_64_GLOB_DAT: u32 = 6;

pub const R_X86_64_JUMP_SLOT: u32 = 7;

pub const R_X86_64_RELATIVE: u32 = 8;

pub const R_X86_64_DTPMOD64: u32 = 16;

pub const R_X86_64_TPOFF64: u32 = 18;

pub const R_X86_64_IRELATIVE: u32 = 37;

/// Size of a page, and the alignment of every mapping.
pub const PAGE_SIZE: u64 = 4096;

/// A program header: one segment of the file and where it goes in memory.
#[derive(Clone, Copy, PartialEq, Eq, Structural, Debug)]
pub struct ProgramHeader {
    pub typ: u32,
    pub flags: u32,
    pub offset: u64,
    pub vaddr: u64,
    pub filesz: u64,
    pub memsz: u64,
}

/// A dynamic symbol: its name's offset in the string table, binding, section
/// index, value and size.
#[derive(Clone, Copy, PartialEq, Eq, Structural, Debug)]
pub struct Sym {
    pub name: u32,
    pub bind: u8,
    pub shndx: u16,
    pub value: u64,
    pub size: u64,
}

impl Sym {
    /// Whether the symbol is defined in its object.
    pub open spec fn is_defined(self) -> bool {
        self.shndx != SHN_UNDEF
    }
}

/// A relocation record with addend: where to write, how, against which
/// symbol.
#[derive(Clone, Copy, PartialEq, Eq, Structural, Debug)]
pub struct Rela {
    pub offset: u64,
    pub typ: u32,
    pub sym: u32,
    pub addend: u64,
}

/// What the loader reads from one ELF file.
#[derive(Clone, Debug)]
pub struct ElfFile {
    /// Entry point, as a virtual address of the file.
    pub entry_point: u64,
    pub program_headers: Vec<ProgramHeader>,
    /// The `DT_NEEDED` strings, in order.
    pub needed: Vec<Vec<u8>>,
    /// The `DT_RPATH` strings, in order.
    pub rpath: Vec<Vec<u8>>,
    /// The `DT_RUNPATH` strings, in order.
    pub runpath: Vec<Vec<u8>>,
    /// The `DT_STRTAB` address, if the file has one.
    pub strtab: Option<u64>,
    /// The dynamic symbol table.
    pub dynsyms: Vec<Sym>,
    /// The `DT_RELA` table.
    pub rela: Vec<Rela>,
    /// The `DT_JMPREL` table.
    pub jmprel: Vec<Rela>,
}

/// The first program header of type `typ` from the index `k` on.
pub open spec fn first_of_type(phs: Seq<ProgramHeader>, typ: u32, k: int) -> Option<ProgramHeader>
    decreases phs.len() - k,
{
    if k < 0 || k >= phs.len() {
        None
    } else if phs[k].typ == typ {
        Some(phs[k])
    } else {
        first_of_type(phs, typ, k + 1)
    }
}

/// Where no program header from `k` on has the type `typ`, none is found.
pub proof fn lemma_no_type(phs: Seq<ProgramHeader>, typ: u32, k: int)
    requires
        0 <= k,
        forall|i: int| k <= i < phs.len() ==> (#[trigger] phs[i]).typ != typ,
    ensures
        first_of_type(phs, typ, k) is None,
    decreases phs.len() - k,
{
    if k < phs.len() {
        lemma_no_type(phs, typ, k + 1);
    }
}

impl ElfFile {
    /// The first program header of type `typ`.
    pub fn segment_of_type(&self, typ: u32) -> (r: Option<ProgramHeader>)
        ensures
            r == first_of_type(self.program_headers@, typ, 0),
    {
        let mut i: usize = 0;
        while i < self.program_headers.len()
            invariant
                i <= self.program_headers@.len(),
                first_of_type(self.program_headers@, typ, 0) == first_of_type(self.program_headers@, typ, i as int),
            decreases self.program_headers@.len() - i,
        {
            if self.program_headers[i].typ == typ {
                return Some(self.program_headers[i]);
            }
            i = i + 1;
        }
        None
    }
}

/// The little-endian 16-bit number at `o`.
pub open spec fn u16_at(s: Seq<u8>, o: int) -> u64 {
    (s[o] as u64) | ((s[o + 1] as u64) << 8u64)
}

/// The little-endian 32-bit number at `o`.
pub open spec fn u32_at(s: Seq<u8>, o: int) -> u64 {
    (s[o] as u64) | ((s[o + 1] as u64) << 8u64) | ((s[o + 2] as u64) << 16u64) | ((s[o + 3] as u64) << 24u64)
}

/// The little-endian 64-bit number at `o`.
pub open spec fn u64_at(s: Seq<u8>, o: int) -> u64 {
    u32_at(s, o) | (u32_at(s, o + 4) << 32u64)
}

/// Reads the little-endian 16-bit number at `o`.
pub fn read_u16(s: &[u8], o: u64) -> (r: Option<u64>)
    ensures
        match r {
            Some(v) => o + 2 <= s@.len() && v == u16_at(s@, o as int),
            None => o + 2 > s@.len(),
        },
{
    if o > s.len() as u64 || s.len() as u64 - o < 2 {
        return None;
    }
    let i = o as usize;
    Some((s[i] as u64) | ((s[i + 1] as u64) << 8u64))
}

/// Reads the little-endian 32-bit number at `o`.
pub fn read_u32(s: &[u8], o: u64) -> (r: Option<u64>)
    ensures
        match r {
            Some(v) => o + 4 <= s@.len() && v == u32_at(s@, o as int),
            None => o + 4 > s@.len(),
        },
{
    if o > s.len() as u64 || s.len() as u64 - o < 4 {
        return None;
    }
    let i = o as usize;
    Some((s[i] as u64) | ((s[i + 1] as u64) << 8u64) | ((s[i + 2] as u64) << 16u64) | ((s[i + 3] as u64)
        << 24u64))
}

/// Reads the little-endian 64-bit number at `o`.
pub fn read_u64(s: &[u8], o: u64) -> (r: Option<u64>)
    ensures
        match r {
            Some(v) => o + 8 <= s@.len() && v == u64_at(s@, o as int),
            None => o + 8 > s@.len(),
        },
{
    if o > s.len() as u64 || s.len() as u64 - o < 8 {
        return None;
    }
    let lo = read_u32(s, o);
    let hi = read_u32(s, o + 4);
    match (lo, hi) {
        (Some(lo), Some(hi)) => Some(lo | (hi << 32u64)),
        _ => None,
    }
}

/// Size of a program header entry.
pub const PH_SIZE: u64 = 56;

/// Size of a symbol table entry.
pub const SYM_SIZE: u64 = 24;

/// Size of a relocation entry with addend.
pub const RELA_SIZE: u64 = 24;

/// Size of a dynamic table entry.
pub const DYN_SIZE: u64 = 16;

/// Size of a section header entry.
pub const SH_SIZE: u64 = 64;

/// Section type of the dynamic symbol table.
pub const SHT_DYNSYM: u64 = 11;

/// Dynamic tags that the loader reads.
pub const DT_NULL: u64 = 0;

pub const DT_NEEDED: u64 = 1;

pub const DT_PLTRELSZ: u64 = 2;

pub const DT_STRTAB: u64 = 5;

pub const DT_RELA: u64 = 7;

pub const DT_RELASZ: u64 = 8;

pub const DT_RPATH: u64 = 15;

pub const DT_JMPREL: u64 = 23;

pub const DT_RUNPATH: u64 = 29;

/// The program header stored at `o`.
pub open spec fn ph_at(s: Seq<u8>, o: int) -> ProgramHeader {
    ProgramHeader {
        typ: u32_at(s, o) as u32,
        flags: u32_at(s, o + 4) as u32,
        offset: u64_at(s, o + 8),
        vaddr: u64_at(s, o + 16),
        filesz: u64_at(s, o + 32),
        memsz: u64_at(s, o + 40),
    }
}

/// The symbol stored at `o`.
pub open spec fn sym_at(s: Seq<u8>, o: int) -> Sym {
    Sym {
        name: u32_at(s, o) as u32,
        bind: s[o + 4] >> 4u8,
        shndx: u16_at(s, o + 6) as u16,
        value: u64_at(s, o + 8),
        size: u64_at(s, o + 16),
    }
}

/// The relocation stored at `o`.
pub open spec fn rela_at(s: Seq<u8>, o: int) -> Rela {
    Rela {
        offset: u64_at(s, o),
        typ: (u64_at(s, o + 8) & 0xffff_ffff) as u32,
        sym: (u64_at(s, o + 8) >> 32u64) as u32,
        addend: u64_at(s, o + 16),
    }
}

/// Whether `s` starts with the identification of a little-endian 64-bit
/// ELF file.
pub open spec fn elf64_le(s: Seq<u8>) -> bool {
    s.len() >= 64 && s[0] == 0x7f && s[1] == 0x45 && s[2] == 0x4c && s[3] == 0x46 && s[4] == 2 && s[5] == 1
}

/// The file offset of the address `a`: where the first loadable segment
/// whose file part holds it puts it, from the header `k` on.
pub open spec fn offset_of_addr(phs: Seq<ProgramHeader>, a: u64, k: int) -> Option<int>
    decreases phs.len() - k,
{
    if k < 0 || k >= phs.len() {
        None
    } else if phs[k].typ == PT_LOAD && phs[k].vaddr <= a && a - phs[k].vaddr < phs[k].filesz {
        Some(phs[k].offset + (a - phs[k].vaddr))
    } else {
        offset_of_addr(phs, a, k + 1)
    }
}

/// Whether `count` records of `size` bytes from `at` on lie within `len`
/// bytes.
fn table_offsets_fit(len: usize, at: u64, count: u64, size: u64) -> (r: bool)
    requires
        size > 0,
    ensures
        r == (at + count * size <= len),
{
    if at > len as u64 {
        return false;
    }
    let room = len as u64 - at;
    let r = count <= room / size;
    assert(r == (count * size <= room)) by (nonlinear_arith)
        requires
            size > 0,
            r == (count <= room / size),
    ;
    r
}

/// The file offset of the address `a`, if a loadable segment holds it.
fn file_offset(phs: &Vec<ProgramHeader>, a: u64) -> (r: Option<u64>)
    ensures
        match r {
            Some(o) => offset_of_addr(phs@, a, 0) == Some(o as int),
            None => offset_of_addr(phs@, a, 0) is None || offset_of_addr(phs@, a, 0)->0 > u64::MAX,
        },
{
    let mut k: usize = 0;
    while k < phs.len()
        invariant
            k <= phs@.len(),
            offset_of_addr(phs@, a, 0) == offset_of_addr(phs@, a, k as int),
        decreases phs@.len() - k,
    {
        let ph = phs[k];
        if ph.typ == PT_LOAD && ph.vaddr <= a && a - ph.vaddr < ph.filesz {
            if a - ph.vaddr > u64::MAX - ph.offset {
                return None;
            }
            return Some(ph.offset + (a - ph.vaddr));
        }
        k = k + 1;
    }
    None
}

/// Whether `v` holds the program headers stored from `at` on, `size` bytes
/// apart.
pub open spec fn phs_at(v: Seq<ProgramHeader>, s: Seq<u8>, at: int, size: int) -> bool {
    forall|i: int| 0 <= i < v.len() ==> #[trigger] v[i] == ph_at(s, at + i * size)
}

/// Whether `v` holds the symbols stored from `at` on.
pub open spec fn syms_at(v: Seq<Sym>, s: Seq<u8>, at: int) -> bool {
    forall|i: int| 0 <= i < v.len() ==> #[trigger] v[i] == sym_at(s, at + i * SYM_SIZE)
}

/// Whether `v` holds the relocations stored from `at` on.
pub open spec fn relas_at(v: Seq<Rela>, s: Seq<u8>, at: int) -> bool {
    forall|i: int| 0 <= i < v.len() ==> #[trigger] v[i] == rela_at(s, at + i * RELA_SIZE)
}

/// Reads `count` program headers from `at` on, `size` bytes apart.
fn read_phs(s: &[u8], at: u64, count: u64, size: u64) -> (r: Option<Vec<ProgramHeader>>)
    requires
        size >= PH_SIZE,
    ensures
        r matches Some(v) ==> v@.len() == count && phs_at(v@, s@, at as int, size as int),
        at + count * size <= s@.len() ==> r is Some,
{
    if !table_offsets_fit(s.len(), at, count, size) {
        return None;
    }
    let len: usize = s.len();
    let mut v: Vec<ProgramHeader> = Vec::new();
    let mut i: u64 = 0;
    while i < count
        invariant
            at + count * size <= s@.len(),
            len == s@.len(),
            size >= PH_SIZE,
            i <= count,
            v@.len() == i,
            phs_at(v@, s@, at as int, size as int),
        decreases count - i,
    {
        assert(i * size + size <= count * size) by (nonlinear_arith)
            requires
                i < count,
        ;
        let o = at + i * size;
        let typ = read_u32(s, o);
        let flags = read_u32(s, o + 4);
        let offset = read_u64(s, o + 8);
        let vaddr = read_u64(s, o + 16);
        let filesz = read_u64(s, o + 32);
        let memsz = read_u64(s, o + 40);
        match (typ, flags, offset, vaddr, filesz, memsz) {
            (Some(typ), Some(flags), Some(offset), Some(vaddr), Some(filesz), Some(memsz)) => {
                v.push(ProgramHeader { typ: typ as u32, flags: flags as u32, offset, vaddr, filesz, memsz });
            },
            _ => {
                assert(false);
                return None;
            },
        }
        i = i + 1;
    }
    Some(v)
}

/// Reads `count` symbols from `at` on.
fn read_syms(s: &[u8], at: u64, count: u64) -> (r: Option<Vec<Sym>>)
    ensures
        r matches Some(v) ==> v@.len() == count && syms_at(v@, s@, at as int),
{
    if !table_offsets_fit(s.len(), at, count, SYM_SIZE) {
        return None;
    }
    let len: usize = s.len();
    let mut v: Vec<Sym> = Vec::new();
    let mut i: u64 = 0;
    while i < count
        invariant
            at + count * SYM_SIZE <= s@.len(),
            len == s@.len(),
            i <= count,
            v@.len() == i,
            syms_at(v@, s@, at as int),
        decreases count - i,
    {
        assert(i * SYM_SIZE + SYM_SIZE <= count * SYM_SIZE) by (nonlinear_arith)
            requires
                i < count,
        ;
        let o = at + i * SYM_SIZE;
        let name = read_u32(s, o);
        let shndx = read_u16(s, o + 6);
        let value = read_u64(s, o + 8);
        let size = read_u64(s, o + 16);
        match (name, shndx, value, size) {
            (Some(name), Some(shndx), Some(value), Some(size)) => {
                let info = s[(o + 4) as usize];
                v.push(Sym { name: name as u32, bind: info >> 4u8, shndx: shndx as u16, value, size });
            },
            _ => return None,
        }
        i = i + 1;
    }
    Some(v)
}

/// Reads `count` relocations from `at` on.
fn read_relas(s: &[u8], at: u64, count: u64) -> (r: Option<Vec<Rela>>)
    ensures
        r matches Some(v) ==> v@.len() == count && relas_at(v@, s@, at as int),
{
    if !table_offsets_fit(s.len(), at, count, RELA_SIZE) {
        return None;
    }
    let len: usize = s.len();
    let mut v: Vec<Rela> = Vec::new();
    let mut i: u64 = 0;
    while i < count
        invariant
            at + count * RELA_SIZE <= s@.len(),
            len == s@.len(),
            i <= count,
            v@.len() == i,
            relas_at(v@, s@, at as int),
        decreases count - i,
    {
        assert(i * RELA_SIZE + RELA_SIZE <= count * RELA_SIZE) by (nonlinear_arith)
            requires
                i < count,
        ;
        let o = at + i * RELA_SIZE;
        let offset = read_u64(s, o);
        let info = read_u64(s, o + 8);
        let addend = read_u64(s, o + 16);
        match (offset, info, addend) {
            (Some(offset), Some(info), Some(addend)) => {
                v.push(Rela { offset, typ: (info & 0xffff_ffff) as u32, sym: (info >> 32u64) as u32, addend });
            },
            _ => return None,
        }
        i = i + 1;
    }
    Some(v)
}

/// The entries of the dynamic table that starts at `at` and holds `size`
/// bytes, as (tag, value) pairs, up to the first `DT_NULL`.
fn read_dynamic(s: &[u8], at: u64, size: u64) -> (r: Option<Vec<(u64, u64)>>)
    ensures
        r matches Some(v) ==> forall|i: int| 0 <= i < v@.len() ==> (#[trigger] v@[i]).0 == u64_at(
            s@,
            at + i * DYN_SIZE,
        ) && v@[i].1 == u64_at(s@, at + i * DYN_SIZE + 8) && v@[i].0 != DT_NULL,
{
    let count = size / DYN_SIZE;
    if !table_offsets_fit(s.len(), at, count, DYN_SIZE) {
        return None;
    }
    let len: usize = s.len();
    let mut v: Vec<(u64, u64)> = Vec::new();
    let mut i: u64 = 0;
    while i < count
        invariant
            at + count * DYN_SIZE <= s@.len(),
            len == s@.len(),
            i <= count,
            v@.len() == i,
            forall|j: int| 0 <= j < v@.len() ==> (#[trigger] v@[j]).0 == u64_at(s@, at + j * DYN_SIZE) && v@[j].1
                == u64_at(s@, at + j * DYN_SIZE + 8) && v@[j].0 != DT_NULL,
        decreases count - i,
    {
        assert(i * DYN_SIZE + DYN_SIZE <= count * DYN_SIZE) by (nonlinear_arith)
            requires
                i < count,
        ;
        let o = at + i * DYN_SIZE;
        let tag = read_u64(s, o);
        let val = read_u64(s, o + 8);
        match (tag, val) {
            (Some(tag), Some(val)) => {
                if tag == DT_NULL {
                    return Some(v);
                }
                v.push((tag, val));
            },
            _ => return None,
        }
        i = i + 1;
    }
    Some(v)
}

/// The value of the first dynamic entry with the tag `tag`.
fn dyn_value(entries: &Vec<(u64, u64)>, tag: u64) -> (r: Option<u64>)
    ensures
        r matches Some(val) ==> exists|i: int| 0 <= i < entries@.len() && (#[trigger] entries@[i]) == (tag, val),
{
    let mut i: usize = 0;
    while i < entries.len()
        invariant
            i <= entries@.len(),
        decreases entries@.len() - i,
    {
        if entries[i].0 == tag {
            return Some(entries[i].1);
        }
        i = i + 1;
    }
    None
}

/// Whether `v` is a NUL-terminated string of `s`, without its NUL.
pub open spec fn c_string_in(s: Seq<u8>, v: Seq<u8>) -> bool {
    exists|o: int| name_len(s, o) is Some && #[trigger] s.subrange(o, o + name_len(s, o)->0) == v
}

/// The NUL-terminated strings at the offsets that the entries with the tag
/// `tag` give in the string table at the file offset `table`, in order.
fn dyn_strings(s: &[u8], entries: &Vec<(u64, u64)>, tag: u64, table: u64) -> (r: Option<Vec<Vec<u8>>>)
    ensures
        r matches Some(v) ==> forall|i: int| 0 <= i < v@.len() ==> c_string_in(s@, (#[trigger] v@[i])@),
{
    let len: usize = s.len();
    let mut v: Vec<Vec<u8>> = Vec::new();
    let mut i: usize = 0;
    while i < entries.len()
        invariant
            len == s@.len(),
            i <= entries@.len(),
            forall|k: int| 0 <= k < v@.len() ==> c_string_in(s@, (#[trigger] v@[k])@),
        decreases entries@.len() - i,
    {
        if entries[i].0 == tag {
            let val = entries[i].1;
            if val > u64::MAX - table || table + val >= s.len() as u64 {
                return None;
            }
            let o = (table + val) as usize;
            let n = match find_nul(s, o) {
                Some(n) => n,
                None => return None,
            };
            proof {
                crate::name::lemma_nul_scan_bounds(s@, o as int, 0);
            }
            let mut text: Vec<u8> = Vec::new();
            let mut k: usize = 0;
            while k < n
                invariant
                    len == s@.len(),
                    o + n < s@.len(),
                    k <= n,
                    text@ == s@.subrange(o as int, o + k),
                decreases n - k,
            {
                text.push(s[o + k]);
                assert(s@.subrange(o as int, o + k + 1) =~= s@.subrange(o as int, o + k).push(s@[o + k]));
                k = k + 1;
            }
            assert(name_len(s@, o as int) is Some && s@.subrange(o as int, o + name_len(s@, o as int)->0) == text@);
            assert(c_string_in(s@, text@));
            v.push(text);
            assert forall|k: int| 0 <= k < v@.len() implies c_string_in(s@, (#[trigger] v@[k])@) by {
                if k < v@.len() - 1 {
                }
            }
        }
        i = i + 1;
    }
    Some(v)
}

impl ElfFile {
    /// Reads what the loader needs from the bytes of a little-endian 64-bit
    /// ELF file: the entry point and program headers from the file header;
    /// the dynamic symbols from the first section of type `SHT_DYNSYM`; and,
    /// from the dynamic table of the first `PT_DYNAMIC` segment, the
    /// `DT_NEEDED`, `DT_RPATH` and `DT_RUNPATH` strings, the `DT_STRTAB`
    /// address, and the `DT_RELA` and `DT_JMPREL` tables. Addresses are
    /// turned into file offsets through the loadable segments. `None` where
    /// any of this does not lie within the bytes.
    pub fn parse(s: &[u8]) -> (r: Option<ElfFile>)
        ensures
            r matches Some(f) ==> {
                &&& elf64_le(s@)
                &&& f.entry_point == u64_at(s@, 24)
                &&& f.program_headers@.len() == u16_at(s@, 56)
                &&& phs_at(f.program_headers@, s@, u64_at(s@, 32) as int, u16_at(s@, 54) as int)
                &&& exists|at: int| syms_at(f.dynsyms@, s@, at)
                &&& exists|at: int| relas_at(f.rela@, s@, at)
                &&& exists|at: int| relas_at(f.jmprel@, s@, at)
                &&& forall|i: int| 0 <= i < f.needed@.len() ==> c_string_in(s@, (#[trigger] f.needed@[i])@)
                &&& forall|i: int| 0 <= i < f.rpath@.len() ==> c_string_in(s@, (#[trigger] f.rpath@[i])@)
                &&& forall|i: int| 0 <= i < f.runpath@.len() ==> c_string_in(s@, (#[trigger] f.runpath@[i])@)
            },
            ({
                let phoff = u64_at(s@, 32) as int;
                let size = u16_at(s@, 54) as int;
                let count = u16_at(s@, 56) as int;
                elf64_le(s@) && size >= PH_SIZE && phoff + count * size <= s@.len() && u16_at(s@, 60) == 0
                    && (forall|i: int| 0 <= i < count ==> (#[trigger] ph_at(s@, phoff + i * size)).typ != PT_DYNAMIC)
                    ==> r is Some
            }),
    {
        if s.len() < 64 || s[0] != 0x7f || s[1] != 0x45 || s[2] != 0x4c || s[3] != 0x46 || s[4] != 2 || s[5]
            != 1 {
            return None;
        }
        let entry_point = read_u64(s, 24)?;
        let phoff = read_u64(s, 32)?;
        let shoff = read_u64(s, 40)?;
        let phentsize = read_u16(s, 54)?;
        let phnum = read_u16(s, 56)?;
        let shentsize = read_u16(s, 58)?;
        let shnum = read_u16(s, 60)?;
        if phentsize < PH_SIZE {
            return None;
        }
        let program_headers = read_phs(s, phoff, phnum, phentsize)?;
        // The dynamic symbol table, from the section headers.
        let mut dynsyms: Vec<Sym> = Vec::new();
        let len: usize = s.len();
        let mut k: u64 = 0;
        assert(syms_at(dynsyms@, s@, 0));
        if shnum > 0 && (shentsize < SH_SIZE || !table_offsets_fit(s.len(), shoff, shnum, shentsize)) {
            return None;
        }
        while k < shnum
            invariant
                k <= shnum,
                len == s@.len(),
                shnum == u16_at(s@, 60),
                shnum > 0 ==> shentsize >= SH_SIZE && shoff + shnum * shentsize <= s@.len(),
                exists|at: int| syms_at(dynsyms@, s@, at),
            decreases shnum - k,
        {
            assert(k * shentsize + shentsize <= shnum * shentsize) by (nonlinear_arith)
                requires
                    k < shnum,
            ;
            let o = shoff + k * shentsize;
            let typ = read_u32(s, o + 4)?;
            if typ == SHT_DYNSYM {
                let offset = read_u64(s, o + 24)?;
                let size = read_u64(s, o + 32)?;
                dynsyms = read_syms(s, offset, size / SYM_SIZE)?;
                break;
            }
            k = k + 1;
        }
        let mut file = ElfFile {
            entry_point,
            program_headers,
            needed: Vec::new(),
            rpath: Vec::new(),
            runpath: Vec::new(),
            strtab: None,
            dynsyms,
            rela: Vec::new(),
            jmprel: Vec::new(),
        };
        assert(relas_at(file.rela@, s@, 0));
        assert(relas_at(file.jmprel@, s@, 0));
        assert(forall|i: int| 0 <= i < file.program_headers@.len() ==> #[trigger] file.program_headers@[i] == ph_at(
            s@,
            phoff + i * phentsize,
        ));
        proof {
            if forall|i: int| 0 <= i < phnum ==> (#[trigger] ph_at(s@, phoff + i * phentsize)).typ != PT_DYNAMIC {
                lemma_no_type(file.program_headers@, PT_DYNAMIC, 0);
            }
        }
        let dynamic = match file.segment_of_type(PT_DYNAMIC) {
            Some(ph) => ph,
            None => return Some(file),
        };
        let entries = read_dynamic(s, dynamic.offset, dynamic.filesz)?;
        if let Some(addr) = dyn_value(&entries, DT_STRTAB) {
            file.strtab = Some(addr);
            let table = file_offset(&file.program_headers, addr)?;
            file.needed = dyn_strings(s, &entries, DT_NEEDED, table)?;
            file.rpath = dyn_strings(s, &entries, DT_RPATH, table)?;
            file.runpath = dyn_strings(s, &entries, DT_RUNPATH, table)?;
        }
        let ghost phs = file.program_headers@;
        let ghost syms = file.dynsyms@;
        if let Some(addr) = dyn_value(&entries, DT_RELA) {
            let at = file_offset(&file.program_headers, addr)?;
            let size = dyn_value(&entries, DT_RELASZ)?;
            file.rela = read_relas(s, at, size / RELA_SIZE)?;
            assert(relas_at(file.rela@, s@, at as int));
        }
        assert(exists|a: int| relas_at(file.rela@, s@, a));
        let ghost relas = file.rela@;
        let jmprel: Vec<Rela> = match dyn_value(&entries, DT_JMPREL) {
            Some(addr) => {
                let at = file_offset(&file.program_headers, addr)?;
                let size = dyn_value(&entries, DT_PLTRELSZ)?;
                let v = read_relas(s, at, size / RELA_SIZE)?;
                assert(relas_at(v@, s@, at as int));
                assert(exists|a: int| relas_at(v@, s@, a));
                v
            },
            None => {
                let v: Vec<Rela> = Vec::new();
                assert(relas_at(v@, s@, 0));
                assert(exists|a: int| relas_at(v@, s@, a));
                v
            },
        };
        assert(exists|a: int| relas_at(jmprel@, s@, a));
        let ghost jv = jmprel@;
        file.jmprel = jmprel;
        assert(file.jmprel@ == jv);
        assert(exists|a: int| relas_at(file.jmprel@, s@, a));
        assert(file.rela@ == relas);
        assert(file.program_headers@ == phs && file.dynsyms@ == syms);
        assert(elf64_le(s@));
        assert(file.entry_point == u64_at(s@, 24));
        assert(phs_at(file.program_headers@, s@, u64_at(s@, 32) as int, u16_at(s@, 54) as int));
        assert(exists|at: int| syms_at(file.dynsyms@, s@, at));
        assert(exists|at: int| relas_at(file.rela@, s@, at));
        Some(file)
    }
}

} // verus!
