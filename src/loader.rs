use std::ops::Range;
use std::sync::Arc;
use vstd::prelude::*;
use crate::elf::{ElfFile, ProgramHeader, Rela, Sym, PAGE_SIZE, PT_LOAD};
use crate::name::{find_nul, name_len, Name};
use crate::name::bytes_eq;
use crate::paths::{expand_origin, join, join_path, parent, parent_dir, replace_origin};
use crate::symtab::{index_get, index_insert, index_lists, index_new, SymbolIndex};

verus! {

/// Why an object could not be loaded.
#[derive(Debug, Clone)]
pub enum LoadError {
    /// No directory of the search path holds the named object.
    NotFound(Vec<u8>),
    /// The object's path has no directory to stand for `$ORIGIN`.
    InvalidPath(Vec<u8>),
    /// The object's file could not be found or read.
    IO(Vec<u8>),
    /// The object's bytes do not form an ELF file the loader can place: the
    /// headers do not parse, a segment does not fit in the address space, or
    /// the dynamic symbols' names cannot be found.
    ParseError(Vec<u8>),
    /// The object has no loadable segment.
    NoLoadSegments,
    /// The object's memory could not be mapped.
    MapError,
}

/// One mapped segment of a loaded object.
#[derive(Debug)]
pub struct Segment {
    /// The virtual addresses it covers, from the page boundary below its
    /// first byte to its end.
    pub vaddr_range: Range<u64>,
    /// How far its first byte lies above the page boundary.
    pub padding: u64,
    /// Its `PF_*` flags.
    pub flags: u32,
    /// The file offset mapped at the start of `vaddr_range`.
    pub file_offset: u64,
    /// How many bytes of the file are mapped: its file size and the padding.
    pub map_len: u64,
}

/// The virtual address range `[vaddr, vaddr + memsz)` of a segment.
pub open spec fn mem_start(ph: ProgramHeader) -> int {
    ph.vaddr as int
}

pub open spec fn mem_end(ph: ProgramHeader) -> int {
    ph.vaddr + ph.memsz
}

/// The smallest range that covers every loadable segment of `phs`, if there
/// is one.
pub open spec fn hull(phs: Seq<ProgramHeader>) -> Option<(int, int)>
    decreases phs.len(),
{
    if phs.len() == 0 {
        None
    } else {
        let rest = hull(phs.drop_last());
        let ph = phs.last();
        if ph.typ != PT_LOAD {
            rest
        } else {
            match rest {
                None => Some((mem_start(ph), mem_end(ph))),
                Some((s, e)) => Some((
                    if mem_start(ph) < s { mem_start(ph) } else { s },
                    if mem_end(ph) > e { mem_end(ph) } else { e },
                )),
            }
        }
    }
}

/// Where the hull of `phs` ends; zero where there is none.
pub open spec fn hull_end(phs: Seq<ProgramHeader>) -> int {
    match hull(phs) {
        Some((_, e)) => e,
        None => 0,
    }
}

/// The smallest range that covers both `a` and `b`.
pub fn convex_hull(a: Range<u64>, b: Range<u64>) -> (r: Range<u64>)
    ensures
        r.start == (if a.start < b.start { a.start } else { b.start }),
        r.end == (if a.end > b.end { a.end } else { b.end }),
{
    let start = if a.start < b.start { a.start } else { b.start };
    let end = if a.end > b.end { a.end } else { b.end };
    start..end
}

/// The range of virtual addresses that the loadable segments of `phs`
/// cover together. A range that ends beyond the address space is a
/// `ParseError`, whose path is left empty for the caller to fill in.
pub fn mem_range(phs: &Vec<ProgramHeader>) -> (r: Result<Range<u64>, LoadError>)
    ensures
        match r {
            Ok(range) => hull(phs@) == Some((range.start as int, range.end as int)),
            Err(e) => hull(phs@) is None && e is NoLoadSegments || (hull(phs@) is Some
                && hull_end(phs@) > u64::MAX && e is ParseError),
        },
{
    let mut acc: Option<Range<u64>> = None;
    let mut i: usize = 0;
    while i < phs.len()
        invariant
            i <= phs@.len(),
            match acc {
                None => hull(phs@.take(i as int)) is None,
                Some(range) => hull(phs@.take(i as int)) == Some((range.start as int, range.end as int)),
            },
        decreases phs@.len() - i,
    {
        let ph = phs[i];
        assert(phs@.take(i + 1).drop_last() =~= phs@.take(i as int));
        if ph.typ == PT_LOAD {
            if ph.memsz > u64::MAX - ph.vaddr {
                proof {
                    assert(phs@.take(i + 1).last() == ph);
                    assert(hull(phs@.take(i + 1)) is Some);
                    assert(hull_end(phs@.take(i + 1)) >= mem_end(ph));
                    lemma_hull_end_grows(phs@, i as int + 1, phs@.len() as int);
                    assert(phs@.take(phs@.len() as int) =~= phs@);
                }
                return Err(LoadError::ParseError(Vec::new()));
            }
            let range = ph.vaddr..ph.vaddr + ph.memsz;
            acc = match acc {
                None => Some(range),
                Some(a) => Some(convex_hull(a, range)),
            };
        }
        i = i + 1;
    }
    assert(phs@.take(phs@.len() as int) =~= phs@);
    match acc {
        None => Err(LoadError::NoLoadSegments),
        Some(range) => Ok(range),
    }
}

/// Once a prefix has a hull, longer prefixes do too, and their hulls end no
/// lower.
pub proof fn lemma_hull_end_grows(phs: Seq<ProgramHeader>, i: int, j: int)
    requires
        0 <= i <= j <= phs.len(),
        hull(phs.take(i)) is Some,
    ensures
        hull(phs.take(j)) is Some,
        hull_end(phs.take(j)) >= hull_end(phs.take(i)),
    decreases j - i,
{
    if i < j {
        lemma_hull_end_grows(phs, i, j - 1);
        assert(phs.take(j).drop_last() =~= phs.take(j - 1));
    }
}

/// Whether a program header is mapped: a loadable segment with a nonzero
/// size in memory.
pub open spec fn is_mapped(ph: ProgramHeader) -> bool {
    ph.typ == PT_LOAD && ph.memsz > 0
}

/// Whether a segment can be placed at `base`: its file part is no larger
/// than its memory part, its file offset reaches down to its page boundary,
/// and its end, moved by `base`, stays within the address space.
pub open spec fn fits(ph: ProgramHeader, base: u64) -> bool {
    &&& ph.filesz <= ph.memsz
    &&& ph.vaddr % PAGE_SIZE <= ph.offset
    &&& base + ph.vaddr + ph.memsz <= u64::MAX
}

/// The segment record of a mapped program header.
pub open spec fn segment_for(ph: ProgramHeader) -> Segment {
    let padding = ph.vaddr % PAGE_SIZE;
    Segment {
        vaddr_range: Range { start: (ph.vaddr - padding) as u64, end: (ph.vaddr + ph.memsz) as u64 },
        padding: padding as u64,
        flags: ph.flags,
        file_offset: (ph.offset - padding) as u64,
        map_len: (ph.filesz + padding) as u64,
    }
}

/// The segment records of the mapped program headers of `phs`, in order.
pub open spec fn planned(phs: Seq<ProgramHeader>) -> Seq<Segment>
    decreases phs.len(),
{
    if phs.len() == 0 {
        Seq::empty()
    } else if is_mapped(phs.last()) {
        planned(phs.drop_last()).push(segment_for(phs.last()))
    } else {
        planned(phs.drop_last())
    }
}

/// A planned segment of headers that fit at `base` lies, moved by `base`,
/// within the address space.
pub proof fn lemma_planned_fits(phs: Seq<ProgramHeader>, base: u64, j: int)
    requires
        all_fit(phs, base),
        0 <= j < planned(phs).len(),
    ensures
        base + planned(phs)[j].vaddr_range.start <= u64::MAX,
        planned(phs)[j].vaddr_range.start <= planned(phs)[j].vaddr_range.end,
    decreases phs.len(),
{
    let prev = phs.drop_last();
    assert(all_fit(prev, base)) by {
        assert forall|i: int| 0 <= i < prev.len() && is_mapped(#[trigger] prev[i]) implies fits(prev[i], base) by {
            assert(prev[i] == phs[i]);
        }
    }
    if j < planned(prev).len() {
        lemma_planned_fits(prev, base, j);
    } else {
        assert(is_mapped(phs.last()));
        assert(fits(phs[phs.len() - 1], base));
    }
}

/// Whether every mapped program header of `phs` fits at `base`.
pub open spec fn all_fit(phs: Seq<ProgramHeader>, base: u64) -> bool {
    forall|i: int| 0 <= i < phs.len() && is_mapped(#[trigger] phs[i]) ==> fits(phs[i], base)
}

/// The segment records for an object placed at `base`: one for each
/// loadable segment with a nonzero size in memory, in order; `None` where
/// one of them does not fit.
pub fn plan_segments(phs: &Vec<ProgramHeader>, base: u64) -> (r: Option<Vec<Segment>>)
    ensures
        match r {
            Some(segs) => all_fit(phs@, base) && segs@ == planned(phs@),
            None => !all_fit(phs@, base),
        },
{
    let mut segs: Vec<Segment> = Vec::new();
    let mut i: usize = 0;
    while i < phs.len()
        invariant
            i <= phs@.len(),
            all_fit(phs@.take(i as int), base),
            segs@ == planned(phs@.take(i as int)),
        decreases phs@.len() - i,
    {
        let ph = phs[i];
        assert(phs@.take(i + 1).drop_last() =~= phs@.take(i as int));
        assert(phs@.take(i + 1).last() == ph);
        if ph.typ == PT_LOAD && ph.memsz > 0 {
            let padding = ph.vaddr % PAGE_SIZE;
            if ph.filesz > ph.memsz || padding > ph.offset || ph.memsz > u64::MAX - ph.vaddr
                || base > u64::MAX - (ph.vaddr + ph.memsz) {
                assert(!fits(phs@[i as int], base));
                return None;
            }
            segs.push(Segment {
                vaddr_range: (ph.vaddr - padding)..(ph.vaddr + ph.memsz),
                padding,
                flags: ph.flags,
                file_offset: ph.offset - padding,
                map_len: ph.filesz + padding,
            });
        }
        assert(all_fit(phs@.take(i + 1), base)) by {
            assert forall|j: int| 0 <= j < i + 1 && is_mapped(#[trigger] phs@.take(i + 1)[j]) implies fits(
                phs@.take(i + 1)[j],
                base,
            ) by {
                if j < i {
                    assert(phs@.take(i + 1)[j] == phs@.take(i as int)[j]);
                }
            }
        }
        i = i + 1;
    }
    assert(phs@.take(phs@.len() as int) =~= phs@);
    Some(segs)
}

/// An ELF symbol with its name.
#[derive(Clone, Debug)]
pub struct NamedSym {
    pub sym: Sym,
    pub name: Name,
}

/// Indices of the symbols of `syms` whose name is `n`, in order.
pub open spec fn indices_named(syms: Seq<NamedSym>, n: Seq<u8>) -> Seq<usize>
    decreases syms.len(),
{
    if syms.len() == 0 {
        Seq::empty()
    } else if syms.last().name.bytes() == n {
        indices_named(syms.drop_last(), n).push((syms.len() - 1) as usize)
    } else {
        indices_named(syms.drop_last(), n)
    }
}

/// Whether `lists` maps each name of `syms`, and nothing else, to the
/// indices of the symbols that bear it, in order.
pub open spec fn indexes(lists: Map<Seq<u8>, Seq<usize>>, syms: Seq<NamedSym>) -> bool {
    &&& forall|n: Seq<u8>| #[trigger] lists.contains_key(n) <==> indices_named(syms, n).len() > 0
    &&& forall|n: Seq<u8>| #[trigger] lists.contains_key(n) ==> lists[n] == indices_named(syms, n)
}

/// The index of `syms` by name.
pub fn build_index(syms: &Vec<NamedSym>) -> (r: SymbolIndex)
    ensures
        indexes(index_lists(r), syms@),
{
    let mut m = index_new();
    let mut i: usize = 0;
    assert(syms@.take(0) =~= Seq::<NamedSym>::empty());
    while i < syms.len()
        invariant
            i <= syms@.len(),
            indexes(index_lists(m), syms@.take(i as int)),
        decreases syms@.len() - i,
    {
        let key = vstd::slice::slice_to_vec(syms[i].name.as_slice());
        let ghost old_lists = index_lists(m);
        let ghost pre = syms@.take(i as int);
        let ghost post = syms@.take(i + 1);
        index_insert(&mut m, key, i);
        proof {
            assert(post.drop_last() =~= pre);
            assert(post.last() == syms@[i as int]);
            assert forall|n: Seq<u8>| #[trigger] index_lists(m).contains_key(n) <==> indices_named(post, n).len() > 0 by {
                if n != key@ {
                    assert(indices_named(post, n) == indices_named(pre, n));
                }
            }
            assert forall|n: Seq<u8>| #[trigger] index_lists(m).contains_key(n) implies index_lists(m)[n]
                == indices_named(post, n) by {
                if n != key@ {
                    assert(indices_named(post, n) == indices_named(pre, n));
                } else if !old_lists.contains_key(n) {
                    assert(indices_named(pre, n).len() == 0);
                    assert(indices_named(post, n) =~= seq![i]);
                }
            }
        }
        i = i + 1;
    }
    assert(syms@.take(syms@.len() as int) =~= syms@);
    m
}

/// One loaded ELF object.
pub struct Object {
    /// Its canonical path.
    pub path: Vec<u8>,
    /// How far its segments were moved from the addresses that the file
    /// gives them.
    pub base: u64,
    pub file: ElfFile,
    /// The file's bytes, which symbol names refer to.
    pub image: Arc<Vec<u8>>,
    /// The range of file addresses that its loadable segments cover.
    pub mem_range: Range<u64>,
    pub segments: Vec<Segment>,
    /// Its dynamic symbols, with their names.
    pub syms: Vec<NamedSym>,
    /// Its symbols by name.
    pub sym_map: SymbolIndex,
    /// Its relocations: the `DT_RELA` table, then the `DT_JMPREL` table.
    pub rels: Vec<Rela>,
    /// The objects that its `DT_NEEDED` entries resolved to, in order, as far
    /// as they have been resolved.
    pub deps: Vec<usize>,
}

/// The bytes of the NUL-terminated string at `off` in `data`.
pub open spec fn c_str_at(data: Seq<u8>, off: int) -> Seq<u8> {
    data.subrange(off, off + name_len(data, off)->0)
}

/// Whether the range of `seg` holds `addr`.
pub open spec fn holds(seg: Segment, addr: u64) -> bool {
    seg.vaddr_range.start <= addr < seg.vaddr_range.end
}

/// Index of the first segment from `k` on whose range holds `addr`.
pub open spec fn segment_from(segs: Seq<Segment>, addr: u64, k: int) -> Option<int>
    decreases segs.len() - k,
{
    if k < 0 || k >= segs.len() {
        None
    } else if holds(segs[k], addr) {
        Some(k)
    } else {
        segment_from(segs, addr, k + 1)
    }
}

/// Index of the first segment whose range holds `addr`.
pub open spec fn segment_holding(segs: Seq<Segment>, addr: u64) -> Option<int> {
    segment_from(segs, addr, 0)
}

/// The segment that the search finds holds the address.
pub proof fn lemma_segment_from(segs: Seq<Segment>, addr: u64, k: int)
    requires
        segment_from(segs, addr, k) is Some,
    ensures
        0 <= segment_from(segs, addr, k)->0 < segs.len(),
        holds(segs[segment_from(segs, addr, k)->0], addr),
    decreases segs.len() - k,
{
    if k < 0 || k >= segs.len() {
    } else if holds(segs[k], addr) {
    } else {
        lemma_segment_from(segs, addr, k + 1);
    }
}

/// Index of the first segment whose range holds `addr`.
pub fn find_segment(segs: &Vec<Segment>, addr: u64) -> (r: Option<usize>)
    ensures
        match r {
            Some(k) => segment_holding(segs@, addr) == Some(k as int) && k < segs@.len(),
            None => segment_holding(segs@, addr) is None,
        },
{
    let mut k: usize = 0;
    while k < segs.len()
        invariant
            k <= segs@.len(),
            segment_holding(segs@, addr) == segment_from(segs@, addr, k as int),
        decreases segs@.len() - k,
    {
        if segs[k].vaddr_range.start <= addr && addr < segs[k].vaddr_range.end {
            return Some(k);
        }
        k = k + 1;
    }
    None
}

/// Where, in the file, the name of `sym` starts: the string table's
/// address, moved into the file through the segment `seg` that holds it,
/// and the symbol's offset in the table.
pub open spec fn name_offset(seg: Segment, strtab: u64, sym: Sym) -> int {
    seg.file_offset + (strtab - seg.vaddr_range.start) + sym.name
}

/// Whether each dynamic symbol's name can be read: where there are dynamic
/// symbols, the string table lies in a segment and each name ends, within
/// the window, inside the file.
pub open spec fn names_readable(file: ElfFile, segs: Seq<Segment>, image: Seq<u8>) -> bool {
    file.dynsyms@.len() > 0 ==> {
        &&& file.strtab is Some
        &&& segment_holding(segs, file.strtab->0) is Some
        &&& forall|i: int| 0 <= i < file.dynsyms@.len() ==> name_len(image, name_offset(
            segs[segment_holding(segs, file.strtab->0)->0],
            file.strtab->0,
            #[trigger] file.dynsyms@[i],
        )) is Some
    }
}

/// Whether `syms` are the dynamic symbols of `file`, each with the name
/// that the string table gives it.
pub open spec fn named_symbols(syms: Seq<NamedSym>, file: ElfFile, segs: Seq<Segment>, image: Seq<u8>) -> bool {
    &&& syms.len() == file.dynsyms@.len()
    &&& forall|i: int| 0 <= i < syms.len() ==> (#[trigger] syms[i]).sym == file.dynsyms@[i]
        && syms[i].name.bytes() == c_str_at(
            image,
            name_offset(segs[segment_holding(segs, file.strtab->0)->0], file.strtab->0, file.dynsyms@[i]),
        )
}

impl Object {
    /// What holds of every loaded object.
    pub open spec fn wf(&self) -> bool {
        &&& hull(self.file.program_headers@) == Some((self.mem_range.start as int, self.mem_range.end as int))
        &&& self.segments@ == planned(self.file.program_headers@)
        &&& all_fit(self.file.program_headers@, self.base)
        &&& names_readable(self.file, self.segments@, self.image@)
        &&& named_symbols(self.syms@, self.file, self.segments@, self.image@)
        &&& indexes(index_lists(self.sym_map), self.syms@)
        &&& self.rels@ == self.file.rela@ + self.file.jmprel@
        &&& self.deps@.len() <= self.file.needed@.len()
    }
}

/// Reads the names of the dynamic symbols of `file` from its bytes.
fn read_names(file: &ElfFile, segs: &Vec<Segment>, image: &Arc<Vec<u8>>) -> (r: Option<Vec<NamedSym>>)
    ensures
        match r {
            Some(syms) => names_readable(*file, segs@, image@) && named_symbols(syms@, *file, segs@, image@),
            None => !names_readable(*file, segs@, image@),
        },
{
    let mut syms: Vec<NamedSym> = Vec::new();
    if file.dynsyms.len() == 0 {
        return Some(syms);
    }
    let strtab = match file.strtab {
        Some(a) => a,
        None => return None,
    };
    let k = match find_segment(segs, strtab) {
        Some(k) => k,
        None => return None,
    };
    let seg = &segs[k];
    proof {
        lemma_segment_from(segs@, strtab, 0);
    }
    let data: &[u8] = image.as_slice();
    let total: usize = data.len();
    let mut i: usize = 0;
    while i < file.dynsyms.len()
        invariant
            i <= file.dynsyms@.len(),
            file.strtab == Some(strtab),
            segment_holding(segs@, strtab) == Some(k as int),
            k < segs@.len(),
            *seg == segs@[k as int],
            holds(*seg, strtab),
            data@ == image@,
            total == data@.len(),
            syms@.len() == i,
            forall|j: int| 0 <= j < i ==> name_len(image@, name_offset(*seg, strtab, #[trigger] file.dynsyms@[j])) is Some,
            forall|j: int| 0 <= j < i ==> (#[trigger] syms@[j]).sym == file.dynsyms@[j]
                && syms@[j].name.bytes() == c_str_at(image@, name_offset(*seg, strtab, file.dynsyms@[j])),
        decreases file.dynsyms@.len() - i,
    {
        let sym = file.dynsyms[i];
        let ghost off = name_offset(*seg, strtab, sym);
        let rel: u64 = strtab - seg.vaddr_range.start;
        if rel > u64::MAX - seg.file_offset || sym.name as u64 > u64::MAX - (seg.file_offset + rel)
            || seg.file_offset + rel + sym.name as u64 >= total as u64 {
            assert(off >= image@.len());
            assert(name_len(image@, off) is None);
            return None;
        }
        let at: usize = (seg.file_offset + rel + sym.name as u64) as usize;
        assert(at == off);
        if find_nul(data, at).is_none() {
            return None;
        }
        let name = Name::mapped(image, at);
        syms.push(NamedSym { sym, name });
        i = i + 1;
    }
    Some(syms)
}

/// A symbol of a loaded object: the object's index, and the symbol's index
/// among the object's symbols.
#[derive(Clone, Copy, Debug, PartialEq, Eq, Structural)]
pub struct ObjectSym {
    pub obj: usize,
    pub sym: usize,
}

/// The outcome of a symbol lookup.
#[derive(Clone, Copy, Debug, PartialEq, Eq, Structural)]
pub enum ResolvedSym {
    Defined(ObjectSym),
    Undefined,
}

/// The first symbol, among the indices `list` from `k` on, that is defined.
pub open spec fn first_defined(syms: Seq<NamedSym>, list: Seq<usize>, k: int) -> Option<int>
    decreases list.len() - k,
{
    if k < 0 || k >= list.len() {
        None
    } else if list[k] < syms.len() && syms[list[k] as int].sym.is_defined() {
        Some(list[k] as int)
    } else {
        first_defined(syms, list, k + 1)
    }
}

/// The first defined symbol of `o` named `name`.
pub open spec fn defined_in(o: Object, name: Seq<u8>) -> Option<int> {
    first_defined(o.syms@, indices_named(o.syms@, name), 0)
}

/// The first object from `k` on, other than `skip`, that defines `name`, and
/// its first defined symbol of that name.
pub open spec fn lookup_from(objects: Seq<Object>, name: Seq<u8>, skip: Option<usize>, k: int) -> ResolvedSym
    decreases objects.len() - k,
{
    if k < 0 || k >= objects.len() {
        ResolvedSym::Undefined
    } else if skip == Some(k as usize) {
        lookup_from(objects, name, skip, k + 1)
    } else {
        match defined_in(objects[k], name) {
            Some(j) => ResolvedSym::Defined(ObjectSym { obj: k as usize, sym: j as usize }),
            None => lookup_from(objects, name, skip, k + 1),
        }
    }
}

/// The first defined symbol named `name` of the objects in load order,
/// passing over the object `skip`.
pub open spec fn lookup(objects: Seq<Object>, name: Seq<u8>, skip: Option<usize>) -> ResolvedSym {
    lookup_from(objects, name, skip, 0)
}

/// The first symbol of `syms` among `list` that is defined.
fn find_defined(syms: &Vec<NamedSym>, list: &Vec<usize>) -> (r: Option<usize>)
    ensures
        match r {
            Some(j) => first_defined(syms@, list@, 0) == Some(j as int),
            None => first_defined(syms@, list@, 0) is None,
        },
{
    let mut k: usize = 0;
    while k < list.len()
        invariant
            k <= list@.len(),
            first_defined(syms@, list@, 0) == first_defined(syms@, list@, k as int),
        decreases list@.len() - k,
    {
        let j = list[k];
        if j < syms.len() && syms[j].sym.shndx != crate::elf::SHN_UNDEF {
            return Some(j);
        }
        k = k + 1;
    }
    None
}

/// Where the walk over the objects' dependencies stands: it started at the
/// object `root` and is at the object `object`; every object in between has
/// had each of its `DT_NEEDED` entries resolved.
#[derive(Clone, Copy, Debug, PartialEq, Eq, Structural)]
pub struct DepWalk {
    pub root: usize,
    pub object: usize,
}

/// The directory searched last for a dependency.
pub open spec fn default_dir() -> Seq<u8> {
    seq![47u8, 117u8, 115u8, 114u8, 47u8, 108u8, 105u8, 98u8, 47u8, 120u8, 56u8, 54u8, 95u8, 54u8, 52u8, 45u8, 108u8, 105u8, 110u8, 117u8, 120u8, 45u8, 103u8, 110u8, 117u8]
}

/// The bytes of each path of a list.
pub open spec fn bytes_of(v: Seq<Vec<u8>>) -> Seq<Seq<u8>> {
    v.map_values(|x: Vec<u8>| x@)
}

/// The directories that an object adds to the search path: its `DT_RPATH`
/// then its `DT_RUNPATH` entries, with `$ORIGIN` replaced by `origin`.
pub open spec fn search_additions(file: ElfFile, origin: Seq<u8>) -> Seq<Seq<u8>> {
    bytes_of(file.rpath@ + file.runpath@).map_values(|s: Seq<u8>| replace_origin(s, origin))
}

/// What loading the object `file`, read from `image` at `path` and mapped
/// at `base`, does to the loader `before`, given the outcome `r`: on
/// success the object is added at the end and its directories join the
/// search path; on failure nothing changes, and the error says why.
pub open spec fn load_outcome(
    before: Loader,
    after: Loader,
    path: Vec<u8>,
    image: Arc<Vec<u8>>,
    file: ElfFile,
    base: u64,
    r: Result<usize, LoadError>,
) -> bool {
    &&& after.wf()
    &&& match r {
        Ok(i) => {
            &&& parent_dir(path@) is Some
            &&& i == before.objects@.len()
            &&& after.objects@.len() == i + 1
            &&& forall|j: int| 0 <= j < i ==> after.objects@[j] == before.objects@[j]
            &&& after.objects@[i as int].path@ == path@
            &&& after.objects@[i as int].base == base
            &&& after.objects@[i as int].file == file
            &&& after.objects@[i as int].image == image
            &&& after.objects@[i as int].deps@.len() == 0
            &&& after.walk == before.walk
            &&& bytes_of(after.search_path@) == bytes_of(before.search_path@) + search_additions(
                file,
                parent_dir(path@)->0,
            )
        },
        Err(e) => {
            &&& after == before
            &&& if parent_dir(path@) is None {
                e == LoadError::InvalidPath(path)
            } else if hull(file.program_headers@) is None {
                e is NoLoadSegments
            } else {
                &&& e == LoadError::ParseError(path)
                &&& !(hull_end(file.program_headers@) <= u64::MAX && all_fit(file.program_headers@, base)
                    && names_readable(file, planned(file.program_headers@), image@))
            }
        },
    }
}

/// The objects of a process, the directories that dependencies are looked
/// for in, and the walk over dependencies.
pub struct Loader {
    pub search_path: Vec<Vec<u8>>,
    pub objects: Vec<Object>,
    pub walk: DepWalk,
}

impl Loader {
    /// Whether an object with the path `p` is loaded.
    pub open spec fn has_path(&self, p: Seq<u8>) -> bool {
        exists|i: int| 0 <= i < self.objects@.len() && (#[trigger] self.objects@[i]).path@ == p
    }

    /// Whether each `DT_NEEDED` entry of the object `k` has been resolved.
    pub open spec fn complete(&self, k: int) -> bool {
        self.objects@[k].deps@.len() == self.objects@[k].file.needed@.len()
    }

    /// What holds of the loader between any two of its operations.
    pub open spec fn wf(&self) -> bool {
        &&& forall|i: int| 0 <= i < self.objects@.len() ==> (#[trigger] self.objects@[i]).wf()
        &&& forall|i: int, j: int|
            0 <= i < self.objects@.len() && 0 <= j < self.objects@.len() && i != j
                ==> (#[trigger] self.objects@[i]).path@ != (#[trigger] self.objects@[j]).path@
        &&& forall|i: int, j: int|
            0 <= i < self.objects@.len() && 0 <= j < self.objects@[i].deps@.len()
                ==> #[trigger] self.objects@[i].deps@[j] < self.objects@.len()
        &&& self.walk.root <= self.walk.object <= self.objects@.len()
        &&& forall|k: int| self.walk.root <= k < self.walk.object ==> #[trigger] self.complete(k)
    }

    /// A loader with no object, that searches the system's library directory.
    pub fn new() -> (r: Loader)
        ensures
            r.wf(),
            r.objects@.len() == 0,
            bytes_of(r.search_path@) == seq![default_dir()],
    {
        let dir: Vec<u8> = vec![47u8, 117u8, 115u8, 114u8, 47u8, 108u8, 105u8, 98u8, 47u8, 120u8, 56u8, 54u8, 95u8, 54u8, 52u8, 45u8, 108u8, 105u8, 110u8, 117u8, 120u8, 45u8, 103u8, 110u8, 117u8];
        let r = Loader { search_path: vec![dir], objects: Vec::new(), walk: DepWalk { root: 0, object: 0 } };
        assert(bytes_of(r.search_path@) =~= seq![default_dir()]);
        r
    }

    /// The index of the loaded object with the path `path`.
    pub fn object_index(&self, path: &[u8]) -> (r: Option<usize>)
        ensures
            match r {
                Some(i) => i < self.objects@.len() && self.objects@[i as int].path@ == path@,
                None => !self.has_path(path@),
            },
    {
        let mut i: usize = 0;
        while i < self.objects.len()
            invariant
                i <= self.objects@.len(),
                forall|j: int| 0 <= j < i ==> (#[trigger] self.objects@[j]).path@ != path@,
            decreases self.objects@.len() - i,
        {
            if bytes_eq(self.objects[i].path.as_slice(), path) {
                return Some(i);
            }
            i = i + 1;
        }
        None
    }

    /// The paths where the object `name` is looked for, in the order of the
    /// search path.
    pub fn object_candidates(&self, name: &[u8]) -> (r: Vec<Vec<u8>>)
        ensures
            r@.len() == self.search_path@.len(),
            forall|i: int| 0 <= i < r@.len() ==> (#[trigger] r@[i])@ == join_path(self.search_path@[i]@, name@),
    {
        let mut r: Vec<Vec<u8>> = Vec::new();
        let mut i: usize = 0;
        while i < self.search_path.len()
            invariant
                i <= self.search_path@.len(),
                r@.len() == i,
                forall|j: int| 0 <= j < i ==> (#[trigger] r@[j])@ == join_path(self.search_path@[j]@, name@),
            decreases self.search_path@.len() - i,
        {
            r.push(join(self.search_path[i].as_slice(), name));
            i = i + 1;
        }
        r
    }

    /// Adds to the search path the directories of `list`, with `$ORIGIN`
    /// replaced by `origin`.
    fn extend_search_path(&mut self, list: &Vec<Vec<u8>>, origin: &[u8])
        ensures
            final(self).objects == old(self).objects,
            final(self).walk == old(self).walk,
            bytes_of(final(self).search_path@) == bytes_of(old(self).search_path@) + bytes_of(list@).map_values(
                |s: Seq<u8>| replace_origin(s, origin@),
            ),
    {
        let ghost start = bytes_of(self.search_path@);
        let mut i: usize = 0;
        while i < list.len()
            invariant
                i <= list@.len(),
                self.objects == old(self).objects,
                self.walk == old(self).walk,
                bytes_of(self.search_path@) == start + bytes_of(list@.take(i as int)).map_values(
                    |s: Seq<u8>| replace_origin(s, origin@),
                ),
            decreases list@.len() - i,
        {
            let dir = expand_origin(list[i].as_slice(), origin);
            let ghost prev = self.search_path@;
            self.search_path.push(dir);
            assert(bytes_of(self.search_path@) =~= bytes_of(prev).push(replace_origin(list@[i as int]@, origin@)));
            assert(bytes_of(list@.take(i + 1)).map_values(|s: Seq<u8>| replace_origin(s, origin@))
                =~= bytes_of(list@.take(i as int)).map_values(|s: Seq<u8>| replace_origin(s, origin@)).push(
                replace_origin(list@[i as int]@, origin@),
            ));
            assert(bytes_of(self.search_path@) =~= start + bytes_of(list@.take(i + 1)).map_values(
                |s: Seq<u8>| replace_origin(s, origin@),
            ));
            i = i + 1;
        }
        assert(list@.take(list@.len() as int) =~= list@);
    }

    /// Adds an object, whose file `file` was read from the bytes `image` at
    /// the canonical path `path` and whose segments were mapped at `base`:
    /// records its segments, names its symbols, indexes them, gathers its
    /// relocations, adds its `DT_RPATH` and `DT_RUNPATH` directories to the
    /// search path, and returns its index. On failure nothing changes.
    pub fn load_object(&mut self, path: Vec<u8>, image: Arc<Vec<u8>>, file: ElfFile, base: u64) -> (r: Result<
        usize,
        LoadError,
    >)
        requires
            old(self).wf(),
            !old(self).has_path(path@),
        ensures
            load_outcome(*old(self), *final(self), path, image, file, base, r),
    {
        let origin = match parent(path.as_slice()) {
            Some(d) => d,
            None => return Err(LoadError::InvalidPath(path)),
        };
        let mem_range = match mem_range(&file.program_headers) {
            Ok(range) => range,
            Err(LoadError::NoLoadSegments) => return Err(LoadError::NoLoadSegments),
            Err(_) => return Err(LoadError::ParseError(path)),
        };
        let segments = match plan_segments(&file.program_headers, base) {
            Some(segs) => segs,
            None => return Err(LoadError::ParseError(path)),
        };
        let syms = match read_names(&file, &segments, &image) {
            Some(syms) => syms,
            None => return Err(LoadError::ParseError(path)),
        };
        let sym_map = build_index(&syms);
        let mut rels: Vec<Rela> = Vec::new();
        let mut k: usize = 0;
        while k < file.rela.len()
            invariant
                k <= file.rela@.len(),
                rels@ == file.rela@.take(k as int),
            decreases file.rela@.len() - k,
        {
            rels.push(file.rela[k]);
            assert(file.rela@.take(k + 1) =~= file.rela@.take(k as int).push(file.rela@[k as int]));
            k = k + 1;
        }
        let mut k: usize = 0;
        assert(file.rela@.take(file.rela@.len() as int) =~= file.rela@);
        while k < file.jmprel.len()
            invariant
                k <= file.jmprel@.len(),
                rels@ == file.rela@ + file.jmprel@.take(k as int),
            decreases file.jmprel@.len() - k,
        {
            rels.push(file.jmprel[k]);
            assert(file.jmprel@.take(k + 1) =~= file.jmprel@.take(k as int).push(file.jmprel@[k as int]));
            k = k + 1;
        }
        assert(file.jmprel@.take(file.jmprel@.len() as int) =~= file.jmprel@);
        let ghost old_objects = self.objects@;
        self.extend_search_path(&file.rpath, origin.as_slice());
        self.extend_search_path(&file.runpath, origin.as_slice());
        assert(bytes_of(file.rpath@ + file.runpath@) =~= bytes_of(file.rpath@) + bytes_of(file.runpath@));
        assert(bytes_of(self.search_path@) =~= bytes_of(old(self).search_path@) + search_additions(file, origin@));
        let index = self.objects.len();
        let object = Object {
            path,
            base,
            file,
            image,
            mem_range,
            segments,
            syms,
            sym_map,
            rels,
            deps: Vec::new(),
        };
        self.objects.push(object);
        proof {
            assert(self.objects@[index as int].wf());
            assert forall|i: int| 0 <= i < self.objects@.len() implies (#[trigger] self.objects@[i]).wf() by {
                if i < index {
                    assert(self.objects@[i] == old_objects[i]);
                }
            }
            assert forall|i: int, j: int|
                0 <= i < self.objects@.len() && 0 <= j < self.objects@.len() && i != j
                    implies (#[trigger] self.objects@[i]).path@ != (#[trigger] self.objects@[j]).path@ by {
                if i < index && j < index {
                    assert(self.objects@[i] == old_objects[i]);
                    assert(self.objects@[j] == old_objects[j]);
                } else if i < index {
                    assert(self.objects@[i] == old_objects[i]);
                    assert(!old(self).has_path(self.objects@[j].path@));
                } else {
                    assert(self.objects@[j] == old_objects[j]);
                    assert(!old(self).has_path(self.objects@[i].path@));
                }
            }
            assert forall|i: int, j: int| 0 <= i < self.objects@.len() && 0 <= j < self.objects@[i].deps@.len()
                implies #[trigger] self.objects@[i].deps@[j] < self.objects@.len() by {
                assert(i < index);
                assert(self.objects@[i] == old_objects[i]);
            }
            assert forall|k: int| self.walk.root <= k < self.walk.object implies #[trigger] self.complete(k) by {
                assert(k < index);
                assert(self.objects@[k] == old_objects[k]);
                assert(old(self).complete(k));
            }
        }
        Ok(index)
    }

    /// Starts a walk over the dependencies of the objects from `root` on.
    pub fn begin_dependencies(&mut self, root: usize)
        requires
            old(self).wf(),
            root <= old(self).objects@.len(),
        ensures
            final(self).wf(),
            final(self).walk == (DepWalk { root, object: root }),
            final(self).objects == old(self).objects,
            final(self).search_path == old(self).search_path,
    {
        self.walk = DepWalk { root, object: root };
    }

    /// Whether each object from the walk's start on has had every
    /// `DT_NEEDED` entry resolved to a loaded object.
    pub open spec fn closed(&self) -> bool {
        forall|k: int| self.walk.root <= k < self.objects@.len() ==> {
            &&& #[trigger] self.complete(k)
            &&& forall|j: int| 0 <= j < self.objects@[k].deps@.len() ==> #[trigger] self.objects@[k].deps@[j]
                < self.objects@.len()
        }
    }

    /// The next `DT_NEEDED` entry to resolve, in breadth-first order from the
    /// walk's start: the entries of each object in turn, in their order,
    /// objects being visited in the order in which they were loaded. `None`
    /// once every object from the start on has its entries resolved.
    pub fn next_dependency(&mut self) -> (r: Option<Vec<u8>>)
        requires
            old(self).wf(),
        ensures
            final(self).wf(),
            final(self).objects == old(self).objects,
            final(self).search_path == old(self).search_path,
            final(self).walk.root == old(self).walk.root,
            old(self).walk.object <= final(self).walk.object,
            forall|k: int| old(self).walk.object <= k < final(self).walk.object ==> #[trigger] old(self).complete(k),
            match r {
                Some(name) => {
                    let o = final(self).walk.object as int;
                    &&& o < final(self).objects@.len()
                    &&& !final(self).complete(o)
                    &&& name@ == final(self).objects@[o].file.needed@[final(self).objects@[o].deps@.len() as int]@
                },
                None => final(self).walk.object == final(self).objects@.len() && final(self).closed(),
            },
    {
        while self.walk.object < self.objects.len()
            invariant
                self.wf(),
                self.objects == old(self).objects,
                self.search_path == old(self).search_path,
                self.walk.root == old(self).walk.root,
                old(self).walk.object <= self.walk.object,
                forall|k: int| old(self).walk.object <= k < self.walk.object ==> #[trigger] old(self).complete(k),
            decreases self.objects@.len() - self.walk.object,
        {
            let o = self.walk.object;
            let done = self.objects[o].deps.len();
            if done < self.objects[o].file.needed.len() {
                let name = vstd::slice::slice_to_vec(self.objects[o].file.needed[done].as_slice());
                return Some(name);
            }
            assert(self.objects@[o as int].wf());
            assert(self.complete(o as int));
            let ghost pre = *self;
            self.walk.object = o + 1;
            assert forall|k: int| self.walk.root <= k < self.walk.object implies #[trigger] self.complete(k) by {
                assert(pre.complete(k));
            }
        }
        None
    }

    /// Records that the entry that `next_dependency` last returned resolved
    /// to the object `index`. Nothing changes when no entry is pending.
    pub fn record_dependency(&mut self, index: usize)
        requires
            old(self).wf(),
            index < old(self).objects@.len(),
        ensures
            final(self).wf(),
            final(self).walk == old(self).walk,
            final(self).search_path == old(self).search_path,
            final(self).objects@.len() == old(self).objects@.len(),
            ({
                let o = old(self).walk.object as int;
                if o < old(self).objects@.len() && !old(self).complete(o) {
                    &&& final(self).objects@[o].deps@ == old(self).objects@[o].deps@.push(index)
                    &&& forall|k: int| 0 <= k < old(self).objects@.len() && k != o ==> final(self).objects@[k]
                        == old(self).objects@[k]
                    &&& final(self).objects@[o].path == old(self).objects@[o].path
                    &&& final(self).objects@[o].file == old(self).objects@[o].file
                } else {
                    final(self).objects == old(self).objects
                }
            }),
    {
        let o = self.walk.object;
        if o >= self.objects.len() || self.objects[o].deps.len() >= self.objects[o].file.needed.len() {
            return;
        }
        let ghost old_objects = self.objects@;
        let mut object = self.objects.remove(o);
        object.deps.push(index);
        self.objects.insert(o, object);
        proof {
            assert forall|k: int| 0 <= k < old_objects.len() && k != o implies self.objects@[k] == old_objects[k] by {
                if k < o {
                } else {
                }
            }
            assert(self.objects@[o as int].wf());
            assert forall|i: int| 0 <= i < self.objects@.len() implies (#[trigger] self.objects@[i]).wf() by {
                if i != o {
                    assert(self.objects@[i] == old_objects[i]);
                }
            }
            assert forall|i: int, j: int|
                0 <= i < self.objects@.len() && 0 <= j < self.objects@.len() && i != j
                    implies (#[trigger] self.objects@[i]).path@ != (#[trigger] self.objects@[j]).path@ by {
                assert(self.objects@[i].path == old_objects[i].path);
                assert(self.objects@[j].path == old_objects[j].path);
            }
            assert forall|i: int, j: int| 0 <= i < self.objects@.len() && 0 <= j < self.objects@[i].deps@.len()
                implies #[trigger] self.objects@[i].deps@[j] < self.objects@.len() by {
                if i != o {
                    assert(self.objects@[i] == old_objects[i]);
                } else if j < old_objects[i].deps@.len() {
                    assert(self.objects@[i].deps@[j] == old_objects[i].deps@[j]);
                }
            }
            assert forall|k: int| self.walk.root <= k < self.walk.object implies #[trigger] self.complete(k) by {
                assert(self.objects@[k] == old_objects[k]);
                assert(old(self).complete(k));
            }
        }
    }

    /// The first defined symbol named `name`, looking through the objects in
    /// load order and passing over the object `skip`.
    pub fn lookup_name(&self, name: &[u8], skip: Option<usize>) -> (r: ResolvedSym)
        requires
            self.wf(),
        ensures
            r == lookup(self.objects@, name@, skip),
            r matches ResolvedSym::Defined(os) ==> os.obj < self.objects@.len() && os.sym
                < self.objects@[os.obj as int].syms@.len(),
    {
        let mut k: usize = 0;
        while k < self.objects.len()
            invariant
                self.wf(),
                k <= self.objects@.len(),
                lookup(self.objects@, name@, skip) == lookup_from(self.objects@, name@, skip, k as int),
            decreases self.objects@.len() - k,
        {
            let skipped = match skip {
                Some(s) => s == k,
                None => false,
            };
            if !skipped {
                let obj = &self.objects[k];
                assert(obj.wf());
                match index_get(&obj.sym_map, name) {
                    Some(list) => {
                        assert(list@ == indices_named(obj.syms@, name@));
                        match find_defined(&obj.syms, list) {
                            Some(j) => {
                                proof {
                                    lemma_first_defined(obj.syms@, list@, 0);
                                }
                                return ResolvedSym::Defined(ObjectSym { obj: k, sym: j });
                            },
                            None => {},
                        }
                    },
                    None => {
                        assert(indices_named(obj.syms@, name@).len() == 0);
                    },
                }
            }
            k = k + 1;
        }
        ResolvedSym::Undefined
    }

    /// Where the symbol `wanted` is defined: the first defined symbol with its
    /// name among the objects in load order, passing over its own object when
    /// `ignore_self` is set.
    pub fn lookup_symbol(&self, wanted: ObjectSym, ignore_self: bool) -> (r: ResolvedSym)
        requires
            self.wf(),
            wanted.obj < self.objects@.len(),
            wanted.sym < self.objects@[wanted.obj as int].syms@.len(),
        ensures
            r == lookup(
                self.objects@,
                self.objects@[wanted.obj as int].syms@[wanted.sym as int].name.bytes(),
                if ignore_self { Some(wanted.obj) } else { None },
            ),
            r matches ResolvedSym::Defined(os) ==> os.obj < self.objects@.len() && os.sym
                < self.objects@[os.obj as int].syms@.len(),
    {
        let name = self.objects[wanted.obj].syms[wanted.sym].name.as_slice();
        let skip = if ignore_self { Some(wanted.obj) } else { None };
        self.lookup_name(name, skip)
    }
}

/// A symbol that the search picks lies among the object's symbols.
pub proof fn lemma_first_defined(syms: Seq<NamedSym>, list: Seq<usize>, k: int)
    requires
        first_defined(syms, list, k) is Some,
    ensures
        0 <= first_defined(syms, list, k)->0 < syms.len(),
    decreases list.len() - k,
{
    if k < 0 || k >= list.len() {
    } else if list[k] < syms.len() && syms[list[k] as int].sym.is_defined() {
    } else {
        lemma_first_defined(syms, list, k + 1);
    }
}

/// A planned segment comes from a mapped program header: it starts at that
/// header's page boundary, and its padding leads to the header's first byte
/// in memory and in the file.
pub proof fn lemma_planned_from(phs: Seq<ProgramHeader>, k: int)
    requires
        0 <= k < planned(phs).len(),
    ensures
        exists|i: int| 0 <= i < phs.len() && is_mapped(#[trigger] phs[i]) && planned(phs)[k] == segment_for(phs[i]),
    decreases phs.len(),
{
    let prev = phs.drop_last();
    if k < planned(prev).len() {
        lemma_planned_from(prev, k);
        let i = choose|i: int| 0 <= i < prev.len() && is_mapped(#[trigger] prev[i]) && planned(prev)[k] == segment_for(prev[i]);
        assert(phs[i] == prev[i]);
    } else {
        assert(planned(phs)[k] == segment_for(phs[phs.len() - 1]));
    }
}

/// No two loaded objects share a canonical path.
pub proof fn objects_have_distinct_paths(loader: Loader, i: int, j: int)
    requires
        loader.wf(),
        0 <= i < loader.objects@.len(),
        0 <= j < loader.objects@.len(),
        i != j,
    ensures
        loader.objects@[i].path@ != loader.objects@[j].path@,
{
}

/// Each segment of an object placed at a page-aligned base starts, in
/// memory, on a page boundary; the byte that its padding leads to is where
/// its program header puts the first byte of the segment, and the file
/// offset mapped there is the header's own offset.
pub proof fn segments_page_aligned(o: Object, k: int)
    requires
        o.wf(),
        o.base % PAGE_SIZE == 0,
        0 <= k < o.segments@.len(),
    ensures
        (o.base + o.segments@[k].vaddr_range.start) % PAGE_SIZE as int == 0,
        exists|i: int| 0 <= i < o.file.program_headers@.len() && is_mapped(#[trigger] o.file.program_headers@[i]) && {
            let ph = o.file.program_headers@[i];
            &&& o.segments@[k].vaddr_range.start + o.segments@[k].padding == ph.vaddr
            &&& o.segments@[k].file_offset + o.segments@[k].padding == ph.offset
        },
{
    let phs = o.file.program_headers@;
    lemma_planned_from(phs, k);
    let i = choose|i: int| 0 <= i < phs.len() && is_mapped(#[trigger] phs[i]) && planned(phs)[k] == segment_for(phs[i]);
    assert(fits(phs[i], o.base));
    let v = phs[i].vaddr as int;
    assert((v - v % 4096) % 4096 == 0) by (nonlinear_arith);
    assert((o.base + (v - v % 4096)) % 4096 == 0) by (nonlinear_arith)
        requires
            o.base % 4096 == 0,
            (v - v % 4096) % 4096 == 0,
    ;
}

/// Once the walk over dependencies has passed every object, each
/// `DT_NEEDED` entry of each object from the walk's start on has been
/// resolved to a loaded object.
pub proof fn dependency_closure(loader: Loader)
    requires
        loader.wf(),
        loader.walk.object == loader.objects@.len(),
    ensures
        loader.closed(),
        forall|k: int, j: int|
            loader.walk.root <= k < loader.objects@.len() && 0 <= j < loader.objects@[k].file.needed@.len()
                ==> #[trigger] loader.objects@[k].deps@[j] < loader.objects@.len(),
{
    assert forall|k: int, j: int|
        loader.walk.root <= k < loader.objects@.len() && 0 <= j < loader.objects@[k].file.needed@.len()
            implies #[trigger] loader.objects@[k].deps@[j] < loader.objects@.len() by {
        assert(loader.complete(k));
    }
}

} // verus!
