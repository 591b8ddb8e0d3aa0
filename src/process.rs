use std::collections::HashMap;
use vstd::prelude::*;
use crate::elf::{
    first_of_type, Rela, PF_R, PF_W, PF_X, PT_TLS, R_X86_64_64, R_X86_64_COPY, R_X86_64_DTPMOD64,
    R_X86_64_GLOB_DAT, R_X86_64_IRELATIVE, R_X86_64_JUMP_SLOT, R_X86_64_RELATIVE, R_X86_64_TPOFF64, STB_WEAK,
};
use std::sync::Arc;
use crate::elf::ElfFile;
use crate::loader::{
    bytes_of, default_dir, lemma_planned_fits, load_outcome, lookup, LoadError, Loader, Object, ObjectSym,
    ResolvedSym, Segment,
};

verus! {

broadcast use vstd::std_specs::hash::group_hash_axioms;

/// Size of the thread control block that follows the thread-local storage.
pub const TCBHEAD_SIZE: u64 = 704;

/// Placeholder stored in the stack guard slot of the thread control block.
pub const STACK_GUARD: u64 = 0xDEADBEEF;

/// Placeholder stored in the pointer guard slot of the thread control block.
pub const POINTER_GUARD: u64 = 0xFEEDFACE;

/// Thread-local storage of the main thread: where each object's block lies
/// below the thread pointer, the storage followed by the thread control
/// block, and the thread pointer.
#[derive(Debug)]
pub struct TLS {
    pub offsets: HashMap<u64, u64>,
    pub block: Vec<u8>,
    pub tcb_addr: u64,
}

/// Size in memory of the thread-local template of `o`; zero without one.
pub open spec fn tls_memsz(o: Object) -> int {
    match first_of_type(o.file.program_headers@, PT_TLS, 0) {
        Some(ph) => ph.memsz as int,
        None => 0,
    }
}

/// Storage that the first `n` objects need together.
pub open spec fn storage_upto(objects: Seq<Object>, n: int) -> int
    decreases n,
{
    if n <= 0 {
        0
    } else {
        storage_upto(objects, n - 1) + tls_memsz(objects[n - 1])
    }
}

/// Distance below the thread pointer of the block of each of the first `n`
/// objects that needs one, by base.
pub open spec fn offsets_upto(objects: Seq<Object>, n: int) -> Map<u64, u64>
    decreases n,
{
    if n <= 0 {
        Map::empty()
    } else if tls_memsz(objects[n - 1]) > 0 {
        offsets_upto(objects, n - 1).insert(objects[n - 1].base, storage_upto(objects, n) as u64)
    } else {
        offsets_upto(objects, n - 1)
    }
}

/// The eight bytes of `x`, least significant first.
pub open spec fn le_bytes(x: u64) -> Seq<u8> {
    Seq::new(8, |k: int| ((x >> (8 * k) as u64) & 0xff) as u8)
}

/// `n` zero bytes.
pub open spec fn zeros(n: nat) -> Seq<u8> {
    Seq::new(n, |k: int| 0u8)
}

/// The thread control block for the thread pointer `tcb`: a pointer to
/// itself, an empty thread vector, the thread pointer, no other thread, no
/// global scope, no system call page, the two guards, and zeros.
pub open spec fn tcbhead(tcb: u64) -> Seq<u8> {
    le_bytes(tcb) + zeros(8) + le_bytes(tcb) + zeros(16) + le_bytes(STACK_GUARD) + le_bytes(POINTER_GUARD) + zeros(
        (TCBHEAD_SIZE - 56) as nat,
    )
}

/// Appends the eight bytes of `x`, least significant first.
fn push_le64(out: &mut Vec<u8>, x: u64)
    ensures
        final(out)@ == old(out)@ + le_bytes(x),
{
    let ghost start = out@;
    let mut k: u64 = 0;
    while k < 8
        invariant
            k <= 8,
            out@ == start + le_bytes(x).take(k as int),
        decreases 8 - k,
    {
        out.push(((x >> (8 * k)) & 0xff) as u8);
        assert(le_bytes(x).take(k + 1) =~= le_bytes(x).take(k as int).push(le_bytes(x)[k as int]));
        k = k + 1;
    }
    assert(le_bytes(x).take(8) =~= le_bytes(x));
}

/// Appends `n` zero bytes.
fn push_zeros(out: &mut Vec<u8>, n: u64)
    ensures
        final(out)@ == old(out)@ + zeros(n as nat),
{
    let ghost start = out@;
    let mut k: u64 = 0;
    while k < n
        invariant
            k <= n,
            out@ == start + zeros(k as nat),
        decreases n - k,
    {
        out.push(0u8);
        assert(zeros((k + 1) as nat) =~= zeros(k as nat).push(0u8));
        k = k + 1;
    }
}

/// What the state of a process holds in every phase: its loader.
pub trait ProcessState {
    spec fn loader_view(&self) -> Loader;

    fn loader(&self) -> (r: &Loader)
        ensures
            *r == self.loader_view(),
    ;
}

/// A process being set up, in the phase `S`.
#[derive(Debug)]
pub struct Process<S: ProcessState> {
    pub state: S,
}

/// Objects are being loaded.
pub struct Loading {
    pub loader: Loader,
}

impl ProcessState for Loading {
    open spec fn loader_view(&self) -> Loader {
        self.loader
    }

    fn loader(&self) -> (r: &Loader) {
        &self.loader
    }
}

/// Thread-local storage is laid out.
pub struct TLSAllocated {
    pub loader: Loader,
    pub tls: TLS,
}

impl ProcessState for TLSAllocated {
    open spec fn loader_view(&self) -> Loader {
        self.loader
    }

    fn loader(&self) -> (r: &Loader) {
        &self.loader
    }
}

/// Relocations are applied.
pub struct Relocated {
    pub loader: Loader,
    pub tls: TLS,
}

impl ProcessState for Relocated {
    open spec fn loader_view(&self) -> Loader {
        self.loader
    }

    fn loader(&self) -> (r: &Loader) {
        &self.loader
    }
}

/// Thread-local storage holds its initial contents.
pub struct TLSInitialized {
    pub loader: Loader,
    pub tls: TLS,
}

impl ProcessState for TLSInitialized {
    open spec fn loader_view(&self) -> Loader {
        self.loader
    }

    fn loader(&self) -> (r: &Loader) {
        &self.loader
    }
}

/// Segments have their final protections.
pub struct Protected {
    pub loader: Loader,
    pub tls: TLS,
}

impl ProcessState for Protected {
    open spec fn loader_view(&self) -> Loader {
        self.loader
    }

    fn loader(&self) -> (r: &Loader) {
        &self.loader
    }
}

/// Whether `tls` is the storage laid out for `objects` in a block at
/// `block_addr`'s place: the offsets by base, the zeroed storage followed by
/// the thread control block, and the thread pointer between them.
pub open spec fn tls_laid_out(tls: TLS, objects: Seq<Object>) -> bool {
    let storage = storage_upto(objects, objects.len() as int);
    &&& tls.offsets@ == offsets_upto(objects, objects.len() as int)
    &&& tls.tcb_addr >= storage
    &&& tls.block@.len() == storage + TCBHEAD_SIZE
    &&& tls.block@.subrange(storage, tls.block@.len() as int) == tcbhead(tls.tcb_addr)
    &&& tls.block@.subrange(0, storage) == zeros(storage as nat)
}

/// How an object was obtained: it was loaded already, or it was loaded now.
#[derive(Debug, Clone, Copy, PartialEq, Eq, Structural)]
pub enum GetResult {
    Cached(usize),
    Fresh(usize),
}

impl GetResult {
    /// The index of an object that was loaded now.
    pub fn fresh(self) -> (r: Option<usize>)
        ensures
            r == match self {
                GetResult::Fresh(i) => Some(i),
                GetResult::Cached(_) => None,
            },
    {
        if let GetResult::Fresh(index) = self {
            Some(index)
        } else {
            None
        }
    }

    /// The index of the object.
    pub fn index(self) -> (r: usize)
        ensures
            r == match self {
                GetResult::Fresh(i) => i,
                GetResult::Cached(i) => i,
            },
    {
        match self {
            GetResult::Fresh(i) => i,
            GetResult::Cached(i) => i,
        }
    }
}

impl<S: ProcessState> Process<S> {
    /// Where the symbol `wanted` is defined: the first defined symbol with its
    /// name among the objects in load order, passing over its own object when
    /// `ignore_self` is set.
    pub fn lookup_symbol(&self, wanted: ObjectSym, ignore_self: bool) -> (r: ResolvedSym)
        requires
            self.state.loader_view().wf(),
            wanted.obj < self.state.loader_view().objects@.len(),
            wanted.sym < self.state.loader_view().objects@[wanted.obj as int].syms@.len(),
        ensures
            r == lookup(
                self.state.loader_view().objects@,
                self.state.loader_view().objects@[wanted.obj as int].syms@[wanted.sym as int].name.bytes(),
                if ignore_self { Some(wanted.obj) } else { None },
            ),
    {
        self.state.loader().lookup_symbol(wanted, ignore_self)
    }
}

impl Process<Loading> {
    /// Adds an object, whose file `file` was read from the bytes `image` at
    /// the canonical path `path` and whose segments were mapped at `base`;
    /// returns its index. On failure nothing changes.
    pub fn load_object(&mut self, path: Vec<u8>, image: Arc<Vec<u8>>, file: ElfFile, base: u64) -> (r: Result<
        usize,
        LoadError,
    >)
        requires
            old(self).state.loader.wf(),
            !old(self).state.loader.has_path(path@),
        ensures
            load_outcome(old(self).state.loader, final(self).state.loader, path, image, file, base, r),
    {
        self.state.loader.load_object(path, image, file, base)
    }

    /// A process with no object yet.
    pub fn new() -> (r: Self)
        ensures
            r.state.loader.wf(),
            r.state.loader.objects@.len() == 0,
            bytes_of(r.state.loader.search_path@) == seq![default_dir()],
    {
        Process { state: Loading { loader: Loader::new() } }
    }

    /// The storage that the objects' thread-local blocks need together; `None`
    /// where it does not fit in 64 bits.
    pub fn tls_storage_space(&self) -> (r: Option<u64>)
        ensures
            r matches Some(n) ==> n == storage_upto(self.state.loader.objects@, self.state.loader.objects@.len() as int),
            r is None ==> storage_upto(self.state.loader.objects@, self.state.loader.objects@.len() as int) > u64::MAX,
    {
        let objects = &self.state.loader.objects;
        let mut storage: u64 = 0;
        let mut i: usize = 0;
        while i < objects.len()
            invariant
                objects@ == self.state.loader.objects@,
                i <= objects@.len(),
                storage == storage_upto(objects@, i as int),
            decreases objects@.len() - i,
        {
            let needed: u64 = match objects[i].file.segment_of_type(PT_TLS) {
                Some(ph) => ph.memsz,
                None => 0,
            };
            assert(needed == tls_memsz(objects@[i as int]));
            assert(storage_upto(objects@, i as int + 1) == storage + needed);
            if needed > u64::MAX - storage {
                proof {
                    lemma_storage_grows(objects@, i as int + 1, objects@.len() as int);
                    assert(storage_upto(objects@, objects@.len() as int) > u64::MAX);
                }
                return None;
            }
            storage = storage + needed;
            i = i + 1;
        }
        Some(storage)
    }

    /// Lays out thread-local storage in `block`, an empty buffer that lies at
    /// the address `block_addr` and was made large enough to hold the
    /// storage and the thread control block without moving: gives each
    /// object that has a thread-local template a slot below the thread
    /// pointer, zeroes the storage, and writes the thread control block.
    pub fn allocate_tls(self, block: Vec<u8>, block_addr: u64) -> (r: Process<TLSAllocated>)
        requires
            self.state.loader.wf(),
            block@.len() == 0,
            block_addr + storage_upto(self.state.loader.objects@, self.state.loader.objects@.len() as int)
                + TCBHEAD_SIZE <= u64::MAX,
        ensures
            r.state.loader == self.state.loader,
            tls_laid_out(r.state.tls, r.state.loader.objects@),
            r.state.tls.tcb_addr == block_addr + storage_upto(
                self.state.loader.objects@,
                self.state.loader.objects@.len() as int,
            ),
            r.state.tls.block@.subrange(0, r.state.tls.tcb_addr - block_addr) == zeros(
                (r.state.tls.tcb_addr - block_addr) as nat,
            ),
    {
        let mut block = block;
        let loader = self.state.loader;
        let ghost objs = loader.objects@;
        let mut offsets: HashMap<u64, u64> = HashMap::new();
        let mut storage: u64 = 0;
        let mut i: usize = 0;
        proof {
            lemma_storage_grows(objs, 0, objs.len() as int);
        }
        while i < loader.objects.len()
            invariant
                objs == loader.objects@,
                i <= objs.len(),
                storage == storage_upto(objs, i as int),
                storage_upto(objs, i as int) <= storage_upto(objs, objs.len() as int),
                block_addr + storage_upto(objs, objs.len() as int) + TCBHEAD_SIZE <= u64::MAX,
                offsets@ == offsets_upto(objs, i as int),
            decreases objs.len() - i,
        {
            let obj = &loader.objects[i];
            let needed: u64 = match obj.file.segment_of_type(PT_TLS) {
                Some(ph) => ph.memsz,
                None => 0,
            };
            proof {
                lemma_storage_grows(objs, i as int + 1, objs.len() as int);
            }
            if needed > 0 {
                offsets.insert(obj.base, storage + needed);
            }
            storage = storage + needed;
            i = i + 1;
        }
        let tcb_addr = block_addr + storage;
        push_zeros(&mut block, storage);
        push_le64(&mut block, tcb_addr);
        push_le64(&mut block, 0);
        push_le64(&mut block, tcb_addr);
        push_zeros(&mut block, 16);
        push_le64(&mut block, STACK_GUARD);
        push_le64(&mut block, POINTER_GUARD);
        push_zeros(&mut block, TCBHEAD_SIZE - 56);
        proof {
            assert(le_bytes(0) =~= zeros(8)) by {
                assert forall|k: int| 0 <= k < 8 implies le_bytes(0)[k] == 0u8 by {
                    let s = (8 * k) as u64;
                    assert((0u64 >> s) & 0xff == 0) by (bit_vector);
                }
            }
            assert(block@.subrange(storage as int, block@.len() as int) =~= tcbhead(tcb_addr));
            assert(block@.subrange(0, storage as int) =~= zeros(storage as nat));
        }
        let tls = TLS { offsets, block, tcb_addr };
        Process { state: TLSAllocated { loader, tls } }
    }
}

/// The storage of a prefix grows with the prefix.
pub proof fn lemma_storage_grows(objects: Seq<Object>, i: int, j: int)
    requires
        0 <= i <= j,
    ensures
        storage_upto(objects, i) <= storage_upto(objects, j),
    decreases j - i,
{
    if i < j {
        lemma_storage_grows(objects, i, j - 1);
        assert(tls_memsz(objects[j - 1]) >= 0);
    }
}

/// Why relocations could not be applied.
#[derive(Debug, Clone)]
pub enum RelocationError {
    /// An object, given by its index, holds a relocation of a type that the
    /// loader does not apply.
    UnimplementedRelocation(usize, u32),
    /// A relocation names a symbol that its object does not have.
    UnknownSymbolNumber(u32),
    /// No loaded object defines a symbol that is not weak: the symbol, as
    /// its object's index and its index there.
    UndefinedSymbol(ObjectSym),
    /// A thread-local relocation refers to an object, given by its index,
    /// that has no thread-local storage.
    NoThreadLocalStorage(usize),
}

/// A write that a relocation asks for.
#[derive(Debug, Clone, Copy, PartialEq, Eq, Structural)]
pub enum Patch {
    /// Store the 64-bit word `value` at `addr`.
    Word { addr: u64, value: u64 },
    /// Copy `len` bytes from `src` to `addr`.
    Copy { addr: u64, src: u64, len: u64 },
    /// Call the function at `resolver`, which takes nothing and returns an
    /// address, and store what it returns at `addr`.
    Resolve { addr: u64, resolver: u64 },
}

/// Where a resolved symbol was loaded; zero for an undefined one.
pub open spec fn found_value(objects: Seq<Object>, found: ResolvedSym) -> u64 {
    match found {
        ResolvedSym::Defined(os) => objects[os.obj as int].base.wrapping_add(
            objects[os.obj as int].syms@[os.sym as int].sym.value,
        ),
        ResolvedSym::Undefined => 0,
    }
}

/// The size of a resolved symbol; zero for an undefined one.
pub open spec fn found_size(objects: Seq<Object>, found: ResolvedSym) -> u64 {
    match found {
        ResolvedSym::Defined(os) => objects[os.obj as int].syms@[os.sym as int].sym.size,
        ResolvedSym::Undefined => 0,
    }
}

/// The symbol that the relocation `rel` of the object `o` refers to: none
/// for symbol zero; else the first definition of its name in load order,
/// passing over `o` itself for a copy relocation. Undefined is accepted for
/// a weak symbol only.
pub open spec fn resolve(objects: Seq<Object>, o: int, rel: Rela) -> Result<ResolvedSym, RelocationError> {
    if rel.sym == 0 {
        Ok(ResolvedSym::Undefined)
    } else if rel.sym >= objects[o].syms@.len() {
        Err(RelocationError::UnknownSymbolNumber(rel.sym))
    } else {
        let wanted = objects[o].syms@[rel.sym as int];
        let found = lookup(
            objects,
            wanted.name.bytes(),
            if rel.typ == R_X86_64_COPY { Some(o as usize) } else { None },
        );
        if found is Undefined && wanted.sym.bind != STB_WEAK {
            Err(RelocationError::UndefinedSymbol(ObjectSym { obj: o as usize, sym: rel.sym as usize }))
        } else {
            Ok(found)
        }
    }
}

/// What the relocation `rel` of the object `o` writes, given the offsets
/// of the thread-local blocks by base.
pub open spec fn relocation(objects: Seq<Object>, offsets: Map<u64, u64>, o: int, rel: Rela) -> Result<
    Option<Patch>,
    RelocationError,
> {
    match resolve(objects, o, rel) {
        Err(e) => Err(e),
        Ok(found) => {
            let base = objects[o].base;
            let addr = base.wrapping_add(rel.offset);
            if rel.typ == R_X86_64_64 {
                Ok(Some(Patch::Word { addr, value: found_value(objects, found).wrapping_add(rel.addend) }))
            } else if rel.typ == R_X86_64_RELATIVE {
                Ok(Some(Patch::Word { addr, value: base.wrapping_add(rel.addend) }))
            } else if rel.typ == R_X86_64_IRELATIVE {
                Ok(Some(Patch::Resolve { addr, resolver: base.wrapping_add(rel.addend) }))
            } else if rel.typ == R_X86_64_COPY {
                Ok(Some(Patch::Copy { addr, src: found_value(objects, found), len: found_size(objects, found) }))
            } else if rel.typ == R_X86_64_GLOB_DAT || rel.typ == R_X86_64_JUMP_SLOT {
                Ok(Some(Patch::Word { addr, value: found_value(objects, found) }))
            } else if rel.typ == R_X86_64_TPOFF64 {
                match found {
                    ResolvedSym::Defined(os) => {
                        let def = objects[os.obj as int];
                        if offsets.contains_key(def.base) {
                            Ok(Some(Patch::Word {
                                addr,
                                value: def.syms@[os.sym as int].sym.value.wrapping_add(rel.addend).wrapping_sub(
                                    offsets[def.base],
                                ),
                            }))
                        } else {
                            Err(RelocationError::NoThreadLocalStorage(os.obj))
                        }
                    },
                    ResolvedSym::Undefined => Ok(None),
                }
            } else if rel.typ == R_X86_64_DTPMOD64 {
                Ok(None)
            } else {
                Err(RelocationError::UnimplementedRelocation(o as usize, rel.typ))
            }
        },
    }
}

/// The relocations of the objects `lo` to `hi - 1`, as (object,
/// relocation) pairs: the objects from the last to the first, the
/// relocations of each in order.
pub open spec fn rel_order(objects: Seq<Object>, lo: int, hi: int) -> Seq<(int, int)>
    decreases hi - lo,
{
    if lo >= hi {
        Seq::empty()
    } else {
        rel_order(objects, lo + 1, hi) + Seq::new(objects[lo].rels@.len(), |j: int| (lo, j))
    }
}

/// The writes that the relocations `order` ask for, in order, or the error
/// of the first that fails.
pub open spec fn run_relocations(objects: Seq<Object>, offsets: Map<u64, u64>, order: Seq<(int, int)>) -> Result<
    Seq<Patch>,
    RelocationError,
>
    decreases order.len(),
{
    if order.len() == 0 {
        Ok(Seq::empty())
    } else {
        match run_relocations(objects, offsets, order.drop_last()) {
            Err(e) => Err(e),
            Ok(patches) => {
                let (o, j) = order.last();
                match relocation(objects, offsets, o, objects[o].rels@[j]) {
                    Err(e) => Err(e),
                    Ok(None) => Ok(patches),
                    Ok(Some(p)) => Ok(patches.push(p)),
                }
            },
        }
    }
}

/// All the relocations of a process, in the order in which they are applied.
pub open spec fn all_relocations(objects: Seq<Object>) -> Seq<(int, int)> {
    rel_order(objects, 0, objects.len() as int)
}

impl Process<TLSAllocated> {
    /// What the relocation `rel` of the object `obj` writes.
    pub fn apply_relocation(&self, obj: usize, rel: Rela) -> (r: Result<Option<Patch>, RelocationError>)
        requires
            self.state.loader.wf(),
            obj < self.state.loader.objects@.len(),
        ensures
            r == relocation(self.state.loader.objects@, self.state.tls.offsets@, obj as int, rel),
    {
        let loader = &self.state.loader;
        let object = &loader.objects[obj];
        let found = if rel.sym == 0 {
            ResolvedSym::Undefined
        } else if rel.sym as usize >= object.syms.len() {
            return Err(RelocationError::UnknownSymbolNumber(rel.sym));
        } else {
            let wanted = ObjectSym { obj, sym: rel.sym as usize };
            let found = loader.lookup_symbol(wanted, rel.typ == R_X86_64_COPY);
            match found {
                ResolvedSym::Undefined => {
                    if object.syms[rel.sym as usize].sym.bind != STB_WEAK {
                        return Err(RelocationError::UndefinedSymbol(wanted));
                    }
                },
                ResolvedSym::Defined(_) => {},
            }
            found
        };
        let base = object.base;
        let addr = base.wrapping_add(rel.offset);
        let (value, size): (u64, u64) = match found {
            ResolvedSym::Defined(os) => {
                let def = &loader.objects[os.obj];
                let sym = def.syms[os.sym].sym;
                (def.base.wrapping_add(sym.value), sym.size)
            },
            ResolvedSym::Undefined => (0, 0),
        };
        if rel.typ == R_X86_64_64 {
            Ok(Some(Patch::Word { addr, value: value.wrapping_add(rel.addend) }))
        } else if rel.typ == R_X86_64_RELATIVE {
            Ok(Some(Patch::Word { addr, value: base.wrapping_add(rel.addend) }))
        } else if rel.typ == R_X86_64_IRELATIVE {
            Ok(Some(Patch::Resolve { addr, resolver: base.wrapping_add(rel.addend) }))
        } else if rel.typ == R_X86_64_COPY {
            Ok(Some(Patch::Copy { addr, src: value, len: size }))
        } else if rel.typ == R_X86_64_GLOB_DAT || rel.typ == R_X86_64_JUMP_SLOT {
            Ok(Some(Patch::Word { addr, value }))
        } else if rel.typ == R_X86_64_TPOFF64 {
            match found {
                ResolvedSym::Defined(os) => {
                    let def = &loader.objects[os.obj];
                    match self.state.tls.offsets.get(&def.base) {
                        Some(offset) => {
                            let sym_value = def.syms[os.sym].sym.value;
                            Ok(Some(Patch::Word {
                                addr,
                                value: sym_value.wrapping_add(rel.addend).wrapping_sub(*offset),
                            }))
                        },
                        None => Err(RelocationError::NoThreadLocalStorage(os.obj)),
                    }
                },
                ResolvedSym::Undefined => Ok(None),
            }
        } else if rel.typ == R_X86_64_DTPMOD64 {
            Ok(None)
        } else {
            Err(RelocationError::UnimplementedRelocation(obj, rel.typ))
        }
    }

    /// Works out the writes of every relocation of every object, the objects
    /// taken from the last loaded to the first and the relocations of each in
    /// order; stops at the first that fails. The writes are to be made by the
    /// caller, in order, before the process goes on.
    pub fn apply_relocations(self) -> (r: Result<(Process<Relocated>, Vec<Patch>), RelocationError>)
        requires
            self.state.loader.wf(),
        ensures
            match r {
                Ok((p, patches)) => {
                    &&& p.state.loader == self.state.loader
                    &&& p.state.tls == self.state.tls
                    &&& run_relocations(
                        self.state.loader.objects@,
                        self.state.tls.offsets@,
                        all_relocations(self.state.loader.objects@),
                    ) == Ok::<Seq<Patch>, RelocationError>(patches@)
                },
                Err(e) => run_relocations(
                    self.state.loader.objects@,
                    self.state.tls.offsets@,
                    all_relocations(self.state.loader.objects@),
                ) == Err::<Seq<Patch>, RelocationError>(e),
            },
    {
        let ghost objects = self.state.loader.objects@;
        let ghost offsets = self.state.tls.offsets@;
        let ghost len = objects.len() as int;
        let mut patches: Vec<Patch> = Vec::new();
        let mut o: usize = self.state.loader.objects.len();
        while o > 0
            invariant
                self.state.loader.wf(),
                objects == self.state.loader.objects@,
                offsets == self.state.tls.offsets@,
                len == objects.len(),
                o <= len,
                run_relocations(objects, offsets, rel_order(objects, o as int, len)) == Ok::<
                    Seq<Patch>,
                    RelocationError,
                >(patches@),
            decreases o,
        {
            let i = o - 1;
            let ghost done = rel_order(objects, o as int, len);
            let count = self.state.loader.objects[i].rels.len();
            let mut j: usize = 0;
            assert(done + Seq::new(0, |k: int| (i as int, k)) =~= done);
            while j < count
                invariant
                    self.state.loader.wf(),
                    objects == self.state.loader.objects@,
                    offsets == self.state.tls.offsets@,
                    len == objects.len(),
                    i < len,
                    o == i + 1,
                    done == rel_order(objects, o as int, len),
                    count == objects[i as int].rels@.len(),
                    j <= count,
                    run_relocations(objects, offsets, done + Seq::new(j as nat, |k: int| (i as int, k))) == Ok::<
                        Seq<Patch>,
                        RelocationError,
                    >(patches@),
                decreases count - j,
            {
                let rel = self.state.loader.objects[i].rels[j];
                let ghost next = done + Seq::new((j + 1) as nat, |k: int| (i as int, k));
                assert(next.drop_last() =~= done + Seq::new(j as nat, |k: int| (i as int, k)));
                assert(next.last() == (i as int, j as int));
                match self.apply_relocation(i, rel) {
                    Err(e) => {
                        proof {
                            assert(run_relocations(objects, offsets, next) == Err::<Seq<Patch>, RelocationError>(e));
                            lemma_rel_order_prefix(objects, 0, i as int, len);
                            assert(rel_order(objects, i as int, len) =~= done + Seq::new(
                                count as nat,
                                |k: int| (i as int, k),
                            ));
                            let all = all_relocations(objects);
                            assert(all.subrange(0, next.len() as int) =~= next);
                            lemma_run_prefix_err(objects, offsets, all, next.len() as int);
                        }
                        return Err(e);
                    },
                    Ok(None) => {},
                    Ok(Some(p)) => {
                        patches.push(p);
                    },
                }
                j = j + 1;
            }
            assert(rel_order(objects, i as int, len) =~= done + Seq::new(count as nat, |k: int| (i as int, k)));
            o = i;
        }
        let Process { state: TLSAllocated { loader, tls } } = self;
        Ok((Process { state: Relocated { loader, tls } }, patches))
    }
}

/// The relocations of the objects from `b` on come first among those from
/// `a` on, for `a <= b`.
pub proof fn lemma_rel_order_prefix(objects: Seq<Object>, a: int, b: int, hi: int)
    requires
        0 <= a <= b <= hi,
    ensures
        rel_order(objects, b, hi).len() <= rel_order(objects, a, hi).len(),
        rel_order(objects, a, hi).subrange(0, rel_order(objects, b, hi).len() as int) == rel_order(objects, b, hi),
    decreases b - a,
{
    if a < b {
        lemma_rel_order_prefix(objects, a + 1, b, hi);
        let longer = rel_order(objects, a, hi);
        let mid = rel_order(objects, a + 1, hi);
        let short = rel_order(objects, b, hi);
        assert(longer.subrange(0, mid.len() as int) =~= mid);
        assert(longer.subrange(0, short.len() as int) =~= mid.subrange(0, short.len() as int));
    }
}

/// Once a prefix of the relocations fails, all of them fail with the same
/// error.
pub proof fn lemma_run_prefix_err(objects: Seq<Object>, offsets: Map<u64, u64>, order: Seq<(int, int)>, n: int)
    requires
        0 <= n <= order.len(),
        run_relocations(objects, offsets, order.subrange(0, n)) is Err,
    ensures
        run_relocations(objects, offsets, order) == run_relocations(objects, offsets, order.subrange(0, n)),
    decreases order.len() - n,
{
    if n < order.len() {
        let longer = order.subrange(0, n + 1);
        assert(longer.drop_last() =~= order.subrange(0, n));
        lemma_run_prefix_err(objects, offsets, order, n + 1);
    } else {
        assert(order.subrange(0, n) =~= order);
    }
}

/// Where the relocations all succeed, each of them does, and each write it
/// asks for is among the writes.
pub proof fn lemma_patch_listed(objects: Seq<Object>, offsets: Map<u64, u64>, order: Seq<(int, int)>, k: int)
    requires
        run_relocations(objects, offsets, order) is Ok,
        0 <= k < order.len(),
    ensures
        relocation(objects, offsets, order[k].0, objects[order[k].0].rels@[order[k].1]) is Ok,
        relocation(objects, offsets, order[k].0, objects[order[k].0].rels@[order[k].1]) matches Ok(Some(p))
            ==> run_relocations(objects, offsets, order)->Ok_0.contains(p),
    decreases order.len(),
{
    let prev = order.drop_last();
    if k < order.len() - 1 {
        lemma_patch_listed(objects, offsets, prev, k);
        assert(prev[k] == order[k]);
        let before = run_relocations(objects, offsets, prev)->Ok_0;
        let after = run_relocations(objects, offsets, order)->Ok_0;
        if let Ok(Some(p)) = relocation(objects, offsets, order[k].0, objects[order[k].0].rels@[order[k].1]) {
            let m = choose|m: int| 0 <= m < before.len() && before[m] == p;
            assert(after[m] == p);
        }
    } else {
        let after = run_relocations(objects, offsets, order)->Ok_0;
        if let Ok(Some(p)) = relocation(objects, offsets, order[k].0, objects[order[k].0].rels@[order[k].1]) {
            assert(after[after.len() - 1] == p);
        }
    }
}

/// Where relocation succeeds, each `R_X86_64_RELATIVE` record of an object
/// writes, at the object's base plus the record's offset, the object's base
/// plus the record's addend (modulo 2^64).
pub proof fn relative_relocation_written(objects: Seq<Object>, offsets: Map<u64, u64>, k: int)
    requires
        run_relocations(objects, offsets, all_relocations(objects)) is Ok,
        0 <= k < all_relocations(objects).len(),
        objects[all_relocations(objects)[k].0].rels@[all_relocations(objects)[k].1].typ == R_X86_64_RELATIVE,
    ensures
        ({
            let (o, j) = all_relocations(objects)[k];
            let rel = objects[o].rels@[j];
            run_relocations(objects, offsets, all_relocations(objects))->Ok_0.contains(
                Patch::Word { addr: objects[o].base.wrapping_add(rel.offset), value: objects[o].base.wrapping_add(rel.addend) },
            )
        }),
{
    lemma_patch_listed(objects, offsets, all_relocations(objects), k);
}

/// Where relocation succeeds, each `R_X86_64_64` record whose symbol
/// resolves to the symbol `v` of the object `o2` writes, at its object's
/// base plus its offset, `o2`'s base plus the symbol's value plus the
/// record's addend (modulo 2^64).
pub proof fn absolute_relocation_written(objects: Seq<Object>, offsets: Map<u64, u64>, k: int, os: ObjectSym)
    requires
        run_relocations(objects, offsets, all_relocations(objects)) is Ok,
        0 <= k < all_relocations(objects).len(),
        objects[all_relocations(objects)[k].0].rels@[all_relocations(objects)[k].1].typ == R_X86_64_64,
        resolve(objects, all_relocations(objects)[k].0, objects[all_relocations(objects)[k].0].rels@[
            all_relocations(objects)[k].1
        ]) == Ok::<ResolvedSym, RelocationError>(ResolvedSym::Defined(os)),
    ensures
        ({
            let (o, j) = all_relocations(objects)[k];
            let rel = objects[o].rels@[j];
            let def = objects[os.obj as int];
            run_relocations(objects, offsets, all_relocations(objects))->Ok_0.contains(
                Patch::Word {
                    addr: objects[o].base.wrapping_add(rel.offset),
                    value: def.base.wrapping_add(def.syms@[os.sym as int].sym.value).wrapping_add(rel.addend),
                },
            )
        }),
{
    lemma_patch_listed(objects, offsets, all_relocations(objects), k);
}

/// `block` with `data` written from the index `at` on, where it fits.
pub open spec fn copy_into(block: Seq<u8>, at: int, data: Seq<u8>) -> Seq<u8> {
    if 0 <= at && at + data.len() <= block.len() {
        block.take(at) + data + block.skip(at + data.len())
    } else {
        block
    }
}

/// The thread-local block once the templates of the first `n` objects are
/// copied in: each object that has a thread-local template and a slot gets
/// its template at its slot, `offset` bytes below the end of the storage.
pub open spec fn tls_image(
    objects: Seq<Object>,
    offsets: Map<u64, u64>,
    storage: int,
    templates: Seq<Vec<u8>>,
    block: Seq<u8>,
    n: int,
) -> Seq<u8>
    decreases n,
{
    if n <= 0 {
        block
    } else {
        let prev = tls_image(objects, offsets, storage, templates, block, n - 1);
        let o = objects[n - 1];
        if first_of_type(o.file.program_headers@, PT_TLS, 0) is Some && offsets.contains_key(o.base)
            && offsets[o.base] <= storage {
            copy_into(prev, storage - offsets[o.base], templates[n - 1]@)
        } else {
            prev
        }
    }
}

/// Writes `data` into `block` from the index `at` on, where it fits.
fn copy_bytes(block: &mut Vec<u8>, at: u64, data: &Vec<u8>)
    ensures
        final(block)@ == copy_into(old(block)@, at as int, data@),
{
    if at > block.len() as u64 || data.len() > block.len() - at as usize {
        return;
    }
    let start = at as usize;
    let n: usize = block.len();
    let ghost prev = block@;
    let mut t: usize = 0;
    while t < data.len()
        invariant
            n == prev.len(),
            start == at,
            start + data@.len() <= prev.len(),
            t <= data@.len(),
            block@.len() == prev.len(),
            forall|x: int| 0 <= x < block@.len() ==> #[trigger] block@[x] == if start <= x < start + t {
                data@[x - start]
            } else {
                prev[x]
            },
        decreases data@.len() - t,
    {
        block.set(start + t, data[t]);
        t = t + 1;
    }
    assert(block@ =~= copy_into(prev, at as int, data@));
}

/// The protection of a segment with the flags `flags`: read, write and
/// execute for the flags `PF_R`, `PF_W` and `PF_X`, as the bits 1, 2 and 4.
pub open spec fn protection_of(flags: u32) -> u32 {
    (if flags & PF_R != 0 { 1u32 } else { 0u32 }) | (if flags & PF_W != 0 { 2u32 } else { 0u32 }) | (if flags
        & PF_X != 0 {
        4u32
    } else {
        0u32
    })
}

/// A protection to apply: `len` bytes from `addr` get the protection bits
/// `prot` (1 read, 2 write, 4 execute).
#[derive(Debug, Clone, Copy, PartialEq, Eq, Structural)]
pub struct Protection {
    pub addr: u64,
    pub len: u64,
    pub prot: u32,
}

/// The protection of the segment `seg` of an object placed at `base`.
pub open spec fn protection_for(base: u64, seg: Segment) -> Protection {
    Protection {
        addr: (base + seg.vaddr_range.start) as u64,
        len: seg.map_len,
        prot: protection_of(seg.flags),
    }
}

/// The protections of every segment of the first `n` objects, object by
/// object and segment by segment.
pub open spec fn protections_upto(objects: Seq<Object>, n: int) -> Seq<Protection>
    decreases n,
{
    if n <= 0 {
        Seq::empty()
    } else {
        let o = objects[n - 1];
        protections_upto(objects, n - 1) + Seq::new(
            o.segments@.len(),
            |j: int| protection_for(o.base, o.segments@[j]),
        )
    }
}

/// The protection bits of a segment with the flags `flags`.
pub fn segment_protection(flags: u32) -> (r: u32)
    ensures
        r == protection_of(flags),
{
    (if flags & PF_R != 0 { 1u32 } else { 0u32 }) | (if flags & PF_W != 0 { 2u32 } else { 0u32 }) | (if flags
        & PF_X != 0 {
        4u32
    } else {
        0u32
    })
}

impl Process<Relocated> {
    /// Copies the thread-local template of each object into its slot;
    /// `templates` holds, for each object, the bytes of its template as the
    /// file size of its thread-local segment gives them.
    pub fn initialize_tls(self, templates: &Vec<Vec<u8>>) -> (r: Process<TLSInitialized>)
        requires
            tls_laid_out(self.state.tls, self.state.loader.objects@),
            templates@.len() == self.state.loader.objects@.len(),
        ensures
            r.state.loader == self.state.loader,
            r.state.tls.offsets == self.state.tls.offsets,
            r.state.tls.tcb_addr == self.state.tls.tcb_addr,
            r.state.tls.block@ == tls_image(
                self.state.loader.objects@,
                self.state.tls.offsets@,
                self.state.tls.block@.len() - TCBHEAD_SIZE,
                templates@,
                self.state.tls.block@,
                self.state.loader.objects@.len() as int,
            ),
    {
        let Process { state: Relocated { loader, tls } } = self;
        let TLS { offsets, block, tcb_addr } = tls;
        let mut block = block;
        let ghost objects = loader.objects@;
        let ghost first = block@;
        proof {
            lemma_storage_grows(objects, 0, objects.len() as int);
        }
        assert(block@.len() >= TCBHEAD_SIZE);
        let storage: u64 = (block.len() - TCBHEAD_SIZE as usize) as u64;
        let mut i: usize = 0;
        while i < loader.objects.len()
            invariant
                objects == loader.objects@,
                templates@.len() == objects.len(),
                storage == first.len() - TCBHEAD_SIZE,
                i <= objects.len(),
                block@ == tls_image(objects, offsets@, storage as int, templates@, first, i as int),
            decreases objects.len() - i,
        {
            let obj = &loader.objects[i];
            if obj.file.segment_of_type(PT_TLS).is_some() {
                match offsets.get(&obj.base) {
                    Some(offset) => {
                        if *offset <= storage {
                            copy_bytes(&mut block, storage - *offset, &templates[i]);
                        }
                    },
                    None => {},
                }
            }
            i = i + 1;
        }
        Process { state: TLSInitialized { loader, tls: TLS { offsets, block, tcb_addr } } }
    }
}

impl Process<TLSInitialized> {
    /// Works out the final protection of every segment of every object, in
    /// order; the caller applies them before the process goes on.
    pub fn adjust_protections(self) -> (r: (Process<Protected>, Vec<Protection>))
        requires
            self.state.loader.wf(),
        ensures
            r.0.state.loader == self.state.loader,
            r.0.state.tls == self.state.tls,
            r.1@ == protections_upto(self.state.loader.objects@, self.state.loader.objects@.len() as int),
    {
        let mut prots: Vec<Protection> = Vec::new();
        let objects = &self.state.loader.objects;
        let mut i: usize = 0;
        while i < objects.len()
            invariant
                objects@ == self.state.loader.objects@,
                self.state.loader.wf(),
                i <= objects@.len(),
                prots@ == protections_upto(objects@, i as int),
            decreases objects@.len() - i,
        {
            let obj = &objects[i];
            assert(obj.wf());
            let ghost before = prots@;
            let mut j: usize = 0;
            while j < obj.segments.len()
                invariant
                    obj.wf(),
                    j <= obj.segments@.len(),
                    prots@ == before + Seq::new(j as nat, |k: int| protection_for(obj.base, obj.segments@[k])),
                decreases obj.segments@.len() - j,
            {
                let seg = &obj.segments[j];
                proof {
                    lemma_planned_fits(obj.file.program_headers@, obj.base, j as int);
                }
                prots.push(Protection {
                    addr: obj.base + seg.vaddr_range.start,
                    len: seg.map_len,
                    prot: segment_protection(seg.flags),
                });
                assert(prots@ =~= before + Seq::new((j + 1) as nat, |k: int| protection_for(obj.base, obj.segments@[k])));
                j = j + 1;
            }
            i = i + 1;
        }
        let Process { state: TLSInitialized { loader, tls } } = self;
        (Process { state: Protected { loader, tls } }, prots)
    }
}

impl Process<Protected> {
    /// The address of the entry point of the object `exec_index`.
    pub fn entry_point(&self, exec_index: usize) -> (r: u64)
        requires
            exec_index < self.state.loader.objects@.len(),
        ensures
            r == self.state.loader.objects@[exec_index as int].file.entry_point.wrapping_add(
                self.state.loader.objects@[exec_index as int].base,
            ),
    {
        let exec = &self.state.loader.objects[exec_index];
        exec.file.entry_point.wrapping_add(exec.base)
    }

    /// The thread pointer to install before the jump to the entry point.
    pub fn tcb_addr(&self) -> (r: u64)
        ensures
            r == self.state.tls.tcb_addr,
    {
        self.state.tls.tcb_addr
    }
}

/// Whether no two objects share a base.
pub open spec fn distinct_bases(objects: Seq<Object>) -> bool {
    forall|i: int, j: int|
        0 <= i < objects.len() && 0 <= j < objects.len() && i != j ==> (#[trigger] objects[i]).base
            != (#[trigger] objects[j]).base
}

/// Each base that has a slot is the base of an earlier object that needs
/// storage.
proof fn lemma_offset_keys(objects: Seq<Object>, n: int, b: u64)
    requires
        0 <= n <= objects.len(),
        offsets_upto(objects, n).contains_key(b),
    ensures
        exists|j: int| 0 <= j < n && (#[trigger] objects[j]).base == b && tls_memsz(objects[j]) > 0,
    decreases n,
{
    if n > 0 {
        if tls_memsz(objects[n - 1]) > 0 && objects[n - 1].base == b {
        } else {
            lemma_offset_keys(objects, n - 1, b);
        }
    }
}

/// Where no two objects share a base, an object has a slot exactly when it
/// needs storage, and its slot lies at the storage of the objects up to it.
proof fn lemma_offsets(objects: Seq<Object>, n: int, k: int)
    requires
        distinct_bases(objects),
        0 <= k < n <= objects.len(),
    ensures
        offsets_upto(objects, n).contains_key(objects[k].base) <==> tls_memsz(objects[k]) > 0,
        tls_memsz(objects[k]) > 0 ==> offsets_upto(objects, n)[objects[k].base] == storage_upto(objects, k + 1) as u64,
    decreases n,
{
    if n - 1 == k {
        if tls_memsz(objects[k]) <= 0 && offsets_upto(objects, k).contains_key(objects[k].base) {
            lemma_offset_keys(objects, k, objects[k].base);
            let j = choose|j: int| 0 <= j < k && (#[trigger] objects[j]).base == objects[k].base && tls_memsz(objects[j]) > 0;
            assert(objects[j].base != objects[k].base);
        }
    } else {
        lemma_offsets(objects, n - 1, k);
        assert(objects[n - 1].base != objects[k].base);
    }
}

/// Whether the slot of the object `k` in `img` holds its template, then
/// zeros up to its size in memory.
pub open spec fn slot_filled(objects: Seq<Object>, templates: Seq<Vec<u8>>, storage: int, img: Seq<u8>, k: int) -> bool {
    match first_of_type(objects[k].file.program_headers@, PT_TLS, 0) {
        Some(ph) => {
            let at = storage - storage_upto(objects, k + 1);
            &&& forall|x: int| at <= x < at + ph.filesz ==> #[trigger] img[x] == templates[k]@[x - at]
            &&& forall|x: int| at + ph.filesz <= x < at + ph.memsz ==> #[trigger] img[x] == 0
        },
        None => true,
    }
}

/// Whether each object's template is no larger than its size in memory and
/// is handed over whole.
pub open spec fn templates_fit(objects: Seq<Object>, templates: Seq<Vec<u8>>) -> bool {
    &&& templates.len() == objects.len()
    &&& forall|k: int| 0 <= k < objects.len() ==> match first_of_type(
        (#[trigger] objects[k]).file.program_headers@,
        PT_TLS,
        0,
    ) {
        Some(ph) => ph.filesz <= ph.memsz && templates[k]@.len() == ph.filesz,
        None => true,
    }
}

proof fn lemma_image(objects: Seq<Object>, templates: Seq<Vec<u8>>, block: Seq<u8>, n: int)
    requires
        distinct_bases(objects),
        templates_fit(objects, templates),
        storage_upto(objects, objects.len() as int) <= u64::MAX,
        block.len() >= storage_upto(objects, objects.len() as int),
        block.subrange(0, storage_upto(objects, objects.len() as int)) == zeros(
            storage_upto(objects, objects.len() as int) as nat,
        ),
        0 <= n <= objects.len(),
    ensures
        ({
            let storage = storage_upto(objects, objects.len() as int);
            let img = tls_image(objects, offsets_upto(objects, objects.len() as int), storage, templates, block, n);
            &&& img.len() == block.len()
            &&& forall|x: int| 0 <= x < storage - storage_upto(objects, n) ==> #[trigger] img[x] == 0
            &&& forall|k: int| 0 <= k < n ==> #[trigger] slot_filled(objects, templates, storage, img, k)
        }),
    decreases n,
{
    let len = objects.len() as int;
    let storage = storage_upto(objects, len);
    let offsets = offsets_upto(objects, len);
    lemma_storage_grows(objects, 0, len);
    if n == 0 {
        assert forall|x: int| 0 <= x < storage - storage_upto(objects, 0) implies #[trigger] block[x] == 0 by {
            assert(block.subrange(0, storage)[x] == 0);
        }
    } else {
        let m = n - 1;
        lemma_image(objects, templates, block, m);
        lemma_storage_grows(objects, n, len);
        lemma_storage_grows(objects, m, n);
        let prev = tls_image(objects, offsets, storage, templates, block, m);
        let img = tls_image(objects, offsets, storage, templates, block, n);
        let o = objects[m];
        let cm = storage_upto(objects, m);
        let cn = storage_upto(objects, n);
        lemma_offsets(objects, len, m);
        assert(templates_fit(objects, templates));
        match first_of_type(o.file.program_headers@, PT_TLS, 0) {
            Some(ph) => {
                assert(tls_memsz(o) == ph.memsz);
                if ph.memsz > 0 {
                    let at = storage - cn;
                    let t = templates[m]@;
                    assert(objects[m] == o);
                    assert(t.len() == ph.filesz && ph.filesz <= ph.memsz);
                    assert(cn == cm + ph.memsz);
                    lemma_storage_grows(objects, 0, m);
                    assert(cn <= storage);
                    assert(offsets[o.base] == cn as u64);
                    assert(offsets[o.base] as int == cn);
                    assert(at + t.len() <= block.len());
                    assert(img == copy_into(prev, at, t));
                    assert forall|x: int| 0 <= x < img.len() implies #[trigger] img[x] == if at <= x < at + t.len() {
                        t[x - at]
                    } else {
                        prev[x]
                    } by {
                        if x < at {
                            assert(img[x] == prev.take(at)[x]);
                        } else if x < at + t.len() {
                        } else {
                            assert(img[x] == prev.skip(at + t.len())[x - at - t.len()]);
                        }
                    }
                    assert forall|k: int| 0 <= k < n implies #[trigger] slot_filled(objects, templates, storage, img, k) by {
                        if k < m {
                            assert(slot_filled(objects, templates, storage, prev, k));
                            lemma_storage_grows(objects, k + 1, m);
                            match first_of_type(objects[k].file.program_headers@, PT_TLS, 0) {
                                Some(phk) => {
                                    assert(tls_memsz(objects[k]) == phk.memsz);
                                    lemma_storage_grows(objects, k, k + 1);
                                    let atk = storage - storage_upto(objects, k + 1);
                                    assert(atk + phk.memsz <= storage - storage_upto(objects, k));
                                    lemma_storage_grows(objects, k + 1, m);
                                    lemma_storage_grows(objects, 0, k);
                                    assert(atk >= at + t.len());
                                    assert(atk + phk.memsz <= img.len());
                                    assert forall|x: int| atk <= x < atk + phk.memsz implies #[trigger] img[x] == prev[x] by {
                                    }
                                },
                                None => {},
                            }
                        }
                    }
                } else {
                    assert(!offsets.contains_key(o.base));
                    assert(img == prev);
                    assert forall|k: int| 0 <= k < n implies #[trigger] slot_filled(objects, templates, storage, img, k) by {
                        if k < m {
                            assert(slot_filled(objects, templates, storage, prev, k));
                        }
                    }
                }
            },
            None => {
                assert(img == prev);
                assert forall|k: int| 0 <= k < n implies #[trigger] slot_filled(objects, templates, storage, img, k) by {
                    if k < m {
                        assert(slot_filled(objects, templates, storage, prev, k));
                    }
                }
            },
        }
    }
}

/// Once thread-local storage is set up, the template of each object that
/// has one lies in the block at its slot, `offset` bytes below the thread
/// pointer, followed by zeros up to its size in memory; and its slot is at
/// the storage that it and the objects before it need. This holds where no
/// two objects share a base and each template is no larger than its size
/// in memory.
pub proof fn tls_templates_in_place(
    objects: Seq<Object>,
    tls: TLS,
    templates: Seq<Vec<u8>>,
    block: Seq<u8>,
    k: int,
)
    requires
        tls_laid_out(tls, objects),
        distinct_bases(objects),
        templates_fit(objects, templates),
        0 <= k < objects.len(),
        tls_memsz(objects[k]) > 0,
        block == tls_image(
            objects,
            tls.offsets@,
            tls.block@.len() - TCBHEAD_SIZE,
            templates,
            tls.block@,
            objects.len() as int,
        ),
    ensures
        tls.offsets@.contains_key(objects[k].base),
        tls.offsets@[objects[k].base] == storage_upto(objects, k + 1),
        ({
            let ph = first_of_type(objects[k].file.program_headers@, PT_TLS, 0)->0;
            let at = tls.block@.len() - TCBHEAD_SIZE - tls.offsets@[objects[k].base];
            &&& block.subrange(at, at + ph.filesz) == templates[k]@
            &&& forall|x: int| at + ph.filesz <= x < at + ph.memsz ==> #[trigger] block[x] == 0
        }),
{
    let len = objects.len() as int;
    lemma_storage_grows(objects, 0, len);
    lemma_storage_grows(objects, k + 1, len);
    lemma_storage_grows(objects, 0, k + 1);
    assert(storage_upto(objects, len) <= tls.tcb_addr);
    lemma_offsets(objects, len, k);
    assert(tls.offsets@[objects[k].base] as int == storage_upto(objects, k + 1));
    lemma_image(objects, templates, tls.block@, len);
    let storage = storage_upto(objects, len);
    let ph = first_of_type(objects[k].file.program_headers@, PT_TLS, 0)->0;
    let at = storage - storage_upto(objects, k + 1);
    assert(slot_filled(objects, templates, storage, block, k));
    assert(templates_fit(objects, templates));
    let o = objects[k];
    assert(templates[k]@.len() == ph.filesz && ph.filesz <= ph.memsz);
    lemma_storage_grows(objects, 0, k);
    assert(tls_memsz(o) == ph.memsz);
    assert(at + ph.filesz <= block.len());
    assert(block.subrange(at, at + ph.filesz) =~= templates[k]@);
}

} // verus!
