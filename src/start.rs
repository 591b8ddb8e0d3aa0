use vstd::prelude::*;

verus! {

/// Types of auxiliary vector entries.
#[derive(Debug, Clone, Copy, PartialEq, Eq, Structural)]
pub enum AuxType {
    /// End of vector
    Null,
    /// Entry should be ignored
    Ignore,
    /// File descriptor of program
    ExecFd,
    /// Program headers for program
    PHdr,
    /// Size of program header entry
    PhEnt,
    /// Number of program headers
    PhNum,
    /// System page size
    PageSz,
    /// Base address of interpreter
    Base,
    /// Flags
    Flags,
    /// Entry point of program
    Entry,
    /// Program is not ELF
    NotElf,
    /// Real uid
    Uid,
    /// Effective uid
    EUid,
    /// Real gid
    Gid,
    /// Effective gid
    EGid,
    /// String identifying CPU for optimizations
    Platform,
    /// Arch-dependent hints at CPU capabilities
    HwCap,
    /// Frequency at which times() increments
    ClkTck,
    /// Secure mode boolean
    Secure,
    /// String identifying real platform, may differ from Platform
    BasePlatform,
    /// Address of 16 random bytes
    Random,
    /// Extension of HwCap
    HwCap2,
    /// Filename of program
    ExecFn,
    /// Entry point of the system call page
    SysInfo,
    /// Address of the vDSO's ELF header
    SysInfoEHdr,
}

/// The number that stands for an entry type in the vector.
pub open spec fn aux_number(t: AuxType) -> u64 {
    match t {
        AuxType::Null => 0,
        AuxType::Ignore => 1,
        AuxType::ExecFd => 2,
        AuxType::PHdr => 3,
        AuxType::PhEnt => 4,
        AuxType::PhNum => 5,
        AuxType::PageSz => 6,
        AuxType::Base => 7,
        AuxType::Flags => 8,
        AuxType::Entry => 9,
        AuxType::NotElf => 10,
        AuxType::Uid => 11,
        AuxType::EUid => 12,
        AuxType::Gid => 13,
        AuxType::EGid => 14,
        AuxType::Platform => 15,
        AuxType::HwCap => 16,
        AuxType::ClkTck => 17,
        AuxType::Secure => 23,
        AuxType::BasePlatform => 24,
        AuxType::Random => 25,
        AuxType::HwCap2 => 26,
        AuxType::ExecFn => 31,
        AuxType::SysInfo => 32,
        AuxType::SysInfoEHdr => 33,
    }
}

impl AuxType {
    /// The number that stands for this type in the vector.
    pub fn number(self) -> (r: u64)
        ensures
            r == aux_number(self),
    {
        match self {
            AuxType::Null => 0,
            AuxType::Ignore => 1,
            AuxType::ExecFd => 2,
            AuxType::PHdr => 3,
            AuxType::PhEnt => 4,
            AuxType::PhNum => 5,
            AuxType::PageSz => 6,
            AuxType::Base => 7,
            AuxType::Flags => 8,
            AuxType::Entry => 9,
            AuxType::NotElf => 10,
            AuxType::Uid => 11,
            AuxType::EUid => 12,
            AuxType::Gid => 13,
            AuxType::EGid => 14,
            AuxType::Platform => 15,
            AuxType::HwCap => 16,
            AuxType::ClkTck => 17,
            AuxType::Secure => 23,
            AuxType::BasePlatform => 24,
            AuxType::Random => 25,
            AuxType::HwCap2 => 26,
            AuxType::ExecFn => 31,
            AuxType::SysInfo => 32,
            AuxType::SysInfoEHdr => 33,
        }
    }
}

/// The auxiliary vector types that are passed on, in order.
pub open spec fn known_types() -> Seq<AuxType> {
    seq![
        AuxType::ExecFd,
        AuxType::PHdr,
        AuxType::PhEnt,
        AuxType::PhNum,
        AuxType::PageSz,
        AuxType::Base,
        AuxType::Flags,
        AuxType::Entry,
        AuxType::NotElf,
        AuxType::Uid,
        AuxType::EUid,
        AuxType::Gid,
        AuxType::EGid,
        AuxType::Platform,
        AuxType::HwCap,
        AuxType::ClkTck,
        AuxType::Secure,
        AuxType::BasePlatform,
        AuxType::Random,
        AuxType::HwCap2,
        AuxType::ExecFn,
        AuxType::SysInfo,
        AuxType::SysInfoEHdr,
    ]
}

/// One entry of the auxiliary vector.
#[derive(Debug, Clone, Copy, PartialEq, Eq, Structural)]
pub struct Auxv {
    pub typ: AuxType,
    pub value: u64,
}

/// The entries for the types `types` whose values in `values` are nonzero,
/// in order.
pub open spec fn nonzero_entries(types: Seq<AuxType>, values: Seq<u64>) -> Seq<Auxv>
    decreases types.len(),
{
    if types.len() == 0 || values.len() == 0 {
        Seq::empty()
    } else {
        let rest = nonzero_entries(types.drop_last(), values.drop_last());
        if values.last() == 0 {
            rest
        } else {
            rest.push(Auxv { typ: types.last(), value: values.last() })
        }
    }
}

impl Auxv {
    /// The auxiliary vector types that are passed on, in order.
    pub fn known_types() -> (r: Vec<AuxType>)
        ensures
            r@ == known_types(),
    {
        let r = vec![
            AuxType::ExecFd,
            AuxType::PHdr,
            AuxType::PhEnt,
            AuxType::PhNum,
            AuxType::PageSz,
            AuxType::Base,
            AuxType::Flags,
            AuxType::Entry,
            AuxType::NotElf,
            AuxType::Uid,
            AuxType::EUid,
            AuxType::Gid,
            AuxType::EGid,
            AuxType::Platform,
            AuxType::HwCap,
            AuxType::ClkTck,
            AuxType::Secure,
            AuxType::BasePlatform,
            AuxType::Random,
            AuxType::HwCap2,
            AuxType::ExecFn,
            AuxType::SysInfo,
            AuxType::SysInfoEHdr,
        ];
        assert(r@ =~= known_types());
        r
    }

    /// The entries to pass on, given the host's value of each known type, in
    /// the order of `known_types`: those whose value is not zero.
    pub fn get_known(values: &Vec<u64>) -> (r: Vec<Auxv>)
        requires
            values@.len() == known_types().len(),
        ensures
            r@ == nonzero_entries(known_types(), values@),
    {
        let types = Auxv::known_types();
        let mut r: Vec<Auxv> = Vec::new();
        let mut i: usize = 0;
        while i < types.len()
            invariant
                types@ == known_types(),
                values@.len() == types@.len(),
                i <= types@.len(),
                r@ == nonzero_entries(types@.take(i as int), values@.take(i as int)),
            decreases types@.len() - i,
        {
            assert(types@.take(i + 1).drop_last() =~= types@.take(i as int));
            assert(values@.take(i + 1).drop_last() =~= values@.take(i as int));
            if values[i] != 0 {
                r.push(Auxv { typ: types[i], value: values[i] });
            }
            i = i + 1;
        }
        assert(types@.take(i as int) =~= types@);
        assert(values@.take(i as int) =~= values@);
        r
    }
}

/// What the loaded program is started with: the index of the executable,
/// the addresses of its argument and environment strings (each
/// NUL-terminated and kept alive by the caller), and its auxiliary vector.
pub struct StartOptions {
    pub exec_index: usize,
    pub args: Vec<u64>,
    pub env: Vec<u64>,
    pub auxv: Vec<Auxv>,
}

/// The words of the auxiliary vector entries, type then value.
pub open spec fn aux_words(auxv: Seq<Auxv>) -> Seq<u64>
    decreases auxv.len(),
{
    if auxv.len() == 0 {
        Seq::empty()
    } else {
        aux_words(auxv.drop_last()) + seq![aux_number(auxv.last().typ), auxv.last().value]
    }
}

/// The words of the initial stack before alignment: the argument count, the
/// argument pointers and a zero, the environment pointers and a zero, the
/// auxiliary vector and its terminating pair.
pub open spec fn stack_body(args: Seq<u64>, env: Seq<u64>, auxv: Seq<Auxv>) -> Seq<u64> {
    seq![args.len() as u64] + args + seq![0u64] + env + seq![0u64] + aux_words(auxv) + seq![0u64, 0u64]
}

/// The initial stack: its body, and a zero word where that makes the count
/// of words even.
pub open spec fn initial_stack(args: Seq<u64>, env: Seq<u64>, auxv: Seq<Auxv>) -> Seq<u64> {
    let body = stack_body(args, env, auxv);
    if body.len() % 2 == 1 {
        body.push(0u64)
    } else {
        body
    }
}

/// Appends each word of `words` to `stack`.
fn push_words(stack: &mut Vec<u64>, words: &Vec<u64>)
    ensures
        final(stack)@ == old(stack)@ + words@,
{
    let ghost start = stack@;
    let mut i: usize = 0;
    while i < words.len()
        invariant
            i <= words@.len(),
            stack@ == start + words@.take(i as int),
        decreases words@.len() - i,
    {
        stack.push(words[i]);
        assert(words@.take(i + 1) =~= words@.take(i as int).push(words@[i as int]));
        i = i + 1;
    }
    assert(words@.take(i as int) =~= words@);
}

/// The words of the initial stack of the loaded program, from the lowest
/// address up.
pub fn build_stack(opts: &StartOptions) -> (r: Vec<u64>)
    requires
        opts.args@.len() + opts.env@.len() + 2 * opts.auxv@.len() + 6 <= usize::MAX,
    ensures
        r@ == initial_stack(opts.args@, opts.env@, opts.auxv@),
        r@.len() % 2 == 0,
        r@[0] == opts.args@.len(),
        r@.subrange(1, 1 + opts.args@.len() as int) == opts.args@,
        r@[1 + opts.args@.len() as int] == 0,
        r@.subrange(2 + opts.args@.len() as int, 2 + opts.args@.len() as int + opts.env@.len() as int) == opts.env@,
        r@[2 + opts.args@.len() as int + opts.env@.len() as int] == 0,
{
    let mut stack: Vec<u64> = Vec::new();
    stack.push(opts.args.len() as u64);
    push_words(&mut stack, &opts.args);
    stack.push(0);
    push_words(&mut stack, &opts.env);
    stack.push(0);
    let ghost before_aux = stack@;
    let mut i: usize = 0;
    while i < opts.auxv.len()
        invariant
            i <= opts.auxv@.len(),
            stack@ == before_aux + aux_words(opts.auxv@.take(i as int)),
        decreases opts.auxv@.len() - i,
    {
        let entry = opts.auxv[i];
        stack.push(entry.typ.number());
        stack.push(entry.value);
        assert(opts.auxv@.take(i + 1).drop_last() =~= opts.auxv@.take(i as int));
        assert(stack@ =~= before_aux + aux_words(opts.auxv@.take(i + 1)));
        i = i + 1;
    }
    assert(opts.auxv@.take(i as int) =~= opts.auxv@);
    stack.push(AuxType::Null.number());
    stack.push(0);
    assert(stack@ =~= stack_body(opts.args@, opts.env@, opts.auxv@));
    if stack.len() % 2 == 1 {
        stack.push(0);
    }
    assert(stack@.subrange(1, 1 + opts.args@.len() as int) =~= opts.args@);
    assert(stack@.subrange(2 + opts.args@.len() as int, 2 + opts.args@.len() as int + opts.env@.len() as int) =~= opts.env@);
    stack
}

} // verus!
