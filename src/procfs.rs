use std::ops::Range;
use vstd::prelude::*;

verus! {

/// Classes of bytes that fields of a mapping line are made of.
#[derive(Clone, Copy, PartialEq, Eq, Structural)]
pub enum Class {
    /// A space or a tab.
    Blank,
    /// A lower-case hexadecimal digit.
    LowerHex,
    /// A hexadecimal digit of either case.
    AnyHex,
    /// A decimal digit.
    Digit,
    /// A byte of a path: anything but `]` and ASCII whitespace.
    PathByte,
}

/// Whether `c` is ASCII whitespace.
pub open spec fn is_space(c: u8) -> bool {
    (9 <= c <= 13) || c == 32
}

/// Whether `c` belongs to the class `cls`.
pub open spec fn in_class(c: u8, cls: Class) -> bool {
    match cls {
        Class::Blank => c == 32 || c == 9,
        Class::LowerHex => (48 <= c <= 57) || (97 <= c <= 102),
        Class::AnyHex => (48 <= c <= 57) || (97 <= c <= 102) || (65 <= c <= 70),
        Class::Digit => 48 <= c <= 57,
        Class::PathByte => c != 93 && !is_space(c),
    }
}

/// Whether `c` belongs to the class `cls`.
fn is_in(c: u8, cls: Class) -> (r: bool)
    ensures
        r == in_class(c, cls),
{
    match cls {
        Class::Blank => c == 32 || c == 9,
        Class::LowerHex => (48 <= c && c <= 57) || (97 <= c && c <= 102),
        Class::AnyHex => (48 <= c && c <= 57) || (97 <= c && c <= 102) || (65 <= c && c <= 70),
        Class::Digit => 48 <= c && c <= 57,
        Class::PathByte => c != 93 && !((9 <= c && c <= 13) || c == 32),
    }
}

/// Where the run of bytes of the class `cls` that starts at `i` ends.
pub open spec fn run_end(s: Seq<u8>, i: int, cls: Class) -> int
    decreases s.len() - i,
{
    if i < 0 || i >= s.len() || !in_class(s[i], cls) {
        i
    } else {
        run_end(s, i + 1, cls)
    }
}

/// Where the run of bytes of the class `cls` that starts at `i` ends.
fn scan(s: &[u8], i: usize, cls: Class) -> (r: usize)
    requires
        i <= s@.len(),
    ensures
        r == run_end(s@, i as int, cls),
        i <= r <= s@.len(),
{
    let mut j: usize = i;
    while j < s.len() && is_in(s[j], cls)
        invariant
            i <= j <= s@.len(),
            run_end(s@, i as int, cls) == run_end(s@, j as int, cls),
        decreases s@.len() - j,
    {
        j = j + 1;
    }
    j
}

/// The value of a digit byte.
pub open spec fn digit_value(c: u8) -> int {
    if 48 <= c <= 57 {
        c - 48
    } else if 97 <= c <= 102 {
        c - 87
    } else {
        c - 55
    }
}

/// The number that the digits `s[i..j]` write in the base `radix`.
pub open spec fn digits_value(s: Seq<u8>, i: int, j: int, radix: int) -> int
    decreases j - i,
{
    if j <= i {
        0
    } else {
        digits_value(s, i, j - 1, radix) * radix + digit_value(s[j - 1])
    }
}

/// A number field at `i`: one or more digits of `cls`, in the base `radix`,
/// whose value fits in 64 bits; the value and where the field ends.
pub open spec fn number_at(s: Seq<u8>, i: int, cls: Class, radix: int) -> Option<(u64, int)> {
    let j = run_end(s, i, cls);
    if j > i && digits_value(s, i, j, radix) <= u64::MAX {
        Some((digits_value(s, i, j, radix) as u64, j))
    } else {
        None
    }
}

/// The value of a run of digits is not negative.
proof fn lemma_digits_nonneg(s: Seq<u8>, i: int, k: int, radix: int, cls: Class)
    requires
        i <= k,
        radix == 10 || radix == 16,
        cls is Digit || cls is LowerHex || cls is AnyHex,
        forall|x: int| i <= x < k ==> in_class(#[trigger] s[x], cls),
    ensures
        0 <= digits_value(s, i, k, radix),
    decreases k - i,
{
    if k > i {
        lemma_digits_nonneg(s, i, k - 1, radix, cls);
        let v = digits_value(s, i, k - 1, radix);
        assert(in_class(s[k - 1], cls));
        assert(0 <= v * radix) by (nonlinear_arith)
            requires
                v >= 0,
                radix >= 1,
        ;
    }
}

/// Values of digit runs do not shrink as the run grows.
proof fn lemma_digits_grow(s: Seq<u8>, i: int, k: int, j: int, radix: int, cls: Class)
    requires
        i <= k <= j,
        radix == 10 || radix == 16,
        cls is Digit || cls is LowerHex || cls is AnyHex,
        forall|x: int| i <= x < j ==> in_class(#[trigger] s[x], cls),
    ensures
        digits_value(s, i, k, radix) <= digits_value(s, i, j, radix),
    decreases j - k,
{
    if k < j {
        lemma_digits_grow(s, i, k, j - 1, radix, cls);
        lemma_digits_nonneg(s, i, j - 1, radix, cls);
        let v = digits_value(s, i, j - 1, radix);
        assert(in_class(s[j - 1], cls));
        assert(0 <= digit_value(s[j - 1]));
        assert(v <= v * radix) by (nonlinear_arith)
            requires
                v >= 0,
                radix >= 1,
        ;
    }
}

/// Each byte of a run belongs to its class.
proof fn lemma_run(s: Seq<u8>, i: int, cls: Class)
    requires
        0 <= i <= s.len(),
    ensures
        i <= run_end(s, i, cls) <= s.len(),
        forall|x: int| i <= x < run_end(s, i, cls) ==> in_class(#[trigger] s[x], cls),
    decreases s.len() - i,
{
    if i < s.len() && in_class(s[i], cls) {
        lemma_run(s, i + 1, cls);
    }
}

/// Reads a number field at `i`.
fn number(s: &[u8], i: usize, cls: Class, radix: u64) -> (r: Option<(u64, usize)>)
    requires
        i <= s@.len(),
        radix == 10 && cls is Digit || radix == 16 && (cls is LowerHex || cls is AnyHex),
    ensures
        match r {
            Some((v, j)) => number_at(s@, i as int, cls, radix as int) == Some((v, j as int)),
            None => number_at(s@, i as int, cls, radix as int) is None,
        },
{
    let j = scan(s, i, cls);
    if j == i {
        return None;
    }
    proof {
        lemma_run(s@, i as int, cls);
    }
    let mut v: u64 = 0;
    let mut k: usize = i;
    while k < j
        invariant
            i <= k <= j <= s@.len(),
            j == run_end(s@, i as int, cls),
            forall|x: int| i <= x < j ==> in_class(#[trigger] s@[x], cls),
            radix == 10 && cls is Digit || radix == 16 && (cls is LowerHex || cls is AnyHex),
            v == digits_value(s@, i as int, k as int, radix as int),
        decreases j - k,
    {
        let c = s[k];
        assert(in_class(s@[k as int], cls));
        let d: u64 = if 48 <= c && c <= 57 {
            (c - 48) as u64
        } else if 97 <= c && c <= 102 {
            (c - 87) as u64
        } else {
            (c - 55) as u64
        };
        assert(d == digit_value(c));
        assert(d < radix);
        let q: u64 = (u64::MAX - d) / radix;
        if v > q {
            proof {
                assert(v * radix + d > u64::MAX) by (nonlinear_arith)
                    requires
                        v as int > q as int,
                        q as int == (u64::MAX as int - d as int) / (radix as int),
                        radix > 0,
                        d <= u64::MAX,
                ;
                lemma_digits_grow(s@, i as int, k as int + 1, j as int, radix as int, cls);
            }
            return None;
        }
        proof {
            assert(v * radix + d <= u64::MAX) by (nonlinear_arith)
                requires
                    v as int <= q as int,
                    q as int == (u64::MAX as int - d as int) / (radix as int),
                    radix > 0,
                    d <= u64::MAX,
            ;
        }
        v = v * radix + d;
        k = k + 1;
    }
    Some((v, j))
}

/// Memory mapping permission bits.
#[derive(Debug, Clone, Copy, PartialEq, Eq, Structural)]
pub struct Perms {
    /// readable
    pub r: bool,
    /// writable
    pub w: bool,
    /// executable
    pub x: bool,
    /// private
    pub p: bool,
}

/// A Linux device number.
#[derive(Debug, Clone, Copy, PartialEq, Eq, Structural)]
pub struct Dev {
    pub major: u64,
    pub minor: u64,
}

/// Where a mapping comes from: nothing, a special region such as the
/// stack, or a file. Names are given as the byte range of the parsed text
/// that holds them.
#[derive(Debug, Clone, Copy, PartialEq, Eq, Structural)]
pub enum Source {
    /// not backed by a file
    Anonymous,
    /// not backed by a file either, and special-purpose
    Special(usize, usize),
    /// backed by a file
    File(usize, usize),
}

impl Source {
    /// Whether the mapping is backed by a file.
    pub fn is_file(&self) -> (r: bool)
        ensures
            r == (*self is File),
    {
        match self {
            Source::File(_, _) => true,
            _ => false,
        }
    }
}

/// One line of a process's memory map.
#[derive(Debug)]
pub struct Mapping {
    pub addr_range: Range<u64>,
    pub perms: Perms,
    pub offset: u64,
    pub dev: Dev,
    pub len: u64,
    pub source: Source,
    pub deleted: bool,
}

/// A permission bit at `i`: `-` for unset, `c` for set.
pub open spec fn bit_at(s: Seq<u8>, i: int, c: u8) -> Option<bool> {
    if 0 <= i < s.len() && s[i] == 45 {
        Some(false)
    } else if 0 <= i < s.len() && s[i] == c {
        Some(true)
    } else {
        None
    }
}

/// The four permission bits at `i`, as `rwxp` with `-` for an unset one.
pub open spec fn perms_at(s: Seq<u8>, i: int) -> Option<Perms> {
    match (bit_at(s, i, 114), bit_at(s, i + 1, 119), bit_at(s, i + 2, 120), bit_at(s, i + 3, 112)) {
        (Some(r), Some(w), Some(x), Some(p)) => Some(Perms { r, w, x, p }),
        _ => None,
    }
}

fn bit(s: &[u8], i: usize, c: u8) -> (r: Option<bool>)
    ensures
        r == bit_at(s@, i as int, c),
{
    if i < s.len() && s[i] == 45 {
        Some(false)
    } else if i < s.len() && s[i] == c {
        Some(true)
    } else {
        None
    }
}

/// The source field at `i`, and where it ends: a bracketed name, or a path,
/// or nothing.
pub open spec fn source_at(s: Seq<u8>, i: int) -> (Source, int) {
    let k = run_end(s, i + 1, Class::PathByte);
    let j = run_end(s, i, Class::PathByte);
    if 0 <= i < s.len() && s[i] == 91 && k < s.len() && s[k] == 93 {
        (Source::Special((i + 1) as usize, k as usize), k + 1)
    } else if j == i {
        (Source::Anonymous, i)
    } else {
        (Source::File(i as usize, j as usize), j)
    }
}

/// The text `(deleted)`.
pub open spec fn deleted_tag() -> Seq<u8> {
    seq![40u8, 100u8, 101u8, 108u8, 101u8, 116u8, 101u8, 100u8, 41u8]
}

/// Whether `(deleted)` stands at `i`.
pub open spec fn deleted_at(s: Seq<u8>, i: int) -> bool {
    0 <= i && i + 9 <= s.len() && s.subrange(i, i + 9) == deleted_tag()
}

/// Where the spaces and tabs at `i` end.
pub open spec fn blanks(s: Seq<u8>, i: int) -> int {
    run_end(s, i, Class::Blank)
}

/// One mapping at `i`, each field surrounded by spaces or tabs: the address
/// range as two lower-case hexadecimal numbers joined by `-`, the
/// permissions, the offset in lower-case hexadecimal, the device as two
/// hexadecimal numbers joined by `:`, the inode in decimal, the source, and
/// `(deleted)` if the file was deleted. The mapping and where it ends.
pub open spec fn mapping_at(s: Seq<u8>, i: int) -> Option<(Mapping, int)> {
    let a = blanks(s, i);
    match number_at(s, a, Class::LowerHex, 16) {
        None => None,
        Some((start, a1)) => if !(a1 < s.len() && s[a1] == 45) {
            None
        } else {
            match number_at(s, a1 + 1, Class::LowerHex, 16) {
                None => None,
                Some((end, a2)) => {
                    let b = blanks(s, a2);
                    match perms_at(s, b) {
                        None => None,
                        Some(perms) => {
                            let c = blanks(s, b + 4);
                            match number_at(s, c, Class::LowerHex, 16) {
                                None => None,
                                Some((offset, c1)) => {
                                    let d = blanks(s, c1);
                                    match number_at(s, d, Class::AnyHex, 16) {
                                        None => None,
                                        Some((major, d1)) => if !(d1 < s.len() && s[d1] == 58) {
                                            None
                                        } else {
                                            match number_at(s, d1 + 1, Class::AnyHex, 16) {
                                                None => None,
                                                Some((minor, d2)) => {
                                                    let e = blanks(s, d2);
                                                    match number_at(s, e, Class::Digit, 10) {
                                                        None => None,
                                                        Some((len, e1)) => {
                                                            let f = blanks(s, e1);
                                                            let (source, f1) = source_at(s, f);
                                                            let g = blanks(s, f1);
                                                            let deleted = deleted_at(s, g);
                                                            let h = blanks(s, if deleted { g + 9 } else { g });
                                                            Some((
                                                                Mapping {
                                                                    addr_range: Range { start, end },
                                                                    perms,
                                                                    offset,
                                                                    dev: Dev { major, minor },
                                                                    len,
                                                                    source,
                                                                    deleted,
                                                                },
                                                                h,
                                                            ))
                                                        },
                                                    }
                                                },
                                            }
                                        },
                                    }
                                },
                            }
                        },
                    }
                },
            }
        },
    }
}

/// Reads the source field at `i`.
fn source(s: &[u8], i: usize) -> (r: (Source, usize))
    requires
        i <= s@.len(),
    ensures
        (r.0, r.1 as int) == source_at(s@, i as int),
        i <= r.1 <= s@.len(),
{
    let j = scan(s, i, Class::PathByte);
    if i < s.len() && s[i] == 91 {
        let k = scan(s, i + 1, Class::PathByte);
        if k < s.len() && s[k] == 93 {
            return (Source::Special(i + 1, k), k + 1);
        }
    }
    if j == i {
        (Source::Anonymous, i)
    } else {
        (Source::File(i, j), j)
    }
}

/// Whether `(deleted)` stands at `i`.
fn deleted(s: &[u8], i: usize) -> (r: bool)
    requires
        i <= s@.len(),
    ensures
        r == deleted_at(s@, i as int),
{
    if s.len() - i < 9 {
        return false;
    }
    let r = s[i] == 40 && s[i + 1] == 100 && s[i + 2] == 101 && s[i + 3] == 108 && s[i + 4] == 101 && s[i + 5]
        == 116 && s[i + 6] == 101 && s[i + 7] == 100 && s[i + 8] == 41;
    assert(r == (s@.subrange(i as int, i + 9) =~= deleted_tag()));
    r
}

/// Reads one mapping at `i`.
pub fn mapping(s: &[u8], i: usize) -> (r: Option<(Mapping, usize)>)
    requires
        i <= s@.len(),
    ensures
        match r {
            Some((m, j)) => mapping_at(s@, i as int) == Some((m, j as int)) && i <= j <= s@.len(),
            None => mapping_at(s@, i as int) is None,
        },
{
    let a = scan(s, i, Class::Blank);
    let (start, a1) = match number(s, a, Class::LowerHex, 16) {
        Some(x) => x,
        None => return None,
    };
    proof {
        lemma_run(s@, a as int, Class::LowerHex);
    }
    if !(a1 < s.len() && s[a1] == 45) {
        return None;
    }
    let (end, a2) = match number(s, a1 + 1, Class::LowerHex, 16) {
        Some(x) => x,
        None => return None,
    };
    proof {
        lemma_run(s@, a1 + 1, Class::LowerHex);
    }
    let b = scan(s, a2, Class::Blank);
    if s.len() - b < 4 {
        return None;
    }
    let r = bit(s, b, 114);
    let w = bit(s, b + 1, 119);
    let x = bit(s, b + 2, 120);
    let p = bit(s, b + 3, 112);
    let perms = match (r, w, x, p) {
        (Some(r), Some(w), Some(x), Some(p)) => Perms { r, w, x, p },
        _ => return None,
    };
    let c = scan(s, b + 4, Class::Blank);
    let (offset, c1) = match number(s, c, Class::LowerHex, 16) {
        Some(x) => x,
        None => return None,
    };
    proof {
        lemma_run(s@, c as int, Class::LowerHex);
    }
    let d = scan(s, c1, Class::Blank);
    let (major, d1) = match number(s, d, Class::AnyHex, 16) {
        Some(x) => x,
        None => return None,
    };
    proof {
        lemma_run(s@, d as int, Class::AnyHex);
    }
    if !(d1 < s.len() && s[d1] == 58) {
        return None;
    }
    let (minor, d2) = match number(s, d1 + 1, Class::AnyHex, 16) {
        Some(x) => x,
        None => return None,
    };
    proof {
        lemma_run(s@, d1 + 1, Class::AnyHex);
    }
    let e = scan(s, d2, Class::Blank);
    let (len, e1) = match number(s, e, Class::Digit, 10) {
        Some(x) => x,
        None => return None,
    };
    proof {
        lemma_run(s@, e as int, Class::Digit);
    }
    let f = scan(s, e1, Class::Blank);
    let (source, f1) = source(s, f);
    let g = scan(s, f1, Class::Blank);
    let gone = deleted(s, g);
    let h = scan(s, if gone { g + 9 } else { g }, Class::Blank);
    let m = Mapping {
        addr_range: start..end,
        perms,
        offset,
        dev: Dev { major, minor },
        len,
        source,
        deleted: gone,
    };
    Some((m, h))
}

/// The mappings of successive lines from `i` on, each ended by a newline,
/// and where the last one ends.
pub open spec fn lines_from(s: Seq<u8>, i: int) -> (Seq<Mapping>, int)
    decreases s.len() - i,
{
    match mapping_at(s, i) {
        Some((m, j)) => if i <= j && j < s.len() && s[j] == 10 {
            let (rest, k) = lines_from(s, j + 1);
            (seq![m] + rest, k)
        } else {
            (Seq::empty(), i)
        },
        None => (Seq::empty(), i),
    }
}

/// The mappings of a process's memory map text, one per line, where the
/// lines make up the whole text.
pub open spec fn maps_of(s: Seq<u8>) -> Option<Seq<Mapping>> {
    if lines_from(s, 0).1 == s.len() {
        Some(lines_from(s, 0).0)
    } else {
        None
    }
}

/// Parses the text of `/proc/<pid>/maps`: one mapping per line, each line
/// ended by a newline, the lines making up the whole text.
pub fn mappings(s: &[u8]) -> (r: Option<Vec<Mapping>>)
    ensures
        match r {
            Some(v) => maps_of(s@) == Some(v@),
            None => maps_of(s@) is None,
        },
{
    let mut out: Vec<Mapping> = Vec::new();
    let mut pos: usize = 0;
    loop
        invariant
            pos <= s@.len(),
            out@ + lines_from(s@, pos as int).0 == lines_from(s@, 0).0,
            lines_from(s@, pos as int).1 == lines_from(s@, 0).1,
        ensures
            pos <= s@.len(),
            out@ + lines_from(s@, pos as int).0 == lines_from(s@, 0).0,
            lines_from(s@, pos as int).1 == lines_from(s@, 0).1,
            lines_from(s@, pos as int).0 == Seq::<Mapping>::empty(),
            lines_from(s@, pos as int).1 == pos as int,
        decreases s@.len() - pos,
    {
        match mapping(s, pos) {
            Some((m, j)) => {
                if j < s.len() && s[j] == 10 {
                    let ghost rest = lines_from(s@, j + 1);
                    assert(lines_from(s@, pos as int).0 == seq![m] + rest.0);
                    out.push(m);
                    assert(out@ + rest.0 =~= lines_from(s@, 0).0);
                    pos = j + 1;
                } else {
                    break;
                }
            },
            None => {
                break;
            },
        }
    }
    assert(out@ =~= lines_from(s@, 0).0);
    if pos == s.len() {
        Some(out)
    } else {
        None
    }
}

} // verus!
