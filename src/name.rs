use std::sync::Arc;
use vstd::prelude::*;

verus! {

/// How far a name is looked for: a name and its NUL terminator lie within
/// this many bytes of its start.
pub const NAME_WINDOW: usize = 2048;

/// Length of the NUL-terminated name that starts `k` bytes before
/// `start + k` in `data`, looking no further than the window.
pub open spec fn nul_scan(data: Seq<u8>, start: int, k: int) -> Option<nat>
    decreases NAME_WINDOW - k,
{
    if k < 0 || k >= NAME_WINDOW || start + k >= data.len() || start < 0 {
        None
    } else if data[start + k] == 0 {
        Some(k as nat)
    } else {
        nul_scan(data, start, k + 1)
    }
}

/// Length of the NUL-terminated name at `start` in `data`, if its
/// terminator lies within the window and within `data`.
pub open spec fn name_len(data: Seq<u8>, start: int) -> Option<nat> {
    nul_scan(data, start, 0)
}

/// Looks for the NUL terminator of the name at `offset` in `data`, within
/// the window; returns the name's length.
pub fn find_nul(data: &[u8], offset: usize) -> (r: Option<usize>)
    ensures
        match r {
            Some(n) => name_len(data@, offset as int) == Some(n as nat),
            None => name_len(data@, offset as int) is None,
        },
{
    let mut k: usize = 0;
    while k < NAME_WINDOW
        invariant
            k <= NAME_WINDOW,
            name_len(data@, offset as int) == nul_scan(data@, offset as int, k as int),
        decreases NAME_WINDOW - k,
    {
        if offset >= data.len() || k >= data.len() - offset {
            return None;
        }
        if data[offset + k] == 0 {
            return Some(k);
        }
        k = k + 1;
    }
    None
}

/// The name of a symbol: the bytes `start..end` of a shared mapped image,
/// or bytes of its own. Two names are equal when their bytes are.
#[derive(Clone, Debug)]
pub enum Name {
    Mapped { map: Arc<Vec<u8>>, start: usize, end: usize },
    Owned(Vec<u8>),
}

impl Name {
    /// The bytes of the name. A range that does not lie within its image
    /// stands for no bytes.
    pub open spec fn bytes(&self) -> Seq<u8> {
        match self {
            Name::Mapped { map, start, end } => if *start <= *end <= map@.len() {
                map@.subrange(*start as int, *end as int)
            } else {
                Seq::empty()
            },
            Name::Owned(v) => v@,
        }
    }

    /// The name that starts at `offset` in `map` and ends before the first
    /// NUL byte there, which must lie within the window.
    pub fn mapped(map: &Arc<Vec<u8>>, offset: usize) -> (r: Name)
        requires
            name_len(map@, offset as int) is Some,
        ensures
            r.bytes() == map@.subrange(offset as int, offset + name_len(map@, offset as int)->0),
            r is Mapped,
    {
        let data: &[u8] = map.as_slice();
        let total: usize = data.len();
        assert(data@ == map@);
        let len = find_nul(data, offset);
        let len = match len {
            Some(n) => n,
            None => 0,
        };
        assert(len == name_len(map@, offset as int)->0);
        proof {
            lemma_nul_scan_bounds(map@, offset as int, 0);
        }
        assert(offset + len < total);
        Name::Mapped { map: map.clone(), start: offset, end: offset + len }
    }

    /// A name that holds its own bytes.
    pub fn owned(value: Vec<u8>) -> (r: Name)
        ensures
            r.bytes() == value@,
    {
        Name::Owned(value)
    }

    /// The bytes of the name.
    pub fn as_slice(&self) -> (r: &[u8])
        ensures
            r@ == self.bytes(),
    {
        match self {
            Name::Mapped { map, start, end } => {
                if *start <= *end && *end <= map.len() {
                    vstd::slice::slice_subrange(map.as_slice(), *start, *end)
                } else {
                    &[]
                }
            },
            Name::Owned(v) => v.as_slice(),
        }
    }
}

/// A name found by the scan ends before the end of the data.
pub proof fn lemma_nul_scan_bounds(data: Seq<u8>, start: int, k: int)
    requires
        nul_scan(data, start, k) is Some,
    ensures
        start >= 0,
        start + nul_scan(data, start, k)->0 < data.len(),
        data[start + nul_scan(data, start, k)->0] == 0,
        nul_scan(data, start, k)->0 >= k,
        nul_scan(data, start, k)->0 < NAME_WINDOW,
    decreases NAME_WINDOW - k,
{
    if k < 0 || k >= NAME_WINDOW || start + k >= data.len() || start < 0 {
    } else if data[start + k] == 0 {
    } else {
        lemma_nul_scan_bounds(data, start, k + 1);
    }
}

impl PartialEq for Name {
    fn eq(&self, other: &Name) -> (r: bool)
        ensures
            r == (self.bytes() == other.bytes()),
    {
        bytes_eq(self.as_slice(), other.as_slice())
    }
}

impl vstd::std_specs::cmp::PartialEqSpecImpl for Name {
    open spec fn obeys_eq_spec() -> bool {
        true
    }

    open spec fn eq_spec(&self, other: &Name) -> bool {
        self.bytes() == other.bytes()
    }
}

impl Eq for Name {}

/// Whether two byte strings are equal.
pub fn bytes_eq(a: &[u8], b: &[u8]) -> (r: bool)
    ensures
        r == (a@ == b@),
{
    if a.len() != b.len() {
        return false;
    }
    let mut i: usize = 0;
    while i < a.len()
        invariant
            a@.len() == b@.len(),
            i <= a@.len(),
            forall|j: int| 0 <= j < i ==> a@[j] == b@[j],
        decreases a@.len() - i,
    {
        if a[i] != b[i] {
            return false;
        }
        i = i + 1;
    }
    assert(a@ =~= b@);
    true
}

} // verus!
