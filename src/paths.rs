use vstd::prelude::*;

verus! {

/// The byte `/`.
pub const SLASH: u8 = 47;

/// The token that a search path entry replaces with the directory of its
/// object: `$ORIGIN`.
pub open spec fn origin_token() -> Seq<u8> {
    seq![36u8, 79u8, 82u8, 73u8, 71u8, 73u8, 78u8]
}

/// Index of the last `/` of `p`, if any.
pub open spec fn last_slash(p: Seq<u8>) -> Option<int>
    decreases p.len(),
{
    if p.len() == 0 {
        None
    } else if p.last() == SLASH {
        Some(p.len() - 1)
    } else {
        last_slash(p.drop_last())
    }
}

/// The directory that holds `p`: what comes before its last `/`, or `/`
/// itself where that is the first byte. The root and a path without `/`
/// have none.
pub open spec fn parent_dir(p: Seq<u8>) -> Option<Seq<u8>> {
    match last_slash(p) {
        None => None,
        Some(i) => if p.len() <= 1 {
            None
        } else if i == 0 {
            Some(seq![SLASH])
        } else {
            Some(p.take(i))
        },
    }
}

/// `name` looked up under `dir`: `name` itself where it is absolute or `dir`
/// is empty, else the two joined by one `/`.
pub open spec fn join_path(dir: Seq<u8>, name: Seq<u8>) -> Seq<u8> {
    if (name.len() > 0 && name[0] == SLASH) || dir.len() == 0 {
        name
    } else if dir.last() == SLASH {
        dir + name
    } else {
        dir + seq![SLASH] + name
    }
}

/// `s` with each `$ORIGIN`, read from the left, replaced by `origin`.
pub open spec fn replace_origin(s: Seq<u8>, origin: Seq<u8>) -> Seq<u8>
    decreases s.len(),
{
    if s.len() == 0 {
        s
    } else if s.len() >= 7 && s.take(7) == origin_token() {
        origin + replace_origin(s.skip(7), origin)
    } else {
        seq![s[0]] + replace_origin(s.skip(1), origin)
    }
}

/// The directory that holds the path `p`, if it has one.
pub fn parent(p: &[u8]) -> (r: Option<Vec<u8>>)
    ensures
        match r {
            Some(d) => parent_dir(p@) == Some(d@),
            None => parent_dir(p@) is None,
        },
{
    let mut i: usize = p.len();
    assert(p@.take(i as int) =~= p@);
    while i > 0
        invariant
            i <= p@.len(),
            last_slash(p@) == last_slash(p@.take(i as int)),
        decreases i,
    {
        assert(p@.take(i as int).drop_last() =~= p@.take(i - 1));
        if p[i - 1] == SLASH {
            if p.len() <= 1 {
                return None;
            }
            if i == 1 {
                return Some(vec![SLASH]);
            }
            let mut d: Vec<u8> = Vec::new();
            let mut k: usize = 0;
            while k < i - 1
                invariant
                    i <= p@.len(),
                    k <= i - 1,
                    d@ == p@.take(k as int),
                decreases i - 1 - k,
            {
                d.push(p[k]);
                assert(p@.take(k + 1) =~= p@.take(k as int).push(p@[k as int]));
                k = k + 1;
            }
            return Some(d);
        }
        i = i - 1;
    }
    assert(p@.take(0) =~= Seq::<u8>::empty());
    None
}

/// Appends the bytes of `s` to `out`.
pub fn push_all(out: &mut Vec<u8>, s: &[u8])
    ensures
        final(out)@ == old(out)@ + s@,
{
    let ghost start = out@;
    let mut k: usize = 0;
    while k < s.len()
        invariant
            k <= s@.len(),
            out@ == start + s@.take(k as int),
        decreases s@.len() - k,
    {
        out.push(s[k]);
        assert(s@.take(k + 1) =~= s@.take(k as int).push(s@[k as int]));
        k = k + 1;
    }
    assert(s@.take(s@.len() as int) =~= s@);
}

/// The path of `name` looked up under the directory `dir`.
pub fn join(dir: &[u8], name: &[u8]) -> (r: Vec<u8>)
    ensures
        r@ == join_path(dir@, name@),
{
    let mut out: Vec<u8> = Vec::new();
    if (name.len() > 0 && name[0] == SLASH) || dir.len() == 0 {
        push_all(&mut out, name);
        assert(out@ =~= name@);
        return out;
    }
    push_all(&mut out, dir);
    if dir[dir.len() - 1] != SLASH {
        out.push(SLASH);
    }
    push_all(&mut out, name);
    assert(out@ =~= join_path(dir@, name@));
    out
}

/// Whether `$ORIGIN` starts at `i` in `s`.
fn origin_at(s: &[u8], i: usize) -> (r: bool)
    requires
        i <= s@.len(),
    ensures
        r == (s@.skip(i as int).len() >= 7 && s@.skip(i as int).take(7) == origin_token()),
{
    if s.len() - i < 7 {
        return false;
    }
    let r = s[i] == 36u8 && s[i + 1] == 79u8 && s[i + 2] == 82u8 && s[i + 3] == 73u8
        && s[i + 4] == 71u8 && s[i + 5] == 73u8 && s[i + 6] == 78u8;
    assert(r == (s@.skip(i as int).take(7) =~= origin_token()));
    r
}

/// `s` with each `$ORIGIN` replaced by `origin`.
pub fn expand_origin(s: &[u8], origin: &[u8]) -> (r: Vec<u8>)
    ensures
        r@ == replace_origin(s@, origin@),
{
    let mut out: Vec<u8> = Vec::new();
    let mut i: usize = 0;
    assert(s@.skip(0) =~= s@);
    while i < s.len()
        invariant
            i <= s@.len(),
            out@ + replace_origin(s@.skip(i as int), origin@) == replace_origin(s@, origin@),
        decreases s@.len() - i,
    {
        let ghost rest = s@.skip(i as int);
        if origin_at(s, i) {
            push_all(&mut out, origin);
            assert(rest.skip(7) =~= s@.skip(i + 7));
            assert(out@ + replace_origin(s@.skip(i + 7), origin@) =~= replace_origin(s@, origin@));
            i = i + 7;
        } else {
            out.push(s[i]);
            assert(rest.skip(1) =~= s@.skip(i + 1));
            assert(rest[0] == s@[i as int]);
            assert(out@ + replace_origin(s@.skip(i + 1), origin@) =~= replace_origin(s@, origin@));
            i = i + 1;
        }
    }
    assert(s@.skip(i as int) =~= Seq::<u8>::empty());
    assert(out@ =~= out@ + replace_origin(s@.skip(i as int), origin@));
    out
}

} // verus!
