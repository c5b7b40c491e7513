//! A simple byte-level model of slash-separated paths.
//!
//! Paths are carried through the library as plain byte strings; the
//! operations here — last component, parent directory, joining, name
//! rewriting — are defined over those bytes, with `/` as the separator.
//! The surrounding program converts between these byte strings and the
//! platform's path values at its edges.

use vstd::prelude::*;

verus! {

/// The path separator.
pub const SEP: u8 = 47;

/// The index right after the last separator of `p`, or `0` when `p` holds
/// no separator: where the final path component begins.
pub open spec fn base_start(p: Seq<u8>) -> int
    decreases p.len(),
{
    if p.len() == 0 {
        0
    } else if p[p.len() - 1] == SEP {
        p.len() as int
    } else {
        base_start(p.take(p.len() - 1))
    }
}

/// The component start lies within the path.
pub proof fn lemma_base_start_bounds(p: Seq<u8>)
    ensures
        0 <= base_start(p) <= p.len(),
    decreases p.len(),
{
    if p.len() > 0 && p[p.len() - 1] != SEP {
        lemma_base_start_bounds(p.take(p.len() - 1));
    }
}

/// Where the final component of `p` begins.
pub fn find_base_start(p: &Vec<u8>) -> (r: usize)
    ensures
        r == base_start(p@),
        r <= p@.len(),
        forall|t: int| r <= t < p@.len() ==> p@[t] != SEP,
        r > 0 ==> p@[r - 1] == SEP,
{
    let mut j = p.len();
    proof {
        assert(p@.take(p@.len() as int) =~= p@);
    }
    while j > 0
        invariant
            j <= p@.len(),
            base_start(p@) == base_start(p@.take(j as int)),
            forall|t: int| j <= t < p@.len() ==> p@[t] != SEP,
        decreases j,
    {
        if p[j - 1] == SEP {
            proof {
                assert(p@.take(j as int)[j - 1] == SEP);
            }
            return j;
        }
        proof {
            assert(p@.take(j as int)[j - 1] != SEP);
            assert(p@.take(j as int).take(j - 1) =~= p@.take(j - 1));
        }
        j = j - 1;
    }
    proof {
        assert(p@.take(0).len() == 0);
    }
    0
}

/// The final component of the path, when there is a non-empty one.
pub fn path_file_name(p: &Vec<u8>) -> (r: Option<Vec<u8>>)
    ensures
        match r {
            Some(name) => base_start(p@) < p@.len() && name@ == p@.skip(base_start(p@)),
            None => base_start(p@) == p@.len(),
        },
{
    let k = find_base_start(p);
    if k == p.len() {
        return None;
    }
    let mut name: Vec<u8> = Vec::new();
    let n = p.len();
    let mut j = k;
    while j < n
        invariant
            k <= j <= n,
            n == p@.len(),
            name@ == p@.subrange(k as int, j as int),
        decreases n - j,
    {
        proof {
            assert(p@.subrange(k as int, j as int) + seq![p@[j as int]] =~= p@.subrange(
                k as int,
                j + 1,
            ));
        }
        name.push(p[j]);
        j = j + 1;
    }
    proof {
        assert(p@.subrange(k as int, n as int) =~= p@.skip(k as int));
    }
    Some(name)
}

/// The directory part of the path: the bytes before the last separator,
/// the separator itself when it is the leading one, or nothing when the
/// path is a single bare component or empty.
pub fn path_parent(p: &Vec<u8>) -> (r: Option<Vec<u8>>)
    ensures
        match r {
            Some(dir) => base_start(p@) > 1 && dir@ == p@.take(base_start(p@) - 1) || base_start(
                p@,
            ) == 1 && dir@ == seq![SEP] || base_start(p@) == 0 && p@.len() > 0 && dir@ == Seq::<
                u8,
            >::empty(),
            None => p@.len() == 0,
        },
{
    let k = find_base_start(p);
    if k == 0 {
        if p.len() == 0 {
            return None;
        }
        return Some(Vec::new());
    }
    if k == 1 {
        let mut root: Vec<u8> = Vec::new();
        root.push(SEP);
        proof {
            assert(root@ =~= seq![SEP]);
        }
        return Some(root);
    }
    let mut dir: Vec<u8> = Vec::new();
    let end = k - 1;
    let mut j: usize = 0;
    while j < end
        invariant
            j <= end,
            end < p@.len(),
            dir@ == p@.take(j as int),
        decreases end - j,
    {
        proof {
            assert(p@.take(j as int) + seq![p@[j as int]] =~= p@.take(j + 1));
        }
        dir.push(p[j]);
        j = j + 1;
    }
    Some(dir)
}

/// `dir` with `name` appended as one more component.
pub fn path_join(dir: &Vec<u8>, name: &Vec<u8>) -> (r: Vec<u8>)
    ensures
        r@ == if dir@.len() == 0 {
            name@
        } else if dir@[dir@.len() - 1] == SEP {
            dir@ + name@
        } else {
            dir@ + seq![SEP] + name@
        },
{
    let mut out: Vec<u8> = Vec::new();
    let dn = dir.len();
    for j in 0..dn
        invariant
            dn == dir@.len(),
            out@ == dir@.take(j as int),
    {
        proof {
            assert(dir@.take(j as int) + seq![dir@[j as int]] =~= dir@.take(j + 1));
        }
        out.push(dir[j]);
    }
    proof {
        assert(dir@.take(dn as int) =~= dir@);
    }
    if dn > 0 && out[dn - 1] != SEP {
        out.push(SEP);
        proof {
            assert(dir@ + seq![SEP] =~= out@);
        }
    }
    let ghost mid = out@;
    let nn = name.len();
    for j in 0..nn
        invariant
            nn == name@.len(),
            out@ == mid + name@.take(j as int),
    {
        proof {
            assert(mid + name@.take(j as int) + seq![name@[j as int]] =~= mid + name@.take(j + 1));
        }
        out.push(name[j]);
    }
    proof {
        assert(name@.take(nn as int) =~= name@);
        if dir@.len() == 0 {
            assert(out@ =~= name@);
        } else if dir@[dir@.len() - 1] == SEP {
            assert(out@ =~= dir@ + name@);
        } else {
            assert(out@ =~= dir@ + seq![SEP] + name@);
        }
    }
    out
}

/// The path with its final component replaced by `name`.
pub fn with_file_name(p: &Vec<u8>, name: &Vec<u8>) -> (r: Vec<u8>)
    ensures
        r@ == p@.take(base_start(p@)) + name@,
{
    let k = find_base_start(p);
    let mut out: Vec<u8> = Vec::new();
    let mut j: usize = 0;
    while j < k
        invariant
            j <= k,
            k <= p@.len(),
            out@ == p@.take(j as int),
        decreases k - j,
    {
        proof {
            assert(p@.take(j as int) + seq![p@[j as int]] =~= p@.take(j + 1));
        }
        out.push(p[j]);
        j = j + 1;
    }
    let ghost mid = out@;
    let nn = name.len();
    for j in 0..nn
        invariant
            nn == name@.len(),
            out@ == mid + name@.take(j as int),
    {
        proof {
            assert(mid + name@.take(j as int) + seq![name@[j as int]] =~= mid + name@.take(j + 1));
        }
        out.push(name[j]);
    }
    proof {
        assert(name@.take(nn as int) =~= name@);
    }
    out
}

/// The hidden temporary-file name used for an in-place conversion: the
/// original name between a `.~` prefix and a `.tmp` suffix.
pub fn tmp_file_name(name: &Vec<u8>) -> (r: Vec<u8>)
    ensures
        r@ == seq![46u8, 126u8] + name@ + seq![46u8, 116u8, 109u8, 112u8],
{
    let mut out: Vec<u8> = Vec::new();
    out.push(46);
    out.push(126);
    let ghost mid0 = out@;
    let nn = name.len();
    for j in 0..nn
        invariant
            nn == name@.len(),
            out@ == mid0 + name@.take(j as int),
    {
        proof {
            assert(mid0 + name@.take(j as int) + seq![name@[j as int]] =~= mid0 + name@.take(
                j + 1,
            ));
        }
        out.push(name[j]);
    }
    out.push(46);
    out.push(116);
    out.push(109);
    out.push(112);
    proof {
        assert(mid0 =~= seq![46u8, 126u8]);
        assert(name@.take(nn as int) =~= name@);
        assert(out@ =~= seq![46u8, 126u8] + name@ + seq![46u8, 116u8, 109u8, 112u8]);
    }
    out
}

/// The backup name used before an in-place replace: the original name with
/// a `.bak` suffix.
pub fn backup_file_name(name: &Vec<u8>) -> (r: Vec<u8>)
    ensures
        r@ == name@ + seq![46u8, 98u8, 97u8, 107u8],
{
    let mut out: Vec<u8> = Vec::new();
    let nn = name.len();
    for j in 0..nn
        invariant
            nn == name@.len(),
            out@ == name@.take(j as int),
    {
        proof {
            assert(name@.take(j as int) + seq![name@[j as int]] =~= name@.take(j + 1));
        }
        out.push(name[j]);
    }
    out.push(46);
    out.push(98);
    out.push(97);
    out.push(107);
    proof {
        assert(name@.take(nn as int) =~= name@);
        assert(out@ =~= name@ + seq![46u8, 98u8, 97u8, 107u8]);
    }
    out
}

} // verus!
