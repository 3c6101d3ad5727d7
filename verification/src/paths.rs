//! A byte-level model of filesystem paths.
//!
//! Paths are texts whose components are separated by `/`. The model is
//! literal: it neither resolves `..` nor strips a trailing separator; what
//! only the filesystem can answer (a canonical form, whether a path names a
//! directory) is handed in as data by the caller.

use vstd::prelude::*;

verus! {

/// The position of the last `/` before `n`, if any.
pub open spec fn last_slash(s: Seq<u8>, n: int) -> Option<int>
    decreases n,
{
    if n <= 0 || n > s.len() {
        Option::None
    } else if s[n - 1] == 0x2f {
        Option::Some(n - 1)
    } else {
        last_slash(s, n - 1)
    }
}

/// The parent of a path: what stands before its last `/`; the root's
/// parent stays the root. A path without a `/` has none.
pub open spec fn parent_of(s: Seq<u8>) -> Option<Seq<u8>> {
    match last_slash(s, s.len() as int) {
        Option::None => Option::None,
        Option::Some(k) => if k == 0 {
            Option::Some(seq![0x2fu8])
        } else {
            Option::Some(s.subrange(0, k))
        },
    }
}

/// The final component of a path, when there is one.
pub open spec fn file_name_of(s: Seq<u8>) -> Option<Seq<u8>> {
    match last_slash(s, s.len() as int) {
        Option::None => if s.len() > 0 {
            Option::Some(s)
        } else {
            Option::None
        },
        Option::Some(k) => if k + 1 < s.len() {
            Option::Some(s.subrange(k + 1, s.len() as int))
        } else {
            Option::None
        },
    }
}

/// Whether a path is absolute: it begins with `/`.
pub open spec fn is_absolute(s: Seq<u8>) -> bool {
    s.len() > 0 && s[0] == 0x2f
}

/// `rel` joined under `base`: an absolute `rel` stands alone; otherwise one
/// separator lies between them.
pub open spec fn join_under(base: Seq<u8>, rel: Seq<u8>) -> Seq<u8> {
    if is_absolute(rel) {
        rel
    } else if base.len() == 0 {
        rel
    } else if base.last() == 0x2f {
        base + rel
    } else {
        base + seq![0x2fu8] + rel
    }
}

/// Byte equality of two slices.
pub fn bytes_eq(a: &[u8], b: &[u8]) -> (r: bool)
    ensures
        r == (a@ == b@),
{
    if a.len() != b.len() {
        proof {
            assert(a@ != b@);
        }
        return false;
    }
    let n = a.len();
    let mut i: usize = 0;
    while i < n
        invariant
            i <= n,
            n == a@.len() == b@.len(),
            forall|k: int| 0 <= k < i ==> a@[k] == b@[k],
        decreases n - i,
    {
        if a[i] != b[i] {
            return false;
        }
        i = i + 1;
    }
    proof {
        assert(a@ =~= b@);
    }
    true
}

/// The position of the last `/`, if any.
pub fn last_slash_pos(s: &[u8]) -> (r: Option<usize>)
    ensures
        (match r {
            Option::Some(k) => last_slash(s@, s@.len() as int) == Option::Some(k as int) && k
                < s@.len() && s@[k as int] == 0x2f,
            Option::None => last_slash(s@, s@.len() as int) is None,
        }),
{
    let mut n = s.len();
    while n > 0
        invariant
            n <= s@.len(),
            last_slash(s@, s@.len() as int) == last_slash(s@, n as int),
        decreases n,
    {
        if s[n - 1] == 0x2f {
            return Option::Some(n - 1);
        }
        n = n - 1;
    }
    Option::None
}

/// The parent of a path, as owned bytes.
pub fn parent_vec(s: &[u8]) -> (r: Option<Vec<u8>>)
    ensures
        (match r {
            Option::Some(v) => parent_of(s@) == Option::Some(v@),
            Option::None => parent_of(s@) is None,
        }),
{
    match last_slash_pos(s) {
        Option::None => Option::None,
        Option::Some(k) => {
            if k == 0 {
                let mut v: Vec<u8> = Vec::new();
                v.push(0x2f);
                proof {
                    assert(v@ =~= seq![0x2fu8]);
                }
                Option::Some(v)
            } else {
                Option::Some(vstd::slice::slice_to_vec(vstd::slice::slice_subrange(s, 0, k)))
            }
        },
    }
}

/// Compares the parents of two paths: both exist and are equal.
pub fn parents_equal(a: &[u8], b: &[u8]) -> (r: bool)
    ensures
        r == (parent_of(a@) is Some && parent_of(a@) == parent_of(b@)),
{
    let pa = parent_vec(a);
    let pb = parent_vec(b);
    match (pa, pb) {
        (Option::Some(x), Option::Some(y)) => bytes_eq(x.as_slice(), y.as_slice()),
        _ => false,
    }
}

/// The byte range of the final component, when there is one.
fn file_name_range(s: &[u8]) -> (r: Option<(usize, usize)>)
    ensures
        (match r {
            Option::Some((lo, hi)) => lo <= hi <= s@.len() && file_name_of(s@) == Option::Some(
                s@.subrange(lo as int, hi as int),
            ),
            Option::None => file_name_of(s@) is None,
        }),
{
    let n = s.len();
    match last_slash_pos(s) {
        Option::None => {
            if n > 0 {
                proof {
                    assert(s@.subrange(0, n as int) =~= s@);
                }
                Option::Some((0, n))
            } else {
                Option::None
            }
        },
        Option::Some(k) => {
            if k + 1 < n {
                Option::Some((k + 1, n))
            } else {
                Option::None
            }
        },
    }
}

/// Compares the final components of two paths: both exist and are equal.
pub fn file_names_equal(a: &[u8], b: &[u8]) -> (r: bool)
    ensures
        r == (file_name_of(a@) is Some && file_name_of(a@) == file_name_of(b@)),
{
    let fa = file_name_range(a);
    let fb = file_name_range(b);
    match (fa, fb) {
        (Option::Some((la, ha)), Option::Some((lb, hb))) => {
            let ra = vstd::slice::slice_subrange(a, la, ha);
            let rb = vstd::slice::slice_subrange(b, lb, hb);
            bytes_eq(ra, rb)
        },
        _ => false,
    }
}

/// Whether the parent of `w` is exactly the path `e`.
pub fn parent_is(w: &[u8], e: &[u8]) -> (r: bool)
    ensures
        r == (parent_of(w@) == Option::Some(e@)),
{
    match parent_vec(w) {
        Option::None => false,
        Option::Some(v) => bytes_eq(v.as_slice(), e),
    }
}

/// Builds `rel` joined under `base`, as bytes.
pub fn join_bytes(base: &[u8], rel: &[u8]) -> (r: Vec<u8>)
    ensures
        r@ == join_under(base@, rel@),
{
    let mut out: Vec<u8> = Vec::new();
    if (rel.len() > 0 && rel[0] == 0x2f) || base.len() == 0 {
        let mut i: usize = 0;
        let n = rel.len();
        while i < n
            invariant
                i <= n,
                n == rel@.len(),
                out@ == rel@.take(i as int),
            decreases n - i,
        {
            out.push(rel[i]);
            proof {
                assert(out@ =~= rel@.take(i + 1));
            }
            i = i + 1;
        }
        proof {
            assert(rel@.take(n as int) =~= rel@);
        }
        return out;
    }
    let nb = base.len();
    let mut i: usize = 0;
    while i < nb
        invariant
            i <= nb,
            nb == base@.len(),
            out@ == base@.take(i as int),
        decreases nb - i,
    {
        out.push(base[i]);
        proof {
            assert(out@ =~= base@.take(i + 1));
        }
        i = i + 1;
    }
    proof {
        assert(base@.take(nb as int) =~= base@);
    }
    if base[nb - 1] != 0x2f {
        out.push(0x2f);
    }
    let ghost mid = out@;
    let n = rel.len();
    let mut j: usize = 0;
    while j < n
        invariant
            j <= n,
            n == rel@.len(),
            out@ == mid + rel@.take(j as int),
        decreases n - j,
    {
        out.push(rel[j]);
        proof {
            assert(out@ =~= mid + rel@.take(j + 1));
        }
        j = j + 1;
    }
    proof {
        assert(rel@.take(n as int) =~= rel@);
        assert(out@ =~= join_under(base@, rel@));
    }
    out
}

} // verus!
