//! Discovery of the files a configuration pulls in.
//!
//! A directive is a line that, once trimmed of leading and trailing
//! whitespace, begins with `(` followed by the directive keyword and holds a
//! double-quoted string; the first quoted substring is the path. A relative
//! path is resolved against the referencing file's directory. Discovery is
//! single level by design: it does not recurse into the discovered files,
//! since the watcher re-discovers on every restart. Whether a target exists
//! only the filesystem knows; the caller hands in one flag per candidate.

use vstd::prelude::*;

verus! {

use crate::paths::{parent_of, is_absolute, join_under, bytes_eq, parent_vec, join_bytes};
use crate::protocol::{strings_view, lemma_strings_view};
use crate::json::bytes_to_string;
use vstd::utf8::{encode_utf8, valid_utf8, decode_utf8, encode_utf8_decode_utf8};

/// A whitespace byte inside a line.
pub open spec fn is_ws_byte(b: u8) -> bool {
    b == 0x20 || b == 0x09 || b == 0x0d
}

/// The directive's opening text: `(` and the keyword.
pub open spec fn directive_bytes() -> Seq<u8> {
    seq![0x28u8, 0x69u8, 0x6eu8, 0x63u8, 0x6cu8, 0x75u8, 0x64u8, 0x65u8]
}

/// The first whitespace-free position at or after `lo`, below `hi`.
pub open spec fn trim_lo(s: Seq<u8>, lo: int, hi: int) -> int
    decreases hi - lo,
{
    if lo < hi && 0 <= lo < s.len() && is_ws_byte(s[lo]) {
        trim_lo(s, lo + 1, hi)
    } else {
        lo
    }
}

/// The position after the last non-whitespace byte in `[lo, hi)`.
pub open spec fn trim_hi(s: Seq<u8>, lo: int, hi: int) -> int
    decreases hi - lo,
{
    if hi > lo && 0 < hi <= s.len() && is_ws_byte(s[hi - 1]) {
        trim_hi(s, lo, hi - 1)
    } else {
        hi
    }
}

/// The first position of byte `b` in `[i, hi)`.
pub open spec fn find_byte(s: Seq<u8>, i: int, hi: int, b: u8) -> Option<int>
    decreases hi - i,
{
    if i < 0 || i >= hi || i >= s.len() {
        Option::None
    } else if s[i] == b {
        Option::Some(i)
    } else {
        find_byte(s, i + 1, hi, b)
    }
}

/// The path a single line names, when the line is a directive: the text
/// between the first two double quotes.
pub open spec fn line_import(s: Seq<u8>, lo: int, hi: int) -> Option<Seq<u8>> {
    let a = trim_lo(s, lo, hi);
    let z = trim_hi(s, a, hi);
    if z - a >= 8 && 0 <= a && z <= s.len() && s.subrange(a, a + 8) == directive_bytes() {
        match find_byte(s, a, z, 0x22) {
            Option::Some(q1) => match find_byte(s, q1 + 1, z, 0x22) {
                Option::Some(q2) => {
                    let p = s.subrange(q1 + 1, q2);
                    if valid_utf8(p) {
                        Option::Some(p)
                    } else {
                        Option::None
                    }
                },
                Option::None => Option::None,
            },
            Option::None => Option::None,
        }
    } else {
        Option::None
    }
}

/// A directive path resolved against the referencing file's directory.
pub open spec fn resolve_under(cfg: Seq<u8>, p: Seq<u8>) -> Seq<u8> {
    if is_absolute(p) {
        p
    } else {
        match parent_of(cfg) {
            Option::Some(d) => join_under(d, p),
            Option::None => p,
        }
    }
}

/// Every resolved candidate named by directives from position `i` on, line
/// by line, in order; a candidate whose resolved bytes are not valid text
/// is skipped.
pub open spec fn candidates_from(cfg: Seq<u8>, s: Seq<u8>, i: int) -> Seq<Seq<char>>
    decreases s.len() - i,
{
    if i < 0 || i > s.len() {
        Seq::empty()
    } else {
        let e0 = match find_byte(s, i, s.len() as int, 0x0a) {
            Option::Some(e) => e,
            Option::None => s.len() as int,
        };
        let e1 = if e0 >= i {
            e0
        } else {
            i
        };
        let e = if e1 <= s.len() {
            e1
        } else {
            s.len() as int
        };
        let here: Seq<Seq<char>> = match line_import(s, i, e) {
            Option::Some(p) => {
                let rb = resolve_under(cfg, p);
                if valid_utf8(rb) {
                    seq![decode_utf8(rb)]
                } else {
                    Seq::empty()
                }
            },
            Option::None => Seq::empty(),
        };
        here + (if e < s.len() {
            candidates_from(cfg, s, e + 1)
        } else {
            Seq::empty()
        })
    }
}

/// The candidate files a configuration text names, resolved against the
/// configuration file's own path.
pub open spec fn import_candidates(cfg_path: Seq<char>, content: Seq<char>) -> Seq<Seq<char>> {
    candidates_from(encode_utf8(cfg_path), encode_utf8(content), 0)
}

/// The first position of `b` in `[i, hi)`, as `find_byte`.
fn find_byte_in(s: &[u8], i: usize, hi: usize, b: u8) -> (r: Option<usize>)
    requires
        hi <= s@.len(),
    ensures
        (match r {
            Option::Some(k) => find_byte(s@, i as int, hi as int, b) == Option::Some(k as int)
                && i <= k < hi,
            Option::None => find_byte(s@, i as int, hi as int, b) is None,
        }),
{
    let mut j = i;
    while j < hi
        invariant
            i <= j,
            hi <= s@.len(),
            find_byte(s@, i as int, hi as int, b) == find_byte(s@, j as int, hi as int, b),
        decreases hi - j,
    {
        if s[j] == b {
            return Option::Some(j);
        }
        j = j + 1;
    }
    Option::None
}

/// The directive's opening text, as owned bytes.
fn directive_vec() -> (r: Vec<u8>)
    ensures
        r@ == directive_bytes(),
{
    let mut v: Vec<u8> = Vec::new();
    v.push(0x28);
    v.push(0x69);
    v.push(0x6e);
    v.push(0x63);
    v.push(0x6c);
    v.push(0x75);
    v.push(0x64);
    v.push(0x65);
    proof {
        assert(v@ =~= directive_bytes());
    }
    v
}

/// The path one line names, as `line_import`.
fn line_import_path(s: &[u8], lo: usize, hi: usize) -> (r: Option<Vec<u8>>)
    requires
        lo <= hi <= s@.len(),
    ensures
        (match r {
            Option::Some(v) => line_import(s@, lo as int, hi as int) == Option::Some(v@),
            Option::None => line_import(s@, lo as int, hi as int) is None,
        }),
{
    let mut a = lo;
    while a < hi && (s[a] == 0x20 || s[a] == 0x09 || s[a] == 0x0d)
        invariant
            lo <= a <= hi <= s@.len(),
            trim_lo(s@, lo as int, hi as int) == trim_lo(s@, a as int, hi as int),
        decreases hi - a,
    {
        a = a + 1;
    }
    let mut z = hi;
    while z > a && (s[z - 1] == 0x20 || s[z - 1] == 0x09 || s[z - 1] == 0x0d)
        invariant
            a <= z <= hi <= s@.len(),
            trim_hi(s@, a as int, hi as int) == trim_hi(s@, a as int, z as int),
        decreases z,
    {
        z = z - 1;
    }
    if z - a < 8 {
        return Option::None;
    }
    let kw = directive_vec();
    let head = vstd::slice::slice_subrange(s, a, a + 8);
    if !bytes_eq(head, kw.as_slice()) {
        return Option::None;
    }
    match find_byte_in(s, a, z, 0x22) {
        Option::None => Option::None,
        Option::Some(q1) => match find_byte_in(s, q1 + 1, z, 0x22) {
            Option::None => Option::None,
            Option::Some(q2) => {
                let p = vstd::slice::slice_to_vec(vstd::slice::slice_subrange(s, q1 + 1, q2));
                // A line names a path only when the quoted bytes are valid
                // text; the probe copy decides that, the bytes travel on.
                let probe = vstd::slice::slice_to_vec(vstd::slice::slice_subrange(s, q1 + 1, q2));
                match bytes_to_string(probe) {
                    Option::Some(_) => Option::Some(p),
                    Option::None => Option::None,
                }
            },
        },
    }
}

/// Every candidate file the configuration text names, resolved against the
/// referencing file's directory, in order of appearance.
pub fn scan_import_candidates(cfg_path: &str, content: &str) -> (r: Vec<String>)
    ensures
        strings_view(r@) == import_candidates(cfg_path@, content@),
{
    let cb = cfg_path.as_bytes();
    let sb = content.as_bytes();
    let n = sb.len();
    let ghost cfgv = encode_utf8(cfg_path@);
    let ghost sv = encode_utf8(content@);
    let mut out: Vec<String> = Vec::new();
    let mut i: usize = 0;
    let mut done: bool = false;
    proof {
        assert(strings_view(out@) =~= Seq::<Seq<char>>::empty());
    }
    while !done
        invariant
            i <= n,
            n == sv.len(),
            sb@ == sv,
            cb@ == cfgv,
            !done ==> import_candidates(cfg_path@, content@) == strings_view(out@)
                + candidates_from(cfgv, sv, i as int),
            done ==> import_candidates(cfg_path@, content@) == strings_view(out@),
        decreases n - i + (if done {
            0int
        } else {
            1int
        }),
    {
        let e = match find_byte_in(sb, i, n, 0x0a) {
            Option::Some(k) => k,
            Option::None => n,
        };
        let ghost pre = out@;
        match line_import_path(sb, i, e) {
            Option::Some(p) => {
                let rb: Vec<u8> = if p.len() > 0 && p[0] == 0x2f {
                    p
                } else {
                    match parent_vec(cb) {
                        Option::Some(d) => join_bytes(d.as_slice(), p.as_slice()),
                        Option::None => p,
                    }
                };
                let ghost rbv = rb@;
                match bytes_to_string(rb) {
                    Option::Some(st) => {
                        out.push(st);
                        proof {
                            assert(out@.drop_last() =~= pre);
                            encode_utf8_decode_utf8(out@.last()@);
                            assert(strings_view(out@) =~= strings_view(pre).push(
                                decode_utf8(rbv),
                            ));
                        }
                    },
                    Option::None => {
                    },
                }
            },
            Option::None => {
            },
        }
        if e < n {
            i = e + 1;
        } else {
            done = true;
        }
    }
    out
}

/// The candidates that exist, position by position.
pub open spec fn kept_existing(c: Seq<Seq<char>>, e: Seq<bool>, i: int) -> Seq<Seq<char>>
    decreases c.len() - i,
{
    if i < 0 || i >= c.len() || i >= e.len() {
        Seq::empty()
    } else {
        (if e[i] {
            seq![c[i]]
        } else {
            Seq::empty()
        }) + kept_existing(c, e, i + 1)
    }
}

/// Keeps the candidates whose target exists; the caller answers existence,
/// one flag per candidate, in order.
pub fn keep_existing(candidates: Vec<String>, exists: &Vec<bool>) -> (r: Vec<String>)
    requires
        candidates@.len() == exists@.len(),
    ensures
        strings_view(r@) == kept_existing(strings_view(candidates@), exists@, 0),
{
    let ghost cv = strings_view(candidates@);
    proof {
        lemma_strings_view(candidates@);
    }
    let n = candidates.len();
    let mut out: Vec<String> = Vec::new();
    let mut i: usize = 0;
    proof {
        assert(strings_view(out@) =~= Seq::<Seq<char>>::empty());
    }
    while i < n
        invariant
            i <= n,
            n == candidates@.len() == exists@.len(),
            cv == strings_view(candidates@),
            cv.len() == n,
            forall|k: int| 0 <= k < n ==> cv[k] == candidates@[k]@,
            kept_existing(cv, exists@, 0) == strings_view(out@) + kept_existing(
                cv,
                exists@,
                i as int,
            ),
        decreases n - i,
    {
        let ghost pre = out@;
        if exists[i] {
            out.push(candidates[i].clone());
            proof {
                assert(out@.drop_last() =~= pre);
                assert(strings_view(out@) =~= strings_view(pre).push(cv[i as int]));
                assert(strings_view(pre) + (seq![cv[i as int]] + kept_existing(
                    cv,
                    exists@,
                    i + 1,
                )) =~= strings_view(out@) + kept_existing(cv, exists@, i + 1));
            }
        } else {
            proof {
                assert(strings_view(pre) + (Seq::<Seq<char>>::empty() + kept_existing(
                    cv,
                    exists@,
                    i + 1,
                )) =~= strings_view(pre) + kept_existing(cv, exists@, i + 1));
            }
        }
        i = i + 1;
    }
    proof {
        assert(kept_existing(cv, exists@, n as int) =~= Seq::<Seq<char>>::empty());
        assert(strings_view(out@) + Seq::<Seq<char>>::empty() =~= strings_view(out@));
    }
    out
}


/// `find_byte` misses when no byte in range matches.
proof fn lemma_find_byte_none(s: Seq<u8>, i: int, hi: int, b: u8)
    requires
        0 <= i,
        forall|k: int| i <= k < hi && k < s.len() ==> s[k] != b,
    ensures
        find_byte(s, i, hi, b) is None,
    decreases hi - i,
{
    if !(i < 0 || i >= hi || i >= s.len()) {
        lemma_find_byte_none(s, i + 1, hi, b);
    }
}

/// `find_byte` finds the first matching byte.
proof fn lemma_find_byte_hit(s: Seq<u8>, i: int, hi: int, b: u8, j: int)
    requires
        0 <= i <= j < hi,
        j < s.len(),
        s[j] == b,
        forall|k: int| i <= k < j ==> s[k] != b,
    ensures
        find_byte(s, i, hi, b) == Option::Some(j),
    decreases j - i,
{
    if i < j {
        lemma_find_byte_hit(s, i + 1, hi, b, j);
    }
}

/// Discovery on one directive line, in general: for any configuration path
/// and any directive path whose text holds neither a quote nor a newline,
/// the candidates of the line `(`keyword` "`path`")` are exactly the
/// resolution of that path against the configuration file's directory; the
/// existence filter then keeps it when its target exists and drops it when
/// it does not.
pub proof fn lemma_single_directive_discovery(cfg: Seq<char>, p: Seq<char>)
    requires
        forall|k: int|
            0 <= k < encode_utf8(p).len() ==> encode_utf8(p)[k] != 0x22 && encode_utf8(p)[k]
                != 0x0a,
    ensures
        ({
            let content = directive_bytes() + seq![0x20u8, 0x22u8] + encode_utf8(p) + seq![
                0x22u8,
                0x29u8,
            ];
            let rb = resolve_under(encode_utf8(cfg), encode_utf8(p));
            &&& candidates_from(encode_utf8(cfg), content, 0) == (if valid_utf8(rb) {
                seq![decode_utf8(rb)]
            } else {
                Seq::<Seq<char>>::empty()
            })
            &&& valid_utf8(rb) ==> kept_existing(
                candidates_from(encode_utf8(cfg), content, 0),
                seq![true],
                0,
            ) == seq![decode_utf8(rb)]
            &&& valid_utf8(rb) ==> kept_existing(
                candidates_from(encode_utf8(cfg), content, 0),
                seq![false],
                0,
            ) == Seq::<Seq<char>>::empty()
        }),
{
    broadcast use vstd::utf8::encode_utf8_valid_utf8;

    let pb = encode_utf8(p);
    let content = directive_bytes() + seq![0x20u8, 0x22u8] + pb + seq![0x22u8, 0x29u8];
    let n = content.len() as int;
    let rb = resolve_under(encode_utf8(cfg), pb);
    assert(n == 12 + pb.len());
    // No newline anywhere: the whole text is one line.
    assert forall|k: int| 0 <= k < n implies content[k] != 0x0a by {
        if 10 <= k < 10 + pb.len() {
            assert(content[k] == pb[k - 10]);
        }
    }
    lemma_find_byte_none(content, 0, n, 0x0a);
    // The line is already trimmed: it opens with `(` and closes with `)`.
    assert(content[0] == 0x28);
    assert(content[n - 1] == 0x29);
    assert(trim_lo(content, 0, n) == 0);
    assert(trim_hi(content, 0, n) == n);
    // The directive prefix stands at the front.
    assert(content.subrange(0, 8) =~= directive_bytes());
    // The first quote opens the path, the second closes it.
    assert(content[9] == 0x22);
    assert forall|k: int| 0 <= k < 9 implies content[k] != 0x22 by {}
    lemma_find_byte_hit(content, 0, n, 0x22, 9);
    assert(content[10 + pb.len() as int] == 0x22);
    assert forall|k: int| 10 <= k < 10 + pb.len() as int implies content[k] != 0x22 by {
        assert(content[k] == pb[k - 10]);
    }
    lemma_find_byte_hit(content, 10, n, 0x22, 10 + pb.len() as int);
    assert(content.subrange(10, 10 + pb.len() as int) =~= pb);
    assert(valid_utf8(pb));
    assert(line_import(content, 0, n) == Option::Some(pb));
    // One line, nothing after it.
    assert(candidates_from(encode_utf8(cfg), content, 0) == (if valid_utf8(rb) {
        seq![decode_utf8(rb)] + Seq::<Seq<char>>::empty()
    } else {
        Seq::<Seq<char>>::empty() + Seq::<Seq<char>>::empty()
    }));
    if valid_utf8(rb) {
        assert(seq![decode_utf8(rb)] + Seq::<Seq<char>>::empty() =~= seq![decode_utf8(rb)]);
        let c = seq![decode_utf8(rb)];
        assert(kept_existing(c, seq![true], 1) == Seq::<Seq<char>>::empty());
        assert(kept_existing(c, seq![false], 1) == Seq::<Seq<char>>::empty());
        assert(seq![c[0]] + Seq::<Seq<char>>::empty() =~= c);
        assert(Seq::<Seq<char>>::empty() + Seq::<Seq<char>>::empty() =~= Seq::<
            Seq<char>,
        >::empty());
        assert(kept_existing(c, seq![true], 0) == c);
        assert(kept_existing(c, seq![false], 0) == Seq::<Seq<char>>::empty());
    } else {
        assert(Seq::<Seq<char>>::empty() + Seq::<Seq<char>>::empty() =~= Seq::<
            Seq<char>,
        >::empty());
    }
}

} // verus!
