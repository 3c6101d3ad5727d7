//! A small s-expression reader for configuration text.
//!
//! The configuration language is a sequence of parenthesized forms of atoms.
//! The reader recognizes double-quoted atoms (without escapes) and
//! double-semicolon line comments; it tracks byte positions so that
//! diagnostics can name a line and column. Nesting is bounded, which keeps
//! the reader's stack small on adversarial input.

use vstd::prelude::*;

verus! {

use vstd::utf8::{decode_utf8, valid_utf8, encode_utf8_decode_utf8};

broadcast use vstd::std_specs::vec::group_vec_axioms;

/// How deep forms may nest.
pub const SEXPR_MAX_DEPTH: usize = 64;

/// One expression: an atom, or a parenthesized list of expressions.
#[derive(Debug, PartialEq)]
pub enum SimpleSExpr {
    Atom(String),
    List(Vec<SimpleSExpr>),
}

/// The mathematical model of an expression.
pub enum SExprV {
    Atom(Seq<char>),
    List(Seq<SExprV>),
}

pub open spec fn sx_view(e: SimpleSExpr) -> SExprV
    decreases e,
{
    match e {
        SimpleSExpr::Atom(s) => SExprV::Atom(s@),
        SimpleSExpr::List(v) => SExprV::List(sx_seq_view(v@)),
    }
}

pub open spec fn sx_seq_view(s: Seq<SimpleSExpr>) -> Seq<SExprV>
    decreases s,
{
    if s.len() == 0 {
        Seq::empty()
    } else {
        sx_seq_view(s.drop_last()).push(sx_view(s.last()))
    }
}

impl View for SimpleSExpr {
    type V = SExprV;

    open spec fn view(&self) -> SExprV {
        sx_view(*self)
    }
}

pub proof fn lemma_sx_seq_view_len(s: Seq<SimpleSExpr>)
    ensures
        sx_seq_view(s).len() == s.len(),
        forall|i: int| 0 <= i < s.len() ==> sx_seq_view(s)[i] == sx_view(s[i]),
    decreases s,
{
    if s.len() > 0 {
        lemma_sx_seq_view_len(s.drop_last());
    }
}

/// Why reading failed, at some byte position.
#[derive(Debug, Clone, Copy, PartialEq, Eq, Structural)]
pub enum SxErrKind {
    UnmatchedClose,
    UnclosedParen,
    UnterminatedString,
    TooDeep,
    BadText,
}

/// What a read step yields: a value and the position past it, or a failure
/// at a position.
pub enum SxOut<T> {
    Val(T, int),
    Fail(int, SxErrKind),
}

pub open spec fn sx_is_ws(b: u8) -> bool {
    b == 0x20 || b == 0x09 || b == 0x0a || b == 0x0d
}

/// A byte that ends an atom.
pub open spec fn sx_is_delim(b: u8) -> bool {
    sx_is_ws(b) || b == 0x28 || b == 0x29 || b == 0x22
}

/// Skips whitespace and double-semicolon line comments.
pub open spec fn sx_ws(s: Seq<u8>, i: int) -> int
    decreases s.len() - i, 1int,
{
    if 0 <= i < s.len() && sx_is_ws(s[i]) {
        sx_ws(s, i + 1)
    } else if 0 <= i && i + 1 < s.len() && s[i] == 0x3b && s[i + 1] == 0x3b {
        sx_comment(s, i + 2)
    } else {
        i
    }
}

/// Skips to the byte after the next newline (or the end of the input), then
/// back to whitespace skipping.
pub open spec fn sx_comment(s: Seq<u8>, i: int) -> int
    decreases s.len() - i, 0int,
{
    if 0 <= i < s.len() {
        if s[i] == 0x0a {
            sx_ws(s, i + 1)
        } else {
            sx_comment(s, i + 1)
        }
    } else {
        i
    }
}

/// The first delimiter at or after `i`.
pub open spec fn sx_atom_end(s: Seq<u8>, i: int) -> int
    decreases s.len() - i,
{
    if 0 <= i < s.len() && !sx_is_delim(s[i]) {
        sx_atom_end(s, i + 1)
    } else {
        i
    }
}

/// The position of the closing quote at or after `i`, if any.
pub open spec fn sx_str_end(s: Seq<u8>, i: int) -> Option<int>
    decreases s.len() - i,
{
    if i < 0 || i >= s.len() {
        Option::None
    } else if s[i] == 0x22 {
        Option::Some(i)
    } else {
        sx_str_end(s, i + 1)
    }
}

/// Reads one expression at `i`, which must not be whitespace; `depth` bounds
/// nesting below it.
#[verifier::opaque]
pub open spec fn sx_value(s: Seq<u8>, i: int, depth: nat) -> SxOut<SExprV>
    decreases s.len() - i, 0int,
{
    if i < 0 || i >= s.len() {
        SxOut::Fail(i, SxErrKind::BadText)
    } else if s[i] == 0x28 {
        if depth == 0 {
            SxOut::Fail(i, SxErrKind::TooDeep)
        } else {
            sx_list_body(s, i + 1, (depth - 1) as nat, i, Seq::empty())
        }
    } else if s[i] == 0x22 {
        match sx_str_end(s, i + 1) {
            Option::Some(q) => {
                let bytes = s.subrange(i + 1, q);
                if valid_utf8(bytes) {
                    let qc = if q >= i {
                        q
                    } else {
                        i
                    };
                    SxOut::Val(SExprV::Atom(decode_utf8(bytes)), qc + 1)
                } else {
                    SxOut::Fail(i, SxErrKind::BadText)
                }
            },
            Option::None => SxOut::Fail(i, SxErrKind::UnterminatedString),
        }
    } else if s[i] == 0x29 {
        SxOut::Fail(i, SxErrKind::UnmatchedClose)
    } else {
        let e = sx_atom_end(s, i + 1);
        let ec = if e > i {
            e
        } else {
            i + 1
        };
        let bytes = s.subrange(i, ec);
        if valid_utf8(bytes) {
            SxOut::Val(SExprV::Atom(decode_utf8(bytes)), ec)
        } else {
            SxOut::Fail(i, SxErrKind::BadText)
        }
    }
}

/// Reads the rest of a list from `j` (just past the `(` at `open_pos`).
#[verifier::opaque]
pub open spec fn sx_list_body(
    s: Seq<u8>,
    j: int,
    depth: nat,
    open_pos: int,
    acc: Seq<SExprV>,
) -> SxOut<SExprV>
    decreases s.len() - j, 1int,
{
    if j < 0 {
        SxOut::Fail(j, SxErrKind::BadText)
    } else {
        let j1r = sx_ws(s, j);
        let j1 = if j1r >= j {
            j1r
        } else {
            j
        };
        if j1 >= s.len() {
            SxOut::Fail(open_pos, SxErrKind::UnclosedParen)
        } else if s[j1] == 0x29 {
            SxOut::Val(SExprV::List(acc), j1 + 1)
        } else {
            match sx_value(s, j1, depth) {
                SxOut::Fail(p, k) => SxOut::Fail(p, k),
                SxOut::Val(v, j2r) => {
                    let j2a = if j2r > j1 {
                        j2r
                    } else {
                        j1 + 1
                    };
                    let j2 = if j2a > s.len() {
                        s.len() as int
                    } else {
                        j2a
                    };
                    sx_list_body(s, j2, depth, open_pos, acc.push(v))
                },
            }
        }
    }
}

/// Reads every top-level form, each with the byte position where it starts.
#[verifier::opaque]
pub open spec fn sx_forms(s: Seq<u8>, i: int, acc: Seq<(SExprV, int)>) -> SxOut<
    Seq<(SExprV, int)>,
>
    decreases s.len() - i,
{
    if i < 0 {
        SxOut::Fail(i, SxErrKind::BadText)
    } else {
        let j0 = sx_ws(s, i);
        let j = if j0 >= i {
            j0
        } else {
            i
        };
        if j >= s.len() {
            SxOut::Val(acc, j)
        } else if s[j] == 0x29 {
            SxOut::Fail(j, SxErrKind::UnmatchedClose)
        } else {
            match sx_value(s, j, SEXPR_MAX_DEPTH as nat) {
                SxOut::Fail(p, k) => SxOut::Fail(p, k),
                SxOut::Val(v, pr) => {
                    let pa = if pr > j {
                        pr
                    } else {
                        j + 1
                    };
                    let p = if pa > s.len() {
                        s.len() as int
                    } else {
                        pa
                    };
                    sx_forms(s, p, acc.push((v, j)))
                },
            }
        }
    }
}

/// What the whole text reads to.
pub open spec fn sx_parse(s: Seq<u8>) -> SxOut<Seq<(SExprV, int)>> {
    sx_forms(s, 0, Seq::empty())
}


/// The forms with their positions, as the model sees them.
pub open spec fn forms_view(v: Seq<(SimpleSExpr, usize)>) -> Seq<(SExprV, int)>
    decreases v,
{
    if v.len() == 0 {
        Seq::empty()
    } else {
        forms_view(v.drop_last()).push((sx_view(v.last().0), v.last().1 as int))
    }
}

pub proof fn lemma_forms_view(v: Seq<(SimpleSExpr, usize)>)
    ensures
        forms_view(v).len() == v.len(),
        forall|i: int|
            0 <= i < v.len() ==> forms_view(v)[i] == (sx_view(v[i].0), v[i].1 as int),
    decreases v,
{
    if v.len() > 0 {
        lemma_forms_view(v.drop_last());
    }
}

/// The forms of a well-formed text, or nothing.
pub open spec fn sx_parse_ok(s: Seq<u8>) -> Option<Seq<(SExprV, int)>> {
    match sx_parse(s) {
        SxOut::Val(f, p) => Option::Some(f),
        SxOut::Fail(p, k) => Option::None,
    }
}

/// Where and why a text fails to read, or nothing.
pub open spec fn sx_parse_err(s: Seq<u8>) -> Option<(int, SxErrKind)> {
    match sx_parse(s) {
        SxOut::Val(f, p) => Option::None,
        SxOut::Fail(p, k) => Option::Some((p, k)),
    }
}

/// The outcome of one executable read step.
pub enum SxStep {
    Done(SimpleSExpr, usize),
    Fail(usize, SxErrKind),
}

pub open spec fn sxstep_matches(r: SxStep, o: SxOut<SExprV>) -> bool {
    match r {
        SxStep::Done(e, p) => o == SxOut::Val(sx_view(e), p as int),
        SxStep::Fail(p, k) => o == SxOut::<SExprV>::Fail(p as int, k),
    }
}

/// Skips whitespace and line comments, as `sx_ws`.
pub fn skip_sx_ws(s: &[u8], i: usize) -> (r: usize)
    requires
        i <= s@.len(),
    ensures
        r as int == sx_ws(s@, i as int),
        i <= r <= s@.len(),
{
    let n = s.len();
    let mut j = i;
    let mut comment: bool = false;
    loop
        invariant
            i <= j <= n,
            n == s@.len(),
            (if comment {
                sx_ws(s@, i as int) == sx_comment(s@, j as int)
            } else {
                sx_ws(s@, i as int) == sx_ws(s@, j as int)
            }),
        decreases n - j, (if comment {
            0int
        } else {
            1int
        }),
    {
        if comment {
            if j >= n {
                return j;
            }
            if s[j] == 0x0a {
                comment = false;
            }
            j = j + 1;
        } else {
            if j >= n {
                return j;
            }
            let b = s[j];
            if b == 0x20 || b == 0x09 || b == 0x0a || b == 0x0d {
                j = j + 1;
            } else if b == 0x3b && j + 1 < n && s[j + 1] == 0x3b {
                comment = true;
                j = j + 2;
            } else {
                return j;
            }
        }
    }
}

/// The end of the atom starting at `i`, as `sx_atom_end`.
fn scan_atom_end(s: &[u8], i: usize) -> (r: usize)
    requires
        i <= s@.len(),
    ensures
        r as int == sx_atom_end(s@, i as int),
        i <= r <= s@.len(),
{
    let n = s.len();
    let mut j = i;
    while j < n && !(s[j] == 0x20 || s[j] == 0x09 || s[j] == 0x0a || s[j] == 0x0d || s[j] == 0x28
        || s[j] == 0x29 || s[j] == 0x22)
        invariant
            i <= j <= n,
            n == s@.len(),
            sx_atom_end(s@, i as int) == sx_atom_end(s@, j as int),
        decreases n - j,
    {
        j = j + 1;
    }
    j
}

/// The position of the next quote, as `sx_str_end`.
fn scan_str_end(s: &[u8], i: usize) -> (r: Option<usize>)
    requires
        i <= s@.len(),
    ensures
        (match r {
            Option::Some(q) => sx_str_end(s@, i as int) == Option::Some(q as int) && i <= q
                < s@.len(),
            Option::None => sx_str_end(s@, i as int) is None,
        }),
{
    let n = s.len();
    let mut j = i;
    while j < n && s[j] != 0x22
        invariant
            i <= j <= n,
            n == s@.len(),
            sx_str_end(s@, i as int) == sx_str_end(s@, j as int),
        decreases n - j,
    {
        j = j + 1;
    }
    if j < n {
        Option::Some(j)
    } else {
        Option::None
    }
}

/// Reads one expression at `i`, which must not be whitespace.
#[verifier::rlimit(100)]
pub fn parse_sx_value(s: &[u8], i: usize, depth: usize) -> (r: SxStep)
    requires
        i < s@.len(),
    ensures
        sxstep_matches(r, sx_value(s@, i as int, depth as nat)),
        (match r {
            SxStep::Done(e, p) => i < p <= s@.len(),
            SxStep::Fail(p, k) => p < s@.len(),
        }),
    decreases depth, 0int,
{
    let ghost target = sx_value(s@, i as int, depth as nat);
    let n = s.len();
    let b = s[i];
    if b == 0x28 {
        if depth == 0 {
            proof {
                reveal(sx_value);
                assert(target == SxOut::<SExprV>::Fail(i as int, SxErrKind::TooDeep));
            }
            return SxStep::Fail(i, SxErrKind::TooDeep);
        }
        let d2 = depth - 1;
        proof {
            reveal(sx_value);
            reveal(sx_list_body);
            assert(target == sx_list_body(
                s@,
                i + 1,
                d2 as nat,
                i as int,
                Seq::<SExprV>::empty(),
            ));
        }
        parse_sx_list(s, i + 1, d2, i)
    } else if b == 0x22 {
        match scan_str_end(s, i + 1) {
            Option::Some(q) => {
                let bytes = vstd::slice::slice_to_vec(vstd::slice::slice_subrange(s, i + 1, q));
                let ghost bv = bytes@;
                match crate::json::bytes_to_string(bytes) {
                    Option::Some(st) => {
                        proof {
                            reveal(sx_value);
                            encode_utf8_decode_utf8(st@);
                            assert(st@ == decode_utf8(bv));
                            assert(target == SxOut::<SExprV>::Val(
                                SExprV::Atom(decode_utf8(bv)),
                                q + 1,
                            ));
                        }
                        SxStep::Done(SimpleSExpr::Atom(st), q + 1)
                    },
                    Option::None => {
                        proof {
                            reveal(sx_value);
                            assert(target == SxOut::<SExprV>::Fail(
                                i as int,
                                SxErrKind::BadText,
                            ));
                        }
                        SxStep::Fail(i, SxErrKind::BadText)
                    },
                }
            },
            Option::None => {
                proof {
                    reveal(sx_value);
                    assert(target == SxOut::<SExprV>::Fail(
                        i as int,
                        SxErrKind::UnterminatedString,
                    ));
                }
                SxStep::Fail(i, SxErrKind::UnterminatedString)
            },
        }
    } else if b == 0x29 {
        proof {
            reveal(sx_value);
            assert(target == SxOut::<SExprV>::Fail(i as int, SxErrKind::UnmatchedClose));
        }
        SxStep::Fail(i, SxErrKind::UnmatchedClose)
    } else {
        let e = scan_atom_end(s, i + 1);
        let bytes = vstd::slice::slice_to_vec(vstd::slice::slice_subrange(s, i, e));
        let ghost bv = bytes@;
        match crate::json::bytes_to_string(bytes) {
            Option::Some(st) => {
                proof {
                    reveal(sx_value);
                    encode_utf8_decode_utf8(st@);
                    assert(st@ == decode_utf8(bv));
                    assert(target == SxOut::<SExprV>::Val(
                        SExprV::Atom(decode_utf8(bv)),
                        e as int,
                    ));
                }
                SxStep::Done(SimpleSExpr::Atom(st), e)
            },
            Option::None => {
                proof {
                    reveal(sx_value);
                    assert(target == SxOut::<SExprV>::Fail(i as int, SxErrKind::BadText));
                }
                SxStep::Fail(i, SxErrKind::BadText)
            },
        }
    }
}

/// Reads the rest of a list from `start` (just past the `(` at `open_pos`).
#[verifier::rlimit(100)]
fn parse_sx_list(s: &[u8], start: usize, d2: usize, open_pos: usize) -> (r: SxStep)
    requires
        1 <= start <= s@.len(),
        open_pos < s@.len(),
    ensures
        sxstep_matches(
            r,
            sx_list_body(s@, start as int, d2 as nat, open_pos as int, Seq::empty()),
        ),
        (match r {
            SxStep::Done(e, p) => start <= p <= s@.len(),
            SxStep::Fail(p, k) => p < s@.len(),
        }),
    decreases d2, 1int,
{
    let n = s.len();
    let ghost target = sx_list_body(
        s@,
        start as int,
        d2 as nat,
        open_pos as int,
        Seq::<SExprV>::empty(),
    );
    let mut elems: Vec<SimpleSExpr> = Vec::new();
    let mut j: usize = start;
    proof {
        assert(sx_seq_view(elems@) =~= Seq::<SExprV>::empty());
    }
    loop
        invariant
            start <= j <= n,
            n == s@.len(),
            open_pos < n,
            target == sx_list_body(
                s@,
                start as int,
                d2 as nat,
                open_pos as int,
                Seq::<SExprV>::empty(),
            ),
            target == sx_list_body(
                s@,
                j as int,
                d2 as nat,
                open_pos as int,
                sx_seq_view(elems@),
            ),
        decreases n - j,
    {
        let ghost accv = sx_seq_view(elems@);
        let j1 = skip_sx_ws(s, j);
        if j1 >= n {
            proof {
                reveal(sx_list_body);
                assert(target == SxOut::<SExprV>::Fail(
                    open_pos as int,
                    SxErrKind::UnclosedParen,
                ));
            }
            return SxStep::Fail(open_pos, SxErrKind::UnclosedParen);
        }
        if s[j1] == 0x29 {
            proof {
                reveal(sx_list_body);
                assert(target == SxOut::<SExprV>::Val(SExprV::List(accv), j1 + 1));
            }
            let r = SimpleSExpr::List(elems);
            return SxStep::Done(r, j1 + 1);
        }
        match parse_sx_value(s, j1, d2) {
            SxStep::Fail(p, k) => {
                proof {
                    reveal(sx_list_body);
                    reveal(sx_value);
                    assert(target == SxOut::<SExprV>::Fail(p as int, k));
                }
                return SxStep::Fail(p, k);
            },
            SxStep::Done(v, j2) => {
                let ghost vv = sx_view(v);
                let ghost pre = elems@;
                elems.push(v);
                proof {
                    reveal(sx_list_body);
                    reveal(sx_value);
                    assert(elems@.drop_last() =~= pre);
                    assert(sx_seq_view(elems@) == sx_seq_view(pre).push(vv));
                    assert(target == sx_list_body(
                        s@,
                        j2 as int,
                        d2 as nat,
                        open_pos as int,
                        accv.push(vv),
                    ));
                }
                j = j2;
            },
        }
    }
}

/// The outcome of reading a whole text.
pub enum SxFormsStep {
    Done(Vec<(SimpleSExpr, usize)>),
    Fail(usize, SxErrKind),
}

/// Reads every top-level form of the text, with the byte position where
/// each starts.
#[verifier::rlimit(100)]
pub fn parse_sexprs(s: &[u8]) -> (r: SxFormsStep)
    ensures
        (match r {
            SxFormsStep::Done(v) => sx_parse_ok(s@) == Option::Some(forms_view(v@)) && (forall|
                k: int,
            |
                0 <= k < v@.len() ==> v@[k].1 < s@.len()),
            SxFormsStep::Fail(p, k) => sx_parse_err(s@) == Option::Some((p as int, k)) && p
                < s@.len(),
        }),
{
    let n = s.len();
    let ghost target = sx_forms(s@, 0, Seq::<(SExprV, int)>::empty());
    let mut forms: Vec<(SimpleSExpr, usize)> = Vec::new();
    let mut i: usize = 0;
    proof {
        assert(forms_view(forms@) =~= Seq::<(SExprV, int)>::empty());
    }
    loop
        invariant
            i <= n,
            n == s@.len(),
            target == sx_forms(s@, 0, Seq::<(SExprV, int)>::empty()),
            target == sx_forms(s@, i as int, forms_view(forms@)),
            forall|k: int| 0 <= k < forms@.len() ==> forms@[k].1 < n,
        decreases n - i,
    {
        let ghost accv = forms_view(forms@);
        let j = skip_sx_ws(s, i);
        if j >= n {
            proof {
                reveal(sx_forms);
                assert(target == SxOut::<Seq<(SExprV, int)>>::Val(accv, j as int));
            }
            return SxFormsStep::Done(forms);
        }
        if s[j] == 0x29 {
            proof {
                reveal(sx_forms);
                assert(target == SxOut::<Seq<(SExprV, int)>>::Fail(
                    j as int,
                    SxErrKind::UnmatchedClose,
                ));
            }
            return SxFormsStep::Fail(j, SxErrKind::UnmatchedClose);
        }
        match parse_sx_value(s, j, SEXPR_MAX_DEPTH) {
            SxStep::Fail(p, k) => {
                proof {
                    reveal(sx_forms);
                    reveal(sx_value);
                    assert(target == SxOut::<Seq<(SExprV, int)>>::Fail(p as int, k));
                }
                return SxFormsStep::Fail(p, k);
            },
            SxStep::Done(v, p) => {
                let ghost vv = sx_view(v);
                let ghost pre = forms@;
                forms.push((v, j));
                proof {
                    reveal(sx_forms);
                    reveal(sx_value);
                    assert(forms@.drop_last() =~= pre);
                    assert(forms_view(forms@) == forms_view(pre).push((vv, j as int)));
                    assert(target == sx_forms(s@, p as int, accv.push((vv, j as int))));
                }
                i = p;
            },
        }
    }
}

// ---------------------------------------------------------------------------
// Byte positions as line and column numbers, both counted from one.
// ---------------------------------------------------------------------------

/// The number of newline bytes strictly before `p`.
pub open spec fn nl_count(s: Seq<u8>, p: int) -> int
    decreases p,
{
    if p <= 0 {
        0
    } else if p > s.len() {
        nl_count(s, s.len() as int)
    } else {
        nl_count(s, p - 1) + if s[p - 1] == 0x0a {
            1int
        } else {
            0int
        }
    }
}

/// The line that byte position `p` stands on.
pub open spec fn line_of(s: Seq<u8>, p: int) -> int {
    1 + nl_count(s, p)
}

/// The column of byte position `p` on its line.
pub open spec fn col_of(s: Seq<u8>, p: int) -> int
    decreases p,
{
    if p <= 0 {
        1
    } else if p > s.len() {
        col_of(s, s.len() as int)
    } else if s[p - 1] == 0x0a {
        1
    } else {
        col_of(s, p - 1) + 1
    }
}

/// The line and column of byte position `p`.
pub fn pos_line_col(s: &[u8], p: usize) -> (r: (usize, usize))
    requires
        p < s@.len(),
    ensures
        r.0 as int == line_of(s@, p as int),
        r.1 as int == col_of(s@, p as int),
{
    let mut line: usize = 1;
    let mut col: usize = 1;
    let mut k: usize = 0;
    while k < p
        invariant
            k <= p < s@.len(),
            line as int == line_of(s@, k as int),
            col as int == col_of(s@, k as int),
            line <= k + 1,
            col <= k + 1,
        decreases p - k,
    {
        if s[k] == 0x0a {
            line = line + 1;
            col = 1;
        } else {
            col = col + 1;
        }
        k = k + 1;
    }
    (line, col)
}


// ---------------------------------------------------------------------------
// Expressions as JSON: an atom becomes a string, a list an array.
// ---------------------------------------------------------------------------

use crate::json::{Json, JsonV, json_seq_view};

/// The JSON document an expression denotes.
pub open spec fn sexpr_jsonv(e: SExprV) -> JsonV
    decreases e,
{
    match e {
        SExprV::Atom(a) => JsonV::Str(a),
        SExprV::List(items) => JsonV::Arr(sexpr_seq_jsonv(items, 0)),
    }
}

/// The JSON documents of the expressions from `i` on.
pub open spec fn sexpr_seq_jsonv(s: Seq<SExprV>, i: int) -> Seq<JsonV>
    decreases s, s.len() - i,
{
    if i < 0 || i >= s.len() {
        Seq::empty()
    } else {
        seq![sexpr_jsonv(s[i])] + sexpr_seq_jsonv(s, i + 1)
    }
}

/// One expression as a JSON document.
fn sexpr_to_json(e: &SimpleSExpr) -> (r: Json)
    ensures
        r@ == sexpr_jsonv(e@),
    decreases sx_view(*e),
{
    match e {
        SimpleSExpr::Atom(a) => Json::Str(a.clone()),
        SimpleSExpr::List(items) => {
            let ghost iv = sx_seq_view(items@);
            proof {
                lemma_sx_seq_view_len(items@);
            }
            let n = items.len();
            let mut out: Vec<Json> = Vec::new();
            let mut i: usize = 0;
            proof {
                assert(json_seq_view(out@) =~= Seq::<JsonV>::empty());
            }
            while i < n
                invariant
                    i <= n,
                    n == items@.len(),
                    iv == sx_seq_view(items@),
                    iv.len() == n,
                    forall|k: int| 0 <= k < n ==> iv[k] == sx_view(items@[k]),
                    e == SimpleSExpr::List(*items),
                    json_seq_view(out@) + sexpr_seq_jsonv(iv, i as int) == sexpr_seq_jsonv(
                        iv,
                        0,
                    ),
                decreases n - i,
            {
                proof {
                    broadcast use vstd::seq::group_seq_axioms;

                    let ghost ev = sx_view(*e);
                    match ev {
                        SExprV::List(xs) => {
                            assert(xs == iv);
                            assert(decreases_to!(ev => xs));
                        },
                        _ => {
                            assert(false);
                        },
                    }
                    assert(decreases_to!(iv => iv[i as int]));
                    assert(sx_view(items@[i as int]) == iv[i as int]);
                }
                let c = sexpr_to_json(&items[i]);
                let ghost pre = out@;
                out.push(c);
                proof {
                    assert(out@.drop_last() =~= pre);
                    assert(json_seq_view(out@) =~= json_seq_view(pre).push(
                        sexpr_jsonv(iv[i as int]),
                    ));
                    assert(sexpr_seq_jsonv(iv, i as int) == seq![sexpr_jsonv(iv[i as int])]
                        + sexpr_seq_jsonv(iv, i + 1));
                    assert(json_seq_view(out@) + sexpr_seq_jsonv(iv, i + 1) =~= json_seq_view(
                        pre,
                    ) + sexpr_seq_jsonv(iv, i as int));
                }
                i = i + 1;
            }
            proof {
                assert(sexpr_seq_jsonv(iv, n as int) =~= Seq::<JsonV>::empty());
                assert(json_seq_view(out@) + Seq::<JsonV>::empty() =~= json_seq_view(out@));
            }
            Json::Arr(out)
        },
    }
}

/// A list of expressions as one JSON array: atoms become strings, nested
/// lists nested arrays.
pub fn simple_sexpr_to_json_array(exprs: &[SimpleSExpr]) -> (r: Json)
    ensures
        r@ == JsonV::Arr(sexpr_seq_jsonv(sx_seq_view(exprs@), 0)),
{
    let ghost iv = sx_seq_view(exprs@);
    proof {
        lemma_sx_seq_view_len(exprs@);
    }
    let n = exprs.len();
    let mut out: Vec<Json> = Vec::new();
    let mut i: usize = 0;
    proof {
        assert(json_seq_view(out@) =~= Seq::<JsonV>::empty());
    }
    while i < n
        invariant
            i <= n,
            n == exprs@.len(),
            iv == sx_seq_view(exprs@),
            iv.len() == n,
            forall|k: int| 0 <= k < n ==> iv[k] == sx_view(exprs@[k]),
            json_seq_view(out@) + sexpr_seq_jsonv(iv, i as int) == sexpr_seq_jsonv(iv, 0),
        decreases n - i,
    {
        let c = sexpr_to_json(&exprs[i]);
        let ghost pre = out@;
        out.push(c);
        proof {
            assert(out@.drop_last() =~= pre);
            assert(json_seq_view(out@) =~= json_seq_view(pre).push(sexpr_jsonv(iv[i as int])));
            assert(sexpr_seq_jsonv(iv, i as int) == seq![sexpr_jsonv(iv[i as int])]
                + sexpr_seq_jsonv(iv, i + 1));
            assert(json_seq_view(out@) + sexpr_seq_jsonv(iv, i + 1) =~= json_seq_view(pre)
                + sexpr_seq_jsonv(iv, i as int));
        }
        i = i + 1;
    }
    proof {
        assert(sexpr_seq_jsonv(iv, n as int) =~= Seq::<JsonV>::empty());
        assert(json_seq_view(out@) + Seq::<JsonV>::empty() =~= json_seq_view(out@));
    }
    Json::Arr(out)
}

} // verus!
