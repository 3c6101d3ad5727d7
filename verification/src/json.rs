//! A small JSON document model and its byte-level rendering.
//!
//! The control-plane wire protocol is line-delimited JSON. This module defines
//! the document tree, a mathematical model of it (`JsonV`), and a serializer
//! whose output is pinned down byte for byte by `json_bytes`. A number that
//! is a plain unsigned 64-bit integer — all the protocol itself reads — is
//! held as a value; any other well-formed number is carried as its literal
//! text.

use vstd::prelude::*;

verus! {

use vstd::utf8::{encode_utf8, decode_utf8, valid_utf8, encode_scalar, is_scalar};

broadcast use vstd::std_specs::vec::group_vec_axioms;

/// A JSON document; objects keep their fields in order, as a JSON text
/// does. `UInt` covers every number the protocol itself reads; `Num` carries
/// any other well-formed number (signed, fractional, exponent, or beyond 64
/// bits) as its literal text, which the writer emits verbatim.
#[derive(Debug, PartialEq)]
pub enum Json {
    Null,
    Bool(bool),
    UInt(u64),
    Num(String),
    Str(String),
    Arr(Vec<Json>),
    Obj(Vec<(String, Json)>),
}

/// The mathematical model of a `Json` document: strings become `Seq<char>`,
/// vectors become `Seq`.
pub enum JsonV {
    Null,
    Bool(bool),
    UInt(u64),
    Num(Seq<char>),
    Str(Seq<char>),
    Arr(Seq<JsonV>),
    Obj(Seq<(Seq<char>, JsonV)>),
}

pub open spec fn json_view(j: Json) -> JsonV
    decreases j,
{
    match j {
        Json::Null => JsonV::Null,
        Json::Bool(b) => JsonV::Bool(b),
        Json::UInt(n) => JsonV::UInt(n),
        Json::Num(t) => JsonV::Num(t@),
        Json::Str(s) => JsonV::Str(s@),
        Json::Arr(v) => JsonV::Arr(json_seq_view(v@)),
        Json::Obj(v) => JsonV::Obj(json_fields_view(v@)),
    }
}

pub open spec fn json_seq_view(s: Seq<Json>) -> Seq<JsonV>
    decreases s,
{
    if s.len() == 0 {
        Seq::empty()
    } else {
        json_seq_view(s.drop_last()).push(json_view(s.last()))
    }
}

pub open spec fn json_fields_view(s: Seq<(String, Json)>) -> Seq<(Seq<char>, JsonV)>
    decreases s,
{
    if s.len() == 0 {
        Seq::empty()
    } else {
        json_fields_view(s.drop_last()).push((s.last().0@, json_view(s.last().1)))
    }
}

impl View for Json {
    type V = JsonV;

    open spec fn view(&self) -> JsonV {
        json_view(*self)
    }
}

pub proof fn lemma_json_seq_view_len(s: Seq<Json>)
    ensures
        json_seq_view(s).len() == s.len(),
        forall|i: int| 0 <= i < s.len() ==> json_seq_view(s)[i] == json_view(s[i]),
    decreases s,
{
    if s.len() > 0 {
        lemma_json_seq_view_len(s.drop_last());
    }
}

pub proof fn lemma_json_fields_view_len(s: Seq<(String, Json)>)
    ensures
        json_fields_view(s).len() == s.len(),
        forall|i: int|
            0 <= i < s.len() ==> json_fields_view(s)[i] == (s[i].0@, json_view(s[i].1)),
    decreases s,
{
    if s.len() > 0 {
        lemma_json_fields_view_len(s.drop_last());
    }
}

/// The lowercase hexadecimal digit for a value below sixteen.
pub open spec fn hex_digit(n: u8) -> u8 {
    if n < 10 {
        (0x30 + n) as u8
    } else {
        (0x61 + (n - 10)) as u8
    }
}

/// How one byte of a string's UTF-8 encoding is rendered inside a JSON
/// string literal: quote and backslash get a two-byte escape, the named
/// control characters their short escapes, other control bytes a `\u00XX`
/// escape, and everything else stands as it is.
pub open spec fn escape_byte(b: u8) -> Seq<u8> {
    if b == 0x22 {
        seq![0x5cu8, 0x22u8]
    } else if b == 0x5c {
        seq![0x5cu8, 0x5cu8]
    } else if b == 0x08 {
        seq![0x5cu8, 0x62u8]
    } else if b == 0x09 {
        seq![0x5cu8, 0x74u8]
    } else if b == 0x0a {
        seq![0x5cu8, 0x6eu8]
    } else if b == 0x0c {
        seq![0x5cu8, 0x66u8]
    } else if b == 0x0d {
        seq![0x5cu8, 0x72u8]
    } else if b < 0x20 {
        seq![0x5cu8, 0x75u8, 0x30u8, 0x30u8, hex_digit(b / 16), hex_digit(b % 16)]
    } else {
        seq![b]
    }
}

pub open spec fn escape_bytes(s: Seq<u8>) -> Seq<u8>
    decreases s.len(),
{
    if s.len() == 0 {
        Seq::empty()
    } else {
        escape_bytes(s.drop_last()) + escape_byte(s.last())
    }
}

/// The rendering of a string as a JSON string literal.
pub open spec fn json_string_bytes(s: Seq<char>) -> Seq<u8> {
    seq![0x22u8] + escape_bytes(encode_utf8(s)) + seq![0x22u8]
}

/// The decimal rendering of a natural number, most significant digit first.
pub open spec fn dec_digits(n: nat) -> Seq<u8>
    decreases n,
{
    if n < 10 {
        seq![(0x30 + n) as u8]
    } else {
        dec_digits(n / 10).push((0x30 + n % 10) as u8)
    }
}

/// The byte-for-byte rendering of a JSON document: no whitespace, object
/// fields in order, strings escaped by `escape_byte`.
pub open spec fn json_bytes(v: JsonV) -> Seq<u8>
    decreases v,
{
    match v {
        JsonV::Null => seq![0x6eu8, 0x75u8, 0x6cu8, 0x6cu8],
        JsonV::Bool(b) => if b {
            seq![0x74u8, 0x72u8, 0x75u8, 0x65u8]
        } else {
            seq![0x66u8, 0x61u8, 0x6cu8, 0x73u8, 0x65u8]
        },
        JsonV::UInt(n) => dec_digits(n as nat),
        JsonV::Num(t) => encode_utf8(t),
        JsonV::Str(s) => json_string_bytes(s),
        JsonV::Arr(elems) => seq![0x5bu8] + json_arr_bytes(elems, 0) + seq![0x5du8],
        JsonV::Obj(fields) => seq![0x7bu8] + json_obj_bytes(fields, 0) + seq![0x7du8],
    }
}

/// The rendering of the elements of an array from index `i` on, with a comma
/// before every element but the first.
pub open spec fn json_arr_bytes(elems: Seq<JsonV>, i: int) -> Seq<u8>
    decreases elems, elems.len() - i,
{
    if i < 0 || i >= elems.len() {
        Seq::empty()
    } else {
        let head = json_bytes(elems[i]);
        let sep: Seq<u8> = if i == 0 {
            Seq::empty()
        } else {
            seq![0x2cu8]
        };
        sep + head + json_arr_bytes(elems, i + 1)
    }
}

/// The rendering of the fields of an object from index `i` on.
pub open spec fn json_obj_bytes(fields: Seq<(Seq<char>, JsonV)>, i: int) -> Seq<u8>
    decreases fields, fields.len() - i,
{
    if i < 0 || i >= fields.len() {
        Seq::empty()
    } else {
        let head = json_string_bytes(fields[i].0) + seq![0x3au8] + json_bytes(fields[i].1);
        let sep: Seq<u8> = if i == 0 {
            Seq::empty()
        } else {
            seq![0x2cu8]
        };
        sep + head + json_obj_bytes(fields, i + 1)
    }
}

/// Writes the decimal digits of `n`, most significant first.
pub fn write_uint(n: u64, out: &mut Vec<u8>)
    ensures
        final(out)@ == old(out)@ + dec_digits(n as nat),
    decreases n,
{
    if n >= 10 {
        write_uint(n / 10, out);
    }
    out.push((0x30 + (n % 10) as u8) as u8);
}

/// Writes `s` as a JSON string literal, escapes and all.
pub fn write_json_string(s: &str, out: &mut Vec<u8>)
    ensures
        final(out)@ == old(out)@ + json_string_bytes(s@),
{
    let ghost out0 = out@;
    out.push(0x22);
    let bs = s.as_bytes();
    let n = bs.len();
    let mut i: usize = 0;
    while i < n
        invariant
            n == bs.len(),
            i <= n,
            out@ == out0 + seq![0x22u8] + escape_bytes(bs@.take(i as int)),
        decreases n - i,
    {
        let b = bs[i];
        if b == 0x22 {
            out.push(0x5c);
            out.push(0x22);
        } else if b == 0x5c {
            out.push(0x5c);
            out.push(0x5c);
        } else if b == 0x08 {
            out.push(0x5c);
            out.push(0x62);
        } else if b == 0x09 {
            out.push(0x5c);
            out.push(0x74);
        } else if b == 0x0a {
            out.push(0x5c);
            out.push(0x6e);
        } else if b == 0x0c {
            out.push(0x5c);
            out.push(0x66);
        } else if b == 0x0d {
            out.push(0x5c);
            out.push(0x72);
        } else if b < 0x20 {
            out.push(0x5c);
            out.push(0x75);
            out.push(0x30);
            out.push(0x30);
            let hi = b / 16;
            let lo = b % 16;
            out.push(if hi < 10 { 0x30 + hi } else { 0x61 + (hi - 10) });
            out.push(if lo < 10 { 0x30 + lo } else { 0x61 + (lo - 10) });
        } else {
            out.push(b);
        }
        proof {
            assert(bs@.take(i + 1).drop_last() =~= bs@.take(i as int));
            assert(bs@.take(i + 1).last() == bs@[i as int]);
        }
        i = i + 1;
    }
    out.push(0x22);
    proof {
        assert(bs@.take(n as int) =~= bs@);
        assert(out@ =~= out0 + json_string_bytes(s@));
    }
}

/// Writes the rendering of `v`: exactly the bytes of `json_bytes`.
pub fn write_json(v: &Json, out: &mut Vec<u8>)
    ensures
        final(out)@ == old(out)@ + json_bytes(v@),
    decreases json_view(*v),
{
    match v {
        Json::Null => {
            out.push(0x6e);
            out.push(0x75);
            out.push(0x6c);
            out.push(0x6c);
            proof {
                assert(out@ =~= old(out)@ + json_bytes(v@));
            }
        },
        Json::Bool(b) => {
            if *b {
                out.push(0x74);
                out.push(0x72);
                out.push(0x75);
                out.push(0x65);
            } else {
                out.push(0x66);
                out.push(0x61);
                out.push(0x6c);
                out.push(0x73);
                out.push(0x65);
            }
            proof {
                assert(out@ =~= old(out)@ + json_bytes(v@));
            }
        },
        Json::UInt(n) => {
            write_uint(*n, out);
        },
        Json::Num(t) => {
            let bs = t.as_str().as_bytes();
            let ghost out0 = out@;
            let nb = bs.len();
            let mut i: usize = 0;
            while i < nb
                invariant
                    i <= nb,
                    nb == bs@.len(),
                    out@ == out0 + bs@.take(i as int),
                decreases nb - i,
            {
                out.push(bs[i]);
                proof {
                    assert(out@ =~= out0 + bs@.take(i + 1));
                }
                i = i + 1;
            }
            proof {
                assert(bs@.take(nb as int) =~= bs@);
            }
        },
        Json::Str(s) => {
            write_json_string(s.as_str(), out);
        },
        Json::Arr(elems) => {
            let ghost ev = json_seq_view(elems@);
            proof {
                lemma_json_seq_view_len(elems@);
            }
            out.push(0x5b);
            let n = elems.len();
            let mut i: usize = 0;
            while i < n
                invariant
                    n == elems.len(),
                    i <= n,
                    ev == json_seq_view(elems@),
                    ev.len() == n,
                    forall|k: int| 0 <= k < n ==> ev[k] == json_view(elems@[k]),
                    v == Json::Arr(*elems),
                    out@ + json_arr_bytes(ev, i as int) == old(out)@ + seq![0x5bu8]
                        + json_arr_bytes(ev, 0),
                decreases n - i,
            {
                if i > 0 {
                    out.push(0x2c);
                }
                proof {
                    broadcast use vstd::seq::group_seq_axioms;
                    let ghost vv = json_view(*v);
                    match vv {
                        JsonV::Arr(e) => {
                            assert(e == ev);
                            assert(decreases_to!(vv => e));
                        },
                        _ => {
                            assert(false);
                        },
                    }
                    assert(decreases_to!(ev => ev[i as int]));
                    assert(json_view(elems@[i as int]) == ev[i as int]);
                }
                write_json(&elems[i], out);
                i = i + 1;
            }
            out.push(0x5d);
            proof {
                assert(out@ =~= old(out)@ + json_bytes(v@));
            }
        },
        Json::Obj(fields) => {
            let ghost fv = json_fields_view(fields@);
            proof {
                lemma_json_fields_view_len(fields@);
            }
            out.push(0x7b);
            let n = fields.len();
            let mut i: usize = 0;
            while i < n
                invariant
                    n == fields.len(),
                    i <= n,
                    fv == json_fields_view(fields@),
                    fv.len() == n,
                    forall|k: int|
                        0 <= k < n ==> fv[k] == (fields@[k].0@, json_view(fields@[k].1)),
                    v == Json::Obj(*fields),
                    out@ + json_obj_bytes(fv, i as int) == old(out)@ + seq![0x7bu8]
                        + json_obj_bytes(fv, 0),
                decreases n - i,
            {
                if i > 0 {
                    out.push(0x2c);
                }
                write_json_string(fields[i].0.as_str(), out);
                out.push(0x3a);
                proof {
                    broadcast use vstd::seq::group_seq_axioms;
                    let ghost vv = json_view(*v);
                    match vv {
                        JsonV::Obj(f) => {
                            assert(f == fv);
                            assert(decreases_to!(vv => f));
                        },
                        _ => {
                            assert(false);
                        },
                    }
                    assert(decreases_to!(fv => fv[i as int]));
                    assert(decreases_to!(fv[i as int] => fv[i as int].1));
                    assert(json_view(fields@[i as int].1) == fv[i as int].1);
                }
                write_json(&fields[i].1, out);
                i = i + 1;
            }
            out.push(0x7d);
            proof {
                assert(out@ =~= old(out)@ + json_bytes(v@));
            }
        },
    }
}

/// The rendering of `v` as a byte vector.
pub fn json_to_bytes(v: &Json) -> (r: Vec<u8>)
    ensures
        r@ == json_bytes(v@),
{
    let mut out: Vec<u8> = Vec::new();
    write_json(v, &mut out);
    out
}

// ---------------------------------------------------------------------------
// Parsing. The grammar is JSON with a nesting-depth bound; a document may be
// followed by arbitrary further bytes,
// so that many documents can be read back to back from one stream. Every
// parsing function distinguishes three outcomes: a value (with the position
// one past its last byte), input that ended too early, and input that no
// extension can make into a document.
// ---------------------------------------------------------------------------

/// How deep documents may nest. Deeper input is rejected, which keeps the
/// recursive parser's stack bounded on adversarial input.
pub const JSON_MAX_DEPTH: usize = 128;

/// What a prefix of a byte stream parses to: a value and the position that
/// follows it, a request for more input, or a malformed prefix.
pub enum Parsed<T> {
    Val(T, int),
    More,
    Bad,
}

/// The outcome of an executable parsing step.
pub enum Step<T> {
    Done(T, usize),
    NeedMore,
    Malformed,
}

/// The executable outcome agrees with the specified one.
pub open spec fn step_matches<T: View>(r: Step<T>, p: Parsed<T::V>) -> bool {
    match r {
        Step::Done(v, pos) => p == Parsed::Val(v@, pos as int),
        Step::NeedMore => p is More,
        Step::Malformed => p is Bad,
    }
}

/// A successful step lands strictly past `i` and within the input.
pub open spec fn step_in_range<T>(r: Step<T>, i: int, len: int) -> bool {
    match r {
        Step::Done(v, pos) => i < pos as int <= len,
        Step::NeedMore => true,
        Step::Malformed => true,
    }
}

pub open spec fn is_ws_byte(b: u8) -> bool {
    b == 0x20 || b == 0x09 || b == 0x0a || b == 0x0d
}

pub open spec fn is_digit_byte(b: u8) -> bool {
    0x30 <= b <= 0x39
}

pub open spec fn is_hex_byte(b: u8) -> bool {
    is_digit_byte(b) || (0x41 <= b <= 0x46) || (0x61 <= b <= 0x66)
}

pub open spec fn hex_byte_val(b: u8) -> int {
    if 0x30 <= b <= 0x39 {
        b - 0x30
    } else if 0x41 <= b <= 0x46 {
        b - 0x41 + 10
    } else {
        b - 0x61 + 10
    }
}

/// The position of the first byte at or after `i` that is not whitespace.
pub open spec fn sp_ws(s: Seq<u8>, i: int) -> int
    decreases s.len() - i,
{
    if 0 <= i < s.len() && is_ws_byte(s[i]) {
        sp_ws(s, i + 1)
    } else {
        i
    }
}

/// The value of a run of decimal digit bytes.
pub open spec fn dec_val(ds: Seq<u8>) -> int
    decreases ds.len(),
{
    if ds.len() == 0 {
        0
    } else {
        dec_val(ds.drop_last()) * 10 + (ds.last() - 0x30)
    }
}

/// The position of the first byte at or after `i` that is not a digit.
pub open spec fn sp_digits_end(s: Seq<u8>, i: int) -> int
    decreases s.len() - i,
{
    if 0 <= i < s.len() && is_digit_byte(s[i]) {
        sp_digits_end(s, i + 1)
    } else {
        i
    }
}

/// Parses a number at `i`, which holds a digit or a minus sign: an optional
/// sign, an integer part without a leading zero, an optional fraction, and
/// an optional exponent, maximal. A run that touches the end of the input
/// asks for more, since further digits could follow.
pub open spec fn sp_number(s: Seq<u8>, i: int) -> Parsed<JsonV> {
    let i1 = if 0 <= i < s.len() && s[i] == 0x2d {
        i + 1
    } else {
        i
    };
    if i1 >= s.len() {
        Parsed::More
    } else if !is_digit_byte(s[i1]) {
        Parsed::Bad
    } else {
        let j = sp_digits_end(s, i1);
        if s[i1] == 0x30 && j > i1 + 1 {
            Parsed::Bad
        } else if j < s.len() && s[j] == 0x2e {
            if j + 1 >= s.len() {
                Parsed::More
            } else if !is_digit_byte(s[j + 1]) {
                Parsed::Bad
            } else {
                sp_number_exp(s, i, i1, j, sp_digits_end(s, j + 1), true)
            }
        } else {
            sp_number_exp(s, i, i1, j, j, false)
        }
    }
}

/// Continues a number past its integer and fraction parts: an optional
/// exponent with an optional sign.
pub open spec fn sp_number_exp(
    s: Seq<u8>,
    istart: int,
    i1: int,
    jint: int,
    j2: int,
    frac: bool,
) -> Parsed<JsonV> {
    if j2 < s.len() && (s[j2] == 0x65 || s[j2] == 0x45) {
        let k0 = if j2 + 1 < s.len() && (s[j2 + 1] == 0x2b || s[j2 + 1] == 0x2d) {
            j2 + 2
        } else {
            j2 + 1
        };
        if k0 >= s.len() {
            Parsed::More
        } else if !is_digit_byte(s[k0]) {
            Parsed::Bad
        } else {
            sp_number_fin(s, istart, i1, jint, frac, true, sp_digits_end(s, k0))
        }
    } else {
        sp_number_fin(s, istart, i1, jint, frac, false, j2)
    }
}

/// Finishes a number ending at `jend`: a plain unsigned integer that fits in
/// 64 bits becomes a value; every other form is carried as its literal text.
pub open spec fn sp_number_fin(
    s: Seq<u8>,
    istart: int,
    i1: int,
    jint: int,
    frac: bool,
    exp: bool,
    jend: int,
) -> Parsed<JsonV> {
    if jend >= s.len() {
        Parsed::More
    } else if istart == i1 && !frac && !exp && dec_val(s.subrange(i1, jint)) <= u64::MAX {
        Parsed::Val(JsonV::UInt(dec_val(s.subrange(i1, jint)) as u64), jend)
    } else {
        let b = s.subrange(istart, jend);
        if valid_utf8(b) {
            Parsed::Val(JsonV::Num(decode_utf8(b)), jend)
        } else {
            Parsed::Bad
        }
    }
}

/// Parses the body of a string literal from `j` (just past the opening
/// quote), accumulating the decoded bytes in `acc`; escapes are decoded,
/// `\uXXXX` pairs of surrogates combined, raw control bytes rejected.
pub open spec fn sp_str_body(s: Seq<u8>, j: int, acc: Seq<u8>) -> Parsed<Seq<u8>>
    decreases s.len() - j,
{
    if j < 0 {
        Parsed::Bad
    } else if j >= s.len() {
        Parsed::More
    } else {
        let b = s[j];
        if b == 0x22 {
            Parsed::Val(acc, j + 1)
        } else if b == 0x5c {
            if j + 1 >= s.len() {
                Parsed::More
            } else {
                let e = s[j + 1];
                if e == 0x22 {
                    sp_str_body(s, j + 2, acc.push(0x22))
                } else if e == 0x5c {
                    sp_str_body(s, j + 2, acc.push(0x5c))
                } else if e == 0x2f {
                    sp_str_body(s, j + 2, acc.push(0x2f))
                } else if e == 0x62 {
                    sp_str_body(s, j + 2, acc.push(0x08))
                } else if e == 0x66 {
                    sp_str_body(s, j + 2, acc.push(0x0c))
                } else if e == 0x6e {
                    sp_str_body(s, j + 2, acc.push(0x0a))
                } else if e == 0x72 {
                    sp_str_body(s, j + 2, acc.push(0x0d))
                } else if e == 0x74 {
                    sp_str_body(s, j + 2, acc.push(0x09))
                } else if e == 0x75 {
                    if j + 6 > s.len() {
                        Parsed::More
                    } else if !(is_hex_byte(s[j + 2]) && is_hex_byte(s[j + 3]) && is_hex_byte(
                        s[j + 4],
                    ) && is_hex_byte(s[j + 5])) {
                        Parsed::Bad
                    } else {
                        let h = hex_byte_val(s[j + 2]) * 4096 + hex_byte_val(s[j + 3]) * 256
                            + hex_byte_val(s[j + 4]) * 16 + hex_byte_val(s[j + 5]);
                        if 0xd800 <= h < 0xdc00 {
                            if j + 12 > s.len() {
                                Parsed::More
                            } else if !(s[j + 6] == 0x5c && s[j + 7] == 0x75 && is_hex_byte(
                                s[j + 8],
                            ) && is_hex_byte(s[j + 9]) && is_hex_byte(s[j + 10]) && is_hex_byte(
                                s[j + 11],
                            )) {
                                Parsed::Bad
                            } else {
                                let l = hex_byte_val(s[j + 8]) * 4096 + hex_byte_val(s[j + 9])
                                    * 256 + hex_byte_val(s[j + 10]) * 16 + hex_byte_val(
                                    s[j + 11],
                                );
                                if !(0xdc00 <= l < 0xe000) {
                                    Parsed::Bad
                                } else {
                                    let c = 0x10000 + (h - 0xd800) * 1024 + (l - 0xdc00);
                                    sp_str_body(s, j + 12, acc + encode_scalar(c as u32))
                                }
                            }
                        } else if 0xdc00 <= h < 0xe000 {
                            Parsed::Bad
                        } else {
                            sp_str_body(s, j + 6, acc + encode_scalar(h as u32))
                        }
                    }
                } else {
                    Parsed::Bad
                }
            }
        } else if b < 0x20 {
            Parsed::Bad
        } else {
            sp_str_body(s, j + 1, acc.push(b))
        }
    }
}

/// Parses a string literal at `i` (`i` holds the opening quote), yielding
/// the decoded bytes.
pub open spec fn sp_string(s: Seq<u8>, i: int) -> Parsed<Seq<u8>> {
    sp_str_body(s, i + 1, Seq::empty())
}

/// Parses a value at `i`, which must not be whitespace; `depth` bounds how
/// deep arrays and objects may nest below it.
#[verifier::opaque]
pub open spec fn sp_value(s: Seq<u8>, i: int, depth: nat) -> Parsed<JsonV>
    decreases s.len() - i, 0int,
{
    if i < 0 {
        Parsed::Bad
    } else if i >= s.len() {
        Parsed::More
    } else {
        let b = s[i];
        if b == 0x7b {
            if depth == 0 {
                Parsed::Bad
            } else {
                sp_obj_body(s, i + 1, (depth - 1) as nat, true, Seq::empty())
            }
        } else if b == 0x5b {
            if depth == 0 {
                Parsed::Bad
            } else {
                sp_arr_body(s, i + 1, (depth - 1) as nat, true, Seq::empty())
            }
        } else if b == 0x22 {
            match sp_string(s, i) {
                Parsed::Val(bytes, j) => if valid_utf8(bytes) {
                    Parsed::Val(JsonV::Str(decode_utf8(bytes)), j)
                } else {
                    Parsed::Bad
                },
                Parsed::More => Parsed::More,
                Parsed::Bad => Parsed::Bad,
            }
        } else if b == 0x74 {
            if i + 4 <= s.len() {
                if s[i + 1] == 0x72 && s[i + 2] == 0x75 && s[i + 3] == 0x65 {
                    Parsed::Val(JsonV::Bool(true), i + 4)
                } else {
                    Parsed::Bad
                }
            } else if (i + 1 < s.len() ==> s[i + 1] == 0x72) && (i + 2 < s.len() ==> s[i + 2]
                == 0x75) {
                Parsed::More
            } else {
                Parsed::Bad
            }
        } else if b == 0x66 {
            if i + 5 <= s.len() {
                if s[i + 1] == 0x61 && s[i + 2] == 0x6c && s[i + 3] == 0x73 && s[i + 4] == 0x65 {
                    Parsed::Val(JsonV::Bool(false), i + 5)
                } else {
                    Parsed::Bad
                }
            } else if (i + 1 < s.len() ==> s[i + 1] == 0x61) && (i + 2 < s.len() ==> s[i + 2]
                == 0x6c) && (i + 3 < s.len() ==> s[i + 3] == 0x73) {
                Parsed::More
            } else {
                Parsed::Bad
            }
        } else if b == 0x6e {
            if i + 4 <= s.len() {
                if s[i + 1] == 0x75 && s[i + 2] == 0x6c && s[i + 3] == 0x6c {
                    Parsed::Val(JsonV::Null, i + 4)
                } else {
                    Parsed::Bad
                }
            } else if (i + 1 < s.len() ==> s[i + 1] == 0x75) && (i + 2 < s.len() ==> s[i + 2]
                == 0x6c) {
                Parsed::More
            } else {
                Parsed::Bad
            }
        } else if b == 0x2d || is_digit_byte(b) {
            sp_number(s, i)
        } else {
            Parsed::Bad
        }
    }
}

/// Parses the remainder of an array from `j` (just past the `[` or a comma);
/// `first` says whether no element has been read yet, so that `]` may close
/// the array at once. Positions are clamped to move forward, which the
/// executable parser shows to be vacuous.
#[verifier::opaque]
pub open spec fn sp_arr_body(s: Seq<u8>, j: int, depth: nat, first: bool, acc: Seq<JsonV>) -> Parsed<
    JsonV,
>
    decreases s.len() - j, 1int,
{
    if j < 0 {
        Parsed::Bad
    } else {
        let j1r = sp_ws(s, j);
        let j1 = if j1r >= j {
            j1r
        } else {
            j
        };
        if j1 >= s.len() {
            Parsed::More
        } else if first && s[j1] == 0x5d {
            Parsed::Val(JsonV::Arr(acc), j1 + 1)
        } else {
            match sp_value(s, j1, depth) {
                Parsed::More => Parsed::More,
                Parsed::Bad => Parsed::Bad,
                Parsed::Val(v, j2r) => {
                    let j2 = if j2r > j1 {
                        j2r
                    } else {
                        j1 + 1
                    };
                    let j3r = sp_ws(s, j2);
                    let j3 = if j3r >= j2 {
                        j3r
                    } else {
                        j2
                    };
                    if j3 >= s.len() {
                        Parsed::More
                    } else if s[j3] == 0x2c {
                        sp_arr_body(s, j3 + 1, depth, false, acc.push(v))
                    } else if s[j3] == 0x5d {
                        Parsed::Val(JsonV::Arr(acc.push(v)), j3 + 1)
                    } else {
                        Parsed::Bad
                    }
                },
            }
        }
    }
}

/// Parses the remainder of an object from `j` (just past the `{` or a
/// comma). Keys must be string literals that decode to valid UTF-8.
#[verifier::opaque]
pub open spec fn sp_obj_body(
    s: Seq<u8>,
    j: int,
    depth: nat,
    first: bool,
    acc: Seq<(Seq<char>, JsonV)>,
) -> Parsed<JsonV>
    decreases s.len() - j, 1int,
{
    if j < 0 {
        Parsed::Bad
    } else {
        let j1r = sp_ws(s, j);
        let j1 = if j1r >= j {
            j1r
        } else {
            j
        };
        if j1 >= s.len() {
            Parsed::More
        } else if first && s[j1] == 0x7d {
            Parsed::Val(JsonV::Obj(acc), j1 + 1)
        } else if s[j1] != 0x22 {
            Parsed::Bad
        } else {
            match sp_string(s, j1) {
                Parsed::More => Parsed::More,
                Parsed::Bad => Parsed::Bad,
                Parsed::Val(kb, jkr) => {
                    if !valid_utf8(kb) {
                        Parsed::Bad
                    } else {
                        let k = decode_utf8(kb);
                        let jk = if jkr > j1 {
                            jkr
                        } else {
                            j1 + 1
                        };
                        let j2r = sp_ws(s, jk);
                        let j2 = if j2r >= jk {
                            j2r
                        } else {
                            jk
                        };
                        if j2 >= s.len() {
                            Parsed::More
                        } else if s[j2] != 0x3a {
                            Parsed::Bad
                        } else {
                            let j3r = sp_ws(s, j2 + 1);
                            let j3 = if j3r >= j2 + 1 {
                                j3r
                            } else {
                                j2 + 1
                            };
                            if j3 >= s.len() {
                                Parsed::More
                            } else {
                            match sp_value(s, j3, depth) {
                                Parsed::More => Parsed::More,
                                Parsed::Bad => Parsed::Bad,
                                Parsed::Val(v, j4r) => {
                                    let j4 = if j4r > j3 {
                                        j4r
                                    } else {
                                        j3 + 1
                                    };
                                    let j5r = sp_ws(s, j4);
                                    let j5 = if j5r >= j4 {
                                        j5r
                                    } else {
                                        j4
                                    };
                                    if j5 >= s.len() {
                                        Parsed::More
                                    } else if s[j5] == 0x2c {
                                        sp_obj_body(s, j5 + 1, depth, false, acc.push((k, v)))
                                    } else if s[j5] == 0x7d {
                                        Parsed::Val(JsonV::Obj(acc.push((k, v))), j5 + 1)
                                    } else {
                                        Parsed::Bad
                                    }
                                },
                            }
                            }
                        }
                    }
                },
            }
        }
    }
}

/// Parses one document from the stream at `i`: leading whitespace, then one
/// value. Input that holds only whitespace asks for more.
pub open spec fn sp_doc(s: Seq<u8>, i: int) -> Parsed<JsonV> {
    let j = sp_ws(s, i);
    if j >= s.len() {
        Parsed::More
    } else {
        sp_value(s, j, JSON_MAX_DEPTH as nat)
    }
}


/// Relies on `String::from_utf8`: it returns `Ok` exactly when the bytes are
/// valid UTF-8, and the returned string is made of exactly those bytes.
#[verifier::external_body]
pub(crate) fn bytes_to_string(v: Vec<u8>) -> (r: Option<String>)
    ensures
        r is Some <==> valid_utf8(v@),
        r matches Some(st) ==> encode_utf8(st@) == v@,
{
    String::from_utf8(v).ok()
}

/// Skips whitespace: returns the first position at or after `i` that holds a
/// non-whitespace byte, or the input's length.
pub fn skip_ws(s: &[u8], i: usize) -> (r: usize)
    requires
        i <= s@.len(),
    ensures
        r as int == sp_ws(s@, i as int),
        i <= r <= s@.len(),
{
    let n = s.len();
    let mut j = i;
    while j < n && (s[j] == 0x20 || s[j] == 0x09 || s[j] == 0x0a || s[j] == 0x0d)
        invariant
            i <= j <= n,
            n == s@.len(),
            sp_ws(s@, i as int) == sp_ws(s@, j as int),
        decreases n - j,
    {
        j = j + 1;
    }
    j
}

/// The numeric value of a hexadecimal digit byte.
fn hex_val(b: u8) -> (r: u32)
    requires
        is_hex_byte(b),
    ensures
        r as int == hex_byte_val(b),
        r <= 15,
{
    if 0x30 <= b && b <= 0x39 {
        (b - 0x30) as u32
    } else if 0x41 <= b && b <= 0x46 {
        (b - 0x41 + 10) as u32
    } else {
        (b - 0x61 + 10) as u32
    }
}

/// Appends the UTF-8 encoding of the scalar `c`.
fn push_scalar_utf8(c: u32, out: &mut Vec<u8>)
    requires
        is_scalar(c),
    ensures
        final(out)@ == old(out)@ + encode_scalar(c),
{
    if c <= 0x7f {
        out.push((c & 0x7f) as u8);
    } else if c <= 0x7ff {
        out.push(0xc0 | ((c >> 6) & 0x1f) as u8);
        out.push(0x80 | (c & 0x3f) as u8);
    } else if c <= 0xffff {
        out.push(0xe0 | ((c >> 12) & 0x0f) as u8);
        out.push(0x80 | ((c >> 6) & 0x3f) as u8);
        out.push(0x80 | (c & 0x3f) as u8);
    } else {
        out.push(0xf0 | ((c >> 18) & 0x7) as u8);
        out.push(0x80 | ((c >> 12) & 0x3f) as u8);
        out.push(0x80 | ((c >> 6) & 0x3f) as u8);
        out.push(0x80 | (c & 0x3f) as u8);
    }
    proof {
        assert(final(out)@ =~= old(out)@ + encode_scalar(c));
    }
}

/// The end of the digit run starting at `k`; every byte of the run is a
/// digit.
fn digits_end_from(s: &[u8], k: usize) -> (r: usize)
    requires
        k <= s@.len(),
    ensures
        r as int == sp_digits_end(s@, k as int),
        k <= r <= s@.len(),
        forall|t: int| k <= t < r ==> is_digit_byte(s@[t]),
        k < s@.len() && is_digit_byte(s@[k as int]) ==> r > k,
{
    let n = s.len();
    let mut j = k;
    while j < n && 0x30 <= s[j] && s[j] <= 0x39
        invariant
            k <= j <= n,
            n == s@.len(),
            sp_digits_end(s@, k as int) == sp_digits_end(s@, j as int),
            forall|t: int| k <= t < j ==> is_digit_byte(s@[t]),
        decreases n - j,
    {
        j = j + 1;
    }
    j
}

/// Parses a number at `i`, which must hold a digit or a minus sign.
#[verifier::rlimit(100)]
fn parse_number(s: &[u8], i: usize) -> (r: Step<Json>)
    requires
        i < s@.len(),
        s@[i as int] == 0x2d || is_digit_byte(s@[i as int]),
    ensures
        step_matches(r, sp_number(s@, i as int)),
        step_in_range(r, i as int, s@.len() as int),
{
    let n = s.len();
    let neg = s[i] == 0x2d;
    let i1 = if neg {
        i + 1
    } else {
        i
    };
    if i1 >= n {
        return Step::NeedMore;
    }
    if !(0x30 <= s[i1] && s[i1] <= 0x39) {
        return Step::Malformed;
    }
    let j = digits_end_from(s, i1);
    if s[i1] == 0x30 && j > i1 + 1 {
        return Step::Malformed;
    }
    let mut frac = false;
    let mut j2 = j;
    if j < n && s[j] == 0x2e {
        if j + 1 >= n {
            return Step::NeedMore;
        }
        if !(0x30 <= s[j + 1] && s[j + 1] <= 0x39) {
            return Step::Malformed;
        }
        frac = true;
        j2 = digits_end_from(s, j + 1);
    }
    let mut exp = false;
    let mut jend = j2;
    if j2 < n && (s[j2] == 0x65 || s[j2] == 0x45) {
        let k0 = if j2 + 1 < n && (s[j2 + 1] == 0x2b || s[j2 + 1] == 0x2d) {
            j2 + 2
        } else {
            j2 + 1
        };
        if k0 >= n {
            return Step::NeedMore;
        }
        if !(0x30 <= s[k0] && s[k0] <= 0x39) {
            return Step::Malformed;
        }
        exp = true;
        jend = digits_end_from(s, k0);
    }
    if jend >= n {
        return Step::NeedMore;
    }
    if !neg && !frac && !exp {
        let mut v: u64 = 0;
        let mut ov: bool = false;
        let mut k = i1;
        proof {
            assert(s@.subrange(i1 as int, i1 as int) =~= Seq::<u8>::empty());
            assert(dec_val(Seq::<u8>::empty()) == 0);
        }
        while k < j
            invariant
                i1 <= k <= j <= n,
                n == s@.len(),
                forall|t: int| i1 <= t < j ==> is_digit_byte(s@[t]),
                0 <= dec_val(s@.subrange(i1 as int, k as int)),
                ov == (dec_val(s@.subrange(i1 as int, k as int)) > u64::MAX),
                !ov ==> v as int == dec_val(s@.subrange(i1 as int, k as int)),
            decreases j - k,
        {
            let d = (s[k] - 0x30) as u64;
            proof {
                assert(s@.subrange(i1 as int, k + 1).len() == k + 1 - i1);
                assert(s@.subrange(i1 as int, k + 1).drop_last() =~= s@.subrange(
                    i1 as int,
                    k as int,
                ));
                assert(s@.subrange(i1 as int, k + 1).last() == s@[k as int]);
                assert(dec_val(s@.subrange(i1 as int, k + 1)) == dec_val(
                    s@.subrange(i1 as int, k as int),
                ) * 10 + (s@[k as int] - 0x30));
            }
            if !ov {
                if v > 1844674407370955161 || (v == 1844674407370955161 && d > 5) {
                    ov = true;
                } else {
                    v = v * 10 + d;
                }
            }
            k = k + 1;
        }
        if !ov {
            return Step::Done(Json::UInt(v), jend);
        }
    }
    let bytes = vstd::slice::slice_to_vec(vstd::slice::slice_subrange(s, i, jend));
    let ghost bv = bytes@;
    match bytes_to_string(bytes) {
        Option::Some(t) => {
            proof {
                vstd::utf8::encode_utf8_decode_utf8(t@);
                assert(t@ == decode_utf8(bv));
            }
            Step::Done(Json::Num(t), jend)
        },
        Option::None => Step::Malformed,
    }
}

/// Parses a string literal at `i`, which must hold the opening quote,
/// yielding the decoded bytes.
fn parse_string_bytes(s: &[u8], i: usize) -> (r: Step<Vec<u8>>)
    requires
        i < s@.len(),
        s@[i as int] == 0x22,
    ensures
        step_matches(r, sp_string(s@, i as int)),
        step_in_range(r, i as int, s@.len() as int),
{
    let n = s.len();
    let mut j = i + 1;
    let mut acc: Vec<u8> = Vec::new();
    loop
        invariant
            i < j <= n,
            n == s@.len(),
            sp_str_body(s@, i + 1, Seq::empty()) == sp_str_body(s@, j as int, acc@),
        decreases n - j,
    {
        if j >= n {
            return Step::NeedMore;
        }
        let b = s[j];
        if b == 0x22 {
            return Step::Done(acc, j + 1);
        } else if b == 0x5c {
            if n - j < 2 {
                return Step::NeedMore;
            }
            let e = s[j + 1];
            if e == 0x22 {
                acc.push(0x22);
                j = j + 2;
            } else if e == 0x5c {
                acc.push(0x5c);
                j = j + 2;
            } else if e == 0x2f {
                acc.push(0x2f);
                j = j + 2;
            } else if e == 0x62 {
                acc.push(0x08);
                j = j + 2;
            } else if e == 0x66 {
                acc.push(0x0c);
                j = j + 2;
            } else if e == 0x6e {
                acc.push(0x0a);
                j = j + 2;
            } else if e == 0x72 {
                acc.push(0x0d);
                j = j + 2;
            } else if e == 0x74 {
                acc.push(0x09);
                j = j + 2;
            } else if e == 0x75 {
                if n - j < 6 {
                    return Step::NeedMore;
                }
                let h2 = s[j + 2];
                let h3 = s[j + 3];
                let h4 = s[j + 4];
                let h5 = s[j + 5];
                if !(is_hex(h2) && is_hex(h3) && is_hex(h4) && is_hex(h5)) {
                    return Step::Malformed;
                }
                let h: u32 = hex_val(h2) * 4096 + hex_val(h3) * 256 + hex_val(h4) * 16 + hex_val(
                    h5,
                );
                if 0xd800 <= h && h < 0xdc00 {
                    if n - j < 12 {
                        return Step::NeedMore;
                    }
                    let l8 = s[j + 8];
                    let l9 = s[j + 9];
                    let l10 = s[j + 10];
                    let l11 = s[j + 11];
                    if !(s[j + 6] == 0x5c && s[j + 7] == 0x75 && is_hex(l8) && is_hex(l9)
                        && is_hex(l10) && is_hex(l11)) {
                        return Step::Malformed;
                    }
                    let l: u32 = hex_val(l8) * 4096 + hex_val(l9) * 256 + hex_val(l10) * 16
                        + hex_val(l11);
                    if !(0xdc00 <= l && l < 0xe000) {
                        return Step::Malformed;
                    }
                    let c: u32 = 0x10000 + (h - 0xd800) * 1024 + (l - 0xdc00);
                    push_scalar_utf8(c, &mut acc);
                    j = j + 12;
                } else if 0xdc00 <= h && h < 0xe000 {
                    return Step::Malformed;
                } else {
                    push_scalar_utf8(h, &mut acc);
                    j = j + 6;
                }
            } else {
                return Step::Malformed;
            }
        } else if b < 0x20 {
            return Step::Malformed;
        } else {
            acc.push(b);
            j = j + 1;
        }
    }
}

/// True for a byte that is a hexadecimal digit.
fn is_hex(b: u8) -> (r: bool)
    ensures
        r == is_hex_byte(b),
{
    (0x30 <= b && b <= 0x39) || (0x41 <= b && b <= 0x46) || (0x61 <= b && b <= 0x66)
}

/// Parses the fields of an object from `start` (just past the `{`).
#[verifier::rlimit(100)]
fn parse_obj_tail(s: &[u8], start: usize, d2: usize) -> (r: Step<Json>)
    requires
        1 <= start <= s@.len(),
    ensures
        step_matches(r, sp_obj_body(s@, start as int, d2 as nat, true, Seq::empty())),
        (match r {
            Step::Done(v, p) => start as int <= p as int <= s@.len(),
            _ => true,
        }),
    decreases d2, 1int,
{
    let n = s.len();
    let ghost target = sp_obj_body(
        s@,
        start as int,
        d2 as nat,
        true,
        Seq::<(Seq<char>, JsonV)>::empty(),
    );
    let mut fields: Vec<(String, Json)> = Vec::new();
    let mut j: usize = start;
    let mut first: bool = true;
    proof {
        assert(json_fields_view(fields@) =~= Seq::<(Seq<char>, JsonV)>::empty());
    }
    loop
        invariant
            start <= j <= n,
            n == s@.len(),
            target == sp_obj_body(
                s@,
                start as int,
                d2 as nat,
                true,
                Seq::<(Seq<char>, JsonV)>::empty(),
            ),
            target == sp_obj_body(s@, j as int, d2 as nat, first, json_fields_view(fields@)),
        decreases n - j,
    {
        let ghost accv = json_fields_view(fields@);
        let j1 = skip_ws(s, j);
        if j1 >= n {
            proof {
                reveal(sp_obj_body);
                reveal(sp_value);
                assert(target is More);
            }
            return Step::NeedMore;
        }
        if first && s[j1] == 0x7d {
            proof {
                reveal(sp_obj_body);
                reveal(sp_value);
                assert(target == Parsed::<JsonV>::Val(JsonV::Obj(accv), j1 + 1));
            }
            let r = Json::Obj(fields);
            return Step::Done(r, j1 + 1);
        }
        if s[j1] != 0x22 {
            proof {
                reveal(sp_obj_body);
                reveal(sp_value);
                assert(target is Bad);
            }
            return Step::Malformed;
        }
        match parse_string_bytes(s, j1) {
            Step::NeedMore => {
                proof {
                    reveal(sp_obj_body);
                    assert(target is More);
                }
                return Step::NeedMore;
            },
            Step::Malformed => {
                proof {
                    reveal(sp_obj_body);
                    assert(target is Bad);
                }
                return Step::Malformed;
            },
            Step::Done(kb, jk) => {
                let ghost kbv = kb@;
                match bytes_to_string(kb) {
                    None => {
                        proof {
                            reveal(sp_obj_body);
                            reveal(sp_value);
                            assert(target is Bad);
                        }
                        return Step::Malformed;
                    },
                    Some(key) => {
                        proof {
                            vstd::utf8::encode_utf8_decode_utf8(key@);
                            assert(key@ == decode_utf8(kbv));
                        }
                        let j2 = skip_ws(s, jk);
                        if j2 >= n {
                            proof {
                                reveal(sp_obj_body);
                                reveal(sp_value);
                                assert(target is More);
                            }
                            return Step::NeedMore;
                        }
                        if s[j2] != 0x3a {
                            proof {
                                reveal(sp_obj_body);
                                reveal(sp_value);
                                assert(target is Bad);
                            }
                            return Step::Malformed;
                        }
                        let j3 = skip_ws(s, j2 + 1);
                        if j3 >= n {
                            proof {
                                reveal(sp_obj_body);
                                reveal(sp_value);
                                assert(target is More);
                            }
                            return Step::NeedMore;
                        }
                        match parse_json_value(s, j3, d2) {
                            Step::NeedMore => {
                                proof {
                                    reveal(sp_obj_body);
                                    reveal(sp_value);
                                    assert(target is More);
                                }
                                return Step::NeedMore;
                            },
                            Step::Malformed => {
                                proof {
                                    reveal(sp_obj_body);
                                    reveal(sp_value);
                                    assert(target is Bad);
                                }
                                return Step::Malformed;
                            },
                            Step::Done(v, j4) => {
                                let j5 = skip_ws(s, j4);
                                if j5 >= n {
                                    proof {
                                        reveal(sp_obj_body);
                                        reveal(sp_value);
                                        assert(target is More);
                                    }
                                    return Step::NeedMore;
                                }
                                let ghost vv = v@;
                                if s[j5] == 0x2c || s[j5] == 0x7d {
                                    let ghost pre = fields@;
                                    let closing = s[j5] == 0x7d;
                                    fields.push((key, v));
                                    proof {
                                        reveal(sp_obj_body);
                                        reveal(sp_value);
                                        assert(fields@.drop_last() =~= pre);
                                        assert(fields@.last() == (key, v));
                                        assert(json_fields_view(fields@) == json_fields_view(
                                            pre,
                                        ).push((key@, json_view(v))));
                                        assert(json_fields_view(fields@) == accv.push(
                                            (decode_utf8(kbv), vv),
                                        ));
                                        if closing {
                                            assert(target == Parsed::<JsonV>::Val(
                                                JsonV::Obj(accv.push((decode_utf8(kbv), vv))),
                                                j5 + 1,
                                            ));
                                        } else {
                                            assert(target == sp_obj_body(
                                                s@,
                                                j5 + 1,
                                                d2 as nat,
                                                false,
                                                accv.push((decode_utf8(kbv), vv)),
                                            ));
                                        }
                                    }
                                    if closing {
                                        let r = Json::Obj(fields);
                                        return Step::Done(r, j5 + 1);
                                    }
                                    j = j5 + 1;
                                    first = false;
                                } else {
                                    proof {
                                        reveal(sp_obj_body);
                                        reveal(sp_value);
                                        assert(target is Bad);
                                    }
                                    return Step::Malformed;
                                }
                            },
                        }
                    },
                }
            },
        }
    }
}

/// Parses the elements of an array from `start` (just past the `[`).
#[verifier::rlimit(100)]
fn parse_arr_tail(s: &[u8], start: usize, d2: usize) -> (r: Step<Json>)
    requires
        1 <= start <= s@.len(),
    ensures
        step_matches(r, sp_arr_body(s@, start as int, d2 as nat, true, Seq::empty())),
        (match r {
            Step::Done(v, p) => start as int <= p as int <= s@.len(),
            _ => true,
        }),
    decreases d2, 1int,
{
    let n = s.len();
    let ghost target = sp_arr_body(s@, start as int, d2 as nat, true, Seq::<JsonV>::empty());
    let mut elems: Vec<Json> = Vec::new();
    let mut j: usize = start;
    let mut first: bool = true;
    proof {
        assert(json_seq_view(elems@) =~= Seq::<JsonV>::empty());
    }
    loop
        invariant
            start <= j <= n,
            n == s@.len(),
            target == sp_arr_body(s@, start as int, d2 as nat, true, Seq::<JsonV>::empty()),
            target == sp_arr_body(s@, j as int, d2 as nat, first, json_seq_view(elems@)),
        decreases n - j,
    {
        let ghost accv = json_seq_view(elems@);
        let j1 = skip_ws(s, j);
        if j1 >= n {
            proof {
                reveal(sp_arr_body);
                reveal(sp_value);
                assert(target is More);
            }
            return Step::NeedMore;
        }
        if first && s[j1] == 0x5d {
            proof {
                reveal(sp_arr_body);
                reveal(sp_value);
                assert(target == Parsed::<JsonV>::Val(JsonV::Arr(accv), j1 + 1));
            }
            let r = Json::Arr(elems);
            return Step::Done(r, j1 + 1);
        }
        match parse_json_value(s, j1, d2) {
            Step::NeedMore => {
                proof {
                    reveal(sp_arr_body);
                    reveal(sp_value);
                    assert(target is More);
                }
                return Step::NeedMore;
            },
            Step::Malformed => {
                proof {
                    reveal(sp_arr_body);
                    reveal(sp_value);
                    assert(target is Bad);
                }
                return Step::Malformed;
            },
            Step::Done(v, j2) => {
                let j3 = skip_ws(s, j2);
                if j3 >= n {
                    proof {
                        reveal(sp_arr_body);
                        reveal(sp_value);
                        assert(target is More);
                    }
                    return Step::NeedMore;
                }
                let ghost vv = v@;
                if s[j3] == 0x2c || s[j3] == 0x5d {
                    let ghost pre = elems@;
                    let closing = s[j3] == 0x5d;
                    elems.push(v);
                    proof {
                        reveal(sp_arr_body);
                        reveal(sp_value);
                        assert(elems@.drop_last() =~= pre);
                        assert(elems@.last() == v);
                        assert(json_seq_view(elems@) == json_seq_view(pre).push(json_view(v)));
                        assert(json_seq_view(elems@) == accv.push(vv));
                        if closing {
                            assert(target == Parsed::<JsonV>::Val(
                                JsonV::Arr(accv.push(vv)),
                                j3 + 1,
                            ));
                        } else {
                            assert(target == sp_arr_body(
                                s@,
                                j3 + 1,
                                d2 as nat,
                                false,
                                accv.push(vv),
                            ));
                        }
                    }
                    if closing {
                        let r = Json::Arr(elems);
                        return Step::Done(r, j3 + 1);
                    }
                    j = j3 + 1;
                    first = false;
                } else {
                    proof {
                        reveal(sp_arr_body);
                        reveal(sp_value);
                        assert(target is Bad);
                    }
                    return Step::Malformed;
                }
            },
        }
    }
}

/// Parses one JSON value at `i`, which must not be whitespace; nesting below
/// it is bounded by `depth`.
#[verifier::rlimit(100)]
pub fn parse_json_value(s: &[u8], i: usize, depth: usize) -> (r: Step<Json>)
    ensures
        step_matches(r, sp_value(s@, i as int, depth as nat)),
        step_in_range(r, i as int, s@.len() as int),
    decreases depth, 0int,
{
    let ghost target = sp_value(s@, i as int, depth as nat);
    let n = s.len();
    if i >= n {
        proof {
            reveal(sp_value);
            assert(target is More);
        }
        return Step::NeedMore;
    }
    let b = s[i];
    if b == 0x7b {
        if depth == 0 {
            proof {
                reveal(sp_value);
                assert(target is Bad);
            }
            return Step::Malformed;
        }
        let d2 = depth - 1;
        proof {
            reveal(sp_value);
            reveal(sp_obj_body);
            assert(target == sp_obj_body(
                s@,
                i + 1,
                d2 as nat,
                true,
                Seq::<(Seq<char>, JsonV)>::empty(),
            ));
        }
        parse_obj_tail(s, i + 1, d2)
    } else if b == 0x5b {
        if depth == 0 {
            proof {
                reveal(sp_value);
                assert(target is Bad);
            }
            return Step::Malformed;
        }
        let d2 = depth - 1;
        proof {
            reveal(sp_value);
            reveal(sp_arr_body);
            assert(target == sp_arr_body(s@, i + 1, d2 as nat, true, Seq::<JsonV>::empty()));
        }
        parse_arr_tail(s, i + 1, d2)
    } else if b == 0x22 {
        match parse_string_bytes(s, i) {
            Step::NeedMore => {
                proof {
                    reveal(sp_value);
                    assert(target is More);
                }
                Step::NeedMore
            },
            Step::Malformed => {
                proof {
                    reveal(sp_value);
                    assert(target is Bad);
                }
                Step::Malformed
            },
            Step::Done(bytes, j) => {
                let ghost bv = bytes@;
                match bytes_to_string(bytes) {
                    None => {
                        proof {
                            reveal(sp_value);
                            assert(target is Bad);
                        }
                        Step::Malformed
                    },
                    Some(st) => {
                        proof {
                            reveal(sp_value);
                            vstd::utf8::encode_utf8_decode_utf8(st@);
                            assert(st@ == decode_utf8(bv));
                            assert(target == Parsed::<JsonV>::Val(
                                JsonV::Str(decode_utf8(bv)),
                                j as int,
                            ));
                        }
                        Step::Done(Json::Str(st), j)
                    },
                }
            },
        }
    } else if b == 0x74 {
        if n - i >= 4 {
            if s[i + 1] == 0x72 && s[i + 2] == 0x75 && s[i + 3] == 0x65 {
                proof {
                    reveal(sp_value);
                    assert(target == Parsed::<JsonV>::Val(JsonV::Bool(true), i + 4));
                }
                Step::Done(Json::Bool(true), i + 4)
            } else {
                proof {
                    reveal(sp_value);
                    assert(target is Bad);
                }
                Step::Malformed
            }
        } else if (n - i <= 1 || s[i + 1] == 0x72) && (n - i <= 2 || s[i + 2] == 0x75) {
            proof {
                reveal(sp_value);
                assert(target is More);
            }
            Step::NeedMore
        } else {
            proof {
                reveal(sp_value);
                assert(target is Bad);
            }
            Step::Malformed
        }
    } else if b == 0x66 {
        if n - i >= 5 {
            if s[i + 1] == 0x61 && s[i + 2] == 0x6c && s[i + 3] == 0x73 && s[i + 4] == 0x65 {
                proof {
                    reveal(sp_value);
                    assert(target == Parsed::<JsonV>::Val(JsonV::Bool(false), i + 5));
                }
                Step::Done(Json::Bool(false), i + 5)
            } else {
                proof {
                    reveal(sp_value);
                    assert(target is Bad);
                }
                Step::Malformed
            }
        } else if (n - i <= 1 || s[i + 1] == 0x61) && (n - i <= 2 || s[i + 2] == 0x6c) && (n - i
            <= 3 || s[i + 3] == 0x73) {
            proof {
                reveal(sp_value);
                assert(target is More);
            }
            Step::NeedMore
        } else {
            proof {
                reveal(sp_value);
                assert(target is Bad);
            }
            Step::Malformed
        }
    } else if b == 0x6e {
        if n - i >= 4 {
            if s[i + 1] == 0x75 && s[i + 2] == 0x6c && s[i + 3] == 0x6c {
                proof {
                    reveal(sp_value);
                    assert(target == Parsed::<JsonV>::Val(JsonV::Null, i + 4));
                }
                Step::Done(Json::Null, i + 4)
            } else {
                proof {
                    reveal(sp_value);
                    assert(target is Bad);
                }
                Step::Malformed
            }
        } else if (n - i <= 1 || s[i + 1] == 0x75) && (n - i <= 2 || s[i + 2] == 0x6c) {
            proof {
                reveal(sp_value);
                assert(target is More);
            }
            Step::NeedMore
        } else {
            proof {
                reveal(sp_value);
                assert(target is Bad);
            }
            Step::Malformed
        }
    } else if b == 0x2d || (0x30 <= b && b <= 0x39) {
        proof {
            reveal(sp_value);
            assert(target == sp_number(s@, i as int));
        }
        parse_number(s, i)
    } else {
        proof {
            reveal(sp_value);
            assert(target is Bad);
        }
        Step::Malformed
    }
}

/// Parses one document from the stream at `i`: leading whitespace, then one
/// value, nested at most `JSON_MAX_DEPTH` deep.
pub fn parse_json_doc(s: &[u8], i: usize) -> (r: Step<Json>)
    requires
        i <= s@.len(),
    ensures
        step_matches(r, sp_doc(s@, i as int)),
        step_in_range(r, i as int, s@.len() as int),
{
    let j = skip_ws(s, i);
    if j >= s.len() {
        return Step::NeedMore;
    }
    parse_json_value(s, j, JSON_MAX_DEPTH)
}

/// True when nothing but whitespace stands at or after `i`: a stream may end
/// cleanly there.
pub fn only_ws_remains(s: &[u8], i: usize) -> (r: bool)
    requires
        i <= s@.len(),
    ensures
        r == (sp_ws(s@, i as int) >= s@.len()),
{
    let j = skip_ws(s, i);
    j >= s.len()
}

} // verus!
