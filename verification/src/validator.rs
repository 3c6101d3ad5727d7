//! The configuration validator: text in, categorized diagnostics out.
//!
//! A configuration is a sequence of parenthesized blocks. The validator
//! first reads the text as s-expressions; a reading failure is one syntax
//! diagnostic with the line and column of the failure. A well-read
//! configuration is then checked structurally: it must hold exactly one
//! `defsrc` block with at least one key and at least one `deflayer` block
//! whose key count matches `defsrc`; a file-inclusion directive takes
//! exactly one path; a block with an unrecognized name is a warning, never
//! an error. The exact diagnostic lists are pinned down by `config_errors`
//! and `config_warnings`.

use vstd::prelude::*;

verus! {

use crate::protocol::{
    ValidationError,
    ValidationErrorV,
    ServerMessage,
    ServerMessageV,
    verrs_view,
    lemma_verrs_view,
    opt_str_view,
};
use crate::sexpr::{
    SExprV,
    SimpleSExpr,
    SxErrKind,
    SxFormsStep,
    forms_view,
    line_of,
    col_of,
    parse_sexprs,
    pos_line_col,
    sx_parse_ok,
    sx_parse_err,
    sx_view,
    lemma_sx_seq_view_len,
    lemma_forms_view,
};
use crate::protocol::str_is;
use vstd::utf8::encode_utf8;

/// The head name of a form: the first element, when the form is a list that
/// begins with an atom.
pub open spec fn head_of(f: SExprV) -> Option<Seq<char>> {
    match f {
        SExprV::List(items) => if items.len() > 0 {
            match items[0] {
                SExprV::Atom(a) => Option::Some(a),
                _ => Option::None,
            }
        } else {
            Option::None
        },
        SExprV::Atom(_) => Option::None,
    }
}

/// The name of the file-inclusion directive.
pub open spec fn import_word() -> Seq<char> {
    "inclu"@ + "de"@
}

/// The block names the validator recognizes.
pub open spec fn known_head(h: Seq<char>) -> bool {
    ||| h == "defsrc"@
    ||| h == "deflayer"@
    ||| h == "defcfg"@
    ||| h == "defalias"@
    ||| h == "defvar"@
    ||| h == "deffakekeys"@
    ||| h == "defvirtualkeys"@
    ||| h == "defchords"@
    ||| h == "defseq"@
    ||| h == "deftemplate"@
    ||| h == "defoverrides"@
    ||| h == "deflayermap"@
    ||| h == "deflocalkeys-win"@
    ||| h == "deflocalkeys-winiov2"@
    ||| h == "deflocalkeys-wintercept"@
    ||| h == "deflocalkeys-linux"@
    ||| h == "deflocalkeys-macos"@
    ||| h == import_word()
}

/// How many forms have the given head, from `i` on.
pub open spec fn count_heads(forms: Seq<(SExprV, int)>, h: Seq<char>, i: int) -> int
    decreases forms.len() - i,
{
    if i < 0 || i >= forms.len() {
        0
    } else {
        (if head_of(forms[i].0) == Option::Some(h) {
            1int
        } else {
            0int
        }) + count_heads(forms, h, i + 1)
    }
}

/// The index of the first form with the given head, or the length.
pub open spec fn first_head(forms: Seq<(SExprV, int)>, h: Seq<char>, i: int) -> int
    decreases forms.len() - i,
{
    if i < 0 || i >= forms.len() {
        forms.len() as int
    } else if head_of(forms[i].0) == Option::Some(h) {
        i
    } else {
        first_head(forms, h, i + 1)
    }
}

/// The number of keys the `defsrc` block declares, or `-1` without one.
pub open spec fn defsrc_keys(forms: Seq<(SExprV, int)>) -> int {
    let i = first_head(forms, "defsrc"@, 0);
    if 0 <= i < forms.len() {
        match forms[i].0 {
            SExprV::List(items) => items.len() - 1,
            SExprV::Atom(_) => -1,
        }
    } else {
        -1
    }
}

/// A diagnostic of severity error in the named category.
pub open spec fn err_diag(line: int, msg: Seq<char>, category: Seq<char>) -> ValidationErrorV {
    ValidationErrorV {
        line: line as usize,
        message: msg,
        severity: "error"@,
        column: Option::None,
        file: Option::Some("configuration"@),
        category: Option::Some(category),
        help_text: Option::None,
    }
}

/// A warning diagnostic.
pub open spec fn warn_diag(line: int, msg: Seq<char>) -> ValidationErrorV {
    ValidationErrorV {
        line: line as usize,
        message: msg,
        severity: "warning"@,
        column: Option::None,
        file: Option::Some("configuration"@),
        category: Option::Some("semantic"@),
        help_text: Option::None,
    }
}

/// The message of a reading failure.
pub open spec fn syn_msg(k: SxErrKind) -> Seq<char> {
    match k {
        SxErrKind::UnmatchedClose => "unmatched closing parenthesis"@,
        SxErrKind::UnclosedParen => "unclosed parenthesis"@,
        SxErrKind::UnterminatedString => "unterminated string"@,
        SxErrKind::TooDeep => "configuration nests too deeply"@,
        SxErrKind::BadText => "configuration text is not valid UTF-8"@,
    }
}

/// The one diagnostic of a reading failure, with line and column.
pub open spec fn syn_diag(s: Seq<u8>, p: int, k: SxErrKind) -> ValidationErrorV {
    ValidationErrorV {
        line: line_of(s, p) as usize,
        message: syn_msg(k),
        severity: "error"@,
        column: Option::Some(col_of(s, p) as usize),
        file: Option::Some("configuration"@),
        category: Option::Some("syntax"@),
        help_text: Option::None,
    }
}

/// The errors one form contributes, given the `defsrc` key count.
pub open spec fn form_errs(f: SExprV, line: int, src_keys: int) -> Seq<ValidationErrorV> {
    match head_of(f) {
        Option::None => seq![
            err_diag(line, "a top-level item must be a parenthesized block beginning with a name"@, "semantic"@),
        ],
        Option::Some(h) => {
            if h == "defsrc"@ {
                match f {
                    SExprV::List(items) => if items.len() < 2 {
                        seq![err_diag(line, "defsrc has no keys"@, "semantic"@)]
                    } else {
                        Seq::empty()
                    },
                    SExprV::Atom(_) => Seq::empty(),
                }
            } else if h == "deflayer"@ {
                match f {
                    SExprV::List(items) => if items.len() < 2 || !(items[1] is Atom) {
                        seq![err_diag(line, "deflayer needs a name"@, "semantic"@)]
                    } else if src_keys >= 0 && items.len() - 2 != src_keys {
                        seq![
                            err_diag(line, "deflayer key count differs from defsrc"@, "semantic"@),
                        ]
                    } else {
                        Seq::empty()
                    },
                    SExprV::Atom(_) => Seq::empty(),
                }
            } else if h == import_word() {
                match f {
                    SExprV::List(items) => if items.len() != 2 || !(items[1] is Atom) {
                        seq![
                            err_diag(line, "the file-inclusion directive takes exactly one path"@, import_word()),
                        ]
                    } else {
                        Seq::empty()
                    },
                    SExprV::Atom(_) => Seq::empty(),
                }
            } else {
                Seq::empty()
            }
        },
    }
}

/// The warnings one form contributes.
pub open spec fn form_warns(f: SExprV, line: int) -> Seq<ValidationErrorV> {
    match head_of(f) {
        Option::Some(h) => if !known_head(h) {
            seq![warn_diag(line, "unrecognized configuration block"@)]
        } else {
            Seq::empty()
        },
        Option::None => Seq::empty(),
    }
}

/// The errors of the forms from `i` on, in order.
pub open spec fn forms_errs(s: Seq<u8>, forms: Seq<(SExprV, int)>, src_keys: int, i: int) -> Seq<
    ValidationErrorV,
>
    decreases forms.len() - i,
{
    if i < 0 || i >= forms.len() {
        Seq::empty()
    } else {
        form_errs(forms[i].0, line_of(s, forms[i].1), src_keys) + forms_errs(
            s,
            forms,
            src_keys,
            i + 1,
        )
    }
}

/// The warnings of the forms from `i` on, in order.
pub open spec fn forms_warns(s: Seq<u8>, forms: Seq<(SExprV, int)>, i: int) -> Seq<
    ValidationErrorV,
>
    decreases forms.len() - i,
{
    if i < 0 || i >= forms.len() {
        Seq::empty()
    } else {
        form_warns(forms[i].0, line_of(s, forms[i].1)) + forms_warns(s, forms, i + 1)
    }
}

/// The whole-configuration errors: presence and multiplicity of the
/// required blocks.
pub open spec fn global_errs(forms: Seq<(SExprV, int)>) -> Seq<ValidationErrorV> {
    let dsrc = count_heads(forms, "defsrc"@, 0);
    let dlay = count_heads(forms, "deflayer"@, 0);
    (if dsrc == 0 {
        seq![err_diag(1, "missing defsrc block"@, "semantic"@)]
    } else if dsrc > 1 {
        seq![err_diag(1, "more than one defsrc block"@, "semantic"@)]
    } else {
        Seq::empty()
    }) + (if dlay == 0 {
        seq![err_diag(1, "missing deflayer block"@, "semantic"@)]
    } else {
        Seq::empty()
    })
}

/// Every error the validator reports for this text, in order.
pub open spec fn config_errors(s: Seq<u8>) -> Seq<ValidationErrorV> {
    match sx_parse_err(s) {
        Option::Some((p, k)) => seq![syn_diag(s, p, k)],
        Option::None => {
            let forms = sx_parse_ok(s)->0;
            if forms.len() == 0 {
                seq![err_diag(1, "configuration is empty"@, "semantic"@)]
            } else {
                global_errs(forms) + forms_errs(s, forms, defsrc_keys(forms), 0)
            }
        },
    }
}

/// Every warning the validator reports for this text, in order.
pub open spec fn config_warnings(s: Seq<u8>) -> Seq<ValidationErrorV> {
    match sx_parse_err(s) {
        Option::Some(_) => Seq::empty(),
        Option::None => {
            let forms = sx_parse_ok(s)->0;
            if forms.len() == 0 {
                Seq::empty()
            } else {
                forms_warns(s, forms, 0)
            }
        },
    }
}


/// The errors of a configuration given as text.
pub open spec fn cfg_errors_of(text: Seq<char>) -> Seq<ValidationErrorV> {
    config_errors(encode_utf8(text))
}

/// The warnings of a configuration given as text.
pub open spec fn cfg_warnings_of(text: Seq<char>) -> Seq<ValidationErrorV> {
    config_warnings(encode_utf8(text))
}

/// The `defsrc` key count as the executable code carries it.
pub open spec fn keys_int(o: Option<usize>) -> int {
    match o {
        Option::Some(k) => k as int,
        Option::None => -1,
    }
}

/// An error diagnostic with an owned category name.
fn err_with(line: usize, msg: &str, cat: String) -> (r: ValidationError)
    ensures
        r@ == err_diag(line as int, msg@, cat@),
{
    ValidationError {
        line,
        message: String::from_str(msg),
        severity: String::from_str("error"),
        column: Option::None,
        file: Option::Some(String::from_str("configuration")),
        category: Option::Some(cat),
        help_text: Option::None,
    }
}

/// A warning diagnostic.
fn warn_with(line: usize, msg: &str) -> (r: ValidationError)
    ensures
        r@ == warn_diag(line as int, msg@),
{
    ValidationError {
        line,
        message: String::from_str(msg),
        severity: String::from_str("warning"),
        column: Option::None,
        file: Option::Some(String::from_str("configuration")),
        category: Option::Some(String::from_str("semantic")),
        help_text: Option::None,
    }
}

/// The file-inclusion directive's name, as an owned string.
fn import_name() -> (r: String)
    ensures
        r@ == import_word(),
{
    String::from_str("inclu").concat("de")
}

/// The head name of a form, when it has one.
fn head_name<'a>(f: &'a SimpleSExpr) -> (r: Option<&'a String>)
    ensures
        (match r {
            Option::Some(h) => head_of(f@) == Option::Some(h@),
            Option::None => head_of(f@) is None,
        }),
{
    match f {
        SimpleSExpr::List(items) => {
            proof {
                lemma_sx_seq_view_len(items@);
            }
            if items.len() > 0 {
                match &items[0] {
                    SimpleSExpr::Atom(a) => Option::Some(a),
                    _ => Option::None,
                }
            } else {
                Option::None
            }
        },
        _ => Option::None,
    }
}

/// Whether the validator recognizes this block name.
fn is_known_head(h: &str) -> (r: bool)
    ensures
        r == known_head(h@),
{
    let imp = import_name();
    str_is(h, "defsrc") || str_is(h, "deflayer") || str_is(h, "defcfg") || str_is(h, "defalias")
        || str_is(h, "defvar") || str_is(h, "deffakekeys") || str_is(h, "defvirtualkeys")
        || str_is(h, "defchords") || str_is(h, "defseq") || str_is(h, "deftemplate") || str_is(
        h,
        "defoverrides",
    ) || str_is(h, "deflayermap") || str_is(h, "deflocalkeys-win") || str_is(
        h,
        "deflocalkeys-winiov2",
    ) || str_is(h, "deflocalkeys-wintercept") || str_is(h, "deflocalkeys-linux") || str_is(
        h,
        "deflocalkeys-macos",
    ) || str_is(h, imp.as_str())
}

/// How many forms have the given head.
fn count_heads_in(v: &Vec<(SimpleSExpr, usize)>, h: &str) -> (r: usize)
    ensures
        r as int == count_heads(forms_view(v@), h@, 0),
        r <= v@.len(),
{
    let ghost fv = forms_view(v@);
    proof {
        lemma_forms_view(v@);
    }
    let n = v.len();
    let mut c: usize = 0;
    let mut i: usize = 0;
    while i < n
        invariant
            i <= n,
            c <= i,
            n == v@.len(),
            fv == forms_view(v@),
            fv.len() == n,
            forall|k: int| 0 <= k < n ==> fv[k] == (sx_view(v@[k].0), v@[k].1 as int),
            count_heads(fv, h@, 0) == c + count_heads(fv, h@, i as int),
        decreases n - i,
    {
        let hit = match head_name(&v[i].0) {
            Option::Some(name) => str_is(name.as_str(), h),
            Option::None => false,
        };
        if hit {
            c = c + 1;
        }
        i = i + 1;
    }
    c
}

/// The `defsrc` key count, when a `defsrc` block exists.
fn defsrc_key_count(v: &Vec<(SimpleSExpr, usize)>) -> (r: Option<usize>)
    ensures
        keys_int(r) == defsrc_keys(forms_view(v@)),
{
    let ghost fv = forms_view(v@);
    proof {
        lemma_forms_view(v@);
    }
    let n = v.len();
    let mut i: usize = 0;
    while i < n
        invariant
            i <= n,
            n == v@.len(),
            fv == forms_view(v@),
            fv.len() == n,
            forall|k: int| 0 <= k < n ==> fv[k] == (sx_view(v@[k].0), v@[k].1 as int),
            first_head(fv, "defsrc"@, 0) == first_head(fv, "defsrc"@, i as int),
        decreases n - i,
    {
        let hit = match head_name(&v[i].0) {
            Option::Some(name) => str_is(name.as_str(), "defsrc"),
            Option::None => false,
        };
        if hit {
            match &v[i].0 {
                SimpleSExpr::List(items) => {
                    proof {
                        lemma_sx_seq_view_len(items@);
                    }
                    return Option::Some(items.len() - 1);
                },
                _ => {
                    proof {
                        assert(false);
                    }
                },
            }
        }
        i = i + 1;
    }
    Option::None
}

/// The errors this form contributes, given the `defsrc` key count.
fn form_error(f: &SimpleSExpr, line: usize, src: Option<usize>) -> (r: Option<ValidationError>)
    ensures
        (match r {
            Option::Some(e) => form_errs(f@, line as int, keys_int(src)) == seq![e@],
            Option::None => form_errs(f@, line as int, keys_int(src)) == Seq::<
                ValidationErrorV,
            >::empty(),
        }),
{
    let h = match head_name(f) {
        Option::Some(h) => h,
        Option::None => {
            return Option::Some(
                err_with(
                    line,
                    "a top-level item must be a parenthesized block beginning with a name",
                    String::from_str("semantic"),
                ),
            );
        },
    };
    let imp = import_name();
    if str_is(h.as_str(), "defsrc") {
        match f {
            SimpleSExpr::List(items) => {
                proof {
                    lemma_sx_seq_view_len(items@);
                }
                if items.len() < 2 {
                    Option::Some(
                        err_with(line, "defsrc has no keys", String::from_str("semantic")),
                    )
                } else {
                    Option::None
                }
            },
            _ => Option::None,
        }
    } else if str_is(h.as_str(), "deflayer") {
        match f {
            SimpleSExpr::List(items) => {
                proof {
                    lemma_sx_seq_view_len(items@);
                }
                let named = if items.len() < 2 {
                    false
                } else {
                    match &items[1] {
                        SimpleSExpr::Atom(_) => true,
                        _ => false,
                    }
                };
                if !named {
                    Option::Some(
                        err_with(line, "deflayer needs a name", String::from_str("semantic")),
                    )
                } else {
                    let mismatch = match src {
                        Option::Some(k) => items.len() - 2 != k,
                        Option::None => false,
                    };
                    if mismatch {
                        Option::Some(
                            err_with(
                                line,
                                "deflayer key count differs from defsrc",
                                String::from_str("semantic"),
                            ),
                        )
                    } else {
                        Option::None
                    }
                }
            },
            _ => Option::None,
        }
    } else if str_is(h.as_str(), imp.as_str()) {
        match f {
            SimpleSExpr::List(items) => {
                proof {
                    lemma_sx_seq_view_len(items@);
                }
                let good = if items.len() != 2 {
                    false
                } else {
                    match &items[1] {
                        SimpleSExpr::Atom(_) => true,
                        _ => false,
                    }
                };
                if !good {
                    Option::Some(
                        err_with(
                            line,
                            "the file-inclusion directive takes exactly one path",
                            import_name(),
                        ),
                    )
                } else {
                    Option::None
                }
            },
            _ => Option::None,
        }
    } else {
        Option::None
    }
}

/// The warning this form contributes.
fn form_warning(f: &SimpleSExpr, line: usize) -> (r: Option<ValidationError>)
    ensures
        (match r {
            Option::Some(e) => form_warns(f@, line as int) == seq![e@],
            Option::None => form_warns(f@, line as int) == Seq::<ValidationErrorV>::empty(),
        }),
{
    match head_name(f) {
        Option::Some(h) => {
            if !is_known_head(h.as_str()) {
                Option::Some(warn_with(line, "unrecognized configuration block"))
            } else {
                Option::None
            }
        },
        Option::None => Option::None,
    }
}

/// Validates configuration text: every error and warning, in order, exactly
/// as `cfg_errors_of` and `cfg_warnings_of` give them.
#[verifier::rlimit(100)]
pub fn validate_config_str(content: &str) -> (r: (Vec<ValidationError>, Vec<ValidationError>))
    ensures
        verrs_view(r.0@) == cfg_errors_of(content@),
        verrs_view(r.1@) == cfg_warnings_of(content@),
{
    let bs = content.as_bytes();
    let mut errors: Vec<ValidationError> = Vec::new();
    let mut warnings: Vec<ValidationError> = Vec::new();
    proof {
        assert(verrs_view(errors@) =~= Seq::<ValidationErrorV>::empty());
        assert(verrs_view(warnings@) =~= Seq::<ValidationErrorV>::empty());
    }
    match parse_sexprs(bs) {
        SxFormsStep::Fail(p, k) => {
            let (line, col) = pos_line_col(bs, p);
            let msg: &str = match k {
                SxErrKind::UnmatchedClose => "unmatched closing parenthesis",
                SxErrKind::UnclosedParen => "unclosed parenthesis",
                SxErrKind::UnterminatedString => "unterminated string",
                SxErrKind::TooDeep => "configuration nests too deeply",
                SxErrKind::BadText => "configuration text is not valid UTF-8",
            };
            let ghost pre = errors@;
            errors.push(
                ValidationError {
                    line,
                    message: String::from_str(msg),
                    severity: String::from_str("error"),
                    column: Option::Some(col),
                    file: Option::Some(String::from_str("configuration")),
                    category: Option::Some(String::from_str("syntax")),
                    help_text: Option::None,
                },
            );
            proof {
                assert(errors@.drop_last() =~= pre);
                assert(verrs_view(errors@) =~= seq![syn_diag(bs@, p as int, k)]);
            }
            (errors, warnings)
        },
        SxFormsStep::Done(v) => {
            let ghost fv = forms_view(v@);
            proof {
                lemma_forms_view(v@);
            }
            let n = v.len();
            if n == 0 {
                let ghost pre = errors@;
                errors.push(
                    err_with(1, "configuration is empty", String::from_str("semantic")),
                );
                proof {
                    assert(errors@.drop_last() =~= pre);
                    assert(verrs_view(errors@) =~= seq![
                        err_diag(1, "configuration is empty"@, "semantic"@),
                    ]);
                }
                return (errors, warnings);
            }
            let dsrc = count_heads_in(&v, "defsrc");
            let dlay = count_heads_in(&v, "deflayer");
            if dsrc == 0 {
                let ghost pre = errors@;
                errors.push(err_with(1, "missing defsrc block", String::from_str("semantic")));
                proof {
                    assert(errors@.drop_last() =~= pre);
                    assert(verrs_view(errors@) =~= verrs_view(pre).push(
                        err_diag(1, "missing defsrc block"@, "semantic"@),
                    ));
                }
            } else if dsrc > 1 {
                let ghost pre = errors@;
                errors.push(
                    err_with(1, "more than one defsrc block", String::from_str("semantic")),
                );
                proof {
                    assert(errors@.drop_last() =~= pre);
                    assert(verrs_view(errors@) =~= verrs_view(pre).push(
                        err_diag(1, "more than one defsrc block"@, "semantic"@),
                    ));
                }
            }
            if dlay == 0 {
                let ghost pre = errors@;
                errors.push(
                    err_with(1, "missing deflayer block", String::from_str("semantic")),
                );
                proof {
                    assert(errors@.drop_last() =~= pre);
                    assert(verrs_view(errors@) =~= verrs_view(pre).push(
                        err_diag(1, "missing deflayer block"@, "semantic"@),
                    ));
                }
            }
            proof {
                assert(verrs_view(errors@) =~= global_errs(fv));
            }
            let ghost globals = verrs_view(errors@);
            let sk = defsrc_key_count(&v);
            let mut i: usize = 0;
            while i < n
                invariant
                    i <= n,
                    n == v@.len(),
                    fv == forms_view(v@),
                    fv.len() == n,
                    forall|k: int| 0 <= k < n ==> fv[k] == (sx_view(v@[k].0), v@[k].1 as int),
                    forall|k: int| 0 <= k < n ==> v@[k].1 < bs@.len(),
                    keys_int(sk) == defsrc_keys(fv),
                    globals == global_errs(fv),
                    verrs_view(errors@) + forms_errs(bs@, fv, keys_int(sk), i as int) == globals
                        + forms_errs(bs@, fv, keys_int(sk), 0),
                    verrs_view(warnings@) + forms_warns(bs@, fv, i as int) == forms_warns(
                        bs@,
                        fv,
                        0,
                    ),
                decreases n - i,
            {
                let pos = v[i].1;
                let (line, _col) = pos_line_col(bs, pos);
                match form_error(&v[i].0, line, sk) {
                    Option::Some(e) => {
                        let ghost evv = e@;
                        let ghost pre = errors@;
                        errors.push(e);
                        proof {
                            assert(errors@.drop_last() =~= pre);
                            assert(verrs_view(errors@) =~= verrs_view(pre).push(evv));
                            assert(verrs_view(pre).push(evv) =~= verrs_view(pre) + seq![evv]);
                            assert(forms_errs(bs@, fv, keys_int(sk), i as int) == seq![evv]
                                + forms_errs(bs@, fv, keys_int(sk), i + 1));
                            assert(verrs_view(errors@) + forms_errs(
                                bs@,
                                fv,
                                keys_int(sk),
                                i + 1,
                            ) =~= verrs_view(pre) + forms_errs(bs@, fv, keys_int(sk), i as int));
                        }
                    },
                    Option::None => {
                        proof {
                            assert(forms_errs(bs@, fv, keys_int(sk), i as int) == Seq::<
                                ValidationErrorV,
                            >::empty() + forms_errs(bs@, fv, keys_int(sk), i + 1));
                            assert(Seq::<ValidationErrorV>::empty() + forms_errs(
                                bs@,
                                fv,
                                keys_int(sk),
                                i + 1,
                            ) =~= forms_errs(bs@, fv, keys_int(sk), i + 1));
                        }
                    },
                }
                match form_warning(&v[i].0, line) {
                    Option::Some(w) => {
                        let ghost wvv = w@;
                        let ghost pre = warnings@;
                        warnings.push(w);
                        proof {
                            assert(warnings@.drop_last() =~= pre);
                            assert(verrs_view(warnings@) =~= verrs_view(pre).push(wvv));
                            assert(verrs_view(pre).push(wvv) =~= verrs_view(pre) + seq![wvv]);
                            assert(forms_warns(bs@, fv, i as int) == seq![wvv] + forms_warns(
                                bs@,
                                fv,
                                i + 1,
                            ));
                            assert(verrs_view(warnings@) + forms_warns(bs@, fv, i + 1)
                                =~= verrs_view(pre) + forms_warns(bs@, fv, i as int));
                        }
                    },
                    Option::None => {
                        proof {
                            assert(forms_warns(bs@, fv, i as int) == Seq::<
                                ValidationErrorV,
                            >::empty() + forms_warns(bs@, fv, i + 1));
                            assert(Seq::<ValidationErrorV>::empty() + forms_warns(
                                bs@,
                                fv,
                                i + 1,
                            ) =~= forms_warns(bs@, fv, i + 1));
                        }
                    },
                }
                i = i + 1;
            }
            proof {
                assert(forms_errs(bs@, fv, keys_int(sk), n as int) =~= Seq::<
                    ValidationErrorV,
                >::empty());
                assert(forms_warns(bs@, fv, n as int) =~= Seq::<ValidationErrorV>::empty());
                assert(verrs_view(errors@) =~= verrs_view(errors@) + Seq::<
                    ValidationErrorV,
                >::empty());
                assert(verrs_view(warnings@) =~= verrs_view(warnings@) + Seq::<
                    ValidationErrorV,
                >::empty());
            }
            (errors, warnings)
        },
    }
}


/// The diagnostics of the empty text: one error on line one.
pub proof fn lemma_empty_config()
    ensures
        cfg_errors_of(Seq::<char>::empty()) == seq![
            err_diag(1, "configuration is empty"@, "semantic"@),
        ],
        cfg_warnings_of(Seq::<char>::empty()) == Seq::<ValidationErrorV>::empty(),
{
    reveal(crate::sexpr::sx_forms);
    assert(encode_utf8(Seq::<char>::empty()) =~= Seq::<u8>::empty());
    assert(crate::sexpr::sx_ws(Seq::<u8>::empty(), 0) == 0);
}

/// Runs the validator and shapes its outcome as the wire message: the
/// counts equal the list lengths, success means no errors, and the request
/// id is echoed unchanged. Empty content always fails with one diagnostic
/// on line one.
pub fn validate_config_content(config_content: &str, request_id: Option<String>) -> (r:
    ServerMessage)
    ensures
        (r@ matches ServerMessageV::ValidationResult {
            success,
            errors,
            warnings,
            error_count,
            warning_count,
            request_id: rid,
        } && {
            &&& errors == cfg_errors_of(config_content@)
            &&& warnings == cfg_warnings_of(config_content@)
            &&& error_count == errors.len()
            &&& warning_count == warnings.len()
            &&& success == (errors.len() == 0)
            &&& rid == opt_str_view(request_id)
        }),
        config_content@.len() == 0 ==> (r@ matches ServerMessageV::ValidationResult {
            success,
            errors,
            ..
        } && !success && errors.len() == 1 && errors[0].line == 1),
{
    let (errors, warnings) = validate_config_str(config_content);
    proof {
        lemma_verrs_view(errors@);
        lemma_verrs_view(warnings@);
        if config_content@.len() == 0 {
            assert(config_content@ =~= Seq::<char>::empty());
            lemma_empty_config();
        }
    }
    let error_count = errors.len();
    let warning_count = warnings.len();
    let success = error_count == 0;
    ServerMessage::ValidationResult {
        success,
        errors,
        warnings,
        error_count,
        warning_count,
        request_id,
    }
}

} // verus!
