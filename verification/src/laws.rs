//! Laws of the renderer: proofs, from the contracts alone, of what
//! rendering does on whole families of templates.

use vstd::prelude::*;
use crate::jinja::{
    block_close, block_open, call_step, expr_close, expr_open, extends_open, extends_resolve,
    glue, head_close, parse_args, parse_expr, parse_ident, parse_lit, parse_name, quote_close,
    render_rel, splice_open, splice_pass, subst_rel, template_root, var_step, Fault, JinjaError,
    RenderProgress,
};
use crate::text::{is_first_occurrence, lemma_scan_first, occurs_at, occurs_from, scan_first};

verus! {

/// A name that the template grammar passes through untouched: nonempty,
/// with no brace and no opening parenthesis.
pub open spec fn plain_name(k: Seq<char>) -> bool {
    &&& k.len() >= 1
    &&& forall|i: int| 0 <= i < k.len() ==> k[i] != '{' && k[i] != '}' && k[i] != '('
}

/// Whether `t`, at candidate position `j`, disagrees with `pat` at one
/// of the offsets `i1`, `i2`.
pub open spec fn differs_at(t: Seq<char>, pat: Seq<char>, j: int, i1: int, i2: int) -> bool {
    t[j + i1] != pat[i1] || t[j + i2] != pat[i2]
}

/// `pat` cannot stand anywhere at or after `from` in `t` when at one of
/// two offsets every candidate position disagrees with it.
proof fn lemma_scan_none_2(t: Seq<char>, pat: Seq<char>, from: int, i1: int, i2: int)
    requires
        0 <= from,
        0 <= i1 < pat.len(),
        0 <= i2 < pat.len(),
        forall|j: int|
            from <= j && j + pat.len() <= t.len() ==> #[trigger] differs_at(t, pat, j, i1, i2),
    ensures
        scan_first(t, pat, from) == -1,
{
    lemma_scan_first(t, pat, from);
    if occurs_from(t, pat, from) {
        let j = choose|j: int| from <= j && occurs_at(t, pat, j);
        assert(differs_at(t, pat, j, i1, i2));
        assert(t.subrange(j, j + pat.len())[i1] == pat[i1]);
        assert(t.subrange(j, j + pat.len())[i2] == pat[i2]);
    }
}

/// In the span `{{ k }}` for a brace-free `k`, the directive openers
/// (`{%`-patterns) stand nowhere, the expression opener stands first at
/// the very start, and the closer stands first right after `k`.
proof fn lemma_expression_span_markers(k: Seq<char>)
    requires
        k.len() >= 1,
        forall|i: int| 0 <= i < k.len() ==> k[i] != '{' && k[i] != '}',
    ensures
        ({
            let t = expr_open() + k + expr_close();
            &&& scan_first(t, extends_open(), 0) == -1
            &&& scan_first(t, splice_open(), 0) == -1
            &&& scan_first(t, expr_open(), 0) == 0
            &&& scan_first(t, expr_close(), 3) == 3 + k.len()
        }),
{
    let t = expr_open() + k + expr_close();
    let n = k.len() as int;
    assert(t.len() == n + 6);
    assert forall|j: int| 0 <= j < t.len() implies t[j] == (if j < 3 {
        expr_open()[j]
    } else if j < 3 + n {
        k[j - 3]
    } else {
        expr_close()[j - 3 - n]
    }) by {}
    // no `{%`-directive: wherever a `{` stands, no `%` follows
    assert forall|j: int|
        0 <= j && j + extends_open().len() <= t.len() implies differs_at(
        t,
        extends_open(),
        j,
        0,
        1,
    ) by {
        assert(t[j] != '{' || t[j + 1] != '%');
    }
    assert forall|j: int|
        0 <= j && j + splice_open().len() <= t.len() implies differs_at(
        t,
        splice_open(),
        j,
        0,
        1,
    ) by {
        assert(t[j] != '{' || t[j + 1] != '%');
    }
    lemma_scan_none_2(t, extends_open(), 0, 0, 1);
    lemma_scan_none_2(t, splice_open(), 0, 0, 1);
    // the expression opener stands at 0 and nowhere earlier
    assert(t.subrange(0, 3) =~= expr_open());
    assert(occurs_at(t, expr_open(), 0));
    lemma_scan_first(t, expr_open(), 0);
    assert(occurs_from(t, expr_open(), 0));
    let s = scan_first(t, expr_open(), 0);
    assert(0 <= s <= 0);
    // the closer stands at 3 + n and nowhere earlier from 3 on
    assert(t.subrange(3 + n, 6 + n) =~= expr_close());
    assert(occurs_at(t, expr_close(), 3 + n));
    assert forall|j: int| 3 <= j < 3 + n implies !occurs_at(t, expr_close(), j) by {
        if occurs_at(t, expr_close(), j) {
            assert(t.subrange(j, j + 3)[1] == '}');
            assert(t[j + 1] == '}');
        }
    }
    lemma_scan_first(t, expr_close(), 3);
    assert(occurs_from(t, expr_close(), 3));
    let c = scan_first(t, expr_close(), 3);
    assert(occurs_at(t, expr_close(), c));
    if c < 3 + n {
        assert(!occurs_at(t, expr_close(), c));
    }
    if c > 3 + n {
        assert(!occurs_at(t, expr_close(), 3 + n));
    }
}

/// Parsing a plain name yields the empty, non-function result.
proof fn lemma_parse_plain_name(body: Seq<char>, i: int, vars: Map<Seq<char>, Seq<char>>)
    requires
        0 <= i,
        forall|j: int| 0 <= j < body.len() ==> body[j] != '(',
    ensures
        parse_name(body, i, vars) == Ok::<(bool, Seq<char>, Seq<Seq<char>>), Fault>(
            (false, Seq::empty(), Seq::empty()),
        ),
    decreases body.len() - i,
{
    if i < body.len() && body[i] != ')' {
        lemma_parse_plain_name(body, i + 1, vars);
    }
}

/// Substituting an empty text yields the text itself.
proof fn lemma_subst_empty<F: Fn(Vec<String>) -> String>(
    vars: Map<Seq<char>, Seq<char>>,
    funcs: Option<Map<Seq<char>, F>>,
    res: Result<Seq<char>, Fault>,
)
    requires
        subst_rel(Seq::empty(), vars, funcs, res),
    ensures
        res == Ok::<Seq<char>, Fault>(Seq::<char>::empty()),
{
    assert(scan_first(Seq::<char>::empty(), expr_open(), 0) == -1);
}

/// LAW — For any bindings holding the key `k` with value `v`, every
/// outcome of rendering the template that consists solely of the
/// expression naming `k` is exactly `v`: no other output and no failure
/// is possible.
pub proof fn lemma_variable_substitution<F: Fn(Vec<String>) -> String>(
    k: Seq<char>,
    vars: Map<Seq<char>, Seq<char>>,
    funcs: Option<Map<Seq<char>, F>>,
    store: Map<Seq<char>, Seq<char>>,
    p: RenderProgress,
)
    requires
        plain_name(k),
        vars.contains_key(k),
        render_rel(expr_open() + k + expr_close(), vars, funcs, store, p),
    ensures
        p matches RenderProgress::Rendered(s) && s@ == vars[k],
{
    let t = expr_open() + k + expr_close();
    let n = k.len() as int;
    lemma_expression_span_markers(k);
    assert(extends_resolve(t, store) == Ok::<Seq<char>, Seq<char>>(t));
    assert(splice_pass(t, store) == Ok::<Seq<char>, Seq<char>>(t));
    let body = t.subrange(3, 3 + n);
    assert(body =~= k);
    let suffix = t.subrange(3 + n + 3, t.len() as int);
    assert(suffix =~= Seq::<char>::empty());
    let pre = t.subrange(0, 0);
    assert(pre =~= Seq::<char>::empty());
    lemma_parse_plain_name(body, 0, vars);
    match p {
        RenderProgress::Rendered(s) => {
            assert(subst_rel(t, vars, funcs, Ok::<Seq<char>, Fault>(s@)));
            assert(var_step(suffix, vars, funcs, pre, vars[body], Ok::<Seq<char>, Fault>(s@)));
            let rest = choose|rest: Result<Seq<char>, Fault>|
                subst_rel(suffix, vars, funcs, rest) && Ok::<Seq<char>, Fault>(s@) == glue(
                    pre,
                    vars[body],
                    rest,
                );
            lemma_subst_empty(vars, funcs, rest);
            assert(s@ =~= vars[k]);
        },
        RenderProgress::Failed(e) => {
            let kind = crate::jinja::fault_of(e)->Some_0;
            assert(subst_rel(t, vars, funcs, Err::<Seq<char>, Fault>(kind)));
            assert(var_step(suffix, vars, funcs, pre, vars[body], Err::<Seq<char>, Fault>(
                kind,
            )));
            let rest = choose|rest: Result<Seq<char>, Fault>|
                subst_rel(suffix, vars, funcs, rest) && Err::<Seq<char>, Fault>(kind) == glue(
                    pre,
                    vars[body],
                    rest,
                );
            lemma_subst_empty(vars, funcs, rest);
            assert(false);
        },
        RenderProgress::NeedsFile(_) => {
            assert(false);
        },
    }
}

/// LAW — Rendering a template whose sole expression names a variable
/// that the bindings do not hold fails with the missing-variable error:
/// no output, and in particular no empty substitution, is possible.
pub proof fn lemma_missing_variable<F: Fn(Vec<String>) -> String>(
    k: Seq<char>,
    vars: Map<Seq<char>, Seq<char>>,
    funcs: Option<Map<Seq<char>, F>>,
    store: Map<Seq<char>, Seq<char>>,
    p: RenderProgress,
)
    requires
        plain_name(k),
        !vars.contains_key(k),
        render_rel(expr_open() + k + expr_close(), vars, funcs, store, p),
    ensures
        p matches RenderProgress::Failed(e) && e matches JinjaError::NoSuchVariable,
{
    let t = expr_open() + k + expr_close();
    let n = k.len() as int;
    lemma_expression_span_markers(k);
    assert(extends_resolve(t, store) == Ok::<Seq<char>, Seq<char>>(t));
    assert(splice_pass(t, store) == Ok::<Seq<char>, Seq<char>>(t));
    let body = t.subrange(3, 3 + n);
    assert(body =~= k);
    lemma_parse_plain_name(body, 0, vars);
    match p {
        RenderProgress::Rendered(s) => {
            assert(subst_rel(t, vars, funcs, Ok::<Seq<char>, Fault>(s@)));
            assert(false);
        },
        RenderProgress::Failed(e) => {
            let kind = crate::jinja::fault_of(e)->Some_0;
            assert(subst_rel(t, vars, funcs, Err::<Seq<char>, Fault>(kind)));
            assert(kind is MissingVariable);
        },
        RenderProgress::NeedsFile(_) => {
            assert(false);
        },
    }
}

/// LAW — A malformed expression with an unclosed parenthesis fails with
/// a syntax error: rendering a template whose sole expression is a name
/// followed by a bare `(` neither panics, succeeds, nor substitutes
/// silently.
pub proof fn lemma_unclosed_parenthesis<F: Fn(Vec<String>) -> String>(
    f: Seq<char>,
    vars: Map<Seq<char>, Seq<char>>,
    funcs: Option<Map<Seq<char>, F>>,
    store: Map<Seq<char>, Seq<char>>,
    p: RenderProgress,
)
    requires
        plain_name(f),
        forall|i: int| 0 <= i < f.len() ==> f[i] != ')',
        render_rel(expr_open() + f + seq!['('] + expr_close(), vars, funcs, store, p),
    ensures
        p matches RenderProgress::Failed(e) && e matches JinjaError::SyntaxError(_),
{
    let k = f + seq!['('];
    let t = expr_open() + k + expr_close();
    let n = k.len() as int;
    assert(expr_open() + f + seq!['('] + expr_close() =~= t);
    assert forall|i: int| 0 <= i < k.len() implies k[i] != '{' && k[i] != '}' by {
        if i < f.len() {
            assert(k[i] == f[i]);
        } else {
            assert(k[i] == '(');
        }
    }
    lemma_expression_span_markers(k);
    assert(extends_resolve(t, store) == Ok::<Seq<char>, Seq<char>>(t));
    assert(splice_pass(t, store) == Ok::<Seq<char>, Seq<char>>(t));
    let body = t.subrange(3, 3 + n);
    assert(body =~= k);
    // the scan reaches the `(` with a nonempty name and then runs out
    assert(parse_expr(body, vars) == Err::<(bool, Seq<char>, Seq<Seq<char>>), Fault>(
        Fault::BadSyntax,
    )) by {
        lemma_name_runs_to(body, 0, f.len() as int, vars);
        assert(body[f.len() as int] == '(');
        assert(parse_args(
            body,
            f.len() as int + 1,
            body.subrange(0, f.len() as int),
            Seq::empty(),
            vars,
        ) == Err::<(bool, Seq<char>, Seq<Seq<char>>), Fault>(Fault::BadSyntax));
    }
    match p {
        RenderProgress::Rendered(s) => {
            assert(subst_rel(t, vars, funcs, Ok::<Seq<char>, Fault>(s@)));
            assert(false);
        },
        RenderProgress::Failed(e) => {
            let kind = crate::jinja::fault_of(e)->Some_0;
            assert(subst_rel(t, vars, funcs, Err::<Seq<char>, Fault>(kind)));
            assert(kind is BadSyntax);
        },
        RenderProgress::NeedsFile(_) => {
            assert(false);
        },
    }
}

/// The name scan walks over characters that neither open nor close a
/// parenthesis.
proof fn lemma_name_runs_to(body: Seq<char>, i: int, j: int, vars: Map<Seq<char>, Seq<char>>)
    requires
        0 <= i <= j <= body.len(),
        forall|m: int| i <= m < j ==> body[m] != '(' && body[m] != ')',
    ensures
        parse_name(body, i, vars) == parse_name(body, j, vars),
    decreases j - i,
{
    if i < j {
        lemma_name_runs_to(body, i + 1, j, vars);
    }
}

/// Substitution without a function registry is deterministic: two
/// outcomes of the same text and bindings are equal.
proof fn lemma_subst_deterministic<F: Fn(Vec<String>) -> String>(
    t: Seq<char>,
    vars: Map<Seq<char>, Seq<char>>,
    r1: Result<Seq<char>, Fault>,
    r2: Result<Seq<char>, Fault>,
)
    requires
        subst_rel(t, vars, None::<Map<Seq<char>, F>>, r1),
        subst_rel(t, vars, None::<Map<Seq<char>, F>>, r2),
    ensures
        r1 == r2,
    decreases t.len(),
{
    let funcs = None::<Map<Seq<char>, F>>;
    let i = scan_first(t, expr_open(), 0);
    if i >= 0 {
        let j = scan_first(t, expr_close(), i + expr_open().len());
        if !(j < i + expr_open().len() || j + expr_close().len() > t.len()) {
            let body = t.subrange(i + expr_open().len(), j);
            let pre = t.subrange(0, i);
            let suffix = t.subrange(j + expr_close().len(), t.len() as int);
            match parse_expr(body, vars) {
                Err(_) => {},
                Ok((is_call, _name, _args)) => {
                    if !is_call && vars.contains_key(body) {
                        let rest1 = choose|rest: Result<Seq<char>, Fault>|
                            subst_rel(suffix, vars, funcs, rest) && r1 == glue(
                                pre,
                                vars[body],
                                rest,
                            );
                        let rest2 = choose|rest: Result<Seq<char>, Fault>|
                            subst_rel(suffix, vars, funcs, rest) && r2 == glue(
                                pre,
                                vars[body],
                                rest,
                            );
                        assert(var_step(suffix, vars, funcs, pre, vars[body], r1));
                        assert(var_step(suffix, vars, funcs, pre, vars[body], r2));
                        lemma_subst_deterministic::<F>(suffix, vars, rest1, rest2);
                    }
                },
            }
        }
    }
}

/// LAW — Cached rendering is idempotent: the cache is never changed by
/// rendering, so two renders of the same template against the same
/// bindings and loaded files come to the same end — byte-identical
/// output, the same missing file, or the same failure kind — and when
/// the first render succeeded, the second asks for no file.  Stated for
/// rendering without a function registry, whose callables need not be
/// deterministic.
pub proof fn lemma_cached_render_idempotent<F: Fn(Vec<String>) -> String>(
    t: Seq<char>,
    vars: Map<Seq<char>, Seq<char>>,
    store: Map<Seq<char>, Seq<char>>,
    p1: RenderProgress,
    p2: RenderProgress,
)
    requires
        render_rel(t, vars, None::<Map<Seq<char>, F>>, store, p1),
        render_rel(t, vars, None::<Map<Seq<char>, F>>, store, p2),
    ensures
        match (p1, p2) {
            (RenderProgress::Rendered(s1), RenderProgress::Rendered(s2)) => s1@ == s2@,
            (RenderProgress::NeedsFile(f1), RenderProgress::NeedsFile(f2)) => f1@ == f2@,
            (RenderProgress::Failed(e1), RenderProgress::Failed(e2)) => crate::jinja::fault_of(
                e1,
            ) == crate::jinja::fault_of(e2),
            _ => false,
        },
{
    match extends_resolve(t, store) {
        Err(_) => {},
        Ok(t1) => match splice_pass(t1, store) {
            Err(_) => {},
            Ok(t2) => {
                let r1 = match p1 {
                    RenderProgress::Rendered(s) => Ok::<Seq<char>, Fault>(s@),
                    RenderProgress::Failed(e) => Err::<Seq<char>, Fault>(
                        crate::jinja::fault_of(e)->Some_0,
                    ),
                    RenderProgress::NeedsFile(_) => Ok::<Seq<char>, Fault>(Seq::empty()),
                };
                let r2 = match p2 {
                    RenderProgress::Rendered(s) => Ok::<Seq<char>, Fault>(s@),
                    RenderProgress::Failed(e) => Err::<Seq<char>, Fault>(
                        crate::jinja::fault_of(e)->Some_0,
                    ),
                    RenderProgress::NeedsFile(_) => Ok::<Seq<char>, Fault>(Seq::empty()),
                };
                lemma_subst_deterministic::<F>(t2, vars, r1, r2);
            },
        },
    }
}


/// The string-literal scan walks over characters that are not a quote.
proof fn lemma_lit_runs_to(
    body: Seq<char>,
    start: int,
    i: int,
    j: int,
    name: Seq<char>,
    args: Seq<Seq<char>>,
    vars: Map<Seq<char>, Seq<char>>,
)
    requires
        0 <= i <= j <= body.len(),
        forall|m: int| i <= m < j ==> body[m] != '"',
    ensures
        parse_lit(body, start, i, name, args, vars) == parse_lit(body, start, j, name, args, vars),
    decreases j - i,
{
    if i < j {
        lemma_lit_runs_to(body, start, i + 1, j, name, args, vars);
    }
}

/// The bare-identifier scan walks over characters that end nothing.
proof fn lemma_ident_runs_to(
    body: Seq<char>,
    start: int,
    i: int,
    j: int,
    name: Seq<char>,
    args: Seq<Seq<char>>,
    vars: Map<Seq<char>, Seq<char>>,
)
    requires
        0 <= i <= j <= body.len(),
        forall|m: int| i <= m < j ==> body[m] != ' ' && body[m] != ',' && body[m] != ')',
    ensures
        parse_ident(body, start, i, name, args, vars) == parse_ident(
            body,
            start,
            j,
            name,
            args,
            vars,
        ),
    decreases j - i,
{
    if i < j {
        lemma_ident_runs_to(body, start, i + 1, j, name, args, vars);
    }
}

/// LAW — A template whose sole expression calls a registered function
/// with no arguments renders to exactly a value that the function may
/// return for the empty argument list, and cannot fail.
pub proof fn lemma_function_call<F: Fn(Vec<String>) -> String>(
    f: Seq<char>,
    vars: Map<Seq<char>, Seq<char>>,
    m: Map<Seq<char>, F>,
    store: Map<Seq<char>, Seq<char>>,
    p: RenderProgress,
)
    requires
        plain_name(f),
        forall|i: int| 0 <= i < f.len() ==> f[i] != ')',
        m.contains_key(f),
        render_rel(expr_open() + f + seq!['(', ')'] + expr_close(), vars, Some(m), store, p),
    ensures
        p matches RenderProgress::Rendered(s) && exists|argv: Vec<String>, ret: String|
            {
                &&& argv.deep_view() == Seq::<Seq<char>>::empty()
                &&& #[trigger] call_ensures(m[f], (argv,), ret)
                &&& s@ == ret@
            },
{
    let k = f + seq!['(', ')'];
    let t = expr_open() + k + expr_close();
    let n = k.len() as int;
    let fl = f.len() as int;
    assert(expr_open() + f + seq!['(', ')'] + expr_close() =~= t);
    assert forall|i: int| 0 <= i < k.len() implies k[i] != '{' && k[i] != '}' by {
        if i < fl {
            assert(k[i] == f[i]);
        }
    }
    lemma_expression_span_markers(k);
    assert(extends_resolve(t, store) == Ok::<Seq<char>, Seq<char>>(t));
    assert(splice_pass(t, store) == Ok::<Seq<char>, Seq<char>>(t));
    let body = t.subrange(3, 3 + n);
    assert(body =~= k);
    let suffix = t.subrange(3 + n + 3, t.len() as int);
    assert(suffix =~= Seq::<char>::empty());
    let pre = t.subrange(0, 0);
    assert(pre =~= Seq::<char>::empty());
    let name = body.subrange(0, fl);
    assert(name =~= f);
    assert(parse_expr(body, vars) == Ok::<(bool, Seq<char>, Seq<Seq<char>>), Fault>(
        (true, name, Seq::empty()),
    )) by {
        lemma_name_runs_to(body, 0, fl, vars);
        assert(body[fl] == '(');
        assert(body[fl + 1] == ')');
    }
    match p {
        RenderProgress::Rendered(s) => {
            assert(subst_rel(t, vars, Some(m), Ok::<Seq<char>, Fault>(s@)));
            assert(call_step(suffix, vars, m, name, Seq::empty(), pre, Ok::<Seq<char>, Fault>(
                s@,
            )));
            let (argv, ret, rest) = choose|
                argv: Vec<String>,
                ret: String,
                rest: Result<Seq<char>, Fault>,
            |
                {
                    &&& argv.deep_view() == Seq::<Seq<char>>::empty()
                    &&& call_ensures(m[name], (argv,), ret)
                    &&& subst_rel(suffix, vars, Some(m), rest)
                    &&& Ok::<Seq<char>, Fault>(s@) == glue(pre, ret@, rest)
                };
            lemma_subst_empty(vars, Some(m), rest);
            assert(s@ =~= ret@);
            assert(call_ensures(m[f], (argv,), ret));
        },
        RenderProgress::Failed(e) => {
            let kind = crate::jinja::fault_of(e)->Some_0;
            assert(subst_rel(t, vars, Some(m), Err::<Seq<char>, Fault>(kind)));
            assert(call_step(suffix, vars, m, name, Seq::empty(), pre, Err::<Seq<char>, Fault>(
                kind,
            )));
            let (argv, ret, rest) = choose|
                argv: Vec<String>,
                ret: String,
                rest: Result<Seq<char>, Fault>,
            |
                {
                    &&& argv.deep_view() == Seq::<Seq<char>>::empty()
                    &&& call_ensures(m[name], (argv,), ret)
                    &&& subst_rel(suffix, vars, Some(m), rest)
                    &&& Err::<Seq<char>, Fault>(kind) == glue(pre, ret@, rest)
                };
            lemma_subst_empty(vars, Some(m), rest);
            assert(false);
        },
        RenderProgress::NeedsFile(_) => {
            assert(false);
        },
    }
}

/// LAW — The inclusion pass splices the named file's raw content in
/// place of the directive, verbatim: the surrounding text is kept, and
/// the spliced content is not scanned again in that pass, whatever
/// directives it may hold.
pub proof fn lemma_inclusion_splice(
    pre: Seq<char>,
    fname: Seq<char>,
    c: Seq<char>,
    post: Seq<char>,
    store: Map<Seq<char>, Seq<char>>,
)
    requires
        forall|i: int| 0 <= i < pre.len() ==> pre[i] != '{',
        forall|i: int| 0 <= i < post.len() ==> post[i] != '{',
        forall|i: int| 0 <= i < fname.len() ==> fname[i] != '"' && fname[i] != '{',
        store.contains_key(template_root() + fname),
        store[template_root() + fname] == c,
    ensures
        ({
            let t = pre + splice_open() + fname + quote_close() + post;
            &&& extends_resolve(t, store) == Ok::<Seq<char>, Seq<char>>(t)
            &&& splice_pass(t, store) == Ok::<Seq<char>, Seq<char>>(pre + c + post)
        }),
{
    let t = pre + splice_open() + fname + quote_close() + post;
    let pl = pre.len() as int;
    let fl = fname.len() as int;
    let d0 = pl;  // the directive's opening brace
    let f0 = pl + 12;  // the file name
    let q0 = f0 + fl;  // the closing `" %}`
    let p0 = q0 + 4;  // the text after the directive
    assert forall|j: int| 0 <= j < t.len() implies t[j] == (if j < pl {
        pre[j]
    } else if j < f0 {
        splice_open()[j - pl]
    } else if j < q0 {
        fname[j - f0]
    } else if j < p0 {
        quote_close()[j - q0]
    } else {
        post[j - p0]
    }) by {}
    // no extends directive: the only `{` before a `%` opens the
    // splicing directive, whose fourth character is not `e`
    assert forall|j: int|
        0 <= j && j + extends_open().len() <= t.len() implies differs_at(
        t,
        extends_open(),
        j,
        0,
        3,
    ) by {
        if t[j] == '{' {
            assert(j == d0);
            assert(t[j + 3] == 'i');
        }
    }
    lemma_scan_none_2(t, extends_open(), 0, 0, 3);
    assert(extends_resolve(t, store) == Ok::<Seq<char>, Seq<char>>(t));
    // the splicing directive stands first at the end of `pre`
    assert(t.subrange(d0, f0) =~= splice_open());
    assert(occurs_at(t, splice_open(), d0));
    assert forall|j: int| 0 <= j < d0 implies !occurs_at(t, splice_open(), j) by {
        if occurs_at(t, splice_open(), j) {
            assert(t.subrange(j, j + 12)[0] == '{');
        }
    }
    lemma_scan_first(t, splice_open(), 0);
    assert(occurs_from(t, splice_open(), 0));
    let sc = scan_first(t, splice_open(), 0);
    if sc < d0 {
        assert(!occurs_at(t, splice_open(), sc));
    }
    if sc > d0 {
        assert(!occurs_at(t, splice_open(), d0));
    }
    // the quote that closes it stands first right after the file name
    assert(t.subrange(q0, p0) =~= quote_close());
    assert(occurs_at(t, quote_close(), q0));
    assert forall|j: int| f0 <= j < q0 implies !occurs_at(t, quote_close(), j) by {
        if occurs_at(t, quote_close(), j) {
            assert(t.subrange(j, j + 4)[0] == '"');
        }
    }
    lemma_scan_first(t, quote_close(), f0);
    assert(occurs_from(t, quote_close(), f0));
    let qc = scan_first(t, quote_close(), f0);
    if qc < q0 {
        assert(!occurs_at(t, quote_close(), qc));
    }
    if qc > q0 {
        assert(!occurs_at(t, quote_close(), q0));
    }
    // the named file is spliced and the rest of the text is taken as is
    assert(t.subrange(f0, q0) =~= fname);
    assert(template_root() + t.subrange(f0, q0) == template_root() + fname);
    let suffix = t.subrange(p0, t.len() as int);
    assert(suffix =~= post);
    assert forall|j: int|
        0 <= j && j + splice_open().len() <= suffix.len() implies differs_at(
        suffix,
        splice_open(),
        j,
        0,
        1,
    ) by {
        assert(suffix[j] != '{');
    }
    lemma_scan_none_2(suffix, splice_open(), 0, 0, 1);
    assert(splice_pass(suffix, store) == Ok::<Seq<char>, Seq<char>>(suffix));
    assert(t.subrange(0, d0) =~= pre);
    assert(t.subrange(0, d0) + store[template_root() + fname] + suffix =~= pre + c + post);
}


/// LAW — A call with two string literals and a bound variable hands the
/// function exactly the two literal texts and the variable's value, in
/// that order: parsing `name("a", "b", v)` yields the call of `name`
/// with the arguments `a`, `b` and the value bound to `v`.
pub proof fn lemma_call_arguments(
    name: Seq<char>,
    a: Seq<char>,
    b: Seq<char>,
    v: Seq<char>,
    vars: Map<Seq<char>, Seq<char>>,
)
    requires
        name.len() >= 1,
        forall|i: int| 0 <= i < name.len() ==> name[i] != '(' && name[i] != ')',
        forall|i: int| 0 <= i < a.len() ==> a[i] != '"',
        forall|i: int| 0 <= i < b.len() ==> b[i] != '"',
        v.len() >= 1,
        forall|i: int|
            0 <= i < v.len() ==> v[i] != ' ' && v[i] != ',' && v[i] != ')' && v[i] != '"',
        vars.contains_key(v),
    ensures
        parse_expr(
            name + seq!['(', '"'] + a + seq!['"', ',', ' ', '"'] + b + seq!['"', ',', ' ']
                + v + seq![')'],
            vars,
        ) == Ok::<(bool, Seq<char>, Seq<Seq<char>>), Fault>(
            (true, name, seq![a, b, vars[v]]),
        ),
{
    let body = name + seq!['(', '"'] + a + seq!['"', ',', ' ', '"'] + b + seq!['"', ',', ' ']
        + v + seq![')'];
    let nl = name.len() as int;
    let al = a.len() as int;
    let bl = b.len() as int;
    let vl = v.len() as int;
    let a0 = nl + 2;  // the first literal
    let q1 = a0 + al;  // its closing quote
    let b0 = q1 + 4;  // the second literal
    let q2 = b0 + bl;  // its closing quote
    let x0 = q2 + 3;  // the bare identifier
    let xe = x0 + vl;  // the closing parenthesis
    assert(body.len() == xe + 1);
    assert forall|j: int| 0 <= j < body.len() implies body[j] == (if j < nl {
        name[j]
    } else if j == nl {
        '('
    } else if j == nl + 1 {
        '"'
    } else if j < q1 {
        a[j - a0]
    } else if j == q1 {
        '"'
    } else if j == q1 + 1 {
        ','
    } else if j == q1 + 2 {
        ' '
    } else if j == q1 + 3 {
        '"'
    } else if j < q2 {
        b[j - b0]
    } else if j == q2 {
        '"'
    } else if j == q2 + 1 {
        ','
    } else if j == q2 + 2 {
        ' '
    } else if j < xe {
        v[j - x0]
    } else {
        ')'
    }) by {}
    let nm = body.subrange(0, nl);
    assert(nm =~= name);
    let args0 = Seq::<Seq<char>>::empty();
    let args1 = args0.push(a);
    let args2 = args1.push(b);
    // the name runs to the opening parenthesis
    lemma_name_runs_to(body, 0, nl, vars);
    assert(body[nl] == '(');
    assert(parse_name(body, nl, vars) == parse_args(body, nl + 1, nm, args0, vars));
    // the first literal runs to its quote; a comma follows
    assert(body[nl + 1] == '"');
    assert(parse_args(body, nl + 1, nm, args0, vars) == parse_lit(
        body,
        a0,
        a0,
        nm,
        args0,
        vars,
    ));
    lemma_lit_runs_to(body, a0, a0, q1, nm, args0, vars);
    assert(body[q1] == '"');
    assert(body[q1 + 1] == ',');
    assert(body.subrange(a0, q1) =~= a);
    assert(parse_lit(body, a0, q1, nm, args0, vars) == parse_args(
        body,
        q1 + 2,
        nm,
        args1,
        vars,
    ));
    // a space is skipped, then the second literal runs to its quote
    assert(body[q1 + 2] == ' ');
    assert(parse_args(body, q1 + 2, nm, args1, vars) == parse_args(
        body,
        q1 + 3,
        nm,
        args1,
        vars,
    ));
    assert(body[q1 + 3] == '"');
    assert(parse_args(body, q1 + 3, nm, args1, vars) == parse_lit(
        body,
        b0,
        b0,
        nm,
        args1,
        vars,
    ));
    lemma_lit_runs_to(body, b0, b0, q2, nm, args1, vars);
    assert(body[q2] == '"');
    assert(body[q2 + 1] == ',');
    assert(body.subrange(b0, q2) =~= b);
    assert(parse_lit(body, b0, q2, nm, args1, vars) == parse_args(
        body,
        q2 + 2,
        nm,
        args2,
        vars,
    ));
    // a space is skipped, then the identifier runs to the parenthesis
    assert(body[q2 + 2] == ' ');
    assert(parse_args(body, q2 + 2, nm, args2, vars) == parse_args(
        body,
        x0,
        nm,
        args2,
        vars,
    ));
    assert(body[x0] != '"' && body[x0] != ')' && body[x0] != ',' && body[x0] != ' ');
    assert(parse_args(body, x0, nm, args2, vars) == parse_ident(
        body,
        x0,
        x0,
        nm,
        args2,
        vars,
    ));
    lemma_ident_runs_to(body, x0, x0, xe, nm, args2, vars);
    assert(body[xe] == ')');
    assert(body.subrange(x0, xe) =~= v);
    assert(parse_ident(body, x0, xe, nm, args2, vars) == Ok::<
        (bool, Seq<char>, Seq<Seq<char>>),
        Fault,
    >((true, nm, args2.push(vars[v]))));
    assert(args2.push(vars[v]) =~= seq![a, b, vars[v]]);
}


/// `scan_first` yields exactly the position where `pat` stands with
/// nothing standing earlier.
proof fn lemma_scan_at(t: Seq<char>, pat: Seq<char>, from: int, p: int)
    requires
        0 <= from <= p,
        occurs_at(t, pat, p),
        forall|j: int| from <= j < p ==> !occurs_at(t, pat, j),
    ensures
        scan_first(t, pat, from) == p,
{
    lemma_scan_first(t, pat, from);
    assert(occurs_from(t, pat, from)) by {
        assert(from <= p && occurs_at(t, pat, p));
    }
    let s = scan_first(t, pat, from);
    assert(is_first_occurrence(t, pat, from, s));
    if s < p {
        assert(!occurs_at(t, pat, s));
    }
    if p < s {
        assert(!occurs_at(t, pat, p));
    }
}

/// A child body holding one block declaration binds exactly that
/// block's name to its content.
#[verifier::rlimit(100)]
#[verifier::spinoff_prover]
proof fn lemma_child_blocks_single(x: Seq<char>, cc: Seq<char>)
    requires
        forall|i: int| 0 <= i < x.len() ==> x[i] != '%' && x[i] != '{',
        forall|i: int| 0 <= i < cc.len() ==> cc[i] != '{',
        cc.len() == 0 || (cc[0] != '\n' && cc[cc.len() - 1] != '\n'),
    ensures
        crate::jinja::child_blocks(
            block_open() + x + head_close() + cc + block_close(),
            0,
            Map::empty(),
        ) == Map::<Seq<char>, Seq<char>>::empty().insert(x, cc),
{
    let cb = block_open() + x + head_close() + cc + block_close();
    let xl = x.len() as int;
    let ccl = cc.len() as int;
    let h = 9 + xl;  // the ` %}` that closes the block's head
    let c0 = h + 3;  // the block's content
    let e = c0 + ccl;  // the block's end marker
    assert(cb.len() == e + 14);
    assert forall|j: int| 0 <= j < cb.len() implies cb[j] == (if j < 9 {
        block_open()[j]
    } else if j < h {
        x[j - 9]
    } else if j < c0 {
        head_close()[j - h]
    } else if j < e {
        cc[j - c0]
    } else {
        block_close()[j - e]
    }) by {}
    assert(cb.subrange(0, 9) =~= block_open());
    assert(occurs_at(cb, block_open(), 0));
    lemma_scan_at(cb, block_open(), 0, 0);
    assert(cb.subrange(h, c0) =~= head_close());
    assert(occurs_at(cb, head_close(), h));
    assert forall|j: int| 9 <= j < h implies !occurs_at(cb, head_close(), j) by {
        if occurs_at(cb, head_close(), j) {
            assert(cb.subrange(j, j + 3)[1] == '%');
        }
    }
    lemma_scan_at(cb, head_close(), 9, h);
    assert(cb.subrange(e, e + 14) =~= block_close());
    assert(occurs_at(cb, block_close(), e));
    assert forall|j: int| c0 <= j < e implies !occurs_at(cb, block_close(), j) by {
        if occurs_at(cb, block_close(), j) {
            assert(cb.subrange(j, j + 14)[0] == '{');
        }
    }
    lemma_scan_at(cb, block_close(), c0, e);
    assert(cb.subrange(9, h) =~= x);
    assert(cb.subrange(c0, e) =~= cc);
    assert(scan_first(cb, block_open(), e + 14) == -1) by {
        assert forall|j: int|
            e + 14 <= j && j + block_open().len() <= cb.len() implies differs_at(
            cb,
            block_open(),
            j,
            0,
            0,
        ) by {}
        lemma_scan_none_2(cb, block_open(), e + 14, 0, 0);
    }
    let inserted = Map::<Seq<char>, Seq<char>>::empty().insert(cb.subrange(9, h), cb.subrange(
        c0,
        e,
    ));
    assert(crate::jinja::child_blocks(cb, 0, Map::empty())
        == crate::jinja::child_blocks(cb, e + 14, inserted));
    assert(crate::jinja::child_blocks(cb, e + 14, inserted) == inserted);
}

/// A parent holding one block declaration, applied to overrides that
/// bind that block's name, keeps everything around the block and
/// replaces the block's span by the bound content.
#[verifier::rlimit(100)]
#[verifier::spinoff_prover]
proof fn lemma_apply_blocks_single(
    x: Seq<char>,
    cc: Seq<char>,
    ppre: Seq<char>,
    pc: Seq<char>,
    ppost: Seq<char>,
)
    requires
        forall|i: int| 0 <= i < x.len() ==> x[i] != '%' && x[i] != '{',
        forall|i: int| 0 <= i < pc.len() ==> pc[i] != '{',
        forall|i: int| 0 <= i < ppre.len() ==> ppre[i] != '{',
        forall|i: int| 0 <= i < ppost.len() ==> ppost[i] != '{',
    ensures
        crate::jinja::apply_blocks(
            ppre + block_open() + x + head_close() + pc + block_close() + ppost,
            0,
            Map::<Seq<char>, Seq<char>>::empty().insert(x, cc),
        ) == ppre + cc + ppost,
{
    let parent = ppre + block_open() + x + head_close() + pc + block_close() + ppost;
    let overrides = Map::<Seq<char>, Seq<char>>::empty().insert(x, cc);
    let xl = x.len() as int;
    let pcl = pc.len() as int;
    let ppl = ppre.len() as int;
    let ph = ppl + 9 + xl;  // the ` %}` of the block's head
    let pc0 = ph + 3;  // the parent's own block content
    let pe = pc0 + pcl;  // the block's end marker
    let psend = pe + 14;  // the first position after the block
    assert(parent.len() == psend + ppost.len());
    assert forall|j: int| 0 <= j < parent.len() implies parent[j] == (if j < ppl {
        ppre[j]
    } else if j < ppl + 9 {
        block_open()[j - ppl]
    } else if j < ppl + 9 + xl {
        x[j - ppl - 9]
    } else if j < pc0 {
        head_close()[j - ppl - 9 - xl]
    } else if j < pe {
        pc[j - pc0]
    } else if j < psend {
        block_close()[j - pe]
    } else {
        ppost[j - psend]
    }) by {}
    assert(parent.subrange(ppl, ppl + 9) =~= block_open());
    assert(occurs_at(parent, block_open(), ppl));
    assert forall|j: int| 0 <= j < ppl implies !occurs_at(parent, block_open(), j) by {
        if occurs_at(parent, block_open(), j) {
            assert(parent.subrange(j, j + 9)[0] == '{');
        }
    }
    lemma_scan_at(parent, block_open(), 0, ppl);
    assert(parent.subrange(ph, pc0) =~= head_close());
    assert(occurs_at(parent, head_close(), ph));
    assert forall|j: int| ppl + 9 <= j < ph implies !occurs_at(parent, head_close(), j) by {
        if occurs_at(parent, head_close(), j) {
            assert(parent.subrange(j, j + 3)[1] == '%');
        }
    }
    lemma_scan_at(parent, head_close(), ppl + 9, ph);
    assert(parent.subrange(pe, psend) =~= block_close());
    assert(occurs_at(parent, block_close(), pe));
    assert forall|j: int| pc0 <= j < pe implies !occurs_at(parent, block_close(), j) by {
        if occurs_at(parent, block_close(), j) {
            assert(parent.subrange(j, j + 14)[0] == '{');
        }
    }
    lemma_scan_at(parent, block_close(), pc0, pe);
    assert(parent.subrange(ppl + 9, ph) =~= x);
    assert(overrides.contains_key(parent.subrange(ppl + 9, ph)));
    assert(scan_first(parent, block_open(), psend) == -1) by {
        assert forall|j: int|
            psend <= j && j + block_open().len() <= parent.len() implies differs_at(
            parent,
            block_open(),
            j,
            0,
            0,
        ) by {
            assert(parent[j] != '{');
        }
        lemma_scan_none_2(parent, block_open(), psend, 0, 0);
    }
    assert(crate::jinja::apply_blocks(parent, psend as int, overrides) =~= ppost);
    assert(parent.subrange(0, ppl) =~= ppre);
    assert(overrides[parent.subrange(ppl + 9, ph)] == cc);
    assert(crate::jinja::apply_blocks(parent, 0, overrides) == parent.subrange(0, ppl)
        + overrides[parent.subrange(ppl + 9, ph)] + crate::jinja::apply_blocks(
        parent,
        psend as int,
        overrides,
    ));
    assert(parent.subrange(0, ppl) + overrides[parent.subrange(ppl + 9, ph)]
        + crate::jinja::apply_blocks(parent, psend as int, overrides) =~= ppre + cc + ppost);
}

/// LAW — Inheritance: a child that extends a stored parent and declares
/// a block override renders the parent with the overridden block's span
/// replaced by the child's content, and everything of the parent outside
/// that block preserved verbatim.
#[verifier::rlimit(100)]
#[verifier::spinoff_prover]
pub proof fn lemma_inheritance(
    fname: Seq<char>,
    x: Seq<char>,
    cc: Seq<char>,
    ppre: Seq<char>,
    pc: Seq<char>,
    ppost: Seq<char>,
    store: Map<Seq<char>, Seq<char>>,
)
    requires
        forall|i: int| 0 <= i < fname.len() ==> fname[i] != '"' && fname[i] != '{',
        forall|i: int| 0 <= i < x.len() ==> x[i] != '%' && x[i] != '{',
        forall|i: int| 0 <= i < cc.len() ==> cc[i] != '{',
        cc.len() == 0 || (cc[0] != '\n' && cc[cc.len() - 1] != '\n'),
        forall|i: int| 0 <= i < pc.len() ==> pc[i] != '{',
        forall|i: int| 0 <= i < ppre.len() ==> ppre[i] != '{',
        forall|i: int| 0 <= i < ppost.len() ==> ppost[i] != '{',
        store.contains_key(template_root() + fname),
        store[template_root() + fname] == ppre + block_open() + x + head_close() + pc
            + block_close() + ppost,
    ensures
        extends_resolve(
            extends_open() + fname + quote_close() + block_open() + x + head_close() + cc
                + block_close(),
            store,
        ) == Ok::<Seq<char>, Seq<char>>(ppre + cc + ppost),
{
    let t = extends_open() + fname + quote_close() + block_open() + x + head_close() + cc
        + block_close();
    let fl = fname.len() as int;
    let xl = x.len() as int;
    let ccl = cc.len() as int;

    // the child template, position by position
    let q0 = 12 + fl;  // the `" %}` that closes the extends directive
    let cb0 = q0 + 4;  // the child body: one block declaration
    assert(t.len() == cb0 + 26 + xl + ccl);
    assert forall|j: int| 0 <= j < t.len() implies t[j] == (if j < 12 {
        extends_open()[j]
    } else if j < q0 {
        fname[j - 12]
    } else if j < cb0 {
        quote_close()[j - q0]
    } else if j < cb0 + 9 {
        block_open()[j - cb0]
    } else if j < cb0 + 9 + xl {
        x[j - cb0 - 9]
    } else if j < cb0 + 12 + xl {
        head_close()[j - cb0 - 9 - xl]
    } else if j < cb0 + 12 + xl + ccl {
        cc[j - cb0 - 12 - xl]
    } else {
        block_close()[j - cb0 - 12 - xl - ccl]
    }) by {}

    // the extends directive opens the template
    assert(t.subrange(0, 12) =~= extends_open());
    assert(occurs_at(t, extends_open(), 0));
    lemma_scan_at(t, extends_open(), 0, 0);

    // its closing quote stands right after the parent's file name
    assert(t.subrange(q0, cb0) =~= quote_close());
    assert(occurs_at(t, quote_close(), q0));
    assert forall|j: int| 12 <= j < q0 implies !occurs_at(t, quote_close(), j) by {
        if occurs_at(t, quote_close(), j) {
            assert(t.subrange(j, j + 4)[0] == '"');
        }
    }
    lemma_scan_at(t, quote_close(), 12, q0);
    assert(t.subrange(12, q0) =~= fname);
    assert(template_root() + t.subrange(12, q0) == template_root() + fname);

    // the child body declares one block; the parent holds one block
    let cb = t.subrange(cb0, t.len() as int);
    assert(cb =~= block_open() + x + head_close() + cc + block_close());
    lemma_child_blocks_single(x, cc);
    lemma_apply_blocks_single(x, cc, ppre, pc, ppost);
    assert(t.subrange(0, 0) =~= Seq::<char>::empty());
    assert(t.subrange(0, 0) + crate::jinja::apply_blocks(
        store[template_root() + fname],
        0,
        Map::<Seq<char>, Seq<char>>::empty().insert(x, cc),
    ) =~= ppre + cc + ppost);
}

} // verus!
