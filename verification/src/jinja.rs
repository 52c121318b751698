//! A Jinja-style template renderer.
//!
//! A template is a string holding three kinds of markers:
//!
//! * an expression `{{ body }}`, where `body` names a variable or a
//!   function call with literal and variable arguments;
//! * directives `{% ... %}`: one that splices another file in place,
//!   one that declares a parent template to extend, and one that brackets
//!   a named block of content;
//!
//! Rendering resolves the parent (replacing the parent's named blocks by
//! the child's same-named blocks), splices the named files, and then
//! substitutes every expression.  The library reads no files itself: the
//! cache-backed entry points report which file they need, the caller loads
//! it into the [`JinjaState`] cache, and rendering is retried; rendering is
//! a pure function of the template, the bindings, the registry and the
//! cache contents.

use vstd::prelude::*;
use crate::strmap::{sv_has_key, sv_key_index, sv_map, sv_unique, lemma_sv_entry, StringMap};
use crate::text::{find_from, scan_first, str_eq};

verus! {

/// An error from within the renderer itself.
///
/// A directive pattern that cannot be set up would be reported here; the
/// patterns of this renderer are fixed, so no function of this library
/// returns it.
#[derive(Debug)]
pub enum InternalJinjaError {
    /// A directive pattern could not be set up.
    CantReadPattern,
}

/// An error from rendering a template.
#[derive(Debug)]
pub enum JinjaError {
    /// An error from within the renderer; see [`InternalJinjaError`].
    InternalJinjaError(InternalJinjaError),
    /// The template could not be found.
    TemplateNotFound,
    /// An expression named a variable that the bindings do not hold.
    NoSuchVariable,
    /// An expression called a function that the registry does not hold.
    NoSuchFunction,
    /// An expression's text is malformed; the payload says how.
    SyntaxError(String),
    /// A referenced template file could not be opened.
    NoSuchTemplate,
    /// More than one parent stood in the template.
    MultipleParentsError,
    /// Any other failure, with a description.
    Other(String),
}

/// The kind of a rendering failure, without its message.
pub enum Fault {
    /// An expression named a variable that the bindings do not hold.
    MissingVariable,
    /// An expression called a function that the registry does not hold.
    MissingFunction,
    /// An expression's text is malformed.
    BadSyntax,
}

/// The failure kind that a [`JinjaError`] reports, if it is one of the
/// three kinds that expression substitution can raise.
pub open spec fn fault_of(e: JinjaError) -> Option<Fault> {
    match e {
        JinjaError::NoSuchVariable => Some(Fault::MissingVariable),
        JinjaError::NoSuchFunction => Some(Fault::MissingFunction),
        JinjaError::SyntaxError(_) => Some(Fault::BadSyntax),
        _ => None,
    }
}

// ---------------------------------------------------------------------
// The function registry
// ---------------------------------------------------------------------

/// The functions a template may call: names bound to callables that take
/// the ordered argument values and return the replacement string.
///
/// All entries share one callable type `F`; distinct functions are best
/// registered as non-capturing closures of a common type.
pub struct FunctionRegistry<F> {
    entries: Vec<(String, F)>,
}

impl<F> View for FunctionRegistry<F> {
    type V = Map<Seq<char>, F>;

    open spec fn view(&self) -> Map<Seq<char>, F> {
        sv_map(self.entries_seq())
    }
}

impl<F> FunctionRegistry<F> {
    /// The entries in storage order.
    pub closed spec fn entries_seq(&self) -> Seq<(Seq<char>, F)> {
        self.entries@.map_values(|e: (String, F)| (e.0@, e.1))
    }

    /// Each name stands in at most one entry.
    pub open spec fn wf(&self) -> bool {
        sv_unique(self.entries_seq())
    }

    /// An empty registry.
    pub fn new() -> (r: FunctionRegistry<F>)
        ensures
            r.wf(),
            r@ == Map::<Seq<char>, F>::empty(),
    {
        let r = FunctionRegistry { entries: Vec::new() };
        proof {
            assert(r.entries_seq() =~= Seq::<(Seq<char>, F)>::empty());
            assert(r@ =~= Map::<Seq<char>, F>::empty());
        }
        r
    }

    /// The position of `name` among the entries, if it is bound.
    fn position_of(&self, name: &str) -> (r: Option<usize>)
        ensures
            match r {
                Some(i) => i < self.entries_seq().len() && self.entries_seq()[i as int].0
                    == name@,
                None => !sv_has_key(self.entries_seq(), name@),
            },
    {
        let n = self.entries.len();
        let mut i: usize = 0;
        while i < n
            invariant
                n == self.entries_seq().len(),
                n == self.entries@.len(),
                i <= n,
                forall|j: int| 0 <= j < i ==> self.entries_seq()[j].0 != name@,
            decreases n - i,
        {
            if str_eq(self.entries[i].0.as_str(), name) {
                return Some(i);
            }
            i += 1;
        }
        None
    }

    /// Binds `name` to the callable `f`; an earlier binding of the same
    /// name is replaced.
    pub fn insert(&mut self, name: &str, f: F)
        requires
            old(self).wf(),
        ensures
            final(self).wf(),
            final(self)@ == old(self)@.insert(name@, f),
    {
        let ghost s0 = old(self).entries_seq();
        let n = String::from_str(name);
        match self.position_of(name) {
            Some(i) => {
                proof {
                    lemma_sv_entry(s0, i as int);
                }
                self.entries.remove(i);
                self.entries.insert(i, (n, f));
                proof {
                    let s1 = self.entries_seq();
                    assert(s1 =~= s0.update(i as int, (name@, f)));
                    assert forall|a: int, b: int| 0 <= a < b < s1.len() implies s1[a].0
                        != s1[b].0 by {
                        assert(s0[a].0 == (if a == i { name@ } else { s1[a].0 }) || a == i);
                    }
                    assert forall|k2: Seq<char>| true implies #[trigger] sv_has_key(s1, k2)
                        == sv_has_key(s0, k2) by {
                        if sv_has_key(s1, k2) {
                            let w = choose|w: int| 0 <= w < s1.len() && s1[w].0 == k2;
                            assert(s0[w].0 == s1[w].0);
                        }
                        if sv_has_key(s0, k2) {
                            let w = choose|w: int| 0 <= w < s0.len() && s0[w].0 == k2;
                            assert(s1[w].0 == s0[w].0);
                        }
                    }
                    assert forall|k2: Seq<char>| sv_has_key(s1, k2) implies sv_map(s1)[k2]
                        == old(self)@.insert(name@, f)[k2] by {
                        let w = sv_key_index(s1, k2);
                        assert(0 <= w < s1.len() && s1[w].0 == k2);
                        lemma_sv_entry(s1, w);
                        if k2 == name@ {
                            if w != i {
                                assert(s0[w].0 == s1[w].0);
                                lemma_sv_entry(s0, w);
                                assert(false);
                            }
                        } else {
                            assert(s0[w].0 == s1[w].0 && s0[w].1 == s1[w].1);
                            lemma_sv_entry(s0, w);
                        }
                    }
                    assert(self@ =~= old(self)@.insert(name@, f));
                }
            },
            None => {
                self.entries.push((n, f));
                proof {
                    let s1 = self.entries_seq();
                    assert(s1 =~= s0.push((name@, f)));
                    assert forall|a: int, b: int| 0 <= a < b < s1.len() implies s1[a].0
                        != s1[b].0 by {
                        if b < s1.len() - 1 {
                            assert(s0[a].0 != s0[b].0);
                        } else {
                            assert(s1[a].0 == s0[a].0);
                            assert(!sv_has_key(s0, name@));
                        }
                    }
                    assert forall|k2: Seq<char>| sv_has_key(s1, k2) implies sv_map(s1)[k2]
                        == old(self)@.insert(name@, f)[k2] by {
                        let w = sv_key_index(s1, k2);
                        assert(0 <= w < s1.len() && s1[w].0 == k2);
                        lemma_sv_entry(s1, w);
                        if w < s1.len() - 1 {
                            assert(s0[w].0 == s1[w].0 && s0[w].1 == s1[w].1);
                            lemma_sv_entry(s0, w);
                            if k2 == name@ {
                                assert(sv_has_key(s0, name@));
                                assert(false);
                            }
                        }
                    }
                    assert forall|k2: Seq<char>| true implies #[trigger] sv_has_key(s1, k2)
                        == (sv_has_key(s0, k2) || k2 == name@) by {
                        if sv_has_key(s1, k2) {
                            let w = choose|w: int| 0 <= w < s1.len() && s1[w].0 == k2;
                            if w < s1.len() - 1 {
                                assert(s0[w].0 == k2);
                            }
                        }
                        if sv_has_key(s0, k2) {
                            let w = choose|w: int| 0 <= w < s0.len() && s0[w].0 == k2;
                            assert(s1[w].0 == k2);
                        }
                        if k2 == name@ {
                            assert(s1[s1.len() - 1].0 == k2);
                        }
                    }
                    assert(self@ =~= old(self)@.insert(name@, f));
                }
            },
        }
    }

    /// The callable bound to `name`, if any.
    pub fn get(&self, name: &str) -> (r: Option<&F>)
        requires
            self.wf(),
        ensures
            match r {
                Some(f) => self@.contains_key(name@) && *f == self@[name@],
                None => !self@.contains_key(name@),
            },
    {
        match self.position_of(name) {
            Some(i) => {
                proof {
                    lemma_sv_entry(self.entries_seq(), i as int);
                }
                Some(&self.entries[i].1)
            },
            None => None,
        }
    }
}

// ---------------------------------------------------------------------
// Parsing an expression body
// ---------------------------------------------------------------------

/// What parsing the text between the expression markers yields: whether it
/// is a function call, the call's name, and the resolved argument values,
/// or the kind of failure.  Mirrored step by step by the executable
/// scanner, whose results it pins down.
///
/// The scan accumulates a name until the input ends (a bare variable: an
/// empty, non-function result whose caller looks the full body up in the
/// bindings), a `)` arrives before any `(` (the same), or a `(` opens an
/// argument list.
pub open spec fn parse_expr(body: Seq<char>, vars: Map<Seq<char>, Seq<char>>) -> Result<
    (bool, Seq<char>, Seq<Seq<char>>),
    Fault,
> {
    parse_name(body, 0, vars)
}

/// The name-scanning state of [`parse_expr`]: `i` characters are read.
pub open spec fn parse_name(body: Seq<char>, i: int, vars: Map<Seq<char>, Seq<char>>) -> Result<
    (bool, Seq<char>, Seq<Seq<char>>),
    Fault,
>
    decreases body.len() - i, 2int,
{
    if i < 0 || i >= body.len() {
        Ok((false, Seq::empty(), Seq::empty()))
    } else if body[i] == '(' {
        if i == 0 {
            Err(Fault::BadSyntax)  // a call with no name
        } else {
            parse_args(body, i + 1, body.subrange(0, i), Seq::empty(), vars)
        }
    } else if body[i] == ')' {
        Ok((false, Seq::empty(), Seq::empty()))
    } else {
        parse_name(body, i + 1, vars)
    }
}

/// The argument-list state: between arguments, commas and spaces are
/// skipped; `"` opens a string literal, `)` closes the call, and any other
/// character starts a bare identifier to be resolved in the bindings.
pub open spec fn parse_args(
    body: Seq<char>,
    i: int,
    name: Seq<char>,
    args: Seq<Seq<char>>,
    vars: Map<Seq<char>, Seq<char>>,
) -> Result<(bool, Seq<char>, Seq<Seq<char>>), Fault>
    decreases body.len() - i, 1int,
{
    if i < 0 || i >= body.len() {
        Err(Fault::BadSyntax)  // unclosed parentheses
    } else if body[i] == '"' {
        parse_lit(body, i + 1, i + 1, name, args, vars)
    } else if body[i] == ')' {
        Ok((true, name, args))
    } else if body[i] == ',' || body[i] == ' ' {
        parse_args(body, i + 1, name, args, vars)
    } else {
        parse_ident(body, i, i, name, args, vars)
    }
}

/// The string-literal state: the literal began at `start`, the cursor is
/// at `i`.  After the closing quote only a comma (more arguments) or a
/// closing parenthesis may follow.
pub open spec fn parse_lit(
    body: Seq<char>,
    start: int,
    i: int,
    name: Seq<char>,
    args: Seq<Seq<char>>,
    vars: Map<Seq<char>, Seq<char>>,
) -> Result<(bool, Seq<char>, Seq<Seq<char>>), Fault>
    decreases body.len() - i, 0int,
{
    if i < 0 || i >= body.len() {
        Err(Fault::BadSyntax)  // unclosed string literal
    } else if body[i] == '"' {
        let lit = body.subrange(start, i);
        if i + 1 >= body.len() {
            Err(Fault::BadSyntax)  // unclosed parentheses
        } else if body[i + 1] == ',' {
            parse_args(body, i + 2, name, args.push(lit), vars)
        } else if body[i + 1] == ')' {
            Ok((true, name, args.push(lit)))
        } else {
            Err(Fault::BadSyntax)  // unexpected character after a literal
        }
    } else {
        parse_lit(body, start, i + 1, name, args, vars)
    }
}

/// The bare-identifier state: the identifier began at `start`, the cursor
/// is at `i`.  A comma or closing parenthesis ends it, whereupon its value
/// is looked up in the bindings; a space inside it is an error.
pub open spec fn parse_ident(
    body: Seq<char>,
    start: int,
    i: int,
    name: Seq<char>,
    args: Seq<Seq<char>>,
    vars: Map<Seq<char>, Seq<char>>,
) -> Result<(bool, Seq<char>, Seq<Seq<char>>), Fault>
    decreases body.len() - i, 0int,
{
    if i < 0 || i >= body.len() {
        Err(Fault::BadSyntax)  // unclosed parentheses
    } else if body[i] == ' ' {
        Err(Fault::BadSyntax)  // a space inside a bare identifier
    } else if body[i] == ',' || body[i] == ')' {
        let ident = body.subrange(start, i);
        if !vars.contains_key(ident) {
            Err(Fault::MissingVariable)
        } else if body[i] == ')' {
            Ok((true, name, args.push(vars[ident])))
        } else {
            parse_args(body, i + 1, name, args.push(vars[ident]), vars)
        }
    } else {
        parse_ident(body, start, i + 1, name, args, vars)
    }
}

/// Whether the executable parse result `r` is the one the specification
/// `s` calls for, error kinds and all.
pub open spec fn parse_models(
    r: Result<(bool, String, Vec<String>), JinjaError>,
    s: Result<(bool, Seq<char>, Seq<Seq<char>>), Fault>,
) -> bool {
    match (r, s) {
        (Ok(out), Ok(want)) => out.0 == want.0 && out.1@ == want.1 && out.2.deep_view()
            == want.2,
        (Err(e), Err(k)) => fault_of(e) == Some(k),
        _ => false,
    }
}

/// The name-scanning state, executed; see [`parse_name`].
fn scan_name(body: &str, len: usize, i: usize, variables: &StringMap) -> (r: Result<
    (bool, String, Vec<String>),
    JinjaError,
>)
    requires
        len == body@.len(),
        i <= len,
        variables.wf(),
    ensures
        parse_models(r, parse_name(body@, i as int, variables@)),
    decreases body@.len() - i, 2int,
{
    if i >= len {
        let out: Vec<String> = Vec::new();
        proof {
            assert(out.deep_view() =~= Seq::<Seq<char>>::empty());
        }
        return Ok((false, String::new(), out));
    }
    let c = body.get_char(i);
    if c == '(' {
        if i == 0 {
            Err(JinjaError::SyntaxError(String::from_str("Function call with no name")))
        } else {
            let name = body.substring_char(0, i);
            let args: Vec<String> = Vec::new();
            proof {
                assert(args.deep_view() =~= Seq::<Seq<char>>::empty());
            }
            scan_args(body, len, i + 1, String::from_str(name), args, variables)
        }
    } else if c == ')' {
        let out: Vec<String> = Vec::new();
        proof {
            assert(out.deep_view() =~= Seq::<Seq<char>>::empty());
        }
        Ok((false, String::new(), out))
    } else {
        scan_name(body, len, i + 1, variables)
    }
}

/// The argument-list state, executed; see [`parse_args`].
fn scan_args(
    body: &str,
    len: usize,
    i: usize,
    name: String,
    args: Vec<String>,
    variables: &StringMap,
) -> (r: Result<(bool, String, Vec<String>), JinjaError>)
    requires
        len == body@.len(),
        i <= len + 2,
        variables.wf(),
    ensures
        parse_models(r, parse_args(body@, i as int, name@, args.deep_view(), variables@)),
    decreases body@.len() - i, 1int,
{
    if i >= len {
        return Err(JinjaError::SyntaxError(String::from_str("Unclosed parentheses")));
    }
    let c = body.get_char(i);
    if c == '"' {
        scan_lit(body, len, i + 1, i + 1, name, args, variables)
    } else if c == ')' {
        Ok((true, name, args))
    } else if c == ',' || c == ' ' {
        scan_args(body, len, i + 1, name, args, variables)
    } else {
        scan_ident(body, len, i, i, name, args, variables)
    }
}

/// The string-literal state, executed; see [`parse_lit`].
fn scan_lit(
    body: &str,
    len: usize,
    start: usize,
    i: usize,
    name: String,
    args: Vec<String>,
    variables: &StringMap,
) -> (r: Result<(bool, String, Vec<String>), JinjaError>)
    requires
        len == body@.len(),
        start <= i,
        i <= len + 1,
        variables.wf(),
    ensures
        parse_models(
            r,
            parse_lit(body@, start as int, i as int, name@, args.deep_view(), variables@),
        ),
    decreases body@.len() - i, 0int,
{
    if i >= len {
        return Err(JinjaError::SyntaxError(String::from_str("Unclosed string literal")));
    }
    let c = body.get_char(i);
    if c == '"' {
        let lit = body.substring_char(start, i);
        if i + 1 >= len {
            Err(JinjaError::SyntaxError(String::from_str("Unclosed parentheses")))
        } else {
            let after = body.get_char(i + 1);
            if after == ',' {
                let mut args2 = args;
                args2.push(String::from_str(lit));
                proof {
                    assert(args2.deep_view() =~= args.deep_view().push(lit@));
                }
                scan_args(body, len, i + 2, name, args2, variables)
            } else if after == ')' {
                let mut args2 = args;
                args2.push(String::from_str(lit));
                proof {
                    assert(args2.deep_view() =~= args.deep_view().push(lit@));
                }
                Ok((true, name, args2))
            } else {
                Err(
                    JinjaError::SyntaxError(
                        String::from_str("Expected comma or closing parentheses"),
                    ),
                )
            }
        }
    } else {
        scan_lit(body, len, start, i + 1, name, args, variables)
    }
}

/// The bare-identifier state, executed; see [`parse_ident`].
fn scan_ident(
    body: &str,
    len: usize,
    start: usize,
    i: usize,
    name: String,
    args: Vec<String>,
    variables: &StringMap,
) -> (r: Result<(bool, String, Vec<String>), JinjaError>)
    requires
        len == body@.len(),
        start <= i,
        i <= len,
        variables.wf(),
    ensures
        parse_models(
            r,
            parse_ident(body@, start as int, i as int, name@, args.deep_view(), variables@),
        ),
    decreases body@.len() - i, 0int,
{
    if i >= len {
        return Err(JinjaError::SyntaxError(String::from_str("Unclosed parentheses")));
    }
    let c = body.get_char(i);
    if c == ' ' {
        Err(
            JinjaError::SyntaxError(
                String::from_str("Expected a variable name, but a space was found"),
            ),
        )
    } else if c == ',' || c == ')' {
        let ident = body.substring_char(start, i);
        match variables.get(ident) {
            None => Err(JinjaError::NoSuchVariable),
            Some(value) => {
                let mut args2 = args;
                args2.push(value.clone());
                proof {
                    assert(args2.deep_view() =~= args.deep_view().push(variables@[ident@]));
                }
                if c == ')' {
                    Ok((true, name, args2))
                } else {
                    scan_args(body, len, i + 1, name, args2, variables)
                }
            },
        }
    } else {
        scan_ident(body, len, start, i + 1, name, args, variables)
    }
}

/// Parses the text standing between the expression markers: whether it is
/// a function call, the call's name, and the resolved argument values.
/// Bare-identifier arguments are looked up in `variables` during the scan,
/// so the caller receives values, never unresolved names.
pub fn parse_replace(varname: &str, variables: &StringMap) -> (r: Result<
    (bool, String, Vec<String>),
    JinjaError,
>)
    requires
        variables.wf(),
    ensures
        parse_models(r, parse_expr(varname@, variables@)),
{
    let len = varname.unicode_len();
    scan_name(varname, len, 0, variables)
}

// ---------------------------------------------------------------------
// The directive patterns
// ---------------------------------------------------------------------

/// The opening marker of an expression: `{{ ` (one space of padding).
pub open spec fn expr_open() -> Seq<char> {
    seq!['{', '{', ' ']
}

/// The closing marker of an expression: ` }}`.
pub open spec fn expr_close() -> Seq<char> {
    seq![' ', '}', '}']
}

/// The opening of the file-splicing directive, up to the quote before the
/// file name.
pub open spec fn splice_open() -> Seq<char> {
    seq!['{', '%', ' ', 'i', 'n', 'c', 'l', 'u', 'd', 'e', ' ', '"']
}

/// The opening of the extends directive, up to the quote before the
/// parent's file name.
pub open spec fn extends_open() -> Seq<char> {
    seq!['{', '%', ' ', 'e', 'x', 't', 'e', 'n', 'd', 's', ' ', '"']
}

/// The close of a quoted-file directive: `" %}`.
pub open spec fn quote_close() -> Seq<char> {
    seq!['"', ' ', '%', '}']
}

/// The opening of a block directive, up to the block's name.
pub open spec fn block_open() -> Seq<char> {
    seq!['{', '%', ' ', 'b', 'l', 'o', 'c', 'k', ' ']
}

/// The close of a block directive's head: ` %}`.
pub open spec fn head_close() -> Seq<char> {
    seq![' ', '%', '}']
}

/// The end marker of a block: `{% endblock %}`.
pub open spec fn block_close() -> Seq<char> {
    seq!['{', '%', ' ', 'e', 'n', 'd', 'b', 'l', 'o', 'c', 'k', ' ', '%', '}']
}

/// The directory under which template files are resolved.
pub open spec fn template_root() -> Seq<char> {
    seq!['.', '/', 't', 'e', 'm', 'p', 'l', 'a', 't', 'e', 's', '/']
}

fn expr_open_v() -> (v: Vec<char>)
    ensures
        v@ == expr_open(),
{
    let v = vec!['{', '{', ' '];
    proof {
        assert(v@ =~= expr_open());
    }
    v
}

fn expr_close_v() -> (v: Vec<char>)
    ensures
        v@ == expr_close(),
{
    let v = vec![' ', '}', '}'];
    proof {
        assert(v@ =~= expr_close());
    }
    v
}

fn splice_open_v() -> (v: Vec<char>)
    ensures
        v@ == splice_open(),
{
    let v = vec!['{', '%', ' ', 'i', 'n', 'c', 'l', 'u', 'd', 'e', ' ', '"'];
    proof {
        assert(v@ =~= splice_open());
    }
    v
}

fn extends_open_v() -> (v: Vec<char>)
    ensures
        v@ == extends_open(),
{
    let v = vec!['{', '%', ' ', 'e', 'x', 't', 'e', 'n', 'd', 's', ' ', '"'];
    proof {
        assert(v@ =~= extends_open());
    }
    v
}

fn quote_close_v() -> (v: Vec<char>)
    ensures
        v@ == quote_close(),
{
    let v = vec!['"', ' ', '%', '}'];
    proof {
        assert(v@ =~= quote_close());
    }
    v
}

fn block_open_v() -> (v: Vec<char>)
    ensures
        v@ == block_open(),
{
    let v = vec!['{', '%', ' ', 'b', 'l', 'o', 'c', 'k', ' '];
    proof {
        assert(v@ =~= block_open());
    }
    v
}

fn head_close_v() -> (v: Vec<char>)
    ensures
        v@ == head_close(),
{
    let v = vec![' ', '%', '}'];
    proof {
        assert(v@ =~= head_close());
    }
    v
}

fn block_close_v() -> (v: Vec<char>)
    ensures
        v@ == block_close(),
{
    let v = vec!['{', '%', ' ', 'e', 'n', 'd', 'b', 'l', 'o', 'c', 'k', ' ', '%', '}'];
    proof {
        assert(v@ =~= block_close());
    }
    v
}

/// The path under which the template file `file` is looked up: the
/// template root followed by the file's name.
pub fn template_path(file: &str) -> (r: String)
    ensures
        r@ == template_root() + file@,
{
    let mut s = String::from_str("./templates/");
    proof {
        reveal_strlit("./templates/");
        assert(s@ =~= template_root());
    }
    s.append(file);
    s
}

// ---------------------------------------------------------------------
// The render pipeline, specified
// ---------------------------------------------------------------------

/// Resolves the extends directive of `t`, if one stands in it, against the
/// loaded files in `store` (keyed by full path): the parent's blocks are
/// replaced by the child's same-named blocks, and the whole directive span
/// (the directive and everything after it) is replaced by the expanded
/// parent; text before the directive is kept.  `Err` carries the parent's
/// path when `store` does not hold it.
pub open spec fn extends_resolve(t: Seq<char>, store: Map<Seq<char>, Seq<char>>) -> Result<
    Seq<char>,
    Seq<char>,
> {
    let x = scan_first(t, extends_open(), 0);
    if x < 0 {
        Ok(t)
    } else {
        let fstart = x + extends_open().len();
        let q = scan_first(t, quote_close(), fstart as int);
        if q < fstart || q + quote_close().len() > t.len() {
            Ok(t)
        } else {
            let path = template_root() + t.subrange(fstart as int, q);
            if !store.contains_key(path) {
                Err(path)
            } else {
                let child_body = t.subrange(q + quote_close().len(), t.len() as int);
                let overrides = child_blocks(child_body, 0, Map::empty());
                Ok(t.subrange(0, x) + apply_blocks(store[path], 0, overrides))
            }
        }
    }
}

/// The block overrides that the child body `t` declares, scanned left to
/// right from `pos`: each block directive binds its name to its content,
/// a later block of the same name replacing an earlier one.  One newline
/// directly after the block's head and one directly before its end marker
/// are not part of the content.
pub open spec fn child_blocks(
    t: Seq<char>,
    pos: int,
    acc: Map<Seq<char>, Seq<char>>,
) -> Map<Seq<char>, Seq<char>>
    decreases t.len() - pos,
{
    let b = scan_first(t, block_open(), pos);
    if b < pos {
        acc
    } else {
        let h = scan_first(t, head_close(), b + block_open().len());
        if h < b + block_open().len() {
            acc
        } else {
            let e = scan_first(t, block_close(), h + head_close().len());
            if e < h + head_close().len() || e + block_close().len() > t.len() {
                acc
            } else {
                let name = t.subrange(b + block_open().len(), h);
                let cstart = if h + head_close().len() < e && t[h + head_close().len()]
                    == '\n' {
                    h + head_close().len() + 1
                } else {
                    h + head_close().len()
                };
                let cend = if cstart < e && t[e - 1] == '\n' {
                    e - 1
                } else {
                    e
                };
                child_blocks(
                    t,
                    e + block_close().len(),
                    acc.insert(name, t.subrange(cstart, cend)),
                )
            }
        }
    }
}

/// The parent text from `pos` on, with every block directive whose name
/// `overrides` binds replaced (directive and content) by the bound
/// content; a block without an override stands as its author wrote it.
pub open spec fn apply_blocks(
    t: Seq<char>,
    pos: int,
    overrides: Map<Seq<char>, Seq<char>>,
) -> Seq<char>
    decreases t.len() - pos,
{
    let b = scan_first(t, block_open(), pos);
    if b < pos {
        t.subrange(pos, t.len() as int)
    } else {
        let h = scan_first(t, head_close(), b + block_open().len());
        if h < b + block_open().len() {
            t.subrange(pos, t.len() as int)
        } else {
            let e = scan_first(t, block_close(), h + head_close().len());
            if e < h + head_close().len() || e + block_close().len() > t.len() {
                t.subrange(pos, t.len() as int)
            } else {
                let name = t.subrange(b + block_open().len(), h);
                let send = e + block_close().len();
                if overrides.contains_key(name) {
                    t.subrange(pos, b) + overrides[name] + apply_blocks(t, send, overrides)
                } else {
                    t.subrange(pos, send) + apply_blocks(t, send, overrides)
                }
            }
        }
    }
}

/// Splices every named file into `t`, left to right, replacing each
/// directive span by the named file's raw content; the spliced content is
/// not scanned again.  `Err` carries the first needed path that `store`
/// does not hold.
pub open spec fn splice_pass(t: Seq<char>, store: Map<Seq<char>, Seq<char>>) -> Result<
    Seq<char>,
    Seq<char>,
>
    decreases t.len(),
{
    let i = scan_first(t, splice_open(), 0);
    if i < 0 {
        Ok(t)
    } else {
        let fstart = i + splice_open().len();
        let j = scan_first(t, quote_close(), fstart as int);
        if j < fstart || j + quote_close().len() > t.len() {
            Ok(t)
        } else {
            let path = template_root() + t.subrange(fstart as int, j);
            if !store.contains_key(path) {
                Err(path)
            } else {
                match splice_pass(t.subrange(j + quote_close().len(), t.len() as int), store) {
                    Ok(rest) => Ok(t.subrange(0, i) + store[path] + rest),
                    Err(p) => Err(p),
                }
            }
        }
    }
}

/// Joins a substitution step: the text before the expression, the
/// replacement, and the outcome of the rest of the text.
pub open spec fn glue(pre: Seq<char>, mid: Seq<char>, rest: Result<Seq<char>, Fault>) -> Result<
    Seq<char>,
    Fault,
> {
    match rest {
        Ok(r) => Ok(pre + mid + r),
        Err(k) => Err(k),
    }
}

/// Whether every function of the registry view `m` may be called on any
/// argument list.
pub open spec fn registry_callable<F: Fn(Vec<String>) -> String>(m: Map<Seq<char>, F>) -> bool {
    forall|k: Seq<char>, argv: Vec<String>| m.contains_key(k) ==> #[trigger] call_requires(
        m[k],
        (argv,),
    )
}

/// Whether `res` arises from gluing the text before an expression, a
/// fixed replacement, and some outcome of the text after it.
pub open spec fn var_step<F: Fn(Vec<String>) -> String>(
    suffix: Seq<char>,
    vars: Map<Seq<char>, Seq<char>>,
    funcs: Option<Map<Seq<char>, F>>,
    pre: Seq<char>,
    mid: Seq<char>,
    res: Result<Seq<char>, Fault>,
) -> bool
    decreases suffix.len(), 1int,
{
    exists|rest: Result<Seq<char>, Fault>|
        #![trigger glue(pre, mid, rest)]
        {
            &&& subst_rel(suffix, vars, funcs, rest)
            &&& res == glue(pre, mid, rest)
        }
}

/// Whether `res` arises from gluing the text before an expression, some
/// value the named registered function may return for the parsed
/// arguments, and some outcome of the text after it.
pub open spec fn call_step<F: Fn(Vec<String>) -> String>(
    suffix: Seq<char>,
    vars: Map<Seq<char>, Seq<char>>,
    m: Map<Seq<char>, F>,
    name: Seq<char>,
    args: Seq<Seq<char>>,
    pre: Seq<char>,
    res: Result<Seq<char>, Fault>,
) -> bool
    decreases suffix.len(), 1int,
{
    exists|argv: Vec<String>, ret: String, rest: Result<Seq<char>, Fault>|
        #![trigger call_ensures(m[name], (argv,), ret), glue(pre, ret@, rest)]
        {
            &&& argv.deep_view() == args
            &&& call_ensures(m[name], (argv,), ret)
            &&& subst_rel(suffix, vars, Some(m), rest)
            &&& res == glue(pre, ret@, rest)
        }
}

/// Whether `res` is an outcome of substituting every expression of `t`,
/// left to right: the leftmost `{{ body }}` span is replaced by the
/// variable's value or by a value the named function may return for the
/// parsed arguments, and the text after the span is substituted in turn;
/// replacement text is not scanned again.  A relation, not a function,
/// because a registered function may return any value its contract
/// allows.
pub open spec fn subst_rel<F: Fn(Vec<String>) -> String>(
    t: Seq<char>,
    vars: Map<Seq<char>, Seq<char>>,
    funcs: Option<Map<Seq<char>, F>>,
    res: Result<Seq<char>, Fault>,
) -> bool
    decreases t.len(), 0int,
{
    let i = scan_first(t, expr_open(), 0);
    if i < 0 {
        res == Ok::<Seq<char>, Fault>(t)
    } else {
        let j = scan_first(t, expr_close(), i + expr_open().len());
        if j < i + expr_open().len() || j + expr_close().len() > t.len() {
            res == Ok::<Seq<char>, Fault>(t)
        } else {
            let body = t.subrange(i + expr_open().len(), j);
            let pre = t.subrange(0, i);
            let suffix = t.subrange(j + expr_close().len(), t.len() as int);
            match parse_expr(body, vars) {
                Err(k) => res == Err::<Seq<char>, Fault>(k),
                Ok((is_call, name, args)) => {
                    if is_call {
                        match funcs {
                            None => res == Err::<Seq<char>, Fault>(Fault::MissingFunction),
                            Some(m) => {
                                if !m.contains_key(name) {
                                    res == Err::<Seq<char>, Fault>(Fault::MissingFunction)
                                } else {
                                    call_step(suffix, vars, m, name, args, pre, res)
                                }
                            },
                        }
                    } else {
                        if !vars.contains_key(body) {
                            res == Err::<Seq<char>, Fault>(Fault::MissingVariable)
                        } else {
                            var_step(suffix, vars, funcs, pre, vars[body], res)
                        }
                    }
                },
            }
        }
    }
}

/// What one rendering call came to: the rendered text, a template file
/// that must be loaded into the cache before rendering can proceed, or a
/// failure.
pub enum RenderProgress {
    /// The fully rendered text.
    Rendered(String),
    /// The full path of a template file the renderer needs; the caller
    /// loads it, stores it, and renders again.
    NeedsFile(String),
    /// The render failed; no partial output is returned.
    Failed(JinjaError),
}

/// The registry view that an optional registry reference denotes.
pub open spec fn regs_view<F>(functions: Option<&FunctionRegistry<F>>) -> Option<
    Map<Seq<char>, F>,
> {
    match functions {
        None => None,
        Some(r) => Some(r@),
    }
}

/// The well-formedness a render call asks of its registry argument: unique
/// names, and every registered function callable on any argument list.
pub open spec fn regs_ok<F: Fn(Vec<String>) -> String>(
    functions: Option<&FunctionRegistry<F>>,
) -> bool {
    match functions {
        None => true,
        Some(r) => r.wf() && registry_callable(r@),
    }
}

/// Whether `p` is an outcome of rendering `t` against the bindings, the
/// registry and the loaded files in `store`: inheritance is resolved
/// first, then file splicing, then expression substitution, and the first
/// failure ends the render.
pub open spec fn render_rel<F: Fn(Vec<String>) -> String>(
    t: Seq<char>,
    vars: Map<Seq<char>, Seq<char>>,
    funcs: Option<Map<Seq<char>, F>>,
    store: Map<Seq<char>, Seq<char>>,
    p: RenderProgress,
) -> bool {
    match extends_resolve(t, store) {
        Err(path) => p matches RenderProgress::NeedsFile(f) && f@ == path,
        Ok(t1) => match splice_pass(t1, store) {
            Err(path) => p matches RenderProgress::NeedsFile(f) && f@ == path,
            Ok(t2) => match p {
                RenderProgress::Rendered(out) => subst_rel(t2, vars, funcs, Ok(out@)),
                RenderProgress::Failed(e) => match fault_of(e) {
                    Some(k) => subst_rel(t2, vars, funcs, Err(k)),
                    None => false,
                },
                RenderProgress::NeedsFile(_) => false,
            },
        },
    }
}

// ---------------------------------------------------------------------
// The render pipeline, executed
// ---------------------------------------------------------------------

/// The block overrides of the child body `t`, collected into `acc`; see
/// [`child_blocks`].
fn collect_blocks(t: &str, len: usize, pos: usize, acc: StringMap) -> (m: StringMap)
    requires
        len == t@.len(),
        acc.wf(),
    ensures
        m.wf(),
        m@ == child_blocks(t@, pos as int, acc@),
    decreases len - pos,
{
    let bo = block_open_v();
    let hc = head_close_v();
    let bc = block_close_v();
    match find_from(t, len, pos, &bo) {
        None => acc,
        Some(b) => match find_from(t, len, b + bo.len(), &hc) {
            None => acc,
            Some(h) => match find_from(t, len, h + hc.len(), &bc) {
                None => acc,
                Some(e) => {
                    let name = t.substring_char(b + bo.len(), h);
                    let hend = h + hc.len();
                    let cstart = if hend < e && t.get_char(hend) == '\n' {
                        hend + 1
                    } else {
                        hend
                    };
                    let cend = if cstart < e && t.get_char(e - 1) == '\n' {
                        e - 1
                    } else {
                        e
                    };
                    let content = t.substring_char(cstart, cend);
                    let mut acc2 = acc;
                    acc2.insert(name, String::from_str(content));
                    collect_blocks(t, len, e + bc.len(), acc2)
                },
            },
        },
    }
}

/// The parent text with the overrides applied, executed; see
/// [`apply_blocks`].
fn apply_overrides(t: &str, len: usize, pos: usize, overrides: &StringMap) -> (out: String)
    requires
        len == t@.len(),
        pos <= len,
        overrides.wf(),
    ensures
        out@ == apply_blocks(t@, pos as int, overrides@),
    decreases len - pos,
{
    let bo = block_open_v();
    let hc = head_close_v();
    let bc = block_close_v();
    match find_from(t, len, pos, &bo) {
        None => String::from_str(t.substring_char(pos, len)),
        Some(b) => match find_from(t, len, b + bo.len(), &hc) {
            None => String::from_str(t.substring_char(pos, len)),
            Some(h) => match find_from(t, len, h + hc.len(), &bc) {
                None => String::from_str(t.substring_char(pos, len)),
                Some(e) => {
                    let name = t.substring_char(b + bo.len(), h);
                    let send = e + bc.len();
                    let rest = apply_overrides(t, len, send, overrides);
                    match overrides.get(name) {
                        Some(c) => {
                            let mut out = String::from_str(t.substring_char(pos, b));
                            out.append(c.as_str());
                            out.append(rest.as_str());
                            proof {
                                assert(out@ =~= t@.subrange(pos as int, b as int)
                                    + overrides@[name@] + apply_blocks(
                                    t@,
                                    send as int,
                                    overrides@,
                                ));
                            }
                            out
                        },
                        None => {
                            let mut out = String::from_str(t.substring_char(pos, send));
                            out.append(rest.as_str());
                            proof {
                                assert(out@ =~= t@.subrange(pos as int, send as int)
                                    + apply_blocks(t@, send as int, overrides@));
                            }
                            out
                        },
                    }
                },
            },
        },
    }
}

/// Resolves the extends directive against the loaded files, executed; see
/// [`extends_resolve`].
fn resolve_parent(t: &str, store: &StringMap) -> (r: Result<String, String>)
    requires
        store.wf(),
    ensures
        match r {
            Ok(s) => extends_resolve(t@, store@) == Ok::<Seq<char>, Seq<char>>(s@),
            Err(p) => extends_resolve(t@, store@) == Err::<Seq<char>, Seq<char>>(p@),
        },
{
    let len = t.unicode_len();
    let eo = extends_open_v();
    let qc = quote_close_v();
    match find_from(t, len, 0, &eo) {
        None => Ok(String::from_str(t)),
        Some(x) => {
            let fstart = x + eo.len();
            match find_from(t, len, fstart, &qc) {
                None => Ok(String::from_str(t)),
                Some(q) => {
                    let fname = t.substring_char(fstart, q);
                    let path = template_path(fname);
                    match store.get(path.as_str()) {
                        None => Err(path),
                        Some(parent) => {
                            let child_body = t.substring_char(q + qc.len(), len);
                            let cblen = child_body.unicode_len();
                            let overrides = collect_blocks(child_body, cblen, 0, StringMap::new());
                            let plen = parent.as_str().unicode_len();
                            let expanded = apply_overrides(parent.as_str(), plen, 0, &overrides);
                            let mut out = String::from_str(t.substring_char(0, x));
                            out.append(expanded.as_str());
                            proof {
                                assert(out@ =~= t@.subrange(0, x as int) + apply_blocks(
                                    store@[path@],
                                    0,
                                    child_blocks(child_body@, 0, Map::empty()),
                                ));
                            }
                            Ok(out)
                        },
                    }
                },
            }
        },
    }
}

/// Splices the named files into `t`, executed; see [`splice_pass`].
fn splice_files(t: &str, store: &StringMap) -> (r: Result<String, String>)
    requires
        store.wf(),
    ensures
        match r {
            Ok(s) => splice_pass(t@, store@) == Ok::<Seq<char>, Seq<char>>(s@),
            Err(p) => splice_pass(t@, store@) == Err::<Seq<char>, Seq<char>>(p@),
        },
    decreases t@.len(),
{
    let len = t.unicode_len();
    let so = splice_open_v();
    let qc = quote_close_v();
    match find_from(t, len, 0, &so) {
        None => Ok(String::from_str(t)),
        Some(i) => {
            let fstart = i + so.len();
            match find_from(t, len, fstart, &qc) {
                None => Ok(String::from_str(t)),
                Some(j) => {
                    let fname = t.substring_char(fstart, j);
                    let path = template_path(fname);
                    match store.get(path.as_str()) {
                        None => Err(path),
                        Some(content) => {
                            let suffix = t.substring_char(j + qc.len(), len);
                            match splice_files(suffix, store) {
                                Err(p) => Err(p),
                                Ok(rest) => {
                                    let mut out = String::from_str(t.substring_char(0, i));
                                    out.append(content.as_str());
                                    out.append(rest.as_str());
                                    proof {
                                        assert(out@ =~= t@.subrange(0, i as int)
                                            + store@[path@] + rest@);
                                    }
                                    Ok(out)
                                },
                            }
                        },
                    }
                },
            }
        },
    }
}

/// One substitution step for a function call: with the leftmost
/// expression parsed as a call of a registered function, any value the
/// function may return, glued to any outcome of the rest, is an outcome
/// of the whole text.
proof fn lemma_subst_call<F: Fn(Vec<String>) -> String>(
    t: Seq<char>,
    vars: Map<Seq<char>, Seq<char>>,
    m: Map<Seq<char>, F>,
    i: int,
    j: int,
    name: Seq<char>,
    args: Seq<Seq<char>>,
    argv: Vec<String>,
    ret: String,
    rest: Result<Seq<char>, Fault>,
)
    requires
        i == scan_first(t, expr_open(), 0),
        j == scan_first(t, expr_close(), i + expr_open().len()),
        0 <= i,
        i + expr_open().len() <= j,
        j + expr_close().len() <= t.len(),
        parse_expr(t.subrange(i + expr_open().len(), j), vars) == Ok::<
            (bool, Seq<char>, Seq<Seq<char>>),
            Fault,
        >((true, name, args)),
        m.contains_key(name),
        argv.deep_view() == args,
        call_ensures(m[name], (argv,), ret),
        subst_rel(t.subrange(j + expr_close().len(), t.len() as int), vars, Some(m), rest),
    ensures
        subst_rel(t, vars, Some(m), glue(t.subrange(0, i), ret@, rest)),
{
    let pre = t.subrange(0, i);
    let suffix = t.subrange(j + expr_close().len(), t.len() as int);
    let res = glue(pre, ret@, rest);
    assert(call_step(suffix, vars, m, name, args, pre, res)) by {
        assert(call_ensures(m[name], (argv,), ret));
        assert(subst_rel(suffix, vars, Some(m), rest));
        assert(res == glue(pre, ret@, rest));
    }
    assert(subst_rel(t, vars, Some(m), res));
}

/// One substitution step for a bare variable: the bound value, glued to
/// any outcome of the rest, is an outcome of the whole text.
proof fn lemma_subst_var<F: Fn(Vec<String>) -> String>(
    t: Seq<char>,
    vars: Map<Seq<char>, Seq<char>>,
    funcs: Option<Map<Seq<char>, F>>,
    i: int,
    j: int,
    rest: Result<Seq<char>, Fault>,
)
    requires
        i == scan_first(t, expr_open(), 0),
        j == scan_first(t, expr_close(), i + expr_open().len()),
        0 <= i,
        i + expr_open().len() <= j,
        j + expr_close().len() <= t.len(),
        ({
            let body = t.subrange(i + expr_open().len(), j);
            &&& parse_expr(body, vars) matches Ok(p) && !p.0
            &&& vars.contains_key(body)
        }),
        subst_rel(t.subrange(j + expr_close().len(), t.len() as int), vars, funcs, rest),
    ensures
        subst_rel(
            t,
            vars,
            funcs,
            glue(t.subrange(0, i), vars[t.subrange(i + expr_open().len(), j)], rest),
        ),
{
    let body = t.subrange(i + expr_open().len(), j);
    let pre = t.subrange(0, i);
    let suffix = t.subrange(j + expr_close().len(), t.len() as int);
    let res = glue(pre, vars[body], rest);
    assert(var_step(suffix, vars, funcs, pre, vars[body], res)) by {
        assert(subst_rel(suffix, vars, funcs, rest));
        assert(res == glue(pre, vars[body], rest));
    }
    assert(subst_rel(t, vars, funcs, res));
}

/// Substitutes every expression of `t`, executed; see [`subst_rel`].
#[verifier::rlimit(60)]
fn substitute<F: Fn(Vec<String>) -> String>(
    t: &str,
    variables: &StringMap,
    functions: Option<&FunctionRegistry<F>>,
) -> (r: Result<String, JinjaError>)
    requires
        variables.wf(),
        regs_ok(functions),
    ensures
        match r {
            Ok(s) => subst_rel(t@, variables@, regs_view(functions), Ok::<Seq<char>, Fault>(s@)),
            Err(e) => match fault_of(e) {
                Some(k) => subst_rel(
                    t@,
                    variables@,
                    regs_view(functions),
                    Err::<Seq<char>, Fault>(k),
                ),
                None => false,
            },
        },
    decreases t@.len(),
{
    let len = t.unicode_len();
    let eo = expr_open_v();
    let ec = expr_close_v();
    let i = match find_from(t, len, 0, &eo) {
        None => {
            return Ok(String::from_str(t));
        },
        Some(i) => i,
    };
    let j = match find_from(t, len, i + eo.len(), &ec) {
        None => {
            return Ok(String::from_str(t));
        },
        Some(j) => j,
    };
    let body = t.substring_char(i + eo.len(), j);
    let (is_call, name, args) = match parse_replace(body, variables) {
        Err(e) => {
            return Err(e);
        },
        Ok(v) => v,
    };
    let suffix = t.substring_char(j + ec.len(), len);
    let ghost pre = t@.subrange(0, i as int);
    proof {
        assert(scan_first(t@, expr_open(), 0) == i as int);
        assert(scan_first(t@, expr_close(), i as int + expr_open().len()) == j as int);
        assert(body@ == t@.subrange(i as int + expr_open().len(), j as int));
        assert(suffix@ == t@.subrange(j as int + expr_close().len(), t@.len() as int));
        assert(j as int >= i as int + expr_open().len());
        assert(j as int + expr_close().len() <= t@.len());
    }
    if is_call {
        match functions {
            None => {
                return Err(JinjaError::NoSuchFunction);
            },
            Some(reg) => match reg.get(name.as_str()) {
                None => {
                    return Err(JinjaError::NoSuchFunction);
                },
                Some(f) => {
                    let ghost gargs = args;
                    proof {
                        assert(call_requires(reg@[name@], (gargs,)));
                    }
                    let value = f(args);
                    match substitute(suffix, variables, functions) {
                        Err(e) => {
                            proof {
                                let k = fault_of(e)->Some_0;
                                lemma_subst_call(
                                    t@,
                                    variables@,
                                    reg@,
                                    i as int,
                                    j as int,
                                    name@,
                                    gargs.deep_view(),
                                    gargs,
                                    value,
                                    Err::<Seq<char>, Fault>(k),
                                );
                            }
                            return Err(e);
                        },
                        Ok(rest) => {
                            let mut out = String::from_str(t.substring_char(0, i));
                            out.append(value.as_str());
                            out.append(rest.as_str());
                            proof {
                                lemma_subst_call(
                                    t@,
                                    variables@,
                                    reg@,
                                    i as int,
                                    j as int,
                                    name@,
                                    gargs.deep_view(),
                                    gargs,
                                    value,
                                    Ok::<Seq<char>, Fault>(rest@),
                                );
                                assert(out@ =~= pre + value@ + rest@);
                            }
                            return Ok(out);
                        },
                    }
                },
            },
        }
    } else {
        match variables.get(body) {
            None => {
                return Err(JinjaError::NoSuchVariable);
            },
            Some(value) => {
                let value = value.clone();
                match substitute(suffix, variables, functions) {
                    Err(e) => {
                        proof {
                            let k = fault_of(e)->Some_0;
                            lemma_subst_var(
                                t@,
                                variables@,
                                regs_view(functions),
                                i as int,
                                j as int,
                                Err::<Seq<char>, Fault>(k),
                            );
                        }
                        return Err(e);
                    },
                    Ok(rest) => {
                        let mut out = String::from_str(t.substring_char(0, i));
                        out.append(value.as_str());
                        out.append(rest.as_str());
                        proof {
                            lemma_subst_var(
                                t@,
                                variables@,
                                regs_view(functions),
                                i as int,
                                j as int,
                                Ok::<Seq<char>, Fault>(rest@),
                            );
                            assert(out@ =~= pre + value@ + rest@);
                        }
                        return Ok(out);
                    },
                }
            },
        }
    }
}

/// Renders `template` against the bindings, the registry and the loaded
/// template files in `templates`: inheritance first, then file splicing,
/// then expression substitution, failing fast on the first error.  No file
/// is read: a file that is needed and not loaded is reported as
/// [`RenderProgress::NeedsFile`].
pub fn render_with_templates<F: Fn(Vec<String>) -> String>(
    template: &str,
    variables: &StringMap,
    functions: Option<&FunctionRegistry<F>>,
    templates: &StringMap,
) -> (p: RenderProgress)
    requires
        variables.wf(),
        templates.wf(),
        regs_ok(functions),
    ensures
        render_rel(template@, variables@, regs_view(functions), templates@, p),
{
    let resolved = match resolve_parent(template, templates) {
        Err(path) => {
            return RenderProgress::NeedsFile(path);
        },
        Ok(s) => s,
    };
    let spliced = match splice_files(resolved.as_str(), templates) {
        Err(path) => {
            return RenderProgress::NeedsFile(path);
        },
        Ok(s) => s,
    };
    match substitute(spliced.as_str(), variables, functions) {
        Ok(out) => RenderProgress::Rendered(out),
        Err(e) => RenderProgress::Failed(e),
    }
}

// ---------------------------------------------------------------------
// Entry points
// ---------------------------------------------------------------------

/// The renderer's cache of loaded template files, keyed by full path.
/// Entries are only ever added, never evicted or refreshed: template
/// files are taken to be static for the life of the process.  One state
/// serves many renders; a caller that shares it across threads guards it
/// with a lock held for a whole render.
pub struct JinjaState {
    file_cache: StringMap,
}

impl JinjaState {
    /// The cached files by full path.
    pub closed spec fn cache(&self) -> Map<Seq<char>, Seq<char>> {
        self.file_cache@
    }

    /// The cache holds each path at most once.
    pub closed spec fn wf(&self) -> bool {
        self.file_cache.wf()
    }

    /// A state with an empty cache.
    pub fn new() -> (s: JinjaState)
        ensures
            s.wf(),
            s.cache() == Map::<Seq<char>, Seq<char>>::empty(),
    {
        JinjaState { file_cache: StringMap::new() }
    }

    /// Stores a loaded file's contents under its full path.
    pub fn store_file(&mut self, path: &str, contents: String)
        requires
            old(self).wf(),
        ensures
            final(self).wf(),
            final(self).cache() == old(self).cache().insert(path@, contents@),
    {
        self.file_cache.insert(path, contents);
    }

    /// The cached contents of `path`, with no file read.
    pub fn cached_file(&self, path: &str) -> (r: Option<&String>)
        requires
            self.wf(),
        ensures
            match r {
                Some(c) => self.cache().contains_key(path@) && c@ == self.cache()[path@],
                None => !self.cache().contains_key(path@),
            },
    {
        self.file_cache.get(path)
    }

    /// Renders a template given as a string against the cache.  A parent
    /// or spliced file that is not cached is reported as
    /// [`RenderProgress::NeedsFile`]; the caller loads it with
    /// [`JinjaState::store_file`] and renders again.  The cache itself is
    /// never changed by rendering.
    pub fn render_template_string<F: Fn(Vec<String>) -> String>(
        &self,
        template: String,
        variables: &StringMap,
        functions: Option<&FunctionRegistry<F>>,
    ) -> (p: RenderProgress)
        requires
            self.wf(),
            variables.wf(),
            regs_ok(functions),
        ensures
            render_rel(template@, variables@, regs_view(functions), self.cache(), p),
    {
        render_with_templates(template.as_str(), variables, functions, &self.file_cache)
    }

    /// Renders the template file `file`, resolved beneath the template
    /// root, against the cache; the file itself is looked up in the cache
    /// like any parent or spliced file.
    pub fn render_template<F: Fn(Vec<String>) -> String>(
        &self,
        file: &str,
        variables: &StringMap,
        functions: Option<&FunctionRegistry<F>>,
    ) -> (p: RenderProgress)
        requires
            self.wf(),
            variables.wf(),
            regs_ok(functions),
        ensures
            ({
                let path = template_root() + file@;
                if self.cache().contains_key(path) {
                    render_rel(
                        self.cache()[path],
                        variables@,
                        regs_view(functions),
                        self.cache(),
                        p,
                    )
                } else {
                    p matches RenderProgress::NeedsFile(f) && f@ == path
                }
            }),
    {
        let path = template_path(file);
        match self.file_cache.get(path.as_str()) {
            None => RenderProgress::NeedsFile(path),
            Some(contents) => render_with_templates(
                contents.as_str(),
                variables,
                functions,
                &self.file_cache,
            ),
        }
    }
}

/// Renders a template given as a string, statelessly: no files are at
/// hand, so a template that names a parent or a spliced file fails with
/// [`JinjaError::NoSuchTemplate`].  File-backed rendering goes through
/// [`JinjaState`], whose caller loads the files it asks for.
pub fn render_template_string<F: Fn(Vec<String>) -> String>(
    template: String,
    variables: &StringMap,
    functions: Option<&FunctionRegistry<F>>,
) -> (r: Result<String, JinjaError>)
    requires
        variables.wf(),
        regs_ok(functions),
    ensures
        ({
            let store = Map::<Seq<char>, Seq<char>>::empty();
            match r {
                Ok(s) => render_rel(
                    template@,
                    variables@,
                    regs_view(functions),
                    store,
                    RenderProgress::Rendered(s),
                ),
                Err(e) => match e {
                    JinjaError::NoSuchTemplate => exists|f: String|
                        #[trigger] render_rel(
                            template@,
                            variables@,
                            regs_view(functions),
                            store,
                            RenderProgress::NeedsFile(f),
                        ),
                    _ => render_rel(
                        template@,
                        variables@,
                        regs_view(functions),
                        store,
                        RenderProgress::Failed(e),
                    ),
                },
            }
        }),
{
    let empty = StringMap::new();
    match render_with_templates(template.as_str(), variables, functions, &empty) {
        RenderProgress::Rendered(s) => Ok(s),
        RenderProgress::NeedsFile(_f) => {
            proof {
                assert(render_rel(
                    template@,
                    variables@,
                    regs_view(functions),
                    Map::<Seq<char>, Seq<char>>::empty(),
                    RenderProgress::NeedsFile(_f),
                ));
            }
            Err(JinjaError::NoSuchTemplate)
        },
        RenderProgress::Failed(e) => Err(e),
    }
}

// ---------------------------------------------------------------------
// Directive builders
// ---------------------------------------------------------------------

/// The expression span that names `var`: `var` between the expression
/// markers.
pub fn expression_markup(var: &str) -> (r: String)
    ensures
        r@ == expr_open() + var@ + expr_close(),
{
    let mut s = String::from_str("{{ ");
    proof {
        reveal_strlit("{{ ");
        assert(s@ =~= expr_open());
    }
    s.append(var);
    s.append(" }}");
    proof {
        reveal_strlit(" }}");
        assert(s@ =~= expr_open() + var@ + expr_close());
    }
    s
}

/// The directive span that splices the template file `file`.
pub fn inclusion_markup(file: &str) -> (r: String)
    ensures
        r@ == splice_open() + file@ + quote_close(),
{
    let mut s = String::from_str("{% inclu");
    s.append("de \"");
    proof {
        reveal_strlit("{% inclu");
        reveal_strlit("de \"");
        assert(s@ =~= splice_open());
    }
    s.append(file);
    s.append("\" %}");
    proof {
        reveal_strlit("\" %}");
        assert(s@ =~= splice_open() + file@ + quote_close());
    }
    s
}

/// The directive span that declares the parent template file `file`.
pub fn extends_markup(file: &str) -> (r: String)
    ensures
        r@ == extends_open() + file@ + quote_close(),
{
    let mut s = String::from_str("{% extends \"");
    proof {
        reveal_strlit("{% extends \"");
        assert(s@ =~= extends_open());
    }
    s.append(file);
    s.append("\" %}");
    proof {
        reveal_strlit("\" %}");
        assert(s@ =~= extends_open() + file@ + quote_close());
    }
    s
}

/// The block span named `name` holding `content`.
pub fn block_markup(name: &str, content: &str) -> (r: String)
    ensures
        r@ == block_open() + name@ + head_close() + content@ + block_close(),
{
    let mut s = String::from_str("{% block ");
    proof {
        reveal_strlit("{% block ");
        assert(s@ =~= block_open());
    }
    s.append(name);
    s.append(" %}");
    proof {
        reveal_strlit(" %}");
        assert(s@ =~= block_open() + name@ + head_close());
    }
    s.append(content);
    s.append("{% endblock %}");
    proof {
        reveal_strlit("{% endblock %}");
        assert(s@ =~= block_open() + name@ + head_close() + content@ + block_close());
    }
    s
}

} // verus!
