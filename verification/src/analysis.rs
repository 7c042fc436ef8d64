use vstd::prelude::*;
use crate::ast::{LispExpr, SourceExpr, ExprView, SourceView, source_view, sources_view, expr_view, lemma_sources_view_len, lemma_sources_view_index};
use crate::errors::{CompileError, Location, LocView};
use crate::text::{chars_of, chars_eq_str, chars_eq, owned};
use crate::value::names_view;

verus! {
broadcast use vstd::std_specs::vec::axiom_vec_decreases_to_view;

// ---------------------------------------------------------------------------
// Symbols

/// Whether an expression is the symbol `name`.
pub open spec fn is_symbol_named(e: SourceView, name: Seq<char>) -> bool {
    e.expr == ExprView::Symbol(name)
}

/// Whether an expression is a symbol.
pub open spec fn is_symbol(e: SourceView) -> bool {
    e.expr is Symbol
}

fn symbol_named(e: &SourceExpr, name: &str) -> (r: bool)
    ensures
        r == is_symbol_named(source_view(*e), name@),
{
    match &e.expr {
        LispExpr::Symbol(s) => {
            let v = chars_of(s.as_str());
            chars_eq_str(&v, name)
        },
        _ => false,
    }
}

fn symbol_text(e: &SourceExpr) -> (r: Option<&String>)
    ensures
        is_symbol(source_view(*e)) ==> r.is_some() && r.unwrap()@ == source_view(*e).expr->Symbol_0,
        !is_symbol(source_view(*e)) ==> r.is_none(),
{
    match &e.expr {
        LispExpr::Symbol(s) => Some(s),
        _ => None,
    }
}

// ---------------------------------------------------------------------------
// Unquote

/// Whether an expression holds an `(unquote x)` or `(unquote-splicing x)`
/// form anywhere inside it.
pub open spec fn has_unquote(e: SourceView) -> bool
    decreases e,
{
    match e.expr {
        ExprView::List(items) => {
            ||| (items.len() == 2 && (is_symbol_named(items[0], "unquote"@) || is_symbol_named(
                items[0],
                "unquote-splicing"@,
            )))
            ||| exists|k: int| 0 <= k < items.len() && has_unquote(#[trigger] items[k])
        },
        ExprView::DottedList(items, rest) => {
            ||| exists|k: int| 0 <= k < items.len() && has_unquote(#[trigger] items[k])
            ||| has_unquote(*rest)
        },
        _ => false,
    }
}

/// Whether an expression holds an `unquote` or `unquote-splicing` form.
pub fn contains_unquote(expr: &SourceExpr) -> (r: bool)
    ensures
        r == has_unquote(source_view(*expr)),
    decreases *expr,
{
    match &expr.expr {
        LispExpr::List(items) => {
            proof {
                lemma_sources_view_len(items@);
                assert(source_view(*expr).expr == ExprView::List(sources_view(items@)));
            }
            if items.len() == 2 {
                proof {
                    lemma_sources_view_index(items@, 0);
                }
                if symbol_named(&items[0], "unquote") || symbol_named(&items[0], "unquote-splicing") {
                    return true;
                }
            }
            any_unquote(items)
        },
        LispExpr::DottedList(items, rest) => {
            proof {
                lemma_sources_view_len(items@);
                assert(source_view(*expr).expr == ExprView::DottedList(sources_view(items@), Box::new(source_view(**rest))));
            }
            let a = any_unquote(items);
            let b = contains_unquote(rest);
            proof {
                let sv = source_view(*expr);
                let h = sv.expr->DottedList_0;
                let t = sv.expr->DottedList_1;
                assert(h == sources_view(items@));
                assert(*t == source_view(**rest));
            }
            a || b
        },
        _ => false,
    }
}

fn any_unquote(items: &Vec<SourceExpr>) -> (r: bool)
    ensures
        r == exists|k: int| 0 <= k < sources_view(items@).len() && has_unquote(#[trigger] sources_view(items@)[k]),
    decreases *items,
{
    proof {
        lemma_sources_view_len(items@);
    }
    let mut k: usize = 0;
    while k < items.len()
        invariant
            k <= items@.len(),
            sources_view(items@).len() == items@.len(),
            forall|j: int| 0 <= j < k ==> !has_unquote(#[trigger] sources_view(items@)[j]),
        decreases items@.len() - k,
    {
        proof {
            lemma_sources_view_index(items@, k as int);
        }
        if contains_unquote(&items[k]) {
            return true;
        }
        k = k + 1;
    }
    false
}

// ---------------------------------------------------------------------------
// Parameter lists

/// Whether an expression looks like a parameter list: `(. rest)`, a list of
/// symbols, or a dotted list of symbols.
pub open spec fn is_param_list(e: SourceView) -> bool {
    match e.expr {
        ExprView::List(ps) => {
            ||| (ps.len() == 2 && is_symbol_named(ps[0], "."@))
            ||| forall|k: int| 0 <= k < ps.len() ==> is_symbol(#[trigger] ps[k])
        },
        ExprView::DottedList(head, tail) => {
            &&& forall|k: int| 0 <= k < head.len() ==> is_symbol(#[trigger] head[k])
            &&& is_symbol(*tail)
        },
        _ => false,
    }
}

/// The position of the first item that is not a symbol, or the length.
pub open spec fn first_non_symbol_from(ps: Seq<SourceView>, i: int) -> int
    decreases ps.len() - i,
{
    if i >= ps.len() || i < 0 {
        ps.len() as int
    } else if !is_symbol(ps[i]) {
        i
    } else {
        first_non_symbol_from(ps, i + 1)
    }
}

pub open spec fn first_non_symbol(ps: Seq<SourceView>) -> int {
    first_non_symbol_from(ps, 0)
}

proof fn lemma_first_non_symbol(ps: Seq<SourceView>, i: int)
    requires
        0 <= i <= ps.len(),
    ensures
        i <= first_non_symbol_from(ps, i) <= ps.len(),
        forall|k: int| i <= k < first_non_symbol_from(ps, i) ==> is_symbol(#[trigger] ps[k]),
        first_non_symbol_from(ps, i) < ps.len() ==> !is_symbol(ps[first_non_symbol_from(ps, i)]),
    decreases ps.len() - i,
{
    if i < ps.len() && is_symbol(ps[i]) {
        lemma_first_non_symbol(ps, i + 1);
    }
}

/// All items are symbols.
fn all_symbols(ps: &Vec<SourceExpr>) -> (r: bool)
    ensures
        r == forall|k: int| 0 <= k < sources_view(ps@).len() ==> is_symbol(#[trigger] sources_view(ps@)[k]),
{
    proof {
        lemma_sources_view_len(ps@);
    }
    let mut k: usize = 0;
    while k < ps.len()
        invariant
            k <= ps@.len(),
            sources_view(ps@).len() == ps@.len(),
            forall|j: int| 0 <= j < k ==> is_symbol(#[trigger] sources_view(ps@)[j]),
        decreases ps@.len() - k,
    {
        proof {
            lemma_sources_view_index(ps@, k as int);
        }
        if symbol_text(&ps[k]).is_none() {
            return false;
        }
        k = k + 1;
    }
    true
}

/// Whether an expression looks like a parameter list.
pub fn looks_like_param_list(expr: &SourceExpr) -> (r: bool)
    ensures
        r == is_param_list(source_view(*expr)),
{
    match &expr.expr {
        LispExpr::List(params) => {
            proof {
                lemma_sources_view_len(params@);
                assert(source_view(*expr).expr == ExprView::List(sources_view(params@)));
            }
            if params.len() == 2 {
                proof {
                    lemma_sources_view_index(params@, 0);
                }
                if symbol_named(&params[0], ".") {
                    return true;
                }
            }
            all_symbols(params)
        },
        LispExpr::DottedList(head, tail) => {
            proof {
                assert(source_view(*expr).expr == ExprView::DottedList(sources_view(head@), Box::new(source_view(**tail))));
            }
            let a = all_symbols(head);
            let b = symbol_text(tail).is_some();
            proof {
                let sv = source_view(*expr);
                let h = sv.expr->DottedList_0;
                let t = sv.expr->DottedList_1;
                assert(h == sources_view(head@));
                assert(*t == source_view(**tail));
                assert(is_symbol(*t) == b);
            }
            a && b
        },
        _ => false,
    }
}

/// A parameter list: the required parameters and the rest parameter, if any.
pub struct ParsedParams {
    pub required: Vec<String>,
    pub rest: Option<String>,
}

/// The names of symbols.
pub open spec fn symbol_names(ps: Seq<SourceView>) -> Seq<Seq<char>> {
    Seq::new(ps.len(), |k: int| ps[k].expr->Symbol_0)
}

/// What a parameter list stands for: the required names and the rest name,
/// or the error message and the location of the offending part.
pub open spec fn params_of(e: SourceView) -> Result<(Seq<Seq<char>>, Option<Seq<char>>), (Seq<char>, LocView)> {
    match e.expr {
        ExprView::DottedList(required, rest) => if first_non_symbol(required) < required.len() {
            Err(("Parameter must be a symbol"@, required[first_non_symbol(required)].loc))
        } else if !is_symbol(*rest) {
            Err(("Rest parameter must be a symbol"@, rest.loc))
        } else {
            Ok((symbol_names(required), Some(rest.expr->Symbol_0)))
        },
        ExprView::List(ps) => if ps.len() == 2 && is_symbol_named(ps[0], "."@) {
            if is_symbol(ps[1]) {
                Ok((Seq::empty(), Some(ps[1].expr->Symbol_0)))
            } else {
                Err(("Rest parameter must be a symbol"@, ps[1].loc))
            }
        } else if first_non_symbol(ps) < ps.len() {
            Err(("Parameter must be a symbol"@, ps[first_non_symbol(ps)].loc))
        } else {
            Ok((symbol_names(ps), None))
        },
        _ => Err(("Parameters must be a list"@, e.loc)),
    }
}

/// Whether a parse of parameters matches what they stand for.
pub open spec fn params_match(r: Result<ParsedParams, CompileError>, e: SourceView) -> bool {
    match params_of(e) {
        Ok((required, rest)) => r is Ok && r->Ok_0.required@.len() == required.len() && (forall|k: int|
            0 <= k < required.len() ==> #[trigger] r->Ok_0.required@[k]@ == required[k]) && match rest {
            Some(n) => r->Ok_0.rest is Some && r->Ok_0.rest->Some_0@ == n,
            None => r->Ok_0.rest is None,
        },
        Err((msg, loc)) => r is Err && r->Err_0.message@ == msg && r->Err_0.location@ == loc,
    }
}

/// The names of a list of symbols, up to the first item that is not one.
fn collect_symbols(ps: &Vec<SourceExpr>) -> (r: Result<Vec<String>, usize>)
    ensures
        first_non_symbol(sources_view(ps@)) < sources_view(ps@).len() ==> r == Err::<Vec<String>, usize>(
            first_non_symbol(sources_view(ps@)) as usize,
        ),
        r is Err ==> r->Err_0 < ps@.len() && r->Err_0 as int == first_non_symbol(sources_view(ps@)),
        first_non_symbol(sources_view(ps@)) >= sources_view(ps@).len() ==> r is Ok && r->Ok_0@.len() == ps@.len()
            && forall|k: int| 0 <= k < ps@.len() ==> #[trigger] r->Ok_0@[k]@ == symbol_names(sources_view(ps@))[k],
{
    let ghost s = sources_view(ps@);
    proof {
        lemma_sources_view_len(ps@);
        lemma_first_non_symbol(s, 0);
    }
    let mut names: Vec<String> = Vec::new();
    let mut k: usize = 0;
    while k < ps.len()
        invariant
            s == sources_view(ps@),
            s.len() == ps@.len(),
            k <= ps@.len(),
            0 <= first_non_symbol(s) <= s.len(),
            forall|j: int| 0 <= j < first_non_symbol(s) ==> is_symbol(#[trigger] s[j]),
            first_non_symbol(s) < s.len() ==> !is_symbol(s[first_non_symbol(s)]),
            k <= first_non_symbol(s),
            names@.len() == k,
            forall|j: int| 0 <= j < k ==> #[trigger] names@[j]@ == symbol_names(s)[j],
        decreases ps@.len() - k,
    {
        proof {
            lemma_sources_view_index(ps@, k as int);
        }
        match symbol_text(&ps[k]) {
            Some(name) => {
                names.push(name.clone());
            },
            None => {
                return Err(k);
            },
        }
        k = k + 1;
    }
    Ok(names)
}

/// Parses a parameter list: `(a b c)`, `(a b . rest)` or `(. rest)`.
pub fn parse_params(params_expr: &SourceExpr) -> (r: Result<ParsedParams, CompileError>)
    ensures
        params_match(r, source_view(*params_expr)),
{
    match &params_expr.expr {
        LispExpr::DottedList(required_params, rest_param) => {
            proof {
                lemma_sources_view_len(required_params@);
            }
            match collect_symbols(required_params) {
                Err(k) => {
                    proof {
                        lemma_sources_view_index(required_params@, k as int);
                    }
                    Err(CompileError::new(owned("Parameter must be a symbol"), required_params[k].location.duplicate()))
                },
                Ok(required) => {
                    match symbol_text(rest_param) {
                        Some(rest) => Ok(ParsedParams { required, rest: Some(rest.clone()) }),
                        None => Err(
                            CompileError::new(owned("Rest parameter must be a symbol"), rest_param.location.duplicate()),
                        ),
                    }
                },
            }
        },
        LispExpr::List(params) => {
            proof {
                lemma_sources_view_len(params@);
            }
            if params.len() == 2 {
                proof {
                    lemma_sources_view_index(params@, 0);
                    lemma_sources_view_index(params@, 1);
                }
                if symbol_named(&params[0], ".") {
                    return match symbol_text(&params[1]) {
                        Some(rest_name) => Ok(ParsedParams { required: Vec::new(), rest: Some(rest_name.clone()) }),
                        None => Err(
                            CompileError::new(owned("Rest parameter must be a symbol"), params[1].location.duplicate()),
                        ),
                    };
                }
            }
            match collect_symbols(params) {
                Err(k) => {
                    proof {
                        lemma_sources_view_index(params@, k as int);
                    }
                    Err(CompileError::new(owned("Parameter must be a symbol"), params[k].location.duplicate()))
                },
                Ok(required) => Ok(ParsedParams { required, rest: None }),
            }
        },
        _ => Err(CompileError::new(owned("Parameters must be a list"), params_expr.location.duplicate())),
    }
}

// ---------------------------------------------------------------------------
// Free variables

/// Whether a symbol is the compiler's marker of a string literal.
pub open spec fn is_string_marker(s: Seq<char>) -> bool {
    s.len() >= 10 && s.subrange(0, 10) == "__STRING__"@
}

/// The variables of `e` that are free (not in `bound`) and available in the
/// enclosing scope (in `env`), in the order met, with repeats. `let` and
/// `lambda` bind their names in their bodies; quoted forms hold none.
pub open spec fn free_vars(e: SourceView, bound: Seq<Seq<char>>, env: Seq<Seq<char>>) -> Seq<Seq<char>>
    decreases e,
{
    match e.expr {
        ExprView::Symbol(s) => if !is_string_marker(s) && !bound.contains(s) && env.contains(s) {
            seq![s]
        } else {
            Seq::empty()
        },
        ExprView::List(items) => if items.len() == 0 {
            Seq::empty()
        } else if items.len() == 3 && is_symbol_named(items[0], "let"@) && items[1].expr is List {
            let_free(items[1].expr->List_0, bound, env) + free_vars(
                items[2],
                bound + binding_names(items[1].expr->List_0),
                env,
            )
        } else if items.len() == 3 && is_symbol_named(items[0], "lambda"@) && items[1].expr is List {
            free_vars(items[2], bound + param_names(items[1].expr->List_0), env)
        } else if is_symbol_named(items[0], "quote"@) {
            Seq::empty()
        } else {
            all_free(items, bound, env)
        },
        ExprView::DottedList(items, rest) => all_free(items, bound, env) + free_vars(*rest, bound, env),
        _ => Seq::empty(),
    }
}

/// The free variables of each expression in turn.
pub open spec fn all_free(items: Seq<SourceView>, bound: Seq<Seq<char>>, env: Seq<Seq<char>>) -> Seq<Seq<char>>
    decreases items,
{
    if items.len() == 0 {
        Seq::empty()
    } else {
        free_vars(items[0], bound, env) + all_free(items.subrange(1, items.len() as int), bound, env)
    }
}

/// Whether a `let` binding is a pair `(name value)`.
pub open spec fn is_pair(b: SourceView) -> bool {
    b.expr is List && b.expr->List_0.len() == 2
}

/// The free variables of the values of a `let`'s pairs, in turn.
pub open spec fn let_free(bindings: Seq<SourceView>, bound: Seq<Seq<char>>, env: Seq<Seq<char>>) -> Seq<Seq<char>>
    decreases bindings,
{
    if bindings.len() == 0 {
        Seq::empty()
    } else {
        (if is_pair(bindings[0]) {
            free_vars(bindings[0].expr->List_0[1], bound, env)
        } else {
            Seq::empty()
        }) + let_free(bindings.subrange(1, bindings.len() as int), bound, env)
    }
}

/// The names a `let` binds: the symbols that start its pairs.
pub open spec fn binding_names(bindings: Seq<SourceView>) -> Seq<Seq<char>>
    decreases bindings.len(),
{
    if bindings.len() == 0 {
        Seq::empty()
    } else {
        (if is_pair(bindings[0]) && is_symbol(bindings[0].expr->List_0[0]) {
            seq![bindings[0].expr->List_0[0].expr->Symbol_0]
        } else {
            Seq::empty()
        }) + binding_names(bindings.subrange(1, bindings.len() as int))
    }
}

/// The names a `lambda` binds: the symbols among its parameters.
pub open spec fn param_names(params: Seq<SourceView>) -> Seq<Seq<char>>
    decreases params.len(),
{
    if params.len() == 0 {
        Seq::empty()
    } else {
        (if is_symbol(params[0]) {
            seq![params[0].expr->Symbol_0]
        } else {
            Seq::empty()
        }) + param_names(params.subrange(1, params.len() as int))
    }
}

/// The first occurrence of each element of the first `n`, in order.
pub open spec fn dedup_upto(s: Seq<Seq<char>>, n: int) -> Seq<Seq<char>>
    decreases n,
{
    if n <= 0 {
        Seq::empty()
    } else if dedup_upto(s, n - 1).contains(s[n - 1]) {
        dedup_upto(s, n - 1)
    } else {
        dedup_upto(s, n - 1).push(s[n - 1])
    }
}

pub open spec fn dedup(s: Seq<Seq<char>>) -> Seq<Seq<char>> {
    dedup_upto(s, s.len() as int)
}

/// Whether `v` holds a string equal to `s`.
fn contains_name(v: &Vec<String>, s: &String) -> (r: bool)
    ensures
        r == names_view(v@).contains(s@),
{
    let t = chars_of(s.as_str());
    let mut k: usize = 0;
    while k < v.len()
        invariant
            k <= v@.len(),
            t@ == s@,
            forall|j: int| 0 <= j < k ==> #[trigger] v@[j]@ != s@,
        decreases v@.len() - k,
    {
        let u = chars_of(v[k].as_str());
        if chars_eq(&u, &t) {
            assert(names_view(v@)[k as int] == s@);
            return true;
        }
        k = k + 1;
    }
    proof {
        if names_view(v@).contains(s@) {
            let j = choose|j: int| 0 <= j < names_view(v@).len() && names_view(v@)[j] == s@;
            assert(v@[j]@ == s@);
        }
    }
    false
}

pub(crate) fn starts_with_string_marker(s: &String) -> (r: bool)
    ensures
        r == is_string_marker(s@),
{
    let v = chars_of(s.as_str());
    if v.len() < 10 {
        return false;
    }
    let mut head: Vec<char> = Vec::new();
    let mut k: usize = 0;
    while k < 10
        invariant
            k <= 10,
            v@.len() >= 10,
            head@ == v@.subrange(0, k as int),
        decreases 10 - k,
    {
        head.push(v[k]);
        k = k + 1;
    }
    chars_eq_str(&head, "__STRING__")
}

fn copy_names(v: &Vec<String>) -> (r: Vec<String>)
    ensures
        names_view(r@) == names_view(v@),
{
    let mut r: Vec<String> = Vec::new();
    let mut k: usize = 0;
    while k < v.len()
        invariant
            k <= v@.len(),
            r@.len() == k,
            forall|j: int| 0 <= j < k ==> #[trigger] r@[j]@ == v@[j]@,
        decreases v@.len() - k,
    {
        r.push(v[k].clone());
        k = k + 1;
    }
    assert(names_view(r@) =~= names_view(v@));
    r
}

fn push_name(v: &mut Vec<String>, s: &String)
    ensures
        names_view(final(v)@) == names_view(old(v)@).push(s@),
{
    v.push(s.clone());
    assert(names_view(v@) =~= names_view(old(v)@).push(s@));
}

/// Appends the free variables of `expr` to `free_vars`.
fn collect_free_variables(expr: &SourceExpr, bound_vars: &Vec<String>, env: &Vec<String>, free: &mut Vec<String>)
    ensures
        names_view(final(free)@) == names_view(old(free)@) + free_vars(source_view(*expr), names_view(bound_vars@), names_view(env@)),
    decreases *expr, 2int,
{
    let ghost bound = names_view(bound_vars@);
    let ghost envv = names_view(env@);
    let ghost start = names_view(free@);
    match &expr.expr {
        LispExpr::Symbol(s) => {
            if !starts_with_string_marker(s) && !contains_name(bound_vars, s) && contains_name(env, s) {
                push_name(free, s);
            }
            proof {
                assert(source_view(*expr).expr == ExprView::Symbol(s@));
                assert(names_view(free@) =~= start + free_vars(source_view(*expr), bound, envv));
            }
        },
        LispExpr::List(items) => {
            let ghost sv = sources_view(items@);
            proof {
                lemma_sources_view_len(items@);
                assert(source_view(*expr).expr == ExprView::List(sv));
            }
            if items.len() == 0 {
                assert(names_view(free@) =~= start + free_vars(source_view(*expr), bound, envv));
                return;
            }
            proof {
                lemma_sources_view_index(items@, 0);
            }
            if items.len() == 3 {
                proof {
                    lemma_sources_view_index(items@, 1);
                    lemma_sources_view_index(items@, 2);
                }
                if symbol_named(&items[0], "let") {
                    match &items[1].expr {
                        LispExpr::List(bindings) => {
                            proof {
                                assert(sv[1].expr == ExprView::List(sources_view(bindings@)));
                            }
                            let mut new_bound = copy_names(bound_vars);
                            collect_let(bindings, bound_vars, env, free, &mut new_bound);
                            let ghost mid = names_view(free@);
                            collect_free_variables(&items[2], &new_bound, env, free);
                            proof {
                                assert(names_view(free@) =~= start + free_vars(source_view(*expr), bound, envv));
                            }
                            return;
                        },
                        _ => {},
                    }
                } else if symbol_named(&items[0], "lambda") {
                    match &items[1].expr {
                        LispExpr::List(params) => {
                            proof {
                                assert(sv[1].expr == ExprView::List(sources_view(params@)));
                            }
                            let mut new_bound = copy_names(bound_vars);
                            push_param_names(params, &mut new_bound);
                            collect_free_variables(&items[2], &new_bound, env, free);
                            proof {
                                assert(names_view(free@) =~= start + free_vars(source_view(*expr), bound, envv));
                            }
                            return;
                        },
                        _ => {},
                    }
                }
            }
            if symbol_named(&items[0], "quote") {
                assert(names_view(free@) =~= start + free_vars(source_view(*expr), bound, envv));
                return;
            }
            collect_all(items, bound_vars, env, free);
        },
        LispExpr::DottedList(items, rest) => {
            proof {
                let sv = source_view(*expr);
                let h = sv.expr->DottedList_0;
                let t = sv.expr->DottedList_1;
                assert(h == sources_view(items@));
                assert(*t == source_view(**rest));
            }
            collect_all(items, bound_vars, env, free);
            collect_free_variables(rest, bound_vars, env, free);
            proof {
                assert(names_view(free@) =~= start + free_vars(source_view(*expr), bound, envv));
            }
        },
        _ => {
            assert(names_view(free@) =~= start + free_vars(source_view(*expr), bound, envv));
        },
    }
}

proof fn lemma_all_free_split(items: Seq<SourceView>, k: int, bound: Seq<Seq<char>>, env: Seq<Seq<char>>)
    requires
        0 <= k < items.len(),
    ensures
        all_free(items.subrange(k, items.len() as int), bound, env) == free_vars(items[k], bound, env) + all_free(
            items.subrange(k + 1, items.len() as int),
            bound,
            env,
        ),
{
    let t = items.subrange(k, items.len() as int);
    assert(t[0] == items[k]);
    assert(t.subrange(1, t.len() as int) =~= items.subrange(k + 1, items.len() as int));
}

/// Appends the free variables of each expression in turn.
fn collect_all(items: &Vec<SourceExpr>, bound_vars: &Vec<String>, env: &Vec<String>, free: &mut Vec<String>)
    ensures
        names_view(final(free)@) == names_view(old(free)@) + all_free(sources_view(items@), names_view(bound_vars@), names_view(env@)),
    decreases *items, 1int,
{
    let ghost bound = names_view(bound_vars@);
    let ghost envv = names_view(env@);
    let ghost sv = sources_view(items@);
    let ghost start = names_view(free@);
    proof {
        lemma_sources_view_len(items@);
        assert(sv.subrange(0, sv.len() as int) =~= sv);
    }
    let mut k: usize = 0;
    while k < items.len()
        invariant
            k <= items@.len(),
            sv == sources_view(items@),
            sv.len() == items@.len(),
            bound == names_view(bound_vars@),
            envv == names_view(env@),
            start + all_free(sv, bound, envv) == names_view(free@) + all_free(sv.subrange(k as int, sv.len() as int), bound, envv),
        decreases items@.len() - k,
    {
        proof {
            lemma_sources_view_index(items@, k as int);
            lemma_all_free_split(sv, k as int, bound, envv);
        }
        let ghost before = names_view(free@);
        collect_free_variables(&items[k], bound_vars, env, free);
        proof {
            let rest = all_free(sv.subrange(k + 1, sv.len() as int), bound, envv);
            assert(before + (free_vars(sv[k as int], bound, envv) + rest) =~= names_view(free@) + rest);
        }
        k = k + 1;
    }
    proof {
        assert(sv.subrange(sv.len() as int, sv.len() as int) =~= Seq::<SourceView>::empty());
        assert(names_view(free@) + Seq::<Seq<char>>::empty() =~= names_view(free@));
    }
}

/// Appends the free variables of the values of a `let`'s pairs, and the
/// names the pairs bind to `new_bound`.
fn collect_let(
    bindings: &Vec<SourceExpr>,
    bound_vars: &Vec<String>,
    env: &Vec<String>,
    free: &mut Vec<String>,
    new_bound: &mut Vec<String>,
)
    ensures
        names_view(final(free)@) == names_view(old(free)@) + let_free(sources_view(bindings@), names_view(bound_vars@), names_view(env@)),
        names_view(final(new_bound)@) == names_view(old(new_bound)@) + binding_names(sources_view(bindings@)),
    decreases *bindings, 1int,
{
    let ghost bound = names_view(bound_vars@);
    let ghost envv = names_view(env@);
    let ghost sv = sources_view(bindings@);
    let ghost start = names_view(free@);
    let ghost nb_start = names_view(new_bound@);
    proof {
        lemma_sources_view_len(bindings@);
        assert(sv.subrange(0, sv.len() as int) =~= sv);
    }
    let mut k: usize = 0;
    while k < bindings.len()
        invariant
            k <= bindings@.len(),
            sv == sources_view(bindings@),
            sv.len() == bindings@.len(),
            bound == names_view(bound_vars@),
            envv == names_view(env@),
            start + let_free(sv, bound, envv) == names_view(free@) + let_free(sv.subrange(k as int, sv.len() as int), bound, envv),
            nb_start + binding_names(sv) == names_view(new_bound@) + binding_names(sv.subrange(k as int, sv.len() as int)),
        decreases bindings@.len() - k,
    {
        proof {
            lemma_sources_view_index(bindings@, k as int);
            let t = sv.subrange(k as int, sv.len() as int);
            assert(t[0] == sv[k as int]);
            assert(t.subrange(1, t.len() as int) =~= sv.subrange(k + 1, sv.len() as int));
        }
        let ghost before = names_view(free@);
        let ghost nb_before = names_view(new_bound@);
        match &bindings[k].expr {
            LispExpr::List(pair) => {
                proof {
                    lemma_sources_view_len(pair@);
                    assert(sv[k as int].expr == ExprView::List(sources_view(pair@)));
                }
                if pair.len() == 2 {
                    proof {
                        lemma_sources_view_index(pair@, 0);
                        lemma_sources_view_index(pair@, 1);
                    }
                    collect_free_variables(&pair[1], bound_vars, env, free);
                    match symbol_text(&pair[0]) {
                        Some(var) => {
                            push_name(new_bound, var);
                        },
                        None => {},
                    }
                }
            },
            _ => {},
        }
        proof {
            let rest_f = let_free(sv.subrange(k + 1, sv.len() as int), bound, envv);
            let rest_b = binding_names(sv.subrange(k + 1, sv.len() as int));
            let here_f = if is_pair(sv[k as int]) {
                free_vars(sv[k as int].expr->List_0[1], bound, envv)
            } else {
                Seq::<Seq<char>>::empty()
            };
            let here_b = if is_pair(sv[k as int]) && is_symbol(sv[k as int].expr->List_0[0]) {
                seq![sv[k as int].expr->List_0[0].expr->Symbol_0]
            } else {
                Seq::<Seq<char>>::empty()
            };
            assert(names_view(free@) == before + here_f);
            assert(names_view(new_bound@) == nb_before + here_b);
            assert(before + (here_f + rest_f) =~= names_view(free@) + rest_f);
            assert(nb_before + (here_b + rest_b) =~= names_view(new_bound@) + rest_b);
        }
        k = k + 1;
    }
    proof {
        assert(sv.subrange(sv.len() as int, sv.len() as int) =~= Seq::<SourceView>::empty());
        assert(names_view(free@) + Seq::<Seq<char>>::empty() =~= names_view(free@));
        assert(names_view(new_bound@) + Seq::<Seq<char>>::empty() =~= names_view(new_bound@));
    }
}

/// Appends the names of the symbols among a `lambda`'s parameters.
fn push_param_names(params: &Vec<SourceExpr>, new_bound: &mut Vec<String>)
    ensures
        names_view(final(new_bound)@) == names_view(old(new_bound)@) + param_names(sources_view(params@)),
{
    let ghost sv = sources_view(params@);
    let ghost nb_start = names_view(new_bound@);
    proof {
        lemma_sources_view_len(params@);
        assert(sv.subrange(0, sv.len() as int) =~= sv);
    }
    let mut k: usize = 0;
    while k < params.len()
        invariant
            k <= params@.len(),
            sv == sources_view(params@),
            sv.len() == params@.len(),
            nb_start + param_names(sv) == names_view(new_bound@) + param_names(sv.subrange(k as int, sv.len() as int)),
        decreases params@.len() - k,
    {
        proof {
            lemma_sources_view_index(params@, k as int);
            let t = sv.subrange(k as int, sv.len() as int);
            assert(t[0] == sv[k as int]);
            assert(t.subrange(1, t.len() as int) =~= sv.subrange(k + 1, sv.len() as int));
        }
        let ghost nb_before = names_view(new_bound@);
        match symbol_text(&params[k]) {
            Some(p) => {
                push_name(new_bound, p);
            },
            None => {},
        }
        proof {
            let rest_b = param_names(sv.subrange(k + 1, sv.len() as int));
            let here_b = if is_symbol(sv[k as int]) {
                seq![sv[k as int].expr->Symbol_0]
            } else {
                Seq::<Seq<char>>::empty()
            };
            assert(names_view(new_bound@) == nb_before + here_b);
            assert(nb_before + (here_b + rest_b) =~= names_view(new_bound@) + rest_b);
        }
        k = k + 1;
    }
    proof {
        assert(sv.subrange(sv.len() as int, sv.len() as int) =~= Seq::<SourceView>::empty());
        assert(names_view(new_bound@) + Seq::<Seq<char>>::empty() =~= names_view(new_bound@));
    }
}

/// The free variables of an expression that are available in the enclosing
/// scope `env` and not bound in `bound_vars`, each once, in the order met.
pub fn find_free_variables(expr: &SourceExpr, bound_vars: &Vec<String>, env: &Vec<String>) -> (r: Vec<String>)
    ensures
        names_view(r@) == dedup(free_vars(source_view(*expr), names_view(bound_vars@), names_view(env@))),
{
    let mut all: Vec<String> = Vec::new();
    collect_free_variables(expr, bound_vars, env, &mut all);
    let ghost found = names_view(all@);
    assert(found =~= Seq::<Seq<char>>::empty() + free_vars(source_view(*expr), names_view(bound_vars@), names_view(env@)));
    let mut out: Vec<String> = Vec::new();
    let mut k: usize = 0;
    while k < all.len()
        invariant
            k <= all@.len(),
            found == names_view(all@),
            names_view(out@) == dedup_upto(found, k as int),
        decreases all@.len() - k,
    {
        if !contains_name(&out, &all[k]) {
            push_name(&mut out, &all[k]);
        }
        k = k + 1;
    }
    out
}
} // verus!
