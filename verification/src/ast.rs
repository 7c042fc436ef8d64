use vstd::prelude::*;
use crate::errors::{Location, LocView, unknown_file};
use crate::text::owned;

verus! {
broadcast use vstd::std_specs::vec::axiom_vec_decreases_to_view;

/// An expression of the surface language.
#[derive(Debug, PartialEq)]
pub enum LispExpr {
    Number(i64),
    Float(String),
    Boolean(bool),
    Symbol(String),
    List(Vec<SourceExpr>),
    DottedList(Vec<SourceExpr>, Box<SourceExpr>),
}

/// An expression together with where it was read from.
#[derive(Debug, PartialEq)]
pub struct SourceExpr {
    pub expr: LispExpr,
    pub location: Location,
}

pub enum ExprView {
    Number(i64),
    Float(Seq<char>),
    Boolean(bool),
    Symbol(Seq<char>),
    List(Seq<SourceView>),
    DottedList(Seq<SourceView>, Box<SourceView>),
}

pub struct SourceView {
    pub expr: ExprView,
    pub loc: LocView,
}

pub open spec fn expr_view(e: LispExpr) -> ExprView
    decreases e,
{
    match e {
        LispExpr::Number(n) => ExprView::Number(n),
        LispExpr::Float(s) => ExprView::Float(s@),
        LispExpr::Boolean(b) => ExprView::Boolean(b),
        LispExpr::Symbol(s) => ExprView::Symbol(s@),
        LispExpr::List(items) => ExprView::List(sources_view(items@)),
        LispExpr::DottedList(items, rest) => ExprView::DottedList(sources_view(items@), Box::new(source_view(*rest))),
    }
}

pub open spec fn source_view(s: SourceExpr) -> SourceView
    decreases s,
{
    SourceView { expr: expr_view(s.expr), loc: s.location@ }
}

pub open spec fn sources_view(s: Seq<SourceExpr>) -> Seq<SourceView>
    decreases s,
{
    if s.len() == 0 {
        Seq::empty()
    } else {
        seq![source_view(s[0])] + sources_view(s.subrange(1, s.len() as int))
    }
}

pub proof fn lemma_sources_view_len(s: Seq<SourceExpr>)
    ensures
        sources_view(s).len() == s.len(),
    decreases s.len(),
{
    if s.len() > 0 {
        lemma_sources_view_len(s.subrange(1, s.len() as int));
    }
}

pub proof fn lemma_sources_view_index(s: Seq<SourceExpr>, i: int)
    requires
        0 <= i < s.len(),
    ensures
        sources_view(s)[i] == source_view(s[i]),
    decreases s.len(),
{
    lemma_sources_view_len(s);
    if i > 0 {
        lemma_sources_view_index(s.subrange(1, s.len() as int), i - 1);
        lemma_sources_view_len(s.subrange(1, s.len() as int));
    }
}

/// The views of a sequence of expressions, element by element.
pub proof fn lemma_sources_view_ext(s: Seq<SourceExpr>)
    ensures
        sources_view(s) == Seq::new(s.len(), |i: int| source_view(s[i])),
{
    lemma_sources_view_len(s);
    assert forall|i: int| 0 <= i < s.len() implies sources_view(s)[i] == source_view(s[i]) by {
        lemma_sources_view_index(s, i);
    }
    assert(sources_view(s) =~= Seq::new(s.len(), |i: int| source_view(s[i])));
}

impl SourceExpr {
    /// The expression read at `location`.
    pub fn new(expr: LispExpr, location: Location) -> (r: Self)
        ensures
            r.expr == expr,
            r.location == location,
    {
        SourceExpr { expr, location }
    }

    /// The expression, its origin unknown.
    pub fn unknown(expr: LispExpr) -> (r: Self)
        ensures
            r.expr == expr,
            r.location@ == (LocView { line: 0, column: 0, file: unknown_file() }),
    {
        SourceExpr { expr, location: Location::unknown() }
    }
}

/// An integer literal of unknown origin.
pub fn number(n: i64) -> (r: SourceExpr)
    ensures
        source_view(r).expr == ExprView::Number(n),
        r.location@ == (LocView { line: 0, column: 0, file: unknown_file() }),
{
    SourceExpr::unknown(LispExpr::Number(n))
}

/// A float literal (by its text) of unknown origin.
pub fn float(text: &str) -> (r: SourceExpr)
    ensures
        source_view(r).expr == ExprView::Float(text@),
        r.location@ == (LocView { line: 0, column: 0, file: unknown_file() }),
{
    SourceExpr::unknown(LispExpr::Float(owned(text)))
}

/// A boolean literal of unknown origin.
pub fn boolean(b: bool) -> (r: SourceExpr)
    ensures
        source_view(r).expr == ExprView::Boolean(b),
        r.location@ == (LocView { line: 0, column: 0, file: unknown_file() }),
{
    SourceExpr::unknown(LispExpr::Boolean(b))
}

/// A symbol of unknown origin.
pub fn symbol(s: &str) -> (r: SourceExpr)
    ensures
        source_view(r).expr == ExprView::Symbol(s@),
        r.location@ == (LocView { line: 0, column: 0, file: unknown_file() }),
{
    SourceExpr::unknown(LispExpr::Symbol(owned(s)))
}

/// A list of unknown origin.
pub fn list(items: Vec<SourceExpr>) -> (r: SourceExpr)
    ensures
        source_view(r).expr == ExprView::List(sources_view(items@)),
        r.location@ == (LocView { line: 0, column: 0, file: unknown_file() }),
{
    SourceExpr::unknown(LispExpr::List(items))
}
} // verus!
