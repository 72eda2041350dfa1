use vstd::prelude::*;

use crate::helpers::{lemma_span_end, name, parse_name, skip_class, ws_end, CharClass, Name};
use crate::source::Source;

verus! {

/// An atom of an expression.
#[derive(Clone, Debug, PartialEq, Eq)]
pub enum Atom {
    Name(Name),
}

/// An expression.
#[derive(Clone, Debug, PartialEq, Eq)]
pub enum Expression {
    Atom(Atom),
}

pub enum AtomModel {
    Name(Seq<char>),
}

pub enum ExpressionModel {
    Atom(AtomModel),
}

impl View for Atom {
    type V = AtomModel;

    open spec fn view(&self) -> AtomModel {
        match self {
            Atom::Name(n) => AtomModel::Name(n@),
        }
    }
}

impl View for Expression {
    type V = ExpressionModel;

    open spec fn view(&self) -> ExpressionModel {
        match self {
            Expression::Atom(a) => ExpressionModel::Atom(a@),
        }
    }
}

/// The view of an optional expression.
pub open spec fn opt_expr_view(e: Option<Expression>) -> Option<ExpressionModel> {
    match e {
        Some(e) => Some(e@),
        None => None,
    }
}

/// An expression where newlines count as spaces (as inside brackets): leading
/// whitespace, then an operand, which is a name.
pub open spec fn test(s: Seq<char>, p: int) -> Option<(int, ExpressionModel)> {
    match name(s, ws_end(s, p)) {
        Some((q, n)) => Some((q, ExpressionModel::Atom(AtomModel::Name(n)))),
        None => None,
    }
}

pub proof fn lemma_test(s: Seq<char>, p: int)
    requires
        0 <= p <= s.len(),
    ensures
        test(s, p) matches Some((q, _)) ==> p < q <= s.len(),
{
    lemma_span_end(s, p, CharClass::Whitespace);
    crate::helpers::lemma_name(s, ws_end(s, p));
}

/// Parses an expression at `pos`.
pub fn parse_test(src: &Source, pos: usize) -> (r: Option<(usize, Expression)>)
    requires
        pos <= src.chars().len(),
    ensures
        match r {
            Some((q, e)) => test(src.chars(), pos as int) == Some((q as int, e@)),
            None => test(src.chars(), pos as int) is None,
        },
        r matches Some((q, _)) ==> pos < q <= src.chars().len(),
{
    proof {
        lemma_test(src.chars(), pos as int);
    }
    let a = skip_class(src, pos, CharClass::Whitespace);
    match parse_name(src, a) {
        Some((q, n)) => Some((q, Expression::Atom(Atom::Name(n)))),
        None => None,
    }
}

} // verus!
