//! The expression tree. Every binary operator node carries the two declared
//! operand type names taken from its type-reference annotation; a binding
//! node carries the variable's name and declared type. A float literal
//! carries its spelling as text.

use vstd::prelude::*;

verus! {

/// An expression. Non-leaf nodes own their children; the tree is acyclic.
#[derive(Debug, PartialEq)]
pub enum Expression {
    BOOLEAN(bool),
    INTVAL(i64),
    FLTVAL(String),
    STRINGVAL(String),
    TEXT(String),
    PLUS(String, String, Box<Expression>, Box<Expression>),
    MINUS(String, String, Box<Expression>, Box<Expression>),
    TIMES(String, String, Box<Expression>, Box<Expression>),
    DIVIDEDBY(String, String, Box<Expression>, Box<Expression>),
    LET(String, String, Box<Expression>),
    IF(String, Box<Expression>, Vec<Expression>, Vec<Expression>),
    FUNCTION(String, Vec<(String, String)>, Vec<Expression>),
    RETURN(String, Box<Expression>),
}

/// The mathematical shape of an expression: strings become `Seq<char>`,
/// vectors become `Seq`.
pub enum ExprV {
    BOOLEAN(bool),
    INTVAL(i64),
    FLTVAL(Seq<char>),
    STRINGVAL(Seq<char>),
    TEXT(Seq<char>),
    PLUS(Seq<char>, Seq<char>, Box<ExprV>, Box<ExprV>),
    MINUS(Seq<char>, Seq<char>, Box<ExprV>, Box<ExprV>),
    TIMES(Seq<char>, Seq<char>, Box<ExprV>, Box<ExprV>),
    DIVIDEDBY(Seq<char>, Seq<char>, Box<ExprV>, Box<ExprV>),
    LET(Seq<char>, Seq<char>, Box<ExprV>),
    IF(Seq<char>, Box<ExprV>, Seq<ExprV>, Seq<ExprV>),
    FUNCTION(Seq<char>, Seq<(Seq<char>, Seq<char>)>, Seq<ExprV>),
    RETURN(Seq<char>, Box<ExprV>),
}

pub open spec fn expr_view(e: Expression) -> ExprV
    decreases e,
{
    match e {
        Expression::BOOLEAN(b) => ExprV::BOOLEAN(b),
        Expression::INTVAL(i) => ExprV::INTVAL(i),
        Expression::FLTVAL(s) => ExprV::FLTVAL(s@),
        Expression::STRINGVAL(s) => ExprV::STRINGVAL(s@),
        Expression::TEXT(s) => ExprV::TEXT(s@),
        Expression::PLUS(t1, t2, l, r) => ExprV::PLUS(
            t1@,
            t2@,
            Box::new(expr_view(*l)),
            Box::new(expr_view(*r)),
        ),
        Expression::MINUS(t1, t2, l, r) => ExprV::MINUS(
            t1@,
            t2@,
            Box::new(expr_view(*l)),
            Box::new(expr_view(*r)),
        ),
        Expression::TIMES(t1, t2, l, r) => ExprV::TIMES(
            t1@,
            t2@,
            Box::new(expr_view(*l)),
            Box::new(expr_view(*r)),
        ),
        Expression::DIVIDEDBY(t1, t2, l, r) => ExprV::DIVIDEDBY(
            t1@,
            t2@,
            Box::new(expr_view(*l)),
            Box::new(expr_view(*r)),
        ),
        Expression::LET(name, ty, init) => ExprV::LET(name@, ty@, Box::new(expr_view(*init))),
        Expression::IF(ty, cond, thens, elses) => ExprV::IF(
            ty@,
            Box::new(expr_view(*cond)),
            exprs_view(thens@),
            exprs_view(elses@),
        ),
        Expression::FUNCTION(name, params, body) => ExprV::FUNCTION(
            name@,
            params@.map_values(|p: (String, String)| (p.0@, p.1@)),
            exprs_view(body@),
        ),
        Expression::RETURN(ty, e1) => ExprV::RETURN(ty@, Box::new(expr_view(*e1))),
    }
}

pub open spec fn exprs_view(es: Seq<Expression>) -> Seq<ExprV>
    decreases es,
{
    if es.len() == 0 {
        Seq::empty()
    } else {
        exprs_view(es.drop_last()).push(expr_view(es.last()))
    }
}

impl View for Expression {
    type V = ExprV;

    open spec fn view(&self) -> ExprV {
        expr_view(*self)
    }
}

/// The intrinsic type name of a literal expression; `None` for identifiers
/// and every non-leaf shape.
pub open spec fn literal_type_name(e: ExprV) -> Option<Seq<char>> {
    match e {
        ExprV::BOOLEAN(_) => Some("bool"@),
        ExprV::INTVAL(_) => Some("int"@),
        ExprV::FLTVAL(_) => Some("float"@),
        ExprV::STRINGVAL(_) => Some("string"@),
        _ => None,
    }
}

} // verus!
