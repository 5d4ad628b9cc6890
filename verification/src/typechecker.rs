//! The type checker. It walks an expression tree against an expected type
//! name and a mutable map from variable name to declared type: literals
//! check against their intrinsic type, identifiers against their declared
//! type (an unknown identifier is a fatal error, never a silent mismatch),
//! operator nodes check each child against its declared operand type,
//! stopping at the first mismatch, and then check the node's own result
//! type against the expected type — for same-type arithmetic the result
//! type is the shared operand type, and operands declared under two
//! different types have no result type, so such a node never checks (the
//! documented rejection of mixed-type arithmetic). A binding records its
//! variable's declared type and checks its initializer against it; a
//! return node checks its child against its declared return type, which
//! the expected type does not constrain.

use vstd::prelude::*;

use crate::ast::{Expression, ExprV};
use crate::table::StrMap;

verus! {

/// A fatal type-checking failure.
#[derive(Debug, Clone, PartialEq)]
pub enum TypeError {
    /// An identifier with no declared type in the environment; carries the
    /// variable's name.
    UndefinedVariable(String),
    /// An expression shape the checker gives no meaning to.
    UnsupportedExpression,
}

pub enum TypeErrV {
    UndefinedVariable(Seq<char>),
    UnsupportedExpression,
}

impl View for TypeError {
    type V = TypeErrV;

    open spec fn view(&self) -> TypeErrV {
        match self {
            TypeError::UndefinedVariable(s) => TypeErrV::UndefinedVariable(s@),
            TypeError::UnsupportedExpression => TypeErrV::UnsupportedExpression,
        }
    }
}

/// What checking yields: the verdict (or the error), and the environment
/// as the walk leaves it — bindings recorded before a failure persist.
pub open spec fn spec_check(e: ExprV, expected: Seq<char>, env: Map<Seq<char>, Seq<char>>) -> (
    Result<bool, TypeErrV>,
    Map<Seq<char>, Seq<char>>,
)
    decreases e,
{
    match e {
        ExprV::BOOLEAN(_) => (Ok(expected == "bool"@), env),
        ExprV::FLTVAL(_) => (Ok(expected == "float"@), env),
        ExprV::INTVAL(_) => (Ok(expected == "int"@), env),
        ExprV::STRINGVAL(_) => (Ok(expected == "string"@), env),
        ExprV::TEXT(name) => if env.contains_key(name) {
            (Ok(env[name] == expected), env)
        } else {
            (Err(TypeErrV::UndefinedVariable(name)), env)
        },
        ExprV::PLUS(t1, t2, l, r) => {
            let (r1, env1) = spec_check(*l, t1, env);
            match r1 {
                Err(e1) => (Err(e1), env1),
                Ok(b1) => if !b1 {
                    (Ok(false), env1)
                } else {
                    let (r2, env2) = spec_check(*r, t2, env1);
                    match r2 {
                        Err(e2) => (Err(e2), env2),
                        Ok(b2) => (Ok(b2 && t1 == t2 && expected == t1), env2),
                    }
                },
            }
        },
        ExprV::MINUS(t1, t2, l, r) => {
            let (r1, env1) = spec_check(*l, t1, env);
            match r1 {
                Err(e1) => (Err(e1), env1),
                Ok(b1) => if !b1 {
                    (Ok(false), env1)
                } else {
                    let (r2, env2) = spec_check(*r, t2, env1);
                    match r2 {
                        Err(e2) => (Err(e2), env2),
                        Ok(b2) => (Ok(b2 && t1 == t2 && expected == t1), env2),
                    }
                },
            }
        },
        ExprV::TIMES(t1, t2, l, r) => {
            let (r1, env1) = spec_check(*l, t1, env);
            match r1 {
                Err(e1) => (Err(e1), env1),
                Ok(b1) => if !b1 {
                    (Ok(false), env1)
                } else {
                    let (r2, env2) = spec_check(*r, t2, env1);
                    match r2 {
                        Err(e2) => (Err(e2), env2),
                        Ok(b2) => (Ok(b2 && t1 == t2 && expected == t1), env2),
                    }
                },
            }
        },
        ExprV::DIVIDEDBY(t1, t2, l, r) => {
            let (r1, env1) = spec_check(*l, t1, env);
            match r1 {
                Err(e1) => (Err(e1), env1),
                Ok(b1) => if !b1 {
                    (Ok(false), env1)
                } else {
                    let (r2, env2) = spec_check(*r, t2, env1);
                    match r2 {
                        Err(e2) => (Err(e2), env2),
                        Ok(b2) => (Ok(b2 && t1 == t2 && expected == t1), env2),
                    }
                },
            }
        },
        ExprV::RETURN(rt, e1) => spec_check(*e1, rt, env),
        ExprV::LET(name, ty, init) => spec_check(*init, ty, env.insert(name, ty)),
        _ => (Err(TypeErrV::UnsupportedExpression), env),
    }
}

/// Law: type-checking an identifier that the environment does not hold
/// fails with a type error naming that identifier — it never defaults.
pub proof fn lemma_undefined_variable_reported(
    name: Seq<char>,
    expected: Seq<char>,
    env: Map<Seq<char>, Seq<char>>,
)
    requires
        !env.contains_key(name),
    ensures
        spec_check(ExprV::TEXT(name), expected, env).0 == Err::<bool, TypeErrV>(
            TypeErrV::UndefinedVariable(name),
        ),
        spec_check(ExprV::TEXT(name), expected, env).1 == env,
{
}

fn str_eq(a: &str, b: &str) -> (r: bool)
    ensures
        r == (a@ == b@),
{
    let sa = a.to_owned();
    let sb = b.to_owned();
    sa == sb
}

/// Checks an expression tree against an expected type name, recording
/// `let` declarations into `varmap` as it walks.
pub fn check_expression_types(
    expression: &Expression,
    typename: &str,
    varmap: &mut StrMap<String>,
) -> (r: Result<bool, TypeError>)
    ensures
        ({
            let (res, envf) = spec_check(expression@, typename@, old(varmap)@);
            final(varmap)@ == envf && match r {
                Ok(b) => res == Ok::<bool, TypeErrV>(b),
                Err(t) => res == Err::<bool, TypeErrV>(t@),
            }
        }),
    decreases expression,
{
    match expression {
        Expression::BOOLEAN(_) => Ok(str_eq(typename, "bool")),
        Expression::FLTVAL(_) => Ok(str_eq(typename, "float")),
        Expression::INTVAL(_) => Ok(str_eq(typename, "int")),
        Expression::STRINGVAL(_) => Ok(str_eq(typename, "string")),
        Expression::TEXT(name) => match varmap.get(name) {
            Some(vartype) => Ok(str_eq(vartype.as_str(), typename)),
            None => Err(TypeError::UndefinedVariable(name.clone())),
        },
        Expression::PLUS(t1, t2, l, r) => {
            let b1 = match check_expression_types(l, t1.as_str(), varmap) {
                Ok(b) => b,
                Err(e) => {
                    return Err(e);
                },
            };
            if !b1 {
                return Ok(false);
            }
            let b2 = match check_expression_types(r, t2.as_str(), varmap) {
                Ok(b) => b,
                Err(e) => {
                    return Err(e);
                },
            };
            Ok(b2 && str_eq(t1.as_str(), t2.as_str()) && str_eq(typename, t1.as_str()))
        },
        Expression::MINUS(t1, t2, l, r) => {
            let b1 = match check_expression_types(l, t1.as_str(), varmap) {
                Ok(b) => b,
                Err(e) => {
                    return Err(e);
                },
            };
            if !b1 {
                return Ok(false);
            }
            let b2 = match check_expression_types(r, t2.as_str(), varmap) {
                Ok(b) => b,
                Err(e) => {
                    return Err(e);
                },
            };
            Ok(b2 && str_eq(t1.as_str(), t2.as_str()) && str_eq(typename, t1.as_str()))
        },
        Expression::TIMES(t1, t2, l, r) => {
            let b1 = match check_expression_types(l, t1.as_str(), varmap) {
                Ok(b) => b,
                Err(e) => {
                    return Err(e);
                },
            };
            if !b1 {
                return Ok(false);
            }
            let b2 = match check_expression_types(r, t2.as_str(), varmap) {
                Ok(b) => b,
                Err(e) => {
                    return Err(e);
                },
            };
            Ok(b2 && str_eq(t1.as_str(), t2.as_str()) && str_eq(typename, t1.as_str()))
        },
        Expression::DIVIDEDBY(t1, t2, l, r) => {
            let b1 = match check_expression_types(l, t1.as_str(), varmap) {
                Ok(b) => b,
                Err(e) => {
                    return Err(e);
                },
            };
            if !b1 {
                return Ok(false);
            }
            let b2 = match check_expression_types(r, t2.as_str(), varmap) {
                Ok(b) => b,
                Err(e) => {
                    return Err(e);
                },
            };
            Ok(b2 && str_eq(t1.as_str(), t2.as_str()) && str_eq(typename, t1.as_str()))
        },
        Expression::RETURN(rt, e1) => check_expression_types(e1, rt.as_str(), varmap),
        Expression::LET(name, ty, init) => {
            varmap.insert(name.clone(), ty.clone());
            check_expression_types(init, ty.as_str(), varmap)
        },
        _ => Err(TypeError::UnsupportedExpression),
    }
}

} // verus!
