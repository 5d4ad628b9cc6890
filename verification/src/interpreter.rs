//! The evaluator and its session context. The context's variable table is
//! two-level — type name first, then variable name — so one identifier holds
//! independent values under different declared types at the same time; the
//! type-reference annotation on the surrounding operator picks the bucket.
//!
//! Documented decisions: arithmetic is defined for `int` operands only and
//! uses checked machine arithmetic (overflow and division by zero are
//! evaluation errors); operands of declared type `float` are refused — float
//! values are carried as literal text and the core computes nothing with
//! them; a bare identifier with no governing annotation is refused as
//! ambiguous; a `let` is accepted only as the root of a statement, never
//! nested; conditionals and function definitions have no parse rule, and
//! evaluating them is an unsupported-shape error.

use vstd::prelude::*;

use crate::ast::{Expression, ExprV};
use crate::table::{lemma_assoc_congruent, StrMap};

verus! {

/// One concrete value: the payload of a binding. A float keeps the literal
/// text it was written as.
#[derive(Debug, PartialEq)]
pub enum VariableValue {
    INT(i64),
    STRING(String),
    FLOAT(String),
    BOOL(bool),
}

/// The mathematical shape of a value.
pub enum ValV {
    INT(i64),
    STRING(Seq<char>),
    FLOAT(Seq<char>),
    BOOL(bool),
}

impl View for VariableValue {
    type V = ValV;

    open spec fn view(&self) -> ValV {
        match self {
            VariableValue::INT(i) => ValV::INT(*i),
            VariableValue::STRING(s) => ValV::STRING(s@),
            VariableValue::FLOAT(s) => ValV::FLOAT(s@),
            VariableValue::BOOL(b) => ValV::BOOL(*b),
        }
    }
}

impl VariableValue {
    /// An owned copy with the same value.
    pub fn duplicate(&self) -> (v: VariableValue)
        ensures
            v@ == self@,
    {
        match self {
            VariableValue::INT(i) => VariableValue::INT(*i),
            VariableValue::STRING(s) => VariableValue::STRING(s.clone()),
            VariableValue::FLOAT(s) => VariableValue::FLOAT(s.clone()),
            VariableValue::BOOL(b) => VariableValue::BOOL(*b),
        }
    }
}

/// The abstract session state: type-bucketed variable bindings, and named
/// function definitions.
#[verifier::ext_equal]
pub struct CtxV {
    pub vars: Map<Seq<char>, Map<Seq<char>, ValV>>,
    pub funs: Map<Seq<char>, ExprV>,
}

/// The session context. `variable_map` maps a type name to that type's own
/// bucket of variable bindings; `function_map` maps a function name to its
/// definition, newest definition winning.
pub struct Context {
    pub variable_map: StrMap<StrMap<VariableValue>>,
    pub function_map: StrMap<Expression>,
}

impl View for Context {
    type V = CtxV;

    open spec fn view(&self) -> CtxV {
        CtxV { vars: self.variable_map@, funs: self.function_map@ }
    }
}

/// Binding writes the value under `vars[ty][name]`, creating the type's
/// bucket if it is new and leaving every other bucket untouched.
pub open spec fn ctx_bind(c: CtxV, ty: Seq<char>, name: Seq<char>, v: ValV) -> CtxV {
    let bucket = if c.vars.contains_key(ty) {
        c.vars[ty]
    } else {
        Map::empty()
    };
    CtxV { vars: c.vars.insert(ty, bucket.insert(name, v)), funs: c.funs }
}

fn duplicate_bucket(b: &StrMap<VariableValue>) -> (r: StrMap<VariableValue>)
    ensures
        r@ == b@,
{
    let n = b.entries.len();
    let mut entries: Vec<(String, VariableValue)> = Vec::new();
    let mut i: usize = 0;
    while i < n
        invariant
            n == b.entries@.len(),
            i <= n,
            entries@.len() == i,
            forall|j: int|
                0 <= j < i ==> (#[trigger] entries@[j]).0@ == b.entries@[j].0@ && entries@[j].1@
                    == b.entries@[j].1@,
        decreases n - i,
    {
        let key = b.entries[i].0.clone();
        let value = b.entries[i].1.duplicate();
        entries.push((key, value));
        i = i + 1;
    }
    proof {
        lemma_assoc_congruent::<VariableValue>(entries@, b.entries@);
    }
    StrMap { entries }
}

impl Context {
    /// A fresh session: no bindings, no functions.
    pub fn new() -> (c: Context)
        ensures
            c@.vars == Map::<Seq<char>, Map<Seq<char>, ValV>>::empty(),
            c@.funs == Map::<Seq<char>, ExprV>::empty(),
    {
        Context { variable_map: StrMap::new(), function_map: StrMap::new() }
    }

    /// Stores `value` under the bucket of `vartype` at `varname`,
    /// overwriting a prior value under that exact type only.
    pub fn bind(&mut self, vartype: &String, varname: String, value: VariableValue)
        ensures
            final(self)@ == ctx_bind(old(self)@, vartype@, varname@, value@),
    {
        let mut bucket = match self.variable_map.get(vartype) {
            Some(b) => duplicate_bucket(b),
            None => StrMap::new(),
        };
        bucket.insert(varname, value);
        self.variable_map.insert(vartype.clone(), bucket);
        proof {
            assert(final(self)@ =~= ctx_bind(old(self)@, vartype@, varname@, value@));
        }
    }

    /// The value bound to `varname` under the bucket of `vartype`.
    pub fn lookup(&self, vartype: &String, varname: &String) -> (r: Option<&VariableValue>)
        ensures
            match r {
                Some(v) => self@.vars.contains_key(vartype@) && self@.vars[vartype@].contains_key(
                    varname@,
                ) && v@ == self@.vars[vartype@][varname@],
                None => !(self@.vars.contains_key(vartype@)
                    && self@.vars[vartype@].contains_key(varname@)),
            },
    {
        match self.variable_map.get(vartype) {
            Some(bucket) => bucket.get(varname),
            None => None,
        }
    }

    /// Records a function definition; a redefinition replaces the prior one.
    pub fn define_function(&mut self, name: String, def: Expression)
        ensures
            final(self)@.funs == old(self)@.funs.insert(name@, def@),
            final(self)@.vars == old(self)@.vars,
    {
        self.function_map.insert(name, def);
    }

    /// The definition recorded under `name`.
    pub fn get_function(&self, name: &String) -> (r: Option<&Expression>)
        ensures
            match r {
                Some(d) => self@.funs.contains_key(name@) && d@ == self@.funs[name@],
                None => !self@.funs.contains_key(name@),
            },
    {
        self.function_map.get(name)
    }
}

/// Why evaluation failed.
#[derive(Debug, Clone, PartialEq)]
pub enum EvalError {
    /// No value for this name under the governing type bucket.
    UndefinedVariable(String),
    /// A bare identifier with no governing type annotation: with buckets
    /// per type there is no way to pick one.
    UnannotatedIdentifier(String),
    /// A `let` below the root of a statement.
    NestedBinding,
    /// Operand values or declared types that arithmetic is not defined on.
    OperandTypeMismatch,
    /// Arithmetic on operands declared `float`: the core carries float
    /// literals as text and computes nothing with them.
    FloatArithmetic,
    /// Integer division by zero.
    DivisionByZero,
    /// A result outside the machine integer range.
    ArithmeticOverflow,
    /// An expression shape the evaluator gives no meaning to.
    UnsupportedExpression,
}

pub enum EvalErrV {
    UndefinedVariable(Seq<char>),
    UnannotatedIdentifier(Seq<char>),
    NestedBinding,
    OperandTypeMismatch,
    FloatArithmetic,
    DivisionByZero,
    ArithmeticOverflow,
    UnsupportedExpression,
}

impl View for EvalError {
    type V = EvalErrV;

    open spec fn view(&self) -> EvalErrV {
        match self {
            EvalError::UndefinedVariable(s) => EvalErrV::UndefinedVariable(s@),
            EvalError::UnannotatedIdentifier(s) => EvalErrV::UnannotatedIdentifier(s@),
            EvalError::NestedBinding => EvalErrV::NestedBinding,
            EvalError::OperandTypeMismatch => EvalErrV::OperandTypeMismatch,
            EvalError::FloatArithmetic => EvalErrV::FloatArithmetic,
            EvalError::DivisionByZero => EvalErrV::DivisionByZero,
            EvalError::ArithmeticOverflow => EvalErrV::ArithmeticOverflow,
            EvalError::UnsupportedExpression => EvalErrV::UnsupportedExpression,
        }
    }
}

/// The four arithmetic operators.
#[derive(Debug, Clone, Copy, PartialEq, Eq, Structural)]
pub enum OpKind {
    Add,
    Sub,
    Mul,
    Div,
}

/// Checked machine arithmetic on two integer values.
pub open spec fn spec_arith(op: OpKind, a: i64, b: i64) -> Result<ValV, EvalErrV> {
    match op {
        OpKind::Add => match a.checked_add(b) {
            Some(v) => Ok(ValV::INT(v)),
            None => Err(EvalErrV::ArithmeticOverflow),
        },
        OpKind::Sub => match a.checked_sub(b) {
            Some(v) => Ok(ValV::INT(v)),
            None => Err(EvalErrV::ArithmeticOverflow),
        },
        OpKind::Mul => match a.checked_mul(b) {
            Some(v) => Ok(ValV::INT(v)),
            None => Err(EvalErrV::ArithmeticOverflow),
        },
        OpKind::Div => if b == 0 {
            Err(EvalErrV::DivisionByZero)
        } else {
            match a.checked_div(b) {
                Some(v) => Ok(ValV::INT(v)),
                None => Err(EvalErrV::ArithmeticOverflow),
            }
        },
    }
}

/// Applies an operator to evaluated operands under their declared types:
/// defined for `int`-declared integer operands, refused for `float`, a
/// mismatch otherwise.
pub open spec fn spec_apply_binop(
    op: OpKind,
    t1: Seq<char>,
    t2: Seq<char>,
    v1: ValV,
    v2: ValV,
) -> Result<ValV, EvalErrV> {
    if t1 == "int"@ && t2 == "int"@ {
        match (v1, v2) {
            (ValV::INT(a), ValV::INT(b)) => spec_arith(op, a, b),
            _ => Err(EvalErrV::OperandTypeMismatch),
        }
    } else if t1 == "float"@ || t2 == "float"@ {
        Err(EvalErrV::FloatArithmetic)
    } else {
        Err(EvalErrV::OperandTypeMismatch)
    }
}

pub open spec fn hint_view(h: Option<&String>) -> Option<Seq<char>> {
    match h {
        Some(s) => Some(s@),
        None => None,
    }
}

/// Evaluation of a non-binding expression under an optional governing type
/// annotation. The context is read, never changed.
pub open spec fn spec_eval_inner(e: ExprV, hint: Option<Seq<char>>, c: CtxV) -> Result<
    ValV,
    EvalErrV,
>
    decreases e,
{
    match e {
        ExprV::BOOLEAN(b) => Ok(ValV::BOOL(b)),
        ExprV::INTVAL(i) => Ok(ValV::INT(i)),
        ExprV::FLTVAL(s) => Ok(ValV::FLOAT(s)),
        ExprV::STRINGVAL(s) => Ok(ValV::STRING(s)),
        ExprV::TEXT(name) => match hint {
            None => Err(EvalErrV::UnannotatedIdentifier(name)),
            Some(ty) => if c.vars.contains_key(ty) && c.vars[ty].contains_key(name) {
                Ok(c.vars[ty][name])
            } else {
                Err(EvalErrV::UndefinedVariable(name))
            },
        },
        ExprV::PLUS(t1, t2, l, r) => match spec_eval_inner(*l, Some(t1), c) {
            Err(e1) => Err(e1),
            Ok(v1) => match spec_eval_inner(*r, Some(t2), c) {
                Err(e2) => Err(e2),
                Ok(v2) => spec_apply_binop(OpKind::Add, t1, t2, v1, v2),
            },
        },
        ExprV::MINUS(t1, t2, l, r) => match spec_eval_inner(*l, Some(t1), c) {
            Err(e1) => Err(e1),
            Ok(v1) => match spec_eval_inner(*r, Some(t2), c) {
                Err(e2) => Err(e2),
                Ok(v2) => spec_apply_binop(OpKind::Sub, t1, t2, v1, v2),
            },
        },
        ExprV::TIMES(t1, t2, l, r) => match spec_eval_inner(*l, Some(t1), c) {
            Err(e1) => Err(e1),
            Ok(v1) => match spec_eval_inner(*r, Some(t2), c) {
                Err(e2) => Err(e2),
                Ok(v2) => spec_apply_binop(OpKind::Mul, t1, t2, v1, v2),
            },
        },
        ExprV::DIVIDEDBY(t1, t2, l, r) => match spec_eval_inner(*l, Some(t1), c) {
            Err(e1) => Err(e1),
            Ok(v1) => match spec_eval_inner(*r, Some(t2), c) {
                Err(e2) => Err(e2),
                Ok(v2) => spec_apply_binop(OpKind::Div, t1, t2, v1, v2),
            },
        },
        ExprV::LET(_, _, _) => Err(EvalErrV::NestedBinding),
        ExprV::RETURN(rt, e1) => spec_eval_inner(*e1, Some(rt), c),
        _ => Err(EvalErrV::UnsupportedExpression),
    }
}

/// Evaluation of one whole statement: a root `let` evaluates its
/// initializer under the declared type and binds the result; anything else
/// evaluates with no governing annotation and leaves the context alone.
pub open spec fn spec_evaluate(e: ExprV, c: CtxV) -> Result<(ValV, CtxV), EvalErrV> {
    match e {
        ExprV::LET(name, ty, init) => match spec_eval_inner(*init, Some(ty), c) {
            Err(er) => Err(er),
            Ok(v) => Ok((v, ctx_bind(c, ty, name, v))),
        },
        _ => match spec_eval_inner(e, None, c) {
            Err(er) => Err(er),
            Ok(v) => Ok((v, c)),
        },
    }
}

fn arith_values(
    op: OpKind,
    t1: &String,
    t2: &String,
    v1: &VariableValue,
    v2: &VariableValue,
) -> (r: Result<VariableValue, EvalError>)
    ensures
        match r {
            Ok(v) => spec_apply_binop(op, t1@, t2@, v1@, v2@) == Ok::<ValV, EvalErrV>(v@),
            Err(e) => spec_apply_binop(op, t1@, t2@, v1@, v2@) == Err::<ValV, EvalErrV>(e@),
        },
{
    let int_lit = String::from_str("int");
    let float_lit = String::from_str("float");
    if *t1 == int_lit && *t2 == int_lit {
        match (v1, v2) {
            (VariableValue::INT(a), VariableValue::INT(b)) => match op {
                OpKind::Add => match a.checked_add(*b) {
                    Some(v) => Ok(VariableValue::INT(v)),
                    None => Err(EvalError::ArithmeticOverflow),
                },
                OpKind::Sub => match a.checked_sub(*b) {
                    Some(v) => Ok(VariableValue::INT(v)),
                    None => Err(EvalError::ArithmeticOverflow),
                },
                OpKind::Mul => match a.checked_mul(*b) {
                    Some(v) => Ok(VariableValue::INT(v)),
                    None => Err(EvalError::ArithmeticOverflow),
                },
                OpKind::Div => {
                    if *b == 0 {
                        Err(EvalError::DivisionByZero)
                    } else {
                        match a.checked_div(*b) {
                            Some(v) => Ok(VariableValue::INT(v)),
                            None => Err(EvalError::ArithmeticOverflow),
                        }
                    }
                },
            },
            _ => Err(EvalError::OperandTypeMismatch),
        }
    } else if *t1 == float_lit || *t2 == float_lit {
        Err(EvalError::FloatArithmetic)
    } else {
        Err(EvalError::OperandTypeMismatch)
    }
}

/// Evaluates a non-binding expression under an optional governing type
/// annotation, reading but never changing the context.
pub fn interpret_expr(expr: &Expression, hint: Option<&String>, ctx: &Context) -> (r: Result<
    VariableValue,
    EvalError,
>)
    ensures
        match r {
            Ok(v) => spec_eval_inner(expr@, hint_view(hint), ctx@) == Ok::<ValV, EvalErrV>(v@),
            Err(e) => spec_eval_inner(expr@, hint_view(hint), ctx@) == Err::<ValV, EvalErrV>(e@),
        },
    decreases expr,
{
    match expr {
        Expression::BOOLEAN(b) => Ok(VariableValue::BOOL(*b)),
        Expression::INTVAL(i) => Ok(VariableValue::INT(*i)),
        Expression::FLTVAL(s) => Ok(VariableValue::FLOAT(s.clone())),
        Expression::STRINGVAL(s) => Ok(VariableValue::STRING(s.clone())),
        Expression::TEXT(name) => match hint {
            None => Err(EvalError::UnannotatedIdentifier(name.clone())),
            Some(ty) => match ctx.lookup(ty, name) {
                Some(v) => Ok(v.duplicate()),
                None => Err(EvalError::UndefinedVariable(name.clone())),
            },
        },
        Expression::PLUS(t1, t2, l, r) => {
            let v1 = match interpret_expr(l, Some(t1), ctx) {
                Ok(v) => v,
                Err(e) => {
                    return Err(e);
                },
            };
            let v2 = match interpret_expr(r, Some(t2), ctx) {
                Ok(v) => v,
                Err(e) => {
                    return Err(e);
                },
            };
            arith_values(OpKind::Add, t1, t2, &v1, &v2)
        },
        Expression::MINUS(t1, t2, l, r) => {
            let v1 = match interpret_expr(l, Some(t1), ctx) {
                Ok(v) => v,
                Err(e) => {
                    return Err(e);
                },
            };
            let v2 = match interpret_expr(r, Some(t2), ctx) {
                Ok(v) => v,
                Err(e) => {
                    return Err(e);
                },
            };
            arith_values(OpKind::Sub, t1, t2, &v1, &v2)
        },
        Expression::TIMES(t1, t2, l, r) => {
            let v1 = match interpret_expr(l, Some(t1), ctx) {
                Ok(v) => v,
                Err(e) => {
                    return Err(e);
                },
            };
            let v2 = match interpret_expr(r, Some(t2), ctx) {
                Ok(v) => v,
                Err(e) => {
                    return Err(e);
                },
            };
            arith_values(OpKind::Mul, t1, t2, &v1, &v2)
        },
        Expression::DIVIDEDBY(t1, t2, l, r) => {
            let v1 = match interpret_expr(l, Some(t1), ctx) {
                Ok(v) => v,
                Err(e) => {
                    return Err(e);
                },
            };
            let v2 = match interpret_expr(r, Some(t2), ctx) {
                Ok(v) => v,
                Err(e) => {
                    return Err(e);
                },
            };
            arith_values(OpKind::Div, t1, t2, &v1, &v2)
        },
        Expression::LET(_, _, _) => Err(EvalError::NestedBinding),
        Expression::RETURN(rt, e1) => interpret_expr(e1, Some(rt), ctx),
        _ => Err(EvalError::UnsupportedExpression),
    }
}

/// Evaluates one whole statement against the session context: a root
/// `let` binds its value under the declared type; anything else leaves the
/// context unchanged.
pub fn evaluate(expr: &Expression, ctx: &mut Context) -> (r: Result<VariableValue, EvalError>)
    ensures
        match r {
            Ok(v) => spec_evaluate(expr@, old(ctx)@) == Ok::<(ValV, CtxV), EvalErrV>(
                (v@, final(ctx)@),
            ),
            Err(e) => spec_evaluate(expr@, old(ctx)@) == Err::<(ValV, CtxV), EvalErrV>(e@)
                && final(ctx)@ == old(ctx)@,
        },
{
    match expr {
        Expression::LET(varname, vartype, init) => {
            let v = match interpret_expr(init, Some(vartype), ctx) {
                Ok(v) => v,
                Err(e) => {
                    return Err(e);
                },
            };
            let result = v.duplicate();
            ctx.bind(vartype, varname.clone(), v);
            Ok(result)
        },
        _ => interpret_expr(expr, None, ctx),
    }
}

/// Law: bindings of one name under different types are independent.
/// Binding `x` under `int` and then under `string` leaves both values
/// retrievable; rebinding `x` under `int` replaces the `int` value and
/// does not touch the `string` one.
pub proof fn lemma_overloading_independent(c: CtxV, x: Seq<char>, v1: ValV, v2: ValV, v3: ValV)
    ensures
        ({
            let c1 = ctx_bind(c, "int"@, x, v1);
            let c2 = ctx_bind(c1, "string"@, x, v2);
            let c3 = ctx_bind(c2, "int"@, x, v3);
            c2.vars["int"@][x] == v1 && c2.vars["string"@][x] == v2 && c3.vars["string"@][x] == v2
                && c3.vars["int"@][x] == v3
        }),
{
    reveal_strlit("int");
    reveal_strlit("string");
    assert("int"@.len() == 3);
    assert("string"@.len() == 6);
    assert("int"@ != "string"@);
}

/// Law: a `let`-bound integer literal reads back exactly. Evaluating the
/// binding yields the integer itself, and reading the identifier back
/// under an `int` annotation in the resulting context yields it again.
pub proof fn lemma_let_int_roundtrip(c: CtxV, x: Seq<char>, n: i64)
    ensures
        ({
            let e = ExprV::LET(x, "int"@, Box::new(ExprV::INTVAL(n)));
            &&& spec_evaluate(e, c) matches Ok(p)
            &&& spec_evaluate(e, c) matches Ok(p) ==> p.0 == ValV::INT(n) && spec_eval_inner(
                ExprV::TEXT(x),
                Some("int"@),
                p.1,
            ) == Ok::<ValV, EvalErrV>(ValV::INT(n))
        }),
{
}

} // verus!
