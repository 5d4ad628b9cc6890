use homonym::ast::Expression;
use homonym::interpreter::{evaluate, Context, EvalError, VariableValue};
use homonym::lexer::tokenize;
use homonym::parser::parse;
use homonym::table::StrMap;
use homonym::typechecker::{check_expression_types, TypeError};

fn let_stmt(name: &str, ty: &str, init: Expression) -> Expression {
    Expression::LET(String::from(name), String::from(ty), Box::new(init))
}

fn read_back(name: &str, ty: &str) -> Expression {
    // An identifier is read under a governing annotation: adding zero via
    // an annotated operator resolves the right type bucket.
    Expression::PLUS(
        String::from(ty),
        String::from(ty),
        Box::new(Expression::TEXT(String::from(name))),
        Box::new(Expression::INTVAL(0)),
    )
}

fn int_binop(src: &str) -> Result<VariableValue, EvalError> {
    let toks = tokenize(src).expect("expected the source to lex");
    let expr = parse(&toks).expect("expected the tokens to parse");
    let mut env: StrMap<String> = StrMap::new();
    assert_eq!(
        check_expression_types(&expr, "int", &mut env),
        Ok(true),
        "expected {:?} to typecheck",
        src
    );
    let mut ctx = Context::new();
    evaluate(&expr, &mut ctx)
}

#[test]
fn typecheck_literals() {
    let mut env: StrMap<String> = StrMap::new();
    assert_eq!(
        check_expression_types(&Expression::INTVAL(4), "int", &mut env),
        Ok(true)
    );
    assert_eq!(
        check_expression_types(&Expression::INTVAL(4), "bool", &mut env),
        Ok(false)
    );
    assert_eq!(
        check_expression_types(&Expression::BOOLEAN(true), "bool", &mut env),
        Ok(true)
    );
    assert_eq!(
        check_expression_types(&Expression::FLTVAL(String::from("1.5")), "float", &mut env),
        Ok(true)
    );
    assert_eq!(
        check_expression_types(&Expression::STRINGVAL(String::from("\"s\"")), "string", &mut env),
        Ok(true)
    );
}

#[test]
fn typecheck_undefined_variable_names_the_variable() {
    let mut env: StrMap<String> = StrMap::new();
    assert_eq!(
        check_expression_types(&Expression::TEXT(String::from("zelda")), "int", &mut env),
        Err(TypeError::UndefinedVariable(String::from("zelda")))
    );
}

#[test]
fn typecheck_let_records_the_declared_type() {
    let mut env: StrMap<String> = StrMap::new();
    assert_eq!(
        check_expression_types(&let_stmt("x", "int", Expression::INTVAL(3)), "int", &mut env),
        Ok(true)
    );
    // The recorded declaration governs later statements in the same walk.
    assert_eq!(
        check_expression_types(&Expression::TEXT(String::from("x")), "int", &mut env),
        Ok(true)
    );
    assert_eq!(
        check_expression_types(&Expression::TEXT(String::from("x")), "string", &mut env),
        Ok(false)
    );
}

#[test]
fn typecheck_operands_against_their_annotations() {
    let mut env: StrMap<String> = StrMap::new();
    let good = Expression::PLUS(
        String::from("int"),
        String::from("int"),
        Box::new(Expression::INTVAL(1)),
        Box::new(Expression::INTVAL(2)),
    );
    assert_eq!(check_expression_types(&good, "int", &mut env), Ok(true));
    // The node's result type — the shared operand type — is checked
    // against the expected type too.
    assert_eq!(check_expression_types(&good, "bool", &mut env), Ok(false));
    let bad = Expression::PLUS(
        String::from("int"),
        String::from("int"),
        Box::new(Expression::INTVAL(1)),
        Box::new(Expression::STRINGVAL(String::from("\"s\""))),
    );
    assert_eq!(check_expression_types(&bad, "int", &mut env), Ok(false));
}

#[test]
fn typecheck_mixed_operand_types_never_check() {
    // Operands declared under two different types have no result type:
    // such a node is rejected against every expected type.
    let mut env: StrMap<String> = StrMap::new();
    let mixed = Expression::PLUS(
        String::from("int"),
        String::from("string"),
        Box::new(Expression::INTVAL(1)),
        Box::new(Expression::STRINGVAL(String::from("\"s\""))),
    );
    assert_eq!(check_expression_types(&mixed, "int", &mut env), Ok(false));
    assert_eq!(check_expression_types(&mixed, "string", &mut env), Ok(false));
}

#[test]
fn typecheck_unsupported_shapes_fail() {
    let mut env: StrMap<String> = StrMap::new();
    let cond = Expression::IF(
        String::from("bool"),
        Box::new(Expression::BOOLEAN(true)),
        vec![],
        vec![],
    );
    assert_eq!(
        check_expression_types(&cond, "bool", &mut env),
        Err(TypeError::UnsupportedExpression)
    );
}

#[test]
fn evaluate_arithmetic_exactly() {
    assert_eq!(int_binop("4 +<int,int> 5"), Ok(VariableValue::INT(9)));
    assert_eq!(int_binop("4 -<int,int> 5"), Ok(VariableValue::INT(-1)));
    assert_eq!(int_binop("4 *<int,int> 5"), Ok(VariableValue::INT(20)));
    assert_eq!(int_binop("7 /<int,int> 2"), Ok(VariableValue::INT(3)));
    assert_eq!(
        int_binop("4 +<int,int> 5 *<int,int> 7"),
        Ok(VariableValue::INT(39))
    );
    assert_eq!(
        int_binop("4 +<int,int> 5 -<int,int> 7"),
        Ok(VariableValue::INT(2))
    );
}

#[test]
fn evaluate_division_by_zero_fails() {
    assert_eq!(int_binop("7 /<int,int> 0"), Err(EvalError::DivisionByZero));
}

#[test]
fn evaluate_overflow_fails() {
    let expr = Expression::PLUS(
        String::from("int"),
        String::from("int"),
        Box::new(Expression::INTVAL(i64::MAX)),
        Box::new(Expression::INTVAL(1)),
    );
    let mut ctx = Context::new();
    assert_eq!(evaluate(&expr, &mut ctx), Err(EvalError::ArithmeticOverflow));
}

#[test]
fn evaluate_float_arithmetic_is_refused() {
    let expr = Expression::PLUS(
        String::from("float"),
        String::from("float"),
        Box::new(Expression::FLTVAL(String::from("1.5"))),
        Box::new(Expression::FLTVAL(String::from("2.5"))),
    );
    let mut ctx = Context::new();
    assert_eq!(evaluate(&expr, &mut ctx), Err(EvalError::FloatArithmetic));
}

#[test]
fn evaluate_float_literal_passes_through_as_text() {
    let mut ctx = Context::new();
    assert_eq!(
        evaluate(&Expression::FLTVAL(String::from("3.25")), &mut ctx),
        Ok(VariableValue::FLOAT(String::from("3.25")))
    );
}

#[test]
fn evaluate_bare_identifier_is_ambiguous() {
    let mut ctx = Context::new();
    evaluate(&let_stmt("x", "int", Expression::INTVAL(1)), &mut ctx).unwrap();
    assert_eq!(
        evaluate(&Expression::TEXT(String::from("x")), &mut ctx),
        Err(EvalError::UnannotatedIdentifier(String::from("x")))
    );
}

#[test]
fn evaluate_nested_let_is_rejected() {
    let expr = Expression::PLUS(
        String::from("int"),
        String::from("int"),
        Box::new(let_stmt("x", "int", Expression::INTVAL(1))),
        Box::new(Expression::INTVAL(2)),
    );
    let mut ctx = Context::new();
    assert_eq!(evaluate(&expr, &mut ctx), Err(EvalError::NestedBinding));
}

#[test]
fn evaluate_undefined_variable_fails() {
    let mut ctx = Context::new();
    assert_eq!(
        evaluate(&read_back("ghostly", "int"), &mut ctx),
        Err(EvalError::UndefinedVariable(String::from("ghostly")))
    );
}

#[test]
fn evaluate_return_checks_its_declared_type() {
    let mut ctx = Context::new();
    let ret = Expression::RETURN(String::from("int"), Box::new(Expression::INTVAL(5)));
    assert_eq!(evaluate(&ret, &mut ctx), Ok(VariableValue::INT(5)));
}

#[test]
fn evaluate_unsupported_shapes_fail() {
    let mut ctx = Context::new();
    let cond = Expression::IF(
        String::from("bool"),
        Box::new(Expression::BOOLEAN(true)),
        vec![],
        vec![],
    );
    assert_eq!(evaluate(&cond, &mut ctx), Err(EvalError::UnsupportedExpression));
}

#[test]
fn let_bound_integer_reads_back_exactly() {
    let mut ctx = Context::new();
    assert_eq!(
        evaluate(&let_stmt("x", "int", Expression::INTVAL(42)), &mut ctx),
        Ok(VariableValue::INT(42))
    );
    assert_eq!(
        evaluate(&read_back("x", "int"), &mut ctx),
        Ok(VariableValue::INT(42))
    );
}

#[test]
fn overloaded_bindings_are_independent() {
    let mut ctx = Context::new();
    evaluate(&let_stmt("x", "int", Expression::INTVAL(7)), &mut ctx).unwrap();
    evaluate(
        &let_stmt("x", "string", Expression::STRINGVAL(String::from("\"seven\""))),
        &mut ctx,
    )
    .unwrap();
    let int_ty = String::from("int");
    let string_ty = String::from("string");
    let x = String::from("x");
    assert_eq!(ctx.lookup(&int_ty, &x), Some(&VariableValue::INT(7)));
    assert_eq!(
        ctx.lookup(&string_ty, &x),
        Some(&VariableValue::STRING(String::from("\"seven\"")))
    );
    // Rebinding under `int` must not touch the `string` binding.
    evaluate(&let_stmt("x", "int", Expression::INTVAL(8)), &mut ctx).unwrap();
    assert_eq!(ctx.lookup(&int_ty, &x), Some(&VariableValue::INT(8)));
    assert_eq!(
        ctx.lookup(&string_ty, &x),
        Some(&VariableValue::STRING(String::from("\"seven\"")))
    );
}

#[test]
fn function_definitions_replace_by_name() {
    let mut ctx = Context::new();
    let body_one = Expression::FUNCTION(String::from("f"), vec![], vec![Expression::INTVAL(1)]);
    let body_two = Expression::FUNCTION(String::from("f"), vec![], vec![Expression::INTVAL(2)]);
    ctx.define_function(String::from("f"), body_one);
    ctx.define_function(String::from("f"), body_two);
    let f = String::from("f");
    let expected = Expression::FUNCTION(String::from("f"), vec![], vec![Expression::INTVAL(2)]);
    assert_eq!(ctx.get_function(&f), Some(&expected));
    let g = String::from("g");
    assert_eq!(ctx.get_function(&g), None);
}

#[test]
fn pipeline_end_to_end() {
    let src = "x +<int,int> 2 *<int,int> x";
    let toks = tokenize(src).expect("expected the source to lex");
    let expr = parse(&toks).expect("expected the tokens to parse");
    let mut env: StrMap<String> = StrMap::new();
    env.insert(String::from("x"), String::from("int"));
    assert_eq!(check_expression_types(&expr, "int", &mut env), Ok(true));
    let mut ctx = Context::new();
    evaluate(&let_stmt("x", "int", Expression::INTVAL(10)), &mut ctx).unwrap();
    assert_eq!(evaluate(&expr, &mut ctx), Ok(VariableValue::INT(30)));
}
