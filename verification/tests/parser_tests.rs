use homonym::ast::Expression;
use homonym::lexer::{tokenize, Token};
use homonym::parser::{operator_precendence, parse, ParseError};

fn parsed(src: &str) -> Expression {
    let toks = tokenize(src).expect("expected the source to lex");
    parse(&toks).expect("expected the tokens to parse")
}

fn parse_err(src: &str) -> ParseError {
    let toks = tokenize(src).expect("expected the source to lex");
    parse(&toks).expect_err("expected the tokens to be rejected")
}

fn int_int() -> (String, String) {
    (String::from("int"), String::from("int"))
}

#[test]
fn parse_basic_expression() {
    let (t1, t2) = int_int();
    assert_eq!(
        Expression::PLUS(
            t1,
            t2,
            Box::new(Expression::INTVAL(4)),
            Box::new(Expression::INTVAL(4)),
        ),
        parsed("4 +<int,int> 4")
    );
}

#[test]
fn parse_order_of_ops() {
    let (t1, t2) = int_int();
    let (t3, t4) = int_int();
    assert_eq!(
        Expression::PLUS(
            t1,
            t2,
            Box::new(Expression::INTVAL(4)),
            Box::new(Expression::TIMES(
                t3,
                t4,
                Box::new(Expression::INTVAL(5)),
                Box::new(Expression::INTVAL(7))
            )),
        ),
        parsed("4 +<int,int> 5 *<int,int> 7")
    );
}

#[test]
fn parse_l_to_r() {
    let (t1, t2) = int_int();
    let (t3, t4) = int_int();
    assert_eq!(
        Expression::MINUS(
            t1,
            t2,
            Box::new(Expression::PLUS(
                t3,
                t4,
                Box::new(Expression::INTVAL(4)),
                Box::new(Expression::INTVAL(5))
            )),
            Box::new(Expression::INTVAL(7)),
        ),
        parsed("4 +<int,int> 5 -<int,int> 7")
    );
}

#[test]
fn parse_leaves() {
    assert_eq!(parsed("42"), Expression::INTVAL(42));
    assert_eq!(parsed("true"), Expression::BOOLEAN(true));
    assert_eq!(parsed("false"), Expression::BOOLEAN(false));
    assert_eq!(parsed("3.5"), Expression::FLTVAL(String::from("3.5")));
    assert_eq!(parsed("x"), Expression::TEXT(String::from("x")));
    assert_eq!(
        parsed("\"hi\""),
        Expression::STRINGVAL(String::from("\"hi\""))
    );
}

#[test]
fn parse_operand_types_come_from_annotation() {
    assert_eq!(
        parsed("x +<int,string> y"),
        Expression::PLUS(
            String::from("int"),
            String::from("string"),
            Box::new(Expression::TEXT(String::from("x"))),
            Box::new(Expression::TEXT(String::from("y"))),
        )
    );
}

#[test]
fn parse_parens_override_precedence() {
    let (t1, t2) = int_int();
    let (t3, t4) = int_int();
    assert_eq!(
        Expression::TIMES(
            t3,
            t4,
            Box::new(Expression::PLUS(
                t1,
                t2,
                Box::new(Expression::INTVAL(4)),
                Box::new(Expression::INTVAL(5))
            )),
            Box::new(Expression::INTVAL(7)),
        ),
        parsed("(4 +<int,int> 5) *<int,int> 7")
    );
}

#[test]
fn parse_missing_annotation_is_fatal() {
    assert_eq!(parse_err("4 + 5"), ParseError::MissingTypeAnnotation);
}

#[test]
fn parse_wrong_annotation_arity_is_fatal() {
    assert_eq!(parse_err("4 +<int> 5"), ParseError::WrongAnnotationArity);
    assert_eq!(
        parse_err("4 +<int,int,int> 5"),
        ParseError::WrongAnnotationArity
    );
}

#[test]
fn parse_unbalanced_parens_is_fatal() {
    assert_eq!(parse_err(")"), ParseError::UnbalancedParens);
    assert_eq!(parse_err(") 4 ("), ParseError::UnbalancedParens);
}

#[test]
fn parse_single_bad_token_is_fatal() {
    assert_eq!(parse_err(";"), ParseError::InvalidLeaf);
    assert_eq!(parse_err(""), ParseError::EmptyExpression);
    assert_eq!(parse_err("let x"), ParseError::UnsplittableExpression);
}

#[test]
fn operator_precendence_values() {
    assert_eq!(operator_precendence(&Token::INTVAL(1)), 0);
    assert_eq!(operator_precendence(&Token::STAR), 25);
    assert_eq!(operator_precendence(&Token::FSLASH), 25);
    assert_eq!(operator_precendence(&Token::PLUS), 50);
    assert_eq!(operator_precendence(&Token::DASH), 50);
    assert_eq!(operator_precendence(&Token::LPAREN), 100);
    assert_eq!(operator_precendence(&Token::TYPEREF(String::from("<int>"))), 100);
}
