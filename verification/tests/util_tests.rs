use homonym::ast::Expression;
use homonym::lexer::{tokenize, Token};
use homonym::utils::{
    check_parens_valid, expr_boundaries, extract_typenames, match_expression_to_typename_str,
    DecodeError,
};
use regex::Regex;

#[test]
fn type_capture_test() {
    assert_eq!(
        extract_typenames("<int, string, float>").expect("expected names"),
        vec![
            String::from("int"),
            String::from("string"),
            String::from("float")
        ]
    )
}

#[test]
fn regex_test() {
    let re = Regex::new(r"([`_a-zA-Z][`_a-zA-Z0-9]*)").unwrap();
    let text = "<int, string, float,>";
    for cap in re.captures_iter(text) {
        println!("{:?}", cap);
    }
}

#[test]
fn extract_matches_identifier_regex() {
    let re = Regex::new(r"([`_a-zA-Z][`_a-zA-Z0-9]*)").unwrap();
    for text in [
        "<int, string, float,>",
        "<a1,`b,_c>",
        "plain words, no brackets",
        "<>",
        "",
        "9starts,with2digits",
    ] {
        let from_regex: Vec<String> = re
            .captures_iter(text)
            .map(|cap| String::from(&cap[0]))
            .collect();
        match extract_typenames(text) {
            Ok(names) => assert_eq!(names, from_regex, "on {:?}", text),
            Err(e) => {
                assert!(from_regex.is_empty(), "on {:?}", text);
                assert_eq!(e, DecodeError::EmptyAnnotation);
            },
        }
    }
}

#[test]
fn empty_annotation_is_an_error() {
    assert_eq!(extract_typenames("<>"), Err(DecodeError::EmptyAnnotation));
    assert_eq!(extract_typenames(""), Err(DecodeError::EmptyAnnotation));
    assert_eq!(extract_typenames("<,>"), Err(DecodeError::EmptyAnnotation));
}

#[test]
fn decode_is_idempotent_on_reserialized_output() {
    for text in ["<int, string, float,>", "<a,b>", "plain"] {
        let names = extract_typenames(text).expect("expected names");
        let rejoined = format!("<{}>", names.join(","));
        assert_eq!(
            extract_typenames(&rejoined).expect("expected names"),
            names,
            "on {:?}",
            text
        );
    }
}

fn toks(src: &str) -> Vec<Token> {
    tokenize(src).expect("expected the source to lex")
}

#[test]
fn parens_checker_accepts_balanced() {
    assert!(check_parens_valid(&toks("( ( 4 ) )")));
    assert!(check_parens_valid(&toks("( ) ( )")));
    assert!(check_parens_valid(&toks("4")));
    // An opener that never closes passes this check: it only rejects a
    // closer with no matching opener before it.
    assert!(check_parens_valid(&toks("(")));
}

#[test]
fn parens_checker_rejects_premature_closers() {
    assert!(!check_parens_valid(&toks(")")));
    assert!(!check_parens_valid(&toks(") (")));
    assert!(!check_parens_valid(&toks("( ) )")));
}

#[test]
fn bracket_kinds_are_checked_symmetrically() {
    assert!(check_parens_valid(&toks("[ { ( 4 ) } ]")));
    assert!(check_parens_valid(&toks("[ ] { } ( )")));
    assert!(!check_parens_valid(&toks("]")));
    assert!(!check_parens_valid(&toks("}")));
    assert!(!check_parens_valid(&toks("[ )")));
    // Strict LIFO: interleaved kinds must close newest-first.
    assert!(!check_parens_valid(&toks("( [ ) ]")));
    assert!(check_parens_valid(&toks("( [ ] )")));
}

#[test]
fn boundaries_find_semicolons() {
    assert_eq!(expr_boundaries(&toks("a; b; c")), vec![1usize, 3usize]);
    assert_eq!(expr_boundaries(&toks("a b c")), Vec::<usize>::new());
}

#[test]
fn literal_typenames() {
    assert_eq!(
        match_expression_to_typename_str(&Expression::INTVAL(3)),
        Some("int")
    );
    assert_eq!(
        match_expression_to_typename_str(&Expression::BOOLEAN(true)),
        Some("bool")
    );
    assert_eq!(
        match_expression_to_typename_str(&Expression::FLTVAL(String::from("1.5"))),
        Some("float")
    );
    assert_eq!(
        match_expression_to_typename_str(&Expression::STRINGVAL(String::from("\"s\""))),
        Some("string")
    );
    assert_eq!(
        match_expression_to_typename_str(&Expression::TEXT(String::from("x"))),
        None
    );
}
