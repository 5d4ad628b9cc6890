use homonym::lexer::{tokenize, Token};

fn toks(src: &str) -> Vec<Token> {
    tokenize(src).expect("expected the source to lex")
}

#[test]
fn empty() {
    assert_eq!(toks(""), Vec::<Token>::new());
}

#[test]
fn short() {
    assert_eq!(toks("a"), vec![Token::TEXT(String::from("a"))]);
}

#[test]
fn typerefs() {
    let ts = toks("<int><int,string>");
    assert_eq!(ts[0], Token::TYPEREF(String::from("<int>")));
    assert_eq!(ts[1], Token::TYPEREF(String::from("<int,string>")));
    assert_eq!(ts.len(), 2);
}

#[test]
fn printstuff() {
    let ts = toks(
        "let fcounts the int = 34; let fcounts the float = .34; let fcounts the string = \"EUIRHEI\";",
    );
    for token in ts {
        println!("{:?}", token);
    }
}

#[test]
fn whitespace_and_comments_only_yield_nothing() {
    assert_eq!(toks("   \t\n"), Vec::<Token>::new());
    assert_eq!(toks("// just a comment\n"), Vec::<Token>::new());
    assert_eq!(toks("  // one\n\t// two at the end of input"), Vec::<Token>::new());
}

#[test]
fn keywords_and_identifiers() {
    assert_eq!(
        toks("let x the int"),
        vec![
            Token::LET,
            Token::TEXT(String::from("x")),
            Token::THE,
            Token::INT,
        ]
    );
    // A keyword embedded in a longer run stays an identifier.
    assert_eq!(toks("integer"), vec![Token::TEXT(String::from("integer"))]);
    assert_eq!(toks("_back`tick9"), vec![Token::TEXT(String::from("_back`tick9"))]);
}

#[test]
fn numbers_maximal_munch() {
    assert_eq!(toks("-12"), vec![Token::INTVAL(-12)]);
    assert_eq!(toks("3.5"), vec![Token::FLTVAL(String::from("3.5"))]);
    assert_eq!(toks(".34"), vec![Token::FLTVAL(String::from(".34"))]);
    assert_eq!(toks("-.5"), vec![Token::FLTVAL(String::from("-.5"))]);
    assert_eq!(toks("34."), vec![Token::INTVAL(34), Token::PERIOD]);
    // The sign glues to the second number, as maximal munch demands.
    assert_eq!(toks("4-5"), vec![Token::INTVAL(4), Token::INTVAL(-5)]);
    assert_eq!(toks("4 - 5"), vec![Token::INTVAL(4), Token::DASH, Token::INTVAL(5)]);
}

#[test]
fn integer_range_edges() {
    assert_eq!(toks("9223372036854775807"), vec![Token::INTVAL(i64::MAX)]);
    assert_eq!(toks("-9223372036854775808"), vec![Token::INTVAL(i64::MIN)]);
    let err = tokenize("9223372036854775808").unwrap_err();
    assert_eq!(err.pos, 0);
}

#[test]
fn string_literals_keep_quotes() {
    assert_eq!(toks("\"abc\""), vec![Token::STRINGVAL(String::from("\"abc\""))]);
    assert_eq!(toks("\"\""), vec![Token::STRINGVAL(String::from("\"\""))]);
    // An unterminated quote is a bare quote token, then whatever follows.
    assert_eq!(toks("\"ab"), vec![Token::QUOTE, Token::TEXT(String::from("ab"))]);
}

#[test]
fn angle_brackets_and_comparisons() {
    assert_eq!(toks("<="), vec![Token::LEQ]);
    assert_eq!(toks(">="), vec![Token::GEQ]);
    assert_eq!(toks("=="), vec![Token::COMPEQUAL]);
    assert_eq!(toks("="), vec![Token::ASSIGNEQUAL]);
    assert_eq!(toks("<int,>"), vec![Token::TYPEREF(String::from("<int,>"))]);
    // Whitespace keeps an annotation from forming.
    assert_eq!(
        toks("< int>"),
        vec![Token::LESS, Token::INT, Token::GREATER]
    );
}

#[test]
fn punctuation_tokens() {
    assert_eq!(
        toks("( ) [ ] { } ; : | + * / % , ' ."),
        vec![
            Token::LPAREN,
            Token::RPAREN,
            Token::LBRACK,
            Token::RBRACK,
            Token::LBRACE,
            Token::RBRACE,
            Token::SEMICOLON,
            Token::COLON,
            Token::PIPE,
            Token::PLUS,
            Token::STAR,
            Token::FSLASH,
            Token::PERCENT,
            Token::COMMA,
            Token::APOST,
            Token::PERIOD,
        ]
    );
}

#[test]
fn lex_error_reports_position() {
    let err = tokenize("4 @ 5").unwrap_err();
    assert_eq!(err.pos, 2);
}
