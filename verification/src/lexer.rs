//! The tokenizer. Source text becomes a sequence of `Token`s under a
//! maximal-munch rule: whitespace and `//` line comments are skipped, signed
//! integer and float literals are preferred over bare `-` and `.`, string
//! literals keep their surrounding quotes, identifier runs that spell a
//! reserved word become keyword tokens, and `<name,name,...>` becomes a
//! single type-reference token carrying the raw bracketed text. Any other
//! character is a lexical error naming its position. A float literal keeps
//! its spelling as text: the core never computes with floating point.

use vstd::prelude::*;

verus! {

/// One lexical unit. Literal payloads are the raw text spans described in
/// the module doc; a float literal carries its spelling.
#[derive(Debug, Clone, PartialEq)]
pub enum Token {
    PERIOD,
    COMMA,
    QUOTE,
    APOST,
    LPAREN,
    RPAREN,
    LBRACK,
    RBRACK,
    LBRACE,
    RBRACE,
    SEMICOLON,
    COLON,
    PIPE,
    PLUS,
    DASH,
    STAR,
    FSLASH,
    PERCENT,
    ASSIGNEQUAL,
    COMPEQUAL,
    LESS,
    GREATER,
    LEQ,
    GEQ,
    AND,
    OR,
    NOT,
    THE,
    INT,
    FLOAT,
    STRING,
    BOOL,
    LET,
    FUNCTION,
    RETURN,
    IF,
    ELSE,
    WHILE,
    TRUE,
    FALSE,
    INTVAL(i64),
    FLTVAL(String),
    STRINGVAL(String),
    TEXT(String),
    TYPEREF(String),
}

/// The mathematical shape of a token: payload strings become `Seq<char>`.
pub enum TokV {
    PERIOD,
    COMMA,
    QUOTE,
    APOST,
    LPAREN,
    RPAREN,
    LBRACK,
    RBRACK,
    LBRACE,
    RBRACE,
    SEMICOLON,
    COLON,
    PIPE,
    PLUS,
    DASH,
    STAR,
    FSLASH,
    PERCENT,
    ASSIGNEQUAL,
    COMPEQUAL,
    LESS,
    GREATER,
    LEQ,
    GEQ,
    AND,
    OR,
    NOT,
    THE,
    INT,
    FLOAT,
    STRING,
    BOOL,
    LET,
    FUNCTION,
    RETURN,
    IF,
    ELSE,
    WHILE,
    TRUE,
    FALSE,
    INTVAL(i64),
    FLTVAL(Seq<char>),
    STRINGVAL(Seq<char>),
    TEXT(Seq<char>),
    TYPEREF(Seq<char>),
}

impl View for Token {
    type V = TokV;

    open spec fn view(&self) -> TokV {
        match self {
            Token::PERIOD => TokV::PERIOD,
            Token::COMMA => TokV::COMMA,
            Token::QUOTE => TokV::QUOTE,
            Token::APOST => TokV::APOST,
            Token::LPAREN => TokV::LPAREN,
            Token::RPAREN => TokV::RPAREN,
            Token::LBRACK => TokV::LBRACK,
            Token::RBRACK => TokV::RBRACK,
            Token::LBRACE => TokV::LBRACE,
            Token::RBRACE => TokV::RBRACE,
            Token::SEMICOLON => TokV::SEMICOLON,
            Token::COLON => TokV::COLON,
            Token::PIPE => TokV::PIPE,
            Token::PLUS => TokV::PLUS,
            Token::DASH => TokV::DASH,
            Token::STAR => TokV::STAR,
            Token::FSLASH => TokV::FSLASH,
            Token::PERCENT => TokV::PERCENT,
            Token::ASSIGNEQUAL => TokV::ASSIGNEQUAL,
            Token::COMPEQUAL => TokV::COMPEQUAL,
            Token::LESS => TokV::LESS,
            Token::GREATER => TokV::GREATER,
            Token::LEQ => TokV::LEQ,
            Token::GEQ => TokV::GEQ,
            Token::AND => TokV::AND,
            Token::OR => TokV::OR,
            Token::NOT => TokV::NOT,
            Token::THE => TokV::THE,
            Token::INT => TokV::INT,
            Token::FLOAT => TokV::FLOAT,
            Token::STRING => TokV::STRING,
            Token::BOOL => TokV::BOOL,
            Token::LET => TokV::LET,
            Token::FUNCTION => TokV::FUNCTION,
            Token::RETURN => TokV::RETURN,
            Token::IF => TokV::IF,
            Token::ELSE => TokV::ELSE,
            Token::WHILE => TokV::WHILE,
            Token::TRUE => TokV::TRUE,
            Token::FALSE => TokV::FALSE,
            Token::INTVAL(i) => TokV::INTVAL(*i),
            Token::FLTVAL(s) => TokV::FLTVAL(s@),
            Token::STRINGVAL(s) => TokV::STRINGVAL(s@),
            Token::TEXT(s) => TokV::TEXT(s@),
            Token::TYPEREF(s) => TokV::TYPEREF(s@),
        }
    }
}

pub open spec fn tok_views(ts: Seq<Token>) -> Seq<TokV> {
    ts.map_values(|t: Token| t@)
}

/// A lexical error: the index of the first character of the offending span.
#[derive(Debug, Clone, Copy, PartialEq, Eq, Structural)]
pub struct LexError {
    pub pos: usize,
}

// ---------------------------------------------------------------------------
// Character classes
// ---------------------------------------------------------------------------

pub open spec fn is_ws(c: char) -> bool {
    c == ' ' || c == '\t' || c == '\n' || c == '\u{000C}'
}

pub open spec fn is_digit(c: char) -> bool {
    '0' <= c && c <= '9'
}

pub open spec fn is_ident_start(c: char) -> bool {
    ('a' <= c && c <= 'z') || ('A' <= c && c <= 'Z') || c == '_' || c == '`'
}

pub open spec fn is_ident_char(c: char) -> bool {
    is_ident_start(c) || is_digit(c)
}

fn ch_is_ws(c: char) -> (b: bool)
    ensures
        b == is_ws(c),
{
    c == ' ' || c == '\t' || c == '\n' || c == '\u{000C}'
}

fn ch_is_digit(c: char) -> (b: bool)
    ensures
        b == is_digit(c),
{
    '0' <= c && c <= '9'
}

pub fn ch_is_ident_start(c: char) -> (b: bool)
    ensures
        b == is_ident_start(c),
{
    ('a' <= c && c <= 'z') || ('A' <= c && c <= 'Z') || c == '_' || c == '`'
}

fn ch_is_ident_char(c: char) -> (b: bool)
    ensures
        b == is_ident_char(c),
{
    ch_is_ident_start(c) || ch_is_digit(c)
}

// ---------------------------------------------------------------------------
// Scanning helpers: where a run that starts at `i` ends
// ---------------------------------------------------------------------------

/// End of the identifier-character run starting at `i`.
pub open spec fn ident_end(s: Seq<char>, i: int) -> int
    decreases s.len() - i,
{
    if i < s.len() && is_ident_char(s[i]) {
        ident_end(s, i + 1)
    } else {
        i
    }
}

/// End of the digit run starting at `i`.
pub open spec fn digit_end(s: Seq<char>, i: int) -> int
    decreases s.len() - i,
{
    if i < s.len() && is_digit(s[i]) {
        digit_end(s, i + 1)
    } else {
        i
    }
}

/// Index of the first `"` at or after `i`, or the text length if none.
pub open spec fn quote_end(s: Seq<char>, i: int) -> int
    decreases s.len() - i,
{
    if i < s.len() {
        if s[i] == '"' {
            i
        } else {
            quote_end(s, i + 1)
        }
    } else {
        i
    }
}

/// Index just past the newline that closes a comment open at `i`, or the
/// text length when the comment runs to the end of input.
pub open spec fn comment_end(s: Seq<char>, i: int) -> int
    decreases s.len() - i,
{
    if i < s.len() {
        if s[i] == '\n' {
            i + 1
        } else {
            comment_end(s, i + 1)
        }
    } else {
        i
    }
}

pub proof fn lemma_ident_end(s: Seq<char>, i: int)
    requires
        0 <= i <= s.len(),
    ensures
        i <= ident_end(s, i) <= s.len(),
        i < s.len() && is_ident_char(s[i]) ==> ident_end(s, i) > i,
        forall|k: int| i <= k < ident_end(s, i) ==> is_ident_char(s[k]),
        ident_end(s, i) == s.len() || !is_ident_char(s[ident_end(s, i)]),
    decreases s.len() - i,
{
    if i < s.len() && is_ident_char(s[i]) {
        lemma_ident_end(s, i + 1);
    }
}

proof fn lemma_digit_end(s: Seq<char>, i: int)
    requires
        0 <= i <= s.len(),
    ensures
        i <= digit_end(s, i) <= s.len(),
        forall|k: int| i <= k < digit_end(s, i) ==> is_digit(s[k]),
        digit_end(s, i) == s.len() || !is_digit(s[digit_end(s, i)]),
    decreases s.len() - i,
{
    if i < s.len() && is_digit(s[i]) {
        lemma_digit_end(s, i + 1);
    }
}

proof fn lemma_quote_end(s: Seq<char>, i: int)
    requires
        0 <= i <= s.len(),
    ensures
        i <= quote_end(s, i) <= s.len(),
        quote_end(s, i) < s.len() ==> s[quote_end(s, i)] == '"',
        forall|k: int| i <= k < quote_end(s, i) ==> s[k] != '"',
    decreases s.len() - i,
{
    if i < s.len() && s[i] != '"' {
        lemma_quote_end(s, i + 1);
    }
}

proof fn lemma_comment_end(s: Seq<char>, i: int)
    requires
        0 <= i <= s.len(),
    ensures
        i <= comment_end(s, i) <= s.len(),
        i < s.len() ==> comment_end(s, i) > i,
    decreases s.len() - i,
{
    if i < s.len() && s[i] != '\n' {
        lemma_comment_end(s, i + 1);
    }
}

// ---------------------------------------------------------------------------
// Type-reference annotations: `<` name (`,` name)* `,`? `>`
// ---------------------------------------------------------------------------

/// Scans the part of an annotation after `<` or after a `,`: an identifier,
/// then `>`, a trailing `,>`, or a `,` and another name. Returns the index
/// just past the closing `>`, or `None` when the text is not an annotation.
pub open spec fn typeref_rest(s: Seq<char>, j: int) -> Option<int>
    decreases s.len() - j,
{
    if j < s.len() && is_ident_start(s[j]) {
        let k = ident_end(s, j);
        if k < s.len() && s[k] == '>' {
            Some(k + 1)
        } else if k < s.len() && s[k] == ',' {
            if k + 1 < s.len() && s[k + 1] == '>' {
                Some(k + 2)
            } else if j < k + 1 {
                typeref_rest(s, k + 1)
            } else {
                None
            }
        } else {
            None
        }
    } else {
        None
    }
}

pub open spec fn typeref_end(s: Seq<char>, i: int) -> Option<int> {
    if i < s.len() && s[i] == '<' {
        typeref_rest(s, i + 1)
    } else {
        None
    }
}

proof fn lemma_typeref_rest(s: Seq<char>, j: int)
    requires
        0 <= j <= s.len(),
    ensures
        typeref_rest(s, j) matches Some(e) ==> j < e <= s.len(),
    decreases s.len() - j,
{
    if j < s.len() && is_ident_start(s[j]) {
        lemma_ident_end(s, j);
        let k = ident_end(s, j);
        if k < s.len() && s[k] == ',' && !(k + 1 < s.len() && s[k + 1] == '>') && j < k + 1 {
            lemma_typeref_rest(s, k + 1);
        }
    }
}

// ---------------------------------------------------------------------------
// Integer literal values
// ---------------------------------------------------------------------------

pub open spec fn digit_of(c: char) -> int {
    c as u32 as int - 48
}

/// The value of the digit span `s[i..j)`.
pub open spec fn digits_val(s: Seq<char>, i: int, j: int) -> int
    decreases j - i,
{
    if i >= j {
        0
    } else {
        digits_val(s, i, j - 1) * 10 + digit_of(s[j - 1])
    }
}

proof fn lemma_digits_val_nonneg(s: Seq<char>, i: int, j: int)
    requires
        forall|k: int| i <= k < j ==> is_digit(s[k]),
    ensures
        digits_val(s, i, j) >= 0,
    decreases j - i,
{
    if i < j {
        lemma_digits_val_nonneg(s, i, j - 1);
    }
}

/// The value of a digit span only grows as the span extends.
proof fn lemma_digits_val_mono(s: Seq<char>, i: int, j1: int, j2: int)
    requires
        i <= j1 <= j2,
        forall|k: int| i <= k < j2 ==> is_digit(s[k]),
    ensures
        digits_val(s, i, j1) <= digits_val(s, i, j2),
    decreases j2 - j1,
{
    if j1 < j2 {
        lemma_digits_val_mono(s, i, j1, j2 - 1);
        lemma_digits_val_nonneg(s, i, j2 - 1);
    }
}

// ---------------------------------------------------------------------------
// Keywords
// ---------------------------------------------------------------------------

pub open spec fn keyword_tok(w: Seq<char>) -> Option<TokV> {
    if w == "and"@ {
        Some(TokV::AND)
    } else if w == "or"@ {
        Some(TokV::OR)
    } else if w == "not"@ {
        Some(TokV::NOT)
    } else if w == "the"@ {
        Some(TokV::THE)
    } else if w == "int"@ {
        Some(TokV::INT)
    } else if w == "float"@ {
        Some(TokV::FLOAT)
    } else if w == "string"@ {
        Some(TokV::STRING)
    } else if w == "bool"@ {
        Some(TokV::BOOL)
    } else if w == "let"@ {
        Some(TokV::LET)
    } else if w == "function"@ {
        Some(TokV::FUNCTION)
    } else if w == "return"@ {
        Some(TokV::RETURN)
    } else if w == "if"@ {
        Some(TokV::IF)
    } else if w == "else"@ {
        Some(TokV::ELSE)
    } else if w == "while"@ {
        Some(TokV::WHILE)
    } else if w == "true"@ {
        Some(TokV::TRUE)
    } else if w == "false"@ {
        Some(TokV::FALSE)
    } else {
        None
    }
}

// ---------------------------------------------------------------------------
// One lexing step, and the whole run
// ---------------------------------------------------------------------------

/// What happens at position `i`: characters are skipped, a token is taken
/// and the scan resumes at the returned index, or lexing fails there.
pub enum LStep {
    Skip(int),
    Tok(TokV, int),
    Fail,
}

pub open spec fn is_comment_start(s: Seq<char>, i: int) -> bool {
    s[i] == '/' && i + 1 < s.len() && s[i + 1] == '/'
}

/// The single token (or skip) that maximal munch takes at position `i`.
pub open spec fn next_tok(s: Seq<char>, i: int) -> LStep {
    let c = s[i];
    if is_ws(c) {
        LStep::Skip(i + 1)
    } else if is_comment_start(s, i) {
        LStep::Skip(comment_end(s, i))
    } else if c == '"' {
        let q = quote_end(s, i + 1);
        if q < s.len() {
            LStep::Tok(TokV::STRINGVAL(s.subrange(i, q + 1)), q + 1)
        } else {
            LStep::Tok(TokV::QUOTE, i + 1)
        }
    } else if c == '-' || c == '.' || is_digit(c) {
        let j0 = if c == '-' {
            i + 1
        } else {
            i
        };
        let d1 = digit_end(s, j0);
        if d1 + 1 < s.len() && s[d1] == '.' && is_digit(s[d1 + 1]) {
            let d2 = digit_end(s, d1 + 1);
            LStep::Tok(TokV::FLTVAL(s.subrange(i, d2)), d2)
        } else if d1 > j0 {
            let m = digits_val(s, j0, d1);
            let v = if c == '-' {
                -m
            } else {
                m
            };
            if i64::MIN <= v <= i64::MAX {
                LStep::Tok(TokV::INTVAL(v as i64), d1)
            } else {
                LStep::Fail
            }
        } else if c == '-' {
            LStep::Tok(TokV::DASH, i + 1)
        } else {
            LStep::Tok(TokV::PERIOD, i + 1)
        }
    } else if c == '<' {
        match typeref_end(s, i) {
            Some(e) => LStep::Tok(TokV::TYPEREF(s.subrange(i, e)), e),
            None => {
                if i + 1 < s.len() && s[i + 1] == '=' {
                    LStep::Tok(TokV::LEQ, i + 2)
                } else {
                    LStep::Tok(TokV::LESS, i + 1)
                }
            },
        }
    } else if c == '>' {
        if i + 1 < s.len() && s[i + 1] == '=' {
            LStep::Tok(TokV::GEQ, i + 2)
        } else {
            LStep::Tok(TokV::GREATER, i + 1)
        }
    } else if c == '=' {
        if i + 1 < s.len() && s[i + 1] == '=' {
            LStep::Tok(TokV::COMPEQUAL, i + 2)
        } else {
            LStep::Tok(TokV::ASSIGNEQUAL, i + 1)
        }
    } else if is_ident_start(c) {
        let j = ident_end(s, i);
        let w = s.subrange(i, j);
        match keyword_tok(w) {
            Some(t) => LStep::Tok(t, j),
            None => LStep::Tok(TokV::TEXT(w), j),
        }
    } else if c == ',' {
        LStep::Tok(TokV::COMMA, i + 1)
    } else if c == '\'' {
        LStep::Tok(TokV::APOST, i + 1)
    } else if c == '(' {
        LStep::Tok(TokV::LPAREN, i + 1)
    } else if c == ')' {
        LStep::Tok(TokV::RPAREN, i + 1)
    } else if c == '[' {
        LStep::Tok(TokV::LBRACK, i + 1)
    } else if c == ']' {
        LStep::Tok(TokV::RBRACK, i + 1)
    } else if c == '{' {
        LStep::Tok(TokV::LBRACE, i + 1)
    } else if c == '}' {
        LStep::Tok(TokV::RBRACE, i + 1)
    } else if c == ';' {
        LStep::Tok(TokV::SEMICOLON, i + 1)
    } else if c == ':' {
        LStep::Tok(TokV::COLON, i + 1)
    } else if c == '|' {
        LStep::Tok(TokV::PIPE, i + 1)
    } else if c == '+' {
        LStep::Tok(TokV::PLUS, i + 1)
    } else if c == '*' {
        LStep::Tok(TokV::STAR, i + 1)
    } else if c == '/' {
        LStep::Tok(TokV::FSLASH, i + 1)
    } else if c == '%' {
        LStep::Tok(TokV::PERCENT, i + 1)
    } else {
        LStep::Fail
    }
}

/// The token sequence from position `i` on, or the position of the first
/// lexical error. The range guards on each step are always true for the
/// steps `next_tok` yields; they bound the recursion.
pub open spec fn lex_from(s: Seq<char>, i: int) -> Result<Seq<TokV>, int>
    decreases s.len() - i,
{
    if !(0 <= i < s.len()) {
        Ok(Seq::empty())
    } else {
        match next_tok(s, i) {
            LStep::Skip(j) => {
                if i < j <= s.len() {
                    lex_from(s, j)
                } else {
                    Err(i)
                }
            },
            LStep::Tok(t, j) => {
                if i < j <= s.len() {
                    match lex_from(s, j) {
                        Ok(rest) => Ok(seq![t] + rest),
                        Err(p) => Err(p),
                    }
                } else {
                    Err(i)
                }
            },
            LStep::Fail => Err(i),
        }
    }
}

/// The whole-input token sequence, or the first error position.
pub open spec fn spec_tokenize(s: Seq<char>) -> Result<Seq<TokV>, int> {
    lex_from(s, 0)
}

pub open spec fn lex_append(pre: Seq<TokV>, r: Result<Seq<TokV>, int>) -> Result<
    Seq<TokV>,
    int,
> {
    match r {
        Ok(ts) => Ok(pre + ts),
        Err(p) => Err(p),
    }
}

proof fn lemma_lex_append_empty(r: Result<Seq<TokV>, int>)
    ensures
        lex_append(Seq::empty(), r) == r,
{
    match r {
        Ok(ts) => {
            assert(Seq::<TokV>::empty() + ts =~= ts);
        },
        Err(_) => {},
    }
}

/// Taking the step `next_tok` prescribes keeps the accumulated tokens in
/// line with the whole-input lexing result.
proof fn lemma_step_tok(s: Seq<char>, i: int, t: TokV, j: int, pre: Seq<Token>, tok: Token)
    requires
        0 <= i < s.len(),
        next_tok(s, i) == LStep::Tok(t, j),
        i < j <= s.len(),
        tok@ == t,
    ensures
        lex_append(tok_views(pre.push(tok)), lex_from(s, j)) == lex_append(
            tok_views(pre),
            lex_from(s, i),
        ),
{
    assert(tok_views(pre.push(tok)) =~= tok_views(pre).push(t));
    match lex_from(s, j) {
        Ok(rest) => {
            assert(tok_views(pre) + (seq![t] + rest) =~= tok_views(pre).push(t) + rest);
        },
        Err(_) => {},
    }
}

/// Source text that is nothing but whitespace and line comments from
/// position `i` on.
pub open spec fn ws_comments_only(s: Seq<char>, i: int) -> bool
    decreases s.len() - i,
{
    if !(0 <= i < s.len()) {
        true
    } else if is_ws(s[i]) {
        ws_comments_only(s, i + 1)
    } else if is_comment_start(s, i) {
        let j = comment_end(s, i);
        if i < j <= s.len() {
            ws_comments_only(s, j)
        } else {
            false
        }
    } else {
        false
    }
}

proof fn lemma_lex_ws_comments(s: Seq<char>, i: int)
    requires
        0 <= i <= s.len(),
        ws_comments_only(s, i),
    ensures
        lex_from(s, i) == Ok::<Seq<TokV>, int>(Seq::empty()),
    decreases s.len() - i,
{
    if i < s.len() {
        if is_ws(s[i]) {
            assert(next_tok(s, i) == LStep::Skip(i + 1));
            lemma_lex_ws_comments(s, i + 1);
        } else {
            lemma_comment_end(s, i);
            assert(next_tok(s, i) == LStep::Skip(comment_end(s, i)));
            lemma_lex_ws_comments(s, comment_end(s, i));
        }
    }
}

/// Law: source text consisting solely of whitespace and comments lexes to
/// the empty token sequence.
pub proof fn lemma_blank_source_has_no_tokens(s: Seq<char>)
    requires
        ws_comments_only(s, 0),
    ensures
        spec_tokenize(s) == Ok::<Seq<TokV>, int>(Seq::empty()),
{
    if s.len() > 0 {
        lemma_lex_ws_comments(s, 0);
    }
}

// ---------------------------------------------------------------------------
// Executable scanners
// ---------------------------------------------------------------------------

fn at_ident_char(s: &str, j: usize, n: usize) -> (b: bool)
    requires
        n == s@.len(),
        j <= n,
    ensures
        b == (j < n && is_ident_char(s@[j as int])),
{
    if j < n {
        let c = s.get_char(j);
        ch_is_ident_char(c)
    } else {
        false
    }
}

pub fn scan_ident_end(s: &str, i: usize, n: usize) -> (r: usize)
    requires
        n == s@.len(),
        i <= n,
    ensures
        r as int == ident_end(s@, i as int),
        i <= r <= n,
{
    let mut j: usize = i;
    while at_ident_char(s, j, n)
        invariant
            n == s@.len(),
            i <= j <= n,
            ident_end(s@, i as int) == ident_end(s@, j as int),
        decreases n - j,
    {
        j = j + 1;
    }
    j
}

fn at_digit(s: &str, j: usize, n: usize) -> (b: bool)
    requires
        n == s@.len(),
        j <= n,
    ensures
        b == (j < n && is_digit(s@[j as int])),
{
    if j < n {
        let c = s.get_char(j);
        ch_is_digit(c)
    } else {
        false
    }
}

fn scan_digit_end(s: &str, i: usize, n: usize) -> (r: usize)
    requires
        n == s@.len(),
        i <= n,
    ensures
        r as int == digit_end(s@, i as int),
        i <= r <= n,
{
    let mut j: usize = i;
    while at_digit(s, j, n)
        invariant
            n == s@.len(),
            i <= j <= n,
            digit_end(s@, i as int) == digit_end(s@, j as int),
        decreases n - j,
    {
        j = j + 1;
    }
    j
}

fn at_non_quote(s: &str, j: usize, n: usize) -> (b: bool)
    requires
        n == s@.len(),
        j <= n,
    ensures
        b == (j < n && s@[j as int] != '"'),
{
    if j < n {
        let c = s.get_char(j);
        c != '"'
    } else {
        false
    }
}

fn scan_quote_end(s: &str, i: usize, n: usize) -> (r: usize)
    requires
        n == s@.len(),
        i <= n,
    ensures
        r as int == quote_end(s@, i as int),
        i <= r <= n,
{
    let mut j: usize = i;
    while at_non_quote(s, j, n)
        invariant
            n == s@.len(),
            i <= j <= n,
            quote_end(s@, i as int) == quote_end(s@, j as int),
        decreases n - j,
    {
        j = j + 1;
    }
    j
}

fn at_non_newline(s: &str, j: usize, n: usize) -> (b: bool)
    requires
        n == s@.len(),
        j <= n,
    ensures
        b == (j < n && s@[j as int] != '\n'),
{
    if j < n {
        let c = s.get_char(j);
        c != '\n'
    } else {
        false
    }
}

fn scan_comment_end(s: &str, i: usize, n: usize) -> (r: usize)
    requires
        n == s@.len(),
        i <= n,
    ensures
        r as int == comment_end(s@, i as int),
        i <= r <= n,
{
    let mut j: usize = i;
    while at_non_newline(s, j, n)
        invariant
            n == s@.len(),
            i <= j <= n,
            comment_end(s@, i as int) == comment_end(s@, j as int),
        decreases n - j,
    {
        j = j + 1;
    }
    if j < n {
        j + 1
    } else {
        j
    }
}

fn scan_typeref(s: &str, i: usize, n: usize) -> (r: Option<usize>)
    requires
        n == s@.len(),
        i <= n,
    ensures
        match r {
            Some(e) => typeref_end(s@, i as int) == Some(e as int) && i < e <= n,
            None => typeref_end(s@, i as int) is None,
        },
{
    if i >= n {
        return None;
    }
    let c0 = s.get_char(i);
    if c0 != '<' {
        return None;
    }
    let mut j: usize = i + 1;
    loop
        invariant
            n == s@.len(),
            i + 1 <= j <= n,
            typeref_end(s@, i as int) == typeref_rest(s@, j as int),
        decreases n - j,
    {
        if j >= n {
            return None;
        }
        let c = s.get_char(j);
        if !ch_is_ident_start(c) {
            return None;
        }
        proof {
            lemma_ident_end(s@, j as int);
        }
        let k = scan_ident_end(s, j, n);
        if k >= n {
            return None;
        }
        let ck = s.get_char(k);
        if ck == '>' {
            return Some(k + 1);
        }
        if ck != ',' {
            return None;
        }
        if k + 1 < n {
            let c2 = s.get_char(k + 1);
            if c2 == '>' {
                return Some(k + 2);
            }
        }
        j = k + 1;
    }
}

/// The negated value of the digit span `s[j0..d1)`, or `None` when its
/// magnitude does not even fit the most negative machine integer.
fn scan_int_value(s: &str, j0: usize, d1: usize) -> (r: Option<i64>)
    requires
        j0 <= d1 <= s@.len(),
        forall|k: int| j0 <= k < d1 ==> #[trigger] is_digit(s@[k]),
    ensures
        match r {
            Some(m) => m as int == -digits_val(s@, j0 as int, d1 as int),
            None => -digits_val(s@, j0 as int, d1 as int) < i64::MIN as int,
        },
{
    let mut acc: i64 = 0;
    let mut k: usize = j0;
    while k < d1
        invariant
            j0 <= k <= d1 <= s@.len(),
            forall|t: int| j0 <= t < d1 ==> #[trigger] is_digit(s@[t]),
            acc as int == -digits_val(s@, j0 as int, k as int),
        decreases d1 - k,
    {
        let c = s.get_char(k);
        let d: i64 = (c as u32 as i64) - 48;
        proof {
            assert(is_digit(s@[k as int]));
            assert(0 <= d <= 9);
        }
        let m10 = acc.checked_mul(10);
        let next = match m10 {
            Some(a) => a.checked_sub(d),
            None => None,
        };
        match next {
            Some(a) => {
                acc = a;
            },
            None => {
                proof {
                    lemma_digits_val_nonneg(s@, j0 as int, k as int);
                    lemma_digits_val_mono(s@, j0 as int, k as int + 1, d1 as int);
                }
                return None;
            },
        }
        k = k + 1;
    }
    Some(acc)
}

// ---------------------------------------------------------------------------
// The tokenizer
// ---------------------------------------------------------------------------

/// Turns source text into tokens, or reports the position of the first
/// character that begins no token. The result is exactly what
/// `spec_tokenize` prescribes; in particular, text made of whitespace and
/// comments alone yields no tokens at all.
pub fn tokenize(source: &str) -> (r: Result<Vec<Token>, LexError>)
    ensures
        match r {
            Ok(toks) => spec_tokenize(source@) == Ok::<Seq<TokV>, int>(tok_views(toks@)),
            Err(e) => spec_tokenize(source@) == Err::<Seq<TokV>, int>(e.pos as int),
        },
{
    let ghost s = source@;
    let n = source.unicode_len();
    let mut toks: Vec<Token> = Vec::new();
    let mut i: usize = 0;
    proof {
        assert(tok_views(toks@) =~= Seq::<TokV>::empty());
        lemma_lex_append_empty(lex_from(s, 0));
    }
    while i < n
        invariant
            n == s.len(),
            s == source@,
            i <= n,
            lex_append(tok_views(toks@), lex_from(s, i as int)) == spec_tokenize(s),
        decreases n - i,
    {
        let ghost i0 = i as int;
        let c = source.get_char(i);
        if ch_is_ws(c) {
            proof {
                assert(next_tok(s, i0) == LStep::Skip(i0 + 1));
            }
            i = i + 1;
        } else if c == '/' && i + 1 < n && source.get_char(i + 1) == '/' {
            proof {
                lemma_comment_end(s, i0);
                assert(next_tok(s, i0) == LStep::Skip(comment_end(s, i0)));
            }
            let j = scan_comment_end(source, i, n);
            i = j;
        } else if c == '"' {
            proof {
                lemma_quote_end(s, i0 + 1);
            }
            let q = scan_quote_end(source, i + 1, n);
            if q < n {
                let payload = source.substring_char(i, q + 1).to_owned();
                let tok = Token::STRINGVAL(payload);
                proof {
                    lemma_step_tok(
                        s,
                        i0,
                        TokV::STRINGVAL(s.subrange(i0, q + 1)),
                        q as int + 1,
                        toks@,
                        tok,
                    );
                }
                toks.push(tok);
                i = q + 1;
            } else {
                let tok = Token::QUOTE;
                proof {
                    lemma_step_tok(s, i0, TokV::QUOTE, i0 + 1, toks@, tok);
                }
                toks.push(tok);
                i = i + 1;
            }
        } else if c == '-' || c == '.' || ch_is_digit(c) {
            let j0 = if c == '-' {
                i + 1
            } else {
                i
            };
            proof {
                lemma_digit_end(s, j0 as int);
            }
            let d1 = scan_digit_end(source, j0, n);
            if d1 < n && source.get_char(d1) == '.' && d1 + 1 < n && {
                let c2 = source.get_char(d1 + 1);
                ch_is_digit(c2)
            } {
                proof {
                    lemma_digit_end(s, d1 as int + 1);
                }
                let d2 = scan_digit_end(source, d1 + 1, n);
                let payload = source.substring_char(i, d2).to_owned();
                let tok = Token::FLTVAL(payload);
                proof {
                    lemma_step_tok(
                        s,
                        i0,
                        TokV::FLTVAL(s.subrange(i0, d2 as int)),
                        d2 as int,
                        toks@,
                        tok,
                    );
                }
                toks.push(tok);
                i = d2;
            } else if d1 > j0 {
                let m_opt = scan_int_value(source, j0, d1);
                match m_opt {
                    Some(m) => {
                        if c == '-' {
                            let tok = Token::INTVAL(m);
                            proof {
                                lemma_step_tok(s, i0, TokV::INTVAL(m), d1 as int, toks@, tok);
                            }
                            toks.push(tok);
                            i = d1;
                        } else if m == i64::MIN {
                            proof {
                                assert(next_tok(s, i0) == LStep::Fail);
                            }
                            return Err(LexError { pos: i });
                        } else {
                            let tok = Token::INTVAL(-m);
                            proof {
                                lemma_step_tok(s, i0, tok@, d1 as int, toks@, tok);
                            }
                            toks.push(tok);
                            i = d1;
                        }
                    },
                    None => {
                        proof {
                            assert(next_tok(s, i0) == LStep::Fail);
                        }
                        return Err(LexError { pos: i });
                    },
                }
            } else if c == '-' {
                let tok = Token::DASH;
                proof {
                    lemma_step_tok(s, i0, TokV::DASH, i0 + 1, toks@, tok);
                }
                toks.push(tok);
                i = i + 1;
            } else {
                let tok = Token::PERIOD;
                proof {
                    lemma_step_tok(s, i0, TokV::PERIOD, i0 + 1, toks@, tok);
                }
                toks.push(tok);
                i = i + 1;
            }
        } else if c == '<' {
            proof {
                lemma_typeref_rest(s, i0 + 1);
            }
            let tr = scan_typeref(source, i, n);
            match tr {
                Some(e) => {
                    let payload = source.substring_char(i, e).to_owned();
                    let tok = Token::TYPEREF(payload);
                    proof {
                        lemma_step_tok(
                            s,
                            i0,
                            TokV::TYPEREF(s.subrange(i0, e as int)),
                            e as int,
                            toks@,
                            tok,
                        );
                    }
                    toks.push(tok);
                    i = e;
                },
                None => {
                    if i + 1 < n && source.get_char(i + 1) == '=' {
                        let tok = Token::LEQ;
                        proof {
                            lemma_step_tok(s, i0, TokV::LEQ, i0 + 2, toks@, tok);
                        }
                        toks.push(tok);
                        i = i + 2;
                    } else {
                        let tok = Token::LESS;
                        proof {
                            lemma_step_tok(s, i0, TokV::LESS, i0 + 1, toks@, tok);
                        }
                        toks.push(tok);
                        i = i + 1;
                    }
                },
            }
        } else if c == '>' {
            if i + 1 < n && source.get_char(i + 1) == '=' {
                let tok = Token::GEQ;
                proof {
                    lemma_step_tok(s, i0, TokV::GEQ, i0 + 2, toks@, tok);
                }
                toks.push(tok);
                i = i + 2;
            } else {
                let tok = Token::GREATER;
                proof {
                    lemma_step_tok(s, i0, TokV::GREATER, i0 + 1, toks@, tok);
                }
                toks.push(tok);
                i = i + 1;
            }
        } else if c == '=' {
            if i + 1 < n && source.get_char(i + 1) == '=' {
                let tok = Token::COMPEQUAL;
                proof {
                    lemma_step_tok(s, i0, TokV::COMPEQUAL, i0 + 2, toks@, tok);
                }
                toks.push(tok);
                i = i + 2;
            } else {
                let tok = Token::ASSIGNEQUAL;
                proof {
                    lemma_step_tok(s, i0, TokV::ASSIGNEQUAL, i0 + 1, toks@, tok);
                }
                toks.push(tok);
                i = i + 1;
            }
        } else if ch_is_ident_start(c) {
            proof {
                lemma_ident_end(s, i0);
            }
            let j = scan_ident_end(source, i, n);
            let w = source.substring_char(i, j).to_owned();
            let tok: Token = if w == String::from_str("and") {
                Token::AND
            } else if w == String::from_str("or") {
                Token::OR
            } else if w == String::from_str("not") {
                Token::NOT
            } else if w == String::from_str("the") {
                Token::THE
            } else if w == String::from_str("int") {
                Token::INT
            } else if w == String::from_str("float") {
                Token::FLOAT
            } else if w == String::from_str("string") {
                Token::STRING
            } else if w == String::from_str("bool") {
                Token::BOOL
            } else if w == String::from_str("let") {
                Token::LET
            } else if w == String::from_str("function") {
                Token::FUNCTION
            } else if w == String::from_str("return") {
                Token::RETURN
            } else if w == String::from_str("if") {
                Token::IF
            } else if w == String::from_str("else") {
                Token::ELSE
            } else if w == String::from_str("while") {
                Token::WHILE
            } else if w == String::from_str("true") {
                Token::TRUE
            } else if w == String::from_str("false") {
                Token::FALSE
            } else {
                Token::TEXT(w)
            };
            proof {
                let tv = match keyword_tok(s.subrange(i0, j as int)) {
                    Some(t) => t,
                    None => TokV::TEXT(s.subrange(i0, j as int)),
                };
                lemma_step_tok(s, i0, tv, j as int, toks@, tok);
            }
            toks.push(tok);
            i = j;
        } else if c == ',' {
            let tok = Token::COMMA;
            proof {
                lemma_step_tok(s, i0, TokV::COMMA, i0 + 1, toks@, tok);
            }
            toks.push(tok);
            i = i + 1;
        } else if c == '\'' {
            let tok = Token::APOST;
            proof {
                lemma_step_tok(s, i0, TokV::APOST, i0 + 1, toks@, tok);
            }
            toks.push(tok);
            i = i + 1;
        } else if c == '(' {
            let tok = Token::LPAREN;
            proof {
                lemma_step_tok(s, i0, TokV::LPAREN, i0 + 1, toks@, tok);
            }
            toks.push(tok);
            i = i + 1;
        } else if c == ')' {
            let tok = Token::RPAREN;
            proof {
                lemma_step_tok(s, i0, TokV::RPAREN, i0 + 1, toks@, tok);
            }
            toks.push(tok);
            i = i + 1;
        } else if c == '[' {
            let tok = Token::LBRACK;
            proof {
                lemma_step_tok(s, i0, TokV::LBRACK, i0 + 1, toks@, tok);
            }
            toks.push(tok);
            i = i + 1;
        } else if c == ']' {
            let tok = Token::RBRACK;
            proof {
                lemma_step_tok(s, i0, TokV::RBRACK, i0 + 1, toks@, tok);
            }
            toks.push(tok);
            i = i + 1;
        } else if c == '{' {
            let tok = Token::LBRACE;
            proof {
                lemma_step_tok(s, i0, TokV::LBRACE, i0 + 1, toks@, tok);
            }
            toks.push(tok);
            i = i + 1;
        } else if c == '}' {
            let tok = Token::RBRACE;
            proof {
                lemma_step_tok(s, i0, TokV::RBRACE, i0 + 1, toks@, tok);
            }
            toks.push(tok);
            i = i + 1;
        } else if c == ';' {
            let tok = Token::SEMICOLON;
            proof {
                lemma_step_tok(s, i0, TokV::SEMICOLON, i0 + 1, toks@, tok);
            }
            toks.push(tok);
            i = i + 1;
        } else if c == ':' {
            let tok = Token::COLON;
            proof {
                lemma_step_tok(s, i0, TokV::COLON, i0 + 1, toks@, tok);
            }
            toks.push(tok);
            i = i + 1;
        } else if c == '|' {
            let tok = Token::PIPE;
            proof {
                lemma_step_tok(s, i0, TokV::PIPE, i0 + 1, toks@, tok);
            }
            toks.push(tok);
            i = i + 1;
        } else if c == '+' {
            let tok = Token::PLUS;
            proof {
                lemma_step_tok(s, i0, TokV::PLUS, i0 + 1, toks@, tok);
            }
            toks.push(tok);
            i = i + 1;
        } else if c == '*' {
            let tok = Token::STAR;
            proof {
                lemma_step_tok(s, i0, TokV::STAR, i0 + 1, toks@, tok);
            }
            toks.push(tok);
            i = i + 1;
        } else if c == '/' {
            let tok = Token::FSLASH;
            proof {
                lemma_step_tok(s, i0, TokV::FSLASH, i0 + 1, toks@, tok);
            }
            toks.push(tok);
            i = i + 1;
        } else if c == '%' {
            let tok = Token::PERCENT;
            proof {
                lemma_step_tok(s, i0, TokV::PERCENT, i0 + 1, toks@, tok);
            }
            toks.push(tok);
            i = i + 1;
        } else {
            proof {
                assert(next_tok(s, i0) == LStep::Fail);
            }
            return Err(LexError { pos: i });
        }
    }
    proof {
        assert(lex_from(s, i as int) == Ok::<Seq<TokV>, int>(Seq::empty()));
        assert(tok_views(toks@) + Seq::<TokV>::empty() =~= tok_views(toks@));
    }
    Ok(toks)
}

} // verus!
