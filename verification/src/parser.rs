//! The parser. A token span is split at the top-level operator with the
//! highest precedence number (loosest binding), rightmost among equals, so
//! multiplication binds tighter than addition and equal tiers group left to
//! right. The token after the chosen operator must be a type-reference
//! annotation decoding to exactly two names: the declared operand types.
//! A parenthesized group is opaque to the scan; a span wrapped whole in
//! parentheses parses as its inside.

use vstd::prelude::*;

use crate::ast::{ExprV, Expression};
use crate::lexer::{tok_views, Token, TokV};
use crate::utils::{brackets_valid, check_parens_valid, extract_typenames, ident_runs};

verus! {

/// Why a token sequence failed to parse.
#[derive(Debug, Clone, Copy, PartialEq, Eq, Structural)]
pub enum ParseError {
    /// A `)` closed nothing, or a `(` closed out of order.
    UnbalancedParens,
    /// An empty token span where an expression was required.
    EmptyExpression,
    /// A one-token span that is no literal, identifier, or boolean.
    InvalidLeaf,
    /// The token after a binary operator is not a type-reference annotation.
    MissingTypeAnnotation,
    /// The annotation after a binary operator does not decode to exactly
    /// two type names.
    WrongAnnotationArity,
    /// A multi-token span with no top-level operator to split at.
    UnsplittableExpression,
}

/// The precedence number of a token: literals never split; multiplicative
/// operators bind tighter (lower number) than additive ones; everything
/// else is never chosen as a split point.
pub open spec fn tok_prec(t: TokV) -> int {
    match t {
        TokV::TEXT(_) => 0,
        TokV::STRINGVAL(_) => 0,
        TokV::INTVAL(_) => 0,
        TokV::FLTVAL(_) => 0,
        TokV::TRUE => 0,
        TokV::FALSE => 0,
        TokV::STAR => 25,
        TokV::FSLASH => 25,
        TokV::PLUS => 50,
        TokV::DASH => 50,
        _ => 100,
    }
}

pub open spec fn is_binop(t: TokV) -> bool {
    t is PLUS || t is DASH || t is STAR || t is FSLASH
}

/// Return precedence of a token (lower is evaluated first).
pub fn operator_precendence(token: &Token) -> (p: i64)
    ensures
        p as int == tok_prec(token@),
{
    match token {
        Token::TEXT(_) => 0,
        Token::STRINGVAL(_) => 0,
        Token::INTVAL(_) => 0,
        Token::FLTVAL(_) => 0,
        Token::TRUE => 0,
        Token::FALSE => 0,
        Token::STAR => 25,
        Token::FSLASH => 25,
        Token::PLUS => 50,
        Token::DASH => 50,
        _ => 100,
    }
}

/// Scans left to right at parenthesis depth zero, keeping the rightmost
/// operator whose precedence number is highest so far.
pub open spec fn scan_split(ts: Seq<TokV>, i: int, depth: int, best: Option<int>) -> Option<int>
    decreases ts.len() - i,
{
    if !(0 <= i < ts.len()) {
        best
    } else {
        let t = ts[i];
        let b2 = if depth == 0 && is_binop(t) && (match best {
            Option::None => true,
            Option::Some(b) => tok_prec(t) >= tok_prec(ts[b]),
        }) {
            Some(i)
        } else {
            best
        };
        let d2 = if t is LPAREN {
            depth + 1
        } else if t is RPAREN {
            depth - 1
        } else {
            depth
        };
        scan_split(ts, i + 1, d2, b2)
    }
}

/// The operator node for a split token and its two decoded operand types.
pub open spec fn make_binop(op: TokV, t1: Seq<char>, t2: Seq<char>, l: ExprV, r: ExprV) -> ExprV {
    match op {
        TokV::PLUS => ExprV::PLUS(t1, t2, Box::new(l), Box::new(r)),
        TokV::DASH => ExprV::MINUS(t1, t2, Box::new(l), Box::new(r)),
        TokV::STAR => ExprV::TIMES(t1, t2, Box::new(l), Box::new(r)),
        _ => ExprV::DIVIDEDBY(t1, t2, Box::new(l), Box::new(r)),
    }
}

/// What parsing a token span yields: a leaf for a single literal token, a
/// binary operator node at the chosen split, the inside of a span wrapped
/// whole in parentheses, or the error the span deserves.
pub open spec fn spec_parse_step(ts: Seq<TokV>) -> Result<ExprV, ParseError>
    decreases ts.len(),
{
    if ts.len() == 0 {
        Err(ParseError::EmptyExpression)
    } else if ts.len() == 1 {
        match ts[0] {
            TokV::INTVAL(i) => Ok(ExprV::INTVAL(i)),
            TokV::FLTVAL(s) => Ok(ExprV::FLTVAL(s)),
            TokV::STRINGVAL(s) => Ok(ExprV::STRINGVAL(s)),
            TokV::TEXT(s) => Ok(ExprV::TEXT(s)),
            TokV::TRUE => Ok(ExprV::BOOLEAN(true)),
            TokV::FALSE => Ok(ExprV::BOOLEAN(false)),
            _ => Err(ParseError::InvalidLeaf),
        }
    } else {
        match scan_split(ts, 0, 0, None) {
            Option::Some(k) => {
                if !(0 <= k < ts.len()) {
                    Err(ParseError::UnsplittableExpression)
                } else if k + 1 >= ts.len() {
                    Err(ParseError::MissingTypeAnnotation)
                } else {
                    match ts[k + 1] {
                        TokV::TYPEREF(raw) => {
                            let names = ident_runs(raw);
                            if names.len() != 2 {
                                Err(ParseError::WrongAnnotationArity)
                            } else {
                                match spec_parse_step(ts.subrange(0, k)) {
                                    Err(e) => Err(e),
                                    Ok(l) => match spec_parse_step(
                                        ts.subrange(k + 2, ts.len() as int),
                                    ) {
                                        Err(e) => Err(e),
                                        Ok(r) => Ok(make_binop(ts[k], names[0], names[1], l, r)),
                                    },
                                }
                            }
                        },
                        _ => Err(ParseError::MissingTypeAnnotation),
                    }
                }
            },
            Option::None => {
                if ts[0] is LPAREN && ts[ts.len() - 1] is RPAREN {
                    spec_parse_step(ts.subrange(1, ts.len() - 1))
                } else {
                    Err(ParseError::UnsplittableExpression)
                }
            },
        }
    }
}

/// Finds the split point of the span `tokens[start..end)`: the rightmost
/// operator, outside any parentheses, with the highest precedence number.
fn get_max_priority_operator(tokens: &Vec<Token>, start: usize, end: usize) -> (r: Option<usize>)
    requires
        start <= end <= tokens@.len(),
    ensures
        ({
            let sub = tok_views(tokens@).subrange(start as int, end as int);
            match r {
                Option::Some(k) => start <= k < end && scan_split(sub, 0, 0, None) == Some(
                    k as int - start as int,
                ) && is_binop(sub[k as int - start as int]),
                Option::None => scan_split(sub, 0, 0, None) is None,
            }
        }),
{
    let ghost sub = tok_views(tokens@).subrange(start as int, end as int);
    let mut i: usize = start;
    let mut opens: usize = 0;
    let mut closes: usize = 0;
    let mut best: Option<usize> = None;
    while i < end
        invariant
            start <= i <= end <= tokens@.len(),
            sub == tok_views(tokens@).subrange(start as int, end as int),
            match best {
                Option::None => scan_split(sub, 0, 0, None) == scan_split(
                    sub,
                    i as int - start as int,
                    opens as int - closes as int,
                    None,
                ),
                Option::Some(b) => start <= b < i && is_binop(sub[b as int - start as int])
                    && scan_split(sub, 0, 0, None) == scan_split(
                    sub,
                    i as int - start as int,
                    opens as int - closes as int,
                    Some(b as int - start as int),
                ),
            },
            opens <= i,
            closes <= i,
        decreases end - i,
    {
        let ghost rel = i as int - start as int;
        proof {
            assert(sub[rel] == tokens@[i as int]@);
        }
        let t = &tokens[i];
        let binop = match t {
            Token::PLUS => true,
            Token::DASH => true,
            Token::STAR => true,
            Token::FSLASH => true,
            _ => false,
        };
        if binop {
            let take = match best {
                Option::None => true,
                Option::Some(b) => {
                    let pb = operator_precendence(&tokens[b]);
                    let pt = operator_precendence(t);
                    proof {
                        assert(sub[b as int - start as int] == tokens@[b as int]@);
                    }
                    pt >= pb
                },
            };
            if opens == closes && take {
                best = Some(i);
            }
        } else {
            match t {
                Token::LPAREN => {
                    opens = opens + 1;
                },
                Token::RPAREN => {
                    closes = closes + 1;
                },
                _ => {},
            }
        }
        i = i + 1;
    }
    best
}

/// Builds the operator node once the split point is known: requires the
/// annotation right after the operator, decodes it, and parses both sides.
fn split_binary_operator_expr(tokens: &Vec<Token>, start: usize, end: usize, k: usize) -> (r:
    Result<Expression, ParseError>)
    requires
        start <= end <= tokens@.len(),
        start <= k < end,
        ({
            let sub = tok_views(tokens@).subrange(start as int, end as int);
            scan_split(sub, 0, 0, None) == Some(k as int - start as int) && is_binop(
                sub[k as int - start as int],
            ) && end - start >= 2
        }),
    ensures
        ({
            let sub = tok_views(tokens@).subrange(start as int, end as int);
            match r {
                Ok(e) => spec_parse_step(sub) == Ok::<ExprV, ParseError>(e@),
                Err(p) => spec_parse_step(sub) == Err::<ExprV, ParseError>(p),
            }
        }),
    decreases end - start, 0int,
{
    let ghost sub = tok_views(tokens@).subrange(start as int, end as int);
    let ghost rel = k as int - start as int;
    if k + 1 >= end {
        return Err(ParseError::MissingTypeAnnotation);
    }
    proof {
        assert(sub[rel + 1] == tokens@[k + 1]@);
        assert(sub[rel] == tokens@[k as int]@);
    }
    let raw = match &tokens[k + 1] {
        Token::TYPEREF(raw) => raw,
        _ => {
            return Err(ParseError::MissingTypeAnnotation);
        },
    };
    let mut names = match extract_typenames(raw.as_str()) {
        Ok(names) => names,
        Err(_) => {
            return Err(ParseError::WrongAnnotationArity);
        },
    };
    if names.len() != 2 {
        return Err(ParseError::WrongAnnotationArity);
    }
    proof {
        assert(names.deep_view()[0] == names@[0]@);
        assert(names.deep_view()[1] == names@[1]@);
        assert(sub.subrange(0, rel) =~= tok_views(tokens@).subrange(start as int, k as int));
    }
    let left = match parse_step_range(tokens, start, k) {
        Ok(l) => l,
        Err(e) => {
            return Err(e);
        },
    };
    proof {
        assert(sub.subrange(rel + 2, sub.len() as int) =~= tok_views(tokens@).subrange(
            k + 2,
            end as int,
        ));
    }
    let right = match parse_step_range(tokens, k + 2, end) {
        Ok(r) => r,
        Err(e) => {
            return Err(e);
        },
    };
    let n1 = match names.pop() {
        Some(n) => n,
        None => {
            return Err(ParseError::WrongAnnotationArity);
        },
    };
    let n0 = match names.pop() {
        Some(n) => n,
        None => {
            return Err(ParseError::WrongAnnotationArity);
        },
    };
    match &tokens[k] {
        Token::PLUS => Ok(Expression::PLUS(n0, n1, Box::new(left), Box::new(right))),
        Token::DASH => Ok(Expression::MINUS(n0, n1, Box::new(left), Box::new(right))),
        Token::STAR => Ok(Expression::TIMES(n0, n1, Box::new(left), Box::new(right))),
        Token::FSLASH => Ok(Expression::DIVIDEDBY(n0, n1, Box::new(left), Box::new(right))),
        _ => Err(ParseError::UnsplittableExpression),
    }
}

/// Parses the token span `tokens[start..end)`.
fn parse_step_range(tokens: &Vec<Token>, start: usize, end: usize) -> (r: Result<
    Expression,
    ParseError,
>)
    requires
        start <= end <= tokens@.len(),
    ensures
        ({
            let sub = tok_views(tokens@).subrange(start as int, end as int);
            match r {
                Ok(e) => spec_parse_step(sub) == Ok::<ExprV, ParseError>(e@),
                Err(p) => spec_parse_step(sub) == Err::<ExprV, ParseError>(p),
            }
        }),
    decreases end - start, 1int,
{
    let ghost sub = tok_views(tokens@).subrange(start as int, end as int);
    if end == start {
        return Err(ParseError::EmptyExpression);
    }
    proof {
        assert(sub[0] == tokens@[start as int]@);
    }
    if end - start == 1 {
        return match &tokens[start] {
            Token::INTVAL(i) => Ok(Expression::INTVAL(*i)),
            Token::FLTVAL(s) => Ok(Expression::FLTVAL(s.clone())),
            Token::STRINGVAL(s) => Ok(Expression::STRINGVAL(s.clone())),
            Token::TEXT(s) => Ok(Expression::TEXT(s.clone())),
            Token::TRUE => Ok(Expression::BOOLEAN(true)),
            Token::FALSE => Ok(Expression::BOOLEAN(false)),
            _ => Err(ParseError::InvalidLeaf),
        };
    }
    match get_max_priority_operator(tokens, start, end) {
        Some(k) => split_binary_operator_expr(tokens, start, end, k),
        None => {
            proof {
                assert(sub[sub.len() - 1] == tokens@[end - 1]@);
            }
            let open = match &tokens[start] {
                Token::LPAREN => true,
                _ => false,
            };
            let close = match &tokens[end - 1] {
                Token::RPAREN => true,
                _ => false,
            };
            if open && close {
                proof {
                    assert(sub.subrange(1, sub.len() - 1) =~= tok_views(tokens@).subrange(
                        start + 1,
                        end - 1,
                    ));
                }
                parse_step_range(tokens, start + 1, end - 1)
            } else {
                Err(ParseError::UnsplittableExpression)
            }
        },
    }
}

/// Parses a whole token sequence as one expression.
pub fn parse_step(lex_vec: &Vec<Token>) -> (r: Result<Expression, ParseError>)
    ensures
        match r {
            Ok(e) => spec_parse_step(tok_views(lex_vec@)) == Ok::<ExprV, ParseError>(e@),
            Err(p) => spec_parse_step(tok_views(lex_vec@)) == Err::<ExprV, ParseError>(p),
        },
{
    proof {
        assert(tok_views(lex_vec@).subrange(0, tok_views(lex_vec@).len() as int) =~= tok_views(
            lex_vec@,
        ));
    }
    parse_step_range(lex_vec, 0, lex_vec.len())
}

/// What `parse` yields: the balance check first, then the expression.
pub open spec fn spec_parse(ts: Seq<TokV>) -> Result<ExprV, ParseError> {
    if !brackets_valid(ts) {
        Err(ParseError::UnbalancedParens)
    } else {
        spec_parse_step(ts)
    }
}

/// Validates bracket balance, then builds the expression tree.
pub fn parse(lex_vec: &Vec<Token>) -> (r: Result<Expression, ParseError>)
    ensures
        match r {
            Ok(e) => spec_parse(tok_views(lex_vec@)) == Ok::<ExprV, ParseError>(e@),
            Err(p) => spec_parse(tok_views(lex_vec@)) == Err::<ExprV, ParseError>(p),
        },
{
    if !check_parens_valid(lex_vec) {
        return Err(ParseError::UnbalancedParens);
    }
    parse_step(lex_vec)
}

} // verus!
