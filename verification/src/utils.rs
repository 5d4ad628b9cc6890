//! Utility passes over token sequences and annotation text: bracket
//! balance checking — `()`, `[]`, `{}` symmetrically, in strict LIFO
//! order — decoding the names out of a type-reference annotation (at
//! least one name, or an explicit error), classifying literal expressions
//! by type name, and finding statement boundaries.

use vstd::prelude::*;

use crate::ast::{literal_type_name, Expression};
use crate::lexer::{ch_is_ident_start, ident_end, is_ident_char, is_ident_start, lemma_ident_end, scan_ident_end, tok_views, Token, TokV};

verus! {

// ---------------------------------------------------------------------------
// Bracket balance
// ---------------------------------------------------------------------------

pub open spec fn is_opener(t: TokV) -> bool {
    t is LPAREN || t is LBRACK || t is LBRACE
}

pub open spec fn is_closer(t: TokV) -> bool {
    t is RPAREN || t is RBRACK || t is RBRACE
}

pub open spec fn bracket_matches(open: TokV, close: TokV) -> bool {
    (open is LPAREN && close is RPAREN) || (open is LBRACK && close is RBRACK) || (open is LBRACE
        && close is RBRACE)
}

/// Scans the tokens against a stack of open brackets: an opener is pushed,
/// a closer must close the newest open bracket — strict LIFO, the three
/// bracket kinds treated symmetrically — and every other token is ignored.
/// `None` on a closer that matches nothing; otherwise the brackets still
/// open at the end.
pub open spec fn bracket_scan(ts: Seq<TokV>, i: int, stack: Seq<TokV>) -> Option<Seq<TokV>>
    decreases ts.len() - i,
{
    if !(0 <= i < ts.len()) {
        Some(stack)
    } else {
        let t = ts[i];
        if is_opener(t) {
            bracket_scan(ts, i + 1, stack.push(t))
        } else if is_closer(t) {
            if stack.len() > 0 && bracket_matches(stack.last(), t) {
                bracket_scan(ts, i + 1, stack.drop_last())
            } else {
                None
            }
        } else {
            bracket_scan(ts, i + 1, stack)
        }
    }
}

/// Every closer closes the newest still-open bracket of its own kind.
pub open spec fn brackets_valid(ts: Seq<TokV>) -> bool {
    bracket_scan(ts, 0, Seq::empty()) is Some
}

/// Fully balanced: the scan succeeds and closes every bracket it opened.
pub open spec fn brackets_balanced(ts: Seq<TokV>) -> bool {
    bracket_scan(ts, 0, Seq::empty()) == Some(Seq::<TokV>::empty())
}

pub open spec fn n_opens(ts: Seq<TokV>) -> int
    decreases ts.len(),
{
    if ts.len() == 0 {
        0
    } else {
        n_opens(ts.drop_last()) + if ts.last() is LPAREN {
            1int
        } else {
            0int
        }
    }
}

pub open spec fn n_closes(ts: Seq<TokV>) -> int
    decreases ts.len(),
{
    if ts.len() == 0 {
        0
    } else {
        n_closes(ts.drop_last()) + if ts.last() is RPAREN {
            1int
        } else {
            0int
        }
    }
}

/// No prefix holds more `)` than `(`: the counting consequence of the
/// bracket scan that the law below states.
pub open spec fn parens_valid(ts: Seq<TokV>) -> bool {
    forall|k: int| 0 <= k <= ts.len() ==> n_closes(#[trigger] ts.take(k)) <= n_opens(ts.take(k))
}

/// The number of `(` among the open brackets of a stack.
spec fn n_lparens(stack: Seq<TokV>) -> int
    decreases stack.len(),
{
    if stack.len() == 0 {
        0
    } else {
        n_lparens(stack.drop_last()) + if stack.last() is LPAREN {
            1int
        } else {
            0int
        }
    }
}

proof fn lemma_n_lparens_nonneg(stack: Seq<TokV>)
    ensures
        n_lparens(stack) >= 0,
    decreases stack.len(),
{
    if stack.len() > 0 {
        lemma_n_lparens_nonneg(stack.drop_last());
    }
}

/// Along a successful scan, the open `(` on the stack are exactly the
/// parenthesis excess of the prefix read so far; so every prefix of an
/// accepted sequence holds at least as many `(` as `)`.
proof fn lemma_scan_paren_counts(ts: Seq<TokV>, i: int, stack: Seq<TokV>)
    requires
        0 <= i <= ts.len(),
        bracket_scan(ts, i, stack) is Some,
        n_lparens(stack) == n_opens(ts.take(i)) - n_closes(ts.take(i)),
        forall|k: int| 0 <= k <= i ==> n_closes(#[trigger] ts.take(k)) <= n_opens(ts.take(k)),
    ensures
        parens_valid(ts),
    decreases ts.len() - i,
{
    if i < ts.len() {
        let t = ts[i];
        assert(ts.take(i + 1).drop_last() =~= ts.take(i));
        assert(ts.take(i + 1).last() == t);
        if is_opener(t) {
            assert(stack.push(t).drop_last() =~= stack);
            assert(stack.push(t).last() == t);
            assert(n_lparens(stack.push(t)) == n_lparens(stack) + if t is LPAREN {
                1int
            } else {
                0int
            });
            lemma_scan_paren_counts(ts, i + 1, stack.push(t));
        } else if is_closer(t) {
            lemma_n_lparens_nonneg(stack.drop_last());
            assert(n_lparens(stack) == n_lparens(stack.drop_last()) + if stack.last() is LPAREN {
                1int
            } else {
                0int
            });
            lemma_scan_paren_counts(ts, i + 1, stack.drop_last());
        } else {
            lemma_scan_paren_counts(ts, i + 1, stack);
        }
    }
}

/// Law: the bracket check accepts every fully balanced token sequence;
/// and it rejects every sequence in which some prefix holds more `)` than
/// `(` — a lone `)`, or a `)` standing before its matching `(`.
pub proof fn lemma_paren_check_laws(ts: Seq<TokV>)
    ensures
        brackets_balanced(ts) ==> brackets_valid(ts),
        !parens_valid(ts) ==> !brackets_valid(ts),
{
    if brackets_valid(ts) {
        assert(ts.take(0) =~= Seq::<TokV>::empty());
        lemma_scan_paren_counts(ts, 0, Seq::empty());
    }
}

fn closer_matches(open: &Token, close: &Token) -> (b: bool)
    ensures
        b == bracket_matches(open@, close@),
{
    match (open, close) {
        (Token::LPAREN, Token::RPAREN) => true,
        (Token::LBRACK, Token::RBRACK) => true,
        (Token::LBRACE, Token::RBRACE) => true,
        _ => false,
    }
}

/// Scans the tokens left to right with a stack of open brackets; reports
/// whether every closer — `)`, `]`, `}` alike — closes the newest open
/// bracket of its own kind. Brackets still open at the end are accepted.
pub fn check_parens_valid(tokens: &Vec<Token>) -> (r: bool)
    ensures
        r == brackets_valid(tok_views(tokens@)),
{
    let ghost ts = tok_views(tokens@);
    let n = tokens.len();
    let mut stack: Vec<Token> = Vec::new();
    let mut i: usize = 0;
    proof {
        assert(tok_views(stack@) =~= Seq::<TokV>::empty());
    }
    while i < n
        invariant
            n == tokens@.len(),
            ts == tok_views(tokens@),
            i <= n,
            bracket_scan(ts, 0, Seq::empty()) == bracket_scan(ts, i as int, tok_views(stack@)),
        decreases n - i,
    {
        proof {
            assert(ts[i as int] == tokens@[i as int]@);
        }
        let ghost pre = tok_views(stack@);
        let opener = match &tokens[i] {
            Token::LPAREN => true,
            Token::LBRACK => true,
            Token::LBRACE => true,
            _ => false,
        };
        let closer = match &tokens[i] {
            Token::RPAREN => true,
            Token::RBRACK => true,
            Token::RBRACE => true,
            _ => false,
        };
        if opener {
            let mark = match &tokens[i] {
                Token::LBRACK => Token::LBRACK,
                Token::LBRACE => Token::LBRACE,
                _ => Token::LPAREN,
            };
            stack.push(mark);
            proof {
                assert(tok_views(stack@) =~= pre.push(ts[i as int]));
            }
        } else if closer {
            match stack.pop() {
                None => {
                    proof {
                        assert(pre =~= Seq::<TokV>::empty());
                    }
                    return false;
                },
                Some(top) => {
                    let matched = closer_matches(&top, &tokens[i]);
                    proof {
                        assert(pre.len() > 0);
                        assert(tok_views(stack@) =~= pre.drop_last());
                        assert(pre.last() == top@);
                    }
                    if !matched {
                        return false;
                    }
                },
            }
        }
        i = i + 1;
    }
    proof {
        assert(bracket_scan(ts, n as int, tok_views(stack@)) == Some(tok_views(stack@)));
    }
    true
}

// ---------------------------------------------------------------------------
// Decoding type names out of annotation text
// ---------------------------------------------------------------------------

/// The length of the identifier-character prefix of `s`.
pub open spec fn run_len(s: Seq<char>) -> int
    decreases s.len(),
{
    if s.len() > 0 && is_ident_char(s[0]) {
        1 + run_len(s.skip(1))
    } else {
        0
    }
}

/// Every maximal identifier-shaped substring of `s`, in order.
pub open spec fn ident_runs(s: Seq<char>) -> Seq<Seq<char>>
    decreases s.len(),
{
    if s.len() == 0 {
        Seq::empty()
    } else if is_ident_start(s[0]) {
        let e = run_len(s);
        if 0 < e <= s.len() {
            seq![s.take(e)] + ident_runs(s.skip(e))
        } else {
            Seq::empty()
        }
    } else {
        ident_runs(s.skip(1))
    }
}

proof fn lemma_run_len_bounds(s: Seq<char>)
    ensures
        0 <= run_len(s) <= s.len(),
        forall|k: int| 0 <= k < run_len(s) ==> is_ident_char(s[k]),
        run_len(s) < s.len() ==> !is_ident_char(s[run_len(s)]),
    decreases s.len(),
{
    if s.len() > 0 && is_ident_char(s[0]) {
        lemma_run_len_bounds(s.skip(1));
        assert forall|k: int| 0 <= k < run_len(s) implies is_ident_char(s[k]) by {
            if k > 0 {
                assert(is_ident_char(s.skip(1)[k - 1]));
            }
        }
    }
}

/// Bridges the index-based scan of the lexer to the structural `run_len`.
proof fn lemma_ident_end_run_len(s: Seq<char>, i: int)
    requires
        0 <= i <= s.len(),
    ensures
        ident_end(s, i) == i + run_len(s.skip(i)),
    decreases s.len() - i,
{
    if i < s.len() && is_ident_char(s[i]) {
        lemma_ident_end_run_len(s, i + 1);
        assert(s.skip(i).skip(1) =~= s.skip(i + 1));
    }
}

/// The decoder's failure: an annotation must decode to at least one name.
#[derive(Debug, Clone, Copy, PartialEq, Eq, Structural)]
pub enum DecodeError {
    EmptyAnnotation,
}

/// Extracts every identifier-shaped substring from annotation text, left
/// to right, ignoring brackets, commas, and everything else. Text holding
/// no name at all is an explicit error, never an empty list.
pub fn extract_typenames(type_str: &str) -> (r: Result<Vec<String>, DecodeError>)
    ensures
        match r {
            Ok(names) => ident_runs(type_str@).len() > 0 && names.deep_view() == ident_runs(
                type_str@,
            ),
            Err(e) => ident_runs(type_str@).len() == 0 && e == DecodeError::EmptyAnnotation,
        },
{
    let ghost s = type_str@;
    let n = type_str.unicode_len();
    let mut names: Vec<String> = Vec::new();
    let mut i: usize = 0;
    proof {
        assert(names.deep_view() + ident_runs(s.skip(0)) =~= ident_runs(s.skip(0)));
        assert(s.skip(0) =~= s);
    }
    while i < n
        invariant
            n == s.len(),
            s == type_str@,
            i <= n,
            names.deep_view() + ident_runs(s.skip(i as int)) == ident_runs(s),
        decreases n - i,
    {
        let c = type_str.get_char(i);
        let is_start = ch_is_ident_start(c);
        if is_start {
            proof {
                lemma_ident_end(s, i as int);
                lemma_ident_end_run_len(s, i as int);
                lemma_run_len_bounds(s.skip(i as int));
            }
            let j = scan_ident_end(type_str, i, n);
            let name = type_str.substring_char(i, j).to_owned();
            let ghost prior = names.deep_view();
            names.push(name);
            proof {
                let tail = s.skip(i as int);
                let e = run_len(tail);
                assert(tail.take(e) =~= s.subrange(i as int, j as int));
                assert(tail.skip(e) =~= s.skip(j as int));
                assert(ident_runs(tail) == seq![name@] + ident_runs(s.skip(j as int)));
                assert(names.deep_view() =~= prior.push(name@));
                assert(prior.push(name@) + ident_runs(s.skip(j as int)) =~= prior + ident_runs(
                    tail,
                ));
            }
            i = j;
        } else {
            proof {
                assert(s.skip(i as int).skip(1) =~= s.skip(i + 1));
                assert(ident_runs(s.skip(i as int)) == ident_runs(s.skip(i + 1)));
            }
            i = i + 1;
        }
    }
    proof {
        assert(s.skip(n as int) =~= Seq::<char>::empty());
        assert(names.deep_view() + Seq::<Seq<char>>::empty() =~= names.deep_view());
    }
    if names.is_empty() {
        Err(DecodeError::EmptyAnnotation)
    } else {
        Ok(names)
    }
}

// ---------------------------------------------------------------------------
// Idempotence of decoding
// ---------------------------------------------------------------------------

/// The names joined with `,` separators.
pub open spec fn comma_joined(names: Seq<Seq<char>>) -> Seq<char>
    decreases names.len(),
{
    if names.len() == 0 {
        Seq::empty()
    } else if names.len() == 1 {
        names[0]
    } else {
        names[0] + seq![','] + comma_joined(names.skip(1))
    }
}

/// The names re-serialized the way an annotation is written.
pub open spec fn rebracketed(names: Seq<Seq<char>>) -> Seq<char> {
    seq!['<'] + comma_joined(names) + seq!['>']
}

/// A well-formed name: nonempty, identifier-shaped.
pub open spec fn wf_name(w: Seq<char>) -> bool {
    w.len() > 0 && is_ident_start(w[0]) && (forall|k: int| 0 <= k < w.len() ==> is_ident_char(w[k]))
}

proof fn lemma_runs_wf(s: Seq<char>)
    ensures
        forall|r: int| 0 <= r < ident_runs(s).len() ==> wf_name(#[trigger] ident_runs(s)[r]),
    decreases s.len(),
{
    reveal_with_fuel(ident_runs, 2);
    if s.len() == 0 {
        assert(ident_runs(s).len() == 0);
    } else if is_ident_start(s[0]) {
        lemma_run_len_bounds(s);
        lemma_run_len_bounds(s.skip(1));
        let e = run_len(s);
        assert(0 < e <= s.len());
        lemma_runs_wf(s.skip(e));
        assert(wf_name(s.take(e)));
        assert forall|r: int| 0 <= r < ident_runs(s).len() implies wf_name(
            #[trigger] ident_runs(s)[r],
        ) by {
            if r == 0 {
                assert(ident_runs(s)[0] == s.take(e));
            } else {
                assert(ident_runs(s)[r] == ident_runs(s.skip(e))[r - 1]);
            }
        }
    } else {
        lemma_runs_wf(s.skip(1));
        assert(ident_runs(s) == ident_runs(s.skip(1)));
    }
}

/// Scanning a name followed by a non-identifier rest finds the name first.
proof fn lemma_runs_of_name_then(w: Seq<char>, rest: Seq<char>)
    requires
        wf_name(w),
        rest.len() == 0 || !is_ident_char(rest[0]),
    ensures
        ident_runs(w + rest) == seq![w] + ident_runs(rest),
{
    let s = w + rest;
    lemma_run_len_prefix(w, rest);
    lemma_run_len_bounds(s);
    assert(is_ident_start(s[0]));
    assert(run_len(s) == w.len());
    assert(s.take(w.len() as int) =~= w);
    assert(s.skip(w.len() as int) =~= rest);
}

/// The identifier prefix of `w + rest` is exactly `w` when `w` is a name
/// and `rest` does not begin with an identifier character.
proof fn lemma_run_len_prefix(w: Seq<char>, rest: Seq<char>)
    requires
        forall|k: int| 0 <= k < w.len() ==> is_ident_char(w[k]),
        rest.len() == 0 || !is_ident_char(rest[0]),
    ensures
        run_len(w + rest) == w.len(),
    decreases w.len(),
{
    let s = w + rest;
    if w.len() == 0 {
        assert(s =~= rest);
    } else {
        assert(is_ident_char(s[0]));
        lemma_run_len_prefix(w.skip(1), rest);
        assert(s.skip(1) =~= w.skip(1) + rest);
    }
}

proof fn lemma_runs_of_joined(names: Seq<Seq<char>>)
    requires
        forall|r: int| 0 <= r < names.len() ==> wf_name(#[trigger] names[r]),
    ensures
        ident_runs(comma_joined(names) + seq!['>']) == names,
    decreases names.len(),
{
    reveal_with_fuel(ident_runs, 3);
    let tail = seq!['>'];
    assert(tail.skip(1) =~= Seq::<char>::empty());
    assert(!is_ident_start('>'));
    assert(ident_runs(tail) == ident_runs(tail.skip(1)));
    assert(ident_runs(tail) =~= Seq::<Seq<char>>::empty());
    if names.len() == 0 {
        assert(comma_joined(names) + tail =~= tail);
        assert(names =~= Seq::<Seq<char>>::empty());
    } else if names.len() == 1 {
        lemma_runs_of_name_then(names[0], tail);
        assert(comma_joined(names) + tail =~= names[0] + tail);
        assert(seq![names[0]] + Seq::<Seq<char>>::empty() =~= names);
    } else {
        let w = names[0];
        let rest = seq![','] + comma_joined(names.skip(1)) + tail;
        assert(comma_joined(names) + tail =~= w + rest);
        lemma_runs_of_name_then(w, rest);
        lemma_runs_of_joined(names.skip(1));
        assert(rest.skip(1) =~= comma_joined(names.skip(1)) + tail);
        assert(ident_runs(rest) == ident_runs(comma_joined(names.skip(1)) + tail));
        assert(seq![w] + names.skip(1) =~= names);
    }
}

/// Law: decoding is idempotent. Re-serializing the decoded names of any
/// annotation text — re-bracketed, comma-joined — and decoding again gives
/// the same ordered names.
pub proof fn lemma_decode_idempotent(s: Seq<char>)
    ensures
        ident_runs(rebracketed(ident_runs(s))) == ident_runs(s),
{
    let names = ident_runs(s);
    lemma_runs_wf(s);
    let body = comma_joined(names) + seq!['>'];
    assert(rebracketed(names) =~= seq!['<'] + body);
    assert((seq!['<'] + body).skip(1) =~= body);
    lemma_runs_of_joined(names);
}

// ---------------------------------------------------------------------------
// Literal classification and statement boundaries
// ---------------------------------------------------------------------------

/// The intrinsic type name of a literal expression, or `None` for any
/// non-literal shape.
pub fn match_expression_to_typename_str(expr: &Expression) -> (r: Option<&'static str>)
    ensures
        match r {
            Some(t) => literal_type_name(expr@) == Some(t@),
            None => literal_type_name(expr@) is None,
        },
{
    match expr {
        Expression::BOOLEAN(_) => Some("bool"),
        Expression::INTVAL(_) => Some("int"),
        Expression::FLTVAL(_) => Some("float"),
        Expression::STRINGVAL(_) => Some("string"),
        _ => None,
    }
}

/// The indices of the semicolon tokens, in order.
pub open spec fn semicolon_indices(ts: Seq<TokV>) -> Seq<int>
    decreases ts.len(),
{
    if ts.len() == 0 {
        Seq::empty()
    } else {
        semicolon_indices(ts.drop_last()) + if ts.last() is SEMICOLON {
            seq![ts.len() - 1]
        } else {
            Seq::empty()
        }
    }
}

/// Finds the semicolons: the indices at which a statement ends.
pub fn expr_boundaries(tokens: &Vec<Token>) -> (r: Vec<usize>)
    ensures
        r@.map_values(|u: usize| u as int) == semicolon_indices(tok_views(tokens@)),
{
    let ghost ts = tok_views(tokens@);
    let n = tokens.len();
    let mut out: Vec<usize> = Vec::new();
    let mut i: usize = 0;
    proof {
        assert(out@.map_values(|u: usize| u as int) =~= semicolon_indices(ts.take(0)));
    }
    while i < n
        invariant
            n == tokens@.len(),
            ts == tok_views(tokens@),
            i <= n,
            out@.map_values(|u: usize| u as int) == semicolon_indices(ts.take(i as int)),
        decreases n - i,
    {
        proof {
            assert(ts.take(i + 1).drop_last() =~= ts.take(i as int));
            assert(ts.take(i + 1).last() == tokens@[i as int]@);
        }
        let semi = match &tokens[i] {
            Token::SEMICOLON => true,
            _ => false,
        };
        if semi {
            let ghost before = out@;
            out.push(i);
            proof {
                assert(out@.map_values(|u: usize| u as int) =~= before.map_values(
                    |u: usize| u as int,
                ) + seq![i as int]);
            }
        } else {
            proof {
                assert(semicolon_indices(ts.take(i + 1)) =~= semicolon_indices(ts.take(i as int))
                    + Seq::<int>::empty());
            }
        }
        i = i + 1;
    }
    proof {
        assert(ts.take(n as int) =~= ts);
    }
    out
}

} // verus!
