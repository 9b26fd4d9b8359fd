use crate::ast::{span_of, ExprAst, Identifier, Locatable, Position, Span, StmtAst, StmtModel, Token};
use vstd::prelude::*;

verus! {

/// Why a line of tokens is not a statement, and where.
#[derive(Clone, Copy, Debug, PartialEq, Eq, Structural)]
pub enum SyntaxError {
    /// The line holds no token at all.
    NoTokensFound,
    /// A token stands where the grammar allows none.
    UnexpectedToken(Span),
    /// The line ends where a token is required; the position is the end of the last token.
    UnexpectedEndOfLine(Position),
    /// `=` was required.
    ExpectedEquals(Span),
    /// A statement must start with an identifier.
    ExpectedIdentifier(Span),
    /// An expression was required.
    ExpectedExpression(Span),
}

/// The reserved word that opens a variable declaration.
pub open spec fn var_keyword() -> Seq<char> {
    seq!['V', 'A', 'R']
}

/// The expression that the token at `i` stands for, if it is one.
pub open spec fn expr_at(ts: Seq<Token>, i: int) -> Option<ExprAst> {
    if 0 <= i < ts.len() {
        match ts[i] {
            Token::StrLit(lit) => Some(ExprAst::StrLit(lit)),
            Token::Ident(id) => Some(ExprAst::Ident(id)),
            _ => None,
        }
    } else {
        None
    }
}

/// The error for a missing expression at `i`, where `i > 0`.
pub open spec fn expr_error(ts: Seq<Token>, i: int) -> SyntaxError {
    if i < ts.len() {
        SyntaxError::ExpectedExpression(span_of(ts[i]))
    } else {
        SyntaxError::UnexpectedEndOfLine(span_of(ts[i - 1]).end)
    }
}

/// The arguments that follow an argument ending just before `i`, and the
/// index of the first token that the list leaves over. A comma that no
/// expression follows ends the list and is dropped.
pub open spec fn rest_args(ts: Seq<Token>, i: int) -> (Seq<ExprAst>, int)
    decreases ts.len() - i,
{
    if 0 <= i < ts.len() && ts[i] is Comma {
        match expr_at(ts, i + 1) {
            Some(e) => {
                let (more, end) = rest_args(ts, i + 2);
                (seq![e] + more, end)
            },
            None => (Seq::empty(), i + 1),
        }
    } else {
        (Seq::empty(), i)
    }
}

/// Success with `s` when the statement ran to the end of the line (`end` is
/// past the last token); otherwise the error for the token at `end`, the first
/// one left over.
pub open spec fn finish(ts: Seq<Token>, end: int, s: StmtModel) -> Result<StmtModel, SyntaxError> {
    if end < ts.len() {
        Err(SyntaxError::UnexpectedToken(span_of(ts[end])))
    } else {
        Ok(s)
    }
}

/// What a whole line of tokens parses to.
pub open spec fn parse_spec(ts: Seq<Token>) -> Result<StmtModel, SyntaxError> {
    if ts.len() == 0 {
        Err(SyntaxError::NoTokensFound)
    } else {
        match ts[0] {
            Token::Ident(head) => {
                if head.name@ == var_keyword() {
                    if ts.len() == 1 {
                        Err(SyntaxError::UnexpectedEndOfLine(head.span.end))
                    } else {
                        match ts[1] {
                            Token::Ident(target) => {
                                if ts.len() == 2 {
                                    Err(SyntaxError::UnexpectedEndOfLine(target.span.end))
                                } else if ts[2] is Equal {
                                    match expr_at(ts, 3) {
                                        Some(e) => finish(ts, 4, StmtModel::VarDecl(target, e)),
                                        None => Err(expr_error(ts, 3)),
                                    }
                                } else {
                                    Err(SyntaxError::ExpectedEquals(span_of(ts[2])))
                                }
                            },
                            _ => Err(SyntaxError::UnexpectedToken(span_of(ts[1]))),
                        }
                    }
                } else {
                    match expr_at(ts, 1) {
                        Some(e) => {
                            let (more, end) = rest_args(ts, 2);
                            finish(ts, end, StmtModel::ProcCall(head, seq![e] + more))
                        },
                        None => Err(expr_error(ts, 1)),
                    }
                }
            },
            _ => Err(SyntaxError::ExpectedIdentifier(span_of(ts[0]))),
        }
    }
}

/// Whether a token can stand as an expression on its own.
pub open spec fn is_expr_token(t: Token) -> bool {
    t is Ident || t is StrLit
}

/// The expression that an expression token stands for.
pub open spec fn expr_of(t: Token) -> ExprAst {
    match t {
        Token::StrLit(lit) => ExprAst::StrLit(lit),
        Token::Ident(id) => ExprAst::Ident(id),
        _ => arbitrary(),
    }
}

/// The tokens `, e1 , e2 ...` for the given commas and expression tokens.
pub open spec fn comma_list(more: Seq<(Span, Token)>) -> Seq<Token>
    decreases more.len(),
{
    if more.len() == 0 {
        Seq::empty()
    } else {
        seq![Token::Comma(more[0].0), more[0].1] + comma_list(more.drop_first())
    }
}

/// A declaration `VAR name = value`, where the value is a string literal or a
/// name, parses to exactly that declaration.
pub proof fn lemma_var_decl_parses(keyword: Identifier, target: Identifier, equal: Span, init: Token)
    requires
        keyword.name@ == var_keyword(),
        is_expr_token(init),
    ensures
        parse_spec(seq![Token::Ident(keyword), Token::Ident(target), Token::Equal(equal), init])
            == Ok::<StmtModel, SyntaxError>(StmtModel::VarDecl(target, expr_of(init))),
{
}

proof fn lemma_comma_list_shape(more: Seq<(Span, Token)>)
    ensures
        comma_list(more).len() == 2 * more.len(),
    decreases more.len(),
{
    if more.len() > 0 {
        lemma_comma_list_shape(more.drop_first());
    }
}

proof fn lemma_rest_args_of_list(ts: Seq<Token>, i: int, more: Seq<(Span, Token)>)
    requires
        0 <= i <= ts.len(),
        ts.subrange(i, ts.len() as int) == comma_list(more),
        forall|k: int| 0 <= k < more.len() ==> is_expr_token(#[trigger] more[k].1),
    ensures
        rest_args(ts, i) == (more.map_values(|p: (Span, Token)| expr_of(p.1)), ts.len() as int),
    decreases more.len(),
{
    lemma_comma_list_shape(more);
    let exprs = more.map_values(|p: (Span, Token)| expr_of(p.1));
    if more.len() == 0 {
        assert(exprs =~= Seq::<ExprAst>::empty());
    } else {
        let tail = more.drop_first();
        lemma_comma_list_shape(tail);
        assert(ts[i] == comma_list(more)[0]);
        assert(ts[i + 1] == comma_list(more)[1]);
        assert(is_expr_token(more[0].1));
        assert(ts.subrange(i + 2, ts.len() as int) =~= comma_list(tail)) by {
            assert(ts.subrange(i + 2, ts.len() as int) =~= comma_list(more).subrange(2, comma_list(more).len() as int));
        }
        assert forall|k: int| 0 <= k < tail.len() implies is_expr_token(#[trigger] tail[k].1) by {
            assert(tail[k] == more[k + 1]);
        }
        lemma_rest_args_of_list(ts, i + 2, tail);
        assert(exprs =~= seq![expr_of(more[0].1)] + tail.map_values(|p: (Span, Token)| expr_of(p.1)));
    }
}

/// A call `callee e0 , e1 , ...` whose callee is not the keyword and whose
/// arguments are string literals or names parses to a call with exactly
/// those arguments, in the same order.
pub proof fn lemma_proc_call_parses(callee: Identifier, first: Token, more: Seq<(Span, Token)>)
    requires
        callee.name@ != var_keyword(),
        is_expr_token(first),
        forall|k: int| 0 <= k < more.len() ==> is_expr_token(#[trigger] more[k].1),
    ensures
        parse_spec(seq![Token::Ident(callee), first] + comma_list(more)) == Ok::<
            StmtModel,
            SyntaxError,
        >(
            StmtModel::ProcCall(
                callee,
                seq![expr_of(first)] + more.map_values(|p: (Span, Token)| expr_of(p.1)),
            ),
        ),
{
    let ts = seq![Token::Ident(callee), first] + comma_list(more);
    assert(ts.subrange(2, ts.len() as int) =~= comma_list(more));
    lemma_rest_args_of_list(ts, 2, more);
    assert(ts[0] == Token::Ident(callee));
    assert(ts[1] == first);
}

/// Parsing has no hidden state: any two results that `parse` may give for
/// the same tokens are the same statement or the same error.
pub proof fn lemma_parse_repeatable(
    tokens: Seq<Token>,
    first: Result<StmtAst, SyntaxError>,
    second: Result<StmtAst, SyntaxError>,
)
    requires
        result_view(first) == parse_spec(tokens),
        result_view(second) == parse_spec(tokens),
    ensures
        result_view(first) == result_view(second),
{
}

/// The view of a parse result.
pub open spec fn result_view(r: Result<StmtAst, SyntaxError>) -> Result<StmtModel, SyntaxError> {
    match r {
        Ok(s) => Ok(s@),
        Err(e) => Err(e),
    }
}

proof fn lemma_rest_args_bounds(ts: Seq<Token>, i: int)
    requires
        0 <= i <= ts.len(),
    ensures
        i <= rest_args(ts, i).1 <= ts.len(),
    decreases ts.len() - i,
{
    if 0 <= i < ts.len() && ts[i] is Comma {
        if expr_at(ts, i + 1) is Some {
            lemma_rest_args_bounds(ts, i + 2);
        }
    }
}

fn is_var_keyword(name: &String) -> (r: bool)
    ensures
        r == (name@ == var_keyword()),
{
    let keyword = "VAR".to_owned();
    proof {
        reveal_strlit("VAR");
        assert(keyword@ =~= var_keyword());
    }
    *name == keyword
}

/// Parses the single expression at `pos`.
fn parse_expr(tokens: &[Token], pos: usize) -> (r: Result<(ExprAst, usize), SyntaxError>)
    requires
        0 < pos <= tokens@.len(),
    ensures
        match r {
            Ok((e, next)) => expr_at(tokens@, pos as int) == Some(e) && next == pos + 1,
            Err(err) => expr_at(tokens@, pos as int) is None && err == expr_error(
                tokens@,
                pos as int,
            ),
        },
{
    if pos < tokens.len() {
        match &tokens[pos] {
            Token::StrLit(lit) => Ok((ExprAst::StrLit(lit.duplicate()), pos + 1)),
            Token::Ident(id) => Ok((ExprAst::Ident(id.duplicate()), pos + 1)),
            other => Err(SyntaxError::ExpectedExpression(other.locate())),
        }
    } else {
        Err(SyntaxError::UnexpectedEndOfLine(tokens[pos - 1].locate().end))
    }
}

/// Parses a non-empty, comma-separated list of expressions starting at `pos`.
fn parse_argument_list(tokens: &[Token], pos: usize) -> (r: Result<(Vec<ExprAst>, usize), SyntaxError>)
    requires
        0 < pos <= tokens@.len(),
    ensures
        match r {
            Ok((args, end)) => {
                &&& expr_at(tokens@, pos as int) is Some
                &&& args@ == seq![expr_at(tokens@, pos as int)->0] + rest_args(
                    tokens@,
                    pos + 1,
                ).0
                &&& end == rest_args(tokens@, pos + 1).1
            },
            Err(err) => expr_at(tokens@, pos as int) is None && err == expr_error(
                tokens@,
                pos as int,
            ),
        },
{
    let ghost ts = tokens@;
    let (first, after) = parse_expr(tokens, pos)?;
    let mut args: Vec<ExprAst> = Vec::new();
    args.push(first);
    let mut cur: usize = after;
    loop
        invariant_except_break
            pos < cur <= ts.len(),
            seq![first] + rest_args(ts, pos + 1).0 == args@ + rest_args(ts, cur as int).0,
            rest_args(ts, pos + 1).1 == rest_args(ts, cur as int).1,
        invariant
            ts == tokens@,
        ensures
            args@ == seq![first] + rest_args(ts, pos + 1).0,
            cur == rest_args(ts, pos + 1).1,
        decreases ts.len() - cur,
    {
        let is_comma = cur < tokens.len() && match &tokens[cur] {
            Token::Comma(_) => true,
            _ => false,
        };
        if !is_comma {
            assert(args@ + rest_args(ts, cur as int).0 =~= args@);
            break;
        }
        match parse_expr(tokens, cur + 1) {
            Ok((arg, next)) => {
                let ghost old_args = args@;
                let ghost more = rest_args(ts, next as int).0;
                args.push(arg);
                assert(old_args + (seq![arg] + more) =~= args@ + more);
            },
            Err(_) => {
                assert(args@ + rest_args(ts, cur as int).0 =~= args@);
                cur = cur + 1;
                break;
            },
        }
        cur = cur + 2;
    }
    Ok((args, cur))
}

/// Parses a procedure call whose callee is the first token.
fn parse_proc_call(callee: &Identifier, tokens: &[Token]) -> (r: Result<(StmtAst, usize), SyntaxError>)
    requires
        0 < tokens@.len(),
    ensures
        match r {
            Ok((s, end)) => {
                &&& expr_at(tokens@, 1) is Some
                &&& s@ == StmtModel::ProcCall(
                    *callee,
                    seq![expr_at(tokens@, 1)->0] + rest_args(tokens@, 2).0,
                )
                &&& end == rest_args(tokens@, 2).1
            },
            Err(err) => expr_at(tokens@, 1) is None && err == expr_error(tokens@, 1),
        },
{
    let (args, rest) = parse_argument_list(tokens, 1)?;
    Ok((StmtAst::ProcCall(callee.duplicate(), args), rest))
}

/// Parses one whole line of tokens into a statement.
pub fn parse(tokens: &[Token]) -> (r: Result<StmtAst, SyntaxError>)
    ensures
        result_view(r) == parse_spec(tokens@),
{
    let ghost ts = tokens@;
    if tokens.len() == 0 {
        return Err(SyntaxError::NoTokensFound);
    }
    match &tokens[0] {
        Token::Ident(head) => {
            if is_var_keyword(&head.name) {
                if tokens.len() == 1 {
                    return Err(SyntaxError::UnexpectedEndOfLine(head.locate().end));
                }
                match &tokens[1] {
                    Token::Ident(target) => {
                        if tokens.len() == 2 {
                            return Err(SyntaxError::UnexpectedEndOfLine(target.locate().end));
                        }
                        match &tokens[2] {
                            Token::Equal(_) => {
                                let (init, rest) = parse_expr(tokens, 3)?;
                                if rest < tokens.len() {
                                    Err(SyntaxError::UnexpectedToken(tokens[rest].locate()))
                                } else {
                                    Ok(StmtAst::VarDecl(target.duplicate(), init))
                                }
                            },
                            other => Err(SyntaxError::ExpectedEquals(other.locate())),
                        }
                    },
                    other => Err(SyntaxError::UnexpectedToken(other.locate())),
                }
            } else {
                let (stmt, rest) = parse_proc_call(head, tokens)?;
                proof {
                    lemma_rest_args_bounds(ts, 2);
                }
                if rest < tokens.len() {
                    Err(SyntaxError::UnexpectedToken(tokens[rest].locate()))
                } else {
                    Ok(stmt)
                }
            }
        },
        other => Err(SyntaxError::ExpectedIdentifier(other.locate())),
    }
}

} // verus!
