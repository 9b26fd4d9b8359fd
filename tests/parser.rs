use compiler::{parse, ExprAst, Identifier, Locatable, Position, Span, StmtAst, StringLiteral, SyntaxError, Token};

fn span(line: usize, start: usize, end: usize) -> Span {
    Span {
        start: Position { line, column: start },
        end: Position { line, column: end },
    }
}

fn ident(name: &str, sp: Span) -> Token {
    Token::Ident(Identifier::new(name, sp))
}

fn strlit(value: &str, sp: Span) -> Token {
    Token::StrLit(StringLiteral::new(value, sp))
}

fn var_x_hi() -> Vec<Token> {
    vec![
        ident("VAR", span(1, 1, 4)),
        ident("x", span(1, 5, 6)),
        Token::Equal(span(1, 7, 8)),
        strlit("hi", span(1, 9, 13)),
    ]
}

#[test]
fn var_decl_with_string_literal() {
    let result = parse(&var_x_hi());
    assert_eq!(
        result,
        Ok(StmtAst::VarDecl(
            Identifier::new("x", span(1, 5, 6)),
            ExprAst::StrLit(StringLiteral::new("hi", span(1, 9, 13)))
        ))
    );
}

#[test]
fn var_decl_with_identifier() {
    let tokens = vec![
        ident("VAR", span(2, 1, 4)),
        ident("y", span(2, 5, 6)),
        Token::Equal(span(2, 7, 8)),
        ident("x", span(2, 9, 10)),
    ];
    let result = parse(&tokens);
    assert_eq!(
        result,
        Ok(StmtAst::VarDecl(
            Identifier::new("y", span(2, 5, 6)),
            ExprAst::Ident(Identifier::new("x", span(2, 9, 10)))
        ))
    );
}

#[test]
fn declared_name_keeps_its_location() {
    match parse(&var_x_hi()) {
        Ok(StmtAst::VarDecl(target, _)) => {
            assert_eq!(target.name, "x");
            assert_eq!(target.locate(), span(1, 5, 6));
        }
        other => panic!("unexpected result {:?}", other),
    }
}

#[test]
fn proc_call_keeps_argument_order() {
    let tokens = vec![
        ident("print", span(1, 1, 6)),
        ident("a", span(1, 7, 8)),
        Token::Comma(span(1, 8, 9)),
        strlit("b", span(1, 10, 13)),
        Token::Comma(span(1, 13, 14)),
        ident("c", span(1, 15, 16)),
    ];
    let result = parse(&tokens);
    assert_eq!(
        result,
        Ok(StmtAst::ProcCall(
            Identifier::new("print", span(1, 1, 6)),
            vec![
                ExprAst::Ident(Identifier::new("a", span(1, 7, 8))),
                ExprAst::StrLit(StringLiteral::new("b", span(1, 10, 13))),
                ExprAst::Ident(Identifier::new("c", span(1, 15, 16))),
            ]
        ))
    );
}

#[test]
fn proc_call_with_one_argument() {
    let tokens = vec![ident("puts", span(1, 1, 5)), strlit("hello", span(1, 6, 13))];
    let result = parse(&tokens);
    assert_eq!(
        result,
        Ok(StmtAst::ProcCall(
            Identifier::new("puts", span(1, 1, 5)),
            vec![ExprAst::StrLit(StringLiteral::new("hello", span(1, 6, 13)))]
        ))
    );
}

#[test]
fn trailing_comma_ends_the_argument_list() {
    let tokens = vec![
        ident("f", span(1, 1, 2)),
        ident("a", span(1, 3, 4)),
        Token::Comma(span(1, 4, 5)),
    ];
    let result = parse(&tokens);
    assert_eq!(
        result,
        Ok(StmtAst::ProcCall(
            Identifier::new("f", span(1, 1, 2)),
            vec![ExprAst::Ident(Identifier::new("a", span(1, 3, 4)))]
        ))
    );
}

#[test]
fn comma_followed_by_non_expression_leaves_that_token() {
    let tokens = vec![
        ident("f", span(1, 1, 2)),
        ident("a", span(1, 3, 4)),
        Token::Comma(span(1, 4, 5)),
        Token::Equal(span(1, 6, 7)),
    ];
    assert_eq!(parse(&tokens), Err(SyntaxError::UnexpectedToken(span(1, 6, 7))));
}

#[test]
fn reparsing_gives_the_same_tree() {
    let tokens = var_x_hi();
    let first = parse(&tokens);
    let second = parse(&tokens);
    assert_eq!(first, second);
    let call = vec![ident("f", span(1, 1, 2)), ident("a", span(1, 3, 4))];
    assert_eq!(parse(&call), parse(&call));
}

#[test]
fn empty_line_has_no_tokens() {
    assert_eq!(parse(&[]), Err(SyntaxError::NoTokensFound));
}

#[test]
fn keyword_alone_ends_early() {
    let tokens = vec![ident("VAR", span(3, 1, 4))];
    assert_eq!(
        parse(&tokens),
        Err(SyntaxError::UnexpectedEndOfLine(Position { line: 3, column: 4 }))
    );
}

#[test]
fn declaration_without_equals_ends_early() {
    let tokens = vec![ident("VAR", span(1, 1, 4)), ident("x", span(1, 5, 6))];
    assert_eq!(
        parse(&tokens),
        Err(SyntaxError::UnexpectedEndOfLine(Position { line: 1, column: 6 }))
    );
}

#[test]
fn declaration_without_value_ends_early() {
    let tokens = vec![
        ident("VAR", span(1, 1, 4)),
        ident("x", span(1, 5, 6)),
        Token::Equal(span(1, 7, 8)),
    ];
    assert_eq!(
        parse(&tokens),
        Err(SyntaxError::UnexpectedEndOfLine(Position { line: 1, column: 8 }))
    );
}

#[test]
fn declaration_needs_equals() {
    let tokens = vec![
        ident("VAR", span(1, 1, 4)),
        ident("x", span(1, 5, 6)),
        ident("y", span(1, 7, 8)),
    ];
    assert_eq!(parse(&tokens), Err(SyntaxError::ExpectedEquals(span(1, 7, 8))));
}

#[test]
fn declaration_needs_a_name() {
    let tokens = vec![
        ident("VAR", span(1, 1, 4)),
        Token::Equal(span(1, 5, 6)),
        strlit("v", span(1, 7, 10)),
    ];
    assert_eq!(parse(&tokens), Err(SyntaxError::UnexpectedToken(span(1, 5, 6))));
}

#[test]
fn declaration_value_must_be_an_expression() {
    let tokens = vec![
        ident("VAR", span(1, 1, 4)),
        ident("x", span(1, 5, 6)),
        Token::Equal(span(1, 7, 8)),
        Token::Comma(span(1, 9, 10)),
    ];
    assert_eq!(parse(&tokens), Err(SyntaxError::ExpectedExpression(span(1, 9, 10))));
}

#[test]
fn token_after_declaration_is_rejected() {
    let mut tokens = var_x_hi();
    tokens.push(ident("extra", span(1, 14, 19)));
    assert_eq!(parse(&tokens), Err(SyntaxError::UnexpectedToken(span(1, 14, 19))));
}

#[test]
fn token_after_call_is_rejected() {
    let tokens = vec![
        ident("f", span(1, 1, 2)),
        ident("a", span(1, 3, 4)),
        ident("b", span(1, 5, 6)),
    ];
    assert_eq!(parse(&tokens), Err(SyntaxError::UnexpectedToken(span(1, 5, 6))));
}

#[test]
fn line_must_start_with_identifier() {
    let tokens = vec![strlit("x", span(1, 1, 4)), ident("f", span(1, 5, 6))];
    assert_eq!(parse(&tokens), Err(SyntaxError::ExpectedIdentifier(span(1, 1, 4))));
}

#[test]
fn call_without_arguments_ends_early() {
    let tokens = vec![ident("f", span(4, 2, 3))];
    assert_eq!(
        parse(&tokens),
        Err(SyntaxError::UnexpectedEndOfLine(Position { line: 4, column: 3 }))
    );
}

#[test]
fn call_argument_must_be_an_expression() {
    let tokens = vec![ident("f", span(1, 1, 2)), Token::Equal(span(1, 3, 4))];
    assert_eq!(parse(&tokens), Err(SyntaxError::ExpectedExpression(span(1, 3, 4))));
}

#[test]
fn identifiers_compare_by_name() {
    assert_eq!(Identifier::new("x", span(1, 1, 2)), Identifier::new("x", span(9, 3, 4)));
    assert_ne!(Identifier::new("x", span(1, 1, 2)), Identifier::new("y", span(1, 1, 2)));
}

#[test]
fn tokens_report_their_location() {
    assert_eq!(Token::Comma(span(2, 3, 4)).locate(), span(2, 3, 4));
    assert_eq!(strlit("s", span(5, 1, 4)).locate(), span(5, 1, 4));
    assert_eq!(StringLiteral::new("s", span(5, 1, 4)).locate(), span(5, 1, 4));
}

#[test]
fn messages_name_place_and_problem() {
    assert_eq!(SyntaxError::NoTokensFound.message(), "Syntax error: No tokens found");
    assert_eq!(
        SyntaxError::UnexpectedToken(span(1, 14, 19)).message(),
        "Syntax error: (1:14-1:19) Unexpected token"
    );
    assert_eq!(
        SyntaxError::UnexpectedEndOfLine(Position { line: 12, column: 305 }).message(),
        "Syntax error: (12:305) Unexpected end of line"
    );
    assert_eq!(
        SyntaxError::ExpectedEquals(span(1, 7, 8)).message(),
        "Syntax error: (1:7-1:8) Expected `=`"
    );
    assert_eq!(
        SyntaxError::ExpectedIdentifier(span(10, 0, 4)).message(),
        "Syntax error: (10:0-10:4) Expected identifier"
    );
    assert_eq!(
        SyntaxError::ExpectedExpression(span(7, 100, 1009)).message(),
        "Syntax error: (7:100-7:1009) Expected expression"
    );
}
