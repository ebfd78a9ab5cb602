use lbr_compiler::ast::FrontendError;
use lbr_compiler::lexer::{LexError, Token, Tokenizer};
use lbr_compiler::parser::{
    parse, ASTBuilder, Expression, Ident, Mutability, Operator, Statement, SyntaxError,
    TokenKind, AST,
};

fn program(source: &str) -> Result<AST, FrontendError> {
    AST::new(source)
}

fn id(name: &str) -> Ident {
    Ident { name: name.to_string() }
}

fn num(digits: &str) -> Expression {
    Expression::NumberLiteral { val: digits.to_string() }
}

fn var(name: &str) -> Expression {
    Expression::Identifier { ident: id(name) }
}

fn bin(lhs: Expression, operator: Operator, rhs: Expression) -> Expression {
    Expression::BinaryExpr { lhs: Box::new(lhs), operator, rhs: Box::new(rhs) }
}

fn syntax(source: &str) -> SyntaxError {
    match program(source) {
        Err(FrontendError::Syntax(e)) => e,
        other => panic!("expected a syntax error, got {:?}", other),
    }
}

#[test]
fn build_ast() {
    let mut ast_b = ASTBuilder::new(vec![Token::EndOfFile]);
    let _ = ast_b.get_ast();
    assert_eq!(true, true);
}

#[test]
fn empty_token_list_is_empty_program() {
    let mut builder = ASTBuilder::new(vec![Token::EndOfFile]);
    assert_eq!(builder.get_ast(), Ok(AST { statements: vec![] }));
    assert_eq!(parse(vec![]), Ok(AST { statements: vec![] }));
}

#[test]
fn value_declaration() {
    let ast = program("val a = 1;").unwrap();
    assert_eq!(
        ast.statements,
        vec![Statement::Declaration { mutability: Mutability::Value, ident: id("a"), value: num("1") }]
    );
}

#[test]
fn variable_and_constant_declarations() {
    let ast = program("var x = y; const k = 7;").unwrap();
    assert_eq!(
        ast.statements,
        vec![
            Statement::Declaration { mutability: Mutability::Variable, ident: id("x"), value: var("y") },
            Statement::Declaration { mutability: Mutability::Constant, ident: id("k"), value: num("7") },
        ]
    );
}

#[test]
fn subtraction_is_left_associative() {
    let ast = program("8 - 4 - 2;").unwrap();
    let expected = bin(bin(num("8"), Operator::Minus, num("4")), Operator::Minus, num("2"));
    assert_eq!(ast.statements, vec![Statement::Expression(expected)]);
}

#[test]
fn multiplication_binds_tighter() {
    let ast = program("2 + 3 * 4;").unwrap();
    let expected = bin(num("2"), Operator::Plus, bin(num("3"), Operator::Multiply, num("4")));
    assert_eq!(ast.statements, vec![Statement::Expression(expected)]);
    let ast = program("2 * 3 + 4 / 5;").unwrap();
    let expected = bin(
        bin(num("2"), Operator::Multiply, num("3")),
        Operator::Plus,
        bin(num("4"), Operator::Divide, num("5")),
    );
    assert_eq!(ast.statements, vec![Statement::Expression(expected)]);
}

#[test]
fn parentheses_group() {
    let ast = program("(2 + 3) * 4;").unwrap();
    let expected = bin(bin(num("2"), Operator::Plus, num("3")), Operator::Multiply, num("4"));
    assert_eq!(ast.statements, vec![Statement::Expression(expected)]);
    let ast = program("8 - (4 - 2);").unwrap();
    let expected = bin(num("8"), Operator::Minus, bin(num("4"), Operator::Minus, num("2")));
    assert_eq!(ast.statements, vec![Statement::Expression(expected)]);
}

#[test]
fn unary_minus() {
    let ast = program("-a * 2;").unwrap();
    let neg = Expression::UnaryExpr { term: Box::new(var("a")), operator: Some(Operator::Minus) };
    let expected = bin(neg, Operator::Multiply, num("2"));
    assert_eq!(ast.statements, vec![Statement::Expression(expected)]);
}

#[test]
fn function_call_with_two_arguments() {
    let ast = program("escreval(a, b);").unwrap();
    assert_eq!(
        ast.statements,
        vec![Statement::FunctionCall { func_ident: id("escreval"), args: vec![var("a"), var("b")] }]
    );
}

#[test]
fn function_call_without_arguments() {
    let ast = program("f();").unwrap();
    assert_eq!(
        ast.statements,
        vec![Statement::FunctionCall { func_ident: id("f"), args: vec![] }]
    );
}

#[test]
fn assignment_statement() {
    let ast = program("x = x + 1;").unwrap();
    assert_eq!(
        ast.statements,
        vec![Statement::Assignment { ident: id("x"), value: bin(var("x"), Operator::Plus, num("1")) }]
    );
}

#[test]
fn statements_keep_their_order() {
    let ast = program("val a = 1;\nval b = 2;\nescreval(a + b);\n").unwrap();
    assert_eq!(
        ast.statements,
        vec![
            Statement::Declaration { mutability: Mutability::Value, ident: id("a"), value: num("1") },
            Statement::Declaration { mutability: Mutability::Value, ident: id("b"), value: num("2") },
            Statement::FunctionCall {
                func_ident: id("escreval"),
                args: vec![bin(var("a"), Operator::Plus, var("b"))],
            },
        ]
    );
}

#[test]
fn declaration_without_name() {
    assert_eq!(
        syntax("val = 1;"),
        SyntaxError::ExpectedToken { expected: TokenKind::Identifier, found: Token::Assign }
    );
}

#[test]
fn declaration_without_assign() {
    assert_eq!(
        syntax("val a 1;"),
        SyntaxError::ExpectedToken {
            expected: TokenKind::Assign,
            found: Token::NumberLiteral("1".to_string()),
        }
    );
}

#[test]
fn missing_semicolon() {
    assert_eq!(
        syntax("val a = 1"),
        SyntaxError::ExpectedToken { expected: TokenKind::Semicolon, found: Token::EndOfFile }
    );
    assert_eq!(
        syntax("a b;"),
        SyntaxError::ExpectedToken {
            expected: TokenKind::Semicolon,
            found: Token::Ident("b".to_string()),
        }
    );
}

#[test]
fn missing_close_paren() {
    assert_eq!(
        syntax("(1 + 2;"),
        SyntaxError::ExpectedToken { expected: TokenKind::CloseParen, found: Token::Semicolon }
    );
    assert_eq!(
        syntax("f(a b);"),
        SyntaxError::ExpectedToken {
            expected: TokenKind::CloseParen,
            found: Token::Ident("b".to_string()),
        }
    );
}

#[test]
fn unexpected_token_and_end() {
    assert_eq!(syntax(";"), SyntaxError::UnexpectedToken(Token::Semicolon));
    assert_eq!(syntax("1 +"), SyntaxError::UnexpectedEndOfInput);
}

#[test]
fn lex_error_comes_before_parsing() {
    assert_eq!(program("val a = @;"), Err(FrontendError::Lex(LexError::UnexpectedCharacter(b'@'))));
}

#[test]
fn builder_statement_by_statement() {
    let tokens = Tokenizer::new("val a = 1; f(a);".to_string()).tokens().unwrap();
    let mut builder = ASTBuilder::new(tokens);
    assert_eq!(
        builder.get_statement(),
        Ok(Statement::Declaration { mutability: Mutability::Value, ident: id("a"), value: num("1") })
    );
    assert_eq!(
        builder.get_statement(),
        Ok(Statement::FunctionCall { func_ident: id("f"), args: vec![var("a")] })
    );
    assert_eq!(builder.get_ast(), Ok(AST { statements: vec![] }));
}

#[test]
fn builder_stops_at_end_of_input() {
    let tokens = Tokenizer::new("1; 2;".to_string()).tokens().unwrap();
    let mut builder = ASTBuilder::new(tokens);
    let ast = builder.get_ast().unwrap();
    assert_eq!(ast.statements.len(), 2);
    assert_eq!(builder.get_ast(), Ok(AST { statements: vec![] }));
    assert_eq!(builder.get_statement(), Err(SyntaxError::UnexpectedEndOfInput));
}
