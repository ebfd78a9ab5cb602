use vstd::prelude::*;

pub use crate::ast::{AST, Expression, Ident, Mutability, Operator, Statement, StatementView};
use crate::lexer::Token;

verus! {

/// The kind of token a parse step was waiting for.
#[derive(Clone, Copy, Debug, PartialEq, Eq, Hash)]
pub enum TokenKind {
    Identifier,
    Assign,
    Semicolon,
    CloseParen,
}

/// Why a token sequence is not a program.
#[derive(Clone, Debug, PartialEq, Eq, Hash)]
pub enum SyntaxError {
    ExpectedToken { expected: TokenKind, found: Token },
    UnexpectedToken(Token),
    UnexpectedEndOfInput,
}

/// The token at position `i`; past the end, the end of input.
pub open spec fn tok_at(t: Seq<Token>, i: int) -> Token {
    if 0 <= i < t.len() {
        t[i]
    } else {
        Token::EndOfFile
    }
}

/// How many tokens are left from position `i` on.
pub open spec fn remaining(t: Seq<Token>, i: int) -> nat {
    if i < t.len() {
        (t.len() - i) as nat
    } else {
        0
    }
}

pub open spec fn additive_op(t: Token) -> Option<Operator> {
    match t {
        Token::Plus => Some(Operator::Plus),
        Token::Minus => Some(Operator::Minus),
        _ => None,
    }
}

pub open spec fn multiplicative_op(t: Token) -> Option<Operator> {
    match t {
        Token::Star => Some(Operator::Multiply),
        Token::Slash => Some(Operator::Divide),
        _ => None,
    }
}

/// Expression `+`/`-` level: products joined left to right.  Each parse
/// function gives the node and the number of tokens it consumed.
pub open spec fn parse_sum(t: Seq<Token>, i: int) -> Result<(Expression, nat), SyntaxError>
    decreases remaining(t, i), 5nat,
{
    match parse_product(t, i) {
        Err(e) => Err(e),
        Ok((lhs, n)) => match sum_rest(t, i + n, lhs) {
            Err(e) => Err(e),
            Ok((e, m)) => Ok((e, n + m)),
        },
    }
}

/// Folds `(+|-) product` pairs from position `i` onto `lhs`.
pub open spec fn sum_rest(t: Seq<Token>, i: int, lhs: Expression) -> Result<
    (Expression, nat),
    SyntaxError,
>
    decreases remaining(t, i), 4nat,
{
    match additive_op(tok_at(t, i)) {
        None => Ok((lhs, 0)),
        Some(op) => match parse_product(t, i + 1) {
            Err(e) => Err(e),
            Ok((rhs, n)) => {
                let folded = Expression::BinaryExpr {
                    lhs: Box::new(lhs),
                    operator: op,
                    rhs: Box::new(rhs),
                };
                match sum_rest(t, i + 1 + n, folded) {
                    Err(e) => Err(e),
                    Ok((e, m)) => Ok((e, 1 + n + m)),
                }
            },
        },
    }
}

/// Expression `*`/`/` level: unary terms joined left to right.
pub open spec fn parse_product(t: Seq<Token>, i: int) -> Result<(Expression, nat), SyntaxError>
    decreases remaining(t, i), 3nat,
{
    match parse_unary(t, i) {
        Err(e) => Err(e),
        Ok((lhs, n)) => match product_rest(t, i + n, lhs) {
            Err(e) => Err(e),
            Ok((e, m)) => Ok((e, n + m)),
        },
    }
}

/// Folds `(*|/) unary` pairs from position `i` onto `lhs`.
pub open spec fn product_rest(t: Seq<Token>, i: int, lhs: Expression) -> Result<
    (Expression, nat),
    SyntaxError,
>
    decreases remaining(t, i), 2nat,
{
    match multiplicative_op(tok_at(t, i)) {
        None => Ok((lhs, 0)),
        Some(op) => match parse_unary(t, i + 1) {
            Err(e) => Err(e),
            Ok((rhs, n)) => {
                let folded = Expression::BinaryExpr {
                    lhs: Box::new(lhs),
                    operator: op,
                    rhs: Box::new(rhs),
                };
                match product_rest(t, i + 1 + n, folded) {
                    Err(e) => Err(e),
                    Ok((e, m)) => Ok((e, 1 + n + m)),
                }
            },
        },
    }
}

/// A term, or `-` before a unary expression.
pub open spec fn parse_unary(t: Seq<Token>, i: int) -> Result<(Expression, nat), SyntaxError>
    decreases remaining(t, i), 1nat,
{
    if tok_at(t, i) is Minus {
        match parse_unary(t, i + 1) {
            Err(e) => Err(e),
            Ok((e, n)) => Ok(
                (Expression::UnaryExpr { term: Box::new(e), operator: Some(Operator::Minus) }, n
                    + 1),
            ),
        }
    } else {
        parse_term(t, i)
    }
}

/// A number, a name, or an expression in parentheses.
pub open spec fn parse_term(t: Seq<Token>, i: int) -> Result<(Expression, nat), SyntaxError>
    decreases remaining(t, i), 0nat,
{
    match tok_at(t, i) {
        Token::NumberLiteral(v) => Ok((Expression::NumberLiteral { val: v }, 1)),
        Token::Ident(name) => Ok((Expression::Identifier { ident: Ident { name } }, 1)),
        Token::OpenParen => match parse_sum(t, i + 1) {
            Err(e) => Err(e),
            Ok((e, n)) => if tok_at(t, i + 1 + n) is CloseParen {
                Ok((e, n + 2))
            } else {
                Err(
                    SyntaxError::ExpectedToken {
                        expected: TokenKind::CloseParen,
                        found: tok_at(t, i + 1 + n),
                    },
                )
            },
        },
        Token::EndOfFile => Err(SyntaxError::UnexpectedEndOfInput),
        other => Err(SyntaxError::UnexpectedToken(other)),
    }
}


pub open spec fn mutability_of(t: Token) -> Option<Mutability> {
    match t {
        Token::Const => Some(Mutability::Constant),
        Token::Val => Some(Mutability::Value),
        Token::Var => Some(Mutability::Variable),
        _ => None,
    }
}

/// `val|var|const name = expression`, the keyword being at `i`.
pub open spec fn parse_declaration(t: Seq<Token>, i: int, m: Mutability) -> Result<
    (StatementView, nat),
    SyntaxError,
> {
    match tok_at(t, i + 1) {
        Token::Ident(name) => if tok_at(t, i + 2) is Assign {
            match parse_sum(t, i + 3) {
                Err(e) => Err(e),
                Ok((value, n)) => Ok(
                    (
                        StatementView::Declaration { mutability: m, ident: Ident { name }, value },
                        n + 3,
                    ),
                ),
            }
        } else {
            Err(SyntaxError::ExpectedToken { expected: TokenKind::Assign, found: tok_at(t, i + 2) })
        },
        other => Err(SyntaxError::ExpectedToken { expected: TokenKind::Identifier, found: other }),
    }
}

/// The arguments of a call from position `i` on, through the closing
/// parenthesis.
pub open spec fn parse_args(t: Seq<Token>, i: int) -> Result<(Seq<Expression>, nat), SyntaxError>
    decreases remaining(t, i),
{
    match parse_sum(t, i) {
        Err(e) => Err(e),
        Ok((e, n)) => match tok_at(t, i + n) {
            Token::Comma => match parse_args(t, i + n + 1) {
                Err(err) => Err(err),
                Ok((es, m)) => Ok((seq![e] + es, n + 1 + m)),
            },
            Token::CloseParen => Ok((seq![e], n + 1)),
            other => Err(
                SyntaxError::ExpectedToken { expected: TokenKind::CloseParen, found: other },
            ),
        },
    }
}

/// One statement without its `;`, dispatched on the token at `i` (and, for a
/// name, the one after it).
pub open spec fn parse_statement_body(t: Seq<Token>, i: int) -> Result<
    (StatementView, nat),
    SyntaxError,
> {
    let first = tok_at(t, i);
    if mutability_of(first) is Some {
        parse_declaration(t, i, mutability_of(first)->Some_0)
    } else if first is Ident && tok_at(t, i + 1) is OpenParen {
        let callee = Ident { name: first->Ident_0 };
        if tok_at(t, i + 2) is CloseParen {
            Ok((StatementView::FunctionCall { func_ident: callee, args: seq![] }, 3))
        } else {
            match parse_args(t, i + 2) {
                Err(e) => Err(e),
                Ok((args, n)) => Ok(
                    (StatementView::FunctionCall { func_ident: callee, args }, n + 2),
                ),
            }
        }
    } else if first is Ident && tok_at(t, i + 1) is Assign {
        match parse_sum(t, i + 2) {
            Err(e) => Err(e),
            Ok((value, n)) => Ok(
                (
                    StatementView::Assignment { ident: Ident { name: first->Ident_0 }, value },
                    n + 2,
                ),
            ),
        }
    } else {
        match parse_sum(t, i) {
            Err(e) => Err(e),
            Ok((e, n)) => Ok((StatementView::Expression(e), n)),
        }
    }
}

/// One statement with its terminating `;`.
#[verifier::opaque]
pub open spec fn parse_statement(t: Seq<Token>, i: int) -> Result<
    (StatementView, nat),
    SyntaxError,
> {
    match parse_statement_body(t, i) {
        Err(e) => Err(e),
        Ok((s, n)) => if tok_at(t, i + n) is Semicolon {
            Ok((s, n + 1))
        } else {
            Err(
                SyntaxError::ExpectedToken {
                    expected: TokenKind::Semicolon,
                    found: tok_at(t, i + n),
                },
            )
        },
    }
}

/// The statements from position `i` up to the end of input, or the first
/// syntax error.
pub open spec fn parse_program(t: Seq<Token>, i: int) -> Result<Seq<StatementView>, SyntaxError>
    decreases remaining(t, i) via parse_program_decreases
{
    if tok_at(t, i) is EndOfFile {
        Ok(seq![])
    } else {
        match parse_statement(t, i) {
            Err(e) => Err(e),
            Ok((s, n)) => match parse_program(t, i + n) {
                Err(e) => Err(e),
                Ok(rest) => Ok(seq![s] + rest),
            },
        }
    }
}


/// A statement consumes at least its `;`.
pub proof fn lemma_statement_consumes(t: Seq<Token>, i: int)
    ensures
        parse_statement(t, i) matches Ok((_, n)) ==> n >= 1,
{
    reveal(parse_statement);
}

#[via_fn]
proof fn parse_program_decreases(t: Seq<Token>, i: int) {
    lemma_statement_consumes(t, i);
}

/// An expression parse step `r` that started at `i` agrees with `spec_r`,
/// and ends at a position between `i` and `len`.
pub open spec fn expr_step(
    spec_r: Result<(Expression, nat), SyntaxError>,
    r: Result<(Expression, usize), SyntaxError>,
    i: int,
    len: int,
) -> bool {
    match r {
        Ok((e, j)) => i <= j <= len && spec_r == Ok::<(Expression, nat), SyntaxError>(
            (e, (j - i) as nat),
        ),
        Err(err) => spec_r == Err::<(Expression, nat), SyntaxError>(err),
    }
}

/// The same for a statement parse step.
pub open spec fn statement_step(
    spec_r: Result<(StatementView, nat), SyntaxError>,
    r: Result<(Statement, usize), SyntaxError>,
    i: int,
    len: int,
) -> bool {
    match r {
        Ok((s, j)) => i <= j <= len && spec_r == Ok::<(StatementView, nat), SyntaxError>(
            (s@, (j - i) as nat),
        ),
        Err(err) => spec_r == Err::<(StatementView, nat), SyntaxError>(err),
    }
}

fn copy_token(t: &Token) -> (r: Token)
    ensures
        r == *t,
{
    match t {
        Token::EndOfFile => Token::EndOfFile,
        Token::Ident(s) => Token::Ident(s.clone()),
        Token::NumberLiteral(s) => Token::NumberLiteral(s.clone()),
        Token::StringLiteral(s) => Token::StringLiteral(s.clone()),
        Token::Function => Token::Function,
        Token::While => Token::While,
        Token::For => Token::For,
        Token::Loop => Token::Loop,
        Token::Val => Token::Val,
        Token::Const => Token::Const,
        Token::Var => Token::Var,
        Token::If => Token::If,
        Token::Else => Token::Else,
        Token::In => Token::In,
        Token::Use => Token::Use,
        Token::True => Token::True,
        Token::False => Token::False,
        Token::Break => Token::Break,
        Token::Continue => Token::Continue,
        Token::Assign => Token::Assign,
        Token::Equal => Token::Equal,
        Token::Plus => Token::Plus,
        Token::Minus => Token::Minus,
        Token::Star => Token::Star,
        Token::Slash => Token::Slash,
        Token::Less => Token::Less,
        Token::Greater => Token::Greater,
        Token::Comma => Token::Comma,
        Token::Semicolon => Token::Semicolon,
        Token::OpenParen => Token::OpenParen,
        Token::CloseParen => Token::CloseParen,
        Token::OpenBrace => Token::OpenBrace,
        Token::CloseBrace => Token::CloseBrace,
    }
}

fn token_at(t: &Vec<Token>, i: usize) -> (r: Token)
    ensures
        r == tok_at(t@, i as int),
{
    if i < t.len() {
        copy_token(&t[i])
    } else {
        Token::EndOfFile
    }
}

fn expression(t: &Vec<Token>, i: usize) -> (r: Result<(Expression, usize), SyntaxError>)
    requires
        i <= t.len(),
    ensures
        expr_step(parse_sum(t@, i as int), r, i as int, t.len() as int),
    decreases remaining(t@, i as int), 5nat,
{
    match product(t, i) {
        Err(e) => Err(e),
        Ok((lhs, j)) => sum_tail(t, j, lhs),
    }
}

fn sum_tail(t: &Vec<Token>, i: usize, lhs: Expression) -> (r: Result<
    (Expression, usize),
    SyntaxError,
>)
    requires
        i <= t.len(),
    ensures
        expr_step(sum_rest(t@, i as int, lhs), r, i as int, t.len() as int),
    decreases remaining(t@, i as int), 4nat,
{
    let op = match token_at(t, i) {
        Token::Plus => Operator::Plus,
        Token::Minus => Operator::Minus,
        _ => {
            return Ok((lhs, i));
        },
    };
    match product(t, i + 1) {
        Err(e) => Err(e),
        Ok((rhs, j)) => {
            let folded = Expression::BinaryExpr { lhs: Box::new(lhs), operator: op, rhs: Box::new(rhs) };
            sum_tail(t, j, folded)
        },
    }
}

fn product(t: &Vec<Token>, i: usize) -> (r: Result<(Expression, usize), SyntaxError>)
    requires
        i <= t.len(),
    ensures
        expr_step(parse_product(t@, i as int), r, i as int, t.len() as int),
    decreases remaining(t@, i as int), 3nat,
{
    match unary(t, i) {
        Err(e) => Err(e),
        Ok((lhs, j)) => product_tail(t, j, lhs),
    }
}

fn product_tail(t: &Vec<Token>, i: usize, lhs: Expression) -> (r: Result<
    (Expression, usize),
    SyntaxError,
>)
    requires
        i <= t.len(),
    ensures
        expr_step(product_rest(t@, i as int, lhs), r, i as int, t.len() as int),
    decreases remaining(t@, i as int), 2nat,
{
    let op = match token_at(t, i) {
        Token::Star => Operator::Multiply,
        Token::Slash => Operator::Divide,
        _ => {
            return Ok((lhs, i));
        },
    };
    match unary(t, i + 1) {
        Err(e) => Err(e),
        Ok((rhs, j)) => {
            let folded = Expression::BinaryExpr { lhs: Box::new(lhs), operator: op, rhs: Box::new(rhs) };
            product_tail(t, j, folded)
        },
    }
}

fn unary(t: &Vec<Token>, i: usize) -> (r: Result<(Expression, usize), SyntaxError>)
    requires
        i <= t.len(),
    ensures
        expr_step(parse_unary(t@, i as int), r, i as int, t.len() as int),
    decreases remaining(t@, i as int), 1nat,
{
    if let Token::Minus = token_at(t, i) {
        match unary(t, i + 1) {
            Err(e) => Err(e),
            Ok((e, j)) => Ok(
                (Expression::UnaryExpr { term: Box::new(e), operator: Some(Operator::Minus) }, j),
            ),
        }
    } else {
        term(t, i)
    }
}

fn term(t: &Vec<Token>, i: usize) -> (r: Result<(Expression, usize), SyntaxError>)
    requires
        i <= t.len(),
    ensures
        expr_step(parse_term(t@, i as int), r, i as int, t.len() as int),
    decreases remaining(t@, i as int), 0nat,
{
    match token_at(t, i) {
        Token::NumberLiteral(v) => Ok((Expression::NumberLiteral { val: v }, i + 1)),
        Token::Ident(name) => Ok((Expression::Identifier { ident: Ident { name } }, i + 1)),
        Token::OpenParen => match expression(t, i + 1) {
            Err(e) => Err(e),
            Ok((e, j)) => match token_at(t, j) {
                Token::CloseParen => Ok((e, j + 1)),
                found => Err(SyntaxError::ExpectedToken { expected: TokenKind::CloseParen, found }),
            },
        },
        Token::EndOfFile => Err(SyntaxError::UnexpectedEndOfInput),
        other => Err(SyntaxError::UnexpectedToken(other)),
    }
}

fn declaration(t: &Vec<Token>, i: usize, m: Mutability) -> (r: Result<
    (Statement, usize),
    SyntaxError,
>)
    requires
        i < t.len(),
    ensures
        statement_step(parse_declaration(t@, i as int, m), r, i as int, t.len() as int),
{
    let name = match token_at(t, i + 1) {
        Token::Ident(name) => name,
        found => {
            return Err(SyntaxError::ExpectedToken { expected: TokenKind::Identifier, found });
        },
    };
    match token_at(t, i + 2) {
        Token::Assign => {},
        found => {
            return Err(SyntaxError::ExpectedToken { expected: TokenKind::Assign, found });
        },
    }
    match expression(t, i + 3) {
        Err(e) => Err(e),
        Ok((value, j)) => Ok(
            (Statement::Declaration { mutability: m, ident: Ident { name }, value }, j),
        ),
    }
}

fn arguments(t: &Vec<Token>, i: usize) -> (r: Result<(Vec<Expression>, usize), SyntaxError>)
    requires
        i <= t.len(),
    ensures
        match r {
            Ok((args, j)) => i <= j <= t.len() && parse_args(t@, i as int) == Ok::<
                (Seq<Expression>, nat),
                SyntaxError,
            >((args@, (j - i) as nat)),
            Err(err) => parse_args(t@, i as int) == Err::<(Seq<Expression>, nat), SyntaxError>(
                err,
            ),
        },
    decreases remaining(t@, i as int),
{
    match expression(t, i) {
        Err(e) => Err(e),
        Ok((e, j)) => match token_at(t, j) {
            Token::Comma => match arguments(t, j + 1) {
                Err(err) => Err(err),
                Ok((rest, k)) => {
                    let mut args = rest;
                    args.insert(0, e);
                    proof {
                        assert(args@ =~= seq![e] + rest@);
                    }
                    Ok((args, k))
                },
            },
            Token::CloseParen => {
                let mut args = Vec::new();
                args.push(e);
                proof {
                    assert(args@ =~= seq![e]);
                }
                Ok((args, j + 1))
            },
            found => Err(SyntaxError::ExpectedToken { expected: TokenKind::CloseParen, found }),
        },
    }
}

fn statement_body(t: &Vec<Token>, i: usize) -> (r: Result<(Statement, usize), SyntaxError>)
    requires
        i <= t.len(),
    ensures
        statement_step(parse_statement_body(t@, i as int), r, i as int, t.len() as int),
{
    let first = token_at(t, i);
    let m = match first {
        Token::Const => Some(Mutability::Constant),
        Token::Val => Some(Mutability::Value),
        Token::Var => Some(Mutability::Variable),
        _ => None,
    };
    if let Some(m) = m {
        return declaration(t, i, m);
    }
    if let Token::Ident(name) = first {
        match token_at(t, i + 1) {
            Token::OpenParen => {
                let callee = Ident { name };
                if let Token::CloseParen = token_at(t, i + 2) {
                    let args = Vec::new();
                    proof {
                        assert(args@ =~= Seq::<Expression>::empty());
                    }
                    return Ok((Statement::FunctionCall { func_ident: callee, args }, i + 3));
                }
                return match arguments(t, i + 2) {
                    Err(e) => Err(e),
                    Ok((args, j)) => Ok((Statement::FunctionCall { func_ident: callee, args }, j)),
                };
            },
            Token::Assign => {
                return match expression(t, i + 2) {
                    Err(e) => Err(e),
                    Ok((value, j)) => Ok((Statement::Assignment { ident: Ident { name }, value }, j)),
                };
            },
            _ => {},
        }
    }
    match expression(t, i) {
        Err(e) => Err(e),
        Ok((e, j)) => Ok((Statement::Expression(e), j)),
    }
}


proof fn lemma_program_step(t: Seq<Token>, i: int, s: StatementView, n: nat)
    requires
        !(tok_at(t, i) is EndOfFile),
        parse_statement(t, i) == Ok::<(StatementView, nat), SyntaxError>((s, n)),
    ensures
        parse_program(t, i) == match parse_program(t, i + n) {
            Err(e) => Err(e),
            Ok(rest) => Ok(seq![s] + rest),
        },
{
}

proof fn lemma_program_fails(t: Seq<Token>, i: int)
    requires
        !(tok_at(t, i) is EndOfFile),
        parse_statement(t, i) is Err,
    ensures
        parse_program(t, i) == Err::<Seq<StatementView>, SyntaxError>(parse_statement(t, i)->Err_0),
{
}

/// A cursor over a token sequence that builds the syntax tree.
#[derive(Debug, PartialEq, Eq)]
pub struct ASTBuilder {
    tokens: Vec<Token>,
    index: usize,
}

impl ASTBuilder {
    /// The tokens being parsed.
    pub closed spec fn token_seq(&self) -> Seq<Token> {
        self.tokens@
    }

    /// The cursor: how many tokens have been consumed.
    pub closed spec fn cursor(&self) -> int {
        self.index as int
    }

    pub closed spec fn wf(&self) -> bool {
        self.index <= self.tokens.len()
    }

    pub fn new(tokens: Vec<Token>) -> (r: Self)
        ensures
            r.wf(),
            r.token_seq() == tokens@,
            r.cursor() == 0,
    {
        ASTBuilder { tokens, index: 0 }
    }

    /// Parses one statement with its `;` and moves the cursor past it.
    pub fn get_statement(&mut self) -> (r: Result<Statement, SyntaxError>)
        requires
            old(self).wf(),
        ensures
            final(self).wf(),
            final(self).token_seq() == old(self).token_seq(),
            match r {
                Ok(s) => old(self).cursor() <= final(self).cursor() && parse_statement(
                    old(self).token_seq(),
                    old(self).cursor(),
                ) == Ok::<(StatementView, nat), SyntaxError>(
                    (s@, (final(self).cursor() - old(self).cursor()) as nat),
                ),
                Err(e) => parse_statement(old(self).token_seq(), old(self).cursor()) == Err::<
                    (StatementView, nat),
                    SyntaxError,
                >(e),
            },
    {
        reveal(parse_statement);
        let (s, j) = match statement_body(&self.tokens, self.index) {
            Err(e) => {
                return Err(e);
            },
            Ok(parsed) => parsed,
        };
        match token_at(&self.tokens, j) {
            Token::Semicolon => {
                self.index = j + 1;
                Ok(s)
            },
            found => Err(SyntaxError::ExpectedToken { expected: TokenKind::Semicolon, found }),
        }
    }

    /// Parses statements up to the end of input.
    pub fn get_ast(&mut self) -> (r: Result<AST, SyntaxError>)
        requires
            old(self).wf(),
        ensures
            final(self).wf(),
            final(self).token_seq() == old(self).token_seq(),
            match r {
                Ok(ast) => parse_program(old(self).token_seq(), old(self).cursor()) == Ok::<
                    Seq<StatementView>,
                    SyntaxError,
                >(ast@) && old(self).cursor() <= final(self).cursor() && tok_at(
                    final(self).token_seq(),
                    final(self).cursor(),
                ) == Token::EndOfFile,
                Err(e) => parse_program(old(self).token_seq(), old(self).cursor()) == Err::<
                    Seq<StatementView>,
                    SyntaxError,
                >(e),
            },
    {
        let ghost t = self.tokens@;
        let ghost start = self.index as int;
        let mut statements: Vec<Statement> = Vec::new();
        loop
            invariant
                self.wf(),
                self.tokens@ == t,
                t == old(self).tokens@,
                start == old(self).index,
                start <= self.index,
                match parse_program(t, start) {
                    Err(e) => parse_program(t, self.index as int) == Err::<
                        Seq<StatementView>,
                        SyntaxError,
                    >(e),
                    Ok(all) => parse_program(t, self.index as int) matches Ok(rest) && all
                        == statements@.map_values(|s: Statement| s@) + rest,
                },
            decreases remaining(t, self.index as int),
        {
            if let Token::EndOfFile = token_at(&self.tokens, self.index) {
                proof {
                    assert(parse_program(t, self.index as int) == Ok::<Seq<StatementView>, SyntaxError>(seq![]));
                    if let Ok(all) = parse_program(t, start) {
                        assert(all =~= statements@.map_values(|s: Statement| s@));
                    }
                }
                return Ok(AST { statements });
            }
            let ghost before = self.index as int;
            let s = match self.get_statement() {
                Err(e) => {
                    proof {
                        lemma_program_fails(t, before);
                    }
                    return Err(e);
                },
                Ok(s) => s,
            };
            proof {
                lemma_statement_consumes(t, before);
                lemma_program_step(t, before, s@, (self.index - before) as nat);
                let old_view = statements@.map_values(|s: Statement| s@);
                assert(statements@.push(s).map_values(|s: Statement| s@) =~= old_view.push(s@));
                if let Ok(all) = parse_program(t, start) {
                    let rest = parse_program(t, self.index as int)->Ok_0;
                    assert(all =~= old_view.push(s@) + rest);
                }
            }
            statements.push(s);
        }
    }
}

/// Parses a whole token sequence into a program.
pub fn parse(tokens: Vec<Token>) -> (r: Result<AST, SyntaxError>)
    ensures
        match r {
            Ok(ast) => parse_program(tokens@, 0) == Ok::<Seq<StatementView>, SyntaxError>(ast@),
            Err(e) => parse_program(tokens@, 0) == Err::<Seq<StatementView>, SyntaxError>(e),
        },
{
    let mut builder = ASTBuilder::new(tokens);
    builder.get_ast()
}

} // verus!
