use vstd::prelude::*;

use crate::lexer::{lexes_to, lex_all, LexError, Tokenizer};
use crate::parser::{parse, parse_program, SyntaxError};

verus! {

/// How a declared name may be rebound later.
#[derive(Clone, Copy, Debug, PartialEq, Eq, Hash)]
pub enum Mutability {
    Constant,
    Value,
    Variable,
}

/// An arithmetic operator.
#[derive(Clone, Copy, Debug, PartialEq, Eq, Hash)]
pub enum Operator {
    Plus,
    Minus,
    Multiply,
    Divide,
}

/// A name, as written in the source.
#[derive(Clone, Debug, PartialEq, Eq, Hash)]
pub struct Ident {
    pub name: String,
}

#[derive(Debug, PartialEq, Eq)]
pub enum Expression {
    UnaryExpr { term: Box<Expression>, operator: Option<Operator> },
    BinaryExpr { lhs: Box<Expression>, operator: Operator, rhs: Box<Expression> },
    NumberLiteral { val: String },
    Identifier { ident: Ident },
}

#[derive(Debug, PartialEq, Eq)]
pub enum Statement {
    Declaration { mutability: Mutability, ident: Ident, value: Expression },
    Assignment { ident: Ident, value: Expression },
    FunctionCall { func_ident: Ident, args: Vec<Expression> },
    Expression(Expression),
}

/// A statement with its argument list seen as a sequence.
pub enum StatementView {
    Declaration { mutability: Mutability, ident: Ident, value: Expression },
    Assignment { ident: Ident, value: Expression },
    FunctionCall { func_ident: Ident, args: Seq<Expression> },
    Expression(Expression),
}

impl View for Statement {
    type V = StatementView;

    open spec fn view(&self) -> StatementView {
        match self {
            Statement::Declaration { mutability, ident, value } => StatementView::Declaration {
                mutability: *mutability,
                ident: *ident,
                value: *value,
            },
            Statement::Assignment { ident, value } => StatementView::Assignment {
                ident: *ident,
                value: *value,
            },
            Statement::FunctionCall { func_ident, args } => StatementView::FunctionCall {
                func_ident: *func_ident,
                args: args@,
            },
            Statement::Expression(e) => StatementView::Expression(*e),
        }
    }
}

/// A whole program: its top-level statements in source order.
#[derive(Debug, PartialEq, Eq)]
pub struct AST {
    pub statements: Vec<Statement>,
}

impl View for AST {
    type V = Seq<StatementView>;

    open spec fn view(&self) -> Seq<StatementView> {
        self.statements@.map_values(|s: Statement| s@)
    }
}

/// The first problem found in a source text.
#[derive(Clone, Debug, PartialEq, Eq, Hash)]
pub enum FrontendError {
    Lex(LexError),
    Syntax(SyntaxError),
}

impl AST {
    /// Lexes and parses a source text.
    pub fn new(source: &str) -> (r: Result<Self, FrontendError>)
        ensures
            ({
                let code = vstd::utf8::encode_utf8(source@);
                match r {
                    Ok(ast) => exists|toks: Seq<crate::lexer::Token>|
                        lexes_to(code, toks) && parse_program(toks, 0) == Ok::<
                            Seq<StatementView>,
                            SyntaxError,
                        >(#[trigger] ast@),
                    Err(FrontendError::Lex(e)) => lex_all(code, 0) == Err::<
                        Seq<(int, int)>,
                        LexError,
                    >(e),
                    Err(FrontendError::Syntax(e)) => exists|toks: Seq<crate::lexer::Token>|
                        #[trigger] lexes_to(code, toks) && parse_program(toks, 0) == Err::<
                            Seq<StatementView>,
                            SyntaxError,
                        >(e),
                }
            }),
    {
        let lexer = Tokenizer::new(source.to_owned());
        let tokens = match lexer.tokens() {
            Err(e) => {
                return Err(FrontendError::Lex(e));
            },
            Ok(tokens) => tokens,
        };
        let ghost toks = tokens@;
        assert(lexes_to(vstd::utf8::encode_utf8(source@), toks));
        match parse(tokens) {
            Ok(ast) => Ok(ast),
            Err(e) => Err(FrontendError::Syntax(e)),
        }
    }
}

} // verus!
