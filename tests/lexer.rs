use lbr_compiler::lexer::{LexError, Token, Tokenizer, MAX_STRING_LEN};
use lbr_compiler::lexer::Token as TK;

const CODE: &str = "\
val a = 1;
val b = 2;
escreval(a + b);
";

fn lex(source: &str) -> Result<Vec<Token>, LexError> {
    Tokenizer::new(source.to_string()).tokens()
}

fn ident(name: &str) -> Token {
    Token::Ident(name.to_string())
}

fn number(digits: &str) -> Token {
    Token::NumberLiteral(digits.to_string())
}

#[test]
fn tokeniz_this_mf() {
    let tokenizer = Tokenizer::new(CODE.to_string());
    let tokens = tokenizer.tokens().unwrap();
    assert_eq!(
        tokens,
        vec![
            TK::Val,
            TK::Ident("a".to_string()),
            TK::Assign,
            TK::NumberLiteral("1".to_string()),
            TK::Semicolon,
            TK::Val,
            TK::Ident("b".to_string()),
            TK::Assign,
            TK::NumberLiteral("2".to_string()),
            TK::Semicolon,
            TK::Ident("escreval".to_string()),
            TK::OpenParen,
            TK::Ident("a".to_string()),
            TK::Plus,
            TK::Ident("b".to_string()),
            TK::CloseParen,
            TK::Semicolon,
            TK::EndOfFile,
        ]
    );
}

#[test]
fn whitespace_only_gives_end_of_input() {
    assert_eq!(lex("").unwrap(), vec![Token::EndOfFile]);
    assert_eq!(lex(" \t\n\r  \n").unwrap(), vec![Token::EndOfFile]);
}

#[test]
fn digit_run_is_one_number_literal() {
    assert_eq!(lex("0").unwrap(), vec![number("0"), Token::EndOfFile]);
    assert_eq!(
        lex("9876543210123").unwrap(),
        vec![number("9876543210123"), Token::EndOfFile]
    );
    assert_eq!(lex("  007 ").unwrap(), vec![number("007"), Token::EndOfFile]);
}

#[test]
fn end_of_input_repeats() {
    let mut lexer = Tokenizer::new("x".to_string());
    assert_eq!(lexer.next_token(), Ok(ident("x")));
    for _ in 0..5 {
        assert_eq!(lexer.next_token(), Ok(Token::EndOfFile));
    }
}

#[test]
fn at_sign_is_rejected() {
    assert_eq!(lex("@"), Err(LexError::UnexpectedCharacter(b'@')));
    assert_eq!(lex("val a = 1 @ 2;"), Err(LexError::UnexpectedCharacter(b'@')));
}

#[test]
fn at_sign_after_closed_string_is_rejected() {
    assert_eq!(
        lex("escreval(\"a@b\") @"),
        Err(LexError::UnexpectedCharacter(b'@'))
    );
}

#[test]
fn at_sign_inside_string_is_text() {
    assert_eq!(
        lex("\"a@b\"").unwrap(),
        vec![Token::StringLiteral("a@b".to_string()), Token::EndOfFile]
    );
}

#[test]
fn string_literal_keeps_utf8_text() {
    assert_eq!(
        lex("escreval(\"olá, mundo\");").unwrap(),
        vec![
            ident("escreval"),
            Token::OpenParen,
            Token::StringLiteral("olá, mundo".to_string()),
            Token::CloseParen,
            Token::Semicolon,
            Token::EndOfFile,
        ]
    );
    assert_eq!(
        lex("\"\"").unwrap(),
        vec![Token::StringLiteral(String::new()), Token::EndOfFile]
    );
}

#[test]
fn unterminated_string_is_rejected() {
    assert_eq!(lex("\"abc"), Err(LexError::UnterminatedString));
    assert_eq!(lex("val s = \""), Err(LexError::UnterminatedString));
}

#[test]
fn overlong_string_is_rejected() {
    let body = "x".repeat(MAX_STRING_LEN);
    let ok = format!("\"{}\"", body);
    assert_eq!(
        lex(&ok).unwrap(),
        vec![Token::StringLiteral(body.clone()), Token::EndOfFile]
    );
    let too_long = format!("\"{}x\"", body);
    assert_eq!(lex(&too_long), Err(LexError::StringTooLong));
}

#[test]
fn equality_and_assignment() {
    assert_eq!(
        lex("a == b = c").unwrap(),
        vec![
            ident("a"),
            Token::Equal,
            ident("b"),
            Token::Assign,
            ident("c"),
            Token::EndOfFile
        ]
    );
    assert_eq!(
        lex("===").unwrap(),
        vec![Token::Equal, Token::Assign, Token::EndOfFile]
    );
}

#[test]
fn keywords_are_matched_exactly() {
    assert_eq!(
        lex("function while for loop val const var if else in use true false break continue").unwrap(),
        vec![
            Token::Function,
            Token::While,
            Token::For,
            Token::Loop,
            Token::Val,
            Token::Const,
            Token::Var,
            Token::If,
            Token::Else,
            Token::In,
            Token::Use,
            Token::True,
            Token::False,
            Token::Break,
            Token::Continue,
            Token::EndOfFile,
        ]
    );
    assert_eq!(
        lex("Val vals _val val_ fn functions").unwrap(),
        vec![
            ident("Val"),
            ident("vals"),
            ident("_val"),
            ident("val_"),
            ident("fn"),
            ident("functions"),
            Token::EndOfFile
        ]
    );
}

#[test]
fn punctuation_tokens() {
    assert_eq!(
        lex("+-*/<>,;(){}").unwrap(),
        vec![
            Token::Plus,
            Token::Minus,
            Token::Star,
            Token::Slash,
            Token::Less,
            Token::Greater,
            Token::Comma,
            Token::Semicolon,
            Token::OpenParen,
            Token::CloseParen,
            Token::OpenBrace,
            Token::CloseBrace,
            Token::EndOfFile,
        ]
    );
}

#[test]
fn number_then_identifier_split() {
    assert_eq!(
        lex("12ab").unwrap(),
        vec![number("12"), ident("ab"), Token::EndOfFile]
    );
    assert_eq!(lex("ab12").unwrap(), vec![ident("ab12"), Token::EndOfFile]);
}

#[test]
fn first_error_wins() {
    assert_eq!(lex("a # @"), Err(LexError::UnexpectedCharacter(b'#')));
    assert_eq!(lex("a\u{e9}"), Err(LexError::UnexpectedCharacter(0xc3)));
}
