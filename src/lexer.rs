use vstd::prelude::*;

verus! {

/// Longest string literal body, in bytes, that the lexer accepts.
pub const MAX_STRING_LEN: usize = 4096;

/// One lexical unit of the language.
#[derive(Clone, Debug, PartialEq, Eq, Hash)]
pub enum Token {
    EndOfFile,
    Ident(String),
    NumberLiteral(String),
    StringLiteral(String),
    Function,
    While,
    For,
    Loop,
    Val,
    Const,
    Var,
    If,
    Else,
    In,
    Use,
    True,
    False,
    Break,
    Continue,
    Assign,
    Equal,
    Plus,
    Minus,
    Star,
    Slash,
    Less,
    Greater,
    Comma,
    Semicolon,
    OpenParen,
    CloseParen,
    OpenBrace,
    CloseBrace,
}

/// Why a source text could not be split into tokens.
#[derive(Clone, Copy, Debug, PartialEq, Eq, Hash)]
pub enum LexError {
    UnexpectedCharacter(u8),
    UnterminatedString,
    StringTooLong,
}

pub open spec fn is_space(b: u8) -> bool {
    b == 32 || b == 9 || b == 10 || b == 13
}

pub open spec fn is_digit(b: u8) -> bool {
    48 <= b <= 57
}

pub open spec fn is_alpha(b: u8) -> bool {
    (65 <= b <= 90) || (97 <= b <= 122)
}

pub open spec fn is_ident_start(b: u8) -> bool {
    is_alpha(b) || b == 95
}

pub open spec fn is_ident_char(b: u8) -> bool {
    is_ident_start(b) || is_digit(b)
}

/// The token made of the single byte `b`, where there is one.
pub open spec fn punct_token(b: u8) -> Option<Token> {
    if b == 40 {
        Some(Token::OpenParen)
    } else if b == 41 {
        Some(Token::CloseParen)
    } else if b == 123 {
        Some(Token::OpenBrace)
    } else if b == 125 {
        Some(Token::CloseBrace)
    } else if b == 59 {
        Some(Token::Semicolon)
    } else if b == 44 {
        Some(Token::Comma)
    } else if b == 43 {
        Some(Token::Plus)
    } else if b == 45 {
        Some(Token::Minus)
    } else if b == 42 {
        Some(Token::Star)
    } else if b == 47 {
        Some(Token::Slash)
    } else if b == 60 {
        Some(Token::Less)
    } else if b == 62 {
        Some(Token::Greater)
    } else {
        None
    }
}

/// The keyword spelled `text`, where it is one.
pub open spec fn keyword_of(text: Seq<char>) -> Option<Token> {
    if text == "function"@ {
        Some(Token::Function)
    } else if text == "while"@ {
        Some(Token::While)
    } else if text == "for"@ {
        Some(Token::For)
    } else if text == "loop"@ {
        Some(Token::Loop)
    } else if text == "val"@ {
        Some(Token::Val)
    } else if text == "const"@ {
        Some(Token::Const)
    } else if text == "var"@ {
        Some(Token::Var)
    } else if text == "if"@ {
        Some(Token::If)
    } else if text == "else"@ {
        Some(Token::Else)
    } else if text == "in"@ {
        Some(Token::In)
    } else if text == "use"@ {
        Some(Token::Use)
    } else if text == "true"@ {
        Some(Token::True)
    } else if text == "false"@ {
        Some(Token::False)
    } else if text == "break"@ {
        Some(Token::Break)
    } else if text == "continue"@ {
        Some(Token::Continue)
    } else {
        None
    }
}

/// ASCII bytes read as characters.
pub open spec fn chars_of(bytes: Seq<u8>) -> Seq<char> {
    bytes.map_values(|b: u8| b as char)
}

/// What `String::from_utf8_lossy` makes of a byte sequence.
pub uninterp spec fn utf8_lossy(bytes: Seq<u8>) -> Seq<char>;

/// Number of whitespace bytes from `i` on.
pub open spec fn spaces_len(s: Seq<u8>, i: int) -> nat
    decreases s.len() - i,
{
    if 0 <= i < s.len() && is_space(s[i]) {
        1 + spaces_len(s, i + 1)
    } else {
        0
    }
}

/// Number of decimal digits from `i` on.
pub open spec fn digits_len(s: Seq<u8>, i: int) -> nat
    decreases s.len() - i,
{
    if 0 <= i < s.len() && is_digit(s[i]) {
        1 + digits_len(s, i + 1)
    } else {
        0
    }
}

/// Number of identifier bytes from `i` on.
pub open spec fn ident_len(s: Seq<u8>, i: int) -> nat
    decreases s.len() - i,
{
    if 0 <= i < s.len() && is_ident_char(s[i]) {
        1 + ident_len(s, i + 1)
    } else {
        0
    }
}

/// Number of bytes from `i` on before a double quote.
pub open spec fn string_body_len(s: Seq<u8>, i: int) -> nat
    decreases s.len() - i,
{
    if 0 <= i < s.len() && s[i] != 34 {
        1 + string_body_len(s, i + 1)
    } else {
        0
    }
}

/// Where the next lexeme after position `i` starts and ends; an empty lexeme
/// at the end of the text stands for the end of input.
pub open spec fn scan(s: Seq<u8>, i: int) -> Result<(int, int), LexError> {
    let j = i + spaces_len(s, i);
    if j >= s.len() {
        Ok((j, j))
    } else {
        let b = s[j];
        if b == 61 {
            if j + 1 < s.len() && s[j + 1] == 61 {
                Ok((j, j + 2))
            } else {
                Ok((j, j + 1))
            }
        } else if punct_token(b) is Some {
            Ok((j, j + 1))
        } else if is_digit(b) {
            Ok((j, j + 1 + digits_len(s, j + 1)))
        } else if is_ident_start(b) {
            Ok((j, j + 1 + ident_len(s, j + 1)))
        } else if b == 34 {
            let n = string_body_len(s, j + 1);
            if j + 1 + n >= s.len() {
                Err(LexError::UnterminatedString)
            } else if n > MAX_STRING_LEN {
                Err(LexError::StringTooLong)
            } else {
                Ok((j, j + 2 + n))
            }
        } else {
            Err(LexError::UnexpectedCharacter(b))
        }
    }
}

/// `t` is the token that the lexeme `lx` stands for.
pub open spec fn denotes(lx: Seq<u8>, t: Token) -> bool {
    if lx.len() == 0 {
        t == Token::EndOfFile
    } else if lx[0] == 61 {
        if lx.len() == 2 {
            t == Token::Equal
        } else {
            t == Token::Assign
        }
    } else if punct_token(lx[0]) is Some {
        t == punct_token(lx[0])->Some_0
    } else if is_digit(lx[0]) {
        t is NumberLiteral && t->NumberLiteral_0@ == chars_of(lx)
    } else if lx[0] == 34 {
        t is StringLiteral && t->StringLiteral_0@ == utf8_lossy(lx.subrange(1, lx.len() - 1))
    } else {
        match keyword_of(chars_of(lx)) {
            Some(k) => t == k,
            None => t is Ident && t->Ident_0@ == chars_of(lx),
        }
    }
}

/// The lexemes of the text from position `i` to the end of input, the last
/// one being the empty end-of-input lexeme; or the first lexing error.
pub open spec fn lex_all(s: Seq<u8>, i: int) -> Result<Seq<(int, int)>, LexError>
    decreases s.len() - i via lex_all_decreases
{
    match scan(s, i) {
        Err(e) => Err(e),
        Ok((a, b)) => if a >= s.len() {
            Ok(seq![(a, b)])
        } else {
            match lex_all(s, b) {
                Err(e) => Err(e),
                Ok(rest) => Ok(seq![(a, b)] + rest),
            }
        },
    }
}

/// The runs that the scanner measures stay inside the text.
pub proof fn lemma_run_bounds(s: Seq<u8>, i: int)
    requires
        i <= s.len(),
    ensures
        i + spaces_len(s, i) <= s.len(),
        i + digits_len(s, i) <= s.len(),
        i + ident_len(s, i) <= s.len(),
        i + string_body_len(s, i) <= s.len(),
    decreases s.len() - i,
{
    if 0 <= i < s.len() {
        lemma_run_bounds(s, i + 1);
    }
}

/// A lexeme that is not the end of input is non-empty, starts at or after
/// `i`, and ends inside the text.
pub proof fn lemma_scan_bounds(s: Seq<u8>, i: int)
    ensures
        scan(s, i) matches Ok((a, b)) ==> i <= a <= b && (a < s.len() ==> a < b <= s.len()),
{
    if i <= s.len() {
        lemma_run_bounds(s, i);
    }
    let j = i + spaces_len(s, i);
    if j < s.len() {
        lemma_run_bounds(s, j + 1);
    }
}

#[via_fn]
proof fn lex_all_decreases(s: Seq<u8>, i: int) {
    lemma_scan_bounds(s, i);
    assert(scan(s, i) is Ok && scan(s, i)->Ok_0.0 < s.len() ==> i <= scan(s, i)->Ok_0.0
        < scan(s, i)->Ok_0.1);
}

/// `toks` are the tokens of the lexemes `spans` of `s`, one for one.
pub open spec fn tokens_of(s: Seq<u8>, spans: Seq<(int, int)>, toks: Seq<Token>) -> bool {
    &&& toks.len() == spans.len()
    &&& forall|k: int|
        0 <= k < toks.len() ==> #[trigger] denotes(s.subrange(spans[k].0, spans[k].1), toks[k])
}

/// `toks` is what lexing the whole of `s` yields.
pub open spec fn lexes_to(s: Seq<u8>, toks: Seq<Token>) -> bool {
    lex_all(s, 0) matches Ok(spans) && tokens_of(s, spans, toks)
}

/// A run that covers the text from `i` to its end has that length.
proof fn lemma_full_runs(s: Seq<u8>, i: int)
    requires
        0 <= i <= s.len(),
    ensures
        (forall|k: int| i <= k < s.len() ==> is_space(#[trigger] s[k])) ==> spaces_len(s, i)
            == s.len() - i,
        (forall|k: int| i <= k < s.len() ==> is_digit(#[trigger] s[k])) ==> digits_len(s, i)
            == s.len() - i,
    decreases s.len() - i,
{
    if i < s.len() {
        lemma_full_runs(s, i + 1);
    }
}

/// A text made only of whitespace lexes to exactly one token, the end of
/// input.
pub proof fn lemma_whitespace_only(s: Seq<u8>)
    requires
        forall|k: int| 0 <= k < s.len() ==> is_space(#[trigger] s[k]),
    ensures
        lex_all(s, 0) == Ok::<Seq<(int, int)>, LexError>(seq![(s.len() as int, s.len() as int)]),
        forall|toks: Seq<Token>| #[trigger]
            lexes_to(s, toks) <==> toks == seq![Token::EndOfFile],
{
    lemma_full_runs(s, 0);
    assert forall|toks: Seq<Token>| #[trigger] lexes_to(s, toks) <==> toks == seq![
        Token::EndOfFile,
    ] by {
        if lexes_to(s, toks) {
            let spans = lex_all(s, 0)->Ok_0;
            assert(denotes(s.subrange(spans[0].0, spans[0].1), toks[0]));
            assert(toks =~= seq![Token::EndOfFile]);
        }
        if toks == seq![Token::EndOfFile] {
            let spans = seq![(s.len() as int, s.len() as int)];
            assert(denotes(s.subrange(spans[0].0, spans[0].1), toks[0]));
        }
    }
}

/// A text that is one run of decimal digits lexes to one number literal
/// whose text is the run, followed by the end of input.
pub proof fn lemma_digit_run(s: Seq<u8>)
    requires
        s.len() >= 1,
        forall|k: int| 0 <= k < s.len() ==> is_digit(#[trigger] s[k]),
    ensures
        lex_all(s, 0) == Ok::<Seq<(int, int)>, LexError>(
            seq![(0, s.len() as int), (s.len() as int, s.len() as int)],
        ),
        forall|toks: Seq<Token>| #[trigger]
            lexes_to(s, toks) <==> toks.len() == 2 && toks[0] is NumberLiteral
                && toks[0]->NumberLiteral_0@ == chars_of(s) && toks[1] == Token::EndOfFile,
{
    lemma_full_runs(s, 1);
    assert(spaces_len(s, 0) == 0);
    assert(s.subrange(0, s.len() as int) =~= s);
    let spans = seq![(0, s.len() as int), (s.len() as int, s.len() as int)];
    assert(lex_all(s, s.len() as int) == Ok::<Seq<(int, int)>, LexError>(
        seq![(s.len() as int, s.len() as int)],
    ));
    assert(lex_all(s, 0) == Ok::<Seq<(int, int)>, LexError>(spans)) by {
        assert(seq![(0, s.len() as int)] + seq![(s.len() as int, s.len() as int)] =~= spans);
    }
    assert forall|toks: Seq<Token>| #[trigger] lexes_to(s, toks) <==> toks.len() == 2
        && toks[0] is NumberLiteral && toks[0]->NumberLiteral_0@ == chars_of(s) && toks[1]
        == Token::EndOfFile by {
        if lexes_to(s, toks) {
            assert(denotes(s.subrange(spans[0].0, spans[0].1), toks[0]));
            assert(denotes(s.subrange(spans[1].0, spans[1].1), toks[1]));
        }
        if toks.len() == 2 && toks[0] is NumberLiteral && toks[0]->NumberLiteral_0@ == chars_of(s)
            && toks[1] == Token::EndOfFile {
            assert forall|k: int| 0 <= k < toks.len() implies #[trigger] denotes(
                s.subrange(spans[k].0, spans[k].1),
                toks[k],
            ) by {
                if k == 1 {
                    assert(s.subrange(spans[k].0, spans[k].1).len() == 0);
                }
            }
        }
    }
}

/// Once the end of input is reached, scanning again from there yields the
/// end of input again, at the same place.
pub proof fn lemma_end_of_input_repeats(s: Seq<u8>, i: int)
    requires
        0 <= i <= s.len(),
        scan(s, i) matches Ok((a, b)) && a >= s.len(),
    ensures
        scan(s, i)->Ok_0.0 == scan(s, i)->Ok_0.1,
        scan(s, scan(s, i)->Ok_0.1) == scan(s, i),
        forall|t: Token|
            #![trigger denotes(s.subrange(scan(s, i)->Ok_0.0, scan(s, i)->Ok_0.1), t)]
            denotes(s.subrange(scan(s, i)->Ok_0.0, scan(s, i)->Ok_0.1), t) <==> t
                == Token::EndOfFile,
{
    lemma_run_bounds(s, i);
}

/// Before an `@` that follows the text `a`, the scanner's runs measure what
/// they measure in `a` alone; a string literal does so where it is closed in `a`.
proof fn lemma_prefix_runs(a: Seq<u8>, s: Seq<u8>, i: int)
    requires
        a.len() < s.len(),
        s[a.len() as int] == 64,
        forall|m: int| 0 <= m < a.len() ==> #[trigger] s[m] == a[m],
        0 <= i <= a.len(),
    ensures
        spaces_len(s, i) == spaces_len(a, i),
        digits_len(s, i) == digits_len(a, i),
        ident_len(s, i) == ident_len(a, i),
        i + string_body_len(a, i) < a.len() ==> string_body_len(s, i) == string_body_len(a, i),
    decreases a.len() - i,
{
    if i < a.len() {
        lemma_prefix_runs(a, s, i + 1);
    }
}

proof fn lemma_at_sign_after(a: Seq<u8>, s: Seq<u8>, i: int)
    requires
        a.len() < s.len(),
        s[a.len() as int] == 64,
        forall|m: int| 0 <= m < a.len() ==> #[trigger] s[m] == a[m],
        0 <= i <= a.len(),
        lex_all(a, i) is Ok,
    ensures
        lex_all(s, i) == Err::<Seq<(int, int)>, LexError>(LexError::UnexpectedCharacter(64)),
    decreases a.len() - i,
{
    lemma_prefix_runs(a, s, i);
    lemma_run_bounds(a, i);
    lemma_scan_bounds(a, i);
    let j = i + spaces_len(a, i);
    if j < a.len() {
        lemma_prefix_runs(a, s, j + 1);
        assert(scan(s, i) == scan(a, i));
        let b = scan(a, i)->Ok_0.1;
        lemma_at_sign_after(a, s, b);
    }
}

/// A byte `@` outside any string literal makes lexing fail with
/// `UnexpectedCharacter(b'@')`: whatever text `a` comes before it, as long as
/// `a` on its own lexes without error (so it leaves no string literal open).
pub proof fn lemma_at_sign_rejected(a: Seq<u8>, b: Seq<u8>)
    requires
        lex_all(a, 0) is Ok,
    ensures
        lex_all(a + seq![64u8] + b, 0) == Err::<Seq<(int, int)>, LexError>(
            LexError::UnexpectedCharacter(64),
        ),
{
    let s = a + seq![64u8] + b;
    assert(s[a.len() as int] == 64);
    assert forall|m: int| 0 <= m < a.len() implies #[trigger] s[m] == a[m] by {}
    lemma_at_sign_after(a, s, 0);
}

/// Every lexeme but the last is non-empty and the last one is empty.
proof fn lemma_lexeme_shape(s: Seq<u8>, i: int)
    requires
        0 <= i <= s.len(),
    ensures
        lex_all(s, i) matches Ok(spans) ==> {
            &&& spans.len() >= 1
            &&& spans.last().0 == spans.last().1 == s.len()
            &&& forall|k: int|
                0 <= k < spans.len() - 1 ==> 0 <= #[trigger] spans[k].0 < spans[k].1 <= s.len()
        },
    decreases s.len() - i,
{
    lemma_scan_bounds(s, i);
    lemma_run_bounds(s, i);
    if let Ok((a, b)) = scan(s, i) {
        if a < s.len() {
            lemma_lexeme_shape(s, b);
            if let Ok(rest) = lex_all(s, b) {
                let spans = seq![(a, b)] + rest;
                assert forall|k: int| 0 <= k < spans.len() - 1 implies 0 <= #[trigger] spans[k].0
                    < spans[k].1 <= s.len() by {
                    if k > 0 {
                        assert(spans[k] == rest[k - 1]);
                    }
                }
                assert(spans.last() == rest.last());
            }
        }
    }
}

/// A lexed token sequence ends with the end-of-input token and holds no
/// other.
pub proof fn lemma_single_end_marker(s: Seq<u8>, toks: Seq<Token>)
    requires
        lexes_to(s, toks),
    ensures
        toks.len() >= 1,
        toks.last() == Token::EndOfFile,
        forall|k: int| 0 <= k < toks.len() - 1 ==> #[trigger] toks[k] != Token::EndOfFile,
{
    lemma_lexeme_shape(s, 0);
    let spans = lex_all(s, 0)->Ok_0;
    let last = toks.len() - 1;
    assert(denotes(s.subrange(spans[last].0, spans[last].1), toks[last]));
    assert forall|k: int| 0 <= k < toks.len() - 1 implies #[trigger] toks[k] != Token::EndOfFile by {
        assert(denotes(s.subrange(spans[k].0, spans[k].1), toks[k]));
        assert(s.subrange(spans[k].0, spans[k].1).len() > 0);
    }
}

/// Relies on `String::push`: the character is appended at the end.
#[verifier::external_body]
fn push_char(s: &mut String, c: char)
    ensures
        final(s)@ == old(s)@.push(c),
{
    s.push(c)
}

/// Relies on `String::from_utf8_lossy`: its text depends on the bytes alone,
/// and valid UTF-8 comes back decoded unchanged.
#[verifier::external_body]
fn text_of_utf8(bytes: &[u8]) -> (r: String)
    ensures
        r@ == utf8_lossy(bytes@),
        vstd::utf8::valid_utf8(bytes@) ==> r@ == vstd::utf8::decode_utf8(bytes@),
{
    String::from_utf8_lossy(bytes).into_owned()
}

fn is_word(text: &String, word: &str) -> (r: bool)
    ensures
        r == (text@ == word@),
{
    let w = word.to_owned();
    *text == w
}

fn keyword(text: &String) -> (r: Option<Token>)
    ensures
        r == keyword_of(text@),
{
    if is_word(text, "function") {
        Some(Token::Function)
    } else if is_word(text, "while") {
        Some(Token::While)
    } else if is_word(text, "for") {
        Some(Token::For)
    } else if is_word(text, "loop") {
        Some(Token::Loop)
    } else if is_word(text, "val") {
        Some(Token::Val)
    } else if is_word(text, "const") {
        Some(Token::Const)
    } else if is_word(text, "var") {
        Some(Token::Var)
    } else if is_word(text, "if") {
        Some(Token::If)
    } else if is_word(text, "else") {
        Some(Token::Else)
    } else if is_word(text, "in") {
        Some(Token::In)
    } else if is_word(text, "use") {
        Some(Token::Use)
    } else if is_word(text, "true") {
        Some(Token::True)
    } else if is_word(text, "false") {
        Some(Token::False)
    } else if is_word(text, "break") {
        Some(Token::Break)
    } else if is_word(text, "continue") {
        Some(Token::Continue)
    } else {
        None
    }
}

fn punct(b: u8) -> (r: Option<Token>)
    ensures
        r == punct_token(b),
{
    match b {
        40 => Some(Token::OpenParen),
        41 => Some(Token::CloseParen),
        123 => Some(Token::OpenBrace),
        125 => Some(Token::CloseBrace),
        59 => Some(Token::Semicolon),
        44 => Some(Token::Comma),
        43 => Some(Token::Plus),
        45 => Some(Token::Minus),
        42 => Some(Token::Star),
        47 => Some(Token::Slash),
        60 => Some(Token::Less),
        62 => Some(Token::Greater),
        _ => None,
    }
}

fn byte_is_space(b: u8) -> (r: bool)
    ensures
        r == is_space(b),
{
    b == 32 || b == 9 || b == 10 || b == 13
}

fn byte_is_digit(b: u8) -> (r: bool)
    ensures
        r == is_digit(b),
{
    48 <= b && b <= 57
}

fn byte_is_ident_start(b: u8) -> (r: bool)
    ensures
        r == is_ident_start(b),
{
    (65 <= b && b <= 90) || (97 <= b && b <= 122) || b == 95
}

fn byte_is_ident_char(b: u8) -> (r: bool)
    ensures
        r == is_ident_char(b),
{
    byte_is_ident_start(b) || byte_is_digit(b)
}

/// A cursor over the bytes of a source text that hands out one token at a
/// time.
#[derive(Clone, Debug, PartialEq, Eq)]
pub struct Tokenizer {
    code: Vec<u8>,
    pos: usize,
}

impl Tokenizer {
    /// The bytes being lexed.
    pub closed spec fn source(&self) -> Seq<u8> {
        self.code@
    }

    /// The cursor: how many bytes have been consumed.
    pub closed spec fn cursor(&self) -> int {
        self.pos as int
    }

    pub closed spec fn wf(&self) -> bool {
        self.pos <= self.code.len()
    }

    pub fn new(code: String) -> (r: Self)
        ensures
            r.wf(),
            r.source() == vstd::utf8::encode_utf8(code@),
            r.cursor() == 0,
    {
        let bytes = code.as_str().as_bytes();
        let mut v: Vec<u8> = Vec::new();
        let mut i: usize = 0;
        while i < bytes.len()
            invariant
                i <= bytes@.len(),
                v@ == bytes@.subrange(0, i as int),
            decreases bytes@.len() - i,
        {
            v.push(bytes[i]);
            i += 1;
            assert(v@ =~= bytes@.subrange(0, i as int));
        }
        assert(v@ =~= bytes@);
        Tokenizer { code: v, pos: 0 }
    }

    fn skip_whitespace(&mut self)
        requires
            old(self).wf(),
        ensures
            final(self).wf(),
            final(self).code == old(self).code,
            final(self).pos == old(self).pos + spaces_len(old(self).code@, old(self).pos as int),
    {
        let ghost start = self.pos as int;
        while self.pos < self.code.len() && byte_is_space(self.code[self.pos])
            invariant
                self.wf(),
                self.code == old(self).code,
                self.pos + spaces_len(self.code@, self.pos as int) == start + spaces_len(
                    self.code@,
                    start,
                ),
            decreases self.code.len() - self.pos,
        {
            self.pos += 1;
        }
    }

    /// Reads the run of digits that starts at the cursor.
    fn get_num_literal(&mut self) -> (r: String)
        requires
            old(self).wf(),
            old(self).pos < old(self).code.len(),
            is_digit(old(self).code@[old(self).pos as int]),
        ensures
            final(self).wf(),
            final(self).code@ == old(self).code@,
            final(self).pos == old(self).pos + 1 + digits_len(
                old(self).code@,
                old(self).pos + 1,
            ),
            r@ == chars_of(old(self).code@.subrange(old(self).pos as int, final(self).pos as int)),
    {
        let ghost s = self.code@;
        let start = self.pos;
        let mut text = String::new();
        push_char(&mut text, self.code[start] as char);
        self.pos += 1;
        assert(chars_of(s.subrange(start as int, self.pos as int)) =~= text@);
        while self.pos < self.code.len() && byte_is_digit(self.code[self.pos])
            invariant
                self.wf(),
                self.code@ == s,
                start < self.pos,
                text@ == chars_of(s.subrange(start as int, self.pos as int)),
                self.pos + digits_len(s, self.pos as int) == start + 1 + digits_len(
                    s,
                    start + 1,
                ),
            decreases self.code.len() - self.pos,
        {
            push_char(&mut text, self.code[self.pos] as char);
            self.pos += 1;
            assert(chars_of(s.subrange(start as int, self.pos as int)) =~= text@);
        }
        text
    }

    /// Reads the identifier that starts at the cursor.
    fn get_ident(&mut self) -> (r: String)
        requires
            old(self).wf(),
            old(self).pos < old(self).code.len(),
            is_ident_start(old(self).code@[old(self).pos as int]),
        ensures
            final(self).wf(),
            final(self).code@ == old(self).code@,
            final(self).pos == old(self).pos + 1 + ident_len(old(self).code@, old(self).pos + 1),
            r@ == chars_of(old(self).code@.subrange(old(self).pos as int, final(self).pos as int)),
    {
        let ghost s = self.code@;
        let start = self.pos;
        let mut text = String::new();
        push_char(&mut text, self.code[start] as char);
        self.pos += 1;
        assert(chars_of(s.subrange(start as int, self.pos as int)) =~= text@);
        while self.pos < self.code.len() && byte_is_ident_char(self.code[self.pos])
            invariant
                self.wf(),
                self.code@ == s,
                start < self.pos,
                text@ == chars_of(s.subrange(start as int, self.pos as int)),
                self.pos + ident_len(s, self.pos as int) == start + 1 + ident_len(s, start + 1),
            decreases self.code.len() - self.pos,
        {
            push_char(&mut text, self.code[self.pos] as char);
            self.pos += 1;
            assert(chars_of(s.subrange(start as int, self.pos as int)) =~= text@);
        }
        text
    }

    /// Reads the string literal whose opening quote is at the cursor.
    fn get_string_literal(&mut self) -> (r: Result<Token, LexError>)
        requires
            old(self).wf(),
            old(self).pos < old(self).code.len(),
            old(self).code@[old(self).pos as int] == 34,
        ensures
            final(self).wf(),
            final(self).code == old(self).code,
            ({
                let s = old(self).code@;
                let j = old(self).pos as int;
                let n = string_body_len(s, j + 1);
                match r {
                    Ok(t) => j + 1 + n < s.len() && n <= MAX_STRING_LEN && final(self).pos == j + 2
                        + n && t is StringLiteral && t->StringLiteral_0@ == utf8_lossy(
                        s.subrange(j + 1, j + 1 + n),
                    ),
                    Err(e) => if j + 1 + n >= s.len() {
                        e == LexError::UnterminatedString
                    } else {
                        n > MAX_STRING_LEN && e == LexError::StringTooLong
                    },
                }
            }),
    {
        let ghost s = self.code@;
        let start = self.pos;
        let mut k: usize = start + 1;
        while k < self.code.len() && self.code[k] != 34
            invariant
                self.wf(),
                self.code@ == s,
                start < k <= s.len(),
                k + string_body_len(s, k as int) == start + 1 + string_body_len(s, start + 1),
            decreases self.code.len() - k,
        {
            k += 1;
        }
        if k >= self.code.len() {
            return Err(LexError::UnterminatedString);
        }
        if k - (start + 1) > MAX_STRING_LEN {
            return Err(LexError::StringTooLong);
        }
        let text = text_of_utf8(&self.code.as_slice()[start + 1..k]);
        self.pos = k + 1;
        Ok(Token::StringLiteral(text))
    }

    /// Hands out the next token and moves the cursor past it; at the end of
    /// the text it keeps handing out `EndOfFile`.
    pub fn next_token(&mut self) -> (r: Result<Token, LexError>)
        requires
            old(self).wf(),
        ensures
            final(self).wf(),
            final(self).source() == old(self).source(),
            match r {
                Ok(t) => scan(old(self).source(), old(self).cursor()) matches Ok((a, b)) && b
                    == final(self).cursor() && denotes(old(self).source().subrange(a, b), t),
                Err(e) => scan(old(self).source(), old(self).cursor()) == Err::<(int, int), LexError>(e),
            },
    {
        let ghost s = self.code@;
        self.skip_whitespace();
        let j = self.pos;
        if j >= self.code.len() {
            return Ok(Token::EndOfFile);
        }
        let b = self.code[j];
        if b == 61 {
            if j + 1 < self.code.len() && self.code[j + 1] == 61 {
                self.pos = j + 2;
                assert(s.subrange(j as int, j + 2).len() == 2);
                return Ok(Token::Equal);
            } else {
                self.pos = j + 1;
                return Ok(Token::Assign);
            }
        }
        match punct(b) {
            Some(t) => {
                self.pos = j + 1;
                return Ok(t);
            },
            None => {},
        }
        if byte_is_digit(b) {
            let text = self.get_num_literal();
            return Ok(Token::NumberLiteral(text));
        }
        if byte_is_ident_start(b) {
            let text = self.get_ident();
            return match keyword(&text) {
                Some(k) => Ok(k),
                None => Ok(Token::Ident(text)),
            };
        }
        if b == 34 {
            let r = self.get_string_literal();
            proof {
                if r is Ok {
                    let n = string_body_len(s, j + 1);
                    assert(s.subrange(j as int, j + 2 + n).subrange(1, n + 1 as int) =~= s.subrange(
                        j + 1,
                        j + 1 + n,
                    ));
                }
            }
            return r;
        }
        Err(LexError::UnexpectedCharacter(b))
    }

    /// Lexes the whole text: every token up to and including `EndOfFile`, or
    /// the first lexing error.
    pub fn tokens(self) -> (r: Result<Vec<Token>, LexError>)
        requires
            self.wf(),
        ensures
            match r {
                Ok(v) => lex_all(self.source(), self.cursor()) matches Ok(spans) && tokens_of(
                    self.source(),
                    spans,
                    v@,
                ),
                Err(e) => lex_all(self.source(), self.cursor()) == Err::<Seq<(int, int)>, LexError>(e),
            },
    {
        let ghost s = self.code@;
        let ghost start = self.pos as int;
        let mut lexer = self;
        let mut out: Vec<Token> = Vec::new();
        let ghost mut spans: Seq<(int, int)> = Seq::empty();
        loop
            invariant
                lexer.wf(),
                lexer.code@ == s,
                self.code@ == s,
                self.pos == start,
                tokens_of(s, spans, out@),
                forall|k: int| 0 <= k < spans.len() ==> 0 <= #[trigger] spans[k].0 <= spans[k].1 <= s.len(),
                start <= lexer.pos,
                match lex_all(s, start) {
                    Err(e) => lex_all(s, lexer.pos as int) == Err::<Seq<(int, int)>, LexError>(e),
                    Ok(all) => lex_all(s, lexer.pos as int) matches Ok(rest) && all == spans + rest,
                },
            decreases s.len() - lexer.pos,
        {
            let ghost before = lexer.pos as int;
            let t = lexer.next_token();
            match t {
                Err(e) => {
                    assert(lex_all(s, before) == Err::<Seq<(int, int)>, LexError>(e));
                    return Err(e);
                },
                Ok(t) => {
                    let ghost span = scan(s, before)->Ok_0;
                    proof {
                        lemma_scan_bounds(s, before);
                        let old_spans = spans;
                        spans = spans.push(span);
                        assert forall|k: int| 0 <= k < out@.len() + 1 implies #[trigger] denotes(
                            s.subrange(spans[k].0, spans[k].1),
                            out@.push(t)[k],
                        ) by {
                            if k < out@.len() {
                                assert(spans[k] == old_spans[k]);
                            }
                        }
                    }
                    let at_end = matches!(t, Token::EndOfFile);
                    out.push(t);
                    if at_end {
                        proof {
                            assert(span.0 >= s.len());
                            match lex_all(s, start) {
                                Ok(all) => {
                                    assert(all =~= spans);
                                },
                                Err(_) => {},
                            }
                        }
                        return Ok(out);
                    }
                    proof {
                        assert(span.0 < s.len());
                        match lex_all(s, start) {
                            Ok(all) => {
                                let rest = lex_all(s, lexer.pos as int)->Ok_0;
                                assert(all =~= spans + rest);
                            },
                            Err(_) => {},
                        }
                    }
                },
            }
        }
    }
}

} // verus!
