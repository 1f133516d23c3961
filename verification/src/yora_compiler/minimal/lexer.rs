//! Lexer of the minimal dialect: statements end with `;` and blocks sit between braces.
use vstd::prelude::*;
use crate::text::{char_is_alphanumeric, char_is_whitespace, chars_of, is_ascii_digit, is_whitespace, is_word_char, push_char, str_eq};

verus! {

/// A token of the minimal dialect.
#[derive(Debug, PartialEq, Clone)]
pub enum Token {
    Exit,
    Var,
    If,
    Identifier(String),
    IntLit(String),
    BoolLit(String),
    OpenParen,
    CloseParen,
    OpenBrace,
    CloseBrace,
    SemiColon,
    Assign,
    Add,
    Sub,
    Mul,
    Div,
    Mod,
    Equals,
    NotEquals,
    Less,
    LessEquals,
    Greater,
    GreaterEquals,
    /// A character that begins no token.
    Unknown(char),
}

/// The mathematical value of a token: its text as a sequence of characters.
pub enum TokenV {
    Exit,
    Var,
    If,
    Identifier(Seq<char>),
    IntLit(Seq<char>),
    BoolLit(Seq<char>),
    OpenParen,
    CloseParen,
    OpenBrace,
    CloseBrace,
    SemiColon,
    Assign,
    Add,
    Sub,
    Mul,
    Div,
    Mod,
    Equals,
    NotEquals,
    Less,
    LessEquals,
    Greater,
    GreaterEquals,
    Unknown(char),
}

impl View for Token {
    type V = TokenV;

    open spec fn view(&self) -> TokenV {
        match self {
            Token::Exit => TokenV::Exit,
            Token::Var => TokenV::Var,
            Token::If => TokenV::If,
            Token::Identifier(s) => TokenV::Identifier(s@),
            Token::IntLit(s) => TokenV::IntLit(s@),
            Token::BoolLit(s) => TokenV::BoolLit(s@),
            Token::OpenParen => TokenV::OpenParen,
            Token::CloseParen => TokenV::CloseParen,
            Token::OpenBrace => TokenV::OpenBrace,
            Token::CloseBrace => TokenV::CloseBrace,
            Token::SemiColon => TokenV::SemiColon,
            Token::Assign => TokenV::Assign,
            Token::Add => TokenV::Add,
            Token::Sub => TokenV::Sub,
            Token::Mul => TokenV::Mul,
            Token::Div => TokenV::Div,
            Token::Mod => TokenV::Mod,
            Token::Equals => TokenV::Equals,
            Token::NotEquals => TokenV::NotEquals,
            Token::Less => TokenV::Less,
            Token::LessEquals => TokenV::LessEquals,
            Token::Greater => TokenV::Greater,
            Token::GreaterEquals => TokenV::GreaterEquals,
            Token::Unknown(c) => TokenV::Unknown(*c),
        }
    }
}

/// The views of a sequence of tokens.
pub open spec fn tokens_view(ts: Seq<Token>) -> Seq<TokenV> {
    Seq::new(ts.len(), |i: int| ts[i]@)
}

/// The end of the run of characters satisfying `p` that starts at `i`.
pub open spec fn run_end(s: Seq<char>, i: int, digits: bool) -> int
    decreases s.len() - i,
{
    if 0 <= i < s.len() && (if digits { is_ascii_digit(s[i]) } else { is_word_char(s[i]) }) {
        run_end(s, i + 1, digits)
    } else {
        i
    }
}

/// The token that a word (a run of letters, digits and `_`) stands for.
pub open spec fn word_token(w: Seq<char>) -> TokenV {
    if w == "exit"@ {
        TokenV::Exit
    } else if w == "var"@ {
        TokenV::Var
    } else if w == "if"@ {
        TokenV::If
    } else if w == "true"@ || w == "false"@ {
        TokenV::BoolLit(w)
    } else {
        TokenV::Identifier(w)
    }
}

/// The symbol token at `i` and the number of characters it takes.
pub open spec fn symbol_token(s: Seq<char>, i: int) -> (TokenV, int) {
    let c = s[i];
    let next_is_eq = i + 1 < s.len() && s[i + 1] == '=';
    if c == '(' {
        (TokenV::OpenParen, 1)
    } else if c == ')' {
        (TokenV::CloseParen, 1)
    } else if c == '{' {
        (TokenV::OpenBrace, 1)
    } else if c == '}' {
        (TokenV::CloseBrace, 1)
    } else if c == ';' {
        (TokenV::SemiColon, 1)
    } else if c == '+' {
        (TokenV::Add, 1)
    } else if c == '-' {
        (TokenV::Sub, 1)
    } else if c == '*' {
        (TokenV::Mul, 1)
    } else if c == '/' {
        (TokenV::Div, 1)
    } else if c == '%' {
        (TokenV::Mod, 1)
    } else if c == '=' {
        if next_is_eq { (TokenV::Equals, 2) } else { (TokenV::Assign, 1) }
    } else if c == '!' && next_is_eq {
        (TokenV::NotEquals, 2)
    } else if c == '<' {
        if next_is_eq { (TokenV::LessEquals, 2) } else { (TokenV::Less, 1) }
    } else if c == '>' {
        if next_is_eq { (TokenV::GreaterEquals, 2) } else { (TokenV::Greater, 1) }
    } else {
        (TokenV::Unknown(c), 1)
    }
}

/// The tokens of `s` from position `i` on: white space separates tokens, a run of
/// digits is an integer literal, a run of word characters is a keyword, a boolean
/// literal or an identifier, and anything else is a symbol.
pub open spec fn lex_from(s: Seq<char>, i: int) -> Seq<TokenV>
    decreases s.len() - i,
{
    if i < 0 || i >= s.len() {
        seq![]
    } else if is_whitespace(s[i]) {
        lex_from(s, i + 1)
    } else if is_ascii_digit(s[i]) {
        let e = run_end(s, i, true);
        if i < e <= s.len() {
            seq![TokenV::IntLit(s.subrange(i, e))] + lex_from(s, e)
        } else {
            seq![]
        }
    } else if is_word_char(s[i]) {
        let e = run_end(s, i, false);
        if i < e <= s.len() {
            seq![word_token(s.subrange(i, e))] + lex_from(s, e)
        } else {
            seq![]
        }
    } else {
        let (t, n) = symbol_token(s, i);
        if 1 <= n && i + n <= s.len() {
            seq![t] + lex_from(s, i + n)
        } else {
            seq![]
        }
    }
}

proof fn lemma_run_end(s: Seq<char>, i: int, digits: bool)
    requires
        0 <= i <= s.len(),
    ensures
        i <= run_end(s, i, digits) <= s.len(),
        forall|k: int|
            i <= k < run_end(s, i, digits) ==> (if digits { is_ascii_digit(s[k]) } else {
                is_word_char(s[k])
            }),
    decreases s.len() - i,
{
    if i < s.len() && (if digits { is_ascii_digit(s[i]) } else { is_word_char(s[i]) }) {
        lemma_run_end(s, i + 1, digits);
    }
}

fn scan_run(chars: &Vec<char>, start: usize, digits: bool) -> (e: usize)
    requires
        start <= chars.len(),
    ensures
        e == run_end(chars@, start as int, digits),
{
    let mut e = start;
    while e < chars.len()
        invariant
            start <= e <= chars.len(),
            run_end(chars@, start as int, digits) == run_end(chars@, e as int, digits),
        decreases chars.len() - e,
    {
        let c = chars[e];
        let ok = if digits {
            '0' <= c && c <= '9'
        } else {
            char_is_alphanumeric(c) || c == '_'
        };
        if !ok {
            return e;
        }
        e += 1;
    }
    e
}

fn collect(chars: &Vec<char>, start: usize, end: usize) -> (s: String)
    requires
        start <= end <= chars.len(),
    ensures
        s@ == chars@.subrange(start as int, end as int),
{
    let mut s = String::new();
    let mut k = start;
    while k < end
        invariant
            start <= k <= end <= chars.len(),
            s@ == chars@.subrange(start as int, k as int),
        decreases end - k,
    {
        push_char(&mut s, chars[k]);
        k += 1;
        assert(s@ =~= chars@.subrange(start as int, k as int));
    }
    s
}

fn word(s: String) -> (t: Token)
    ensures
        t@ == word_token(s@),
{
    if str_eq(s.as_str(), "exit") {
        Token::Exit
    } else if str_eq(s.as_str(), "var") {
        Token::Var
    } else if str_eq(s.as_str(), "if") {
        Token::If
    } else if str_eq(s.as_str(), "true") || str_eq(s.as_str(), "false") {
        Token::BoolLit(s)
    } else {
        Token::Identifier(s)
    }
}

fn symbol(chars: &Vec<char>, i: usize) -> (r: (Token, usize))
    requires
        i < chars.len(),
    ensures
        (r.0@, r.1 as int) == symbol_token(chars@, i as int),
        1 <= r.1,
        i + r.1 <= chars.len(),
{
    let c = chars[i];
    let next_is_eq = i + 1 < chars.len() && chars[i + 1] == '=';
    if c == '(' {
        (Token::OpenParen, 1)
    } else if c == ')' {
        (Token::CloseParen, 1)
    } else if c == '{' {
        (Token::OpenBrace, 1)
    } else if c == '}' {
        (Token::CloseBrace, 1)
    } else if c == ';' {
        (Token::SemiColon, 1)
    } else if c == '+' {
        (Token::Add, 1)
    } else if c == '-' {
        (Token::Sub, 1)
    } else if c == '*' {
        (Token::Mul, 1)
    } else if c == '/' {
        (Token::Div, 1)
    } else if c == '%' {
        (Token::Mod, 1)
    } else if c == '=' {
        if next_is_eq { (Token::Equals, 2) } else { (Token::Assign, 1) }
    } else if c == '!' && next_is_eq {
        (Token::NotEquals, 2)
    } else if c == '<' {
        if next_is_eq { (Token::LessEquals, 2) } else { (Token::Less, 1) }
    } else if c == '>' {
        if next_is_eq { (Token::GreaterEquals, 2) } else { (Token::Greater, 1) }
    } else {
        (Token::Unknown(c), 1)
    }
}

/// Splits the source text into tokens.
pub fn lex(source: String) -> (tokens: Vec<Token>)
    ensures
        tokens_view(tokens@) == lex_from(source@, 0),
{
    let chars = chars_of(source.as_str());
    let mut tokens: Vec<Token> = Vec::new();
    let mut i: usize = 0;
    while i < chars.len()
        invariant
            chars@ == source@,
            0 <= i <= chars.len(),
            tokens_view(tokens@) + lex_from(chars@, i as int) == lex_from(chars@, 0),
        decreases chars.len() - i,
    {
        let ghost old_tokens = tokens_view(tokens@);
        let c = chars[i];
        if char_is_whitespace(c) {
            i += 1;
        } else if '0' <= c && c <= '9' {
            let e = scan_run(&chars, i, true);
            proof {
                lemma_run_end(chars@, i as int + 1, true);
                assert(run_end(chars@, i as int, true) == run_end(chars@, i as int + 1, true));
            }
            let text = collect(&chars, i, e);
            tokens.push(Token::IntLit(text));
            proof {
                assert(tokens_view(tokens@) =~= old_tokens + seq![TokenV::IntLit(chars@.subrange(i as int, e as int))]);
            }
            i = e;
        } else if char_is_alphanumeric(c) || c == '_' {
            let e = scan_run(&chars, i, false);
            proof {
                lemma_run_end(chars@, i as int + 1, false);
                assert(run_end(chars@, i as int, false) == run_end(chars@, i as int + 1, false));
            }
            let text = collect(&chars, i, e);
            let t = word(text);
            tokens.push(t);
            proof {
                assert(tokens_view(tokens@) =~= old_tokens + seq![word_token(chars@.subrange(i as int, e as int))]);
            }
            i = e;
        } else {
            let (t, n) = symbol(&chars, i);
            tokens.push(t);
            proof {
                assert(tokens_view(tokens@) =~= old_tokens + seq![symbol_token(chars@, i as int).0]);
            }
            i = i + n;
        }
    }
    proof {
        assert(tokens_view(tokens@) + lex_from(chars@, i as int) =~= tokens_view(tokens@));
    }
    tokens
}

} // verus!
