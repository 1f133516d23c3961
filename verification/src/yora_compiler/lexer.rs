//! Lexer of the indentation-based language: words, numbers and runs of symbols.
use vstd::prelude::*;
use crate::text::{
    char_is_alphanumeric, char_is_whitespace, chars_of, i64_literal_value, is_whitespace,
    is_word_char, parse_i64, push_char, str_eq,
};

verus! {

/// The class of a token.
#[derive(Debug, PartialEq, Eq, Clone, Copy, Structural)]
pub enum TokenKind {
    Keyword,
    Operator,
    Separator,
    Identifier,
    IntLit,
    BoolLit,
}

impl TokenKind {
    /// The short name of the class, as the token listing prints it.
    pub fn as_str(&self) -> (r: &'static str)
        ensures
            r@ == kind_name(*self),
    {
        match self {
            TokenKind::Keyword => "key",
            TokenKind::Operator => "op",
            TokenKind::Separator => "sep",
            TokenKind::Identifier => "id",
            TokenKind::IntLit => "int",
            TokenKind::BoolLit => "bool",
        }
    }
}

/// The short name of a token class.
pub open spec fn kind_name(k: TokenKind) -> Seq<char> {
    match k {
        TokenKind::Keyword => "key"@,
        TokenKind::Operator => "op"@,
        TokenKind::Separator => "sep"@,
        TokenKind::Identifier => "id"@,
        TokenKind::IntLit => "int"@,
        TokenKind::BoolLit => "bool"@,
    }
}

/// A token with its text, class, and the line and column of its first character.
#[derive(Debug, PartialEq)]
pub struct Token {
    pub str: String,
    pub kind: TokenKind,
    pub line: usize,
    pub col: usize,
}

/// The value of a token.
pub struct TokenV {
    pub str: Seq<char>,
    pub kind: TokenKind,
    pub line: int,
    pub col: int,
}

impl View for Token {
    type V = TokenV;

    open spec fn view(&self) -> TokenV {
        TokenV { str: self.str@, kind: self.kind, line: self.line as int, col: self.col as int }
    }
}

/// The views of a sequence of tokens.
pub open spec fn tokens_view(ts: Seq<Token>) -> Seq<TokenV> {
    Seq::new(ts.len(), |i: int| ts[i]@)
}

/// A word that names a variable: word characters only, and neither empty nor `_`.
pub open spec fn valid_identifier(s: Seq<char>) -> bool {
    &&& forall|i: int| 0 <= i < s.len() ==> is_word_char(#[trigger] s[i])
    &&& s.len() > 0
    &&& s != "_"@
}

/// The class of a token text; `None` for text that is no token.
pub open spec fn token_kind(s: Seq<char>) -> Option<TokenKind> {
    if i64_literal_value(s) is Some {
        Some(TokenKind::IntLit)
    } else if s == "var"@ || s == "if"@ || s == "loop"@ || s == "while"@ || s == "break"@ {
        Some(TokenKind::Keyword)
    } else if s == "="@ || s == "+"@ || s == "-"@ || s == "*"@ || s == "/"@ || s == "%"@
        || s == "+="@ || s == "-="@ || s == "*="@ || s == "/="@ || s == "!"@ || s == "and"@
        || s == "or"@ || s == "=="@ || s == "!="@ || s == "<"@ || s == "<="@ || s == ">"@
        || s == ">="@ {
        Some(TokenKind::Operator)
    } else if s == ":"@ || s == "("@ || s == ")"@ {
        Some(TokenKind::Separator)
    } else if s == "true"@ || s == "false"@ {
        Some(TokenKind::BoolLit)
    } else if valid_identifier(s) {
        Some(TokenKind::Identifier)
    } else {
        None
    }
}

impl Token {
    /// Whether the text is a valid identifier.
    fn is_valid_identifier(string: &String) -> (r: bool)
        ensures
            r == valid_identifier(string@),
    {
        let chars = chars_of(string.as_str());
        let mut i: usize = 0;
        while i < chars.len()
            invariant
                chars@ == string@,
                0 <= i <= chars.len(),
                forall|j: int| 0 <= j < i ==> is_word_char(#[trigger] chars@[j]),
            decreases chars.len() - i,
        {
            let ch = chars[i];
            if !char_is_alphanumeric(ch) && ch != '_' {
                return false;
            }
            i += 1;
        }
        chars.len() > 0 && !str_eq(string.as_str(), "_")
    }

    /// The class of a token text, or `None` when it is no token.
    fn get_token_kind(string: &String) -> (r: Option<TokenKind>)
        ensures
            r == token_kind(string@),
    {
        let s = string.as_str();
        if parse_i64(s).is_some() {
            return Some(TokenKind::IntLit);
        }
        if str_eq(s, "var") || str_eq(s, "if") || str_eq(s, "loop") || str_eq(s, "while") || str_eq(s, "break") {
            return Some(TokenKind::Keyword);
        }
        if str_eq(s, "=") || str_eq(s, "+") || str_eq(s, "-") || str_eq(s, "*") || str_eq(s, "/")
            || str_eq(s, "%") || str_eq(s, "+=") || str_eq(s, "-=") || str_eq(s, "*=") || str_eq(s, "/=")
            || str_eq(s, "!") || str_eq(s, "and") || str_eq(s, "or") || str_eq(s, "==") || str_eq(s, "!=")
            || str_eq(s, "<") || str_eq(s, "<=") || str_eq(s, ">") || str_eq(s, ">=") {
            return Some(TokenKind::Operator);
        }
        if str_eq(s, ":") || str_eq(s, "(") || str_eq(s, ")") {
            return Some(TokenKind::Separator);
        }
        if str_eq(s, "true") || str_eq(s, "false") {
            return Some(TokenKind::BoolLit);
        }
        if Token::is_valid_identifier(string) {
            Some(TokenKind::Identifier)
        } else {
            None
        }
    }

    /// The class of a token text, or `None` when it is no token.
    pub fn kind_of(string: &String) -> (r: Option<TokenKind>)
        ensures
            r == token_kind(string@),
    {
        Token::get_token_kind(string)
    }

    /// The token that the buffer holds, or `None` when its text is no token.
    fn new(buffer: &Buffer) -> (r: Option<Token>)
        ensures
            match r {
                Some(t) => token_kind(buffer.string@) == Some(t.kind) && t.str@ == buffer.string@
                    && t.line == buffer.y && t.col == buffer.x,
                None => token_kind(buffer.string@) is None,
            },
    {
        match Token::get_token_kind(&buffer.string) {
            Some(kind) => Some(Token { str: buffer.string.clone(), kind, line: buffer.y, col: buffer.x }),
            None => None,
        }
    }

    /// The line of the token listing: position, class and quoted text.
    pub fn to_string(&self) -> (r: String)
        ensures
            r@ == crate::text::decimal(self.line as nat) + ":"@ + crate::text::decimal(self.col as nat)
                + "\t"@ + kind_name(self.kind) + "\t\""@ + self.str@ + "\""@,
    {
        let mut r = crate::text::decimal_string(self.line as u64);
        r.append(":");
        crate::text::push_decimal(&mut r, self.col as u64);
        r.append("\t");
        r.append(self.kind.as_str());
        r.append("\t\"");
        r.append(self.str.as_str());
        r.append("\"");
        r
    }
}


/// The characters that form runs of symbols.
pub open spec fn is_symbol_char(c: char) -> bool {
    c == '=' || c == '+' || c == '-' || c == '*' || c == '/' || c == '%' || c == '!' || c == '<'
        || c == '>' || c == ':' || c == '(' || c == ')'
}

/// The state of the lexer between two characters.
pub struct LexState {
    pub tokens: Seq<TokenV>,
    pub buf: Seq<char>,
    pub first: char,
    pub bx: int,
    pub by: int,
    pub cx: int,
    pub cy: int,
    pub error: Option<Seq<char>>,
}

/// The state before the first character.
pub open spec fn initial_state() -> LexState {
    LexState { tokens: seq![], buf: seq![], first: '\0', bx: 1, by: 1, cx: 1, cy: 1, error: None }
}

/// A token ends before `ch` unless the buffer is empty or `ch` continues its run of
/// word characters or of symbols.
pub open spec fn splits(st: LexState, ch: char) -> bool {
    !(st.buf.len() == 0 || (is_word_char(st.first) && is_word_char(ch)) || (is_symbol_char(st.first)
        && is_symbol_char(ch)))
}

/// The state after one more character.
pub open spec fn step(st: LexState, ch: char) -> LexState {
    if st.error is Some {
        st
    } else {
        let st1 = if splits(st, ch) {
            match token_kind(st.buf) {
                Some(k) => LexState {
                    tokens: st.tokens.push(TokenV { str: st.buf, kind: k, line: st.by, col: st.bx }),
                    buf: seq![],
                    ..st
                },
                None => LexState { error: Some(st.buf), ..st },
            }
        } else {
            st
        };
        if st1.error is Some {
            st1
        } else {
            let st2 = if !is_whitespace(ch) {
                if st1.buf.len() == 0 {
                    LexState { buf: seq![ch], first: ch, bx: st1.cx, by: st1.cy, ..st1 }
                } else {
                    LexState { buf: st1.buf.push(ch), ..st1 }
                }
            } else {
                st1
            };
            if ch == '\n' {
                LexState { cx: 1, cy: st2.cy + 1, ..st2 }
            } else if ch == '\t' {
                LexState { cx: st2.cx + 4, ..st2 }
            } else {
                LexState { cx: st2.cx + 1, ..st2 }
            }
        }
    }
}

/// The state after the characters of `s`.
pub open spec fn run(s: Seq<char>) -> LexState
    decreases s.len(),
{
    if s.len() == 0 {
        initial_state()
    } else {
        step(run(s.drop_last()), s.last())
    }
}

/// Why a text cannot be split into tokens.
#[derive(Debug, PartialEq)]
pub enum LexError {
    /// A word or run of symbols that is no token.
    InvalidIdentifier(String),
}

/// The tokens of a text: the tokens completed before its end (a token still in the
/// buffer when the text ends is not produced), or the first text that is no token.
pub open spec fn lex_spec(s: Seq<char>) -> Result<Seq<TokenV>, Seq<char>> {
    match run(s).error {
        Some(e) => Err(e),
        None => Ok(run(s).tokens),
    }
}

proof fn lemma_error_persists(s: Seq<char>, k: int)
    requires
        0 <= k <= s.len(),
        run(s.take(k)).error is Some,
    ensures
        run(s).error == run(s.take(k)).error,
    decreases s.len(),
{
    if k < s.len() {
        assert(s.drop_last().take(k) =~= s.take(k));
        lemma_error_persists(s.drop_last(), k);
    } else {
        assert(s.take(k) =~= s);
    }
}

proof fn lemma_positions(s: Seq<char>)
    ensures
        1 <= run(s).cx <= 1 + 4 * s.len(),
        1 <= run(s).cy <= 1 + s.len(),
        1 <= run(s).bx <= 1 + 4 * s.len(),
        1 <= run(s).by <= 1 + s.len(),
    decreases s.len(),
{
    if s.len() > 0 {
        lemma_positions(s.drop_last());
    }
}

struct Buffer {
    string: String,
    first_ch: char,
    x: usize,
    y: usize,
}

struct Cursor {
    x: usize,
    y: usize,
}

impl Buffer {
    fn new() -> (b: Buffer)
        ensures
            b.string@ == Seq::<char>::empty(),
            b.first_ch == '\0',
            b.x == 1,
            b.y == 1,
    {
        Buffer { string: String::new(), first_ch: '\0', x: 1, y: 1 }
    }

    fn push(&mut self, ch: char, cursor: &Cursor)
        ensures
            old(self).string@.len() == 0 ==> final(self).first_ch == ch && final(self).x == cursor.x
                && final(self).y == cursor.y,
            old(self).string@.len() != 0 ==> final(self).first_ch == old(self).first_ch
                && final(self).x == old(self).x && final(self).y == old(self).y,
            final(self).string@ == old(self).string@.push(ch),
    {
        if self.is_empty() {
            self.first_ch = ch;
            self.x = cursor.x;
            self.y = cursor.y;
        }
        push_char(&mut self.string, ch);
    }

    fn clear(&mut self)
        ensures
            final(self).string@ == Seq::<char>::empty(),
            final(self).first_ch == old(self).first_ch,
            final(self).x == old(self).x,
            final(self).y == old(self).y,
    {
        self.string = String::new();
    }

    fn is_empty(&self) -> (r: bool)
        ensures
            r == (self.string@.len() == 0),
    {
        let chars = chars_of(self.string.as_str());
        chars.len() == 0
    }

    fn is_symbol(ch: char) -> (r: bool)
        ensures
            r == is_symbol_char(ch),
    {
        ch == '=' || ch == '+' || ch == '-' || ch == '*' || ch == '/' || ch == '%' || ch == '!'
            || ch == '<' || ch == '>' || ch == ':' || ch == '(' || ch == ')'
    }

    fn is_id_or_num(ch: char) -> (r: bool)
        ensures
            r == is_word_char(ch),
    {
        char_is_alphanumeric(ch) || ch == '_'
    }

    fn should_tokenize(&self, ch: char) -> (r: bool)
        ensures
            r == !(self.string@.len() == 0 || (is_word_char(self.first_ch) && is_word_char(ch))
                || (is_symbol_char(self.first_ch) && is_symbol_char(ch))),
    {
        !(self.is_empty() || (Buffer::is_id_or_num(self.first_ch) && Buffer::is_id_or_num(ch))
            || (Buffer::is_symbol(self.first_ch) && Buffer::is_symbol(ch)))
    }
}

impl Cursor {
    fn new() -> (c: Cursor)
        ensures
            c.x == 1,
            c.y == 1,
    {
        Cursor { x: 1, y: 1 }
    }

    fn advance(&mut self, ch: char)
        requires
            old(self).x < usize::MAX - 4,
            old(self).y < usize::MAX - 1,
        ensures
            ch == '\n' ==> final(self).x == 1 && final(self).y == old(self).y + 1,
            ch == '\t' ==> final(self).x == old(self).x + 4 && final(self).y == old(self).y,
            ch != '\n' && ch != '\t' ==> final(self).x == old(self).x + 1 && final(self).y == old(self).y,
    {
        if ch == '\n' {
            self.x = 1;
            self.y += 1;
        } else if ch == '\t' {
            self.x += 4;
        } else {
            self.x += 1;
        }
    }
}

/// Splits a text into tokens.
pub fn lex(source: String) -> (r: Result<Vec<Token>, LexError>)
    requires
        source@.len() < usize::MAX / 8,
    ensures
        match r {
            Ok(ts) => lex_spec(source@) == Ok::<Seq<TokenV>, Seq<char>>(tokens_view(ts@)),
            Err(LexError::InvalidIdentifier(e)) => lex_spec(source@) == Err::<Seq<TokenV>, Seq<char>>(e@),
        },
{
    let chars = chars_of(source.as_str());
    let mut tokens: Vec<Token> = Vec::new();
    let mut buffer = Buffer::new();
    let mut cursor = Cursor::new();
    let mut k: usize = 0;
    assert(chars@.take(0) =~= Seq::<char>::empty());
    while k < chars.len()
        invariant
            chars@ == source@,
            chars@.len() < usize::MAX / 8,
            0 <= k <= chars.len(),
            ({
                let st = run(chars@.take(k as int));
                &&& st.error is None
                &&& st.tokens == tokens_view(tokens@)
                &&& st.buf == buffer.string@
                &&& st.buf.len() > 0 ==> (st.first == buffer.first_ch && st.bx == buffer.x && st.by == buffer.y)
                &&& st.cx == cursor.x
                &&& st.cy == cursor.y
            }),
        decreases chars.len() - k,
    {
        let ch = chars[k];
        let ghost pre = chars@.take(k as int);
        proof {
            assert(chars@.take(k as int + 1).drop_last() =~= pre);
            assert(chars@.take(k as int + 1).last() == ch);
            lemma_positions(pre);
        }
        if buffer.should_tokenize(ch) {
            match Token::new(&buffer) {
                Some(t) => {
                    let ghost t0 = tokens@;
                    tokens.push(t);
                    assert(tokens_view(tokens@) =~= tokens_view(t0).push(t@));
                },
                None => {
                    proof {
                        lemma_error_persists(chars@, k as int + 1);
                    }
                    return Err(LexError::InvalidIdentifier(buffer.string));
                },
            }
            buffer.clear();
        }
        if !char_is_whitespace(ch) {
            buffer.push(ch, &cursor);
            assert(buffer.string@.len() == 1 ==> buffer.string@ =~= seq![ch]);
        }
        cursor.advance(ch);
        k += 1;
    }
    assert(chars@.take(k as int) =~= chars@);
    Ok(tokens)
}

} // verus!
