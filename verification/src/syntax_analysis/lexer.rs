//! Lexer: words, numbers, runs of symbols, string literals in double quotes, and comments
//! from `#` to the end of the line.
use vstd::prelude::*;
use crate::text::{
    char_is_alphanumeric, char_is_whitespace, chars_of, i64_literal_value, is_whitespace,
    is_word_char, parse_i64, push_char, str_eq, decimal,
};

verus! {

/// The class of a token.
#[derive(Debug, PartialEq, Eq, Clone, Copy, Structural)]
pub enum TokenKind {
    Keyword,
    Operator,
    Separator,
    Identifier,
    IntLit,
    BoolLit,
    StringLit,
    CharLit,
}

/// The short name of a token class, as the token listing prints it.
pub open spec fn kind_name(k: TokenKind) -> Seq<char> {
    match k {
        TokenKind::Keyword => "key"@,
        TokenKind::Operator => "op"@,
        TokenKind::Separator => "sep"@,
        TokenKind::Identifier => "id"@,
        TokenKind::IntLit => "int"@,
        TokenKind::BoolLit => "bool"@,
        TokenKind::StringLit => "string"@,
        TokenKind::CharLit => "char"@,
    }
}

impl TokenKind {
    /// The short name of the class.
    pub fn as_str(&self) -> (r: &'static str)
        ensures
            r@ == kind_name(*self),
    {
        match self {
            TokenKind::Keyword => "key",
            TokenKind::Operator => "op",
            TokenKind::Separator => "sep",
            TokenKind::Identifier => "id",
            TokenKind::IntLit => "int",
            TokenKind::BoolLit => "bool",
            TokenKind::StringLit => "string",
            TokenKind::CharLit => "char",
        }
    }
}

/// A token with its text, class, and the line and column of its first character.
#[derive(Debug, PartialEq, Clone)]
pub struct Token {
    pub str: String,
    pub kind: TokenKind,
    pub line: usize,
    pub col: usize,
}

/// The value of a token.
pub struct TokenV {
    pub str: Seq<char>,
    pub kind: TokenKind,
    pub line: int,
    pub col: int,
}

impl View for Token {
    type V = TokenV;

    open spec fn view(&self) -> TokenV {
        TokenV { str: self.str@, kind: self.kind, line: self.line as int, col: self.col as int }
    }
}

/// The values of a sequence of tokens.
pub open spec fn tokens_view(ts: Seq<Token>) -> Seq<TokenV> {
    Seq::new(ts.len(), |i: int| ts[i]@)
}

/// A word that names something: word characters only, and neither empty nor `_`.
pub open spec fn valid_identifier(s: Seq<char>) -> bool {
    &&& forall|i: int| 0 <= i < s.len() ==> is_word_char(#[trigger] s[i])
    &&& s.len() > 0
    &&& s != "_"@
}

/// What classifying a token text gives: a class, a text that is no token, or a panic
/// (looking at the first byte of a text that is empty or starts with a character of more
/// than one byte).
pub enum TokenClass {
    Kind(TokenKind),
    Invalid,
    Panic,
}

pub open spec fn is_keyword(s: Seq<char>) -> bool {
    s == "var"@ || s == "if"@ || s == "else"@ || s == "loop"@ || s == "while"@ || s == "continue"@
        || s == "break"@
}

pub open spec fn is_operator(s: Seq<char>) -> bool {
    s == "="@ || s == "+"@ || s == "-"@ || s == "*"@ || s == "/"@ || s == "%"@ || s == "+="@
        || s == "-="@ || s == "*="@ || s == "/="@ || s == "%="@ || s == "!"@ || s == "and"@
        || s == "or"@ || s == "=="@ || s == "!="@ || s == "<"@ || s == "<="@ || s == ">"@
        || s == ">="@
}

pub open spec fn is_separator(s: Seq<char>) -> bool {
    s == ":"@ || s == "("@ || s == ")"@ || s == "["@ || s == "]"@ || s == ","@
}

/// The class of a token text.
pub open spec fn token_class(s: Seq<char>) -> TokenClass {
    if i64_literal_value(s) is Some {
        TokenClass::Kind(TokenKind::IntLit)
    } else if s.len() == 0 || s[0] as u32 >= 128 {
        TokenClass::Panic
    } else if s[0] == '"' {
        TokenClass::Kind(TokenKind::StringLit)
    } else if is_keyword(s) {
        TokenClass::Kind(TokenKind::Keyword)
    } else if is_operator(s) {
        TokenClass::Kind(TokenKind::Operator)
    } else if is_separator(s) {
        TokenClass::Kind(TokenKind::Separator)
    } else if s == "true"@ || s == "false"@ {
        TokenClass::Kind(TokenKind::BoolLit)
    } else if valid_identifier(s) {
        TokenClass::Kind(TokenKind::Identifier)
    } else {
        TokenClass::Invalid
    }
}

/// Why a text cannot be split into tokens.
#[derive(Debug, PartialEq)]
pub enum LexError {
    /// A word or run of symbols that is no token.
    InvalidIdentifier(String),
}

/// The text collected for the next token, with the first character and the position of
/// that character.
pub struct Buffer {
    pub str: String,
    pub first_ch: char,
    pub x: usize,
    pub y: usize,
}

impl Token {
    fn is_valid_identifier(string: &String) -> (r: bool)
        ensures
            r == valid_identifier(string@),
    {
        let chars = chars_of(string.as_str());
        let mut i: usize = 0;
        while i < chars.len()
            invariant
                chars@ == string@,
                0 <= i <= chars.len(),
                forall|j: int| 0 <= j < i ==> is_word_char(#[trigger] chars@[j]),
            decreases chars.len() - i,
        {
            let ch = chars[i];
            if !char_is_alphanumeric(ch) && ch != '_' {
                return false;
            }
            i += 1;
        }
        chars.len() > 0 && !str_eq(string.as_str(), "_")
    }

    fn get_token_kind(string: &String) -> (r: Option<TokenKind>)
        requires
            !(token_class(string@) is Panic),
        ensures
            match r {
                Some(k) => token_class(string@) == TokenClass::Kind(k),
                None => token_class(string@) is Invalid,
            },
    {
        let s = string.as_str();
        if parse_i64(s).is_some() {
            return Some(TokenKind::IntLit);
        }
        let chars = chars_of(s);
        if chars[0] == '"' {
            return Some(TokenKind::StringLit);
        }
        if str_eq(s, "var") || str_eq(s, "if") || str_eq(s, "else") || str_eq(s, "loop")
            || str_eq(s, "while") || str_eq(s, "continue") || str_eq(s, "break") {
            return Some(TokenKind::Keyword);
        }
        if str_eq(s, "=") || str_eq(s, "+") || str_eq(s, "-") || str_eq(s, "*") || str_eq(s, "/")
            || str_eq(s, "%") || str_eq(s, "+=") || str_eq(s, "-=") || str_eq(s, "*=")
            || str_eq(s, "/=") || str_eq(s, "%=") || str_eq(s, "!") || str_eq(s, "and")
            || str_eq(s, "or") || str_eq(s, "==") || str_eq(s, "!=") || str_eq(s, "<")
            || str_eq(s, "<=") || str_eq(s, ">") || str_eq(s, ">=") {
            return Some(TokenKind::Operator);
        }
        if str_eq(s, ":") || str_eq(s, "(") || str_eq(s, ")") || str_eq(s, "[") || str_eq(s, "]")
            || str_eq(s, ",") {
            return Some(TokenKind::Separator);
        }
        if str_eq(s, "true") || str_eq(s, "false") {
            return Some(TokenKind::BoolLit);
        }
        if Token::is_valid_identifier(string) {
            Some(TokenKind::Identifier)
        } else {
            None
        }
    }

    /// The token that the buffer holds, at the buffer's position; an error for a text
    /// that is no token.
    pub fn new(buffer: &Buffer) -> (r: Result<Token, LexError>)
        requires
            !(token_class(buffer.str@) is Panic),
        ensures
            match r {
                Ok(t) => token_class(buffer.str@) == TokenClass::Kind(t.kind) && t.str@ == buffer.str@
                    && t.line == buffer.y && t.col == buffer.x,
                Err(LexError::InvalidIdentifier(s)) => token_class(buffer.str@) is Invalid && s@
                    == buffer.str@,
            },
    {
        match Token::get_token_kind(&buffer.str) {
            Some(kind) => Ok(Token { str: buffer.str.clone(), kind, line: buffer.y, col: buffer.x }),
            None => Err(LexError::InvalidIdentifier(buffer.str.clone())),
        }
    }

    /// The line of the token listing: position, class and quoted text.
    pub fn to_string(&self) -> (r: String)
        ensures
            r@ == decimal(self.line as nat) + ":"@ + decimal(self.col as nat) + "\t"@ + kind_name(
                self.kind,
            ) + "\t\""@ + self.str@ + "\""@,
    {
        let mut r = crate::text::decimal_string(self.line as u64);
        r.append(":");
        crate::text::push_decimal(&mut r, self.col as u64);
        r.append("\t");
        r.append(self.kind.as_str());
        r.append("\t\"");
        r.append(self.str.as_str());
        r.append("\"");
        r
    }
}

} // verus!

verus! {

/// The characters that form runs of symbols.
pub open spec fn is_symbol_char(c: char) -> bool {
    c == '=' || c == '+' || c == '-' || c == '*' || c == '/' || c == '%' || c == '!' || c == '<'
        || c == '>' || c == ':' || c == '(' || c == ')' || c == '[' || c == ']' || c == ','
}

/// The symbols that always stand alone.
pub open spec fn is_lone_symbol(c: char) -> bool {
    c == '[' || c == ']' || c == '(' || c == ')' || c == ',' || c == ':'
}

/// What the lexer is inside of.
pub enum LexMode {
    Normal,
    Comment,
    Quoted,
}

/// Where lexing failed.
pub enum LexFail {
    Invalid(Seq<char>),
    Panic,
}

/// The state of the lexer between two characters.
pub struct LexState {
    pub tokens: Seq<TokenV>,
    pub buf: Seq<char>,
    pub first: char,
    pub bx: int,
    pub by: int,
    pub cx: int,
    pub cy: int,
    pub mode: LexMode,
    pub error: Option<LexFail>,
}

/// The state before the first character.
pub open spec fn initial_state() -> LexState {
    LexState {
        tokens: seq![],
        buf: seq![],
        first: '\0',
        bx: 1,
        by: 1,
        cx: 1,
        cy: 1,
        mode: LexMode::Normal,
        error: None,
    }
}

/// The cursor after a character: a new line starts at column one, a tab is four columns.
pub open spec fn advance(st: LexState, ch: char) -> LexState {
    if ch == '\n' {
        LexState { cx: 1, cy: st.cy + 1, ..st }
    } else if ch == '\t' {
        LexState { cx: st.cx + 4, ..st }
    } else {
        LexState { cx: st.cx + 1, ..st }
    }
}

/// The buffer with one more character; the first one fixes the token's position.
pub open spec fn push(st: LexState, ch: char) -> LexState {
    if st.buf.len() == 0 {
        LexState { buf: seq![ch], first: ch, bx: st.cx, by: st.cy, ..st }
    } else {
        LexState { buf: st.buf.push(ch), ..st }
    }
}

/// The state with the buffer made a token and emptied, or failed.
pub open spec fn emit(st: LexState) -> LexState {
    match token_class(st.buf) {
        TokenClass::Kind(k) => LexState {
            tokens: st.tokens.push(TokenV { str: st.buf, kind: k, line: st.by, col: st.bx }),
            buf: seq![],
            ..st
        },
        TokenClass::Invalid => LexState { error: Some(LexFail::Invalid(st.buf)), ..st },
        TokenClass::Panic => LexState { error: Some(LexFail::Panic), ..st },
    }
}

/// A token ends before `ch` unless the buffer is empty or `ch` continues its run of word
/// characters or of symbols.
pub open spec fn splits(st: LexState, ch: char) -> bool {
    !(st.buf.len() == 0 || (is_word_char(st.first) && is_word_char(ch)) || (is_symbol_char(st.first)
        && is_symbol_char(ch) && !is_lone_symbol(ch)))
}

/// The state after one more character. After a lone `#` the next character is dropped
/// and the rest of the line skipped; after a lone `"` the text up to the next `"` is one
/// token (the character right after the opening quote never closes it).
pub open spec fn step(st: LexState, ch: char) -> LexState {
    if st.error is Some {
        st
    } else {
        match st.mode {
            LexMode::Comment => {
                let st1 = advance(st, ch);
                if ch == '\n' {
                    LexState { buf: seq![], mode: LexMode::Normal, ..st1 }
                } else {
                    st1
                }
            },
            LexMode::Quoted => {
                let st1 = advance(push(st, ch), ch);
                if ch == '"' {
                    LexState { mode: LexMode::Normal, ..emit(st1) }
                } else {
                    st1
                }
            },
            LexMode::Normal => if st.buf == seq!['#'] {
                LexState { mode: LexMode::Comment, ..st }
            } else if st.buf == seq!['"'] {
                LexState { mode: LexMode::Quoted, ..push(st, ch) }
            } else {
                let st1 = if splits(st, ch) {
                    emit(st)
                } else {
                    st
                };
                if st1.error is Some {
                    st1
                } else {
                    let st2 = if !is_whitespace(ch) {
                        push(st1, ch)
                    } else {
                        st1
                    };
                    advance(st2, ch)
                }
            },
        }
    }
}

/// The state after the characters of `s`.
pub open spec fn run(s: Seq<char>) -> LexState
    decreases s.len(),
{
    if s.len() == 0 {
        initial_state()
    } else {
        step(run(s.drop_last()), s.last())
    }
}

/// The state at the end of the text: a string literal still open is a token.
pub open spec fn finish(st: LexState) -> LexState {
    if st.error is None && st.mode is Quoted {
        emit(st)
    } else {
        st
    }
}

/// The outcome of lexing a whole text.
pub open spec fn lexed(s: Seq<char>) -> LexState {
    finish(run(s))
}

proof fn lemma_error_persists(s: Seq<char>, k: int)
    requires
        0 <= k <= s.len(),
        run(s.take(k)).error is Some,
    ensures
        run(s).error == run(s.take(k)).error,
    decreases s.len(),
{
    if k < s.len() {
        assert(s.drop_last().take(k) =~= s.take(k));
        lemma_error_persists(s.drop_last(), k);
    } else {
        assert(s.take(k) =~= s);
    }
}

proof fn lemma_positions(s: Seq<char>)
    ensures
        1 <= run(s).cx <= 1 + 4 * s.len(),
        1 <= run(s).cy <= 1 + s.len(),
        1 <= run(s).bx <= 1 + 4 * s.len(),
        1 <= run(s).by <= 1 + s.len(),
    decreases s.len(),
{
    if s.len() > 0 {
        lemma_positions(s.drop_last());
    }
}

struct Cursor {
    x: usize,
    y: usize,
}

impl Cursor {
    fn new() -> (c: Cursor)
        ensures
            c.x == 1,
            c.y == 1,
    {
        Cursor { x: 1, y: 1 }
    }

    fn advance(&mut self, ch: char)
        requires
            old(self).x < usize::MAX - 4,
            old(self).y < usize::MAX - 1,
        ensures
            ch == '\n' ==> final(self).x == 1 && final(self).y == old(self).y + 1,
            ch == '\t' ==> final(self).x == old(self).x + 4 && final(self).y == old(self).y,
            ch != '\n' && ch != '\t' ==> final(self).x == old(self).x + 1 && final(self).y == old(self).y,
    {
        if ch == '\n' {
            self.x = 1;
            self.y += 1;
        } else if ch == '\t' {
            self.x += 4;
        } else {
            self.x += 1;
        }
    }
}

impl Buffer {
    fn new() -> (b: Buffer)
        ensures
            b.str@ == Seq::<char>::empty(),
            b.first_ch == '\0',
            b.x == 1,
            b.y == 1,
    {
        Buffer { str: String::new(), first_ch: '\0', x: 1, y: 1 }
    }

    fn is_empty(&self) -> (r: bool)
        ensures
            r == (self.str@.len() == 0),
    {
        self.str.as_str().is_empty()
    }

    fn push(&mut self, ch: char, cursor: &Cursor)
        ensures
            old(self).str@.len() == 0 ==> final(self).first_ch == ch && final(self).x == cursor.x
                && final(self).y == cursor.y,
            old(self).str@.len() != 0 ==> final(self).first_ch == old(self).first_ch && final(self).x == old(self).x && final(self).y == old(self).y,
            final(self).str@ == old(self).str@.push(ch),
    {
        if self.is_empty() {
            self.first_ch = ch;
            self.x = cursor.x;
            self.y = cursor.y;
        }
        push_char(&mut self.str, ch);
    }

    fn clear(&mut self)
        ensures
            final(self).str@ == Seq::<char>::empty(),
            final(self).first_ch == old(self).first_ch,
            final(self).x == old(self).x,
            final(self).y == old(self).y,
    {
        self.str = String::new();
    }

    fn is_symbol(ch: char) -> (r: bool)
        ensures
            r == is_symbol_char(ch),
    {
        ch == '=' || ch == '+' || ch == '-' || ch == '*' || ch == '/' || ch == '%' || ch == '!'
            || ch == '<' || ch == '>' || ch == ':' || ch == '(' || ch == ')' || ch == '['
            || ch == ']' || ch == ','
    }

    fn is_id_or_num(ch: char) -> (r: bool)
        ensures
            r == is_word_char(ch),
    {
        char_is_alphanumeric(ch) || ch == '_'
    }

    fn should_tokenize(&self, ch: char) -> (r: bool)
        ensures
            r == !(self.str@.len() == 0 || (is_word_char(self.first_ch) && is_word_char(ch)) || (
            is_symbol_char(self.first_ch) && is_symbol_char(ch) && !is_lone_symbol(ch))),
    {
        !(self.is_empty() || (Buffer::is_id_or_num(self.first_ch) && Buffer::is_id_or_num(ch)) || (
        Buffer::is_symbol(self.first_ch) && Buffer::is_symbol(ch) && ch != '[' && ch != ']' && ch
            != '(' && ch != ')' && ch != ',' && ch != ':'))
    }

    fn is_only(&self, c: char) -> (r: bool)
        ensures
            r == (self.str@ == seq![c]),
    {
        let chars = chars_of(self.str.as_str());
        let r = chars.len() == 1 && chars[0] == c;
        assert(r ==> chars@ =~= seq![c]);
        r
    }
}

/// Lexing the text fails in a panic.
pub open spec fn lex_panics(s: Seq<char>) -> bool {
    lexed(s).error == Some(LexFail::Panic)
}

/// Whether the text of a token is one whose class cannot be read: empty, or starting with
/// a character of more than one byte, and no integer.
fn token_panics(string: &String) -> (r: bool)
    ensures
        r == (token_class(string@) is Panic),
{
    if parse_i64(string.as_str()).is_some() {
        return false;
    }
    let chars = chars_of(string.as_str());
    chars.len() == 0 || (chars[0] as u32) >= 128
}

/// Splits a text into tokens as `lex` does; `None` where lexing it panics.
fn lex_checked(source: String) -> (r: Option<Result<Vec<Token>, LexError>>)
    requires
        source@.len() < usize::MAX / 8,
    ensures
        match r {
            None => lex_panics(source@),
            Some(Ok(ts)) => lexed(source@).error is None && lexed(source@).tokens == tokens_view(ts@),
            Some(Err(LexError::InvalidIdentifier(e))) => lexed(source@).error == Some(LexFail::Invalid(e@)),
        },
{
    let chars = chars_of(source.as_str());
    let mut tokens: Vec<Token> = Vec::new();
    let mut buffer = Buffer::new();
    let mut cursor = Cursor::new();
    let mut mode: u8 = 0;
    let mut k: usize = 0;
    assert(chars@.take(0) =~= Seq::<char>::empty());
    while k < chars.len()
        invariant
            chars@ == source@,
            chars@.len() < usize::MAX / 8,
            0 <= k <= chars.len(),
            mode <= 2,
            ({
                let st = run(chars@.take(k as int));
                &&& st.error is None
                &&& st.tokens == tokens_view(tokens@)
                &&& st.buf == buffer.str@
                &&& st.buf.len() > 0 ==> (st.first == buffer.first_ch && st.bx == buffer.x && st.by
                    == buffer.y)
                &&& st.cx == cursor.x
                &&& st.cy == cursor.y
                &&& (mode == 0 <==> st.mode is Normal)
                &&& (mode == 1 <==> st.mode is Comment)
                &&& (mode == 2 <==> st.mode is Quoted)
                &&& (st.mode is Quoted ==> st.buf.len() > 0 && st.buf[0] == '"')
            }),
        decreases chars.len() - k,
    {
        let ch = chars[k];
        let ghost pre = chars@.take(k as int);
        proof {
            assert(chars@.take(k as int + 1).drop_last() =~= pre);
            assert(chars@.take(k as int + 1).last() == ch);
            lemma_positions(pre);
        }
        if mode == 1 {
            cursor.advance(ch);
            if ch == '\n' {
                buffer.clear();
                mode = 0;
            }
        } else if mode == 2 {
            buffer.push(ch, &cursor);
            cursor.advance(ch);
            if ch == '"' {
                proof {
                    assert(buffer.str@[0] == '"');
                    assert(token_class(buffer.str@) == TokenClass::Kind(TokenKind::StringLit)) by {
                        reveal_strlit("\"");
                    }
                }
                match Token::new(&buffer) {
                    Ok(t) => {
                        let ghost t0 = tokens@;
                        tokens.push(t);
                        assert(tokens_view(tokens@) =~= tokens_view(t0).push(t@));
                    },
                    Err(e) => {
                        return Some(Err(e));
                    },
                }
                buffer.clear();
                mode = 0;
            }
        } else if buffer.is_only('#') {
            mode = 1;
        } else if buffer.is_only('"') {
            buffer.push(ch, &cursor);
            mode = 2;
        } else {
            if buffer.should_tokenize(ch) {
                if token_panics(&buffer.str) {
                    proof {
                        lemma_error_persists(chars@, k as int + 1);
                    }
                    return None;
                }
                match Token::new(&buffer) {
                    Ok(t) => {
                        let ghost t0 = tokens@;
                        tokens.push(t);
                        assert(tokens_view(tokens@) =~= tokens_view(t0).push(t@));
                    },
                    Err(e) => {
                        proof {
                            lemma_error_persists(chars@, k as int + 1);
                        }
                        return Some(Err(e));
                    },
                }
                buffer.clear();
            }
            if !char_is_whitespace(ch) {
                buffer.push(ch, &cursor);
                assert(buffer.str@.len() == 1 ==> buffer.str@ =~= seq![ch]);
            }
            cursor.advance(ch);
        }
        k += 1;
    }
    assert(chars@.take(k as int) =~= chars@);
    if mode == 2 {
        proof {
            assert(token_class(buffer.str@) == TokenClass::Kind(TokenKind::StringLit)) by {
                reveal_strlit("\"");
            }
        }
        match Token::new(&buffer) {
            Ok(t) => {
                let ghost t0 = tokens@;
                tokens.push(t);
                assert(tokens_view(tokens@) =~= tokens_view(t0).push(t@));
            },
            Err(e) => {
                return Some(Err(e));
            },
        }
    }
    Some(Ok(tokens))
}

} // verus!

verus! {

/// Splits a text into tokens: the tokens in order, or the first text that is no token.
pub fn lex(source: String) -> (r: Result<Vec<Token>, LexError>)
    requires
        source@.len() < usize::MAX / 8,
        !lex_panics(source@),
    ensures
        match r {
            Ok(ts) => lexed(source@).error is None && lexed(source@).tokens == tokens_view(ts@),
            Err(LexError::InvalidIdentifier(e)) => lexed(source@).error == Some(LexFail::Invalid(e@)),
        },
{
    match lex_checked(source) {
        Some(r) => r,
        None => Err(LexError::InvalidIdentifier(String::new())),
    }
}

/// Whether lexing the text ends without a panic.
pub fn lexes_without_panic(source: &String) -> (r: bool)
    requires
        source@.len() < usize::MAX / 8,
    ensures
        r == !lex_panics(source@),
{
    lex_checked(source.clone()).is_some()
}

} // verus!

verus! {

/// The text with its whitespace characters removed.
pub open spec fn without_whitespace(s: Seq<char>) -> Seq<char>
    decreases s.len(),
{
    if s.len() == 0 {
        seq![]
    } else if is_whitespace(s.last()) {
        without_whitespace(s.drop_last())
    } else {
        without_whitespace(s.drop_last()).push(s.last())
    }
}

/// The texts of the tokens, one after the other.
pub open spec fn token_texts(ts: Seq<TokenV>) -> Seq<char>
    decreases ts.len(),
{
    if ts.len() == 0 {
        seq![]
    } else {
        token_texts(ts.drop_last()) + ts.last().str
    }
}

/// The line after reading a text: one more than its line ends.
pub open spec fn line_after(s: Seq<char>) -> int
    decreases s.len(),
{
    if s.len() == 0 {
        1
    } else if s.last() == '\n' {
        line_after(s.drop_last()) + 1
    } else {
        line_after(s.drop_last())
    }
}

/// The column after reading a text: one more than the width of its last line, a tab
/// counting four.
pub open spec fn column_after(s: Seq<char>) -> int
    decreases s.len(),
{
    if s.len() == 0 {
        1
    } else if s.last() == '\n' {
        1
    } else if s.last() == '\t' {
        column_after(s.drop_last()) + 4
    } else {
        column_after(s.drop_last()) + 1
    }
}

/// A text with no string literal and no comment.
pub open spec fn plain_text(s: Seq<char>) -> bool {
    forall|i: int| 0 <= i < s.len() ==> s[i] != '"' && s[i] != '#'
}

/// Token `t` starts at character `j` of `s`: its first character is there, and its line
/// and column are those after the characters before it.
pub open spec fn starts_at(t: TokenV, s: Seq<char>, j: int) -> bool {
    &&& 0 <= j < s.len()
    &&& t.str.len() > 0
    &&& t.str[0] == s[j]
    &&& t.line == line_after(s.take(j))
    &&& t.col == column_after(s.take(j))
}

/// Token `t` starts at some character of `s`.
pub open spec fn starts_in(t: TokenV, s: Seq<char>) -> bool {
    exists|j: int| starts_at(t, s, j)
}

/// What the lexer keeps while it reads a plain text without error.
pub open spec fn plain_run(s: Seq<char>) -> bool {
    let st = run(s);
    &&& st.mode is Normal
    &&& token_texts(st.tokens) + st.buf == without_whitespace(s)
    &&& st.cy == line_after(s)
    &&& st.cx == column_after(s)
    &&& forall|k: int| 0 <= k < st.tokens.len() ==> #[trigger] starts_in(st.tokens[k], s)
    &&& st.buf.len() > 0 ==> st.first == st.buf[0] && exists|j: int| starts_at(
        TokenV { str: st.buf, kind: TokenKind::Identifier, line: st.by, col: st.bx },
        s,
        j,
    )
}

proof fn lemma_starts_at_extend(t: TokenV, s: Seq<char>, j: int, c: char)
    requires
        starts_at(t, s, j),
    ensures
        starts_at(t, s.push(c), j),
{
    assert(s.push(c).take(j) =~= s.take(j));
}

proof fn lemma_plain_run(s: Seq<char>)
    requires
        plain_text(s),
        run(s).error is None,
    ensures
        plain_run(s),
    decreases s.len(),
{
    if s.len() == 0 {
        assert(token_texts(Seq::<TokenV>::empty()) + Seq::<char>::empty() =~= Seq::<char>::empty());
    } else {
        let p = s.drop_last();
        let ch = s.last();
        assert(p =~= s.take(s.len() - 1));
        if run(p).error is Some {
            lemma_error_persists(s, s.len() - 1);
        }
        assert(plain_text(p)) by {
            assert forall|i: int| 0 <= i < p.len() implies p[i] != '"' && p[i] != '#' by {
                assert(p[i] == s[i]);
            }
        }
        lemma_plain_run(p);
        let st = run(p);
        assert(ch == s[s.len() - 1]);
        assert(st.buf != seq!['#']) by {
            if st.buf == seq!['#'] {
                let j = choose|j: int| starts_at(TokenV { str: st.buf, kind: TokenKind::Identifier, line: st.by, col: st.bx }, p, j);
                assert(p[j] == '#');
            }
        }
        assert(st.buf != seq!['"']) by {
            if st.buf == seq!['"'] {
                let j = choose|j: int| starts_at(TokenV { str: st.buf, kind: TokenKind::Identifier, line: st.by, col: st.bx }, p, j);
                assert(p[j] == '"');
            }
        }
        let st1 = if splits(st, ch) { emit(st) } else { st };
        assert(st1.error is None) by {
            if st1.error is Some {
                assert(run(s) == st1);
            }
        }
        let st2 = if !is_whitespace(ch) { push(st1, ch) } else { st1 };
        assert(run(s) == advance(st2, ch));
        let fin = run(s);
        if splits(st, ch) {
            assert(token_texts(st1.tokens) == token_texts(st.tokens) + st.buf) by {
                assert(st1.tokens.drop_last() =~= st.tokens);
            }
        }
        assert(token_texts(st1.tokens) + st1.buf =~= without_whitespace(p));
        assert(token_texts(fin.tokens) + fin.buf =~= without_whitespace(s));
        assert forall|k: int| 0 <= k < run(s).tokens.len() implies #[trigger] starts_in(run(s).tokens[k], s) by {
            if k < st.tokens.len() {
                assert(fin.tokens[k] == st.tokens[k]);
                assert(starts_in(st.tokens[k], p));
                let j = choose|j: int| starts_at(st.tokens[k], p, j);
                lemma_starts_at_extend(st.tokens[k], p, j, ch);
                assert(p.push(ch) =~= s);
                assert(starts_at(run(s).tokens[k], s, j));
            } else {
                let j = choose|j: int| starts_at(TokenV { str: st.buf, kind: TokenKind::Identifier, line: st.by, col: st.bx }, p, j);
                lemma_starts_at_extend(TokenV { str: st.buf, kind: TokenKind::Identifier, line: st.by, col: st.bx }, p, j, ch);
                assert(p.push(ch) =~= s);
                assert(fin.tokens[k].str == st.buf && fin.tokens[k].line == st.by && fin.tokens[k].col == st.bx);
                assert(starts_at(run(s).tokens[k], s, j));
            }
        }
        if fin.buf.len() > 0 {
            if st1.buf.len() == 0 {
                assert(s.take(s.len() - 1) =~= p);
                assert(starts_at(TokenV { str: fin.buf, kind: TokenKind::Identifier, line: fin.by, col: fin.bx }, s, s.len() - 1));
            } else {
                let j = choose|j: int| starts_at(TokenV { str: st.buf, kind: TokenKind::Identifier, line: st.by, col: st.bx }, p, j);
                lemma_starts_at_extend(TokenV { str: st.buf, kind: TokenKind::Identifier, line: st.by, col: st.bx }, p, j, ch);
                assert(p.push(ch) =~= s);
                assert(starts_at(TokenV { str: fin.buf, kind: TokenKind::Identifier, line: fin.by, col: fin.bx }, s, j));
            }
        }
        assert(fin.mode is Normal);
        assert(fin.cy == line_after(s));
        assert(fin.cx == column_after(s));
        assert(fin.buf.len() > 0 ==> fin.first == fin.buf[0]);
    }
}

/// Lexing an ASCII text with no string literal and no comment, that ends with whitespace
/// and has no invalid token: the token texts one after the other are the text without its
/// whitespace, and each token starts at a character of the text, at the line and column
/// after the characters before it (a tab counting four columns).
pub proof fn lemma_plain_lexing(s: Seq<char>)
    requires
        plain_text(s),
        forall|i: int| 0 <= i < s.len() ==> (#[trigger] s[i] as u32) < 128,
        s.len() > 0,
        is_whitespace(s.last()),
        lexed(s).error is None,
    ensures
        token_texts(lexed(s).tokens) == without_whitespace(s),
        forall|k: int| 0 <= k < lexed(s).tokens.len() ==> #[trigger] starts_in(lexed(s).tokens[k], s),
{
    let p = s.drop_last();
    let ch = s.last();
    assert(ch == s[s.len() - 1]);
    if run(p).error is Some {
        assert(p =~= s.take(s.len() - 1));
        lemma_error_persists(s, s.len() - 1);
    }
    lemma_plain_run(s);
    lemma_plain_run(p);
    let st = run(p);
    if st.buf.len() > 0 {
        assert((st.buf[0] as u32) < 128) by {
            let j = choose|j: int| starts_at(TokenV { str: st.buf, kind: TokenKind::Identifier, line: st.by, col: st.bx }, p, j);
            assert(p[j] == s[j]);
        }
        assert(!is_word_char(ch));
        assert(!is_symbol_char(ch));
        assert(splits(st, ch));
    }
    assert(run(s).buf.len() == 0);
    assert(token_texts(run(s).tokens) + run(s).buf =~= token_texts(run(s).tokens));
}

} // verus!
