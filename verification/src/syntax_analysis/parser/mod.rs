//! Parser of the block-structured language: statements by line and indentation,
//! expressions by operator priority.
use vstd::prelude::*;
use crate::syntax_analysis::lexer::{Token, TokenKind, TokenV, TokenClass, Buffer, tokens_view, token_class};
use crate::syntax_analysis::parser::expression::{Expression, ExpressionKind, ExprV, EKindV, token_type, exprs_view};
use crate::syntax_analysis::parser::op::op_of_text;
use crate::syntax_analysis::parser::statement::{Statement, StatementKind, StmtV, SKindV, stmts_view, args_view};
use crate::types::{PrimitiveType, type_of_text};
use crate::text::str_eq;

pub mod op;
pub mod expression;
pub mod statement;

verus! {

/// The priority of an operator: operands split at the operator of highest priority, the
/// last among equals; `None` for an operator that has none.
pub open spec fn op_priority(s: Seq<char>) -> Option<nat> {
    if s == "*"@ || s == "/"@ {
        Some(1)
    } else if s == "+"@ || s == "%"@ || s == "-"@ {
        Some(2)
    } else if s == "!"@ {
        Some(3)
    } else if s == "=="@ || s == "!="@ || s == "<"@ || s == "<="@ || s == ">"@ || s == ">="@ {
        Some(4)
    } else if s == "and"@ || s == "or"@ {
        Some(5)
    } else {
        None
    }
}

/// The token classes that stand alone as an expression.
pub open spec fn is_literal_kind(k: TokenKind) -> bool {
    k == TokenKind::Identifier || k == TokenKind::BoolLit || k == TokenKind::IntLit || k
        == TokenKind::StringLit
}

/// An expression at a token's position, typed by the token.
pub open spec fn at_token(kind: EKindV, t: TokenV) -> ExprV {
    ExprV { kind, line: t.line, col: t.col, typ: token_type(t.kind, t.str) }
}

/// A call named by a token; `None` for an operator token that is no operator.
pub open spec fn mk_call(t: TokenV, args: Seq<ExprV>) -> Option<ExprV> {
    if t.kind == TokenKind::Operator && op_of_text(t.str) is None {
        None
    } else {
        Some(at_token(EKindV::Call(t.str, args), t))
    }
}

/// Where a scan for the operator to split at stops.
pub enum Scan {
    Split(int, nat),
    Paren,
    Fail,
}

/// Scanning the first `k` tokens: stops at the first `(`, fails at an operator without a
/// priority, else gives the position and priority of the split.
pub open spec fn scan(t: Seq<TokenV>, k: int) -> Scan
    decreases k,
{
    if k <= 0 {
        Scan::Split(0, 0)
    } else {
        match scan(t, k - 1) {
            Scan::Split(pos, pri) => if t[k - 1].str == "("@ {
                Scan::Paren
            } else if t[k - 1].kind == TokenKind::Operator {
                match op_priority(t[k - 1].str) {
                    None => Scan::Fail,
                    Some(p) => if pri <= p {
                        Scan::Split(k - 1, p)
                    } else {
                        Scan::Split(pos, pri)
                    },
                }
            } else {
                Scan::Split(pos, pri)
            },
            other => other,
        }
    }
}

/// The expression that tokens spell; `None` where parsing fails.
pub open spec fn parse_expression(t: Seq<TokenV>) -> Option<ExprV>
    decreases t.len(), t.len() + 3,
{
    let len = t.len();
    if len == 0 {
        None
    } else if len == 1 {
        if is_literal_kind(t[0].kind) {
            Some(at_token(EKindV::Lit(t[0].str), t[0]))
        } else {
            None
        }
    } else if t[1].str == "("@ && t[len - 1].str == ")"@ {
        match call_args(t, 2, 2) {
            Some(args) => mk_call(t[0], args),
            None => None,
        }
    } else {
        match scan(t, len as int) {
            Scan::Paren => parse_parentheses(t),
            Scan::Fail => None,
            Scan::Split(pos, pri) => if pri != 0 && 0 <= pos < len {
                match parse_expression(t.subrange(0, pos)) {
                    None => None,
                    Some(a) => match parse_expression(t.subrange(pos + 1, len as int)) {
                        None => None,
                        Some(b) => mk_call(t[pos], seq![a, b]),
                    },
                }
            } else {
                None
            },
        }
    }
}

/// The arguments of a call expression from token `k` on, the current one started at
/// `start`: each `,` or `)` ends one.
pub open spec fn call_args(t: Seq<TokenV>, k: int, start: int) -> Option<Seq<ExprV>>
    decreases t.len(), t.len() - k + 1,
{
    if k >= t.len() || start < 2 || k < start {
        Some(seq![])
    } else if t[k].str == ","@ || t[k].str == ")"@ {
        match parse_expression(t.subrange(start, k)) {
            None => None,
            Some(a) => match call_args(t, k + 1, k + 1) {
                None => None,
                Some(rest) => Some(seq![a] + rest),
            },
        }
    } else {
        call_args(t, k + 1, start)
    }
}

/// The index of the first token with the given text from `k` on, or the length.
pub open spec fn find_text(t: Seq<TokenV>, k: int, s: Seq<char>) -> int
    decreases t.len() - k,
{
    if k >= t.len() || k < 0 {
        t.len() as int
    } else if t[k].str == s {
        k
    } else {
        find_text(t, k + 1, s)
    }
}

/// The index after the `)` that closes a parenthesis open `num` deep at `end`; `None`
/// where the tokens end first.
pub open spec fn paren_end(t: Seq<TokenV>, end: int, num: int) -> Option<int>
    decreases t.len() - end,
{
    if num <= 0 {
        Some(end)
    } else if end >= t.len() || end < 0 {
        None
    } else if t[end].str == "("@ {
        paren_end(t, end + 1, num + 1)
    } else if t[end].str == ")"@ {
        paren_end(t, end + 1, num - 1)
    } else {
        paren_end(t, end + 1, num)
    }
}

/// An expression with parentheses: the parenthesised part, joined to what stands left of
/// it by the token before the `(` and to what stands right of it by the token after the
/// `)`.
pub open spec fn parse_parentheses(t: Seq<TokenV>) -> Option<ExprV>
    decreases t.len(), 1int,
{
    let len = t.len() as int;
    let start = find_text(t, 0, "("@);
    if start >= len || start < 0 {
        None
    } else {
        match paren_end(t, start + 1, 1) {
            None => None,
            Some(end) => if start + 2 <= end <= len {
                match parse_expression(t.subrange(start + 1, end - 1)) {
                    None => None,
                    Some(e0) => {
                        let e1 = if start > 1 {
                            match parse_expression(t.subrange(0, start - 1)) {
                                None => None,
                                Some(l) => mk_call(t[start - 1], seq![l, e0]),
                            }
                        } else {
                            Some(e0)
                        };
                        match e1 {
                            None => None,
                            Some(e1) => if end < len {
                                match parse_expression(t.subrange(end + 1, len)) {
                                    None => None,
                                    Some(r) => mk_call(t[end], seq![e1, r]),
                                }
                            } else {
                                Some(e1)
                            },
                        }
                    },
                }
            } else {
                None
            },
        }
    }
}

/// The texts of assignment operators.
pub open spec fn is_assign_op(s: Seq<char>) -> bool {
    s == "="@ || s == "+="@ || s == "-="@ || s == "*="@ || s == "/="@ || s == "%="@
}

/// The index of the first assignment operator from `k` on, or the length.
pub open spec fn first_assign(t: Seq<TokenV>, k: int) -> int
    decreases t.len() - k,
{
    if k >= t.len() || k < 0 {
        t.len() as int
    } else if is_assign_op(t[k].str) {
        k
    } else {
        first_assign(t, k + 1)
    }
}

/// A statement at a token's position.
pub open spec fn at_stmt(kind: SKindV, t: TokenV) -> StmtV {
    StmtV { kind, line: t.line, col: t.col }
}

/// The arguments of a call statement from token `k` on: the tokens collected in `buf`
/// since the last top-level `,`, with `depth` parentheses open.
pub open spec fn call_stmt_args(t: Seq<TokenV>, k: int, buf: Seq<TokenV>, depth: int) -> Option<Seq<ExprV>>
    decreases t.len(), t.len() - k + 1,
{
    if k >= t.len() || k < 2 {
        if buf.len() < t.len() {
            match parse_expression(buf) {
                Some(e) => Some(seq![e]),
                None => None,
            }
        } else {
            None
        }
    } else {
        let s = t[k].str;
        if s == ","@ {
            if depth == 0 {
                if buf.len() < t.len() {
                    match parse_expression(buf) {
                        None => None,
                        Some(e) => match call_stmt_args(t, k + 1, seq![], depth) {
                            None => None,
                            Some(rest) => Some(seq![e] + rest),
                        },
                    }
                } else {
                    None
                }
            } else {
                call_stmt_args(t, k + 1, buf.push(t[k]), depth)
            }
        } else if s == "("@ {
            call_stmt_args(t, k + 1, buf.push(t[k]), depth + 1)
        } else if s == ")"@ {
            if depth > 0 {
                call_stmt_args(t, k + 1, buf.push(t[k]), depth - 1)
            } else {
                call_stmt_args(t, k + 1, buf, depth)
            }
        } else {
            call_stmt_args(t, k + 1, buf.push(t[k]), depth)
        }
    }
}

/// The operator token that a compound assignment stands for: the first character of
/// the second token, at that token's position.
pub open spec fn compound_op(t: Seq<TokenV>) -> Option<TokenV> {
    if t.len() < 2 || t[1].str.len() == 0 || t[1].str[0] as u32 >= 128 {
        None
    } else {
        match token_class(t[1].str.take(1)) {
            TokenClass::Kind(k) => Some(TokenV { str: t[1].str.take(1), kind: k, line: t[1].line, col: t[1].col }),
            _ => None,
        }
    }
}

/// The statement that tokens spell; `None` where parsing fails.
pub open spec fn parse_statement(t: Seq<TokenV>) -> Option<StmtV>
    decreases t.len(), t.len() + 4,
{
    let len = t.len() as int;
    if len == 0 {
        None
    } else if len == 1 {
        if t[0].str == "continue"@ {
            Some(at_stmt(SKindV::Continue, t[0]))
        } else if t[0].str == "break"@ {
            Some(at_stmt(SKindV::Break, t[0]))
        } else {
            None
        }
    } else if t[0].str == "var"@ {
        let hint: Option<Option<PrimitiveType>> = if len > 3 && t[2].str == ":"@ {
            match type_of_text(t[3].str) {
                Some(ty) => Some(Some(ty)),
                None => None,
            }
        } else {
            Some(None)
        };
        let value: Option<Option<ExprV>> = if len > 5 && t[4].str == "="@ {
            match parse_expression(t.subrange(5, len)) {
                Some(e) => Some(Some(e)),
                None => None,
            }
        } else if len > 3 && t[2].str == "="@ {
            match parse_expression(t.subrange(3, len)) {
                Some(e) => Some(Some(e)),
                None => None,
            }
        } else {
            Some(None)
        };
        match hint {
            None => None,
            Some(h) => match value {
                None => None,
                Some(v) => Some(at_stmt(SKindV::Declare { name: t[1].str, type_hint: h, value: v }, t[0])),
            },
        }
    } else if t[1].str == "("@ && t[len - 1].str == ")"@ {
        match call_stmt_args(t, 2, seq![], 0) {
            Some(args) => Some(at_stmt(SKindV::Call { name: t[0].str, args }, t[0])),
            None => None,
        }
    } else if t[0].str == "return"@ {
        match parse_expression(t.subrange(1, len)) {
            Some(v) => Some(at_stmt(SKindV::Return { value: v }, t[0])),
            None => None,
        }
    } else {
        let pos = first_assign(t, 0);
        if pos >= len || pos < 0 {
            None
        } else if t[pos].str == "="@ {
            match parse_expression(t.subrange(0, pos)) {
                None => None,
                Some(d) => match parse_expression(t.subrange(pos + 1, len)) {
                    None => None,
                    Some(s) => Some(at_stmt(SKindV::Assign { dest: d, src: s }, t[0])),
                },
            }
        } else if pos == 0 {
            None
        } else {
            match compound_op(t) {
                None => None,
                Some(op) => {
                    let src = seq![t[0], op] + t.subrange(pos + 1, len);
                    if src.len() <= len {
                        match parse_expression(t.subrange(0, pos)) {
                            None => None,
                            Some(d) => match parse_expression(src) {
                                None => None,
                                Some(s) => Some(at_stmt(SKindV::Assign { dest: d, src: s }, t[0])),
                            },
                        }
                    } else {
                        None
                    }
                },
            }
        }
    }
}

/// The keywords that open a block.
pub open spec fn is_block_keyword(s: Seq<char>) -> bool {
    s == "if"@ || s == "loop"@ || s == "while"@ || s == "pr"@
}

/// The end of a block opened at `start`: the tokens right of its column, and `else`s.
pub open spec fn block_end(t: Seq<TokenV>, start: int, e: int) -> int
    decreases t.len() - e,
{
    if 0 <= e < t.len() && 0 <= start < t.len() && (t[e].str == "else"@ || t[start].col < t[e].col) {
        block_end(t, start, e + 1)
    } else {
        e
    }
}

/// The end of the line of the token at `start`.
pub open spec fn line_end(t: Seq<TokenV>, start: int, e: int) -> int
    decreases t.len() - e,
{
    if 0 <= e < t.len() && 0 <= start < t.len() && t[start].line == t[e].line {
        line_end(t, start, e + 1)
    } else {
        e
    }
}

/// The end of the condition of an `if`: the first `:` from `k` on, but not past the
/// second-to-last token.
pub open spec fn cond_end(t: Seq<TokenV>, k: int) -> int
    decreases t.len() - k,
{
    if 0 <= k && k + 1 < t.len() && t[k].str != ":"@ {
        cond_end(t, k + 1)
    } else {
        k
    }
}

/// The end of the first block of an `if`: the tokens right of its column, but not past
/// the last token.
pub open spec fn if_body_end(t: Seq<TokenV>, k: int) -> int
    decreases t.len() - k,
{
    if 0 <= k && k + 1 < t.len() && t[0].col < t[k].col {
        if_body_end(t, k + 1)
    } else {
        k
    }
}

/// An `if` or `else if` statement.
pub open spec fn parse_if(t: Seq<TokenV>) -> Option<StmtV>
    decreases t.len(), t.len() + 5,
{
    let len = t.len() as int;
    if len == 0 {
        None
    } else {
        let start: int = if t[0].str == "else"@ { 2 } else { 1 };
        let start_seq = cond_end(t, start);
        let end_seq = if_body_end(t, start + 1);
        if end_seq >= len || start > len || start_seq < start || start_seq + 1 > len || end_seq < start + 1 {
            None
        } else if t[end_seq].str == "else"@ {
            if start_seq + 1 > end_seq {
                None
            } else {
                match parse_expression(t.subrange(start, start_seq)) {
                    None => None,
                    Some(c) => match parse_sequence(t.subrange(start_seq + 1, end_seq)) {
                        None => None,
                        Some(tb) => match parse_else(t.subrange(end_seq, len)) {
                            None => None,
                            Some(fb) => Some(at_stmt(SKindV::IfElse { cond: c, true_block: tb, false_block: fb }, t[0])),
                        },
                    },
                }
            }
        } else {
            match parse_expression(t.subrange(start, start_seq)) {
                None => None,
                Some(c) => match parse_sequence(t.subrange(start_seq + 1, len)) {
                    None => None,
                    Some(b) => Some(at_stmt(SKindV::If { cond: c, block: b }, t[0])),
                },
            }
        }
    }
}

/// The statements of an `else`: an `else if` statement, or the block after `else :`.
pub open spec fn parse_else(t: Seq<TokenV>) -> Option<Seq<StmtV>>
    decreases t.len(), t.len() + 6,
{
    if t.len() < 2 {
        None
    } else if t[1].str == "if"@ {
        match parse_if(t) {
            Some(s) => Some(seq![s]),
            None => None,
        }
    } else if t[1].str == ":"@ {
        parse_sequence(t.subrange(2, t.len() as int))
    } else {
        None
    }
}

/// A `loop` statement.
pub open spec fn parse_loop(t: Seq<TokenV>) -> Option<StmtV>
    decreases t.len(), t.len() + 5,
{
    if t.len() < 2 || t[1].str != ":"@ {
        None
    } else {
        match parse_sequence(t.subrange(2, t.len() as int)) {
            Some(b) => Some(at_stmt(SKindV::Loop { block: b }, t[0])),
            None => None,
        }
    }
}

/// A `while` statement, placed at its `:`.
pub open spec fn parse_while(t: Seq<TokenV>) -> Option<StmtV>
    decreases t.len(), t.len() + 5,
{
    let len = t.len() as int;
    let start_seq = find_text(t, 0, ":"@);
    if start_seq < 1 || start_seq + 1 > len {
        None
    } else {
        match parse_expression(t.subrange(1, start_seq)) {
            None => None,
            Some(c) => match parse_sequence(t.subrange(start_seq + 1, len)) {
                None => None,
                Some(b) => Some(at_stmt(SKindV::While { cond: c, block: b }, t[start_seq])),
            },
        }
    }
}

/// The arguments of a procedure, in groups of four tokens from `k` to `end`: a name, a
/// separator, a type, a separator.
pub open spec fn proc_args(t: Seq<TokenV>, k: int, end: int) -> Option<Seq<(Seq<char>, Option<PrimitiveType>)>>
    decreases end - k + 4,
{
    if k >= end || k < 0 || end > t.len() {
        Some(seq![])
    } else if end - k < 3 {
        None
    } else {
        match type_of_text(t[k + 2].str) {
            None => None,
            Some(ty) => match proc_args(t, k + 4, end) {
                None => None,
                Some(rest) => Some(seq![(t[k].str, Some(ty))] + rest),
            },
        }
    }
}

/// A procedure: `pr name ( arguments ) :` and its block.
pub open spec fn parse_procedure(t: Seq<TokenV>) -> Option<StmtV>
    decreases t.len(), t.len() + 5,
{
    let len = t.len() as int;
    let start_seq = find_text(t, 0, ")"@);
    if start_seq < 3 || start_seq + 2 > len || len < 2 {
        None
    } else {
        match proc_args(t, 3, start_seq) {
            None => None,
            Some(args) => match parse_sequence(t.subrange(start_seq + 2, len)) {
                None => None,
                Some(b) => Some(at_stmt(SKindV::Procedure { name: t[1].str, args, ret: None, block: b }, t[0])),
            },
        }
    }
}

/// The end of the statement that starts at token `start`: a block for a block keyword,
/// else the line.
pub open spec fn seq_end(t: Seq<TokenV>, start: int) -> int {
    if 0 <= start < t.len() && is_block_keyword(t[start].str) {
        block_end(t, start, start + 1)
    } else {
        line_end(t, start, start + 1)
    }
}

/// The statement in tokens `start` to `e`, read by its first keyword.
pub open spec fn stmt_at(t: Seq<TokenV>, start: int, e: int) -> Option<StmtV>
    decreases t.len(), t.len() + 7,
{
    if 0 <= start < e <= t.len() {
        let kw = t[start].str;
        let sub = t.subrange(start, e);
        if kw == "if"@ {
            parse_if(sub)
        } else if kw == "loop"@ {
            parse_loop(sub)
        } else if kw == "while"@ {
            parse_while(sub)
        } else if kw == "pr"@ {
            parse_procedure(sub)
        } else {
            parse_statement(sub)
        }
    } else {
        None
    }
}

/// The statements from token `start` on.
pub open spec fn seq_from(t: Seq<TokenV>, start: int) -> Option<Seq<StmtV>>
    decreases t.len(), 2 * t.len() + 10 - start,
{
    let len = t.len() as int;
    if start >= len || start < 0 {
        Some(seq![])
    } else {
        let e = seq_end(t, start);
        if e <= start || e > len {
            None
        } else {
            match stmt_at(t, start, e) {
                None => None,
                Some(s) => match seq_from(t, e) {
                    None => None,
                    Some(rest) => Some(seq![s] + rest),
                },
            }
        }
    }
}

/// The statements that tokens spell, one after the other up to the last token; `None`
/// where parsing fails.
pub open spec fn parse_sequence(t: Seq<TokenV>) -> Option<Seq<StmtV>>
    decreases t.len(), 2 * t.len() + 11,
{
    if t.len() == 1 {
        match parse_statement(t) {
            Some(s) => Some(seq![s]),
            None => None,
        }
    } else {
        seq_from(t, 0)
    }
}

} // verus!

verus! {

/// The tokens from `lo` to `hi`, by value.
pub open spec fn slice(v: Seq<Token>, lo: int, hi: int) -> Seq<TokenV> {
    tokens_view(v).subrange(lo, hi)
}

/// Why tokens spell no program.
#[derive(Debug, PartialEq)]
pub enum ParseError {
    /// Some statement or expression is malformed.
    InvalidSyntax,
}

/// The parser of statements and expressions.
pub struct Parser;

proof fn lemma_scan_stops(t: Seq<TokenV>, k: int, m: int)
    requires
        0 <= k <= m,
        !(scan(t, k) is Split),
    ensures
        scan(t, m) == scan(t, k),
    decreases m - k,
{
    if m > k {
        lemma_scan_stops(t, k, m - 1);
    }
}

proof fn lemma_scan_pos(t: Seq<TokenV>, k: int)
    requires
        0 <= k,
    ensures
        scan(t, k) matches Scan::Split(pos, pri) ==> (pri != 0 ==> 0 <= pos < k),
    decreases k,
{
    if k > 0 {
        lemma_scan_pos(t, k - 1);
    }
}

fn copy_token(t: &Token) -> (r: Token)
    ensures
        r@ == t@,
{
    Token { str: t.str.clone(), kind: t.kind, line: t.line, col: t.col }
}

impl Parser {
    fn get_op_priority(operation: &Token) -> (r: Option<u8>)
        ensures
            match r {
                Some(p) => op_priority(operation.str@) == Some(p as nat),
                None => op_priority(operation.str@) is None,
            },
    {
        let s = operation.str.as_str();
        if str_eq(s, "*") || str_eq(s, "/") {
            Some(1)
        } else if str_eq(s, "+") || str_eq(s, "%") || str_eq(s, "-") {
            Some(2)
        } else if str_eq(s, "!") {
            Some(3)
        } else if str_eq(s, "==") || str_eq(s, "!=") || str_eq(s, "<") || str_eq(s, "<=") || str_eq(s, ">")
            || str_eq(s, ">=") {
            Some(4)
        } else if str_eq(s, "and") || str_eq(s, "or") {
            Some(5)
        } else {
            None
        }
    }

    fn make_call(name: &Token, args: Vec<Expression>) -> (r: Option<Expression>)
        ensures
            match r {
                Some(e) => mk_call(name@, exprs_view(args@)) == Some(e@),
                None => mk_call(name@, exprs_view(args@)) is None,
            },
    {
        if name.kind == TokenKind::Operator {
            if crate::syntax_analysis::parser::op::Op::from_str(name.str.as_str()).is_none() {
                return None;
            }
        }
        let ghost av = exprs_view(args@);
        let e = Expression::new(ExpressionKind::Call(name.str.clone(), args), name);
        assert(e@ == at_token(EKindV::Call(name@.str, av), name@));
        Some(e)
    }

    fn get_operation(operation: &Token, arg1: Expression, arg2: Expression) -> (r: Option<Expression>)
        ensures
            match r {
                Some(e) => mk_call(operation@, seq![arg1@, arg2@]) == Some(e@),
                None => mk_call(operation@, seq![arg1@, arg2@]) is None,
            },
    {
        let ghost a1 = arg1@;
        let ghost a2 = arg2@;
        let mut args: Vec<Expression> = Vec::new();
        args.push(arg1);
        args.push(arg2);
        proof {
            crate::syntax_analysis::parser::expression::lemma_exprs_view(args@);
            assert(exprs_view(args@) =~= seq![a1, a2]);
        }
        Self::make_call(operation, args)
    }

    fn get_expression(tokens: &Vec<Token>, lo: usize, hi: usize) -> (r: Option<Expression>)
        requires
            lo <= hi <= tokens.len(),
        ensures
            match r {
                Some(e) => parse_expression(slice(tokens@, lo as int, hi as int)) == Some(e@),
                None => parse_expression(slice(tokens@, lo as int, hi as int)) is None,
            },
        decreases hi - lo, hi - lo + 3,
    {
        let ghost t = slice(tokens@, lo as int, hi as int);
        let len = hi - lo;
        if len == 0 {
            return None;
        }
        assert(t[0] == tokens@[lo as int]@);
        if len == 1 {
            let tok = &tokens[lo];
            if tok.kind == TokenKind::Identifier || tok.kind == TokenKind::BoolLit || tok.kind
                == TokenKind::IntLit || tok.kind == TokenKind::StringLit {
                return Some(Expression::new(ExpressionKind::Lit(tok.str.clone()), tok));
            }
            return None;
        }
        assert(t[1] == tokens@[lo + 1]@);
        assert(t[len - 1] == tokens@[hi - 1]@);
        if str_eq(tokens[lo + 1].str.as_str(), "(") && str_eq(tokens[hi - 1].str.as_str(), ")") {
            return match Self::get_call_args(tokens, lo, hi, lo + 2, lo + 2) {
                Some(args) => Self::make_call(&tokens[lo], args),
                None => None,
            };
        }
        let mut pos: usize = lo;
        let mut priority: u8 = 0;
        let mut i: usize = lo;
        while i < hi
            invariant
                lo <= i <= hi <= tokens.len(),
                t == slice(tokens@, lo as int, hi as int),
                len == hi - lo,
                len >= 2,
                !(t[1].str == "("@ && t[len - 1].str == ")"@),
                lo <= pos <= hi,
                scan(t, i - lo) == Scan::Split(pos - lo, priority as nat),
                priority != 0 ==> pos < i,
            decreases hi - i,
        {
            assert(t[i - lo] == tokens@[i as int]@);
            if str_eq(tokens[i].str.as_str(), "(") {
                proof {
                    lemma_scan_stops(t, i - lo + 1, len as int);
                }
                return Self::get_parentheses(tokens, lo, hi);
            }
            if tokens[i].kind == TokenKind::Operator {
                match Self::get_op_priority(&tokens[i]) {
                    None => {
                        proof {
                            lemma_scan_stops(t, i - lo + 1, len as int);
                        }
                        return None;
                    },
                    Some(p) => {
                        if priority <= p {
                            pos = i;
                            priority = p;
                        }
                    },
                }
            }
            i += 1;
        }
        if priority != 0 {
            assert(t.subrange(0, pos - lo) =~= slice(tokens@, lo as int, pos as int));
            assert(t.subrange(pos - lo + 1, len as int) =~= slice(tokens@, pos + 1, hi as int));
            assert(t[pos - lo] == tokens@[pos as int]@);
            let a = match Self::get_expression(tokens, lo, pos) {
                Some(a) => a,
                None => {
                    return None;
                },
            };
            let b = match Self::get_expression(tokens, pos + 1, hi) {
                Some(b) => b,
                None => {
                    return None;
                },
            };
            Self::get_operation(&tokens[pos], a, b)
        } else {
            None
        }
    }

    fn get_call_args(tokens: &Vec<Token>, lo: usize, hi: usize, k: usize, start: usize) -> (r: Option<Vec<Expression>>)
        requires
            lo + 2 <= start <= k <= hi <= tokens.len(),
        ensures
            match r {
                Some(v) => call_args(slice(tokens@, lo as int, hi as int), k - lo, start - lo) == Some(
                    exprs_view(v@),
                ),
                None => call_args(slice(tokens@, lo as int, hi as int), k - lo, start - lo) is None,
            },
        decreases hi - lo, hi - k + 1,
    {
        let ghost t = slice(tokens@, lo as int, hi as int);
        if k >= hi {
            let v: Vec<Expression> = Vec::new();
            assert(exprs_view(v@) =~= seq![]);
            return Some(v);
        }
        assert(t[k - lo] == tokens@[k as int]@);
        if str_eq(tokens[k].str.as_str(), ",") || str_eq(tokens[k].str.as_str(), ")") {
            assert(t.subrange(start - lo, k - lo) =~= slice(tokens@, start as int, k as int));
            let a = match Self::get_expression(tokens, start, k) {
                Some(a) => a,
                None => {
                    return None;
                },
            };
            let rest = match Self::get_call_args(tokens, lo, hi, k + 1, k + 1) {
                Some(rest) => rest,
                None => {
                    return None;
                },
            };
            let ghost av = a@;
            let ghost rv = exprs_view(rest@);
            let ghost rs = rest@;
            let mut v: Vec<Expression> = Vec::new();
            v.push(a);
            let mut rest = rest;
            v.append(&mut rest);
            proof {
                crate::syntax_analysis::parser::expression::lemma_exprs_view(v@);
                crate::syntax_analysis::parser::expression::lemma_exprs_view(rs);
                assert(exprs_view(v@) =~= seq![av] + rv);
            }
            Some(v)
        } else {
            Self::get_call_args(tokens, lo, hi, k + 1, start)
        }
    }

    fn get_parentheses(tokens: &Vec<Token>, lo: usize, hi: usize) -> (r: Option<Expression>)
        requires
            lo <= hi <= tokens.len(),
        ensures
            match r {
                Some(e) => parse_parentheses(slice(tokens@, lo as int, hi as int)) == Some(e@),
                None => parse_parentheses(slice(tokens@, lo as int, hi as int)) is None,
            },
        decreases hi - lo, 1int,
    {
        let ghost t = slice(tokens@, lo as int, hi as int);
        let mut start: usize = lo;
        while start < hi && !str_eq(tokens[start].str.as_str(), "(")
            invariant
                lo <= start <= hi <= tokens.len(),
                t == slice(tokens@, lo as int, hi as int),
                find_text(t, 0, "("@) == find_text(t, start - lo, "("@),
            decreases hi - start,
        {
            assert(t[start - lo] == tokens@[start as int]@);
            start += 1;
        }
        if start >= hi {
            return None;
        }
        assert(t[start - lo] == tokens@[start as int]@);
        let mut end: usize = start + 1;
        let mut num: usize = 1;
        while end < hi && num > 0
            invariant
                lo <= start < end <= hi <= tokens.len(),
                t == slice(tokens@, lo as int, hi as int),
                num <= end - start,
                paren_end(t, start - lo + 1, 1) == paren_end(t, end - lo, num as int),
                num == 0 ==> end >= start + 2,
            decreases hi - end,
        {
            assert(t[end - lo] == tokens@[end as int]@);
            if str_eq(tokens[end].str.as_str(), "(") {
                num += 1;
            } else if str_eq(tokens[end].str.as_str(), ")") {
                num -= 1;
            }
            end += 1;
        }
        if num != 0 {
            return None;
        }
        assert(t.subrange(start - lo + 1, end - lo - 1) =~= slice(tokens@, start + 1, end - 1));
        let e0 = match Self::get_expression(tokens, start + 1, end - 1) {
            Some(e) => e,
            None => {
                return None;
            },
        };
        let e1 = if start > lo + 1 {
            assert(t.subrange(0, start - lo - 1) =~= slice(tokens@, lo as int, start - 1));
            assert(t[start - lo - 1] == tokens@[start - 1]@);
            let l = match Self::get_expression(tokens, lo, start - 1) {
                Some(l) => l,
                None => {
                    return None;
                },
            };
            match Self::get_operation(&tokens[start - 1], l, e0) {
                Some(e) => e,
                None => {
                    return None;
                },
            }
        } else {
            e0
        };
        if end < hi {
            assert(t.subrange(end - lo + 1, hi - lo) =~= slice(tokens@, end + 1, hi as int));
            assert(t[end - lo] == tokens@[end as int]@);
            let r = match Self::get_expression(tokens, end + 1, hi) {
                Some(r) => r,
                None => {
                    return None;
                },
            };
            Self::get_operation(&tokens[end], e1, r)
        } else {
            Some(e1)
        }
    }
}

} // verus!

verus! {

fn first_char_string(s: &String) -> (r: Option<String>)
    ensures
        match r {
            Some(c) => s@.len() > 0 && s@[0] as u32 <= 127 && c@ == s@.take(1),
            None => s@.len() == 0 || s@[0] as u32 >= 128,
        },
{
    let chars = crate::text::chars_of(s.as_str());
    if chars.len() == 0 {
        return None;
    }
    let c = chars[0];
    if (c as u32) >= 128 {
        return None;
    }
    let mut r = String::new();
    crate::text::push_char(&mut r, c);
    assert(r@ =~= s@.take(1));
    Some(r)
}

impl Parser {
    fn get_call_stmt_args(
        tokens: &Vec<Token>,
        lo: usize,
        hi: usize,
        k: usize,
        buf: Vec<Token>,
        depth: usize,
    ) -> (r: Option<Vec<Expression>>)
        requires
            lo + 2 <= k <= hi <= tokens.len(),
            buf.len() <= k - lo - 2,
            depth <= k - lo,
        ensures
            match r {
                Some(v) => call_stmt_args(slice(tokens@, lo as int, hi as int), k - lo, tokens_view(buf@), depth as int) == Some(exprs_view(v@)),
                None => call_stmt_args(slice(tokens@, lo as int, hi as int), k - lo, tokens_view(buf@), depth as int) is None,
            },
        decreases hi - lo, hi - k + 1,
    {
        let ghost t = slice(tokens@, lo as int, hi as int);
        let ghost bv = tokens_view(buf@);
        if k >= hi {
            assert(tokens_view(buf@) =~= slice(buf@, 0, buf.len() as int));
            return match Self::get_expression(&buf, 0, buf.len()) {
                Some(e) => {
                    let mut v: Vec<Expression> = Vec::new();
                    let ghost ev = e@;
                    v.push(e);
                    proof {
                        crate::syntax_analysis::parser::expression::lemma_exprs_view(v@);
                        assert(exprs_view(v@) =~= seq![ev]);
                    }
                    Some(v)
                },
                None => None,
            };
        }
        assert(t[k - lo] == tokens@[k as int]@);
        let s = tokens[k].str.as_str();
        if str_eq(s, ",") {
            if depth == 0 {
                assert(tokens_view(buf@) =~= slice(buf@, 0, buf.len() as int));
                let e = match Self::get_expression(&buf, 0, buf.len()) {
                    Some(e) => e,
                    None => {
                        return None;
                    },
                };
                let empty: Vec<Token> = Vec::new();
                assert(tokens_view(empty@) =~= seq![]);
                let rest = match Self::get_call_stmt_args(tokens, lo, hi, k + 1, empty, depth) {
                    Some(rest) => rest,
                    None => {
                        return None;
                    },
                };
                let ghost ev = e@;
                let ghost rs = rest@;
                let mut v: Vec<Expression> = Vec::new();
                v.push(e);
                let mut rest = rest;
                v.append(&mut rest);
                proof {
                    crate::syntax_analysis::parser::expression::lemma_exprs_view(v@);
                    crate::syntax_analysis::parser::expression::lemma_exprs_view(rs);
                    assert(exprs_view(v@) =~= seq![ev] + exprs_view(rs));
                }
                Some(v)
            } else {
                let mut buf = buf;
                buf.push(copy_token(&tokens[k]));
                assert(tokens_view(buf@) =~= bv.push(t[k - lo]));
                Self::get_call_stmt_args(tokens, lo, hi, k + 1, buf, depth)
            }
        } else if str_eq(s, "(") {
            let mut buf = buf;
            buf.push(copy_token(&tokens[k]));
            assert(tokens_view(buf@) =~= bv.push(t[k - lo]));
            Self::get_call_stmt_args(tokens, lo, hi, k + 1, buf, depth + 1)
        } else if str_eq(s, ")") {
            if depth > 0 {
                let mut buf = buf;
                buf.push(copy_token(&tokens[k]));
                assert(tokens_view(buf@) =~= bv.push(t[k - lo]));
                Self::get_call_stmt_args(tokens, lo, hi, k + 1, buf, depth - 1)
            } else {
                Self::get_call_stmt_args(tokens, lo, hi, k + 1, buf, depth)
            }
        } else {
            let mut buf = buf;
            buf.push(copy_token(&tokens[k]));
            assert(tokens_view(buf@) =~= bv.push(t[k - lo]));
            Self::get_call_stmt_args(tokens, lo, hi, k + 1, buf, depth)
        }
    }

    fn get_statement(tokens: &Vec<Token>, lo: usize, hi: usize) -> (r: Option<Statement>)
        requires
            lo <= hi <= tokens.len(),
        ensures
            match r {
                Some(s) => parse_statement(slice(tokens@, lo as int, hi as int)) == Some(s@),
                None => parse_statement(slice(tokens@, lo as int, hi as int)) is None,
            },
        decreases hi - lo, hi - lo + 4,
    {
        let ghost t = slice(tokens@, lo as int, hi as int);
        let len = hi - lo;
        if len == 0 {
            return None;
        }
        assert(t[0] == tokens@[lo as int]@);
        let first = &tokens[lo];
        if len == 1 {
            if str_eq(first.str.as_str(), "continue") {
                return Some(Statement::new(StatementKind::Continue, first));
            } else if str_eq(first.str.as_str(), "break") {
                return Some(Statement::new(StatementKind::Break, first));
            } else {
                return None;
            }
        }
        assert(t[1] == tokens@[lo + 1]@);
        assert(t[len - 1] == tokens@[hi - 1]@);
        if str_eq(first.str.as_str(), "var") {
            if len > 3 {
                assert(t[2] == tokens@[lo + 2]@);
                assert(t[3] == tokens@[lo + 3]@);
            }
            if len > 5 {
                assert(t[4] == tokens@[lo + 4]@);
            }
            let type_hint = if len > 3 && str_eq(tokens[lo + 2].str.as_str(), ":") {
                match PrimitiveType::parse(tokens[lo + 3].str.as_str()) {
                    Some(ty) => Some(ty),
                    None => {
                        return None;
                    },
                }
            } else {
                None
            };
            let value = if len > 5 && str_eq(tokens[lo + 4].str.as_str(), "=") {
                assert(t.subrange(5, len as int) =~= slice(tokens@, lo + 5, hi as int));
                match Self::get_expression(tokens, lo + 5, hi) {
                    Some(e) => Some(e),
                    None => {
                        return None;
                    },
                }
            } else if len > 3 && str_eq(tokens[lo + 2].str.as_str(), "=") {
                assert(t.subrange(3, len as int) =~= slice(tokens@, lo + 3, hi as int));
                match Self::get_expression(tokens, lo + 3, hi) {
                    Some(e) => Some(e),
                    None => {
                        return None;
                    },
                }
            } else {
                None
            };
            return Some(
                Statement::new(
                    StatementKind::Declare { name: tokens[lo + 1].str.clone(), type_hint, value },
                    first,
                ),
            );
        }
        if str_eq(tokens[lo + 1].str.as_str(), "(") && str_eq(tokens[hi - 1].str.as_str(), ")") {
            let empty: Vec<Token> = Vec::new();
            assert(tokens_view(empty@) =~= seq![]);
            return match Self::get_call_stmt_args(tokens, lo, hi, lo + 2, empty, 0) {
                Some(args) => Some(
                    Statement::new(StatementKind::Call { name: first.str.clone(), args }, first),
                ),
                None => None,
            };
        }
        if str_eq(first.str.as_str(), "return") {
            assert(t.subrange(1, len as int) =~= slice(tokens@, lo + 1, hi as int));
            return match Self::get_expression(tokens, lo + 1, hi) {
                Some(v) => Some(Statement::new(StatementKind::Return { value: v }, first)),
                None => None,
            };
        }
        let mut pos: usize = lo;
        while pos < hi && !Self::is_assign_token(&tokens[pos])
            invariant
                lo <= pos <= hi <= tokens.len(),
                t == slice(tokens@, lo as int, hi as int),
                first_assign(t, 0) == first_assign(t, pos - lo),
            decreases hi - pos,
        {
            assert(t[pos - lo] == tokens@[pos as int]@);
            pos += 1;
        }
        if pos >= hi {
            return None;
        }
        assert(t[pos - lo] == tokens@[pos as int]@);
        Self::get_assign(tokens, lo, hi, pos)
    }

    fn is_assign_token(token: &Token) -> (r: bool)
        ensures
            r == is_assign_op(token.str@),
    {
        let s = token.str.as_str();
        str_eq(s, "=") || str_eq(s, "+=") || str_eq(s, "-=") || str_eq(s, "*=") || str_eq(s, "/=")
            || str_eq(s, "%=")
    }

    fn get_assign(tokens: &Vec<Token>, lo: usize, hi: usize, pos: usize) -> (r: Option<Statement>)
        requires
            lo <= pos < hi <= tokens.len(),
            hi - lo >= 2,
            is_assign_op(tokens@[pos as int].str@),
        ensures
            ({
                let t = slice(tokens@, lo as int, hi as int);
                let len = t.len() as int;
                let p = pos - lo;
                let expected = if t[p].str == "="@ {
                    match parse_expression(t.subrange(0, p)) {
                        None => None,
                        Some(d) => match parse_expression(t.subrange(p + 1, len)) {
                            None => None,
                            Some(s) => Some(at_stmt(SKindV::Assign { dest: d, src: s }, t[0])),
                        },
                    }
                } else if p == 0 {
                    None
                } else {
                    match compound_op(t) {
                        None => None,
                        Some(op) => {
                            let src = seq![t[0], op] + t.subrange(p + 1, len);
                            if src.len() <= len {
                                match parse_expression(t.subrange(0, p)) {
                                    None => None,
                                    Some(d) => match parse_expression(src) {
                                        None => None,
                                        Some(s) => Some(at_stmt(SKindV::Assign { dest: d, src: s }, t[0])),
                                    },
                                }
                            } else {
                                None
                            }
                        },
                    }
                };
                match r {
                    Some(s) => expected == Some(s@),
                    None => expected is None,
                }
            }),
        decreases hi - lo, hi - lo + 4,
    {
        let ghost t = slice(tokens@, lo as int, hi as int);
        let len = hi - lo;
        assert(t[0] == tokens@[lo as int]@);
        assert(t[1] == tokens@[lo + 1]@);
        assert(t[pos - lo] == tokens@[pos as int]@);
        assert(t.subrange(0, pos - lo) =~= slice(tokens@, lo as int, pos as int));
        if str_eq(tokens[pos].str.as_str(), "=") {
            assert(t.subrange(pos - lo + 1, len as int) =~= slice(tokens@, pos + 1, hi as int));
            let d = match Self::get_expression(tokens, lo, pos) {
                Some(d) => d,
                None => {
                    return None;
                },
            };
            let s = match Self::get_expression(tokens, pos + 1, hi) {
                Some(s) => s,
                None => {
                    return None;
                },
            };
            return Some(Statement::new(StatementKind::Assign { dest: d, src: s }, &tokens[lo]));
        }
        if pos == lo {
            return None;
        }
        let op_text = match first_char_string(&tokens[lo + 1].str) {
            Some(c) => c,
            None => {
                return None;
            },
        };
        let op_buffer = Buffer { str: op_text, first_ch: '\0', x: tokens[lo + 1].col, y: tokens[lo + 1].line };
        proof {
            reveal_strlit("0");
        }
        assert(!(token_class(op_buffer.str@) is Panic));
        let op = match Token::new(&op_buffer) {
            Ok(op) => op,
            Err(_) => {
                return None;
            },
        };
        let ghost opv = op@;
        assert(compound_op(t) == Some(opv));
        let mut src: Vec<Token> = Vec::new();
        src.push(copy_token(&tokens[lo]));
        src.push(op);
        assert(tokens_view(src@) =~= seq![t[0], opv] + t.subrange(pos - lo + 1, pos - lo + 1));
        let mut k: usize = pos + 1;
        while k < hi
            invariant
                lo <= pos,
                pos + 1 <= k <= hi <= tokens.len(),
                tokens_view(src@)[1] == opv,
                src@.len() == 2 + (k - pos - 1),
                t == slice(tokens@, lo as int, hi as int),
                tokens_view(src@) == seq![t[0], tokens_view(src@)[1]] + t.subrange(pos - lo + 1, k - lo),
            decreases hi - k,
        {
            let ghost before = tokens_view(src@);
            src.push(copy_token(&tokens[k]));
            assert(t[k - lo] == tokens@[k as int]@);
            assert(tokens_view(src@) =~= before.push(t[k - lo]));
            assert(t.subrange(pos - lo + 1, k - lo + 1) =~= t.subrange(pos - lo + 1, k - lo).push(t[k - lo]));
            k += 1;
        }
        assert(tokens_view(src@) =~= slice(src@, 0, src.len() as int));
        assert(tokens_view(src@) == seq![t[0], opv] + t.subrange(pos - lo + 1, hi - lo));
        let d = match Self::get_expression(tokens, lo, pos) {
            Some(d) => d,
            None => {
                return None;
            },
        };
        let s = match Self::get_expression(&src, 0, src.len()) {
            Some(s) => s,
            None => {
                return None;
            },
        };
        Some(Statement::new(StatementKind::Assign { dest: d, src: s }, &tokens[lo]))
    }
}

} // verus!

verus! {

proof fn lemma_block_end(t: Seq<TokenV>, start: int, e: int)
    requires
        e <= t.len(),
    ensures
        e <= block_end(t, start, e) <= t.len(),
    decreases t.len() - e,
{
    if 0 <= e < t.len() && 0 <= start < t.len() && (t[e].str == "else"@ || t[start].col < t[e].col) {
        lemma_block_end(t, start, e + 1);
    }
}

proof fn lemma_line_end(t: Seq<TokenV>, start: int, e: int)
    requires
        e <= t.len(),
    ensures
        e <= line_end(t, start, e) <= t.len(),
    decreases t.len() - e,
{
    if 0 <= e < t.len() && 0 <= start < t.len() && t[start].line == t[e].line {
        lemma_line_end(t, start, e + 1);
    }
}

impl Parser {
    fn next_statement(tokens: &Vec<Token>, lo: usize, hi: usize, start: usize) -> (r: Option<(Statement, usize)>)
        requires
            lo <= start < hi <= tokens.len(),
        ensures
            ({
                let t = slice(tokens@, lo as int, hi as int);
                let e = seq_end(t, start - lo);
                &&& start - lo < e <= t.len()
                &&& match r {
                    Some((s, end)) => end - lo == e && stmt_at(t, start - lo, e) == Some(s@),
                    None => stmt_at(t, start - lo, e) is None,
                }
            }),
        decreases hi - lo, 2 * (hi - lo) + 10,
    {
        let ghost t = slice(tokens@, lo as int, hi as int);
        assert(t[start - lo] == tokens@[start as int]@);
        let kw = tokens[start].str.as_str();
        let block = str_eq(kw, "if") || str_eq(kw, "loop") || str_eq(kw, "while") || str_eq(kw, "pr");
        let mut end: usize = start + 1;
        if block {
            while end < hi && (str_eq(tokens[end].str.as_str(), "else") || tokens[start].col < tokens[end].col)
                invariant
                    lo <= start < end <= hi <= tokens.len(),
                    t == slice(tokens@, lo as int, hi as int),
                    block_end(t, start - lo, start - lo + 1) == block_end(t, start - lo, end - lo),
                decreases hi - end,
            {
                assert(t[end - lo] == tokens@[end as int]@);
                assert(t[start - lo] == tokens@[start as int]@);
                end += 1;
            }
            proof {
                if end < hi {
                    assert(t[end - lo] == tokens@[end as int]@);
                    assert(t[start - lo] == tokens@[start as int]@);
                }
            }
        } else {
            while end < hi && tokens[start].line == tokens[end].line
                invariant
                    lo <= start < end <= hi <= tokens.len(),
                    t == slice(tokens@, lo as int, hi as int),
                    line_end(t, start - lo, start - lo + 1) == line_end(t, start - lo, end - lo),
                decreases hi - end,
            {
                assert(t[end - lo] == tokens@[end as int]@);
                assert(t[start - lo] == tokens@[start as int]@);
                end += 1;
            }
            proof {
                if end < hi {
                    assert(t[end - lo] == tokens@[end as int]@);
                    assert(t[start - lo] == tokens@[start as int]@);
                }
            }
        }
        assert(t.subrange(start - lo, end - lo) =~= slice(tokens@, start as int, end as int));
        let st = if str_eq(kw, "if") {
            Self::get_if(tokens, start, end)
        } else if str_eq(kw, "loop") {
            Self::get_loop(tokens, start, end)
        } else if str_eq(kw, "while") {
            Self::get_while(tokens, start, end)
        } else if str_eq(kw, "pr") {
            Self::get_procedure(tokens, start, end)
        } else {
            Self::get_statement(tokens, start, end)
        };
        match st {
            Some(s) => Some((s, end)),
            None => None,
        }
    }

    #[verifier::rlimit(50)]
    fn get_sequence(tokens: &Vec<Token>, lo: usize, hi: usize) -> (r: Option<Vec<Statement>>)
        requires
            lo <= hi <= tokens.len(),
        ensures
            match r {
                Some(v) => parse_sequence(slice(tokens@, lo as int, hi as int)) == Some(stmts_view(v@)),
                None => parse_sequence(slice(tokens@, lo as int, hi as int)) is None,
            },
        decreases hi - lo, 2 * (hi - lo) + 11,
    {
        let ghost t = slice(tokens@, lo as int, hi as int);
        let mut sequence: Vec<Statement> = Vec::new();
        if hi - lo == 1 {
            return match Self::get_statement(tokens, lo, hi) {
                Some(s) => {
                    let ghost sv = s@;
                    sequence.push(s);
                    proof {
                        crate::syntax_analysis::parser::statement::lemma_stmts_view(sequence@);
                        assert(stmts_view(sequence@) =~= seq![sv]);
                    }
                    Some(sequence)
                },
                None => None,
            };
        }
        let mut start: usize = lo;
        assert(stmts_view(sequence@) =~= seq![]);
        assert(seq_from(t, 0) == (match seq_from(t, start - lo) {
            Some(rest) => Some(stmts_view(sequence@) + rest),
            None => None::<Seq<StmtV>>,
        })) by {
            match seq_from(t, 0) {
                Some(rest) => assert(stmts_view(sequence@) + rest =~= rest),
                None => {},
            }
        }
        while start < hi
            invariant
                lo <= start <= hi <= tokens.len(),
                hi - lo != 1,
                t == slice(tokens@, lo as int, hi as int),
                seq_from(t, 0) == (match seq_from(t, start - lo) {
                    Some(rest) => Some(stmts_view(sequence@) + rest),
                    None => None::<Seq<StmtV>>,
                }),
            decreases hi - start,
        {
            match Self::next_statement(tokens, lo, hi, start) {
                Some((s, end)) => {
                    let ghost before = stmts_view(sequence@);
                    let ghost old_seq = sequence@;
                    let ghost sv = s@;
                    sequence.push(s);
                    proof {
                        assert(sequence@.drop_last() =~= old_seq);
                        assert(stmts_view(sequence@) =~= before.push(sv));
                        match seq_from(t, end - lo) {
                            Some(rest) => assert(before + (seq![sv] + rest) =~= stmts_view(sequence@) + rest),
                            None => {},
                        }
                    }
                    start = end;
                },
                None => {
                    return None;
                },
            }
        }
        assert(seq_from(t, start - lo) == Some(Seq::<StmtV>::empty()));
        assert(stmts_view(sequence@) + Seq::<StmtV>::empty() =~= stmts_view(sequence@));
        Some(sequence)
    }

    #[verifier::rlimit(100)]
    fn get_if(tokens: &Vec<Token>, lo: usize, hi: usize) -> (r: Option<Statement>)
        requires
            lo <= hi <= tokens.len(),
        ensures
            match r {
                Some(s) => parse_if(slice(tokens@, lo as int, hi as int)) == Some(s@),
                None => parse_if(slice(tokens@, lo as int, hi as int)) is None,
            },
        decreases hi - lo, hi - lo + 5,
    {
        let ghost t = slice(tokens@, lo as int, hi as int);
        let len = hi - lo;
        if len == 0 {
            return None;
        }
        assert(t[0] == tokens@[lo as int]@);
        let start: usize = if str_eq(tokens[lo].str.as_str(), "else") { 2 } else { 1 };
        let mut start_seq: usize = start;
        while start_seq < len && len - start_seq > 1 && !str_eq(tokens[lo + start_seq].str.as_str(), ":")
            invariant
                lo <= hi <= tokens.len(),
                len == hi - lo,
                start <= start_seq,
                start_seq + 1 < len ==> start_seq < len,
                t == slice(tokens@, lo as int, hi as int),
                cond_end(t, start as int) == cond_end(t, start_seq as int),
            decreases len - start_seq,
        {
            assert(t[start_seq as int] == tokens@[lo + start_seq]@);
            start_seq += 1;
        }
        proof {
            if start_seq < len && len - start_seq > 1 {
                assert(t[start_seq as int] == tokens@[lo + start_seq]@);
            }
        }
        let mut end_seq: usize = start + 1;
        while end_seq < len && len - end_seq > 1 && tokens[lo].col < tokens[lo + end_seq].col
            invariant
                lo <= hi <= tokens.len(),
                len == hi - lo,
                start + 1 <= end_seq,
                t == slice(tokens@, lo as int, hi as int),
                if_body_end(t, start + 1) == if_body_end(t, end_seq as int),
            decreases len - end_seq,
        {
            assert(t[end_seq as int] == tokens@[lo + end_seq]@);
            assert(t[0] == tokens@[lo as int]@);
            end_seq += 1;
        }
        proof {
            if end_seq < len && len - end_seq > 1 {
                assert(t[end_seq as int] == tokens@[lo + end_seq]@);
                assert(t[0] == tokens@[lo as int]@);
            }
        }
        if end_seq >= len || start > len || start_seq >= len {
            return None;
        }
        assert(t[end_seq as int] == tokens@[lo + end_seq]@);
        assert(t.subrange(start as int, start_seq as int) =~= slice(tokens@, lo + start, lo + start_seq));
        if str_eq(tokens[lo + end_seq].str.as_str(), "else") {
            if start_seq >= end_seq {
                return None;
            }
            assert(t.subrange(start_seq + 1, end_seq as int) =~= slice(tokens@, lo + start_seq + 1, lo + end_seq));
            assert(t.subrange(end_seq as int, len as int) =~= slice(tokens@, lo + end_seq, hi as int));
            let cond = match Self::get_expression(tokens, lo + start, lo + start_seq) {
                Some(c) => c,
                None => {
                    return None;
                },
            };
            let true_block = match Self::get_sequence(tokens, lo + start_seq + 1, lo + end_seq) {
                Some(b) => b,
                None => {
                    return None;
                },
            };
            let false_block = match Self::get_else(tokens, lo + end_seq, hi) {
                Some(b) => b,
                None => {
                    return None;
                },
            };
            Some(Statement::new(StatementKind::IfElse { cond, true_block, false_block }, &tokens[lo]))
        } else {
            assert(t.subrange(start_seq + 1, len as int) =~= slice(tokens@, lo + start_seq + 1, hi as int));
            let cond = match Self::get_expression(tokens, lo + start, lo + start_seq) {
                Some(c) => c,
                None => {
                    return None;
                },
            };
            let block = match Self::get_sequence(tokens, lo + start_seq + 1, hi) {
                Some(b) => b,
                None => {
                    return None;
                },
            };
            Some(Statement::new(StatementKind::If { cond, block }, &tokens[lo]))
        }
    }

    fn get_else(tokens: &Vec<Token>, lo: usize, hi: usize) -> (r: Option<Vec<Statement>>)
        requires
            lo <= hi <= tokens.len(),
        ensures
            match r {
                Some(v) => parse_else(slice(tokens@, lo as int, hi as int)) == Some(stmts_view(v@)),
                None => parse_else(slice(tokens@, lo as int, hi as int)) is None,
            },
        decreases hi - lo, hi - lo + 6,
    {
        let ghost t = slice(tokens@, lo as int, hi as int);
        if hi - lo < 2 {
            return None;
        }
        assert(t[1] == tokens@[lo + 1]@);
        if str_eq(tokens[lo + 1].str.as_str(), "if") {
            match Self::get_if(tokens, lo, hi) {
                Some(s) => {
                    let ghost sv = s@;
                    let mut v: Vec<Statement> = Vec::new();
                    v.push(s);
                    proof {
                        crate::syntax_analysis::parser::statement::lemma_stmts_view(v@);
                        assert(stmts_view(v@) =~= seq![sv]);
                    }
                    Some(v)
                },
                None => None,
            }
        } else if str_eq(tokens[lo + 1].str.as_str(), ":") {
            assert(t.subrange(2, t.len() as int) =~= slice(tokens@, lo + 2, hi as int));
            Self::get_sequence(tokens, lo + 2, hi)
        } else {
            None
        }
    }

    fn get_loop(tokens: &Vec<Token>, lo: usize, hi: usize) -> (r: Option<Statement>)
        requires
            lo <= hi <= tokens.len(),
        ensures
            match r {
                Some(s) => parse_loop(slice(tokens@, lo as int, hi as int)) == Some(s@),
                None => parse_loop(slice(tokens@, lo as int, hi as int)) is None,
            },
        decreases hi - lo, hi - lo + 5,
    {
        let ghost t = slice(tokens@, lo as int, hi as int);
        if hi - lo < 2 {
            return None;
        }
        assert(t[1] == tokens@[lo + 1]@);
        assert(t[0] == tokens@[lo as int]@);
        if !str_eq(tokens[lo + 1].str.as_str(), ":") {
            return None;
        }
        assert(t.subrange(2, t.len() as int) =~= slice(tokens@, lo + 2, hi as int));
        match Self::get_sequence(tokens, lo + 2, hi) {
            Some(block) => Some(Statement::new(StatementKind::Loop { block }, &tokens[lo])),
            None => None,
        }
    }

    fn find(tokens: &Vec<Token>, lo: usize, hi: usize, text: &str) -> (r: usize)
        requires
            lo <= hi <= tokens.len(),
        ensures
            lo <= r <= hi,
            r - lo == find_text(slice(tokens@, lo as int, hi as int), 0, text@),
    {
        let ghost t = slice(tokens@, lo as int, hi as int);
        let mut k: usize = lo;
        while k < hi && !str_eq(tokens[k].str.as_str(), text)
            invariant
                lo <= k <= hi <= tokens.len(),
                t == slice(tokens@, lo as int, hi as int),
                find_text(t, 0, text@) == find_text(t, k - lo, text@),
            decreases hi - k,
        {
            assert(t[k - lo] == tokens@[k as int]@);
            k += 1;
        }
        proof {
            if k < hi {
                assert(t[k - lo] == tokens@[k as int]@);
            }
        }
        k
    }

    fn get_while(tokens: &Vec<Token>, lo: usize, hi: usize) -> (r: Option<Statement>)
        requires
            lo <= hi <= tokens.len(),
        ensures
            match r {
                Some(s) => parse_while(slice(tokens@, lo as int, hi as int)) == Some(s@),
                None => parse_while(slice(tokens@, lo as int, hi as int)) is None,
            },
        decreases hi - lo, hi - lo + 5,
    {
        let ghost t = slice(tokens@, lo as int, hi as int);
        let start_seq = Self::find(tokens, lo, hi, ":");
        if start_seq - lo < 1 || hi - start_seq < 1 {
            return None;
        }
        assert(t[start_seq - lo] == tokens@[start_seq as int]@);
        assert(t.subrange(1, start_seq - lo) =~= slice(tokens@, lo + 1, start_seq as int));
        assert(t.subrange(start_seq - lo + 1, hi - lo) =~= slice(tokens@, start_seq + 1, hi as int));
        let cond = match Self::get_expression(tokens, lo + 1, start_seq) {
            Some(c) => c,
            None => {
                return None;
            },
        };
        let block = match Self::get_sequence(tokens, start_seq + 1, hi) {
            Some(b) => b,
            None => {
                return None;
            },
        };
        Some(Statement::new(StatementKind::While { cond, block }, &tokens[start_seq]))
    }

    fn get_procedure(tokens: &Vec<Token>, lo: usize, hi: usize) -> (r: Option<Statement>)
        requires
            lo <= hi <= tokens.len(),
        ensures
            match r {
                Some(s) => parse_procedure(slice(tokens@, lo as int, hi as int)) == Some(s@),
                None => parse_procedure(slice(tokens@, lo as int, hi as int)) is None,
            },
        decreases hi - lo, hi - lo + 5,
    {
        let ghost t = slice(tokens@, lo as int, hi as int);
        let start_seq = Self::find(tokens, lo, hi, ")");
        if start_seq - lo < 3 || hi - start_seq < 2 || hi - lo < 2 {
            return None;
        }
        let mut args: Vec<(String, Option<PrimitiveType>)> = Vec::new();
        let mut k: usize = lo + 3;
        let ghost end = start_seq - lo;
        assert(args_view(args@) =~= seq![]);
        assert(proc_args(t, 3, end) == (match proc_args(t, k - lo, end) {
            Some(rest) => Some(args_view(args@) + rest),
            None => None::<Seq<(Seq<char>, Option<PrimitiveType>)>>,
        })) by {
            match proc_args(t, 3, end) {
                Some(rest) => assert(args_view(args@) + rest =~= rest),
                None => {},
            }
        }
        while k < start_seq
            invariant
                lo + 3 <= k,
                start_seq + 2 <= hi <= tokens.len(),
                end == start_seq - lo,
                end == find_text(t, 0, ")"@),
                hi - lo >= 2,
                end >= 3,
                t == slice(tokens@, lo as int, hi as int),
                proc_args(t, 3, end) == (match proc_args(t, k - lo, end) {
                    Some(rest) => Some(args_view(args@) + rest),
                    None => None::<Seq<(Seq<char>, Option<PrimitiveType>)>>,
                }),
            decreases start_seq - k,
        {
            if start_seq - k < 3 {
                return None;
            }
            assert(t[k - lo + 2] == tokens@[k + 2]@);
            assert(t[k - lo] == tokens@[k as int]@);
            let ty = match PrimitiveType::parse(tokens[k + 2].str.as_str()) {
                Some(ty) => ty,
                None => {
                    return None;
                },
            };
            let ghost before = args_view(args@);
            let ghost entry = (tokens@[k as int].str@, Some(ty));
            args.push((tokens[k].str.clone(), Some(ty)));
            proof {
                assert(args_view(args@) =~= before.push(entry));
                match proc_args(t, k - lo + 4, end) {
                    Some(rest) => assert(before + (seq![entry] + rest) =~= args_view(args@) + rest),
                    None => {},
                }
            }
            if start_seq - k <= 4 {
                k = start_seq;
            } else {
                k = k + 4;
            }
        }
        proof {
            assert(proc_args(t, k - lo, end) == Some(Seq::<(Seq<char>, Option<PrimitiveType>)>::empty()));
            assert(args_view(args@) + Seq::<(Seq<char>, Option<PrimitiveType>)>::empty() =~= args_view(args@));
        }
        assert(t[1] == tokens@[lo + 1]@);
        assert(t[0] == tokens@[lo as int]@);
        assert(t.subrange(end + 2, t.len() as int) =~= slice(tokens@, start_seq + 2, hi as int));
        let block = match Self::get_sequence(tokens, start_seq + 2, hi) {
            Some(b) => b,
            None => {
                return None;
            },
        };
        Some(
            Statement::new(
                StatementKind::Procedure { name: tokens[lo + 1].str.clone(), args, ret: None, block },
                &tokens[lo],
            ),
        )
    }
}

/// Parses tokens into statements.
pub fn parse(tokens: Vec<Token>) -> (r: Result<Vec<Statement>, ParseError>)
    ensures
        match r {
            Ok(v) => parse_sequence(tokens_view(tokens@)) == Some(stmts_view(v@)),
            Err(_) => parse_sequence(tokens_view(tokens@)) is None,
        },
{
    assert(slice(tokens@, 0, tokens.len() as int) =~= tokens_view(tokens@));
    match Parser::get_sequence(&tokens, 0, tokens.len()) {
        Some(v) => Ok(v),
        None => Err(ParseError::InvalidSyntax),
    }
}

} // verus!

verus! {

/// `+` and `-`, the additive operators.
pub open spec fn is_additive(s: Seq<char>) -> bool {
    s == "+"@ || s == "-"@
}

/// `*` and `/`, the multiplicative operators.
pub open spec fn is_multiplicative(s: Seq<char>) -> bool {
    s == "*"@ || s == "/"@
}

/// A token that stands alone as an operand.
pub open spec fn is_operand(t: TokenV) -> bool {
    is_literal_kind(t.kind) && t.str != "("@
}

/// An operator token.
pub open spec fn is_operator(t: TokenV) -> bool {
    t.kind == TokenKind::Operator
}

/// The expression that an operand token stands for.
pub open spec fn operand(t: TokenV) -> ExprV {
    at_token(EKindV::Lit(t.str), t)
}

/// The expression `a op b`, at the operator's token.
pub open spec fn applied(op: TokenV, a: ExprV, b: ExprV) -> ExprV {
    at_token(EKindV::Call(op.str, seq![a, b]), op)
}

proof fn lemma_operator_texts()
    ensures
        "+"@ == seq!['+'],
        "-"@ == seq!['-'],
        "*"@ == seq!['*'],
        "/"@ == seq!['/'],
        "%"@ == seq!['%'],
        "!"@ == seq!['!'],
        "=="@ == seq!['=', '='],
        "!="@ == seq!['!', '='],
        "<"@ == seq!['<'],
        "<="@ == seq!['<', '='],
        ">"@ == seq!['>'],
        ">="@ == seq!['>', '='],
        "and"@ == seq!['a', 'n', 'd'],
        "or"@ == seq!['o', 'r'],
        "("@ == seq!['('],
        ")"@ == seq![')'],
{
    reveal_strlit("+");
    reveal_strlit("-");
    reveal_strlit("*");
    reveal_strlit("/");
    reveal_strlit("%");
    reveal_strlit("!");
    reveal_strlit("==");
    reveal_strlit("!=");
    reveal_strlit("<");
    reveal_strlit("<=");
    reveal_strlit(">");
    reveal_strlit(">=");
    reveal_strlit("and");
    reveal_strlit("or");
    reveal_strlit("(");
    reveal_strlit(")");
    assert("+"@ =~= seq!['+']);
    assert("-"@ =~= seq!['-']);
    assert("*"@ =~= seq!['*']);
    assert("/"@ =~= seq!['/']);
    assert("%"@ =~= seq!['%']);
    assert("!"@ =~= seq!['!']);
    assert("=="@ =~= seq!['=', '=']);
    assert("!="@ =~= seq!['!', '=']);
    assert("<"@ =~= seq!['<']);
    assert("<="@ =~= seq!['<', '=']);
    assert(">"@ =~= seq!['>']);
    assert(">="@ =~= seq!['>', '=']);
    assert("and"@ =~= seq!['a', 'n', 'd']);
    assert("or"@ =~= seq!['o', 'r']);
    assert("("@ =~= seq!['(']);
    assert(")"@ =~= seq![')']);
}

/// `+` and `-` bind equally, and more loosely than `*` and `/`, which bind equally.
pub proof fn lemma_priority_order(p: Seq<char>, q: Seq<char>, r: Seq<char>)
    requires
        is_additive(p),
        is_additive(q),
        is_multiplicative(r),
    ensures
        op_priority(p) == op_priority(q),
        op_priority(p) matches Some(x) && op_priority(r) matches Some(y) && y < x,
{
    lemma_operator_texts();
    assert(seq!['+'][0] != seq!['*'][0]);
    assert(seq!['+'][0] != seq!['/'][0]);
    assert(seq!['-'][0] != seq!['*'][0]);
    assert(seq!['-'][0] != seq!['/'][0]);
}

/// The comparison operators.
pub open spec fn is_relational(s: Seq<char>) -> bool {
    s == "=="@ || s == "!="@ || s == "<"@ || s == "<="@ || s == ">"@ || s == ">="@
}

/// `and` and `or`.
pub open spec fn is_logical(s: Seq<char>) -> bool {
    s == "and"@ || s == "or"@
}

/// Arithmetic binds tighter than comparison, which binds tighter than `and` and `or`; all
/// comparisons bind equally, and so do `and` and `or`.
pub proof fn lemma_priority_levels(m: Seq<char>, r1: Seq<char>, r2: Seq<char>, l1: Seq<char>, l2: Seq<char>)
    requires
        is_additive(m) || is_multiplicative(m),
        is_relational(r1),
        is_relational(r2),
        is_logical(l1),
        is_logical(l2),
    ensures
        op_priority(r1) == op_priority(r2),
        op_priority(l1) == op_priority(l2),
        op_priority(m) matches Some(x) && op_priority(r1) matches Some(y) && op_priority(l1) matches Some(z) && x < y
            && y < z,
{
    lemma_operator_texts();
    assert(seq!['='].len() != seq!['=', '='].len());
    assert(seq!['+'][0] != seq!['<'][0]);
    assert(seq!['+'][0] != seq!['>'][0]);
    assert(seq!['-'][0] != seq!['<'][0]);
    assert(seq!['-'][0] != seq!['>'][0]);
    assert(seq!['*'][0] != seq!['<'][0]);
    assert(seq!['*'][0] != seq!['>'][0]);
    assert(seq!['/'][0] != seq!['<'][0]);
    assert(seq!['/'][0] != seq!['>'][0]);
    assert(seq!['!', '='].len() != seq!['!'].len());
}

/// An operator token with a priority.
pub open spec fn is_binary_operator(t: TokenV) -> bool {
    t.kind == TokenKind::Operator && op_priority(t.str) is Some && op_of_text(t.str) is Some
}

/// A priority is never zero, and no operator with one is spelled `(`.
proof fn lemma_priority_positive(s: Seq<char>)
    requires
        op_priority(s) is Some,
    ensures
        op_priority(s)->0 > 0,
        s != "("@,
{
    lemma_operator_texts();
    assert(seq!['+'][0] != seq!['('][0]);
    assert(seq!['-'][0] != seq!['('][0]);
    assert(seq!['*'][0] != seq!['('][0]);
    assert(seq!['/'][0] != seq!['('][0]);
    assert(seq!['%'][0] != seq!['('][0]);
    assert(seq!['!'][0] != seq!['('][0]);
    assert(seq!['<'][0] != seq!['('][0]);
    assert(seq!['>'][0] != seq!['('][0]);
    assert(seq!['='].len() != seq!['=', '='].len());
}

/// An operand, an operator and an operand parse as the operator applied to the two.
pub proof fn lemma_parse_one_operator(a: TokenV, o: TokenV, b: TokenV)
    requires
        is_operand(a),
        is_binary_operator(o),
        is_operand(b),
    ensures
        parse_expression(seq![a, o, b]) == Some(applied(o, operand(a), operand(b))),
{
    lemma_priority_positive(o.str);
    let t = seq![a, o, b];
    assert(t.subrange(0, 1) =~= seq![a]);
    assert(t.subrange(2, 3) =~= seq![b]);
    reveal_with_fuel(scan, 4);
    assert(scan(t, 3) == Scan::Split(1, op_priority(o.str)->0));
    assert(parse_expression(seq![a]) == Some(operand(a)));
    assert(parse_expression(seq![b]) == Some(operand(b)));
    assert(mk_call(o, seq![operand(a), operand(b)]) == Some(applied(o, operand(a), operand(b))));
    assert(t[1].str != "("@);
    assert(t.len() == 3);
}

/// With two operators, operands group around the one that binds tighter, and to the left
/// where both bind equally: `a o1 b o2 c` is `(a o1 b) o2 c` unless `o2` binds tighter than
/// `o1`, where it is `a o1 (b o2 c)`.
pub proof fn lemma_parse_two_operators(a: TokenV, o1: TokenV, b: TokenV, o2: TokenV, c: TokenV)
    requires
        is_operand(a),
        is_binary_operator(o1),
        is_operand(b),
        is_binary_operator(o2),
        is_operand(c),
    ensures
        op_priority(o1.str)->0 <= op_priority(o2.str)->0 ==> parse_expression(seq![a, o1, b, o2, c])
            == Some(applied(o2, applied(o1, operand(a), operand(b)), operand(c))),
        op_priority(o1.str)->0 > op_priority(o2.str)->0 ==> parse_expression(seq![a, o1, b, o2, c])
            == Some(applied(o1, operand(a), applied(o2, operand(b), operand(c)))),
{
    lemma_priority_positive(o1.str);
    lemma_priority_positive(o2.str);
    lemma_parse_one_operator(a, o1, b);
    lemma_parse_one_operator(b, o2, c);
    let t = seq![a, o1, b, o2, c];
    assert(t.subrange(0, 1) =~= seq![a]);
    assert(t.subrange(2, 5) =~= seq![b, o2, c]);
    assert(t.subrange(0, 3) =~= seq![a, o1, b]);
    assert(t.subrange(4, 5) =~= seq![c]);
    reveal_with_fuel(scan, 6);
    let p1 = op_priority(o1.str)->0;
    let p2 = op_priority(o2.str)->0;
    assert(t[1].str != "("@);
    assert(t.len() == 5);
    assert(parse_expression(seq![a]) == Some(operand(a)));
    assert(parse_expression(seq![c]) == Some(operand(c)));
    if p1 <= p2 {
        assert(scan(t, 5) == Scan::Split(3, p2));
        assert(mk_call(o2, seq![applied(o1, operand(a), operand(b)), operand(c)]) == Some(
            applied(o2, applied(o1, operand(a), operand(b)), operand(c)),
        ));
    } else {
        assert(scan(t, 5) == Scan::Split(1, p1));
        assert(mk_call(o1, seq![operand(a), applied(o2, operand(b), operand(c))]) == Some(
            applied(o1, operand(a), applied(o2, operand(b), operand(c))),
        ));
    }
}

/// `*` and `/` bind tighter than `+` and `-`, and operators that bind equally group to the
/// left: `a - b * c` is `a - (b * c)`, `a * b - c` is `(a * b) - c`, `a - b + c` is
/// `(a - b) + c`, and `a / b * c` is `(a / b) * c`.
pub proof fn lemma_parse_precedence(a: TokenV, p: TokenV, b: TokenV, q: TokenV, c: TokenV)
    requires
        is_operand(a),
        is_operand(b),
        is_operand(c),
        is_operator(p),
        is_operator(q),
    ensures
        is_additive(p.str) && is_multiplicative(q.str) ==> parse_expression(seq![a, p, b, q, c])
            == Some(applied(p, operand(a), applied(q, operand(b), operand(c)))),
        is_additive(p.str) && is_multiplicative(q.str) ==> parse_expression(seq![a, q, b, p, c])
            == Some(applied(p, applied(q, operand(a), operand(b)), operand(c))),
        is_additive(p.str) && is_additive(q.str) ==> parse_expression(seq![a, p, b, q, c])
            == Some(applied(q, applied(p, operand(a), operand(b)), operand(c))),
        is_multiplicative(p.str) && is_multiplicative(q.str) ==> parse_expression(seq![a, p, b, q, c])
            == Some(applied(q, applied(p, operand(a), operand(b)), operand(c))),
{
    lemma_operator_texts();
    if (is_additive(p.str) || is_multiplicative(p.str)) && (is_additive(q.str) || is_multiplicative(q.str)) {
        assert(op_of_text(p.str) is Some);
        assert(op_of_text(q.str) is Some);
        assert(seq!['+'][0] != seq!['*'][0]);
        assert(seq!['+'][0] != seq!['/'][0]);
        assert(seq!['-'][0] != seq!['*'][0]);
        assert(seq!['-'][0] != seq!['/'][0]);
        lemma_parse_two_operators(a, p, b, q, c);
        lemma_parse_two_operators(a, q, b, p, c);
    }
}

} // verus!
