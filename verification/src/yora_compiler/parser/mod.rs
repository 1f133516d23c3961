//! Parser of the indentation-based language: a block is the run of tokens to the right
//! of the column of the keyword that opens it, a statement is the run of tokens on one line.
use vstd::prelude::*;
use crate::yora_compiler::lexer::{Token, TokenKind, TokenV, token_kind, tokens_view};
use crate::text::{str_eq, push_char, chars_of};

pub mod ast_pretty;

verus! {

/// A node of the syntax tree, with the line and column it comes from.
#[derive(Debug, PartialEq)]
pub struct Expression {
    pub kind: ExpressionKind,
    pub line: usize,
    pub col: usize,
}

/// The kinds of syntax tree nodes.
#[derive(Debug, PartialEq)]
pub enum ExpressionKind {
    Identifier(String),
    BoolLit(String),
    IntLit(String),
    Sequence(Vec<Expression>),
    If(Box<Expression>, Box<Expression>),
    Loop(Box<Expression>),
    Break,
    Declare(Box<Expression>, Box<Expression>),
    Assign(Box<Expression>, Box<Expression>),
    Exit(Box<Expression>),
    Add(Box<Expression>, Box<Expression>),
    Sub(Box<Expression>, Box<Expression>),
    Mul(Box<Expression>, Box<Expression>),
    Div(Box<Expression>, Box<Expression>),
    Mod(Box<Expression>, Box<Expression>),
    Not(Box<Expression>),
    And(Box<Expression>, Box<Expression>),
    Or(Box<Expression>, Box<Expression>),
    Eq(Box<Expression>, Box<Expression>),
    Neq(Box<Expression>, Box<Expression>),
    Lt(Box<Expression>, Box<Expression>),
    Leq(Box<Expression>, Box<Expression>),
    Gt(Box<Expression>, Box<Expression>),
    Geq(Box<Expression>, Box<Expression>),
}

/// The value of a syntax tree node.
pub struct ExprV {
    pub kind: KindV,
    pub line: int,
    pub col: int,
}

/// The value of a node kind.
pub enum KindV {
    Identifier(Seq<char>),
    BoolLit(Seq<char>),
    IntLit(Seq<char>),
    Sequence(Seq<ExprV>),
    If(Box<ExprV>, Box<ExprV>),
    Loop(Box<ExprV>),
    Break,
    Declare(Box<ExprV>, Box<ExprV>),
    Assign(Box<ExprV>, Box<ExprV>),
    Exit(Box<ExprV>),
    Add(Box<ExprV>, Box<ExprV>),
    Sub(Box<ExprV>, Box<ExprV>),
    Mul(Box<ExprV>, Box<ExprV>),
    Div(Box<ExprV>, Box<ExprV>),
    Mod(Box<ExprV>, Box<ExprV>),
    Not(Box<ExprV>),
    And(Box<ExprV>, Box<ExprV>),
    Or(Box<ExprV>, Box<ExprV>),
    Eq(Box<ExprV>, Box<ExprV>),
    Neq(Box<ExprV>, Box<ExprV>),
    Lt(Box<ExprV>, Box<ExprV>),
    Leq(Box<ExprV>, Box<ExprV>),
    Gt(Box<ExprV>, Box<ExprV>),
    Geq(Box<ExprV>, Box<ExprV>),
}

/// The value of a node.
pub open spec fn expr_view(e: Expression) -> ExprV
    decreases e, 1nat,
{
    ExprV { kind: kind_view(e.kind), line: e.line as int, col: e.col as int }
}

/// The value of a node kind.
pub open spec fn kind_view(k: ExpressionKind) -> KindV
    decreases k, 0nat,
{
    match k {
        ExpressionKind::Identifier(s) => KindV::Identifier(s@),
        ExpressionKind::BoolLit(s) => KindV::BoolLit(s@),
        ExpressionKind::IntLit(s) => KindV::IntLit(s@),
        ExpressionKind::Sequence(v) => KindV::Sequence(exprs_view(v@)),
        ExpressionKind::If(a, b) => KindV::If(Box::new(expr_view(*a)), Box::new(expr_view(*b))),
        ExpressionKind::Loop(a) => KindV::Loop(Box::new(expr_view(*a))),
        ExpressionKind::Break => KindV::Break,
        ExpressionKind::Declare(a, b) => KindV::Declare(Box::new(expr_view(*a)), Box::new(expr_view(*b))),
        ExpressionKind::Assign(a, b) => KindV::Assign(Box::new(expr_view(*a)), Box::new(expr_view(*b))),
        ExpressionKind::Exit(a) => KindV::Exit(Box::new(expr_view(*a))),
        ExpressionKind::Add(a, b) => KindV::Add(Box::new(expr_view(*a)), Box::new(expr_view(*b))),
        ExpressionKind::Sub(a, b) => KindV::Sub(Box::new(expr_view(*a)), Box::new(expr_view(*b))),
        ExpressionKind::Mul(a, b) => KindV::Mul(Box::new(expr_view(*a)), Box::new(expr_view(*b))),
        ExpressionKind::Div(a, b) => KindV::Div(Box::new(expr_view(*a)), Box::new(expr_view(*b))),
        ExpressionKind::Mod(a, b) => KindV::Mod(Box::new(expr_view(*a)), Box::new(expr_view(*b))),
        ExpressionKind::Not(a) => KindV::Not(Box::new(expr_view(*a))),
        ExpressionKind::And(a, b) => KindV::And(Box::new(expr_view(*a)), Box::new(expr_view(*b))),
        ExpressionKind::Or(a, b) => KindV::Or(Box::new(expr_view(*a)), Box::new(expr_view(*b))),
        ExpressionKind::Eq(a, b) => KindV::Eq(Box::new(expr_view(*a)), Box::new(expr_view(*b))),
        ExpressionKind::Neq(a, b) => KindV::Neq(Box::new(expr_view(*a)), Box::new(expr_view(*b))),
        ExpressionKind::Lt(a, b) => KindV::Lt(Box::new(expr_view(*a)), Box::new(expr_view(*b))),
        ExpressionKind::Leq(a, b) => KindV::Leq(Box::new(expr_view(*a)), Box::new(expr_view(*b))),
        ExpressionKind::Gt(a, b) => KindV::Gt(Box::new(expr_view(*a)), Box::new(expr_view(*b))),
        ExpressionKind::Geq(a, b) => KindV::Geq(Box::new(expr_view(*a)), Box::new(expr_view(*b))),
    }
}

/// The values of a sequence of nodes.
pub open spec fn exprs_view(s: Seq<Expression>) -> Seq<ExprV>
    decreases s, 2nat,
{
    if s.len() == 0 {
        seq![]
    } else {
        exprs_view(s.drop_last()).push(expr_view(s.last()))
    }
}

/// The values of a sequence of nodes are the values of its nodes, one for one.
pub proof fn lemma_exprs_view(s: Seq<Expression>)
    ensures
        exprs_view(s).len() == s.len(),
        forall|k: int| 0 <= k < s.len() ==> #[trigger] exprs_view(s)[k] == s[k]@,
    decreases s.len(),
{
    if s.len() > 0 {
        lemma_exprs_view(s.drop_last());
    }
}

impl View for Expression {
    type V = ExprV;

    open spec fn view(&self) -> ExprV {
        expr_view(*self)
    }
}

/// The node built from a kind and a position.
pub open spec fn node(kind: KindV, line: int, col: int) -> ExprV {
    ExprV { kind, line, col }
}

/// The priority of a binary operator: operands split at the operator of highest priority,
/// the last one among equals; `None` for an operator with none.
pub open spec fn op_priority(s: Seq<char>) -> Option<nat> {
    if s == "+"@ || s == "%"@ || s == "-"@ {
        Some(1)
    } else if s == "*"@ || s == "/"@ {
        Some(2)
    } else if s == "!"@ {
        Some(3)
    } else if s == "=="@ || s == "!="@ || s == "<"@ || s == "<="@ || s == ">"@ || s == ">="@ {
        Some(4)
    } else if s == "and"@ || s == "or"@ {
        Some(5)
    } else {
        None
    }
}

/// The operator node that an operator text builds.
pub open spec fn operation_kind(s: Seq<char>, a: ExprV, b: ExprV) -> Option<KindV> {
    let (a, b) = (Box::new(a), Box::new(b));
    if s == "+"@ {
        Some(KindV::Add(a, b))
    } else if s == "-"@ {
        Some(KindV::Sub(a, b))
    } else if s == "*"@ {
        Some(KindV::Mul(a, b))
    } else if s == "/"@ {
        Some(KindV::Div(a, b))
    } else if s == "%"@ {
        Some(KindV::Mod(a, b))
    } else if s == "and"@ {
        Some(KindV::And(a, b))
    } else if s == "or"@ {
        Some(KindV::Or(a, b))
    } else if s == "=="@ {
        Some(KindV::Eq(a, b))
    } else if s == "!="@ {
        Some(KindV::Neq(a, b))
    } else if s == "<"@ {
        Some(KindV::Lt(a, b))
    } else if s == "<="@ {
        Some(KindV::Leq(a, b))
    } else if s == ">"@ {
        Some(KindV::Gt(a, b))
    } else if s == ">="@ {
        Some(KindV::Geq(a, b))
    } else {
        None
    }
}

/// The position of the operator where a token sequence splits: the last operator of the
/// highest priority among the first `k` tokens, with that priority; `None` when one of
/// them is an operator without a priority.
pub open spec fn split_point(t: Seq<TokenV>, k: int) -> Option<(int, nat)>
    decreases k,
{
    if k <= 0 {
        Some((0, 0))
    } else {
        match split_point(t, k - 1) {
            None => None,
            Some((pos, pri)) => if t[k - 1].kind == TokenKind::Operator {
                match op_priority(t[k - 1].str) {
                    None => None,
                    Some(p) => if pri <= p {
                        Some((k - 1, p))
                    } else {
                        Some((pos, pri))
                    },
                }
            } else {
                Some((pos, pri))
            },
        }
    }
}

/// A token sequence that splits at a binary operator.
pub open spec fn parse_binary(t: Seq<TokenV>) -> Option<ExprV>
    decreases t.len(), 0nat,
{
    match split_point(t, t.len() as int) {
        None => None,
        Some((pos, pri)) => if pri != 0 && 0 <= pos < t.len() {
            match (parse_expression(t.subrange(0, pos)), parse_expression(t.subrange(pos + 1, t.len() as int))) {
                (Some(a), Some(b)) => match operation_kind(t[pos].str, a, b) {
                    Some(k) => Some(node(k, t[0].line, t[0].col)),
                    None => None,
                },
                _ => None,
            }
        } else {
            None
        },
    }
}

/// The expression a token sequence spells; `None` where it spells none.
pub open spec fn parse_expression(t: Seq<TokenV>) -> Option<ExprV>
    decreases t.len(), 1nat,
{
    if t.len() == 0 {
        None
    } else if t.len() == 1 {
        let k = match t[0].kind {
            TokenKind::Identifier => Some(KindV::Identifier(t[0].str)),
            TokenKind::BoolLit => Some(KindV::BoolLit(t[0].str)),
            TokenKind::IntLit => Some(KindV::IntLit(t[0].str)),
            TokenKind::Keyword => if t[0].str == "break"@ {
                Some(KindV::Break)
            } else {
                None
            },
            _ => None,
        };
        match k {
            Some(k) => Some(node(k, t[0].line, t[0].col)),
            None => None,
        }
    } else if t[0].str == "exit"@ {
        if t.len() >= 3 {
            match parse_expression(t.subrange(2, t.len() - 1)) {
                Some(a) => Some(node(KindV::Exit(Box::new(a)), t[0].line, t[0].col)),
                None => None,
            }
        } else {
            None
        }
    } else if t[0].str == "var"@ {
        if t.len() >= 3 && t[2].str == "="@ {
            match (parse_expression(t.subrange(1, 2)), parse_expression(t.subrange(3, t.len() as int))) {
                (Some(a), Some(b)) => Some(node(KindV::Declare(Box::new(a), Box::new(b)), t[0].line, t[0].col)),
                _ => None,
            }
        } else {
            None
        }
    } else if t[0].str == "!"@ {
        match parse_expression(t.subrange(1, t.len() as int)) {
            Some(a) => Some(node(KindV::Not(Box::new(a)), t[0].line, t[0].col)),
            None => None,
        }
    } else if t[1].str == "="@ {
        match (parse_expression(t.subrange(0, 1)), parse_expression(t.subrange(2, t.len() as int))) {
            (Some(a), Some(b)) => Some(node(KindV::Assign(Box::new(a), Box::new(b)), t[0].line, t[0].col)),
            _ => None,
        }
    } else if t[1].str == "+="@ || t[1].str == "-="@ || t[1].str == "*="@ || t[1].str == "/="@
        || t[1].str == "%="@ {
        let op_text = t[1].str.subrange(0, 1);
        match token_kind(op_text) {
            None => None,
            Some(k) => {
                let op = TokenV { str: op_text, kind: k, line: t[1].line, col: t[1].col };
                let rewritten = seq![t[0], op] + t.subrange(2, t.len() as int);
                match (parse_expression(t.subrange(0, 1)), parse_binary(rewritten)) {
                    (Some(a), Some(b)) => Some(
                        node(KindV::Assign(Box::new(a), Box::new(ExprV { line: t[0].line, col: t[0].col, ..b })), t[0].line, t[0].col),
                    ),
                    _ => None,
                }
            },
        }
    } else {
        parse_binary(t)
    }
}


/// The first position from `i` on that holds `:`, or the length.
pub open spec fn find_colon(t: Seq<TokenV>, i: int) -> int
    decreases t.len() - i,
{
    if i < 0 || i >= t.len() || t[i].str == ":"@ {
        i
    } else {
        find_colon(t, i + 1)
    }
}

/// The first position from `i` on whose token is not to the right of column `col`, or
/// the length: the end of a block opened at that column.
pub open spec fn block_end(t: Seq<TokenV>, col: int, i: int) -> int
    decreases t.len() - i,
{
    if i < 0 || i >= t.len() || !(col < t[i].col) {
        i
    } else {
        block_end(t, col, i + 1)
    }
}

/// The first position from `i` on whose token is not on line `line`, or the length.
pub open spec fn line_end(t: Seq<TokenV>, line: int, i: int) -> int
    decreases t.len() - i,
{
    if i < 0 || i >= t.len() || t[i].line != line {
        i
    } else {
        line_end(t, line, i + 1)
    }
}

/// The statements from `start` on, where the previous statement ended at `end0`.
pub open spec fn parse_statements(t: Seq<TokenV>, start: int, end0: int) -> Option<Seq<ExprV>>
    decreases t.len(), t.len() + 1 - start,
{
    if !(0 <= start <= end0 && end0 + 1 < t.len()) {
        Some(seq![])
    } else {
        let key = t[start].str;
        if key == "if"@ || key == "loop"@ || key == "while"@ {
            let mid = find_colon(t, start);
            if !(start <= mid && mid + 1 <= t.len()) {
                None
            } else {
                let end = block_end(t, t[start].col, mid + 1);
                if !(mid + 1 <= end <= t.len()) {
                    None
                } else {
                    let body = parse_sequence(t.subrange(mid + 1, end));
                    let stmt = if key == "if"@ {
                        match (parse_expression(t.subrange(start + 1, mid)), body) {
                            (Some(c), Some(b)) => Some(
                                node(KindV::If(Box::new(c), Box::new(b)), t[start].line, t[start].col),
                            ),
                            _ => None,
                        }
                    } else if key == "loop"@ {
                        match body {
                            Some(b) => Some(node(KindV::Loop(Box::new(b)), t[start].line, t[start].col)),
                            None => None,
                        }
                    } else if mid + 1 < t.len() {
                        match (parse_expression(t.subrange(start + 1, mid)), body) {
                            (Some(c), Some(b)) => {
                                let not_c = node(KindV::Not(Box::new(c)), t[start + 1].line, t[start + 1].col);
                                let guard = node(
                                    KindV::If(Box::new(not_c), Box::new(node(KindV::Break, 0, 0))),
                                    0,
                                    0,
                                );
                                let inner = node(KindV::Sequence(seq![guard, b]), t[mid + 1].line, t[mid + 1].col);
                                Some(node(KindV::Loop(Box::new(inner)), t[start].line, t[start].col))
                            },
                            _ => None,
                        }
                    } else {
                        None
                    };
                    match stmt {
                        None => None,
                        Some(st) => if start < end {
                            match parse_statements(t, end, end + 1) {
                                Some(rest) => Some(seq![st] + rest),
                                None => None,
                            }
                        } else {
                            None
                        },
                    }
                }
            }
        } else {
            let end = line_end(t, t[start].line, end0);
            if !(start < end <= t.len()) {
                None
            } else {
                match parse_expression(t.subrange(start, end)) {
                    None => None,
                    Some(st) => match parse_statements(t, end, end + 1) {
                        Some(rest) => Some(seq![st] + rest),
                        None => None,
                    },
                }
            }
        }
    }
}

/// The sequence node that a token sequence spells.
pub open spec fn parse_sequence(t: Seq<TokenV>) -> Option<ExprV>
    decreases t.len(), t.len() + 2,
{
    match parse_statements(t, 0, 0) {
        Some(s) => Some(node(KindV::Sequence(s), 0, 0)),
        None => None,
    }
}


/// The value of an optional node.
pub open spec fn opt_view(r: Option<Expression>) -> Option<ExprV> {
    match r {
        Some(e) => Some(e@),
        None => None,
    }
}

impl Expression {
    fn new(kind: ExpressionKind, line: usize, col: usize) -> (e: Expression)
        ensures
            e@ == node(kind_view(kind), line as int, col as int),
    {
        Expression { kind, line, col }
    }
}

fn copy_token(t: &Token) -> (r: Token)
    ensures
        r@ == t@,
{
    Token { str: t.str.clone(), kind: t.kind, line: t.line, col: t.col }
}

fn get_op_priority(operation: &Token) -> (r: Option<u8>)
    ensures
        match r {
            Some(p) => op_priority(operation.str@) == Some(p as nat),
            None => op_priority(operation.str@) is None,
        },
{
    let s = operation.str.as_str();
    if str_eq(s, "+") || str_eq(s, "%") || str_eq(s, "-") {
        Some(1)
    } else if str_eq(s, "*") || str_eq(s, "/") {
        Some(2)
    } else if str_eq(s, "!") {
        Some(3)
    } else if str_eq(s, "==") || str_eq(s, "!=") || str_eq(s, "<") || str_eq(s, "<=") || str_eq(s, ">")
        || str_eq(s, ">=") {
        Some(4)
    } else if str_eq(s, "and") || str_eq(s, "or") {
        Some(5)
    } else {
        None
    }
}

fn get_operation(operation: &Token, arg1: Expression, arg2: Expression) -> (r: Option<ExpressionKind>)
    ensures
        match r {
            Some(k) => operation_kind(operation.str@, arg1@, arg2@) == Some(kind_view(k)),
            None => operation_kind(operation.str@, arg1@, arg2@) is None,
        },
{
    let s = operation.str.as_str();
    let (a, b) = (Box::new(arg1), Box::new(arg2));
    if str_eq(s, "+") {
        Some(ExpressionKind::Add(a, b))
    } else if str_eq(s, "-") {
        Some(ExpressionKind::Sub(a, b))
    } else if str_eq(s, "*") {
        Some(ExpressionKind::Mul(a, b))
    } else if str_eq(s, "/") {
        Some(ExpressionKind::Div(a, b))
    } else if str_eq(s, "%") {
        Some(ExpressionKind::Mod(a, b))
    } else if str_eq(s, "and") {
        Some(ExpressionKind::And(a, b))
    } else if str_eq(s, "or") {
        Some(ExpressionKind::Or(a, b))
    } else if str_eq(s, "==") {
        Some(ExpressionKind::Eq(a, b))
    } else if str_eq(s, "!=") {
        Some(ExpressionKind::Neq(a, b))
    } else if str_eq(s, "<") {
        Some(ExpressionKind::Lt(a, b))
    } else if str_eq(s, "<=") {
        Some(ExpressionKind::Leq(a, b))
    } else if str_eq(s, ">") {
        Some(ExpressionKind::Gt(a, b))
    } else if str_eq(s, ">=") {
        Some(ExpressionKind::Geq(a, b))
    } else {
        None
    }
}

fn find_split(t: &Vec<Token>, lo: usize, hi: usize) -> (r: Option<(usize, u8)>)
    requires
        lo <= hi <= t.len(),
    ensures
        match r {
            Some((pos, pri)) => split_point(tokens_view(t@).subrange(lo as int, hi as int), hi - lo)
                == Some(((pos - lo) as int, pri as nat)) && lo <= pos && (pri != 0 ==> pos < hi),
            None => split_point(tokens_view(t@).subrange(lo as int, hi as int), hi - lo) is None,
        },
{
    let ghost ts = tokens_view(t@).subrange(lo as int, hi as int);
    let mut pos = lo;
    let mut priority: u8 = 0;
    let mut k = lo;
    while k < hi
        invariant
            lo <= k <= hi <= t.len(),
            ts == tokens_view(t@).subrange(lo as int, hi as int),
            lo <= pos,
            priority != 0 ==> pos < k,
            split_point(ts, k - lo) == Some(((pos - lo) as int, priority as nat)),
        decreases hi - k,
    {
        assert(ts[k - lo] == t@[k as int]@);
        if t[k].kind == TokenKind::Operator {
            match get_op_priority(&t[k]) {
                None => {
                    proof {
                        lemma_split_none(ts, k - lo + 1, hi - lo);
                    }
                    return None;
                },
                Some(p) => {
                    if priority <= p {
                        pos = k;
                        priority = p;
                    }
                },
            }
        }
        k += 1;
    }
    Some((pos, priority))
}

proof fn lemma_split_none(t: Seq<TokenV>, k: int, n: int)
    requires
        0 <= k <= n,
        split_point(t, k) is None,
    ensures
        split_point(t, n) is None,
    decreases n - k,
{
    if k < n {
        lemma_split_none(t, k + 1, n);
    }
}

fn get_binary(t: &Vec<Token>, lo: usize, hi: usize) -> (r: Option<Expression>)
    requires
        lo <= hi <= t.len(),
    ensures
        opt_view(r) == parse_binary(tokens_view(t@).subrange(lo as int, hi as int)),
    decreases hi - lo, 0nat,
{
    let ghost ts = tokens_view(t@).subrange(lo as int, hi as int);
    match find_split(t, lo, hi) {
        None => None,
        Some((pos, priority)) => {
            if priority == 0 || pos >= hi {
                return None;
            }
            assert(ts.subrange(0, pos - lo) =~= tokens_view(t@).subrange(lo as int, pos as int));
            assert(ts.subrange(pos - lo + 1, ts.len() as int) =~= tokens_view(t@).subrange(pos + 1, hi as int));
            assert(ts[pos - lo] == t@[pos as int]@);
            assert(ts[0] == t@[lo as int]@);
            let a = get_expression(t, lo, pos);
            let b = get_expression(t, pos + 1, hi);
            match (a, b) {
                (Some(a), Some(b)) => match get_operation(&t[pos], a, b) {
                    Some(k) => Some(Expression::new(k, t[lo].line, t[lo].col)),
                    None => None,
                },
                _ => None,
            }
        },
    }
}

fn leaf(token: &Token) -> (r: Option<ExpressionKind>)
    ensures
        opt_view(match r { Some(k) => Some(Expression { kind: k, line: token.line, col: token.col }), None => None })
            == (match (match token@.kind {
                TokenKind::Identifier => Some(KindV::Identifier(token@.str)),
                TokenKind::BoolLit => Some(KindV::BoolLit(token@.str)),
                TokenKind::IntLit => Some(KindV::IntLit(token@.str)),
                TokenKind::Keyword => if token@.str == "break"@ { Some(KindV::Break) } else { None },
                _ => None,
            }) {
                Some(k) => Some(node(k, token@.line, token@.col)),
                None => None,
            }),
{
    match token.kind {
        TokenKind::Identifier => Some(ExpressionKind::Identifier(token.str.clone())),
        TokenKind::BoolLit => Some(ExpressionKind::BoolLit(token.str.clone())),
        TokenKind::IntLit => Some(ExpressionKind::IntLit(token.str.clone())),
        TokenKind::Keyword => if str_eq(token.str.as_str(), "break") {
            Some(ExpressionKind::Break)
        } else {
            None
        },
        _ => None,
    }
}

fn first_char(s: &String) -> (r: String)
    requires
        s@.len() >= 1,
    ensures
        r@ == s@.subrange(0, 1),
{
    let chars = chars_of(s.as_str());
    let mut r = String::new();
    push_char(&mut r, chars[0]);
    assert(r@ =~= s@.subrange(0, 1));
    r
}

fn get_expression(t: &Vec<Token>, lo: usize, hi: usize) -> (r: Option<Expression>)
    requires
        lo <= hi <= t.len(),
    ensures
        opt_view(r) == parse_expression(tokens_view(t@).subrange(lo as int, hi as int)),
    decreases hi - lo, 2nat,
{
    let ghost tv = tokens_view(t@);
    let ghost ts = tv.subrange(lo as int, hi as int);
    let len = hi - lo;
    if len == 0 {
        return None;
    }
    assert(ts[0] == t@[lo as int]@);
    if len == 1 {
        return match leaf(&t[lo]) {
            Some(k) => Some(Expression::new(k, t[lo].line, t[lo].col)),
            None => None,
        };
    }
    assert(ts[1] == t@[lo + 1]@);
    let line = t[lo].line;
    let col = t[lo].col;
    let s0 = t[lo].str.as_str();
    let s1 = t[lo + 1].str.as_str();
    if str_eq(s0, "exit") {
        if len >= 3 {
            assert(ts.subrange(2, ts.len() - 1) =~= tv.subrange(lo + 2, hi - 1));
            return match get_expression(t, lo + 2, hi - 1) {
                Some(a) => Some(Expression::new(ExpressionKind::Exit(Box::new(a)), line, col)),
                None => None,
            };
        }
        return None;
    }
    if str_eq(s0, "var") {
        if len >= 3 {
            assert(ts[2] == t@[lo + 2]@);
            if str_eq(t[lo + 2].str.as_str(), "=") {
                assert(ts.subrange(1, 2) =~= tv.subrange(lo + 1, lo + 2));
                assert(ts.subrange(3, ts.len() as int) =~= tv.subrange(lo + 3, hi as int));
                let a = get_expression(t, lo + 1, lo + 2);
                let b = get_expression(t, lo + 3, hi);
                return match (a, b) {
                    (Some(a), Some(b)) => Some(Expression::new(ExpressionKind::Declare(Box::new(a), Box::new(b)), line, col)),
                    _ => None,
                };
            }
        }
        return None;
    }
    if str_eq(s0, "!") {
        assert(ts.subrange(1, ts.len() as int) =~= tv.subrange(lo + 1, hi as int));
        return match get_expression(t, lo + 1, hi) {
            Some(a) => Some(Expression::new(ExpressionKind::Not(Box::new(a)), line, col)),
            None => None,
        };
    }
    if str_eq(s1, "=") {
        assert(ts.subrange(0, 1) =~= tv.subrange(lo as int, lo + 1));
        assert(ts.subrange(2, ts.len() as int) =~= tv.subrange(lo + 2, hi as int));
        let a = get_expression(t, lo, lo + 1);
        let b = get_expression(t, lo + 2, hi);
        return match (a, b) {
            (Some(a), Some(b)) => Some(Expression::new(ExpressionKind::Assign(Box::new(a), Box::new(b)), line, col)),
            _ => None,
        };
    }
    if str_eq(s1, "+=") || str_eq(s1, "-=") || str_eq(s1, "*=") || str_eq(s1, "/=") || str_eq(s1, "%=") {
        assert(t[lo + 1].str@.len() >= 1) by {
            reveal_strlit("+=");
            reveal_strlit("-=");
            reveal_strlit("*=");
            reveal_strlit("/=");
            reveal_strlit("%=");
        }
        return compound_assign(t, lo, hi);
    }
    get_binary(t, lo, hi)
}

fn compound_assign(t: &Vec<Token>, lo: usize, hi: usize) -> (r: Option<Expression>)
    requires
        lo + 2 <= hi <= t.len(),
        t@[lo + 1].str@.len() >= 1,
        ({
            let ts = tokens_view(t@).subrange(lo as int, hi as int);
            &&& ts[0].str != "exit"@
            &&& ts[0].str != "var"@
            &&& ts[0].str != "!"@
            &&& ts[1].str != "="@
            &&& (ts[1].str == "+="@ || ts[1].str == "-="@ || ts[1].str == "*="@ || ts[1].str == "/="@
                || ts[1].str == "%="@)
        }),
    ensures
        opt_view(r) == parse_expression(tokens_view(t@).subrange(lo as int, hi as int)),
    decreases hi - lo, 1nat,
{
    let ghost tv = tokens_view(t@);
    let ghost ts = tv.subrange(lo as int, hi as int);
    assert(ts[0] == t@[lo as int]@);
    assert(ts[1] == t@[lo + 1]@);
    let op_text = first_char(&t[lo + 1].str);
    let kind = match crate::yora_compiler::lexer::Token::kind_of(&op_text) {
        Some(k) => k,
        None => {
            return None;
        },
    };
    let op = Token { str: op_text, kind, line: t[lo + 1].line, col: t[lo + 1].col };
    let mut rewritten: Vec<Token> = Vec::new();
    rewritten.push(copy_token(&t[lo]));
    rewritten.push(op);
    let mut k = lo + 2;
    while k < hi
        invariant
            lo + 2 <= k <= hi <= t.len(),
            tokens_view(rewritten@) == seq![tv[lo as int], TokenV { str: t@[lo + 1].str@.subrange(0, 1), kind, line: t@[lo + 1].line as int, col: t@[lo + 1].col as int }]
                + tv.subrange(lo + 2, k as int),
            tv == tokens_view(t@),
        decreases hi - k,
    {
        let ghost r0 = rewritten@;
        rewritten.push(copy_token(&t[k]));
        assert(tokens_view(rewritten@) =~= tokens_view(r0).push(t@[k as int]@));
        assert(tv.subrange(lo + 2, k + 1) =~= tv.subrange(lo + 2, k as int).push(tv[k as int]));
        k += 1;
    }
    assert(ts.subrange(2, ts.len() as int) =~= tv.subrange(lo + 2, hi as int));
    assert(ts.subrange(0, 1) =~= tv.subrange(lo as int, lo + 1));
    let a = get_expression(t, lo, lo + 1);
    let n = rewritten.len();
    assert(tokens_view(rewritten@).subrange(0, n as int) =~= tokens_view(rewritten@));
    let b = get_binary(&rewritten, 0, n);
    match (a, b) {
        (Some(a), Some(b)) => {
            let src = Expression { kind: b.kind, line: t[lo].line, col: t[lo].col };
            Some(Expression::new(ExpressionKind::Assign(Box::new(a), Box::new(src)), t[lo].line, t[lo].col))
        },
        _ => None,
    }
}


fn scan_colon(t: &Vec<Token>, lo: usize, hi: usize, i: usize) -> (r: usize)
    requires
        lo <= i <= hi <= t.len(),
    ensures
        r - lo == find_colon(tokens_view(t@).subrange(lo as int, hi as int), i - lo),
        i <= r <= hi,
{
    let ghost ts = tokens_view(t@).subrange(lo as int, hi as int);
    let mut k = i;
    while k < hi
        invariant
            lo <= i <= k <= hi <= t.len(),
            ts == tokens_view(t@).subrange(lo as int, hi as int),
            find_colon(ts, i - lo) == find_colon(ts, k - lo),
        decreases hi - k,
    {
        assert(ts[k - lo] == t@[k as int]@);
        if str_eq(t[k].str.as_str(), ":") {
            return k;
        }
        k += 1;
    }
    k
}

fn scan_block_end(t: &Vec<Token>, lo: usize, hi: usize, col: usize, i: usize) -> (r: usize)
    requires
        lo <= i <= hi <= t.len(),
    ensures
        r - lo == block_end(tokens_view(t@).subrange(lo as int, hi as int), col as int, i - lo),
        i <= r <= hi,
{
    let ghost ts = tokens_view(t@).subrange(lo as int, hi as int);
    let mut k = i;
    while k < hi
        invariant
            lo <= i <= k <= hi <= t.len(),
            ts == tokens_view(t@).subrange(lo as int, hi as int),
            block_end(ts, col as int, i - lo) == block_end(ts, col as int, k - lo),
        decreases hi - k,
    {
        assert(ts[k - lo] == t@[k as int]@);
        if !(col < t[k].col) {
            return k;
        }
        k += 1;
    }
    k
}

fn scan_line_end(t: &Vec<Token>, lo: usize, hi: usize, line: usize, i: usize) -> (r: usize)
    requires
        lo <= i <= hi <= t.len(),
    ensures
        r - lo == line_end(tokens_view(t@).subrange(lo as int, hi as int), line as int, i - lo),
        i <= r <= hi,
{
    let ghost ts = tokens_view(t@).subrange(lo as int, hi as int);
    let mut k = i;
    while k < hi
        invariant
            lo <= i <= k <= hi <= t.len(),
            ts == tokens_view(t@).subrange(lo as int, hi as int),
            line_end(ts, line as int, i - lo) == line_end(ts, line as int, k - lo),
        decreases hi - k,
    {
        assert(ts[k - lo] == t@[k as int]@);
        if t[k].line != line {
            return k;
        }
        k += 1;
    }
    k
}

/// How the statements parsed so far and the rest make up the whole.
pub open spec fn joined(acc: Seq<ExprV>, rest: Option<Seq<ExprV>>) -> Option<Seq<ExprV>> {
    match rest {
        Some(r) => Some(acc + r),
        None => None,
    }
}

fn block_statement(t: &Vec<Token>, lo: usize, hi: usize, start: usize, end0: usize) -> (r: Option<(Expression, usize)>)
    requires
        lo <= start <= end0,
        end0 == start || end0 == start + 1,
        end0 + 1 < hi <= t.len(),
        ({
            let key = tokens_view(t@)[start as int].str;
            key == "if"@ || key == "loop"@ || key == "while"@
        }),
    ensures
        ({
            let ts = tokens_view(t@).subrange(lo as int, hi as int);
            match r {
                Some((e, next)) => start < next <= hi && parse_statements(ts, start - lo, end0 - lo) == joined(
                    seq![e@],
                    parse_statements(ts, next - lo, next - lo + 1),
                ),
                None => parse_statements(ts, start - lo, end0 - lo) is None,
            }
        }),
    decreases hi - lo, 0nat,
{
    let ghost tv = tokens_view(t@);
    let ghost ts = tv.subrange(lo as int, hi as int);
    assert(ts[start - lo] == t@[start as int]@);
    assert(tv[start as int] == t@[start as int]@);
    proof {
        reveal_strlit(":");
        reveal_strlit("if");
        reveal_strlit("loop");
        reveal_strlit("while");
        assert(":"@.len() == 1);
        assert("if"@.len() == 2);
        assert("loop"@.len() == 4);
        assert("while"@.len() == 5);
    }
    assert(t@[start as int].str@ != ":"@);
    assert(find_colon(ts, start - lo) == find_colon(ts, start - lo + 1));
    let mid = scan_colon(t, lo, hi, start + 1);
    if !(mid < hi) {
        return None;
    }
    let end = scan_block_end(t, lo, hi, t[start].col, mid + 1);
    assert(ts.subrange(mid + 1 - lo, end - lo) =~= tv.subrange(mid + 1, end as int));
    assert(ts.subrange(start + 1 - lo, mid - lo) =~= tv.subrange(start + 1, mid as int));
    let body = get_sequence(t, mid + 1, end);
    let key = t[start].str.as_str();
    let line = t[start].line;
    let col = t[start].col;
    let st = if str_eq(key, "if") {
        match (get_expression(t, start + 1, mid), body) {
            (Some(c), Some(b)) => Some(Expression::new(ExpressionKind::If(Box::new(c), Box::new(b)), line, col)),
            _ => None,
        }
    } else if str_eq(key, "loop") {
        match body {
            Some(b) => Some(Expression::new(ExpressionKind::Loop(Box::new(b)), line, col)),
            None => None,
        }
    } else if mid + 1 < hi {
        assert(ts[start + 1 - lo] == t@[start + 1]@);
        assert(ts[mid + 1 - lo] == t@[mid + 1]@);
        match (get_expression(t, start + 1, mid), body) {
            (Some(c), Some(b)) => {
                let not_c = Expression::new(ExpressionKind::Not(Box::new(c)), t[start + 1].line, t[start + 1].col);
                let brk = Expression::new(ExpressionKind::Break, 0, 0);
                let guard = Expression::new(ExpressionKind::If(Box::new(not_c), Box::new(brk)), 0, 0);
                let mut items: Vec<Expression> = Vec::new();
                items.push(guard);
                items.push(b);
                proof {
                    reveal_with_fuel(exprs_view, 3);
                    assert(items@.drop_last() =~= seq![items@[0]]);
                    assert(seq![items@[0]].drop_last() =~= Seq::<Expression>::empty());
                    assert(exprs_view(items@) =~= seq![items@[0]@, items@[1]@]);
                }
                let inner = Expression::new(ExpressionKind::Sequence(items), t[mid + 1].line, t[mid + 1].col);
                Some(Expression::new(ExpressionKind::Loop(Box::new(inner)), line, col))
            },
            _ => None,
        }
    } else {
        None
    };
    match st {
        None => None,
        Some(e) => Some((e, end)),
    }
}

fn line_statement(t: &Vec<Token>, lo: usize, hi: usize, start: usize, end0: usize) -> (r: Option<(Expression, usize)>)
    requires
        lo <= start <= end0,
        end0 == start || end0 == start + 1,
        end0 + 1 < hi <= t.len(),
        ({
            let key = tokens_view(t@)[start as int].str;
            !(key == "if"@ || key == "loop"@ || key == "while"@)
        }),
    ensures
        ({
            let ts = tokens_view(t@).subrange(lo as int, hi as int);
            match r {
                Some((e, next)) => start < next <= hi && parse_statements(ts, start - lo, end0 - lo) == joined(
                    seq![e@],
                    parse_statements(ts, next - lo, next - lo + 1),
                ),
                None => parse_statements(ts, start - lo, end0 - lo) is None,
            }
        }),
{
    let ghost tv = tokens_view(t@);
    let ghost ts = tv.subrange(lo as int, hi as int);
    assert(ts[start - lo] == t@[start as int]@);
    assert(tv[start as int] == t@[start as int]@);
    let next = scan_line_end(t, lo, hi, t[start].line, end0);
    if !(start < next) {
        return None;
    }
    assert(ts.subrange(start - lo, next - lo) =~= tv.subrange(start as int, next as int));
    match get_expression(t, start, next) {
        None => None,
        Some(e) => Some((e, next)),
    }
}

fn get_sequence(t: &Vec<Token>, lo: usize, hi: usize) -> (r: Option<Expression>)
    requires
        lo <= hi <= t.len(),
    ensures
        opt_view(r) == parse_sequence(tokens_view(t@).subrange(lo as int, hi as int)),
    decreases hi - lo, 1nat,
{
    let ghost tv = tokens_view(t@);
    let ghost ts = tv.subrange(lo as int, hi as int);
    let mut sequence: Vec<Expression> = Vec::new();
    let mut start = lo;
    let mut end = lo;
    while hi >= 1 && end < hi - 1
        invariant
            lo <= start <= end <= hi <= t.len(),
            ts == tokens_view(t@).subrange(lo as int, hi as int),
            tv == tokens_view(t@),
            end == start || end == start + 1,
            parse_statements(ts, 0, 0) == joined(exprs_view(sequence@), parse_statements(ts, start - lo, end - lo)),
        decreases hi - start,
    {
        let ghost acc = exprs_view(sequence@);
        assert(tv[start as int] == t@[start as int]@);
        let key = t[start].str.as_str();
        let step = if str_eq(key, "if") || str_eq(key, "loop") || str_eq(key, "while") {
            block_statement(t, lo, hi, start, end)
        } else {
            line_statement(t, lo, hi, start, end)
        };
        match step {
            None => {
                return None;
            },
            Some((e, next)) => {
                let ghost ev = e@;
                let ghost old_seq = sequence@;
                sequence.push(e);
                proof {
                    assert(sequence@.drop_last() =~= old_seq);
                    assert(exprs_view(sequence@) == acc.push(ev));
                    match parse_statements(ts, next - lo, next - lo + 1) {
                        Some(rest) => assert(acc.push(ev) + rest =~= acc + (seq![ev] + rest)),
                        None => {},
                    }
                }
                start = next;
                if next < hi {
                    end = next + 1;
                } else {
                    end = next;
                    assert(parse_statements(ts, next - lo, next - lo) == parse_statements(ts, next - lo, next - lo + 1));
                }
            },
        }
    }
    proof {
        assert(exprs_view(sequence@) + Seq::<ExprV>::empty() =~= exprs_view(sequence@));
    }
    Some(Expression::new(ExpressionKind::Sequence(sequence), 0, 0))
}

/// Why a token sequence is no program.
#[derive(Debug, PartialEq)]
pub enum ParseError {
    /// Some statement or expression is malformed.
    InvalidSyntax,
}

/// Parses the tokens of a program into one sequence node.
pub fn parse(tokens: Vec<Token>) -> (r: Result<Vec<Expression>, ParseError>)
    ensures
        match r {
            Ok(v) => v@.len() == 1 && parse_sequence(tokens_view(tokens@)) == Some(v@[0]@),
            Err(_) => parse_sequence(tokens_view(tokens@)) is None,
        },
{
    let n = tokens.len();
    assert(tokens_view(tokens@).subrange(0, n as int) =~= tokens_view(tokens@));
    match get_sequence(&tokens, 0, n) {
        Some(e) => {
            let mut v = Vec::new();
            v.push(e);
            Ok(v)
        },
        None => Err(ParseError::InvalidSyntax),
    }
}

} // verus!
