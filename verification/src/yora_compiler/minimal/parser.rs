//! Parser of the minimal dialect.
//!
//! ```text
//! program := stmt*
//! stmt    := "exit" "(" expr ")" ";" | "var" id "=" expr ";" | id "=" expr ";"
//!          | "if" expr "{" stmt* "}"
//! expr    := sum [("==" | "!=" | "<" | "<=" | ">" | ">=") sum]
//! sum     := prod (("+" | "-") prod)*
//! prod    := atom (("*" | "/" | "%") atom)*
//! atom    := int | bool | id | "(" expr ")"
//! ```
use vstd::prelude::*;
use super::lexer::{Token, TokenV, tokens_view};

verus! {

/// A node of the syntax tree of the minimal dialect.
#[derive(Debug, PartialEq)]
pub enum Expression {
    Identifier(String),
    IntLit(String),
    BoolLit(String),
    Sequence(Vec<Expression>),
    If(Box<Expression>, Box<Expression>),
    Exit(Box<Expression>),
    Declare(Box<Expression>, Box<Expression>),
    Assign(Box<Expression>, Box<Expression>),
    Add(Box<Expression>, Box<Expression>),
    Sub(Box<Expression>, Box<Expression>),
    Mul(Box<Expression>, Box<Expression>),
    Div(Box<Expression>, Box<Expression>),
    Mod(Box<Expression>, Box<Expression>),
    Equals(Box<Expression>, Box<Expression>),
    NotEquals(Box<Expression>, Box<Expression>),
    Less(Box<Expression>, Box<Expression>),
    LessEquals(Box<Expression>, Box<Expression>),
    Greater(Box<Expression>, Box<Expression>),
    GreaterEquals(Box<Expression>, Box<Expression>),
}

/// The mathematical value of a syntax tree.
pub enum ExprV {
    Identifier(Seq<char>),
    IntLit(Seq<char>),
    BoolLit(Seq<char>),
    Sequence(Seq<ExprV>),
    If(Box<ExprV>, Box<ExprV>),
    Exit(Box<ExprV>),
    Declare(Box<ExprV>, Box<ExprV>),
    Assign(Box<ExprV>, Box<ExprV>),
    Add(Box<ExprV>, Box<ExprV>),
    Sub(Box<ExprV>, Box<ExprV>),
    Mul(Box<ExprV>, Box<ExprV>),
    Div(Box<ExprV>, Box<ExprV>),
    Mod(Box<ExprV>, Box<ExprV>),
    Equals(Box<ExprV>, Box<ExprV>),
    NotEquals(Box<ExprV>, Box<ExprV>),
    Less(Box<ExprV>, Box<ExprV>),
    LessEquals(Box<ExprV>, Box<ExprV>),
    Greater(Box<ExprV>, Box<ExprV>),
    GreaterEquals(Box<ExprV>, Box<ExprV>),
}

/// The value of a syntax tree.
pub open spec fn expr_view(e: Expression) -> ExprV
    decreases e,
{
    match e {
        Expression::Identifier(s) => ExprV::Identifier(s@),
        Expression::IntLit(s) => ExprV::IntLit(s@),
        Expression::BoolLit(s) => ExprV::BoolLit(s@),
        Expression::Sequence(v) => ExprV::Sequence(exprs_view(v@)),
        Expression::If(a, b) => ExprV::If(Box::new(expr_view(*a)), Box::new(expr_view(*b))),
        Expression::Exit(a) => ExprV::Exit(Box::new(expr_view(*a))),
        Expression::Declare(a, b) => ExprV::Declare(Box::new(expr_view(*a)), Box::new(expr_view(*b))),
        Expression::Assign(a, b) => ExprV::Assign(Box::new(expr_view(*a)), Box::new(expr_view(*b))),
        Expression::Add(a, b) => ExprV::Add(Box::new(expr_view(*a)), Box::new(expr_view(*b))),
        Expression::Sub(a, b) => ExprV::Sub(Box::new(expr_view(*a)), Box::new(expr_view(*b))),
        Expression::Mul(a, b) => ExprV::Mul(Box::new(expr_view(*a)), Box::new(expr_view(*b))),
        Expression::Div(a, b) => ExprV::Div(Box::new(expr_view(*a)), Box::new(expr_view(*b))),
        Expression::Mod(a, b) => ExprV::Mod(Box::new(expr_view(*a)), Box::new(expr_view(*b))),
        Expression::Equals(a, b) => ExprV::Equals(Box::new(expr_view(*a)), Box::new(expr_view(*b))),
        Expression::NotEquals(a, b) => ExprV::NotEquals(Box::new(expr_view(*a)), Box::new(expr_view(*b))),
        Expression::Less(a, b) => ExprV::Less(Box::new(expr_view(*a)), Box::new(expr_view(*b))),
        Expression::LessEquals(a, b) => ExprV::LessEquals(Box::new(expr_view(*a)), Box::new(expr_view(*b))),
        Expression::Greater(a, b) => ExprV::Greater(Box::new(expr_view(*a)), Box::new(expr_view(*b))),
        Expression::GreaterEquals(a, b) => ExprV::GreaterEquals(Box::new(expr_view(*a)), Box::new(expr_view(*b))),
    }
}

/// The values of a sequence of syntax trees.
pub open spec fn exprs_view(s: Seq<Expression>) -> Seq<ExprV>
    decreases s,
{
    if s.len() == 0 {
        seq![]
    } else {
        seq![expr_view(s[0])] + exprs_view(s.subrange(1, s.len() as int))
    }
}

impl View for Expression {
    type V = ExprV;

    open spec fn view(&self) -> ExprV {
        expr_view(*self)
    }
}

} // verus!

verus! {

/// The operator node that a binary operator token builds.
pub open spec fn binary(op: TokenV, a: ExprV, b: ExprV) -> ExprV {
    match op {
        TokenV::Add => ExprV::Add(Box::new(a), Box::new(b)),
        TokenV::Sub => ExprV::Sub(Box::new(a), Box::new(b)),
        TokenV::Mul => ExprV::Mul(Box::new(a), Box::new(b)),
        TokenV::Div => ExprV::Div(Box::new(a), Box::new(b)),
        TokenV::Mod => ExprV::Mod(Box::new(a), Box::new(b)),
        TokenV::Equals => ExprV::Equals(Box::new(a), Box::new(b)),
        TokenV::NotEquals => ExprV::NotEquals(Box::new(a), Box::new(b)),
        TokenV::Less => ExprV::Less(Box::new(a), Box::new(b)),
        TokenV::LessEquals => ExprV::LessEquals(Box::new(a), Box::new(b)),
        TokenV::Greater => ExprV::Greater(Box::new(a), Box::new(b)),
        TokenV::GreaterEquals => ExprV::GreaterEquals(Box::new(a), Box::new(b)),
        _ => a,
    }
}

pub open spec fn is_relation(t: TokenV) -> bool {
    t is Equals || t is NotEquals || t is Less || t is LessEquals || t is Greater || t is GreaterEquals
}

pub open spec fn is_additive(t: TokenV) -> bool {
    t is Add || t is Sub
}

pub open spec fn is_multiplicative(t: TokenV) -> bool {
    t is Mul || t is Div || t is Mod
}

/// An expression starting at `i`, with the position after it.
pub open spec fn parse_expr(t: Seq<TokenV>, i: int) -> Option<(ExprV, int)>
    decreases t.len() - i, 4int,
{
    if i < 0 || i >= t.len() {
        None
    } else {
        match parse_sum(t, i) {
            None => None,
            Some((a, j)) => if i < j <= t.len() {
                if j < t.len() && is_relation(t[j]) {
                    match parse_sum(t, j + 1) {
                        None => None,
                        Some((b, k)) => Some((binary(t[j], a, b), k)),
                    }
                } else {
                    Some((a, j))
                }
            } else {
                None
            },
        }
    }
}

/// A sum of products starting at `i`.
pub open spec fn parse_sum(t: Seq<TokenV>, i: int) -> Option<(ExprV, int)>
    decreases t.len() - i, 3int,
{
    if i < 0 || i >= t.len() {
        None
    } else {
        match parse_prod(t, i) {
            None => None,
            Some((a, j)) => if i < j <= t.len() {
                sum_rest(t, j, a)
            } else {
                None
            },
        }
    }
}

/// The additive operators and operands that follow `acc`, folded to the left.
pub open spec fn sum_rest(t: Seq<TokenV>, i: int, acc: ExprV) -> Option<(ExprV, int)>
    decreases t.len() - i, 3int,
{
    if 0 <= i < t.len() && is_additive(t[i]) {
        match parse_prod(t, i + 1) {
            None => None,
            Some((b, j)) => if i < j <= t.len() {
                sum_rest(t, j, binary(t[i], acc, b))
            } else {
                None
            },
        }
    } else {
        Some((acc, i))
    }
}

/// A product of atoms starting at `i`.
pub open spec fn parse_prod(t: Seq<TokenV>, i: int) -> Option<(ExprV, int)>
    decreases t.len() - i, 2int,
{
    if i < 0 || i >= t.len() {
        None
    } else {
        match parse_atom(t, i) {
            None => None,
            Some((a, j)) => if i < j <= t.len() {
                prod_rest(t, j, a)
            } else {
                None
            },
        }
    }
}

/// The multiplicative operators and operands that follow `acc`, folded to the left.
pub open spec fn prod_rest(t: Seq<TokenV>, i: int, acc: ExprV) -> Option<(ExprV, int)>
    decreases t.len() - i, 2int,
{
    if 0 <= i < t.len() && is_multiplicative(t[i]) {
        match parse_atom(t, i + 1) {
            None => None,
            Some((b, j)) => if i < j <= t.len() {
                prod_rest(t, j, binary(t[i], acc, b))
            } else {
                None
            },
        }
    } else {
        Some((acc, i))
    }
}

/// A literal, an identifier or a parenthesized expression at `i`.
pub open spec fn parse_atom(t: Seq<TokenV>, i: int) -> Option<(ExprV, int)>
    decreases t.len() - i, 1int,
{
    if i < 0 || i >= t.len() {
        None
    } else {
        match t[i] {
            TokenV::IntLit(s) => Some((ExprV::IntLit(s), i + 1)),
            TokenV::BoolLit(s) => Some((ExprV::BoolLit(s), i + 1)),
            TokenV::Identifier(s) => Some((ExprV::Identifier(s), i + 1)),
            TokenV::OpenParen => match parse_expr(t, i + 1) {
                None => None,
                Some((e, j)) => if 0 <= j < t.len() && t[j] is CloseParen {
                    Some((e, j + 1))
                } else {
                    None
                },
            },
            _ => None,
        }
    }
}

/// A statement at `i`, with the position after it.
pub open spec fn parse_stmt(t: Seq<TokenV>, i: int) -> Option<(ExprV, int)>
    decreases t.len() - i, 5int,
{
    if i < 0 || i + 1 >= t.len() {
        None
    } else {
        match t[i] {
            TokenV::Exit => if t[i + 1] is OpenParen {
                match parse_expr(t, i + 2) {
                    None => None,
                    Some((e, j)) => if 0 <= j && j + 1 < t.len() && t[j] is CloseParen
                        && t[j + 1] is SemiColon {
                        Some((ExprV::Exit(Box::new(e)), j + 2))
                    } else {
                        None
                    },
                }
            } else {
                None
            },
            TokenV::Var => if i + 2 < t.len() && t[i + 1] is Identifier && t[i + 2] is Assign {
                match parse_expr(t, i + 3) {
                    None => None,
                    Some((e, j)) => if 0 <= j < t.len() && t[j] is SemiColon {
                        Some((ExprV::Declare(Box::new(ExprV::Identifier(t[i + 1]->Identifier_0)), Box::new(e)), j + 1))
                    } else {
                        None
                    },
                }
            } else {
                None
            },
            TokenV::Identifier(name) => if t[i + 1] is Assign {
                match parse_expr(t, i + 2) {
                    None => None,
                    Some((e, j)) => if 0 <= j < t.len() && t[j] is SemiColon {
                        Some((ExprV::Assign(Box::new(ExprV::Identifier(name)), Box::new(e)), j + 1))
                    } else {
                        None
                    },
                }
            } else {
                None
            },
            TokenV::If => match parse_expr(t, i + 1) {
                None => None,
                Some((c, j)) => if i < j < t.len() && t[j] is OpenBrace {
                    match parse_block(t, j + 1) {
                        None => None,
                        Some((body, k)) => if 0 <= k < t.len() && t[k] is CloseBrace {
                            Some((ExprV::If(Box::new(c), Box::new(ExprV::Sequence(body))), k + 1))
                        } else {
                            None
                        },
                    }
                } else {
                    None
                },
            },
            _ => None,
        }
    }
}

/// The statements from `i` up to a closing brace or the end, with the position after them.
pub open spec fn parse_block(t: Seq<TokenV>, i: int) -> Option<(Seq<ExprV>, int)>
    decreases t.len() - i, 6int,
{
    if i < 0 {
        None
    } else if i >= t.len() || t[i] is CloseBrace {
        Some((seq![], i))
    } else {
        match parse_stmt(t, i) {
            None => None,
            Some((s, j)) => if i < j <= t.len() {
                match parse_block(t, j) {
                    None => None,
                    Some((rest, k)) => Some((seq![s] + rest, k)),
                }
            } else {
                None
            },
        }
    }
}

/// The program that the tokens spell: the whole token sequence is one block.
pub open spec fn parse_program(t: Seq<TokenV>) -> Option<Seq<ExprV>> {
    match parse_block(t, 0) {
        Some((stmts, k)) => if k == t.len() {
            Some(seq![ExprV::Sequence(stmts)])
        } else {
            None
        },
        None => None,
    }
}

} // verus!

verus! {

/// The value of a parse result.
pub open spec fn result_view(r: Option<(Expression, usize)>) -> Option<(ExprV, int)> {
    match r {
        Some((e, j)) => Some((e@, j as int)),
        None => None,
    }
}

fn copy_text(s: &String) -> (r: String)
    ensures
        r@ == s@,
{
    s.clone()
}

fn build_binary(op: &Token, a: Expression, b: Expression) -> (e: Expression)
    ensures
        e@ == binary(op@, a@, b@),
{
    let (a, b) = (Box::new(a), Box::new(b));
    match op {
        Token::Add => Expression::Add(a, b),
        Token::Sub => Expression::Sub(a, b),
        Token::Mul => Expression::Mul(a, b),
        Token::Div => Expression::Div(a, b),
        Token::Mod => Expression::Mod(a, b),
        Token::Equals => Expression::Equals(a, b),
        Token::NotEquals => Expression::NotEquals(a, b),
        Token::Less => Expression::Less(a, b),
        Token::LessEquals => Expression::LessEquals(a, b),
        Token::Greater => Expression::Greater(a, b),
        Token::GreaterEquals => Expression::GreaterEquals(a, b),
        _ => *a,
    }
}

fn expr(t: &Vec<Token>, i: usize) -> (r: Option<(Expression, usize)>)
    ensures
        result_view(r) == parse_expr(tokens_view(t@), i as int),
    decreases t@.len() - i, 4int,
{
    let ghost tv = tokens_view(t@);
    if i >= t.len() {
        return None;
    }
    match sum(t, i) {
        None => None,
        Some((a, j)) => {
            if i < j && j <= t.len() {
                if j < t.len() && matches!(t[j], Token::Equals | Token::NotEquals | Token::Less
                    | Token::LessEquals | Token::Greater | Token::GreaterEquals) {
                    assert(tv[j as int] == t@[j as int]@);
                    match sum(t, j + 1) {
                        None => None,
                        Some((b, k)) => Some((build_binary(&t[j], a, b), k)),
                    }
                } else {
                    assert(j < t.len() ==> tv[j as int] == t@[j as int]@);
                    Some((a, j))
                }
            } else {
                None
            }
        },
    }
}

fn sum(t: &Vec<Token>, i: usize) -> (r: Option<(Expression, usize)>)
    ensures
        result_view(r) == parse_sum(tokens_view(t@), i as int),
    decreases t@.len() - i, 3int,
{
    if i >= t.len() {
        return None;
    }
    match prod(t, i) {
        None => None,
        Some((a, j)) => if i < j && j <= t.len() {
            sum_rest_exec(t, j, a)
        } else {
            None
        },
    }
}

fn sum_rest_exec(t: &Vec<Token>, i: usize, acc: Expression) -> (r: Option<(Expression, usize)>)
    ensures
        result_view(r) == sum_rest(tokens_view(t@), i as int, acc@),
    decreases t@.len() - i, 3int,
{
    let ghost tv = tokens_view(t@);
    if i < t.len() && matches!(t[i], Token::Add | Token::Sub) {
        assert(tv[i as int] == t@[i as int]@);
        match prod(t, i + 1) {
            None => None,
            Some((b, j)) => if i < j && j <= t.len() {
                let e = build_binary(&t[i], acc, b);
                sum_rest_exec(t, j, e)
            } else {
                None
            },
        }
    } else {
        assert(i < t.len() ==> tv[i as int] == t@[i as int]@);
        Some((acc, i))
    }
}

fn prod(t: &Vec<Token>, i: usize) -> (r: Option<(Expression, usize)>)
    ensures
        result_view(r) == parse_prod(tokens_view(t@), i as int),
    decreases t@.len() - i, 2int,
{
    if i >= t.len() {
        return None;
    }
    match atom(t, i) {
        None => None,
        Some((a, j)) => if i < j && j <= t.len() {
            prod_rest_exec(t, j, a)
        } else {
            None
        },
    }
}

fn prod_rest_exec(t: &Vec<Token>, i: usize, acc: Expression) -> (r: Option<(Expression, usize)>)
    ensures
        result_view(r) == prod_rest(tokens_view(t@), i as int, acc@),
    decreases t@.len() - i, 2int,
{
    let ghost tv = tokens_view(t@);
    if i < t.len() && matches!(t[i], Token::Mul | Token::Div | Token::Mod) {
        assert(tv[i as int] == t@[i as int]@);
        match atom(t, i + 1) {
            None => None,
            Some((b, j)) => if i < j && j <= t.len() {
                let e = build_binary(&t[i], acc, b);
                prod_rest_exec(t, j, e)
            } else {
                None
            },
        }
    } else {
        assert(i < t.len() ==> tv[i as int] == t@[i as int]@);
        Some((acc, i))
    }
}

fn atom(t: &Vec<Token>, i: usize) -> (r: Option<(Expression, usize)>)
    ensures
        result_view(r) == parse_atom(tokens_view(t@), i as int),
    decreases t@.len() - i, 1int,
{
    let ghost tv = tokens_view(t@);
    if i >= t.len() {
        return None;
    }
    assert(tv[i as int] == t@[i as int]@);
    match &t[i] {
        Token::IntLit(s) => Some((Expression::IntLit(copy_text(s)), i + 1)),
        Token::BoolLit(s) => Some((Expression::BoolLit(copy_text(s)), i + 1)),
        Token::Identifier(s) => Some((Expression::Identifier(copy_text(s)), i + 1)),
        Token::OpenParen => match expr(t, i + 1) {
            None => None,
            Some((e, j)) => if j < t.len() && matches!(t[j], Token::CloseParen) {
                assert(tv[j as int] == t@[j as int]@);
                Some((e, j + 1))
            } else {
                assert(j < t.len() ==> tv[j as int] == t@[j as int]@);
                None
            },
        },
        _ => None,
    }
}

} // verus!

verus! {

/// The values of the statements of a block.
pub open spec fn block_view(r: Option<(Vec<Expression>, usize)>) -> Option<(Seq<ExprV>, int)> {
    match r {
        Some((v, j)) => Some((exprs_view(v@), j as int)),
        None => None,
    }
}

proof fn lemma_exprs_view_len(s: Seq<Expression>)
    ensures
        exprs_view(s).len() == s.len(),
        forall|k: int| 0 <= k < s.len() ==> #[trigger] exprs_view(s)[k] == s[k]@,
    decreases s.len(),
{
    if s.len() > 0 {
        lemma_exprs_view_len(s.subrange(1, s.len() as int));
    }
}

proof fn lemma_exprs_view_prepend(e: Expression, s: Seq<Expression>)
    ensures
        exprs_view(seq![e] + s) == seq![e@] + exprs_view(s),
{
    assert((seq![e] + s).subrange(1, (seq![e] + s).len() as int) =~= s);
}

fn stmt(t: &Vec<Token>, i: usize) -> (r: Option<(Expression, usize)>)
    ensures
        result_view(r) == parse_stmt(tokens_view(t@), i as int),
    decreases t@.len() - i, 5int,
{
    let ghost tv = tokens_view(t@);
    if i >= t.len() || i + 1 >= t.len() {
        return None;
    }
    assert(tv[i as int] == t@[i as int]@);
    match &t[i] {
        Token::Exit => stmt_exit(t, i),
        Token::Var => stmt_var(t, i),
        Token::Identifier(_) => stmt_assign(t, i),
        Token::If => stmt_if(t, i),
        _ => None,
    }
}

fn stmt_exit(t: &Vec<Token>, i: usize) -> (r: Option<(Expression, usize)>)
    requires
        i + 1 < t.len(),
        t@[i as int] is Exit,
    ensures
        result_view(r) == parse_stmt(tokens_view(t@), i as int),
    decreases t@.len() - i, 4int,
{
    let ghost tv = tokens_view(t@);
    assert(tv[i as int] == t@[i as int]@);
    assert(tv[i + 1] == t@[i + 1]@);
    if !matches!(t[i + 1], Token::OpenParen) {
        return None;
    }
    match expr(t, i + 2) {
        None => None,
        Some((e, j)) => {
            if j < t.len() && j + 1 < t.len() {
                assert(tv[j as int] == t@[j as int]@);
                assert(tv[j + 1] == t@[j + 1]@);
                if matches!(t[j], Token::CloseParen) && matches!(t[j + 1], Token::SemiColon) {
                    return Some((Expression::Exit(Box::new(e)), j + 2));
                }
            }
            None
        },
    }
}

fn stmt_var(t: &Vec<Token>, i: usize) -> (r: Option<(Expression, usize)>)
    requires
        i + 1 < t.len(),
        t@[i as int] is Var,
    ensures
        result_view(r) == parse_stmt(tokens_view(t@), i as int),
    decreases t@.len() - i, 4int,
{
    let ghost tv = tokens_view(t@);
    assert(tv[i as int] == t@[i as int]@);
    assert(tv[i + 1] == t@[i + 1]@);
    if i + 2 >= t.len() {
        return None;
    }
    assert(tv[i + 2] == t@[i + 2]@);
    let name = match &t[i + 1] {
        Token::Identifier(s) => copy_text(s),
        _ => {
            return None;
        },
    };
    if !matches!(t[i + 2], Token::Assign) {
        return None;
    }
    match expr(t, i + 3) {
        None => None,
        Some((e, j)) => {
            if j < t.len() {
                assert(tv[j as int] == t@[j as int]@);
                if matches!(t[j], Token::SemiColon) {
                    let id = Expression::Identifier(name);
                    assert(id@ == ExprV::Identifier(id->Identifier_0@));
                    return Some((Expression::Declare(Box::new(id), Box::new(e)), j + 1));
                }
            }
            None
        },
    }
}

fn stmt_assign(t: &Vec<Token>, i: usize) -> (r: Option<(Expression, usize)>)
    requires
        i + 1 < t.len(),
        t@[i as int] is Identifier,
    ensures
        result_view(r) == parse_stmt(tokens_view(t@), i as int),
    decreases t@.len() - i, 4int,
{
    let ghost tv = tokens_view(t@);
    assert(tv[i as int] == t@[i as int]@);
    assert(tv[i + 1] == t@[i + 1]@);
    if !matches!(t[i + 1], Token::Assign) {
        return None;
    }
    let name = match &t[i] {
        Token::Identifier(s) => copy_text(s),
        _ => {
            return None;
        },
    };
    match expr(t, i + 2) {
        None => None,
        Some((e, j)) => {
            if j < t.len() {
                assert(tv[j as int] == t@[j as int]@);
                if matches!(t[j], Token::SemiColon) {
                    let id = Expression::Identifier(name);
                    assert(id@ == ExprV::Identifier(id->Identifier_0@));
                    return Some((Expression::Assign(Box::new(id), Box::new(e)), j + 1));
                }
            }
            None
        },
    }
}

fn stmt_if(t: &Vec<Token>, i: usize) -> (r: Option<(Expression, usize)>)
    requires
        i + 1 < t.len(),
        t@[i as int] is If,
    ensures
        result_view(r) == parse_stmt(tokens_view(t@), i as int),
    decreases t@.len() - i, 4int,
{
    let ghost tv = tokens_view(t@);
    assert(tv[i as int] == t@[i as int]@);
    match expr(t, i + 1) {
        None => None,
        Some((c, j)) => {
            if i < j && j < t.len() {
                assert(tv[j as int] == t@[j as int]@);
                if matches!(t[j], Token::OpenBrace) {
                    match block(t, j + 1) {
                        None => {
                            return None;
                        },
                        Some((body, k)) => {
                            if k < t.len() {
                                assert(tv[k as int] == t@[k as int]@);
                                if matches!(t[k], Token::CloseBrace) {
                                    let seq = Expression::Sequence(body);
                                    assert(seq@ == ExprV::Sequence(exprs_view(seq->Sequence_0@)));
                                    return Some((Expression::If(Box::new(c), Box::new(seq)), k + 1));
                                }
                            }
                            return None;
                        },
                    }
                }
            }
            None
        },
    }
}

fn block(t: &Vec<Token>, i: usize) -> (r: Option<(Vec<Expression>, usize)>)
    ensures
        block_view(r) == parse_block(tokens_view(t@), i as int),
    decreases t@.len() - i, 6int,
{
    let ghost tv = tokens_view(t@);
    if i >= t.len() {
        return Some((Vec::new(), i));
    }
    assert(tv[i as int] == t@[i as int]@);
    if matches!(t[i], Token::CloseBrace) {
        return Some((Vec::new(), i));
    }
    match stmt(t, i) {
        None => None,
        Some((s, j)) => if i < j && j <= t.len() {
            match block(t, j) {
                None => None,
                Some((rest, k)) => {
                    let mut v = Vec::new();
                    v.push(s);
                    let ghost s0 = v@;
                    let mut rest = rest;
                    let ghost r0 = rest@;
                    v.append(&mut rest);
                    proof {
                        lemma_exprs_view_prepend(s0[0], r0);
                        assert(v@ =~= seq![s0[0]] + r0);
                    }
                    Some((v, k))
                },
            }
        } else {
            None
        },
    }
}

/// Why a token sequence is not a program of the minimal dialect.
#[derive(Debug, PartialEq)]
pub enum ParseError {
    /// The tokens do not form a sequence of statements.
    InvalidSyntax,
}

/// Parses a whole program into one sequence node, or says that the tokens are no program.
pub fn try_parse(tokens: Vec<Token>) -> (r: Result<Vec<Expression>, ParseError>)
    ensures
        match r {
            Ok(v) => parse_program(tokens_view(tokens@)) == Some(exprs_view(v@)),
            Err(_) => parse_program(tokens_view(tokens@)) is None,
        },
{
    match block(&tokens, 0) {
        Some((stmts, k)) => if k == tokens.len() {
            let ghost sv = exprs_view(stmts@);
            let mut v = Vec::new();
            v.push(Expression::Sequence(stmts));
            proof {
                assert(v@ =~= seq![v@[0]] + Seq::<Expression>::empty());
                lemma_exprs_view_prepend(v@[0], Seq::<Expression>::empty());
                assert(exprs_view(Seq::<Expression>::empty()) =~= seq![]);
            }
            Ok(v)
        } else {
            Err(ParseError::InvalidSyntax)
        },
        None => Err(ParseError::InvalidSyntax),
    }
}

/// Parses a program that the tokens are known to spell.
pub fn parse(tokens: Vec<Token>) -> (v: Vec<Expression>)
    requires
        parse_program(tokens_view(tokens@)) is Some,
    ensures
        parse_program(tokens_view(tokens@)) == Some(exprs_view(v@)),
{
    match try_parse(tokens) {
        Ok(v) => v,
        Err(_) => Vec::new(),
    }
}

} // verus!
