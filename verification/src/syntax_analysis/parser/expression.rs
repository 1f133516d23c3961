//! Expressions: calls (operators are calls too), literals, names and arrays, each with its
//! position and, once known, its type.
use vstd::prelude::*;
use crate::types::PrimitiveType;
use crate::syntax_analysis::lexer::{Token, TokenKind};
use crate::syntax_analysis::parser::op::{Op, op_of_text, op_result_type};

verus! {

/// An expression with its position and type.
#[derive(Debug, PartialEq)]
pub struct Expression {
    pub kind: ExpressionKind,
    pub line: usize,
    pub col: usize,
    pub typ: Option<PrimitiveType>,
}

/// The kinds of expressions.
#[derive(Debug, PartialEq)]
pub enum ExpressionKind {
    Call(String, Vec<Expression>),
    Lit(String),
    Id(String),
    Array(Vec<Expression>),
}

/// The value of an expression.
pub struct ExprV {
    pub kind: EKindV,
    pub line: int,
    pub col: int,
    pub typ: Option<PrimitiveType>,
}

/// The value of an expression kind.
pub enum EKindV {
    Call(Seq<char>, Seq<ExprV>),
    Lit(Seq<char>),
    Id(Seq<char>),
    Array(Seq<ExprV>),
}

/// The value of an expression.
pub open spec fn expr_view(e: Expression) -> ExprV
    decreases e, 1nat,
{
    ExprV { kind: ekind_view(e.kind), line: e.line as int, col: e.col as int, typ: e.typ }
}

/// The value of an expression kind.
pub open spec fn ekind_view(k: ExpressionKind) -> EKindV
    decreases k, 0nat,
{
    match k {
        ExpressionKind::Call(name, args) => EKindV::Call(name@, exprs_view(args@)),
        ExpressionKind::Lit(s) => EKindV::Lit(s@),
        ExpressionKind::Id(s) => EKindV::Id(s@),
        ExpressionKind::Array(v) => EKindV::Array(exprs_view(v@)),
    }
}

/// The values of a sequence of expressions.
pub open spec fn exprs_view(s: Seq<Expression>) -> Seq<ExprV>
    decreases s, 2nat,
{
    if s.len() == 0 {
        seq![]
    } else {
        exprs_view(s.drop_last()).push(expr_view(s.last()))
    }
}

impl View for Expression {
    type V = ExprV;

    open spec fn view(&self) -> ExprV {
        expr_view(*self)
    }
}

/// The values of a sequence of expressions are the values of its expressions.
pub proof fn lemma_exprs_view(s: Seq<Expression>)
    ensures
        exprs_view(s).len() == s.len(),
        forall|k: int| 0 <= k < s.len() ==> #[trigger] exprs_view(s)[k] == s[k]@,
    decreases s.len(),
{
    if s.len() > 0 {
        lemma_exprs_view(s.drop_last());
    }
}

/// The type a token gives the expression built from it: literals have their type, an
/// operator the type of its result.
pub open spec fn token_type(kind: TokenKind, text: Seq<char>) -> Option<PrimitiveType> {
    match kind {
        TokenKind::BoolLit => Some(PrimitiveType::Bool),
        TokenKind::IntLit => Some(PrimitiveType::Int),
        TokenKind::CharLit => Some(PrimitiveType::Char),
        TokenKind::StringLit => Some(PrimitiveType::Arr(Box::new(PrimitiveType::Char))),
        TokenKind::Operator => Some(op_result_type(op_of_text(text).unwrap())),
        _ => None,
    }
}

/// The label of an expression: the name of a call, the text of a literal or name, or
/// `array`.
pub open spec fn label(e: ExprV) -> Seq<char> {
    match e.kind {
        EKindV::Call(name, _) => name,
        EKindV::Lit(s) => s,
        EKindV::Id(s) => s,
        EKindV::Array(_) => "array"@,
    }
}

/// The branch drawn before a child: a corner for the last child, a tee otherwise.
pub open spec fn branch(last: bool) -> Seq<char> {
    if last {
        "└── "@
    } else {
        "├── "@
    }
}

/// What the lines below a child are indented by.
pub open spec fn indent(last: bool) -> Seq<char> {
    if last {
        "    "@
    } else {
        "│   "@
    }
}

/// The lines below an expression: one per argument or element, each followed by the
/// lines below it.
pub open spec fn walk(e: ExprV, prefix: Seq<char>) -> Seq<char>
    decreases e, 0nat,
{
    match e.kind {
        EKindV::Call(_, args) => walk_list(args, 0, prefix),
        EKindV::Array(values) => walk_list(values, 0, prefix),
        _ => seq![],
    }
}

/// The lines for the children from the `k`-th on.
pub open spec fn walk_list(s: Seq<ExprV>, k: int, prefix: Seq<char>) -> Seq<char>
    decreases s, s.len() - k,
{
    if k < 0 || k >= s.len() {
        seq![]
    } else {
        let last = k == s.len() - 1;
        prefix + branch(last) + label(s[k]) + "\n"@ + walk(s[k], prefix + indent(last))
            + walk_list(s, k + 1, prefix)
    }
}

impl Expression {
    /// An expression of the given kind at the token's position, typed by the token.
    pub fn new(kind: ExpressionKind, token: &Token) -> (e: Expression)
        requires
            token.kind == TokenKind::Operator ==> op_of_text(token.str@) is Some,
        ensures
            e.kind == kind,
            e.line == token.line,
            e.col == token.col,
            e.typ == token_type(token.kind, token.str@),
    {
        let typ = match token.kind {
            TokenKind::BoolLit => Some(PrimitiveType::Bool),
            TokenKind::IntLit => Some(PrimitiveType::Int),
            TokenKind::CharLit => Some(PrimitiveType::Char),
            TokenKind::StringLit => Some(PrimitiveType::Arr(Box::new(PrimitiveType::Char))),
            TokenKind::Operator => match Op::from_str(token.str.as_str()) {
                Some(op) => Some(op.get_type()),
                None => None,
            },
            _ => None,
        };
        Expression { kind, line: token.line, col: token.col, typ }
    }

    /// The label of the expression.
    pub fn to_str(&self) -> (r: &str)
        ensures
            r@ == label(self@),
    {
        match &self.kind {
            ExpressionKind::Call(name, ..) => name.as_str(),
            ExpressionKind::Lit(lit) => lit.as_str(),
            ExpressionKind::Id(id) => id.as_str(),
            ExpressionKind::Array(..) => "array",
        }
    }

    /// The lines below the expression, each starting with `prefix`.
    pub fn walk(&self, prefix: &str) -> (r: String)
        ensures
            r@ == walk(self@, prefix@),
        decreases self, 0nat,
    {
        let mut result = String::new();
        match &self.kind {
            ExpressionKind::Call(_, sons) | ExpressionKind::Array(sons) => {
                let ghost sv = exprs_view(sons@);
                proof {
                    lemma_exprs_view(sons@);
                }
                let mut k: usize = 0;
                while k < sons.len()
                    invariant
                        self.kind is Call ==> self.kind->Call_1 == *sons,
                        self.kind is Array ==> self.kind->Array_0 == *sons,
                        self.kind is Call || self.kind is Array,
                        sv == exprs_view(sons@),
                        sv.len() == sons@.len(),
                        forall|j: int| 0 <= j < sons@.len() ==> #[trigger] sv[j] == sons@[j]@,
                        0 <= k <= sons.len(),
                        result@ + walk_list(sv, k as int, prefix@) == walk(self@, prefix@),
                    decreases sons.len() - k,
                {
                    proof {
                        assert(decreases_to!(*self => self.kind));
                        if self.kind is Call {
                            assert(decreases_to!(self.kind => self.kind->Call_1));
                        } else {
                            assert(decreases_to!(self.kind => self.kind->Array_0));
                        }
                        assert(decreases_to!(*sons => sons@));
                        assert(decreases_to!(sons@ => sons@[k as int]));
                    }
                    let last = k + 1 == sons.len();
                    let son = &sons[k];
                    let ghost before = result@;
                    result.append(prefix);
                    result.append(if last { "└── " } else { "├── " });
                    result.append(son.to_str());
                    result.append("\n");
                    let mut deeper = crate::text::string_of(prefix);
                    deeper.append(if last { "    " } else { "│   " });
                    let lines = son.walk(deeper.as_str());
                    result.append(lines.as_str());
                    assert(before + walk_list(sv, k as int, prefix@) =~= result@ + walk_list(sv, k as int + 1, prefix@));
                    k += 1;
                }
                assert(walk_list(sv, k as int, prefix@) =~= seq![]);
                assert(result@ =~= walk(self@, prefix@));
            },
            _ => {},
        }
        result
    }

    /// The drawing of the expression: its label, then the lines below it.
    pub fn format(&self, prefix: &str) -> (r: String)
        ensures
            r@ == label(self@) + "\n"@ + walk(self@, prefix@),
    {
        let mut r = crate::text::string_of(self.to_str());
        r.append("\n");
        let lines = self.walk(prefix);
        r.append(lines.as_str());
        r
    }
}

} // verus!

verus! {

/// The texts one after the other.
pub open spec fn joined(ls: Seq<Seq<char>>) -> Seq<char>
    decreases ls.len(),
{
    if ls.len() == 0 {
        seq![]
    } else {
        ls[0] + joined(ls.drop_first())
    }
}

/// The lines of the drawing below an expression, one per proper descendant in pre-order:
/// `prefix`, the branch to the descendant (a corner for a last child, a tee otherwise),
/// its label and a line end, the lines of a child's own descendants indented below it.
pub open spec fn tree_lines(e: ExprV, prefix: Seq<char>) -> Seq<Seq<char>>
    decreases e, 0nat,
{
    match e.kind {
        EKindV::Call(_, args) => child_lines(args, 0, prefix),
        EKindV::Array(values) => child_lines(values, 0, prefix),
        _ => seq![],
    }
}

/// The lines for the children from the `k`-th on and their descendants.
pub open spec fn child_lines(s: Seq<ExprV>, k: int, prefix: Seq<char>) -> Seq<Seq<char>>
    decreases s, s.len() - k,
{
    if k < 0 || k >= s.len() {
        seq![]
    } else {
        let last = k == s.len() - 1;
        seq![prefix + branch(last) + label(s[k]) + "\n"@] + tree_lines(s[k], prefix + indent(last))
            + child_lines(s, k + 1, prefix)
    }
}

/// The number of proper descendants of an expression.
pub open spec fn descendants(e: ExprV) -> nat
    decreases e, 0nat,
{
    match e.kind {
        EKindV::Call(_, args) => descendants_from(args, 0),
        EKindV::Array(values) => descendants_from(values, 0),
        _ => 0,
    }
}

/// The number of the children from the `k`-th on and of their descendants.
pub open spec fn descendants_from(s: Seq<ExprV>, k: int) -> nat
    decreases s, s.len() - k,
{
    if k < 0 || k >= s.len() {
        0
    } else {
        1 + descendants(s[k]) + descendants_from(s, k + 1)
    }
}

proof fn lemma_joined_concat(a: Seq<Seq<char>>, b: Seq<Seq<char>>)
    ensures
        joined(a + b) == joined(a) + joined(b),
    decreases a.len(),
{
    if a.len() == 0 {
        assert(a + b =~= b);
        assert(joined(a) + joined(b) =~= joined(b));
    } else {
        lemma_joined_concat(a.drop_first(), b);
        assert((a + b).drop_first() =~= a.drop_first() + b);
        assert(joined(a) + joined(b) =~= a[0] + (joined(a.drop_first()) + joined(b)));
    }
}

/// The drawing below an expression is its lines one after the other: one line per proper
/// descendant, in pre-order, each starting with `prefix` and ending with a line end.
pub proof fn lemma_walk_lines(e: ExprV, prefix: Seq<char>)
    ensures
        walk(e, prefix) == joined(tree_lines(e, prefix)),
        tree_lines(e, prefix).len() == descendants(e),
        forall|i: int| 0 <= i < tree_lines(e, prefix).len() ==> prefix.is_prefix_of(#[trigger] tree_lines(e, prefix)[i])
            && tree_lines(e, prefix)[i].last() == '\n',
    decreases e, 0nat,
{
    match e.kind {
        EKindV::Call(_, args) => lemma_child_lines(args, 0, prefix),
        EKindV::Array(values) => lemma_child_lines(values, 0, prefix),
        _ => {
            assert(joined(Seq::<Seq<char>>::empty()) =~= Seq::<char>::empty());
        },
    }
}

proof fn lemma_child_lines(s: Seq<ExprV>, k: int, prefix: Seq<char>)
    ensures
        walk_list(s, k, prefix) == joined(child_lines(s, k, prefix)),
        child_lines(s, k, prefix).len() == descendants_from(s, k),
        forall|i: int| 0 <= i < child_lines(s, k, prefix).len() ==> prefix.is_prefix_of(#[trigger] child_lines(s, k, prefix)[i])
            && child_lines(s, k, prefix)[i].last() == '\n',
    decreases s, s.len() - k,
{
    if k < 0 || k >= s.len() {
        assert(joined(Seq::<Seq<char>>::empty()) =~= Seq::<char>::empty());
    } else {
        let last = k == s.len() - 1;
        let q = prefix + indent(last);
        let head = prefix + branch(last) + label(s[k]) + "\n"@;
        reveal_strlit("\n");
        lemma_walk_lines(s[k], q);
        lemma_child_lines(s, k + 1, prefix);
        let t = tree_lines(s[k], q);
        let r = child_lines(s, k + 1, prefix);
        lemma_joined_concat(seq![head] + t, r);
        lemma_joined_concat(seq![head], t);
        assert(joined(seq![head]) =~= head) by {
            assert(seq![head].drop_first() =~= Seq::<Seq<char>>::empty());
            assert(joined(seq![head].drop_first()) =~= Seq::<char>::empty());
            assert(seq![head][0] == head);
            assert(head + Seq::<char>::empty() =~= head);
        }
        let all = seq![head] + t + r;
        assert(child_lines(s, k, prefix) == all);
        assert(walk_list(s, k, prefix) =~= head + joined(t) + joined(r));
        assert forall|i: int| 0 <= i < all.len() implies prefix.is_prefix_of(#[trigger] all[i]) && all[i].last() == '\n' by {
            if i == 0 {
                assert(head.subrange(0, prefix.len() as int) =~= prefix);
            } else if i < 1 + t.len() {
                assert(all[i] == t[i - 1]);
                assert(q.is_prefix_of(t[i - 1]));
                assert(t[i - 1].subrange(0, prefix.len() as int) =~= q.subrange(0, prefix.len() as int));
                assert(q.subrange(0, prefix.len() as int) =~= prefix);
            } else {
                assert(all[i] == r[i - 1 - t.len()]);
            }
        }
    }
}

} // verus!
