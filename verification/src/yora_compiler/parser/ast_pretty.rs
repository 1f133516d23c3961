//! Text drawings of syntax trees: the root's label, then one line per node below it,
//! drawn with branch characters.
use vstd::prelude::*;
use crate::yora_compiler::parser::{Expression, ExpressionKind, ExprV, KindV};

verus! {

/// The label of a node: a literal's text, else the name of its kind.
pub open spec fn expr_str(e: ExprV) -> Seq<char> {
    match e.kind {
        KindV::Identifier(s) | KindV::BoolLit(s) | KindV::IntLit(s) => s,
        KindV::Sequence(..) => "seq"@,
        KindV::If(..) => "if"@,
        KindV::Loop(..) => "loop"@,
        KindV::Break => "break"@,
        KindV::Declare(..) => "dec"@,
        KindV::Assign(..) => "ass"@,
        KindV::Exit(..) => "exit"@,
        KindV::Add(..) => "+"@,
        KindV::Sub(..) => "-"@,
        KindV::Mul(..) => "*"@,
        KindV::Div(..) => "/"@,
        KindV::Mod(..) => "%"@,
        KindV::Not(..) => "!"@,
        KindV::And(..) => "and"@,
        KindV::Or(..) => "or"@,
        KindV::Eq(..) => "=="@,
        KindV::Neq(..) => "!="@,
        KindV::Lt(..) => "<"@,
        KindV::Leq(..) => "<="@,
        KindV::Gt(..) => ">"@,
        KindV::Geq(..) => ">="@,
    }
}

/// The branch drawn before a child: a corner for the last child, a tee otherwise.
pub open spec fn branch(last: bool) -> Seq<char> {
    if last {
        "└── "@
    } else {
        "├── "@
    }
}

/// What the lines below a child are indented by.
pub open spec fn indent(last: bool) -> Seq<char> {
    if last {
        "    "@
    } else {
        "│   "@
    }
}

/// The lines below a node: for each child, its label after the prefix and branch, then
/// the lines below the child with a deeper prefix.
pub open spec fn walk(e: ExprV, prefix: Seq<char>) -> Seq<char>
    decreases e, 0nat,
{
    match e.kind {
        KindV::Sequence(s) => walk_seq(s, 0, prefix),
        KindV::If(a, b) | KindV::Declare(a, b) | KindV::Assign(a, b) | KindV::Add(a, b)
        | KindV::Sub(a, b) | KindV::Mul(a, b) | KindV::Div(a, b) | KindV::Mod(a, b)
        | KindV::And(a, b) | KindV::Or(a, b) | KindV::Eq(a, b) | KindV::Neq(a, b)
        | KindV::Lt(a, b) | KindV::Leq(a, b) | KindV::Gt(a, b) | KindV::Geq(a, b) => {
            prefix + branch(false) + expr_str(*a) + "\n"@ + walk(*a, prefix + indent(false))
                + prefix + branch(true) + expr_str(*b) + "\n"@ + walk(*b, prefix + indent(true))
        },
        KindV::Loop(a) | KindV::Exit(a) | KindV::Not(a) => {
            prefix + branch(true) + expr_str(*a) + "\n"@ + walk(*a, prefix + indent(true))
        },
        _ => seq![],
    }
}

/// The lines for the children of a sequence from the `k`-th on.
pub open spec fn walk_seq(s: Seq<ExprV>, k: int, prefix: Seq<char>) -> Seq<char>
    decreases s, s.len() - k,
{
    if k < 0 || k >= s.len() {
        seq![]
    } else {
        let last = k == s.len() - 1;
        prefix + branch(last) + expr_str(s[k]) + "\n"@ + walk(s[k], prefix + indent(last))
            + walk_seq(s, k + 1, prefix)
    }
}

/// The drawing of a tree: the root's label on a line, then the lines below it.
pub open spec fn tree_text(e: ExprV) -> Seq<char> {
    expr_str(e) + "\n"@ + walk(e, seq![])
}

/// The label of a node.
pub fn get_expr_str(expr: &Expression) -> (s: String)
    ensures
        s@ == expr_str(expr@),
{
    match &expr.kind {
        ExpressionKind::Identifier(s) | ExpressionKind::BoolLit(s) | ExpressionKind::IntLit(s) => s.clone(),
        _ => {
            let label = match &expr.kind {
                ExpressionKind::Sequence(..) => "seq",
                ExpressionKind::If(..) => "if",
                ExpressionKind::Loop(..) => "loop",
                ExpressionKind::Break => "break",
                ExpressionKind::Declare(..) => "dec",
                ExpressionKind::Assign(..) => "ass",
                ExpressionKind::Exit(..) => "exit",
                ExpressionKind::Add(..) => "+",
                ExpressionKind::Sub(..) => "-",
                ExpressionKind::Mul(..) => "*",
                ExpressionKind::Div(..) => "/",
                ExpressionKind::Mod(..) => "%",
                ExpressionKind::Not(..) => "!",
                ExpressionKind::And(..) => "and",
                ExpressionKind::Or(..) => "or",
                ExpressionKind::Eq(..) => "==",
                ExpressionKind::Neq(..) => "!=",
                ExpressionKind::Lt(..) => "<",
                ExpressionKind::Leq(..) => "<=",
                ExpressionKind::Gt(..) => ">",
                _ => ">=",
            };
            crate::text::string_of(label)
        },
    }
}

fn child_line(out: &mut String, child: &Expression, prefix: &String, last: bool)
    ensures
        final(out)@ == old(out)@ + prefix@ + branch(last) + expr_str(child@) + "\n"@ + walk(
            child@,
            prefix@ + indent(last),
        ),
    decreases child, 1nat,
{
    out.append(prefix.as_str());
    out.append(if last { "└── " } else { "├── " });
    out.append(get_expr_str(child).as_str());
    out.append("\n");
    let mut deeper = prefix.clone();
    deeper.append(if last { "    " } else { "│   " });
    let lines = walk_lines(child, &deeper);
    out.append(lines.as_str());
    assert(final(out)@ =~= old(out)@ + prefix@ + branch(last) + expr_str(child@) + "\n"@ + walk(
        child@,
        prefix@ + indent(last),
    ));
}

fn walk_lines(expr: &Expression, prefix: &String) -> (s: String)
    ensures
        s@ == walk(expr@, prefix@),
    decreases expr, 0nat,
{
    let mut out = String::new();
    match &expr.kind {
        ExpressionKind::Sequence(seq) => {
            let mut k: usize = 0;
            while k < seq.len()
                invariant
                    expr.kind is Sequence,
                    expr.kind->Sequence_0 == *seq,
                    0 <= k <= seq.len(),
                    out@ + walk_seq(crate::yora_compiler::parser::exprs_view(seq@), k as int, prefix@)
                        == walk(expr@, prefix@),
                decreases seq.len() - k,
            {
                proof {
                    crate::yora_compiler::parser::lemma_exprs_view(seq@);
                    assert(decreases_to!(*expr => expr.kind));
                    assert(decreases_to!(expr.kind => expr.kind->Sequence_0));
                    assert(decreases_to!(*seq => seq@));
                    assert(decreases_to!(seq@ => seq@[k as int]));
                }
                let ghost before = out@;
                let ghost sv = crate::yora_compiler::parser::exprs_view(seq@);
                child_line(&mut out, &seq[k], prefix, k + 1 == seq.len());
                assert(before + walk_seq(sv, k as int, prefix@) =~= out@ + walk_seq(sv, k as int + 1, prefix@));
                k += 1;
            }
            proof {
                crate::yora_compiler::parser::lemma_exprs_view(seq@);
            }
            assert(walk_seq(crate::yora_compiler::parser::exprs_view(seq@), k as int, prefix@) =~= seq![]);
            assert(out@ =~= walk(expr@, prefix@));
        },
        ExpressionKind::If(a, b) | ExpressionKind::Declare(a, b) | ExpressionKind::Assign(a, b)
        | ExpressionKind::Add(a, b) | ExpressionKind::Sub(a, b) | ExpressionKind::Mul(a, b)
        | ExpressionKind::Div(a, b) | ExpressionKind::Mod(a, b) | ExpressionKind::And(a, b)
        | ExpressionKind::Or(a, b) | ExpressionKind::Eq(a, b) | ExpressionKind::Neq(a, b)
        | ExpressionKind::Lt(a, b) | ExpressionKind::Leq(a, b) | ExpressionKind::Gt(a, b)
        | ExpressionKind::Geq(a, b) => {
            child_line(&mut out, a, prefix, false);
            child_line(&mut out, b, prefix, true);
            assert(out@ =~= walk(expr@, prefix@));
        },
        ExpressionKind::Loop(a) | ExpressionKind::Exit(a) | ExpressionKind::Not(a) => {
            child_line(&mut out, a, prefix, true);
            assert(out@ =~= walk(expr@, prefix@));
        },
        _ => {},
    }
    out
}

impl Expression {
    /// The drawing of the tree, as the debug listing prints it.
    pub fn to_tree_string(&self) -> (s: String)
        ensures
            s@ == tree_text(self@),
    {
        let mut s = get_expr_str(self);
        s.append("\n");
        let lines = walk_lines(self, &String::new());
        s.append(lines.as_str());
        s
    }
}

} // verus!
