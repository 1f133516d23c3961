//! Statements: procedures, calls and returns, declarations and assignments, and the
//! control-flow blocks.
use vstd::prelude::*;
use crate::types::{PrimitiveType, type_text};
use crate::syntax_analysis::lexer::Token;
use crate::syntax_analysis::parser::expression::{Expression, ExprV, exprs_view, lemma_exprs_view, label, walk, walk_list, branch, indent};
use crate::text::string_of;

verus! {

/// A statement with the position of its first token.
#[derive(Debug, PartialEq)]
pub struct Statement {
    pub kind: StatementKind,
    pub line: usize,
    pub col: usize,
}

/// The kinds of statements.
#[derive(Debug, PartialEq)]
pub enum StatementKind {
    Procedure {
        name: String,
        args: Vec<(String, Option<PrimitiveType>)>,
        ret: Option<PrimitiveType>,
        block: Vec<Statement>,
    },
    Call { name: String, args: Vec<Expression> },
    Return { value: Expression },
    Declare { name: String, type_hint: Option<PrimitiveType>, value: Option<Expression> },
    Assign { dest: Expression, src: Expression },
    If { cond: Expression, block: Vec<Statement> },
    IfElse { cond: Expression, true_block: Vec<Statement>, false_block: Vec<Statement> },
    Loop { block: Vec<Statement> },
    While { cond: Expression, block: Vec<Statement> },
    Continue,
    Break,
}

impl Statement {
    /// A statement of the given kind at the token's position.
    pub fn new(kind: StatementKind, token: &Token) -> (s: Statement)
        ensures
            s.kind == kind,
            s.line == token.line,
            s.col == token.col,
    {
        Statement { kind, line: token.line, col: token.col }
    }
}

} // verus!

verus! {

/// The value of a statement.
pub struct StmtV {
    pub kind: SKindV,
    pub line: int,
    pub col: int,
}

/// The value of a statement kind.
pub enum SKindV {
    Procedure { name: Seq<char>, args: Seq<(Seq<char>, Option<PrimitiveType>)>, ret: Option<PrimitiveType>, block: Seq<StmtV> },
    Call { name: Seq<char>, args: Seq<ExprV> },
    Return { value: ExprV },
    Declare { name: Seq<char>, type_hint: Option<PrimitiveType>, value: Option<ExprV> },
    Assign { dest: ExprV, src: ExprV },
    If { cond: ExprV, block: Seq<StmtV> },
    IfElse { cond: ExprV, true_block: Seq<StmtV>, false_block: Seq<StmtV> },
    Loop { block: Seq<StmtV> },
    While { cond: ExprV, block: Seq<StmtV> },
    Continue,
    Break,
}

/// The values of procedure arguments.
pub open spec fn args_view(s: Seq<(String, Option<PrimitiveType>)>) -> Seq<(Seq<char>, Option<PrimitiveType>)> {
    s.map_values(|a: (String, Option<PrimitiveType>)| (a.0@, a.1))
}

/// The value of a statement.
pub open spec fn stmt_view(s: Statement) -> StmtV
    decreases s, 1nat,
{
    StmtV { kind: skind_view(s.kind), line: s.line as int, col: s.col as int }
}

/// The value of a statement kind.
pub open spec fn skind_view(k: StatementKind) -> SKindV
    decreases k, 0nat,
{
    match k {
        StatementKind::Procedure { name, args, ret, block } => SKindV::Procedure {
            name: name@,
            args: args_view(args@),
            ret,
            block: stmts_view(block@),
        },
        StatementKind::Call { name, args } => SKindV::Call { name: name@, args: exprs_view(args@) },
        StatementKind::Return { value } => SKindV::Return { value: value@ },
        StatementKind::Declare { name, type_hint, value } => SKindV::Declare {
            name: name@,
            type_hint,
            value: match value {
                Some(v) => Some(v@),
                None => None,
            },
        },
        StatementKind::Assign { dest, src } => SKindV::Assign { dest: dest@, src: src@ },
        StatementKind::If { cond, block } => SKindV::If { cond: cond@, block: stmts_view(block@) },
        StatementKind::IfElse { cond, true_block, false_block } => SKindV::IfElse {
            cond: cond@,
            true_block: stmts_view(true_block@),
            false_block: stmts_view(false_block@),
        },
        StatementKind::Loop { block } => SKindV::Loop { block: stmts_view(block@) },
        StatementKind::While { cond, block } => SKindV::While { cond: cond@, block: stmts_view(block@) },
        StatementKind::Continue => SKindV::Continue,
        StatementKind::Break => SKindV::Break,
    }
}

/// The values of a sequence of statements.
pub open spec fn stmts_view(s: Seq<Statement>) -> Seq<StmtV>
    decreases s, 2nat,
{
    if s.len() == 0 {
        seq![]
    } else {
        stmts_view(s.drop_last()).push(stmt_view(s.last()))
    }
}

impl View for Statement {
    type V = StmtV;

    open spec fn view(&self) -> StmtV {
        stmt_view(*self)
    }
}

/// The values of a sequence of statements are the values of its statements.
pub proof fn lemma_stmts_view(s: Seq<Statement>)
    ensures
        stmts_view(s).len() == s.len(),
        forall|k: int| 0 <= k < s.len() ==> #[trigger] stmts_view(s)[k] == s[k]@,
    decreases s.len(),
{
    if s.len() > 0 {
        lemma_stmts_view(s.drop_last());
    }
}

} // verus!

verus! {

/// The drawing of an expression: its label, then the lines below it.
pub open spec fn expr_drawing(e: ExprV, prefix: Seq<char>) -> Seq<char> {
    label(e) + "\n"@ + walk(e, prefix)
}

/// A name with its type hint, if any: `name: Type`.
pub open spec fn hinted(name: Seq<char>, hint: Option<PrimitiveType>) -> Seq<char> {
    match hint {
        Some(t) => name + ": "@ + type_text(t),
        None => name,
    }
}

/// The lines of the parameters of a procedure from the `k`-th on.
pub open spec fn param_lines(args: Seq<(Seq<char>, Option<PrimitiveType>)>, k: int, prefix: Seq<char>) -> Seq<char>
    decreases args.len() - k,
{
    if k < 0 || k >= args.len() {
        seq![]
    } else {
        prefix + "│   "@ + branch(k == args.len() - 1) + hinted(args[k].0, args[k].1) + "\n"@ + param_lines(args, k + 1, prefix)
    }
}

/// The drawing of a statement: what it is, then its parts below it, each line below the
/// first starting with `prefix`.
pub open spec fn stmt_drawing(s: StmtV, prefix: Seq<char>) -> Seq<char>
    decreases s, 0int,
{
    match s.kind {
        SKindV::Procedure { name, args, ret, block } => "pr\n"@ + prefix + "├── "@ + name + "\n"@ + (if args.len() == 0 {
            seq![]
        } else {
            prefix + "├── args\n"@ + param_lines(args, 0, prefix)
        }) + (match ret {
            Some(t) => prefix + "├── ret\n"@ + prefix + "│   └── "@ + type_text(t) + "\n"@,
            None => seq![],
        }) + prefix + "└── block\n"@ + stmt_lines(block, 0, prefix + "    "@),
        SKindV::Call { name, args } => name + "\n"@ + walk_list(args, 0, prefix),
        SKindV::Return { value } => "return\n"@ + prefix + "└── "@ + expr_drawing(value, prefix + "    "@),
        SKindV::Declare { name, type_hint, value } => "var\n"@ + match value {
            Some(v) => prefix + "├── "@ + hinted(name, type_hint) + "\n"@ + prefix + "└── "@ + expr_drawing(v, prefix + "    "@),
            None => prefix + "└── "@ + hinted(name, type_hint) + "\n"@,
        },
        SKindV::Assign { dest, src } => "=\n"@ + prefix + "├── "@ + expr_drawing(dest, prefix + "│   "@) + prefix + "└── "@
            + expr_drawing(src, prefix + "   "@),
        SKindV::If { cond, block } => "if\n"@ + prefix + "├── "@ + expr_drawing(cond, prefix + "│   "@) + prefix
            + "└── then\n"@ + stmt_lines(block, 0, prefix + "    "@),
        SKindV::IfElse { cond, true_block, false_block } => "if\n"@ + prefix + "├── "@ + expr_drawing(cond, prefix + "│   "@)
            + prefix + "├── then\n"@ + stmt_lines(true_block, 0, prefix + "│   "@) + prefix + "└── else\n"@
            + stmt_lines(false_block, 0, prefix + "    "@),
        SKindV::Loop { block } => "loop\n"@ + stmt_lines(block, 0, prefix),
        SKindV::While { cond, block } => "while\n"@ + prefix + "├── "@ + expr_drawing(cond, prefix + "│   "@) + prefix
            + "└── then\n"@ + stmt_lines(block, 0, prefix + "    "@),
        SKindV::Continue => "continue\n"@,
        SKindV::Break => "break\n"@,
    }
}

/// The lines of the statements of a block from the `k`-th on, each led by `lead` and a
/// branch, with the lines below each indented further.
pub open spec fn stmt_lines(b: Seq<StmtV>, k: int, lead: Seq<char>) -> Seq<char>
    decreases b, b.len() - k,
{
    if k < 0 || k >= b.len() {
        seq![]
    } else {
        let last = k == b.len() - 1;
        lead + branch(last) + stmt_drawing(b[k], lead + indent(last)) + stmt_lines(b, k + 1, lead)
    }
}

impl Statement {
    /// The drawing of the statement, each line below the first starting with `prefix`.
    pub fn format(&self, prefix: &str) -> (r: String)
        ensures
            r@ == stmt_drawing(self@, prefix@),
        decreases self, 0nat,
    {
        proof {
            assert(decreases_to!(*self => self.kind));
        }
        match &self.kind {
            StatementKind::Procedure { name, args, ret, block } => {
                proof {
                    assert(decreases_to!(self.kind => self.kind->Procedure_block));
                }
                Self::format_procedure(prefix, name, args, ret, block)
            },
            StatementKind::Call { name, args } => Self::format_call(prefix, name, args),
            StatementKind::Return { value } => Self::format_return(prefix, value),
            StatementKind::Declare { name, type_hint, value } => Self::format_declare(prefix, name, type_hint, value),
            StatementKind::Assign { dest, src } => Self::format_assign(prefix, dest, src),
            StatementKind::If { cond, block } => {
                proof {
                    assert(decreases_to!(self.kind => self.kind->If_block));
                }
                Self::format_if(prefix, cond, block)
            },
            StatementKind::IfElse { cond, true_block, false_block } => {
                proof {
                    assert(decreases_to!(self.kind => self.kind->true_block));
                    assert(decreases_to!(self.kind => self.kind->false_block));
                }
                Self::format_if_else(prefix, &self.kind)
            },
            StatementKind::Loop { block } => {
                proof {
                    assert(decreases_to!(self.kind => self.kind->Loop_block));
                }
                Self::format_loop(prefix, block)
            },
            StatementKind::While { cond, block } => {
                proof {
                    assert(decreases_to!(self.kind => self.kind->While_block));
                }
                Self::format_while(prefix, cond, block)
            },
            StatementKind::Continue => string_of("continue\n"),
            StatementKind::Break => string_of("break\n"),
        }
    }

    /// The drawing of the statement, as the program's tree prints it.
    pub fn to_string(&self) -> (r: String)
        ensures
            r@ == stmt_drawing(self@, seq![]),
    {
        let empty = "";
        proof {
            reveal_strlit("");
            assert(empty@ =~= Seq::<char>::empty());
        }
        self.format(empty)
    }

    /// The lines of the statements of a block, each led by `lead`.
    fn format_block(lead: &str, block: &Vec<Statement>) -> (r: String)
        ensures
            r@ == stmt_lines(stmts_view(block@), 0, lead@),
        decreases block, 1nat,
    {
        let ghost bs = stmts_view(block@);
        proof {
            lemma_stmts_view(block@);
        }
        let mut result = String::new();
        let mut k: usize = 0;
        while k < block.len()
            invariant
                bs == stmts_view(block@),
                bs.len() == block@.len(),
                forall|j: int| 0 <= j < block@.len() ==> #[trigger] bs[j] == block@[j]@,
                0 <= k <= block.len(),
                result@ + stmt_lines(bs, k as int, lead@) == stmt_lines(bs, 0, lead@),
            decreases block.len() - k,
        {
            proof {
                assert(decreases_to!(*block => block@));
                assert(decreases_to!(block@ => block@[k as int]));
            }
            let last = k + 1 == block.len();
            let ghost before = result@;
            result.append(lead);
            result.append(if last { "└── " } else { "├── " });
            let mut deeper = string_of(lead);
            deeper.append(if last { "    " } else { "│   " });
            let lines = block[k].format(deeper.as_str());
            result.append(lines.as_str());
            assert(before + stmt_lines(bs, k as int, lead@) =~= result@ + stmt_lines(bs, k as int + 1, lead@));
            k += 1;
        }
        assert(stmt_lines(bs, k as int, lead@) =~= seq![]);
        assert(result@ =~= stmt_lines(bs, 0, lead@));
        result
    }

    /// `prefix` followed by `more`.
    fn extended(prefix: &str, more: &str) -> (r: String)
        ensures
            r@ == prefix@ + more@,
    {
        let mut r = string_of(prefix);
        r.append(more);
        r
    }

    /// A name with its type hint.
    fn hinted_name(name: &String, hint: &Option<PrimitiveType>) -> (r: String)
        ensures
            r@ == hinted(name@, *hint),
    {
        let mut r = string_of(name.as_str());
        match hint {
            Some(t) => {
                r.append(": ");
                let tt = t.as_string();
                r.append(tt.as_str());
            },
            None => {},
        }
        r
    }

    fn format_procedure(
        prefix: &str,
        name: &String,
        args: &Vec<(String, Option<PrimitiveType>)>,
        ret: &Option<PrimitiveType>,
        block: &Vec<Statement>,
    ) -> (r: String)
        ensures
            r@ == stmt_drawing(
                StmtV {
                    kind: SKindV::Procedure { name: name@, args: args_view(args@), ret: *ret, block: stmts_view(block@) },
                    line: 0,
                    col: 0,
                },
                prefix@,
            ),
        decreases block, 2nat,
    {
        let ghost av = args_view(args@);
        let mut r = string_of("pr\n");
        r.append(prefix);
        r.append("├── ");
        r.append(name.as_str());
        r.append("\n");
        let ghost head = r@;
        if args.len() > 0 {
            r.append(prefix);
            r.append("├── args\n");
            let mut k: usize = 0;
            let ghost mid = r@;
            while k < args.len()
                invariant
                    av == args_view(args@),
                    av.len() == args@.len(),
                    0 <= k <= args.len(),
                    r@ + param_lines(av, k as int, prefix@) == mid + param_lines(av, 0, prefix@),
                decreases args.len() - k,
            {
                let ghost before = r@;
                r.append(prefix);
                r.append(if k + 1 == args.len() { "│   └── " } else { "│   ├── " });
                let h = Self::hinted_name(&args[k].0, &args[k].1);
                r.append(h.as_str());
                r.append("\n");
                proof {
                    assert(av[k as int] == (args@[k as int].0@, args@[k as int].1));
                    let b = if k + 1 == args.len() { "│   └── "@ } else { "│   ├── "@ };
                    assert(b == "│   "@ + branch(k == av.len() - 1)) by {
                        reveal_strlit("│   └── ");
                        reveal_strlit("│   ├── ");
                        reveal_strlit("│   ");
                        reveal_strlit("└── ");
                        reveal_strlit("├── ");
                    }
                    assert(before + param_lines(av, k as int, prefix@) =~= r@ + param_lines(av, k as int + 1, prefix@));
                }
                k += 1;
            }
            assert(param_lines(av, k as int, prefix@) =~= seq![]);
        }
        let ghost after_args = r@;
        match ret {
            Some(t) => {
                r.append(prefix);
                r.append("├── ret\n");
                r.append(prefix);
                r.append("│   └── ");
                let tt = t.as_string();
                r.append(tt.as_str());
                r.append("\n");
            },
            None => {},
        }
        r.append(prefix);
        r.append("└── block\n");
        let lead = Self::extended(prefix, "    ");
        let lines = Self::format_block(lead.as_str(), block);
        r.append(lines.as_str());
        assert(r@ =~= stmt_drawing(
            StmtV {
                kind: SKindV::Procedure { name: name@, args: av, ret: *ret, block: stmts_view(block@) },
                line: 0,
                col: 0,
            },
            prefix@,
        ));
        r
    }

    fn format_call(prefix: &str, name: &String, args: &Vec<Expression>) -> (r: String)
        ensures
            r@ == name@ + "\n"@ + walk_list(exprs_view(args@), 0, prefix@),
    {
        let ghost sv = exprs_view(args@);
        proof {
            lemma_exprs_view(args@);
        }
        let mut r = string_of(name.as_str());
        r.append("\n");
        let ghost head = r@;
        let mut k: usize = 0;
        while k < args.len()
            invariant
                sv == exprs_view(args@),
                sv.len() == args@.len(),
                forall|j: int| 0 <= j < args@.len() ==> #[trigger] sv[j] == args@[j]@,
                0 <= k <= args.len(),
                r@ + walk_list(sv, k as int, prefix@) == head + walk_list(sv, 0, prefix@),
            decreases args.len() - k,
        {
            let last = k + 1 == args.len();
            let ghost before = r@;
            r.append(prefix);
            r.append(if last { "└── " } else { "├── " });
            let deeper = Self::extended(prefix, if last { "    " } else { "│   " });
            let lines = args[k].format(deeper.as_str());
            r.append(lines.as_str());
            assert(before + walk_list(sv, k as int, prefix@) =~= r@ + walk_list(sv, k as int + 1, prefix@));
            k += 1;
        }
        assert(walk_list(sv, k as int, prefix@) =~= seq![]);
        r
    }

    fn format_return(prefix: &str, value: &Expression) -> (r: String)
        ensures
            r@ == "return\n"@ + prefix@ + "└── "@ + expr_drawing(value@, prefix@ + "    "@),
    {
        let mut r = string_of("return\n");
        r.append(prefix);
        r.append("└── ");
        let deeper = Self::extended(prefix, "    ");
        let lines = value.format(deeper.as_str());
        r.append(lines.as_str());
        r
    }

    fn format_declare(prefix: &str, name: &String, type_hint: &Option<PrimitiveType>, value: &Option<Expression>) -> (r: String)
        ensures
            r@ == "var\n"@ + match *value {
                Some(v) => prefix@ + "├── "@ + hinted(name@, *type_hint) + "\n"@ + prefix@ + "└── "@ + expr_drawing(
                    v@,
                    prefix@ + "    "@,
                ),
                None => prefix@ + "└── "@ + hinted(name@, *type_hint) + "\n"@,
            },
    {
        let mut r = string_of("var\n");
        let h = Self::hinted_name(name, type_hint);
        match value {
            Some(v) => {
                r.append(prefix);
                r.append("├── ");
                r.append(h.as_str());
                r.append("\n");
                r.append(prefix);
                r.append("└── ");
                let deeper = Self::extended(prefix, "    ");
                let lines = v.format(deeper.as_str());
                r.append(lines.as_str());
            },
            None => {
                r.append(prefix);
                r.append("└── ");
                r.append(h.as_str());
                r.append("\n");
            },
        }
        r
    }

    fn format_assign(prefix: &str, dest: &Expression, src: &Expression) -> (r: String)
        ensures
            r@ == "=\n"@ + prefix@ + "├── "@ + expr_drawing(dest@, prefix@ + "│   "@) + prefix@ + "└── "@ + expr_drawing(
                src@,
                prefix@ + "   "@,
            ),
    {
        let mut r = string_of("=\n");
        r.append(prefix);
        r.append("├── ");
        let d1 = Self::extended(prefix, "│   ");
        let l1 = dest.format(d1.as_str());
        r.append(l1.as_str());
        r.append(prefix);
        r.append("└── ");
        let d2 = Self::extended(prefix, "   ");
        let l2 = src.format(d2.as_str());
        r.append(l2.as_str());
        r
    }

    fn format_if(prefix: &str, cond: &Expression, block: &Vec<Statement>) -> (r: String)
        ensures
            r@ == "if\n"@ + prefix@ + "├── "@ + expr_drawing(cond@, prefix@ + "│   "@) + prefix@ + "└── then\n"@ + stmt_lines(
                stmts_view(block@),
                0,
                prefix@ + "    "@,
            ),
        decreases block, 2nat,
    {
        let mut r = string_of("if\n");
        r.append(prefix);
        r.append("├── ");
        let d1 = Self::extended(prefix, "│   ");
        let l1 = cond.format(d1.as_str());
        r.append(l1.as_str());
        r.append(prefix);
        r.append("└── then\n");
        let lead = Self::extended(prefix, "    ");
        let lines = Self::format_block(lead.as_str(), block);
        r.append(lines.as_str());
        r
    }

    fn format_if_else(prefix: &str, kind: &StatementKind) -> (r: String)
        requires
            kind is IfElse,
        ensures
            r@ == stmt_drawing(StmtV { kind: skind_view(*kind), line: 0, col: 0 }, prefix@),
        decreases kind, 2nat,
    {
        let StatementKind::IfElse { cond, true_block, false_block } = kind else {
            return String::new();
        };
        proof {
            assert(decreases_to!(*kind => kind->true_block));
            assert(decreases_to!(*kind => kind->false_block));
        }
        let mut r = string_of("if\n");
        r.append(prefix);
        r.append("├── ");
        let d1 = Self::extended(prefix, "│   ");
        let l1 = cond.format(d1.as_str());
        r.append(l1.as_str());
        r.append(prefix);
        r.append("├── then\n");
        let lead1 = Self::extended(prefix, "│   ");
        let lines1 = Self::format_block(lead1.as_str(), true_block);
        r.append(lines1.as_str());
        r.append(prefix);
        r.append("└── else\n");
        let lead2 = Self::extended(prefix, "    ");
        let lines2 = Self::format_block(lead2.as_str(), false_block);
        r.append(lines2.as_str());
        r
    }

    fn format_loop(prefix: &str, block: &Vec<Statement>) -> (r: String)
        ensures
            r@ == "loop\n"@ + stmt_lines(stmts_view(block@), 0, prefix@),
        decreases block, 2nat,
    {
        let mut r = string_of("loop\n");
        let lines = Self::format_block(prefix, block);
        r.append(lines.as_str());
        r
    }

    fn format_while(prefix: &str, cond: &Expression, block: &Vec<Statement>) -> (r: String)
        ensures
            r@ == "while\n"@ + prefix@ + "├── "@ + expr_drawing(cond@, prefix@ + "│   "@) + prefix@ + "└── then\n"@ + stmt_lines(
                stmts_view(block@),
                0,
                prefix@ + "    "@,
            ),
        decreases block, 2nat,
    {
        let mut r = string_of("while\n");
        r.append(prefix);
        r.append("├── ");
        let d1 = Self::extended(prefix, "│   ");
        let l1 = cond.format(d1.as_str());
        r.append(l1.as_str());
        r.append(prefix);
        r.append("└── then\n");
        let lead = Self::extended(prefix, "    ");
        let lines = Self::format_block(lead.as_str(), block);
        r.append(lines.as_str());
        r
    }
}

} // verus!
