//! The binary operators of expressions.
use vstd::prelude::*;
use crate::types::PrimitiveType;
use crate::text::str_eq;

verus! {

/// A binary operator.
#[derive(Debug, PartialEq, Eq, Structural, Clone, Copy)]
pub enum Op {
    Add,
    Sub,
    Mul,
    Div,
    Mod,
    And,
    Or,
    Eq,
    Neq,
    Lt,
    Leq,
    Gt,
    Geq,
}

/// The text of an operator.
pub open spec fn op_text(op: Op) -> Seq<char> {
    match op {
        Op::Add => "+"@,
        Op::Sub => "-"@,
        Op::Mul => "*"@,
        Op::Div => "/"@,
        Op::Mod => "%"@,
        Op::And => "and"@,
        Op::Or => "or"@,
        Op::Eq => "=="@,
        Op::Neq => "!="@,
        Op::Lt => "<"@,
        Op::Leq => "<="@,
        Op::Gt => ">"@,
        Op::Geq => ">="@,
    }
}

/// The operator that a text spells, if any.
pub open spec fn op_of_text(s: Seq<char>) -> Option<Op> {
    if s == "+"@ {
        Some(Op::Add)
    } else if s == "-"@ {
        Some(Op::Sub)
    } else if s == "*"@ {
        Some(Op::Mul)
    } else if s == "/"@ {
        Some(Op::Div)
    } else if s == "%"@ {
        Some(Op::Mod)
    } else if s == "and"@ {
        Some(Op::And)
    } else if s == "or"@ {
        Some(Op::Or)
    } else if s == "=="@ {
        Some(Op::Eq)
    } else if s == "!="@ {
        Some(Op::Neq)
    } else if s == "<"@ {
        Some(Op::Lt)
    } else if s == "<="@ {
        Some(Op::Leq)
    } else if s == ">"@ {
        Some(Op::Gt)
    } else if s == ">="@ {
        Some(Op::Geq)
    } else {
        None
    }
}

/// The type of what an operator gives: arithmetic gives integers, logic and comparison
/// give booleans.
pub open spec fn op_result_type(op: Op) -> PrimitiveType {
    match op {
        Op::Add | Op::Sub | Op::Mul | Op::Div | Op::Mod => PrimitiveType::Int,
        _ => PrimitiveType::Bool,
    }
}

impl Op {
    /// The operator that a text spells; `None` for a text that spells none.
    pub fn from_str(str: &str) -> (r: Option<Op>)
        ensures
            r == op_of_text(str@),
    {
        if str_eq(str, "+") {
            Some(Op::Add)
        } else if str_eq(str, "-") {
            Some(Op::Sub)
        } else if str_eq(str, "*") {
            Some(Op::Mul)
        } else if str_eq(str, "/") {
            Some(Op::Div)
        } else if str_eq(str, "%") {
            Some(Op::Mod)
        } else if str_eq(str, "and") {
            Some(Op::And)
        } else if str_eq(str, "or") {
            Some(Op::Or)
        } else if str_eq(str, "==") {
            Some(Op::Eq)
        } else if str_eq(str, "!=") {
            Some(Op::Neq)
        } else if str_eq(str, "<") {
            Some(Op::Lt)
        } else if str_eq(str, "<=") {
            Some(Op::Leq)
        } else if str_eq(str, ">") {
            Some(Op::Gt)
        } else if str_eq(str, ">=") {
            Some(Op::Geq)
        } else {
            None
        }
    }

    /// The text of the operator.
    pub fn to_str(&self) -> (r: &'static str)
        ensures
            r@ == op_text(*self),
    {
        match self {
            Op::Add => "+",
            Op::Sub => "-",
            Op::Mul => "*",
            Op::Div => "/",
            Op::Mod => "%",
            Op::And => "and",
            Op::Or => "or",
            Op::Eq => "==",
            Op::Neq => "!=",
            Op::Lt => "<",
            Op::Leq => "<=",
            Op::Gt => ">",
            Op::Geq => ">=",
        }
    }

    /// The type of what the operator gives.
    pub fn get_type(&self) -> (t: PrimitiveType)
        ensures
            t == op_result_type(*self),
    {
        match self {
            Op::Add | Op::Sub | Op::Mul | Op::Div | Op::Mod => PrimitiveType::Int,
            _ => PrimitiveType::Bool,
        }
    }
}

/// Reading the text of an operator gives the operator back.
pub proof fn lemma_op_text_roundtrip(op: Op)
    ensures
        op_of_text(op_text(op)) == Some(op),
{
    reveal_strlit("+");
    reveal_strlit("-");
    reveal_strlit("*");
    reveal_strlit("/");
    reveal_strlit("%");
    reveal_strlit("and");
    reveal_strlit("or");
    reveal_strlit("==");
    reveal_strlit("!=");
    reveal_strlit("<");
    reveal_strlit("<=");
    reveal_strlit(">");
    reveal_strlit(">=");
    match op {
        Op::Add => {
            assert(op_of_text(op_text(op)) == Some(op));
        },
        Op::Sub => {
            assert("-"@[0] != "+"@[0]);
            assert(op_of_text(op_text(op)) == Some(op));
        },
        Op::Mul => {
            assert("*"@[0] != "+"@[0]);
            assert("*"@[0] != "-"@[0]);
            assert(op_of_text(op_text(op)) == Some(op));
        },
        Op::Div => {
            assert("/"@[0] != "+"@[0]);
            assert("/"@[0] != "-"@[0]);
            assert("/"@[0] != "*"@[0]);
            assert(op_of_text(op_text(op)) == Some(op));
        },
        Op::Mod => {
            assert("%"@[0] != "+"@[0]);
            assert("%"@[0] != "-"@[0]);
            assert("%"@[0] != "*"@[0]);
            assert("%"@[0] != "/"@[0]);
            assert(op_of_text(op_text(op)) == Some(op));
        },
        Op::And => {
            assert("and"@.len() != "+"@.len());
            assert("and"@.len() != "-"@.len());
            assert("and"@.len() != "*"@.len());
            assert("and"@.len() != "/"@.len());
            assert("and"@.len() != "%"@.len());
            assert(op_of_text(op_text(op)) == Some(op));
        },
        Op::Or => {
            assert("or"@.len() != "+"@.len());
            assert("or"@.len() != "-"@.len());
            assert("or"@.len() != "*"@.len());
            assert("or"@.len() != "/"@.len());
            assert("or"@.len() != "%"@.len());
            assert("or"@.len() != "and"@.len());
            assert(op_of_text(op_text(op)) == Some(op));
        },
        Op::Eq => {
            assert("=="@.len() != "+"@.len());
            assert("=="@.len() != "-"@.len());
            assert("=="@.len() != "*"@.len());
            assert("=="@.len() != "/"@.len());
            assert("=="@.len() != "%"@.len());
            assert("=="@.len() != "and"@.len());
            assert("=="@[0] != "or"@[0]);
            assert(op_of_text(op_text(op)) == Some(op));
        },
        Op::Neq => {
            assert("!="@.len() != "+"@.len());
            assert("!="@.len() != "-"@.len());
            assert("!="@.len() != "*"@.len());
            assert("!="@.len() != "/"@.len());
            assert("!="@.len() != "%"@.len());
            assert("!="@.len() != "and"@.len());
            assert("!="@[0] != "or"@[0]);
            assert("!="@[0] != "=="@[0]);
            assert(op_of_text(op_text(op)) == Some(op));
        },
        Op::Lt => {
            assert("<"@[0] != "+"@[0]);
            assert("<"@[0] != "-"@[0]);
            assert("<"@[0] != "*"@[0]);
            assert("<"@[0] != "/"@[0]);
            assert("<"@[0] != "%"@[0]);
            assert("<"@.len() != "and"@.len());
            assert("<"@.len() != "or"@.len());
            assert("<"@.len() != "=="@.len());
            assert("<"@.len() != "!="@.len());
            assert(op_of_text(op_text(op)) == Some(op));
        },
        Op::Leq => {
            assert("<="@.len() != "+"@.len());
            assert("<="@.len() != "-"@.len());
            assert("<="@.len() != "*"@.len());
            assert("<="@.len() != "/"@.len());
            assert("<="@.len() != "%"@.len());
            assert("<="@.len() != "and"@.len());
            assert("<="@[0] != "or"@[0]);
            assert("<="@[0] != "=="@[0]);
            assert("<="@[0] != "!="@[0]);
            assert("<="@.len() != "<"@.len());
            assert(op_of_text(op_text(op)) == Some(op));
        },
        Op::Gt => {
            assert(">"@[0] != "+"@[0]);
            assert(">"@[0] != "-"@[0]);
            assert(">"@[0] != "*"@[0]);
            assert(">"@[0] != "/"@[0]);
            assert(">"@[0] != "%"@[0]);
            assert(">"@.len() != "and"@.len());
            assert(">"@.len() != "or"@.len());
            assert(">"@.len() != "=="@.len());
            assert(">"@.len() != "!="@.len());
            assert(">"@[0] != "<"@[0]);
            assert(">"@.len() != "<="@.len());
            assert(op_of_text(op_text(op)) == Some(op));
        },
        Op::Geq => {
            assert(">="@.len() != "+"@.len());
            assert(">="@.len() != "-"@.len());
            assert(">="@.len() != "*"@.len());
            assert(">="@.len() != "/"@.len());
            assert(">="@.len() != "%"@.len());
            assert(">="@.len() != "and"@.len());
            assert(">="@[0] != "or"@[0]);
            assert(">="@[0] != "=="@[0]);
            assert(">="@[0] != "!="@[0]);
            assert(">="@.len() != "<"@.len());
            assert(">="@[0] != "<="@[0]);
            assert(">="@.len() != ">"@.len());
            assert(op_of_text(op_text(op)) == Some(op));
        },
    }
}

} // verus!

verus! {

/// The comparison operators.
pub open spec fn is_comparison(op: Op) -> bool {
    op == Op::Eq || op == Op::Neq || op == Op::Lt || op == Op::Leq || op == Op::Gt || op == Op::Geq
}

/// The arithmetic operators.
pub open spec fn is_arithmetic(op: Op) -> bool {
    op == Op::Add || op == Op::Sub || op == Op::Mul || op == Op::Div || op == Op::Mod
}

/// Whether `a op b` holds, for a comparison operator.
pub open spec fn holds(op: Op, a: int, b: int) -> bool {
    if op == Op::Eq {
        a == b
    } else if op == Op::Neq {
        a != b
    } else if op == Op::Lt {
        a < b
    } else if op == Op::Leq {
        a <= b
    } else if op == Op::Gt {
        a > b
    } else {
        a >= b
    }
}

/// Arithmetic gives an integer; logic and comparison give a boolean.
pub proof fn lemma_result_types(op: Op)
    ensures
        is_arithmetic(op) ==> op_result_type(op) == PrimitiveType::Int,
        !is_arithmetic(op) ==> op_result_type(op) == PrimitiveType::Bool,
{
}

} // verus!
