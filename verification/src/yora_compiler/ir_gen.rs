//! Lowering of the syntax tree to three-address code with named temporaries and labels.
use vstd::prelude::*;
use crate::yora_compiler::parser::{Expression, ExpressionKind, ExprV, KindV, exprs_view};
use crate::text::{decimal, push_decimal, string_of, str_eq, lemma_decimal_digits, lemma_decimal_injective};
use crate::interpreter::semantics::{trunc_div, trunc_rem};

verus! {

/// A two-operand operation: `dest op= src`.
#[derive(Debug, PartialEq, Eq, Structural, Clone, Copy)]
pub enum Op {
    Assign,
    Cmp,
    Add,
    Sub,
    Mul,
    Div,
    Mod,
    Not,
    And,
    Or,
}

/// The flag condition that a `set` instruction reads.
#[derive(Debug, PartialEq, Eq, Structural, Clone, Copy)]
pub enum Cond {
    Eq,
    Neq,
    Lt,
    Leq,
    Gt,
    Geq,
}

/// An instruction of the three-address code.
#[derive(Debug, PartialEq, Clone)]
pub enum Ir {
    Op { dest: String, src: String, op: Op },
    Exit { src: String },
    SetFlag { dest: String, cond: Cond },
    Label(String),
    Jmp { label: String },
    JmpCond { src: String, label: String },
}

/// The value of an instruction.
pub enum IrV {
    Op { dest: Seq<char>, src: Seq<char>, op: Op },
    Exit { src: Seq<char> },
    SetFlag { dest: Seq<char>, cond: Cond },
    Label(Seq<char>),
    Jmp { label: Seq<char> },
    JmpCond { src: Seq<char>, label: Seq<char> },
}

impl View for Ir {
    type V = IrV;

    open spec fn view(&self) -> IrV {
        match self {
            Ir::Op { dest, src, op } => IrV::Op { dest: dest@, src: src@, op: *op },
            Ir::Exit { src } => IrV::Exit { src: src@ },
            Ir::SetFlag { dest, cond } => IrV::SetFlag { dest: dest@, cond: *cond },
            Ir::Label(l) => IrV::Label(l@),
            Ir::Jmp { label } => IrV::Jmp { label: label@ },
            Ir::JmpCond { src, label } => IrV::JmpCond { src: src@, label: label@ },
        }
    }
}

/// The values of a sequence of instructions.
pub open spec fn irs_view(s: Seq<Ir>) -> Seq<IrV> {
    Seq::new(s.len(), |i: int| s[i]@)
}

/// The text of an operation.
pub open spec fn op_text(op: Op) -> Seq<char> {
    match op {
        Op::Assign => ":="@,
        Op::Add => "+="@,
        Op::Sub => "-="@,
        Op::Mul => "*="@,
        Op::Div => "/="@,
        Op::Mod => "%="@,
        Op::Not => "!="@,
        Op::And => "&="@,
        Op::Or => "|="@,
        Op::Cmp => "cmp"@,
    }
}

/// The suffix of a condition, as in `sete` or `setle`.
pub open spec fn cond_text(c: Cond) -> Seq<char> {
    match c {
        Cond::Eq => "e"@,
        Cond::Neq => "ne"@,
        Cond::Lt => "l"@,
        Cond::Leq => "le"@,
        Cond::Gt => "g"@,
        Cond::Geq => "ge"@,
    }
}

/// The text of an instruction.
pub open spec fn ir_text(i: IrV) -> Seq<char> {
    match i {
        IrV::Op { dest, src, op } => dest + " "@ + op_text(op) + " "@ + src,
        IrV::Exit { src } => "exit "@ + src,
        IrV::SetFlag { dest, cond } => "set"@ + cond_text(cond) + " "@ + dest,
        IrV::Label(l) => l + ":"@,
        IrV::Jmp { label } => "jmp "@ + label,
        IrV::JmpCond { src, label } => "if "@ + src + " jmp "@ + label,
    }
}

impl Op {
    /// The text of the operation.
    pub fn as_str(&self) -> (s: &'static str)
        ensures
            s@ == op_text(*self),
    {
        let s = match self {
            Op::Assign => ":=",
            Op::Add => "+=",
            Op::Sub => "-=",
            Op::Mul => "*=",
            Op::Div => "/=",
            Op::Mod => "%=",
            Op::Not => "!=",
            Op::And => "&=",
            Op::Or => "|=",
            Op::Cmp => "cmp",
        };
        proof {
            reveal_strlit(":=");
            reveal_strlit("+=");
            reveal_strlit("-=");
            reveal_strlit("*=");
            reveal_strlit("/=");
            reveal_strlit("%=");
            reveal_strlit("!=");
            reveal_strlit("&=");
            reveal_strlit("|=");
            reveal_strlit("cmp");
        }
        s
    }
}

impl Cond {
    /// The suffix of the condition.
    pub fn as_str(&self) -> (s: &'static str)
        ensures
            s@ == cond_text(*self),
    {
        match self {
            Cond::Eq => "e",
            Cond::Neq => "ne",
            Cond::Lt => "l",
            Cond::Leq => "le",
            Cond::Gt => "g",
            Cond::Geq => "ge",
        }
    }
}

impl Ir {
    /// The text of the instruction, as the listing shows it.
    pub fn to_string(&self) -> (s: String)
        ensures
            s@ == ir_text(self@),
    {
        let mut s = String::new();
        match self {
            Ir::Op { dest, src, op } => {
                s.append(dest.as_str());
                s.append(" ");
                s.append(op.as_str());
                s.append(" ");
                s.append(src.as_str());
            },
            Ir::Exit { src } => {
                s.append("exit ");
                s.append(src.as_str());
            },
            Ir::SetFlag { dest, cond } => {
                s.append("set");
                s.append(cond.as_str());
                s.append(" ");
                s.append(dest.as_str());
            },
            Ir::Label(l) => {
                s.append(l.as_str());
                s.append(":");
            },
            Ir::Jmp { label } => {
                s.append("jmp ");
                s.append(label.as_str());
            },
            Ir::JmpCond { src, label } => {
                s.append("if ");
                s.append(src.as_str());
                s.append(" jmp ");
                s.append(label.as_str());
            },
        }
        proof {
            reveal_strlit(" ");
            reveal_strlit("exit ");
            reveal_strlit("set");
            reveal_strlit(":");
            reveal_strlit("jmp ");
            reveal_strlit("if ");
            reveal_strlit(" jmp ");
        }
        assert(s@ =~= ir_text(self@));
        s
    }
}


/// The numbers of temporaries, `if`s and loops used so far.
pub struct Counters {
    pub tmp: nat,
    pub ifs: nat,
    pub loops: nat,
}

/// The name of the `n`-th temporary.
pub open spec fn temp_name(n: nat) -> Seq<char> {
    "t"@ + decimal(n)
}

/// The label after the body of the `n`-th `if`.
pub open spec fn end_if_label(n: nat) -> Seq<char> {
    "end_if_"@ + decimal(n)
}

/// The label at the start of a loop.
pub open spec fn loop_label(n: nat) -> Seq<char> {
    "loop_"@ + decimal(n)
}

/// The label after a loop.
pub open spec fn loop_end_label(n: nat) -> Seq<char> {
    "loop_end_"@ + decimal(n)
}

/// The operation of an arithmetic or logical node.
pub open spec fn arith_op(k: KindV) -> Op {
    match k {
        KindV::Sub(..) => Op::Sub,
        KindV::Mul(..) => Op::Mul,
        KindV::Div(..) => Op::Div,
        KindV::Mod(..) => Op::Mod,
        KindV::And(..) => Op::And,
        KindV::Or(..) => Op::Or,
        _ => Op::Add,
    }
}

/// The condition of a comparison node.
pub open spec fn comparison_cond(k: KindV) -> Cond {
    match k {
        KindV::Neq(..) => Cond::Neq,
        KindV::Lt(..) => Cond::Lt,
        KindV::Leq(..) => Cond::Leq,
        KindV::Gt(..) => Cond::Gt,
        KindV::Geq(..) => Cond::Geq,
        _ => Cond::Eq,
    }
}

/// The trees that can be lowered: every sequence in them has an element.
pub open spec fn lowerable(e: ExprV) -> bool
    decreases e, 1nat,
{
    match e.kind {
        KindV::Sequence(s) => s.len() > 0 && lowerable_all(s),
        KindV::If(a, b) | KindV::Declare(a, b) | KindV::Assign(a, b) | KindV::Add(a, b)
        | KindV::Sub(a, b) | KindV::Mul(a, b) | KindV::Div(a, b) | KindV::Mod(a, b)
        | KindV::And(a, b) | KindV::Or(a, b) | KindV::Eq(a, b) | KindV::Neq(a, b)
        | KindV::Lt(a, b) | KindV::Leq(a, b) | KindV::Gt(a, b) | KindV::Geq(a, b) => lowerable(*a) && lowerable(*b),
        KindV::Loop(a) | KindV::Exit(a) | KindV::Not(a) => lowerable(*a),
        _ => true,
    }
}

/// Every tree of the sequence can be lowered.
pub open spec fn lowerable_all(s: Seq<ExprV>) -> bool
    decreases s, 0nat,
{
    if s.len() == 0 {
        true
    } else {
        lowerable_all(s.drop_last()) && lowerable(s.last())
    }
}

/// The number of nodes of a tree.
pub open spec fn size(e: ExprV) -> nat
    decreases e, 1nat,
{
    match e.kind {
        KindV::Sequence(s) => 1 + size_all(s),
        KindV::If(a, b) | KindV::Declare(a, b) | KindV::Assign(a, b) | KindV::Add(a, b)
        | KindV::Sub(a, b) | KindV::Mul(a, b) | KindV::Div(a, b) | KindV::Mod(a, b)
        | KindV::And(a, b) | KindV::Or(a, b) | KindV::Eq(a, b) | KindV::Neq(a, b)
        | KindV::Lt(a, b) | KindV::Leq(a, b) | KindV::Gt(a, b) | KindV::Geq(a, b) => 1 + size(*a) + size(*b),
        KindV::Loop(a) | KindV::Exit(a) | KindV::Not(a) => 1 + size(*a),
        _ => 1,
    }
}

/// The number of nodes of a sequence of trees.
pub open spec fn size_all(s: Seq<ExprV>) -> nat
    decreases s, 0nat,
{
    if s.len() == 0 {
        0
    } else {
        size_all(s.drop_last()) + size(s.last())
    }
}

/// The label that a `break` jumps to: the end of the innermost loop around it, `cur`; outside
/// every loop, the end of the next loop to be numbered.
pub open spec fn break_label(c: Counters, cur: Option<nat>) -> Seq<char> {
    match cur {
        Some(n) => loop_end_label(n),
        None => loop_end_label(c.loops),
    }
}

/// Code for a tree, given the counters so far and the number of the innermost loop around
/// it: the operand that holds its value, the instructions, and the counters after it.
/// An operation `a op b` computes `a` into a fresh temporary and then applies `b` to it;
/// a loop takes its number on entry and uses it for its start, back-jump and end.
pub open spec fn gen(e: ExprV, c: Counters, cur: Option<nat>) -> (Seq<char>, Seq<IrV>, Counters)
    decreases e, 1nat,
{
    match e.kind {
        KindV::Exit(v) => {
            let (a, is, c1) = gen(*v, c, cur);
            (a, is.push(IrV::Exit { src: a }), c1)
        },
        KindV::Assign(d, s) | KindV::Declare(d, s) => {
            let (a1, is1, c1) = gen(*d, c, cur);
            let (a2, is2, c2) = gen(*s, c1, cur);
            (a1, (is1 + is2).push(IrV::Op { dest: a1, src: a2, op: Op::Assign }), c2)
        },
        KindV::Add(d, s) | KindV::Sub(d, s) | KindV::Mul(d, s) | KindV::Div(d, s)
        | KindV::Mod(d, s) | KindV::And(d, s) | KindV::Or(d, s) => {
            let t = temp_name(c.tmp + 1);
            let (a1, is1, c1) = gen(*d, Counters { tmp: c.tmp + 1, ..c }, cur);
            let (a2, is2, c2) = gen(*s, c1, cur);
            (
                t,
                (is1 + is2).push(IrV::Op { dest: t, src: a1, op: Op::Assign }).push(
                    IrV::Op { dest: t, src: a2, op: arith_op(e.kind) },
                ),
                c2,
            )
        },
        KindV::Eq(d, s) | KindV::Neq(d, s) | KindV::Lt(d, s) | KindV::Leq(d, s)
        | KindV::Gt(d, s) | KindV::Geq(d, s) => {
            let (a1, is1, c1) = gen(*d, c, cur);
            let (a2, is2, c2) = gen(*s, c1, cur);
            let t = temp_name(c2.tmp + 1);
            (
                t,
                (is1 + is2).push(IrV::Op { dest: a1, src: a2, op: Op::Cmp }).push(
                    IrV::SetFlag { dest: t, cond: comparison_cond(e.kind) },
                ),
                Counters { tmp: c2.tmp + 1, ..c2 },
            )
        },
        KindV::IntLit(n) => {
            let t = temp_name(c.tmp + 1);
            (t, seq![IrV::Op { dest: t, src: n, op: Op::Assign }], Counters { tmp: c.tmp + 1, ..c })
        },
        KindV::BoolLit(b) => {
            let t = temp_name(c.tmp + 1);
            let v = if b == "true"@ { "1"@ } else { "0"@ };
            (t, seq![IrV::Op { dest: t, src: v, op: Op::Assign }], Counters { tmp: c.tmp + 1, ..c })
        },
        KindV::Identifier(id) => (id, seq![], c),
        KindV::If(cond, body) => {
            let n = c.ifs + 1;
            let (a, is1, c1) = gen(*cond, Counters { ifs: n, ..c }, cur);
            let (v, is2, c2) = gen(*body, c1, cur);
            (
                v,
                (is1.push(IrV::JmpCond { src: a, label: end_if_label(n) }) + is2).push(
                    IrV::Label(end_if_label(n)),
                ),
                c2,
            )
        },
        KindV::Loop(body) => {
            let n = c.loops;
            let (v, is, c1) = gen(*body, Counters { loops: n + 1, ..c }, Some(n));
            (
                v,
                (seq![IrV::Label(loop_label(n))] + is).push(IrV::Jmp { label: loop_label(n) }).push(
                    IrV::Label(loop_end_label(n)),
                ),
                c1,
            )
        },
        KindV::Break => (seq![], seq![IrV::Jmp { label: break_label(c, cur) }], c),
        KindV::Sequence(s) => gen_seq(s, c, cur),
        KindV::Not(a) => {
            let (a1, is, c1) = gen(*a, Counters { tmp: c.tmp + 1, ..c }, cur);
            let t = temp_name(c1.tmp);
            (t, is.push(IrV::Op { dest: t, src: a1, op: Op::Not }), c1)
        },
    }
}

/// Code for a sequence of trees, one after the other; its value is that of the last.
pub open spec fn gen_seq(s: Seq<ExprV>, c: Counters, cur: Option<nat>) -> (Seq<char>, Seq<IrV>, Counters)
    decreases s, 0nat,
{
    if s.len() == 0 {
        (seq![], seq![], c)
    } else {
        let (_, is1, c1) = gen_seq(s.drop_last(), c, cur);
        let (v, is2, c2) = gen(s.last(), c1, cur);
        (v, is1 + is2, c2)
    }
}

/// Code for the trees of a program, outside every loop.
pub open spec fn gen_all(s: Seq<ExprV>, c: Counters) -> (Seq<char>, Seq<IrV>, Counters) {
    gen_seq(s, c, None)
}

/// The counters stay below `u32::MAX` for `n` more nodes.
pub open spec fn fits(c: Counters, n: nat) -> bool {
    &&& c.tmp + n <= u32::MAX
    &&& c.ifs + n <= u32::MAX
    &&& c.loops + n <= u32::MAX
}

/// Each counter grows by at most one per node.
pub open spec fn grows_within(c: Counters, c1: Counters, n: nat) -> bool {
    &&& c.tmp <= c1.tmp <= c.tmp + n
    &&& c.ifs <= c1.ifs <= c.ifs + n
    &&& c.loops <= c1.loops <= c.loops + n
}

proof fn lemma_gen_counts(e: ExprV, c: Counters, cur: Option<nat>)
    ensures
        grows_within(c, gen(e, c, cur).2, size(e)),
    decreases e, 1nat,
{
    match e.kind {
        KindV::Exit(v) => lemma_gen_counts(*v, c, cur),
        KindV::Assign(d, s) | KindV::Declare(d, s) | KindV::Eq(d, s) | KindV::Neq(d, s)
        | KindV::Lt(d, s) | KindV::Leq(d, s) | KindV::Gt(d, s) | KindV::Geq(d, s) => {
            lemma_gen_counts(*d, c, cur);
            lemma_gen_counts(*s, gen(*d, c, cur).2, cur);
        },
        KindV::Add(d, s) | KindV::Sub(d, s) | KindV::Mul(d, s) | KindV::Div(d, s)
        | KindV::Mod(d, s) | KindV::And(d, s) | KindV::Or(d, s) => {
            let c0 = Counters { tmp: c.tmp + 1, ..c };
            lemma_gen_counts(*d, c0, cur);
            lemma_gen_counts(*s, gen(*d, c0, cur).2, cur);
        },
        KindV::If(cond, body) => {
            let c0 = Counters { ifs: c.ifs + 1, ..c };
            lemma_gen_counts(*cond, c0, cur);
            lemma_gen_counts(*body, gen(*cond, c0, cur).2, cur);
        },
        KindV::Loop(body) => lemma_gen_counts(*body, Counters { loops: c.loops + 1, ..c }, Some(c.loops)),
        KindV::Sequence(s) => lemma_gen_all_counts(s, c, cur),
        KindV::Not(a) => lemma_gen_counts(*a, Counters { tmp: c.tmp + 1, ..c }, cur),
        _ => {},
    }
}

proof fn lemma_gen_all_counts(s: Seq<ExprV>, c: Counters, cur: Option<nat>)
    ensures
        grows_within(c, gen_seq(s, c, cur).2, size_all(s)),
    decreases s, 0nat,
{
    if s.len() > 0 {
        lemma_gen_all_counts(s.drop_last(), c, cur);
        lemma_gen_counts(s.last(), gen_seq(s.drop_last(), c, cur).2, cur);
    }
}

} // verus!

verus! {

struct Nums {
    tmp: u32,
    ifs: u32,
    loops: u32,
}

spec fn loop_of(cur: Option<u32>) -> Option<nat> {
    match cur {
        Some(n) => Some(n as nat),
        None => None,
    }
}

spec fn counters(n: Nums) -> Counters {
    Counters { tmp: n.tmp as nat, ifs: n.ifs as nat, loops: n.loops as nat }
}

/// What lowering `e` from counters `c` does: `r` is its value, the instructions are
/// appended to `v0` to give `v1`, and the counters become `c1`.
spec fn lowered(e: ExprV, c: Counters, cur: Option<nat>, v0: Seq<Ir>, v1: Seq<Ir>, c1: Counters, r: Seq<char>) -> bool {
    let (v, is, c2) = gen(e, c, cur);
    &&& r == v
    &&& irs_view(v1) == irs_view(v0) + is
    &&& c1 == c2
}

proof fn lemma_push_view(s: Seq<Ir>, x: Ir)
    ensures
        irs_view(s.push(x)) == irs_view(s).push(x@),
{
    assert(irs_view(s.push(x)) =~= irs_view(s).push(x@));
}

fn numbered(prefix: &str, n: u32) -> (s: String)
    ensures
        s@ == prefix@ + decimal(n as nat),
{
    let mut s = string_of(prefix);
    push_decimal(&mut s, n as u64);
    s
}

fn temp(n: u32) -> (s: String)
    ensures
        s@ == temp_name(n as nat),
{
    numbered("t", n)
}

fn get_operation(operation: &Expression, arg1: String, arg2: String) -> (r: Ir)
    ensures
        r@ == (IrV::Op { dest: arg1@, src: arg2@, op: arith_op(operation@.kind) }),
{
    let op = match operation.kind {
        ExpressionKind::Sub(..) => Op::Sub,
        ExpressionKind::Mul(..) => Op::Mul,
        ExpressionKind::Div(..) => Op::Div,
        ExpressionKind::Mod(..) => Op::Mod,
        ExpressionKind::And(..) => Op::And,
        ExpressionKind::Or(..) => Op::Or,
        _ => Op::Add,
    };
    Ir::Op { dest: arg1, src: arg2, op }
}

fn get_condition(expr: &Expression) -> (r: Cond)
    ensures
        r == comparison_cond(expr@.kind),
{
    match &expr.kind {
        ExpressionKind::Neq(..) => Cond::Neq,
        ExpressionKind::Lt(..) => Cond::Lt,
        ExpressionKind::Leq(..) => Cond::Leq,
        ExpressionKind::Gt(..) => Cond::Gt,
        ExpressionKind::Geq(..) => Cond::Geq,
        _ => Cond::Eq,
    }
}

fn get_value(expr: &Expression, tmp_vec: &mut Vec<Ir>, nums: &mut Nums, cur: Option<u32>) -> (r: String)
    requires
        lowerable(expr@),
        fits(counters(*old(nums)), size(expr@)),
    ensures
        lowered(expr@, counters(*old(nums)), loop_of(cur), old(tmp_vec)@, final(tmp_vec)@, counters(*final(nums)), r@),
    decreases expr, 1nat,
{
    proof {
        lemma_gen_counts(expr@, counters(*nums), loop_of(cur));
    }
    match &expr.kind {
        ExpressionKind::Exit(val) => {
            let arg = get_value(val, tmp_vec, nums, cur);
            let ghost mid = tmp_vec@;
            tmp_vec.push(Ir::Exit { src: arg.clone() });
            proof {
                lemma_push_view(mid, tmp_vec@.last());
                assert(tmp_vec@ =~= mid.push(tmp_vec@.last()));
            }
            assert(irs_view(tmp_vec@) =~= irs_view(old(tmp_vec)@) + gen(expr@, counters(*old(nums)), loop_of(cur)).1);
            arg
        },
        ExpressionKind::Assign(dest, src) | ExpressionKind::Declare(dest, src) => {
            proof {
                lemma_gen_counts(dest@, counters(*nums), loop_of(cur));
            }
            let arg1 = get_value(dest, tmp_vec, nums, cur);
            let arg2 = get_value(src, tmp_vec, nums, cur);
            let ghost mid = tmp_vec@;
            tmp_vec.push(Ir::Op { dest: arg1.clone(), src: arg2, op: Op::Assign });
            proof {
                lemma_push_view(mid, tmp_vec@.last());
                assert(tmp_vec@ =~= mid.push(tmp_vec@.last()));
            }
            assert(irs_view(tmp_vec@) =~= irs_view(old(tmp_vec)@) + gen(expr@, counters(*old(nums)), loop_of(cur)).1);
            arg1
        },
        ExpressionKind::Add(..) | ExpressionKind::Sub(..) | ExpressionKind::Mul(..)
        | ExpressionKind::Div(..) | ExpressionKind::Mod(..) | ExpressionKind::And(..)
        | ExpressionKind::Or(..) => get_arith(expr, tmp_vec, nums, cur),
        ExpressionKind::Eq(..) | ExpressionKind::Neq(..) | ExpressionKind::Lt(..)
        | ExpressionKind::Leq(..) | ExpressionKind::Gt(..) | ExpressionKind::Geq(..) => get_comparison(expr, tmp_vec, nums, cur),
        ExpressionKind::IntLit(literal) => {
            nums.tmp = nums.tmp + 1;
            tmp_vec.push(Ir::Op { dest: temp(nums.tmp), src: literal.clone(), op: Op::Assign });
            assert(irs_view(tmp_vec@) =~= irs_view(old(tmp_vec)@) + gen(expr@, counters(*old(nums)), loop_of(cur)).1);
            temp(nums.tmp)
        },
        ExpressionKind::BoolLit(b) => {
            nums.tmp = nums.tmp + 1;
            let value = if str_eq(b.as_str(), "true") {
                string_of("1")
            } else {
                string_of("0")
            };
            tmp_vec.push(Ir::Op { dest: temp(nums.tmp), src: value, op: Op::Assign });
            assert(irs_view(tmp_vec@) =~= irs_view(old(tmp_vec)@) + gen(expr@, counters(*old(nums)), loop_of(cur)).1);
            temp(nums.tmp)
        },
        ExpressionKind::Identifier(id) => {
            assert(irs_view(tmp_vec@) =~= irs_view(old(tmp_vec)@) + gen(expr@, counters(*old(nums)), loop_of(cur)).1);
            id.clone()
        },
        ExpressionKind::If(..) => get_if(expr, tmp_vec, nums, cur),
        ExpressionKind::Loop(..) => get_loop(expr, tmp_vec, nums, cur),
        ExpressionKind::Break => {
            let n = match cur {
                Some(n) => n,
                None => nums.loops,
            };
            tmp_vec.push(Ir::Jmp { label: numbered("loop_end_", n) });
            assert(irs_view(tmp_vec@) =~= irs_view(old(tmp_vec)@) + gen(expr@, counters(*old(nums)), loop_of(cur)).1);
            String::new()
        },
        ExpressionKind::Sequence(..) => get_sequence(expr, tmp_vec, nums, cur),
        ExpressionKind::Not(arg) => {
            proof {
                lemma_gen_counts(arg@, Counters { tmp: nums.tmp as nat + 1, ..counters(*nums) }, loop_of(cur));
            }
            nums.tmp = nums.tmp + 1;
            let arg1 = get_value(arg, tmp_vec, nums, cur);
            let ghost mid = tmp_vec@;
            tmp_vec.push(Ir::Op { dest: temp(nums.tmp), src: arg1, op: Op::Not });
            proof {
                lemma_push_view(mid, tmp_vec@.last());
                assert(tmp_vec@ =~= mid.push(tmp_vec@.last()));
            }
            assert(irs_view(tmp_vec@) =~= irs_view(old(tmp_vec)@) + gen(expr@, counters(*old(nums)), loop_of(cur)).1);
            temp(nums.tmp)
        },
    }
}

fn get_arith(expr: &Expression, tmp_vec: &mut Vec<Ir>, nums: &mut Nums, cur: Option<u32>) -> (r: String)
    requires
        expr.kind is Add || expr.kind is Sub || expr.kind is Mul || expr.kind is Div
            || expr.kind is Mod || expr.kind is And || expr.kind is Or,
        lowerable(expr@),
        fits(counters(*old(nums)), size(expr@)),
    ensures
        lowered(expr@, counters(*old(nums)), loop_of(cur), old(tmp_vec)@, final(tmp_vec)@, counters(*final(nums)), r@),
    decreases expr, 0nat,
{
    match &expr.kind {
        ExpressionKind::Add(dest, src) | ExpressionKind::Sub(dest, src) | ExpressionKind::Mul(dest, src)
        | ExpressionKind::Div(dest, src) | ExpressionKind::Mod(dest, src) | ExpressionKind::And(dest, src)
        | ExpressionKind::Or(dest, src) => {
            proof {
                lemma_gen_counts(dest@, Counters { tmp: nums.tmp as nat + 1, ..counters(*nums) }, loop_of(cur));
            }
            nums.tmp = nums.tmp + 1;
            let destination = temp(nums.tmp);
            let arg1 = get_value(dest, tmp_vec, nums, cur);
            let arg2 = get_value(src, tmp_vec, nums, cur);
            let ghost s1 = tmp_vec@;
            tmp_vec.push(Ir::Op { dest: destination.clone(), src: arg1, op: Op::Assign });
            let ghost s2 = tmp_vec@;
            tmp_vec.push(get_operation(expr, destination.clone(), arg2));
            proof {
                lemma_push_view(s1, s2.last());
                assert(s2 =~= s1.push(s2.last()));
                lemma_push_view(s2, tmp_vec@.last());
                assert(tmp_vec@ =~= s2.push(tmp_vec@.last()));
            }
            assert(irs_view(tmp_vec@) =~= irs_view(old(tmp_vec)@) + gen(expr@, counters(*old(nums)), loop_of(cur)).1);
            destination
        },
        _ => {
            assert(false);
            String::new()
        },
    }
}

fn get_comparison(expr: &Expression, tmp_vec: &mut Vec<Ir>, nums: &mut Nums, cur: Option<u32>) -> (r: String)
    requires
        expr.kind is Eq || expr.kind is Neq || expr.kind is Lt || expr.kind is Leq
            || expr.kind is Gt || expr.kind is Geq,
        lowerable(expr@),
        fits(counters(*old(nums)), size(expr@)),
    ensures
        lowered(expr@, counters(*old(nums)), loop_of(cur), old(tmp_vec)@, final(tmp_vec)@, counters(*final(nums)), r@),
    decreases expr, 0nat,
{
    match &expr.kind {
        ExpressionKind::Eq(dest, src) | ExpressionKind::Neq(dest, src) | ExpressionKind::Lt(dest, src)
        | ExpressionKind::Leq(dest, src) | ExpressionKind::Gt(dest, src) | ExpressionKind::Geq(dest, src) => {
            proof {
                lemma_gen_counts(dest@, counters(*nums), loop_of(cur));
                lemma_gen_counts(src@, gen(dest@, counters(*nums), loop_of(cur)).2, loop_of(cur));
            }
            let arg1 = get_value(dest, tmp_vec, nums, cur);
            let arg2 = get_value(src, tmp_vec, nums, cur);
            let ghost s1 = tmp_vec@;
            tmp_vec.push(Ir::Op { dest: arg1, src: arg2, op: Op::Cmp });
            let ghost s2 = tmp_vec@;
            nums.tmp = nums.tmp + 1;
            tmp_vec.push(Ir::SetFlag { dest: temp(nums.tmp), cond: get_condition(expr) });
            proof {
                lemma_push_view(s1, s2.last());
                assert(s2 =~= s1.push(s2.last()));
                lemma_push_view(s2, tmp_vec@.last());
                assert(tmp_vec@ =~= s2.push(tmp_vec@.last()));
            }
            assert(irs_view(tmp_vec@) =~= irs_view(old(tmp_vec)@) + gen(expr@, counters(*old(nums)), loop_of(cur)).1);
            temp(nums.tmp)
        },
        _ => {
            assert(false);
            String::new()
        },
    }
}

fn get_if(expr: &Expression, tmp_vec: &mut Vec<Ir>, nums: &mut Nums, cur: Option<u32>) -> (r: String)
    requires
        expr.kind is If,
        lowerable(expr@),
        fits(counters(*old(nums)), size(expr@)),
    ensures
        lowered(expr@, counters(*old(nums)), loop_of(cur), old(tmp_vec)@, final(tmp_vec)@, counters(*final(nums)), r@),
    decreases expr, 0nat,
{
    match &expr.kind {
        ExpressionKind::If(cond, seq) => {
            proof {
                let c0 = Counters { ifs: nums.ifs as nat + 1, ..counters(*nums) };
                lemma_gen_counts(cond@, c0, loop_of(cur));
                lemma_gen_counts(seq@, gen(cond@, c0, loop_of(cur)).2, loop_of(cur));
            }
            nums.ifs = nums.ifs + 1;
            let current_ifs = nums.ifs;
            let src = get_value(cond, tmp_vec, nums, cur);
            let ghost s1 = tmp_vec@;
            tmp_vec.push(Ir::JmpCond { src, label: numbered("end_if_", current_ifs) });
            let ghost s2 = tmp_vec@;
            proof {
                lemma_push_view(s1, s2.last());
                assert(s2 =~= s1.push(s2.last()));
            }
            let seq_value = get_value(seq, tmp_vec, nums, cur);
            let ghost s3 = tmp_vec@;
            tmp_vec.push(Ir::Label(numbered("end_if_", current_ifs)));
            proof {
                lemma_push_view(s3, tmp_vec@.last());
                assert(tmp_vec@ =~= s3.push(tmp_vec@.last()));
            }
            assert(irs_view(tmp_vec@) =~= irs_view(old(tmp_vec)@) + gen(expr@, counters(*old(nums)), loop_of(cur)).1);
            seq_value
        },
        _ => {
            assert(false);
            String::new()
        },
    }
}

fn get_loop(expr: &Expression, tmp_vec: &mut Vec<Ir>, nums: &mut Nums, cur: Option<u32>) -> (r: String)
    requires
        expr.kind is Loop,
        lowerable(expr@),
        fits(counters(*old(nums)), size(expr@)),
    ensures
        lowered(expr@, counters(*old(nums)), loop_of(cur), old(tmp_vec)@, final(tmp_vec)@, counters(*final(nums)), r@),
    decreases expr, 0nat,
{
    match &expr.kind {
        ExpressionKind::Loop(seq) => {
            let n = nums.loops;
            proof {
                lemma_gen_counts(seq@, Counters { loops: n as nat + 1, ..counters(*nums) }, Some(n as nat));
            }
            nums.loops = n + 1;
            let ghost s0 = tmp_vec@;
            tmp_vec.push(Ir::Label(numbered("loop_", n)));
            let ghost s1 = tmp_vec@;
            proof {
                lemma_push_view(s0, s1.last());
                assert(s1 =~= s0.push(s1.last()));
            }
            let seq_value = get_value(seq, tmp_vec, nums, Some(n));
            let ghost s2 = tmp_vec@;
            tmp_vec.push(Ir::Jmp { label: numbered("loop_", n) });
            let ghost s3 = tmp_vec@;
            tmp_vec.push(Ir::Label(numbered("loop_end_", n)));
            proof {
                lemma_push_view(s2, s3.last());
                assert(s3 =~= s2.push(s3.last()));
                lemma_push_view(s3, tmp_vec@.last());
                assert(tmp_vec@ =~= s3.push(tmp_vec@.last()));
            }
            assert(irs_view(tmp_vec@) =~= irs_view(old(tmp_vec)@) + gen(expr@, counters(*old(nums)), loop_of(cur)).1);
            seq_value
        },
        _ => {
            assert(false);
            String::new()
        },
    }
}

proof fn lemma_prefix(s: Seq<ExprV>, k: int)
    requires
        0 < k <= s.len(),
    ensures
        lowerable_all(s) ==> lowerable_all(s.take(k - 1)) && lowerable(s[k - 1]),
        size_all(s.take(k - 1)) + size(s[k - 1]) <= size_all(s),
    decreases s.len(),
{
    if k < s.len() {
        lemma_prefix(s.drop_last(), k);
        assert(s.drop_last().take(k - 1) =~= s.take(k - 1));
    } else {
        assert(s.drop_last() =~= s.take(k - 1));
    }
}

fn get_sequence(expr: &Expression, tmp_vec: &mut Vec<Ir>, nums: &mut Nums, cur: Option<u32>) -> (r: String)
    requires
        expr.kind is Sequence,
        lowerable(expr@),
        fits(counters(*old(nums)), size(expr@)),
    ensures
        lowered(expr@, counters(*old(nums)), loop_of(cur), old(tmp_vec)@, final(tmp_vec)@, counters(*final(nums)), r@),
    decreases expr, 0nat,
{
    match &expr.kind {
        ExpressionKind::Sequence(seq) => {
            let ghost sv = exprs_view(seq@);
            let ghost c0 = counters(*nums);
            proof {
                crate::yora_compiler::parser::lemma_exprs_view(seq@);
                lemma_gen_all_counts(sv, c0, loop_of(cur));
            }
            let mut last = String::new();
            let mut k: usize = 0;
            while k < seq.len()
                invariant
                    expr.kind is Sequence,
                    expr.kind->Sequence_0 == *seq,
                    sv == exprs_view(seq@),
                    sv.len() == seq@.len(),
                    forall|j: int| 0 <= j < seq@.len() ==> #[trigger] sv[j] == seq@[j]@,
                    lowerable_all(sv),
                    fits(c0, size_all(sv)),
                    0 <= k <= seq.len(),
                    ({
                        let (v, is, c) = gen_seq(sv.take(k as int), c0, loop_of(cur));
                        &&& last@ == v
                        &&& irs_view(tmp_vec@) == irs_view(old(tmp_vec)@) + is
                        &&& counters(*nums) == c
                    }),
                decreases seq.len() - k,
            {
                let ghost pre = sv.take(k as int);
                proof {
                    assert(sv.take(k as int + 1).drop_last() =~= pre);
                    lemma_prefix(sv, k as int + 1);
                    lemma_gen_all_counts(pre, c0, loop_of(cur));
                    assert(decreases_to!(*expr => expr.kind));
                    assert(decreases_to!(expr.kind => expr.kind->Sequence_0));
                    assert(decreases_to!(*seq => seq@));
                    assert(decreases_to!(seq@ => seq@[k as int]));
                }
                let ghost before = tmp_vec@;
                last = get_value(&seq[k], tmp_vec, nums, cur);
                proof {
                    assert(irs_view(tmp_vec@) =~= irs_view(old(tmp_vec)@) + gen_seq(sv.take(k as int + 1), c0, loop_of(cur)).1);
                }
                k = k + 1;
            }
            assert(sv.take(k as int) =~= sv);
            last
        },
        _ => {
            assert(false);
            String::new()
        },
    }
}

/// Three-address code for a program: the trees one after the other, with temporaries,
/// `if`s and loops numbered across the whole program.
pub fn generate_ir(ast: Vec<Expression>) -> (r: Vec<Ir>)
    requires
        lowerable_all(exprs_view(ast@)),
        size_all(exprs_view(ast@)) < u32::MAX,
    ensures
        irs_view(r@) == gen_all(exprs_view(ast@), Counters { tmp: 0, ifs: 0, loops: 0 }).1,
{
    let ghost sv = exprs_view(ast@);
    let ghost c0 = Counters { tmp: 0, ifs: 0, loops: 0 };
    proof {
        crate::yora_compiler::parser::lemma_exprs_view(ast@);
        lemma_gen_all_counts(sv, c0, None);
    }
    let mut inter_repr: Vec<Ir> = Vec::new();
    let mut nums = Nums { tmp: 0, ifs: 0, loops: 0 };
    let mut k: usize = 0;
    while k < ast.len()
        invariant
            sv == exprs_view(ast@),
            sv.len() == ast@.len(),
            forall|j: int| 0 <= j < ast@.len() ==> #[trigger] sv[j] == ast@[j]@,
            lowerable_all(sv),
            fits(c0, size_all(sv)),
            c0 == (Counters { tmp: 0, ifs: 0, loops: 0 }),
            0 <= k <= ast.len(),
            ({
                let (v, is, c) = gen_seq(sv.take(k as int), c0, None);
                &&& irs_view(inter_repr@) == is
                &&& counters(nums) == c
            }),
        decreases ast.len() - k,
    {
        let ghost pre = sv.take(k as int);
        proof {
            assert(sv.take(k as int + 1).drop_last() =~= pre);
            lemma_prefix(sv, k as int + 1);
            lemma_gen_all_counts(pre, c0, None);
        }
        let mut tmp_vec: Vec<Ir> = Vec::new();
        get_value(&ast[k], &mut tmp_vec, &mut nums, None);
        let ghost before = inter_repr@;
        let ghost added = tmp_vec@;
        inter_repr.append(&mut tmp_vec);
        proof {
            assert(irs_view(inter_repr@) =~= irs_view(before) + irs_view(added));
            assert(irs_view(inter_repr@) =~= gen_seq(sv.take(k as int + 1), c0, None).1);
        }
        k = k + 1;
    }
    assert(sv.take(k as int) =~= sv);
    inter_repr
}

} // verus!

verus! {

/// The largest node count that `measure` tells apart.
pub const MEASURE_CAP: u64 = 4294967295;

/// The number of nodes of the tree, capped at `MEASURE_CAP`, and whether every sequence in
/// it has an element.
fn measure(e: &Expression) -> (r: (u64, bool))
    ensures
        r.0 == (if size(e@) < MEASURE_CAP { size(e@) } else { MEASURE_CAP as nat }),
        r.1 == lowerable(e@),
    decreases e, 1nat,
{
    match &e.kind {
        ExpressionKind::Sequence(seq) => {
            let (n, ok) = measure_all(seq);
            (if n < MEASURE_CAP { n + 1 } else { MEASURE_CAP }, ok && seq.len() > 0)
        },
        ExpressionKind::If(a, b) | ExpressionKind::Declare(a, b) | ExpressionKind::Assign(a, b)
        | ExpressionKind::Add(a, b) | ExpressionKind::Sub(a, b) | ExpressionKind::Mul(a, b)
        | ExpressionKind::Div(a, b) | ExpressionKind::Mod(a, b) | ExpressionKind::And(a, b)
        | ExpressionKind::Or(a, b) | ExpressionKind::Eq(a, b) | ExpressionKind::Neq(a, b)
        | ExpressionKind::Lt(a, b) | ExpressionKind::Leq(a, b) | ExpressionKind::Gt(a, b)
        | ExpressionKind::Geq(a, b) => {
            let (n1, ok1) = measure(a);
            let (n2, ok2) = measure(b);
            let n = if n1 + n2 < MEASURE_CAP { n1 + n2 + 1 } else { MEASURE_CAP };
            (n, ok1 && ok2)
        },
        ExpressionKind::Loop(a) | ExpressionKind::Exit(a) | ExpressionKind::Not(a) => {
            let (n, ok) = measure(a);
            (if n < MEASURE_CAP { n + 1 } else { MEASURE_CAP }, ok)
        },
        _ => (1, true),
    }
}

fn measure_all(s: &Vec<Expression>) -> (r: (u64, bool))
    ensures
        r.0 == (if size_all(exprs_view(s@)) < MEASURE_CAP { size_all(exprs_view(s@)) } else { MEASURE_CAP as nat }),
        r.1 == lowerable_all(exprs_view(s@)),
    decreases s, 0nat,
{
    let ghost sv = exprs_view(s@);
    proof {
        crate::yora_compiler::parser::lemma_exprs_view(s@);
    }
    let mut n: u64 = 0;
    let mut ok = true;
    let mut k: usize = 0;
    while k < s.len()
        invariant
            sv == exprs_view(s@),
            sv.len() == s@.len(),
            forall|j: int| 0 <= j < s@.len() ==> #[trigger] sv[j] == s@[j]@,
            0 <= k <= s.len(),
            n == (if size_all(sv.take(k as int)) < MEASURE_CAP { size_all(sv.take(k as int)) } else { MEASURE_CAP as nat }),
            ok == lowerable_all(sv.take(k as int)),
        decreases s.len() - k,
    {
        proof {
            assert(sv.take(k as int + 1).drop_last() =~= sv.take(k as int));
            assert(decreases_to!(*s => s@));
            assert(decreases_to!(s@ => s@[k as int]));
        }
        let (m, ok1) = measure(&s[k]);
        n = if n + m < MEASURE_CAP { n + m } else { MEASURE_CAP };
        ok = ok && ok1;
        k += 1;
    }
    assert(sv.take(k as int) =~= sv);
    (n, ok)
}

/// Whether code can be generated for the program: every sequence in it has an element and
/// the counters of temporaries, `if`s and loops fit in a `u32`.
pub fn can_lower(ast: &Vec<Expression>) -> (r: bool)
    ensures
        r == (lowerable_all(exprs_view(ast@)) && size_all(exprs_view(ast@)) < u32::MAX),
{
    let (n, ok) = measure_all(ast);
    ok && n < MEASURE_CAP
}

} // verus!

verus! {

/// The labels that the instructions define, in order.
pub open spec fn labels_of(is: Seq<IrV>) -> Seq<Seq<char>>
    decreases is.len(),
{
    if is.len() == 0 {
        seq![]
    } else {
        match is.last() {
            IrV::Label(l) => labels_of(is.drop_last()).push(l),
            _ => labels_of(is.drop_last()),
        }
    }
}

/// The labels that the instructions jump to, in order.
pub open spec fn jumps_of(is: Seq<IrV>) -> Seq<Seq<char>>
    decreases is.len(),
{
    if is.len() == 0 {
        seq![]
    } else {
        match is.last() {
            IrV::Jmp { label } => jumps_of(is.drop_last()).push(label),
            IrV::JmpCond { label, .. } => jumps_of(is.drop_last()).push(label),
            _ => jumps_of(is.drop_last()),
        }
    }
}

/// No text occurs twice.
pub open spec fn distinct(s: Seq<Seq<char>>) -> bool {
    forall|i: int, j: int| 0 <= i < j < s.len() ==> s[i] != s[j]
}

/// A `break` in the tree that no loop of the tree encloses.
pub open spec fn free_break(e: ExprV) -> bool
    decreases e, 1nat,
{
    match e.kind {
        KindV::Break => true,
        KindV::Loop(_) => false,
        KindV::Sequence(s) => free_break_any(s),
        KindV::If(a, b) | KindV::Declare(a, b) | KindV::Assign(a, b) | KindV::Add(a, b)
        | KindV::Sub(a, b) | KindV::Mul(a, b) | KindV::Div(a, b) | KindV::Mod(a, b)
        | KindV::And(a, b) | KindV::Or(a, b) | KindV::Eq(a, b) | KindV::Neq(a, b)
        | KindV::Lt(a, b) | KindV::Leq(a, b) | KindV::Gt(a, b) | KindV::Geq(a, b) => free_break(*a) || free_break(*b),
        KindV::Exit(a) | KindV::Not(a) => free_break(*a),
        _ => false,
    }
}

/// A `break` outside every loop in one of the trees.
pub open spec fn free_break_any(s: Seq<ExprV>) -> bool
    decreases s, 0nat,
{
    if s.len() == 0 {
        false
    } else {
        free_break_any(s.drop_last()) || free_break(s.last())
    }
}

/// The label is one that code generated from counters `c` to `c1` may define: the end of
/// an `if` numbered after `c.ifs` up to `c1.ifs`, or the start or end of a loop numbered
/// from `c.loops` up to before `c1.loops`.
pub open spec fn label_in(l: Seq<char>, c: Counters, c1: Counters) -> bool {
    ||| exists|k: nat| c.ifs < k <= c1.ifs && l == end_if_label(k)
    ||| exists|k: nat| c.loops <= k < c1.loops && l == loop_label(k)
    ||| exists|k: nat| c.loops <= k < c1.loops && l == loop_end_label(k)
}

proof fn lemma_labels_concat(a: Seq<IrV>, b: Seq<IrV>)
    ensures
        labels_of(a + b) == labels_of(a) + labels_of(b),
        jumps_of(a + b) == jumps_of(a) + jumps_of(b),
    decreases b.len(),
{
    if b.len() == 0 {
        assert(a + b =~= a);
        assert(labels_of(a) + labels_of(b) =~= labels_of(a));
        assert(jumps_of(a) + jumps_of(b) =~= jumps_of(a));
    } else {
        lemma_labels_concat(a, b.drop_last());
        assert((a + b).drop_last() =~= a + b.drop_last());
        assert((a + b).last() == b.last());
        match b.last() {
            IrV::Label(l) => {
                assert(labels_of(a) + labels_of(b) =~= (labels_of(a) + labels_of(b.drop_last())).push(l));
                assert(jumps_of(a) + jumps_of(b) =~= jumps_of(a) + jumps_of(b.drop_last()));
            },
            IrV::Jmp { label } => {
                assert(labels_of(a) + labels_of(b) =~= labels_of(a) + labels_of(b.drop_last()));
                assert(jumps_of(a) + jumps_of(b) =~= (jumps_of(a) + jumps_of(b.drop_last())).push(label));
            },
            IrV::JmpCond { label, .. } => {
                assert(labels_of(a) + labels_of(b) =~= labels_of(a) + labels_of(b.drop_last()));
                assert(jumps_of(a) + jumps_of(b) =~= (jumps_of(a) + jumps_of(b.drop_last())).push(label));
            },
            _ => {
                assert(labels_of(a) + labels_of(b) =~= labels_of(a) + labels_of(b.drop_last()));
                assert(jumps_of(a) + jumps_of(b) =~= jumps_of(a) + jumps_of(b.drop_last()));
            },
        }
    }
}

proof fn lemma_numbered_injective(p: Seq<char>, a: nat, b: nat)
    requires
        p + decimal(a) == p + decimal(b),
    ensures
        a == b,
{
    assert((p + decimal(a)).skip(p.len() as int) =~= decimal(a));
    assert((p + decimal(b)).skip(p.len() as int) =~= decimal(b));
    lemma_decimal_injective(a, b);
}

proof fn lemma_label_kinds(a: nat, b: nat)
    ensures
        end_if_label(a) != loop_label(b),
        end_if_label(a) != loop_end_label(b),
        loop_label(a) != loop_end_label(b),
        end_if_label(a) == end_if_label(b) ==> a == b,
        loop_label(a) == loop_label(b) ==> a == b,
        loop_end_label(a) == loop_end_label(b) ==> a == b,
{
    reveal_strlit("end_if_");
    reveal_strlit("loop_");
    reveal_strlit("loop_end_");
    lemma_decimal_digits(a);
    lemma_decimal_digits(b);
    assert(end_if_label(a)[0] == 'e');
    assert(loop_label(b)[0] == 'l');
    assert(loop_end_label(b)[0] == 'l');
    assert(loop_label(a)[5] == decimal(a)[0]);
    assert(loop_end_label(b)[5] == 'e');
    if end_if_label(a) == end_if_label(b) {
        lemma_numbered_injective("end_if_"@, a, b);
    }
    if loop_label(a) == loop_label(b) {
        lemma_numbered_injective("loop_"@, a, b);
    }
    if loop_end_label(a) == loop_end_label(b) {
        lemma_numbered_injective("loop_end_"@, a, b);
    }
}

/// Code generated from `c` to `c1` and code generated from `c1` to `c2` define no label in
/// common.
proof fn lemma_ranges_disjoint(l: Seq<char>, c: Counters, c1: Counters, c2: Counters)
    ensures
        !(label_in(l, c, c1) && label_in(l, c1, c2)),
{
    if !(label_in(l, c, c1) && label_in(l, c1, c2)) {
    } else if exists|k: nat| c.ifs < k <= c1.ifs && l == end_if_label(k) {
        let k = choose|k: nat| c.ifs < k <= c1.ifs && l == end_if_label(k);
        if exists|m: nat| c1.ifs < m <= c2.ifs && l == end_if_label(m) {
            let m = choose|m: nat| c1.ifs < m <= c2.ifs && l == end_if_label(m);
            lemma_label_kinds(k, m);
        } else if exists|m: nat| c1.loops <= m < c2.loops && l == loop_label(m) {
            let m = choose|m: nat| c1.loops <= m < c2.loops && l == loop_label(m);
            lemma_label_kinds(k, m);
        } else {
            let m = choose|m: nat| c1.loops <= m < c2.loops && l == loop_end_label(m);
            lemma_label_kinds(k, m);
        }
    } else if exists|k: nat| c.loops <= k < c1.loops && l == loop_label(k) {
        let k = choose|k: nat| c.loops <= k < c1.loops && l == loop_label(k);
        if exists|m: nat| c1.ifs < m <= c2.ifs && l == end_if_label(m) {
            let m = choose|m: nat| c1.ifs < m <= c2.ifs && l == end_if_label(m);
            lemma_label_kinds(m, k);
        } else if exists|m: nat| c1.loops <= m < c2.loops && l == loop_label(m) {
            let m = choose|m: nat| c1.loops <= m < c2.loops && l == loop_label(m);
            lemma_label_kinds(k, m);
        } else {
            let m = choose|m: nat| c1.loops <= m < c2.loops && l == loop_end_label(m);
            lemma_label_kinds(k, m);
        }
    } else {
        let k = choose|k: nat| c.loops <= k < c1.loops && l == loop_end_label(k);
        if exists|m: nat| c1.ifs < m <= c2.ifs && l == end_if_label(m) {
            let m = choose|m: nat| c1.ifs < m <= c2.ifs && l == end_if_label(m);
            lemma_label_kinds(m, k);
        } else if exists|m: nat| c1.loops <= m < c2.loops && l == loop_label(m) {
            let m = choose|m: nat| c1.loops <= m < c2.loops && l == loop_label(m);
            lemma_label_kinds(m, k);
        } else {
            let m = choose|m: nat| c1.loops <= m < c2.loops && l == loop_end_label(m);
            lemma_label_kinds(k, m);
        }
    }
}

/// What the code for a tree, generated from `c` to `c1`, does with labels: it defines
/// each at most once, all within its counters' range, and jumps only to labels it
/// defines, to the end of the loop `cur` around it, or, with a `break` outside every loop,
/// where that `break` goes.
pub open spec fn labels_ok(is: Seq<IrV>, c: Counters, c1: Counters, cur: Option<nat>, free: bool) -> bool {
    &&& distinct(labels_of(is))
    &&& forall|i: int| 0 <= i < labels_of(is).len() ==> label_in(#[trigger] labels_of(is)[i], c, c1)
    &&& forall|j: int| 0 <= j < jumps_of(is).len() ==> labels_of(is).contains(#[trigger] jumps_of(is)[j])
        || (cur matches Some(m) && jumps_of(is)[j] == loop_end_label(m)) || (cur is None && free)
}

proof fn lemma_label_in_widen(l: Seq<char>, c: Counters, c1: Counters, d: Counters, d1: Counters)
    requires
        label_in(l, c, c1),
        d.ifs <= c.ifs,
        c1.ifs <= d1.ifs,
        d.loops <= c.loops,
        c1.loops <= d1.loops,
    ensures
        label_in(l, d, d1),
{
}

/// Joining the code from `c` to `c1` and that from `c1` to `c2` keeps `labels_ok`.
proof fn lemma_labels_join(a: Seq<IrV>, b: Seq<IrV>, c: Counters, c1: Counters, c2: Counters, cur: Option<nat>, fa: bool, fb: bool)
    requires
        labels_ok(a, c, c1, cur, fa),
        labels_ok(b, c1, c2, cur, fb),
        c.ifs <= c1.ifs <= c2.ifs,
        c.loops <= c1.loops <= c2.loops,
    ensures
        labels_ok(a + b, c, c2, cur, fa || fb),
{
    lemma_labels_concat(a, b);
    let la = labels_of(a);
    let lb = labels_of(b);
    let l = labels_of(a + b);
    assert forall|i: int, j: int| 0 <= i < j < l.len() implies l[i] != l[j] by {
        if j < la.len() {
        } else if i >= la.len() {
            assert(l[i] == lb[i - la.len()]);
            assert(l[j] == lb[j - la.len()]);
        } else {
            assert(l[i] == la[i]);
            assert(l[j] == lb[j - la.len()]);
            assert(label_in(la[i], c, c1));
            assert(label_in(lb[j - la.len()], c1, c2));
            if l[i] == l[j] {
                lemma_ranges_disjoint(l[i], c, c1, c2);
            }
        }
    }
    assert forall|i: int| 0 <= i < l.len() implies label_in(#[trigger] l[i], c, c2) by {
        if i < la.len() {
            assert(l[i] == la[i]);
            lemma_label_in_widen(la[i], c, c1, c, c2);
        } else {
            assert(l[i] == lb[i - la.len()]);
            lemma_label_in_widen(lb[i - la.len()], c1, c2, c, c2);
        }
    }
    let ja = jumps_of(a);
    let jb = jumps_of(b);
    assert forall|j: int| 0 <= j < jumps_of(a + b).len() implies l.contains(#[trigger] jumps_of(a + b)[j])
        || (cur matches Some(m) && jumps_of(a + b)[j] == loop_end_label(m)) || (cur is None && (fa || fb)) by {
        if j < ja.len() {
            assert(jumps_of(a + b)[j] == ja[j]);
            if la.contains(ja[j]) {
                let k = choose|k: int| 0 <= k < la.len() && la[k] == ja[j];
                assert(l[k] == la[k]);
            }
        } else {
            assert(jumps_of(a + b)[j] == jb[j - ja.len()]);
            if lb.contains(jb[j - ja.len()]) {
                let k = choose|k: int| 0 <= k < lb.len() && lb[k] == jb[j - ja.len()];
                assert(l[k + la.len()] == lb[k]);
            }
        }
    }
}

} // verus!

verus! {

proof fn lemma_push_other(is: Seq<IrV>, x: IrV)
    requires
        !(x is Label),
        !(x is Jmp),
        !(x is JmpCond),
    ensures
        labels_of(is.push(x)) == labels_of(is),
        jumps_of(is.push(x)) == jumps_of(is),
{
    assert(is.push(x).drop_last() =~= is);
}

proof fn lemma_push_label(is: Seq<IrV>, l: Seq<char>)
    ensures
        labels_of(is.push(IrV::Label(l))) == labels_of(is).push(l),
        jumps_of(is.push(IrV::Label(l))) == jumps_of(is),
{
    assert(is.push(IrV::Label(l)).drop_last() =~= is);
}

proof fn lemma_push_jump(is: Seq<IrV>, x: IrV)
    requires
        x is Jmp || x is JmpCond,
    ensures
        labels_of(is.push(x)) == labels_of(is),
        jumps_of(is.push(x)) == jumps_of(is).push(
            match x {
                IrV::Jmp { label } => label,
                IrV::JmpCond { label, .. } => label,
                _ => seq![],
            },
        ),
{
    assert(is.push(x).drop_last() =~= is);
}

proof fn lemma_labels_empty(is: Seq<IrV>, c: Counters, c1: Counters, cur: Option<nat>, f: bool)
    requires
        forall|i: int| 0 <= i < is.len() ==> !(#[trigger] is[i] is Label) && !(is[i] is Jmp) && !(is[i] is JmpCond),
    ensures
        labels_ok(is, c, c1, cur, f),
        labels_of(is).len() == 0,
        jumps_of(is).len() == 0,
    decreases is.len(),
{
    if is.len() > 0 {
        lemma_labels_empty(is.drop_last(), c, c1, cur, f);
        lemma_push_other(is.drop_last(), is.last());
        assert(is.drop_last().push(is.last()) =~= is);
    }
}

proof fn lemma_labels_weaken(is: Seq<IrV>, c: Counters, c1: Counters, d: Counters, d1: Counters, cur: Option<nat>, f: bool, g: bool)
    requires
        labels_ok(is, c, c1, cur, f),
        f ==> g,
        d.ifs <= c.ifs,
        c1.ifs <= d1.ifs,
        d.loops <= c.loops,
        c1.loops <= d1.loops,
    ensures
        labels_ok(is, d, d1, cur, g),
{
    assert forall|i: int| 0 <= i < labels_of(is).len() implies label_in(#[trigger] labels_of(is)[i], d, d1) by {
        lemma_label_in_widen(labels_of(is)[i], c, c1, d, d1);
    }
}

/// The code of an `if`: the condition's code, a jump to `end` when it fails, the body's
/// code and the label `end`, the `n`-th `if`'s.
proof fn lemma_labels_if(is1: Seq<IrV>, is2: Seq<IrV>, a: Seq<char>, n: nat, c: Counters, c0: Counters, c1: Counters, c2: Counters, cur: Option<nat>, f1: bool, f2: bool)
    requires
        n == c.ifs + 1,
        c0 == (Counters { ifs: n, ..c }),
        labels_ok(is1, c0, c1, cur, f1),
        labels_ok(is2, c1, c2, cur, f2),
        c0.ifs <= c1.ifs <= c2.ifs,
        c0.loops <= c1.loops <= c2.loops,
    ensures
        labels_ok(
            (is1.push(IrV::JmpCond { src: a, label: end_if_label(n) }) + is2).push(IrV::Label(end_if_label(n))),
            c,
            c2,
            cur,
            f1 || f2,
        ),
{
    let end = end_if_label(n);
    let x = IrV::JmpCond { src: a, label: end };
    let b = is1.push(x);
    lemma_push_jump(is1, x);
    lemma_labels_concat(b, is2);
    lemma_labels_concat(is1, is2);
    lemma_labels_join(is1, is2, c0, c1, c2, cur, f1, f2);
    let m = is1 + is2;
    let d = (b + is2).push(IrV::Label(end));
    lemma_push_label(b + is2, end);
    let lm = labels_of(m);
    let ld = labels_of(d);
    assert(ld == lm.push(end));
    assert forall|i: int| 0 <= i < lm.len() implies lm[i] != end by {
        assert(label_in(lm[i], c0, c2));
        if exists|k: nat| c0.ifs < k <= c2.ifs && lm[i] == end_if_label(k) {
            let k = choose|k: nat| c0.ifs < k <= c2.ifs && lm[i] == end_if_label(k);
            lemma_label_kinds(k, n);
        } else if exists|k: nat| c0.loops <= k < c2.loops && lm[i] == loop_label(k) {
            let k = choose|k: nat| c0.loops <= k < c2.loops && lm[i] == loop_label(k);
            lemma_label_kinds(n, k);
        } else {
            let k = choose|k: nat| c0.loops <= k < c2.loops && lm[i] == loop_end_label(k);
            lemma_label_kinds(n, k);
        }
    }
    assert forall|i: int| 0 <= i < ld.len() implies label_in(#[trigger] ld[i], c, c2) by {
        if i < lm.len() {
            assert(ld[i] == lm[i]);
            lemma_label_in_widen(lm[i], c0, c2, c, c2);
        } else {
            assert(ld[i] == end);
            assert(c.ifs < n <= c2.ifs && ld[i] == end_if_label(n));
        }
    }
    let jd = jumps_of(d);
    assert(jd == (jumps_of(is1).push(end)) + jumps_of(is2));
    assert(jumps_of(m) == jumps_of(is1) + jumps_of(is2));
    assert forall|j: int| 0 <= j < jd.len() implies ld.contains(#[trigger] jd[j])
        || (cur matches Some(mm) && jd[j] == loop_end_label(mm)) || (cur is None && (f1 || f2)) by {
        let ji = jumps_of(is1).len() as int;
        if j == ji {
            assert(jd[j] == end);
            assert(ld[ld.len() - 1] == end);
        } else {
            let jm = if j < ji { j } else { j - 1 };
            assert(jd[j] == jumps_of(m)[jm]);
            if lm.contains(jumps_of(m)[jm]) {
                let k = choose|k: int| 0 <= k < lm.len() && lm[k] == jumps_of(m)[jm];
                assert(ld[k] == lm[k]);
            }
        }
    }
}

/// The code of a loop, the `n`-th: its start label, the body's code, a jump back to the
/// start and its end label.
proof fn lemma_labels_loop(is: Seq<IrV>, n: nat, c: Counters, c0: Counters, c1: Counters, cur: Option<nat>, f: bool)
    requires
        n == c.loops,
        c0 == (Counters { loops: n + 1, ..c }),
        labels_ok(is, c0, c1, Some(n), f),
        c0.ifs <= c1.ifs,
        c0.loops <= c1.loops,
    ensures
        labels_ok(
            (seq![IrV::Label(loop_label(n))] + is).push(IrV::Jmp { label: loop_label(n) }).push(
                IrV::Label(loop_end_label(n)),
            ),
            c,
            c1,
            cur,
            false,
        ),
{
    let start = loop_label(n);
    let end = loop_end_label(n);
    let head = seq![IrV::Label(start)];
    lemma_push_label(Seq::<IrV>::empty(), start);
    assert(Seq::<IrV>::empty().push(IrV::Label(start)) =~= head);
    assert(labels_of(Seq::<IrV>::empty()) =~= Seq::<Seq<char>>::empty());
    lemma_labels_concat(head, is);
    let b = head + is;
    let x = IrV::Jmp { label: start };
    lemma_push_jump(b, x);
    let d = b.push(x).push(IrV::Label(end));
    lemma_push_label(b.push(x), end);
    let li = labels_of(is);
    let ld = labels_of(d);
    assert(ld =~= seq![start] + li + seq![end]);
    lemma_label_kinds(n, n);
    assert forall|i: int| 0 <= i < li.len() implies li[i] != start && li[i] != end by {
        assert(label_in(li[i], c0, c1));
        if exists|k: nat| c0.ifs < k <= c1.ifs && li[i] == end_if_label(k) {
            let k = choose|k: nat| c0.ifs < k <= c1.ifs && li[i] == end_if_label(k);
            lemma_label_kinds(k, n);
        } else if exists|k: nat| c0.loops <= k < c1.loops && li[i] == loop_label(k) {
            let k = choose|k: nat| c0.loops <= k < c1.loops && li[i] == loop_label(k);
            lemma_label_kinds(k, n);
            lemma_label_kinds(k, k);
        } else {
            let k = choose|k: nat| c0.loops <= k < c1.loops && li[i] == loop_end_label(k);
            lemma_label_kinds(n, k);
            lemma_label_kinds(k, n);
        }
    }
    assert forall|i: int, j: int| 0 <= i < j < ld.len() implies ld[i] != ld[j] by {
        if i == 0 {
            if j == ld.len() - 1 {
            } else {
                assert(ld[j] == li[j - 1]);
            }
        } else if j == ld.len() - 1 {
            assert(ld[i] == li[i - 1]);
        } else {
            assert(ld[i] == li[i - 1]);
            assert(ld[j] == li[j - 1]);
        }
    }
    assert forall|i: int| 0 <= i < ld.len() implies label_in(#[trigger] ld[i], c, c1) by {
        if i == 0 {
            assert(c.loops <= n < c1.loops && ld[i] == loop_label(n));
        } else if i == ld.len() - 1 {
            assert(c.loops <= n < c1.loops && ld[i] == loop_end_label(n));
        } else {
            assert(ld[i] == li[i - 1]);
            lemma_label_in_widen(li[i - 1], c0, c1, c, c1);
        }
    }
    let jd = jumps_of(d);
    let ji = jumps_of(is);
    assert(jd =~= ji.push(start));
    assert forall|j: int| 0 <= j < jd.len() implies ld.contains(#[trigger] jd[j])
        || (cur matches Some(mm) && jd[j] == loop_end_label(mm)) || (cur is None && false) by {
        if j == ji.len() {
            assert(ld[0] == start);
        } else {
            assert(jd[j] == ji[j]);
            if li.contains(ji[j]) {
                let k = choose|k: int| 0 <= k < li.len() && li[k] == ji[j];
                assert(ld[k + 1] == li[k]);
            } else {
                assert(ji[j] == end);
                assert(ld[ld.len() - 1] == end);
            }
        }
    }
}

} // verus!

verus! {

proof fn lemma_gen_labels(e: ExprV, c: Counters, cur: Option<nat>)
    ensures
        labels_ok(gen(e, c, cur).1, c, gen(e, c, cur).2, cur, free_break(e)),
    decreases e, 1nat,
{
    lemma_gen_counts(e, c, cur);
    let (v, is, c1) = gen(e, c, cur);
    match e.kind {
        KindV::Exit(x) => {
            lemma_gen_labels(*x, c, cur);
            let (a, is1, cx) = gen(*x, c, cur);
            lemma_push_other(is1, IrV::Exit { src: a });
        },
        KindV::Assign(d, s) | KindV::Declare(d, s) | KindV::Eq(d, s) | KindV::Neq(d, s)
        | KindV::Lt(d, s) | KindV::Leq(d, s) | KindV::Gt(d, s) | KindV::Geq(d, s) => {
            lemma_gen_labels(*d, c, cur);
            let (a1, is1, ca) = gen(*d, c, cur);
            lemma_gen_counts(*d, c, cur);
            lemma_gen_labels(*s, ca, cur);
            lemma_gen_counts(*s, ca, cur);
            let (a2, is2, cb) = gen(*s, ca, cur);
            lemma_labels_join(is1, is2, c, ca, cb, cur, free_break(*d), free_break(*s));
            if e.kind is Assign || e.kind is Declare {
                lemma_push_other(is1 + is2, IrV::Op { dest: a1, src: a2, op: Op::Assign });
            } else {
                let t = temp_name(cb.tmp + 1);
                lemma_push_other(is1 + is2, IrV::Op { dest: a1, src: a2, op: Op::Cmp });
                lemma_push_other((is1 + is2).push(IrV::Op { dest: a1, src: a2, op: Op::Cmp }), IrV::SetFlag { dest: t, cond: comparison_cond(e.kind) });
            }
        },
        KindV::Add(d, s) | KindV::Sub(d, s) | KindV::Mul(d, s) | KindV::Div(d, s)
        | KindV::Mod(d, s) | KindV::And(d, s) | KindV::Or(d, s) => {
            let c0 = Counters { tmp: c.tmp + 1, ..c };
            let t = temp_name(c.tmp + 1);
            lemma_gen_labels(*d, c0, cur);
            lemma_gen_counts(*d, c0, cur);
            let (a1, is1, ca) = gen(*d, c0, cur);
            lemma_gen_labels(*s, ca, cur);
            lemma_gen_counts(*s, ca, cur);
            let (a2, is2, cb) = gen(*s, ca, cur);
            lemma_labels_join(is1, is2, c0, ca, cb, cur, free_break(*d), free_break(*s));
            lemma_labels_weaken(is1 + is2, c0, cb, c, cb, cur, free_break(*d) || free_break(*s), free_break(e));
            let p1 = IrV::Op { dest: t, src: a1, op: Op::Assign };
            lemma_push_other(is1 + is2, p1);
            lemma_push_other((is1 + is2).push(p1), IrV::Op { dest: t, src: a2, op: arith_op(e.kind) });
        },
        KindV::If(cond, body) => {
            let n = c.ifs + 1;
            let c0 = Counters { ifs: n, ..c };
            lemma_gen_labels(*cond, c0, cur);
            lemma_gen_counts(*cond, c0, cur);
            let (a, is1, ca) = gen(*cond, c0, cur);
            lemma_gen_labels(*body, ca, cur);
            lemma_gen_counts(*body, ca, cur);
            lemma_labels_if(is1, gen(*body, ca, cur).1, a, n, c, c0, ca, gen(*body, ca, cur).2, cur, free_break(*cond), free_break(*body));
        },
        KindV::Loop(body) => {
            let n = c.loops;
            let c0 = Counters { loops: n + 1, ..c };
            lemma_gen_labels(*body, c0, Some(n));
            lemma_gen_counts(*body, c0, Some(n));
            lemma_labels_loop(gen(*body, c0, Some(n)).1, n, c, c0, gen(*body, c0, Some(n)).2, cur, free_break(*body));
        },
        KindV::Break => {
            let x = IrV::Jmp { label: break_label(c, cur) };
            lemma_push_jump(Seq::<IrV>::empty(), x);
            assert(Seq::<IrV>::empty().push(x) =~= is);
            assert(labels_of(Seq::<IrV>::empty()) =~= Seq::<Seq<char>>::empty());
            assert(jumps_of(Seq::<IrV>::empty()) =~= Seq::<Seq<char>>::empty());
            assert(jumps_of(is)[0] == break_label(c, cur));
        },
        KindV::Sequence(s) => lemma_gen_seq_labels(s, c, cur),
        KindV::Not(a) => {
            let c0 = Counters { tmp: c.tmp + 1, ..c };
            lemma_gen_labels(*a, c0, cur);
            lemma_gen_counts(*a, c0, cur);
            let (a1, is1, ca) = gen(*a, c0, cur);
            lemma_labels_weaken(is1, c0, ca, c, ca, cur, free_break(*a), free_break(e));
            lemma_push_other(is1, IrV::Op { dest: temp_name(ca.tmp), src: a1, op: Op::Not });
        },
        _ => {
            lemma_labels_empty(is, c, c1, cur, free_break(e));
        },
    }
}

proof fn lemma_gen_seq_labels(s: Seq<ExprV>, c: Counters, cur: Option<nat>)
    ensures
        labels_ok(gen_seq(s, c, cur).1, c, gen_seq(s, c, cur).2, cur, free_break_any(s)),
    decreases s, 0nat,
{
    if s.len() == 0 {
        lemma_labels_empty(seq![], c, c, cur, false);
    } else {
        lemma_gen_seq_labels(s.drop_last(), c, cur);
        lemma_gen_all_counts(s.drop_last(), c, cur);
        let (_, is1, c1) = gen_seq(s.drop_last(), c, cur);
        lemma_gen_labels(s.last(), c1, cur);
        lemma_gen_counts(s.last(), c1, cur);
        let (_, is2, c2) = gen(s.last(), c1, cur);
        lemma_labels_join(is1, is2, c, c1, c2, cur, free_break_any(s.drop_last()), free_break(s.last()));
    }
}

/// In the code for a program with no `break` outside a loop, every label is defined at
/// most once and every jump goes to a label that is defined: `if`s and loops take their
/// numbers on entry, and a `break` names the innermost loop around it.
pub proof fn lemma_labels_unique_and_defined(ast: Seq<ExprV>)
    requires
        !free_break_any(ast),
    ensures
        distinct(labels_of(gen_all(ast, Counters { tmp: 0, ifs: 0, loops: 0 }).1)),
        forall|j: int|
            0 <= j < jumps_of(gen_all(ast, Counters { tmp: 0, ifs: 0, loops: 0 }).1).len() ==> labels_of(
                gen_all(ast, Counters { tmp: 0, ifs: 0, loops: 0 }).1,
            ).contains(#[trigger] jumps_of(gen_all(ast, Counters { tmp: 0, ifs: 0, loops: 0 }).1)[j]),
{
    lemma_gen_seq_labels(ast, Counters { tmp: 0, ifs: 0, loops: 0 }, None);
}

} // verus!

verus! {

/// What a comparison node tests of its operands' values `a` and `b`; `None` for a node of
/// another kind.
pub open spec fn node_comparison(k: KindV, a: int, b: int) -> Option<bool> {
    match k {
        KindV::Eq(..) => Some(a == b),
        KindV::Neq(..) => Some(a != b),
        KindV::Lt(..) => Some(a < b),
        KindV::Leq(..) => Some(a <= b),
        KindV::Gt(..) => Some(a > b),
        KindV::Geq(..) => Some(a >= b),
        _ => None,
    }
}

/// Whether a flag condition holds after comparing `a` with `b`.
pub open spec fn cond_holds(c: Cond, a: int, b: int) -> bool {
    match c {
        Cond::Eq => a == b,
        Cond::Neq => a != b,
        Cond::Lt => a < b,
        Cond::Leq => a <= b,
        Cond::Gt => a > b,
        Cond::Geq => a >= b,
    }
}

/// What an arithmetic or logical node computes on its operands' values `x` and `y`
/// (division rounds toward zero, the remainder takes the sign of `x`); `None` for a node of
/// another kind, or a division by zero.
pub open spec fn node_value(k: KindV, x: i64, y: i64) -> Option<int> {
    match k {
        KindV::Add(..) => Some(x + y),
        KindV::Sub(..) => Some(x - y),
        KindV::Mul(..) => Some(x * y),
        KindV::Div(..) => if y != 0 { Some(trunc_div(x as int, y as int)) } else { None },
        KindV::Mod(..) => if y != 0 { Some(trunc_rem(x as int, y as int)) } else { None },
        KindV::And(..) => Some((x & y) as int),
        KindV::Or(..) => Some((x | y) as int),
        _ => None,
    }
}

/// What an operation of the intermediate code leaves in its destination `d` with source `s`;
/// `None` for assignment, negation and comparison, or a division by zero.
pub open spec fn op_value(op: Op, d: i64, s: i64) -> Option<int> {
    match op {
        Op::Add => Some(d + s),
        Op::Sub => Some(d - s),
        Op::Mul => Some(d * s),
        Op::Div => if s != 0 { Some(trunc_div(d as int, s as int)) } else { None },
        Op::Mod => if s != 0 { Some(trunc_rem(d as int, s as int)) } else { None },
        Op::And => Some((d & s) as int),
        Op::Or => Some((d | s) as int),
        _ => None,
    }
}

/// Lowering keeps what a node means: the flag set for a comparison node holds exactly when
/// the comparison does, and the operation emitted for an arithmetic or logical node computes
/// what the node does, for all operand values.
pub proof fn lemma_lowering_keeps_meaning(k: KindV, a: int, b: int, x: i64, y: i64)
    ensures
        node_comparison(k, a, b) matches Some(r) ==> cond_holds(comparison_cond(k), a, b) == r,
        node_value(k, x, y) is Some ==> op_value(arith_op(k), x, y) == node_value(k, x, y),
{
}

} // verus!
