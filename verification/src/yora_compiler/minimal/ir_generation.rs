//! Three-address code for the minimal dialect.
use vstd::prelude::*;
use super::parser::{Expression, ExprV, exprs_view};
use crate::text::{decimal, push_decimal, string_of};

verus! {

/// The kind of a jump: unconditional, or taken when a comparison holds.
#[derive(Debug, PartialEq, Eq, Clone, Copy, Structural)]
pub enum JmpType {
    Jmp,
    Je,
    Jne,
    Jl,
    Jle,
    Jg,
    Jge,
}

/// An instruction of the three-address code.
#[derive(Debug, PartialEq)]
pub enum Ir {
    Exit(String),
    Assign(String, String),
    Label(String),
    /// Compare the first two operands and jump to the label when the jump type says so.
    Jmp(String, String, String, JmpType),
    Add(String, String),
    Sub(String, String),
    Mul(String, String),
    Div(String, String),
    Mod(String, String),
}

/// The value of an instruction.
pub enum IrV {
    Exit(Seq<char>),
    Assign(Seq<char>, Seq<char>),
    Label(Seq<char>),
    Jmp(Seq<char>, Seq<char>, Seq<char>, JmpType),
    Add(Seq<char>, Seq<char>),
    Sub(Seq<char>, Seq<char>),
    Mul(Seq<char>, Seq<char>),
    Div(Seq<char>, Seq<char>),
    Mod(Seq<char>, Seq<char>),
}

impl View for Ir {
    type V = IrV;

    open spec fn view(&self) -> IrV {
        match self {
            Ir::Exit(a) => IrV::Exit(a@),
            Ir::Assign(a, b) => IrV::Assign(a@, b@),
            Ir::Label(a) => IrV::Label(a@),
            Ir::Jmp(a, b, l, j) => IrV::Jmp(a@, b@, l@, *j),
            Ir::Add(a, b) => IrV::Add(a@, b@),
            Ir::Sub(a, b) => IrV::Sub(a@, b@),
            Ir::Mul(a, b) => IrV::Mul(a@, b@),
            Ir::Div(a, b) => IrV::Div(a@, b@),
            Ir::Mod(a, b) => IrV::Mod(a@, b@),
        }
    }
}

/// The values of a sequence of instructions.
pub open spec fn irs_view(s: Seq<Ir>) -> Seq<IrV> {
    Seq::new(s.len(), |i: int| s[i]@)
}

/// The jump taken exactly when the given one is not.
pub open spec fn spec_inverse_jump(j: JmpType) -> JmpType {
    match j {
        JmpType::Jmp => JmpType::Jmp,
        JmpType::Je => JmpType::Jne,
        JmpType::Jne => JmpType::Je,
        JmpType::Jl => JmpType::Jge,
        JmpType::Jle => JmpType::Jg,
        JmpType::Jg => JmpType::Jle,
        JmpType::Jge => JmpType::Jl,
    }
}

/// The jump taken exactly when the given one is not.
pub fn get_inverse_jump(jmp_type: JmpType) -> (r: JmpType)
    ensures
        r == spec_inverse_jump(jmp_type),
{
    match jmp_type {
        JmpType::Jmp => JmpType::Jmp,
        JmpType::Je => JmpType::Jne,
        JmpType::Jne => JmpType::Je,
        JmpType::Jl => JmpType::Jge,
        JmpType::Jle => JmpType::Jg,
        JmpType::Jg => JmpType::Jle,
        JmpType::Jge => JmpType::Jl,
    }
}

/// Inverting a conditional jump twice gives it back.
pub proof fn lemma_inverse_jump_involution(j: JmpType)
    ensures
        spec_inverse_jump(spec_inverse_jump(j)) == j,
{
}

/// The name of the `n`-th temporary.
pub open spec fn temp_name(n: nat) -> Seq<char> {
    "t"@ + decimal(n)
}

/// The label that ends the `n`-th `if`.
pub open spec fn end_if_label(n: nat) -> Seq<char> {
    "end_if"@ + decimal(n)
}

/// The jump that a comparison node stands for, if it is one.
pub open spec fn comparison_jump(e: ExprV) -> Option<JmpType> {
    match e {
        ExprV::Equals(..) => Some(JmpType::Je),
        ExprV::NotEquals(..) => Some(JmpType::Jne),
        ExprV::Less(..) => Some(JmpType::Jl),
        ExprV::LessEquals(..) => Some(JmpType::Jle),
        ExprV::Greater(..) => Some(JmpType::Jg),
        ExprV::GreaterEquals(..) => Some(JmpType::Jge),
        _ => None,
    }
}

/// The two operands of a binary node.
pub open spec fn operands(e: ExprV) -> (ExprV, ExprV) {
    match e {
        ExprV::Equals(a, b) | ExprV::NotEquals(a, b) | ExprV::Less(a, b) | ExprV::LessEquals(a, b)
        | ExprV::Greater(a, b) | ExprV::GreaterEquals(a, b) | ExprV::Add(a, b) | ExprV::Sub(a, b)
        | ExprV::Mul(a, b) | ExprV::Div(a, b) | ExprV::Mod(a, b) | ExprV::Declare(a, b)
        | ExprV::Assign(a, b) | ExprV::If(a, b) => (*a, *b),
        _ => (e, e),
    }
}

/// The trees that code can be generated for: comparisons stand only as the condition of
/// an `if`, and such a condition is a boolean literal or a comparison.
pub open spec fn lowerable(e: ExprV) -> bool
    decreases e,
{
    match e {
        ExprV::Identifier(_) | ExprV::IntLit(_) | ExprV::BoolLit(_) => true,
        ExprV::Sequence(s) => lowerable_all(s),
        ExprV::Exit(a) => lowerable(*a),
        ExprV::Declare(a, b) | ExprV::Assign(a, b) | ExprV::Add(a, b) | ExprV::Sub(a, b)
        | ExprV::Mul(a, b) | ExprV::Div(a, b) | ExprV::Mod(a, b) => lowerable(*a) && lowerable(*b),
        ExprV::If(c, body) => lowerable(*body) && match *c {
            ExprV::BoolLit(_) => true,
            ExprV::Equals(a, b) | ExprV::NotEquals(a, b) | ExprV::Less(a, b)
            | ExprV::LessEquals(a, b) | ExprV::Greater(a, b)
            | ExprV::GreaterEquals(a, b) => lowerable(*a) && lowerable(*b),
            _ => false,
        },
        _ => false,
    }
}

/// Every tree of the sequence can be lowered.
pub open spec fn lowerable_all(s: Seq<ExprV>) -> bool
    decreases s,
{
    if s.len() == 0 {
        true
    } else {
        lowerable_all(s.drop_last()) && lowerable(s.last())
    }
}

/// The number of nodes of a tree.
pub open spec fn size(e: ExprV) -> nat
    decreases e,
{
    match e {
        ExprV::Identifier(_) | ExprV::IntLit(_) | ExprV::BoolLit(_) => 1,
        ExprV::Sequence(s) => 1 + size_all(s),
        ExprV::Exit(a) => 1 + size(*a),
        ExprV::Declare(a, b) | ExprV::Assign(a, b) | ExprV::Add(a, b) | ExprV::Sub(a, b)
        | ExprV::Mul(a, b) | ExprV::Div(a, b) | ExprV::Mod(a, b) | ExprV::If(a, b)
        | ExprV::Equals(a, b) | ExprV::NotEquals(a, b) | ExprV::Less(a, b)
        | ExprV::LessEquals(a, b) | ExprV::Greater(a, b)
        | ExprV::GreaterEquals(a, b) => 1 + size(*a) + size(*b),
    }
}

/// The number of nodes of a sequence of trees.
pub open spec fn size_all(s: Seq<ExprV>) -> nat
    decreases s,
{
    if s.len() == 0 {
        0
    } else {
        size_all(s.drop_last()) + size(s.last())
    }
}

/// The instruction of an arithmetic node.
pub open spec fn arith(e: ExprV, a: Seq<char>, b: Seq<char>) -> IrV {
    match e {
        ExprV::Sub(..) => IrV::Sub(a, b),
        ExprV::Mul(..) => IrV::Mul(a, b),
        ExprV::Div(..) => IrV::Div(a, b),
        ExprV::Mod(..) => IrV::Mod(a, b),
        _ => IrV::Add(a, b),
    }
}

/// Code for a tree, given the numbers of temporaries and `if`s used so far: the operand
/// that holds its value, the instructions, and the new numbers.
pub open spec fn gen(e: ExprV, tmp: nat, ifs: nat) -> (Seq<char>, Seq<IrV>, nat, nat)
    decreases e,
{
    match e {
        ExprV::Exit(v) => {
            let (a, is, t, f) = gen(*v, tmp, ifs);
            (a, is.push(IrV::Exit(a)), t, f)
        },
        ExprV::Assign(d, s) | ExprV::Declare(d, s) => {
            let (a1, is1, t1, f1) = gen(*d, tmp, ifs);
            let (a2, is2, t2, f2) = gen(*s, t1, f1);
            (a1, (is1 + is2).push(IrV::Assign(a1, a2)), t2, f2)
        },
        ExprV::Add(d, s) | ExprV::Sub(d, s) | ExprV::Mul(d, s) | ExprV::Div(d, s) | ExprV::Mod(d, s) => {
            let (a1, is1, t1, f1) = gen(*d, tmp, ifs);
            let (a2, is2, t2, f2) = gen(*s, t1, f1);
            (a1, (is1 + is2).push(arith(e, a1, a2)), t2, f2)
        },
        ExprV::IntLit(n) => (temp_name(tmp + 1), seq![IrV::Assign(temp_name(tmp + 1), n)], tmp + 1, ifs),
        ExprV::BoolLit(b) => (
            temp_name(tmp + 1),
            seq![IrV::Assign(temp_name(tmp + 1), if b == "true"@ { "1"@ } else { "0"@ })],
            tmp + 1,
            ifs,
        ),
        ExprV::Identifier(id) => (id, seq![], tmp, ifs),
        ExprV::If(c, body) => match *c {
            ExprV::BoolLit(_) => {
                let (v, is1, t1, f1) = gen(*c, tmp, ifs);
                let n = f1 + 1;
                let (sv, is2, t2, f2) = gen(*body, t1, n);
                (
                    sv,
                    (is1.push(IrV::Jmp(v, "0"@, end_if_label(n), JmpType::Je)) + is2).push(
                        IrV::Label(end_if_label(n)),
                    ),
                    t2,
                    f2,
                )
            },
            ExprV::Equals(x, y) | ExprV::NotEquals(x, y) | ExprV::Less(x, y)
            | ExprV::LessEquals(x, y) | ExprV::Greater(x, y) | ExprV::GreaterEquals(x, y) => {
                let n = ifs + 1;
                let (v1, is1, t1, f1) = gen(*x, tmp, n);
                let (v2, is2, t2, f2) = gen(*y, t1, f1);
                let (sv, is3, t3, f3) = gen(*body, t2, f2);
                let j = spec_inverse_jump(comparison_jump(*c).unwrap());
                (
                    sv,
                    ((is1 + is2).push(IrV::Jmp(v1, v2, end_if_label(n), j)) + is3).push(
                        IrV::Label(end_if_label(n)),
                    ),
                    t3,
                    f3,
                )
            },
            _ => (seq![], seq![], tmp, ifs),
        },
        ExprV::Sequence(s) => {
            let (is, t, f) = gen_all(s, tmp, ifs);
            ("seq"@, is, t, f)
        },
        _ => (seq![], seq![], tmp, ifs),
    }
}

/// Code for a sequence of trees, one after the other.
pub open spec fn gen_all(s: Seq<ExprV>, tmp: nat, ifs: nat) -> (Seq<IrV>, nat, nat)
    decreases s,
{
    if s.len() == 0 {
        (seq![], tmp, ifs)
    } else {
        let (is1, t1, f1) = gen_all(s.drop_last(), tmp, ifs);
        let (_, is2, t2, f2) = gen(s.last(), t1, f1);
        (is1 + is2, t2, f2)
    }
}

} // verus!

verus! {

proof fn lemma_gen_counts(e: ExprV, tmp: nat, ifs: nat)
    ensures
        tmp <= gen(e, tmp, ifs).2 <= tmp + size(e),
        ifs <= gen(e, tmp, ifs).3 <= ifs + size(e),
    decreases e,
{
    match e {
        ExprV::Exit(v) => lemma_gen_counts(*v, tmp, ifs),
        ExprV::Assign(d, s) | ExprV::Declare(d, s) | ExprV::Add(d, s) | ExprV::Sub(d, s)
        | ExprV::Mul(d, s) | ExprV::Div(d, s) | ExprV::Mod(d, s) => {
            let (a1, is1, t1, f1) = gen(*d, tmp, ifs);
            lemma_gen_counts(*d, tmp, ifs);
            lemma_gen_counts(*s, t1, f1);
        },
        ExprV::If(c, body) => match *c {
            ExprV::BoolLit(_) => {
                let (v, is1, t1, f1) = gen(*c, tmp, ifs);
                lemma_gen_counts(*c, tmp, ifs);
                lemma_gen_counts(*body, t1, f1 + 1);
            },
            ExprV::Equals(x, y) | ExprV::NotEquals(x, y) | ExprV::Less(x, y)
            | ExprV::LessEquals(x, y) | ExprV::Greater(x, y) | ExprV::GreaterEquals(x, y) => {
                let n = ifs + 1;
                let (v1, is1, t1, f1) = gen(*x, tmp, n);
                let (v2, is2, t2, f2) = gen(*y, t1, f1);
                lemma_gen_counts(*x, tmp, n);
                lemma_gen_counts(*y, t1, f1);
                lemma_gen_counts(*body, t2, f2);
                assert(size(*c) == 1 + size(*x) + size(*y));
            },
            _ => {},
        },
        ExprV::Sequence(s) => lemma_gen_all_counts(s, tmp, ifs),
        _ => {},
    }
}

proof fn lemma_gen_all_counts(s: Seq<ExprV>, tmp: nat, ifs: nat)
    ensures
        tmp <= gen_all(s, tmp, ifs).1 <= tmp + size_all(s),
        ifs <= gen_all(s, tmp, ifs).2 <= ifs + size_all(s),
    decreases s,
{
    if s.len() > 0 {
        let (is1, t1, f1) = gen_all(s.drop_last(), tmp, ifs);
        lemma_gen_all_counts(s.drop_last(), tmp, ifs);
        lemma_gen_counts(s.last(), t1, f1);
    }
}

struct Nums {
    tmp: u32,
    ifs: u32,
}

fn temp(n: u32) -> (s: String)
    ensures
        s@ == temp_name(n as nat),
{
    let mut s = string_of("t");
    push_decimal(&mut s, n as u64);
    s
}

fn end_if(n: u32) -> (s: String)
    ensures
        s@ == end_if_label(n as nat),
{
    let mut s = string_of("end_if");
    push_decimal(&mut s, n as u64);
    s
}

fn get_operation(operation: &Expression, arg1: String, arg2: String) -> (r: Ir)
    ensures
        r@ == arith(operation@, arg1@, arg2@),
{
    match operation {
        Expression::Sub(..) => Ir::Sub(arg1, arg2),
        Expression::Mul(..) => Ir::Mul(arg1, arg2),
        Expression::Div(..) => Ir::Div(arg1, arg2),
        Expression::Mod(..) => Ir::Mod(arg1, arg2),
        _ => Ir::Add(arg1, arg2),
    }
}

fn get_value(expr: &Expression, tmp_vec: &mut Vec<Ir>, nums: &mut Nums) -> (r: String)
    requires
        lowerable(expr@),
        old(nums).tmp + size(expr@) <= u32::MAX,
        old(nums).ifs + size(expr@) <= u32::MAX,
    ensures
        ({
            let (v, is, t, f) = gen(expr@, old(nums).tmp as nat, old(nums).ifs as nat);
            &&& r@ == v
            &&& irs_view(final(tmp_vec)@) == irs_view(old(tmp_vec)@) + is
            &&& final(nums).tmp == t
            &&& final(nums).ifs == f
        }),
    decreases expr, 1nat,
{
    proof {
        lemma_gen_counts(expr@, nums.tmp as nat, nums.ifs as nat);
    }
    let ghost v0 = irs_view(tmp_vec@);
    match expr {
        Expression::Exit(val) => {
            let arg = get_value(val, tmp_vec, nums);
            let a2 = arg.clone();
            let ghost mid = tmp_vec@;
            let ghost g1 = gen(val@, old(nums).tmp as nat, old(nums).ifs as nat);
            tmp_vec.push(Ir::Exit(a2));
            proof {
                lemma_push_view(mid, tmp_vec@.last());
                assert(tmp_vec@ =~= mid.push(tmp_vec@.last()));
                assert((irs_view(old(tmp_vec)@) + g1.1).push(IrV::Exit(g1.0)) =~= irs_view(old(tmp_vec)@) + g1.1.push(IrV::Exit(g1.0)));
            }
            assert(irs_view(tmp_vec@) =~= irs_view(old(tmp_vec)@) + gen(expr@, old(nums).tmp as nat, old(nums).ifs as nat).1);
            arg
        },
        Expression::Assign(dest, src) | Expression::Declare(dest, src) => {
            proof {
                lemma_gen_counts(dest@, nums.tmp as nat, nums.ifs as nat);
            }
            let arg1 = get_value(dest, tmp_vec, nums);
            let arg2 = get_value(src, tmp_vec, nums);
            let a1 = arg1.clone();
            let ghost mid = tmp_vec@;
            tmp_vec.push(Ir::Assign(a1, arg2));
            proof {
                lemma_push_view(mid, tmp_vec@.last());
                assert(tmp_vec@ =~= mid.push(tmp_vec@.last()));
            }
            assert(irs_view(tmp_vec@) =~= irs_view(old(tmp_vec)@) + gen(expr@, old(nums).tmp as nat, old(nums).ifs as nat).1);
            arg1
        },
        Expression::Add(dest, src) | Expression::Sub(dest, src) | Expression::Mul(dest, src)
        | Expression::Div(dest, src) | Expression::Mod(dest, src) => {
            proof {
                lemma_gen_counts(dest@, nums.tmp as nat, nums.ifs as nat);
            }
            let arg1 = get_value(dest, tmp_vec, nums);
            let arg2 = get_value(src, tmp_vec, nums);
            let a1 = arg1.clone();
            let ghost mid = tmp_vec@;
            tmp_vec.push(get_operation(expr, a1, arg2));
            proof {
                lemma_push_view(mid, tmp_vec@.last());
                assert(tmp_vec@ =~= mid.push(tmp_vec@.last()));
            }
            assert(irs_view(tmp_vec@) =~= irs_view(old(tmp_vec)@) + gen(expr@, old(nums).tmp as nat, old(nums).ifs as nat).1);
            arg1
        },
        Expression::IntLit(literal) => {
            nums.tmp = nums.tmp + 1;
            tmp_vec.push(Ir::Assign(temp(nums.tmp), literal.clone()));
            assert(irs_view(tmp_vec@) =~= irs_view(old(tmp_vec)@) + gen(expr@, old(nums).tmp as nat, old(nums).ifs as nat).1);
            temp(nums.tmp)
        },
        Expression::BoolLit(b) => {
            nums.tmp = nums.tmp + 1;
            let value = if crate::text::str_eq(b.as_str(), "true") {
                string_of("1")
            } else {
                string_of("0")
            };
            tmp_vec.push(Ir::Assign(temp(nums.tmp), value));
            assert(irs_view(tmp_vec@) =~= irs_view(old(tmp_vec)@) + gen(expr@, old(nums).tmp as nat, old(nums).ifs as nat).1);
            temp(nums.tmp)
        },
        Expression::Identifier(id) => {
            assert(irs_view(tmp_vec@) =~= irs_view(old(tmp_vec)@) + gen(expr@, old(nums).tmp as nat, old(nums).ifs as nat).1);
            id.clone()
        },
        Expression::If(..) => get_if(expr, tmp_vec, nums),
        Expression::Sequence(..) => get_sequence(expr, tmp_vec, nums),
        _ => {
            assert(false);
            String::new()
        },
    }
}


fn get_if(expr: &Expression, tmp_vec: &mut Vec<Ir>, nums: &mut Nums) -> (r: String)
    requires
        expr@ is If,
        lowerable(expr@),
        old(nums).tmp + size(expr@) <= u32::MAX,
        old(nums).ifs + size(expr@) <= u32::MAX,
    ensures
        ({
            let (v, is, t, f) = gen(expr@, old(nums).tmp as nat, old(nums).ifs as nat);
            &&& r@ == v
            &&& irs_view(final(tmp_vec)@) == irs_view(old(tmp_vec)@) + is
            &&& final(nums).tmp == t
            &&& final(nums).ifs == f
        }),
    decreases expr, 0nat,
{
    let ghost all = gen(expr@, old(nums).tmp as nat, old(nums).ifs as nat);
    match expr {
        Expression::If(cond, seq) => {
            proof {
                lemma_gen_counts(cond@, nums.tmp as nat, nums.ifs as nat);
            }
            match &**cond {
                Expression::BoolLit(_) => {
                    let value = get_value(cond, tmp_vec, nums);
                    proof {
                        lemma_gen_counts(seq@, nums.tmp as nat, nums.ifs as nat + 1);
                    }
                    nums.ifs = nums.ifs + 1;
                    let current_ifs = nums.ifs;
                    let ghost s1 = tmp_vec@;
                    tmp_vec.push(Ir::Jmp(value, string_of("0"), end_if(current_ifs), JmpType::Je));
                    let ghost s2 = tmp_vec@;
                    proof {
                        lemma_push_view(s1, s2.last());
                        assert(s2 =~= s1.push(s2.last()));
                    }
                    let seq_value = get_value(seq, tmp_vec, nums);
                    let ghost s3 = tmp_vec@;
                    tmp_vec.push(Ir::Label(end_if(current_ifs)));
                    proof {
                        lemma_push_view(s3, tmp_vec@.last());
                        assert(tmp_vec@ =~= s3.push(tmp_vec@.last()));
                    }
                    assert(irs_view(tmp_vec@) =~= irs_view(old(tmp_vec)@) + all.1);
                    seq_value
                },
                Expression::Equals(lhs, rhs) | Expression::NotEquals(lhs, rhs)
                | Expression::Less(lhs, rhs) | Expression::LessEquals(lhs, rhs)
                | Expression::Greater(lhs, rhs) | Expression::GreaterEquals(lhs, rhs) => {
                    let jmp = match &**cond {
                        Expression::Equals(..) => JmpType::Je,
                        Expression::NotEquals(..) => JmpType::Jne,
                        Expression::Less(..) => JmpType::Jl,
                        Expression::LessEquals(..) => JmpType::Jle,
                        Expression::Greater(..) => JmpType::Jg,
                        _ => JmpType::Jge,
                    };
                    assert(jmp == comparison_jump(cond@).unwrap());
                    proof {
                        lemma_gen_counts(lhs@, nums.tmp as nat, nums.ifs as nat + 1);
                    }
                    nums.ifs = nums.ifs + 1;
                    let current_ifs = nums.ifs;
                    let lhs_value = get_value(lhs, tmp_vec, nums);
                    proof {
                        lemma_gen_counts(rhs@, nums.tmp as nat, nums.ifs as nat);
                    }
                    let rhs_value = get_value(rhs, tmp_vec, nums);
                    proof {
                        lemma_gen_counts(seq@, nums.tmp as nat, nums.ifs as nat);
                    }
                    let ghost s1 = tmp_vec@;
                    tmp_vec.push(Ir::Jmp(lhs_value, rhs_value, end_if(current_ifs), get_inverse_jump(jmp)));
                    let ghost s2 = tmp_vec@;
                    proof {
                        lemma_push_view(s1, s2.last());
                        assert(s2 =~= s1.push(s2.last()));
                    }
                    let seq_value = get_value(seq, tmp_vec, nums);
                    let ghost s3 = tmp_vec@;
                    tmp_vec.push(Ir::Label(end_if(current_ifs)));
                    proof {
                        lemma_push_view(s3, tmp_vec@.last());
                        assert(tmp_vec@ =~= s3.push(tmp_vec@.last()));
                    }
                    assert(irs_view(tmp_vec@) =~= irs_view(old(tmp_vec)@) + all.1);
                    seq_value
                },
                _ => {
                    assert(false);
                    String::new()
                },
            }
        },
        _ => {
            assert(false);
            String::new()
        },
    }
}

fn get_sequence(expr: &Expression, tmp_vec: &mut Vec<Ir>, nums: &mut Nums) -> (r: String)
    requires
        expr@ is Sequence,
        lowerable(expr@),
        old(nums).tmp + size(expr@) <= u32::MAX,
        old(nums).ifs + size(expr@) <= u32::MAX,
    ensures
        ({
            let (v, is, t, f) = gen(expr@, old(nums).tmp as nat, old(nums).ifs as nat);
            &&& r@ == v
            &&& irs_view(final(tmp_vec)@) == irs_view(old(tmp_vec)@) + is
            &&& final(nums).tmp == t
            &&& final(nums).ifs == f
        }),
    decreases expr, 0nat,
{
    match expr {
        Expression::Sequence(seq) => {
            let ghost sv = exprs_view(seq@);
            let ghost t0 = nums.tmp as nat;
            let ghost f0 = nums.ifs as nat;
            proof {
                lemma_exprs_view_index(seq@);
                lemma_gen_all_counts(sv, t0, f0);
            }
            let mut k: usize = 0;
            while k < seq.len()
                invariant
                    expr is Sequence,
                    expr->Sequence_0 == *seq,
                    sv == exprs_view(seq@),
                    sv.len() == seq@.len(),
                    forall|j: int| 0 <= j < seq@.len() ==> #[trigger] sv[j] == seq@[j]@,
                    lowerable_all(sv),
                    t0 + size_all(sv) <= u32::MAX,
                    f0 + size_all(sv) <= u32::MAX,
                    0 <= k <= seq.len(),
                    ({
                        let (is, t, f) = gen_all(sv.take(k as int), t0, f0);
                        &&& irs_view(tmp_vec@) == irs_view(old(tmp_vec)@) + is
                        &&& nums.tmp == t
                        &&& nums.ifs == f
                    }),
                decreases seq.len() - k,
            {
                let ghost pre = sv.take(k as int);
                let ghost pre1 = sv.take(k as int + 1);
                proof {
                    assert(pre1.drop_last() =~= pre);
                    assert(pre1.last() == seq@[k as int]@);
                    lemma_lowerable_prefix(sv, k as int + 1);
                    lemma_size_prefix(sv, k as int + 1);
                    lemma_gen_all_counts(pre, t0, f0);
                }
                proof {
                    assert(decreases_to!(*expr => expr->Sequence_0));
                    assert(decreases_to!(*seq => seq@));
                    assert(decreases_to!(seq@ => seq@[k as int]));
                }
                get_value(&seq[k], tmp_vec, nums);
                k = k + 1;
            }
            proof {
                assert(sv.take(k as int) =~= sv);
            }
            string_of("seq")
        },
        _ => {
            assert(false);
            String::new()
        },
    }
}

proof fn lemma_exprs_view_index(s: Seq<Expression>)
    ensures
        exprs_view(s).len() == s.len(),
        forall|k: int| 0 <= k < s.len() ==> #[trigger] exprs_view(s)[k] == s[k]@,
    decreases s.len(),
{
    if s.len() > 0 {
        lemma_exprs_view_index(s.subrange(1, s.len() as int));
    }
}

proof fn lemma_lowerable_prefix(s: Seq<ExprV>, k: int)
    requires
        0 < k <= s.len(),
        lowerable_all(s),
    ensures
        lowerable_all(s.take(k - 1)),
        lowerable(s[k - 1]),
    decreases s.len(),
{
    if k < s.len() {
        lemma_lowerable_prefix(s.drop_last(), k);
        assert(s.drop_last().take(k - 1) =~= s.take(k - 1));
    } else {
        assert(s.drop_last() =~= s.take(k - 1));
    }
}

proof fn lemma_size_prefix(s: Seq<ExprV>, k: int)
    requires
        0 < k <= s.len(),
    ensures
        size_all(s.take(k - 1)) + size(s[k - 1]) <= size_all(s),
    decreases s.len(),
{
    if k < s.len() {
        lemma_size_prefix(s.drop_last(), k);
        assert(s.drop_last().take(k - 1) =~= s.take(k - 1));
    } else {
        assert(s.drop_last() =~= s.take(k - 1));
    }
}


proof fn lemma_push_view(s: Seq<Ir>, x: Ir)
    ensures
        irs_view(s.push(x)) == irs_view(s).push(x@),
{
    assert(irs_view(s.push(x)) =~= irs_view(s).push(x@));
}


/// Three-address code for a program: the trees one after the other.
pub fn generate_ir(ast: Vec<Expression>) -> (r: Vec<Ir>)
    requires
        lowerable_all(exprs_view(ast@)),
        size_all(exprs_view(ast@)) < u32::MAX,
    ensures
        irs_view(r@) == gen_all(exprs_view(ast@), 0, 0).0,
{
    let program = Expression::Sequence(ast);
    let mut inter_repr: Vec<Ir> = Vec::new();
    let mut nums = Nums { tmp: 0, ifs: 0 };
    assert(irs_view(inter_repr@) =~= seq![]);
    get_value(&program, &mut inter_repr, &mut nums);
    inter_repr
}

} // verus!

verus! {

/// Whether a jump is taken after comparing `a` with `b`.
pub open spec fn jump_taken(j: JmpType, a: int, b: int) -> bool {
    match j {
        JmpType::Jmp => true,
        JmpType::Je => a == b,
        JmpType::Jne => a != b,
        JmpType::Jl => a < b,
        JmpType::Jle => a <= b,
        JmpType::Jg => a > b,
        JmpType::Jge => a >= b,
    }
}

/// What a comparison node tests of its operands' values `a` and `b`; `None` for a node of
/// another kind.
pub open spec fn compares(e: ExprV, a: int, b: int) -> Option<bool> {
    match e {
        ExprV::Equals(..) => Some(a == b),
        ExprV::NotEquals(..) => Some(a != b),
        ExprV::Less(..) => Some(a < b),
        ExprV::LessEquals(..) => Some(a <= b),
        ExprV::Greater(..) => Some(a > b),
        ExprV::GreaterEquals(..) => Some(a >= b),
        _ => None,
    }
}

/// The inverse of a conditional jump is taken exactly when the jump is not, for all
/// integers.
pub proof fn lemma_inverse_jump_negates(j: JmpType, a: int, b: int)
    requires
        j != JmpType::Jmp,
    ensures
        jump_taken(spec_inverse_jump(j), a, b) == !jump_taken(j, a, b),
{
}

/// The jump that stands for a comparison node is taken exactly when the comparison holds,
/// for all integers; only comparison nodes have one.
pub proof fn lemma_comparison_jump_means(e: ExprV, a: int, b: int)
    ensures
        comparison_jump(e) is Some <==> compares(e, a, b) is Some,
        comparison_jump(e) matches Some(j) ==> compares(e, a, b) == Some(jump_taken(j, a, b)),
{
}

} // verus!

verus! {

/// What an arithmetic node computes on its operands' values `x` and `y`, for a
/// non-negative `x` and a positive `y` where it divides; `None` for a node of another kind.
pub open spec fn node_value(e: ExprV, x: int, y: int) -> Option<int> {
    match e {
        ExprV::Add(..) => Some(x + y),
        ExprV::Sub(..) => Some(x - y),
        ExprV::Mul(..) => Some(x * y),
        ExprV::Div(..) => if x >= 0 && y > 0 { Some(x / y) } else { None },
        ExprV::Mod(..) => if x >= 0 && y > 0 { Some(x % y) } else { None },
        _ => None,
    }
}

/// What an arithmetic instruction leaves in its first operand, from the values `x` of the
/// first and `y` of the second, as `node_value` restricts them.
pub open spec fn instr_value(i: IrV, x: int, y: int) -> Option<int> {
    match i {
        IrV::Add(..) => Some(x + y),
        IrV::Sub(..) => Some(x - y),
        IrV::Mul(..) => Some(x * y),
        IrV::Div(..) => if x >= 0 && y > 0 { Some(x / y) } else { None },
        IrV::Mod(..) => if x >= 0 && y > 0 { Some(x % y) } else { None },
        _ => None,
    }
}

/// The instruction emitted for an arithmetic node computes what the node does, on its two
/// operands in order, for all values.
pub proof fn lemma_arith_keeps_meaning(e: ExprV, a: Seq<char>, b: Seq<char>, x: int, y: int)
    requires
        e is Add || e is Sub || e is Mul || e is Div || e is Mod,
    ensures
        instr_value(arith(e, a, b), x, y) == node_value(e, x, y),
        arith(e, a, b) matches IrV::Add(a1, b1) ==> a1 == a && b1 == b,
        arith(e, a, b) matches IrV::Sub(a1, b1) ==> a1 == a && b1 == b,
        arith(e, a, b) matches IrV::Mul(a1, b1) ==> a1 == a && b1 == b,
        arith(e, a, b) matches IrV::Div(a1, b1) ==> a1 == a && b1 == b,
        arith(e, a, b) matches IrV::Mod(a1, b1) ==> a1 == a && b1 == b,
{
}

} // verus!
