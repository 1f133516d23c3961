//! Peephole passes over the three-address code: self-assignments go, and constants are
//! propagated into the instructions that read them.
use vstd::prelude::*;
use crate::yora_compiler::ir_gen::{Ir, IrV, Op, irs_view};
use crate::text::{str_eq, i64_literal_value, parse_i64};

verus! {

/// An assignment of an operand to itself.
pub open spec fn is_self_assign(i: IrV) -> bool {
    match i {
        IrV::Op { dest, src, op } => op == Op::Assign && dest == src,
        _ => false,
    }
}

/// The instructions without the self-assignments, in order.
pub open spec fn without_self_assigns(s: Seq<IrV>) -> Seq<IrV>
    decreases s.len(),
{
    if s.len() == 0 {
        seq![]
    } else {
        let r = without_self_assigns(s.drop_last());
        if is_self_assign(s.last()) {
            r
        } else {
            r.push(s.last())
        }
    }
}

/// An assignment of an integer constant: the operand it sets and the constant.
pub open spec fn constant_assign(i: IrV) -> Option<(Seq<char>, Seq<char>)> {
    match i {
        IrV::Op { dest, src, op } => if op == Op::Assign && i64_literal_value(src) is Some {
            Some((dest, src))
        } else {
            None
        },
        _ => None,
    }
}

/// The instruction with `constant` in place of `source` where it is read as the source of
/// an operation that can take an immediate, of an exit, or of a conditional jump.
pub open spec fn replace_one(i: IrV, source: Seq<char>, constant: Seq<char>) -> IrV {
    match i {
        IrV::Op { dest, src, op } => if src == source && !(op == Op::Mul || op == Op::Div
            || op == Op::Mod) {
            IrV::Op { dest, src: constant, op }
        } else {
            i
        },
        IrV::Exit { src } => if src == source {
            IrV::Exit { src: constant }
        } else {
            i
        },
        IrV::JmpCond { src, label } => if src == source {
            IrV::JmpCond { src: constant, label }
        } else {
            i
        },
        _ => i,
    }
}

/// A multiplication, division or remainder that reads `source`: the assignment of
/// `source` must then stay.
pub open spec fn keeps_assign(i: IrV, source: Seq<char>) -> bool {
    match i {
        IrV::Op { dest, src, op } => (op == Op::Mul || op == Op::Div || op == Op::Mod) && (src
            == source || dest == source),
        _ => false,
    }
}

/// Every instruction with the constant in place of the operand.
pub open spec fn replace_all(s: Seq<IrV>, source: Seq<char>, constant: Seq<char>) -> Seq<IrV> {
    Seq::new(s.len(), |k: int| replace_one(s[k], source, constant))
}

/// Some instruction keeps the assignment of `source`.
pub open spec fn needed(s: Seq<IrV>, source: Seq<char>) -> bool {
    exists|k: int| 0 <= k < s.len() && keeps_assign(#[trigger] s[k], source)
}

/// The code after the first `k` instructions of `ir` were looked at, with the number
/// of instructions removed so far: each constant assignment is propagated into the
/// whole code, and removed unless some multiplication, division or remainder reads it.
pub open spec fn propagate(ir: Seq<IrV>, k: nat) -> (Seq<IrV>, nat)
    decreases k,
{
    if k == 0 {
        (ir, 0)
    } else {
        let (cur, n) = propagate(ir, (k - 1) as nat);
        match constant_assign(ir[k - 1]) {
            Some((dest, src)) => {
                let replaced = replace_all(cur, dest, src);
                if needed(cur, dest) {
                    (replaced, n)
                } else {
                    (replaced.remove(k - 1 - n), n + 1)
                }
            },
            None => (cur, n),
        }
    }
}

/// The result of constant propagation over the whole code.
pub open spec fn propagated(ir: Seq<IrV>) -> Seq<IrV> {
    propagate(ir, ir.len()).0
}

proof fn lemma_propagate_len(ir: Seq<IrV>, k: nat)
    requires
        k <= ir.len(),
    ensures
        propagate(ir, k).1 <= k,
        propagate(ir, k).0.len() == ir.len() - propagate(ir, k).1,
    decreases k,
{
    if k > 0 {
        lemma_propagate_len(ir, (k - 1) as nat);
    }
}

fn copy_ir(i: &Ir) -> (r: Ir)
    ensures
        r@ == i@,
{
    match i {
        Ir::Op { dest, src, op } => Ir::Op { dest: dest.clone(), src: src.clone(), op: *op },
        Ir::Exit { src } => Ir::Exit { src: src.clone() },
        Ir::SetFlag { dest, cond } => Ir::SetFlag { dest: dest.clone(), cond: *cond },
        Ir::Label(l) => Ir::Label(l.clone()),
        Ir::Jmp { label } => Ir::Jmp { label: label.clone() },
        Ir::JmpCond { src, label } => Ir::JmpCond { src: src.clone(), label: label.clone() },
    }
}

fn is_self_assign_exec(i: &Ir) -> (r: bool)
    ensures
        r == is_self_assign(i@),
{
    match i {
        Ir::Op { dest, src, op } => match op {
            Op::Assign => str_eq(dest.as_str(), src.as_str()),
            _ => false,
        },
        _ => false,
    }
}

/// The code without the assignments of an operand to itself; all else stays, in order.
pub fn remove_self_assign(ir: Vec<Ir>) -> (r: Vec<Ir>)
    ensures
        irs_view(r@) == without_self_assigns(irs_view(ir@)),
{
    let ghost s = irs_view(ir@);
    let mut new_ir: Vec<Ir> = Vec::new();
    let mut i: usize = 0;
    while i < ir.len()
        invariant
            s == irs_view(ir@),
            0 <= i <= ir.len(),
            irs_view(new_ir@) == without_self_assigns(s.take(i as int)),
        decreases ir.len() - i,
    {
        let ghost before = new_ir@;
        assert(s.take(i as int + 1).drop_last() =~= s.take(i as int));
        if !is_self_assign_exec(&ir[i]) {
            new_ir.push(copy_ir(&ir[i]));
            assert(irs_view(new_ir@) =~= irs_view(before).push(ir@[i as int]@));
        }
        i += 1;
    }
    assert(s.take(i as int) =~= s);
    new_ir
}

fn replace_with_constants(ir: &mut Vec<Ir>, source: &String, constant: &String) -> (r: bool)
    ensures
        irs_view(final(ir)@) == replace_all(irs_view(old(ir)@), source@, constant@),
        r == needed(irs_view(old(ir)@), source@),
{
    let ghost s = irs_view(ir@);
    let mut result = false;
    let mut k: usize = 0;
    while k < ir.len()
        invariant
            s == irs_view(old(ir)@),
            ir@.len() == s.len(),
            0 <= k <= ir.len(),
            forall|j: int| 0 <= j < k ==> #[trigger] ir@[j]@ == replace_one(s[j], source@, constant@),
            forall|j: int| k <= j < s.len() ==> #[trigger] ir@[j]@ == s[j],
            result == exists|j: int| 0 <= j < k && keeps_assign(#[trigger] s[j], source@),
        decreases ir.len() - k,
    {
        assert(ir@[k as int]@ == s[k as int]);
        let replacement: Option<Ir> = match &ir[k] {
            Ir::Op { dest, src, op } => match op {
                Op::Mul | Op::Div | Op::Mod => {
                    if str_eq(src.as_str(), source.as_str()) || str_eq(dest.as_str(), source.as_str()) {
                        result = true;
                    }
                    None
                },
                _ => {
                    if str_eq(src.as_str(), source.as_str()) {
                        Some(Ir::Op { dest: dest.clone(), src: constant.clone(), op: *op })
                    } else {
                        None
                    }
                },
            },
            Ir::Exit { src } => {
                if str_eq(src.as_str(), source.as_str()) {
                    Some(Ir::Exit { src: constant.clone() })
                } else {
                    None
                }
            },
            Ir::JmpCond { src, label } => {
                if str_eq(src.as_str(), source.as_str()) {
                    Some(Ir::JmpCond { src: constant.clone(), label: label.clone() })
                } else {
                    None
                }
            },
            _ => None,
        };
        match replacement {
            Some(instruction) => {
                ir.set(k, instruction);
            },
            None => {},
        }
        assert(ir@[k as int]@ == replace_one(s[k as int], source@, constant@));
        k += 1;
    }
    assert(irs_view(ir@) =~= replace_all(s, source@, constant@));
    result
}

fn constant_of(i: &Ir) -> (r: Option<(String, String)>)
    ensures
        match r {
            Some((d, c)) => constant_assign(i@) == Some((d@, c@)),
            None => constant_assign(i@) is None,
        },
{
    match i {
        Ir::Op { dest, src, op } => match op {
            Op::Assign => match parse_i64(src.as_str()) {
                Some(_) => Some((dest.clone(), src.clone())),
                None => None,
            },
            _ => None,
        },
        _ => None,
    }
}

/// Propagates each constant assignment, in order, into every instruction that reads its
/// operand where an immediate can stand, and removes the assignment unless a
/// multiplication, division or remainder reads or writes the operand.
pub fn constant_propagation(ir: Vec<Ir>) -> (r: Vec<Ir>)
    ensures
        irs_view(r@) == propagated(irs_view(ir@)),
{
    let ghost s = irs_view(ir@);
    let mut new_ir: Vec<Ir> = Vec::new();
    let mut j: usize = 0;
    while j < ir.len()
        invariant
            s == irs_view(ir@),
            0 <= j <= ir.len(),
            irs_view(new_ir@) == s.take(j as int),
        decreases ir.len() - j,
    {
        let ghost before = new_ir@;
        assert(s[j as int] == ir@[j as int]@);
        new_ir.push(copy_ir(&ir[j]));
        assert(irs_view(new_ir@) =~= irs_view(before).push(new_ir@[j as int]@));
        assert(irs_view(new_ir@) =~= s.take(j as int + 1));
        j += 1;
    }
    assert(s.take(j as int) =~= s);
    let mut num_removed: usize = 0;
    let mut i: usize = 0;
    while i < ir.len()
        invariant
            s == irs_view(ir@),
            s.len() == ir@.len(),
            0 <= i <= ir.len(),
            irs_view(new_ir@) == propagate(s, i as nat).0,
            num_removed == propagate(s, i as nat).1,
        decreases ir.len() - i,
    {
        proof {
            lemma_propagate_len(s, i as nat);
        }
        assert(s[i as int] == ir@[i as int]@);
        match constant_of(&ir[i]) {
            Some((dest, src)) => {
                let ghost cur = irs_view(new_ir@);
                assert(cur.len() == new_ir@.len());
                let needed = replace_with_constants(&mut new_ir, &dest, &src);
                assert(irs_view(new_ir@).len() == cur.len());
                assert(new_ir@.len() == cur.len());
                assert(num_removed <= i);
                if !needed {
                    let ghost before = new_ir@;
                    new_ir.remove(i - num_removed);
                    assert(irs_view(new_ir@) =~= irs_view(before).remove(i - num_removed));
                    num_removed += 1;
                }
            },
            None => {},
        }
        i += 1;
    }
    new_ir
}

/// Removes self-assignments, then propagates constants.
pub fn optimize(ir: Vec<Ir>) -> (r: Vec<Ir>)
    ensures
        irs_view(r@) == propagated(without_self_assigns(irs_view(ir@))),
{
    let optimized_ir = remove_self_assign(ir);
    constant_propagation(optimized_ir)
}

/// The instructions that remain after self-assignments are removed are none of them
/// self-assignments.
pub proof fn lemma_no_self_assign_left(s: Seq<IrV>)
    ensures
        forall|k: int| 0 <= k < without_self_assigns(s).len() ==> !is_self_assign(
            #[trigger] without_self_assigns(s)[k],
        ),
    decreases s.len(),
{
    if s.len() > 0 {
        lemma_no_self_assign_left(s.drop_last());
        let r = without_self_assigns(s.drop_last());
        if !is_self_assign(s.last()) {
            assert forall|k: int| 0 <= k < r.push(s.last()).len() implies !is_self_assign(
                #[trigger] r.push(s.last())[k],
            ) by {
                if k < r.len() {
                    assert(r.push(s.last())[k] == r[k]);
                }
            }
        }
    }
}

/// Removing self-assignments a second time changes nothing.
pub proof fn lemma_remove_self_assign_idempotent(s: Seq<IrV>)
    ensures
        without_self_assigns(without_self_assigns(s)) == without_self_assigns(s),
{
    lemma_no_self_assign_left(s);
    lemma_filter_none(without_self_assigns(s));
}

proof fn lemma_filter_none(s: Seq<IrV>)
    requires
        forall|k: int| 0 <= k < s.len() ==> !is_self_assign(#[trigger] s[k]),
    ensures
        without_self_assigns(s) == s,
    decreases s.len(),
{
    if s.len() > 0 {
        assert(!is_self_assign(s[s.len() - 1]));
        lemma_filter_none(s.drop_last());
        assert(s.drop_last().push(s.last()) =~= s);
    }
}

} // verus!
