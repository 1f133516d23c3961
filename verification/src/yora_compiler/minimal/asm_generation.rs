//! x86-64 assembly (NASM syntax) for the three-address code of the minimal dialect.
use vstd::prelude::*;
use super::ir_generation::{Ir, IrV, JmpType, irs_view, jump_taken};
use crate::symbols::{SymbolTable, lookup};
use crate::text::{contains_char, decimal, push_decimal, string_of};
use crate::compiler::asm_gen::x86_update;

verus! {

/// The registers handed out to names, in order.
pub open spec fn registers() -> Seq<Seq<char>> {
    seq!["rbx"@, "r10"@, "r11"@, "r12"@, "r13"@, "r14"@, "r15"@]
}

/// The location of an operand: the register or stack slot bound to it, or the operand
/// itself (a constant or a name never bound).
pub open spec fn location(t: Seq<(Seq<char>, Seq<char>)>, v: Seq<char>) -> Seq<char> {
    match lookup(t, v) {
        Some(r) => r,
        None => v,
    }
}

/// Gives `dest` a location if it has none: the next free register, and once the seven
/// are taken a new 8-byte stack slot.
pub open spec fn with_location(t: Seq<(Seq<char>, Seq<char>)>, code: Seq<char>, dest: Seq<char>) -> (
    Seq<(Seq<char>, Seq<char>)>,
    Seq<char>,
) {
    if lookup(t, dest) is Some {
        (t, code)
    } else if t.len() < 7 {
        (t.push((dest, registers()[t.len() as int])), code)
    } else {
        (
            t.push((dest, "qword [rbp-"@ + decimal(((t.len() - 7) * 8) as nat) + "]"@)),
            code + "\tsub rsp, 8\n"@,
        )
    }
}

/// A two-operand instruction; when both operands are in memory the source passes
/// through `rax`.
pub open spec fn two_operand(op: Seq<char>, src: Seq<char>, dest: Seq<char>) -> Seq<char> {
    if src.contains('[') && dest.contains('[') {
        "\tpush rax\n\tmov rax, "@ + src + "\n\t"@ + op + " "@ + dest + ", rax\n\tpop rax\n"@
    } else {
        "\t"@ + op + " "@ + dest + ", "@ + src + "\n"@
    }
}

/// The mnemonic of a jump.
pub open spec fn jump_mnemonic(j: JmpType) -> Seq<char> {
    match j {
        JmpType::Jmp => "jmp"@,
        JmpType::Je => "je"@,
        JmpType::Jne => "jne"@,
        JmpType::Jl => "jl"@,
        JmpType::Jle => "jle"@,
        JmpType::Jg => "jg"@,
        JmpType::Jge => "jge"@,
    }
}

/// `mul` or `div` of the first operand by the second, through `rax`; the result is
/// taken from `result`.
pub open spec fn through_rax(op: Seq<char>, a: Seq<char>, b: Seq<char>, result: Seq<char>) -> Seq<char> {
    "\tmov rax, "@ + a + "\n\t"@ + op + " "@ + b + "\n\tmov "@ + a + ", "@ + result + "\n"@
}

/// The table and text after one instruction.
pub open spec fn step(t: Seq<(Seq<char>, Seq<char>)>, code: Seq<char>, i: IrV) -> (
    Seq<(Seq<char>, Seq<char>)>,
    Seq<char>,
) {
    match i {
        IrV::Assign(d, s) => {
            let (t1, a1) = with_location(t, code, d);
            (t1, a1 + two_operand("mov"@, location(t1, s), location(t1, d)))
        },
        IrV::Add(a, b) => (t, code + two_operand("add"@, location(t, b), location(t, a))),
        IrV::Sub(a, b) => (t, code + two_operand("sub"@, location(t, b), location(t, a))),
        IrV::Mul(a, b) => (t, code + through_rax("mul"@, location(t, a), location(t, b), "rax"@)),
        IrV::Div(a, b) => (t, code + through_rax("div"@, location(t, a), location(t, b), "rax"@)),
        IrV::Mod(a, b) => (t, code + through_rax("div"@, location(t, a), location(t, b), "rdx"@)),
        IrV::Exit(a) => (t, code + "\n\tmov rdi, "@ + location(t, a) + "\n\tmov rax, 60\n\tsyscall\n"@),
        IrV::Label(l) => (t, code + l + ":\n"@),
        IrV::Jmp(a, b, l, j) => if j == JmpType::Jmp {
            (t, code + "\tjmp "@ + l + "\n"@)
        } else {
            (
                t,
                code + "\tcmp "@ + location(t, a) + ", "@ + location(t, b) + "\n\t"@ + jump_mnemonic(j)
                    + " "@ + l + "\n"@,
            )
        },
    }
}

/// The table and text after a sequence of instructions.
pub open spec fn assemble(is: Seq<IrV>) -> (Seq<(Seq<char>, Seq<char>)>, Seq<char>)
    decreases is.len(),
{
    if is.len() == 0 {
        (seq![], "global _start\n_start:\n\tmov rbp, rsp\n"@)
    } else {
        let (t, a) = assemble(is.drop_last());
        step(t, a, is.last())
    }
}

fn register(n: usize) -> (r: &'static str)
    requires
        n < 7,
    ensures
        r@ == registers()[n as int],
{
    if n == 0 {
        "rbx"
    } else if n == 1 {
        "r10"
    } else if n == 2 {
        "r11"
    } else if n == 3 {
        "r12"
    } else if n == 4 {
        "r13"
    } else if n == 5 {
        "r14"
    } else {
        "r15"
    }
}

fn get_value(value: &String, symbol_table: &SymbolTable) -> (r: String)
    ensures
        r@ == location(symbol_table@, value@),
{
    match symbol_table.get(value.as_str()) {
        Some(loc) => loc,
        None => value.clone(),
    }
}

fn insert_reg(dest: &String, symbol_table: &mut SymbolTable, code: &mut String)
    requires
        lookup(old(symbol_table)@, dest@) is None,
        old(symbol_table)@.len() < usize::MAX / 16,
    ensures
        (final(symbol_table)@, final(code)@) == with_location(old(symbol_table)@, old(code)@, dest@),
{
    let num_regs = symbol_table.len();
    if num_regs < 7 {
        symbol_table.insert(dest.clone(), string_of(register(num_regs)));
    } else {
        code.append("\tsub rsp, 8\n");
        let mut slot = string_of("qword [rbp-");
        push_decimal(&mut slot, ((num_regs - 7) * 8) as u64);
        slot.append("]");
        symbol_table.insert(dest.clone(), slot);
    }
}

fn get_instruction(op: &str, src_val: String, dest_val: String) -> (r: String)
    ensures
        r@ == two_operand(op@, src_val@, dest_val@),
{
    if contains_char(src_val.as_str(), '[') && contains_char(dest_val.as_str(), '[') {
        let mut s = string_of("\tpush rax\n\tmov rax, ");
        s.append(src_val.as_str());
        s.append("\n\t");
        s.append(op);
        s.append(" ");
        s.append(dest_val.as_str());
        s.append(", rax\n\tpop rax\n");
        s
    } else {
        let mut s = string_of("\t");
        s.append(op);
        s.append(" ");
        s.append(dest_val.as_str());
        s.append(", ");
        s.append(src_val.as_str());
        s.append("\n");
        s
    }
}

fn get_jump(j: JmpType) -> (r: &'static str)
    ensures
        r@ == jump_mnemonic(j),
{
    match j {
        JmpType::Jmp => "jmp",
        JmpType::Je => "je",
        JmpType::Jne => "jne",
        JmpType::Jl => "jl",
        JmpType::Jle => "jle",
        JmpType::Jg => "jg",
        JmpType::Jge => "jge",
    }
}

fn rax_instruction(op: &str, a: String, b: String, result: &str) -> (r: String)
    ensures
        r@ == through_rax(op@, a@, b@, result@),
{
    let mut s = string_of("\tmov rax, ");
    s.append(a.as_str());
    s.append("\n\t");
    s.append(op);
    s.append(" ");
    s.append(b.as_str());
    s.append("\n\tmov ");
    s.append(a.as_str());
    s.append(", ");
    s.append(result);
    s.append("\n");
    s
}

fn generate_instruction(instruction: &Ir, symbol_table: &mut SymbolTable, code: &mut String)
    requires
        old(symbol_table)@.len() < usize::MAX / 16 - 1,
    ensures
        (final(symbol_table)@, final(code)@) == step(old(symbol_table)@, old(code)@, instruction@),
        final(symbol_table)@.len() <= old(symbol_table)@.len() + 1,
{
    match instruction {
        Ir::Assign(dest, src) => {
            if symbol_table.get(dest.as_str()).is_none() {
                insert_reg(dest, symbol_table, code);
            }
            let s = get_instruction("mov", get_value(src, symbol_table), get_value(dest, symbol_table));
            code.append(s.as_str());
        },
        Ir::Add(a, b) => {
            let s = get_instruction("add", get_value(b, symbol_table), get_value(a, symbol_table));
            code.append(s.as_str());
        },
        Ir::Sub(a, b) => {
            let s = get_instruction("sub", get_value(b, symbol_table), get_value(a, symbol_table));
            code.append(s.as_str());
        },
        Ir::Mul(a, b) => {
            let s = rax_instruction("mul", get_value(a, symbol_table), get_value(b, symbol_table), "rax");
            code.append(s.as_str());
        },
        Ir::Div(a, b) => {
            let s = rax_instruction("div", get_value(a, symbol_table), get_value(b, symbol_table), "rax");
            code.append(s.as_str());
        },
        Ir::Mod(a, b) => {
            let s = rax_instruction("div", get_value(a, symbol_table), get_value(b, symbol_table), "rdx");
            code.append(s.as_str());
        },
        Ir::Exit(a) => {
            code.append("\n\tmov rdi, ");
            let v = get_value(a, symbol_table);
            code.append(v.as_str());
            code.append("\n\tmov rax, 60\n\tsyscall\n");
        },
        Ir::Label(l) => {
            code.append(l.as_str());
            code.append(":\n");
        },
        Ir::Jmp(a, b, l, j) => {
            if *j == JmpType::Jmp {
                code.append("\tjmp ");
                code.append(l.as_str());
                code.append("\n");
            } else {
                code.append("\tcmp ");
                let va = get_value(a, symbol_table);
                code.append(va.as_str());
                code.append(", ");
                let vb = get_value(b, symbol_table);
                code.append(vb.as_str());
                code.append("\n\t");
                code.append(get_jump(*j));
                code.append(" ");
                code.append(l.as_str());
                code.append("\n");
            }
        },
    }
}

/// The assembly text of a sequence of instructions.
pub fn generate_asm(ir: Vec<Ir>) -> (code: String)
    requires
        ir@.len() < usize::MAX / 16 - 1,
    ensures
        code@ == assemble(irs_view(ir@)).1,
{
    let mut code = string_of("global _start\n_start:\n\tmov rbp, rsp\n");
    let mut symbol_table = SymbolTable::new();
    let ghost iv = irs_view(ir@);
    let mut k: usize = 0;
    while k < ir.len()
        invariant
            iv == irs_view(ir@),
            ir@.len() < usize::MAX / 16 - 1,
            0 <= k <= ir.len(),
            symbol_table@.len() <= k,
            (symbol_table@, code@) == assemble(iv.take(k as int)),
        decreases ir.len() - k,
    {
        proof {
            assert(iv.take(k as int + 1).drop_last() =~= iv.take(k as int));
            assert(iv.take(k as int + 1).last() == ir@[k as int]@);
        }
        generate_instruction(&ir[k], &mut symbol_table, &mut code);
        k += 1;
    }
    proof {
        assert(iv.take(k as int) =~= iv);
    }
    code
}

} // verus!

verus! {

/// Whether an x86 jump, by its mnemonic, is taken after comparing `a` with `b`; `None` for
/// a mnemonic that is no jump.
pub open spec fn x86_jump(m: Seq<char>, a: int, b: int) -> Option<bool> {
    if m == seq!['j', 'm', 'p'] {
        Some(true)
    } else if m == seq!['j', 'e'] {
        Some(a == b)
    } else if m == seq!['j', 'n', 'e'] {
        Some(a != b)
    } else if m == seq!['j', 'l'] {
        Some(a < b)
    } else if m == seq!['j', 'l', 'e'] {
        Some(a <= b)
    } else if m == seq!['j', 'g'] {
        Some(a > b)
    } else if m == seq!['j', 'g', 'e'] {
        Some(a >= b)
    } else {
        None
    }
}

/// Each jump is assembled to the x86 jump that is taken exactly when it is, for all
/// integers.
pub proof fn lemma_jump_mnemonic_means(j: JmpType, a: int, b: int)
    ensures
        x86_jump(jump_mnemonic(j), a, b) == Some(jump_taken(j, a, b)),
{
    reveal_strlit("jmp");
    reveal_strlit("je");
    reveal_strlit("jne");
    reveal_strlit("jl");
    reveal_strlit("jle");
    reveal_strlit("jg");
    reveal_strlit("jge");
    assert("jmp"@ =~= seq!['j', 'm', 'p']);
    assert("je"@ =~= seq!['j', 'e']);
    assert("jne"@ =~= seq!['j', 'n', 'e']);
    assert("jl"@ =~= seq!['j', 'l']);
    assert("jle"@ =~= seq!['j', 'l', 'e']);
    assert("jg"@ =~= seq!['j', 'g']);
    assert("jge"@ =~= seq!['j', 'g', 'e']);
    assert(seq!['j', 'n', 'e'][1] != seq!['j', 'm', 'p'][1]);
    assert(seq!['j', 'l', 'e'][1] != seq!['j', 'm', 'p'][1]);
    assert(seq!['j', 'l', 'e'][1] != seq!['j', 'n', 'e'][1]);
    assert(seq!['j', 'g', 'e'][1] != seq!['j', 'm', 'p'][1]);
    assert(seq!['j', 'g', 'e'][1] != seq!['j', 'n', 'e'][1]);
    assert(seq!['j', 'g', 'e'][1] != seq!['j', 'l', 'e'][1]);
    assert(seq!['j', 'l'][1] != seq!['j', 'e'][1]);
    assert(seq!['j', 'g'][1] != seq!['j', 'e'][1]);
    assert(seq!['j', 'g'][1] != seq!['j', 'l'][1]);
}

} // verus!

verus! {

/// Where x86 `div` leaves its results for a non-negative dividend `x` and a positive
/// divisor `y`: the quotient in `rax`, the remainder in `rdx`.
pub open spec fn x86_div_result(reg: Seq<char>, x: nat, y: nat) -> Option<int> {
    if y == 0 {
        None
    } else if reg == seq!['r', 'a', 'x'] {
        Some((x / y) as int)
    } else if reg == seq!['r', 'd', 'x'] {
        Some((x % y) as int)
    } else {
        None
    }
}

/// Each arithmetic instruction is assembled to x86 code that computes it into its first
/// operand: `add` leaves the sum and `sub` the difference there, and a division and a
/// remainder both divide through `rax` and take the quotient and the remainder from where
/// `div` leaves them.
pub proof fn lemma_arith_step_computes(
    t: Seq<(Seq<char>, Seq<char>)>,
    code: Seq<char>,
    a: Seq<char>,
    b: Seq<char>,
    x: i64,
    y: i64,
    p: nat,
    q: nat,
)
    requires
        q > 0,
    ensures
        step(t, code, IrV::Add(a, b)) == (t, code + two_operand("add"@, location(t, b), location(t, a))),
        x86_update("add"@, x, y) == Some(x + y),
        step(t, code, IrV::Sub(a, b)) == (t, code + two_operand("sub"@, location(t, b), location(t, a))),
        x86_update("sub"@, x, y) == Some(x - y),
        step(t, code, IrV::Div(a, b)) == (t, code + through_rax("div"@, location(t, a), location(t, b), "rax"@)),
        x86_div_result("rax"@, p, q) == Some((p / q) as int),
        step(t, code, IrV::Mod(a, b)) == (t, code + through_rax("div"@, location(t, a), location(t, b), "rdx"@)),
        x86_div_result("rdx"@, p, q) == Some((p % q) as int),
{
    reveal_strlit("add");
    reveal_strlit("sub");
    reveal_strlit("rax");
    reveal_strlit("rdx");
    assert("add"@ =~= seq!['a', 'd', 'd']);
    assert("sub"@ =~= seq!['s', 'u', 'b']);
    assert("rax"@ =~= seq!['r', 'a', 'x']);
    assert("rdx"@ =~= seq!['r', 'd', 'x']);
    assert(seq!['s', 'u', 'b'][0] != seq!['a', 'd', 'd'][0]);
    assert(seq!['r', 'd', 'x'][1] != seq!['r', 'a', 'x'][1]);
}

} // verus!
