//! x86-64 assembly for the three-address code: each operand that is written gets a
//! callee register while some are free, then a slot on the stack sized by its type.
use vstd::prelude::*;
use crate::yora_compiler::ir_gen::{Ir, IrV, Op, Cond, irs_view, cond_text, cond_holds, op_value};
use crate::compiler::asm_gen::{x86_update, x86_condition};
use crate::symbols::{SymbolTable, lookup};
use crate::text::{decimal, push_decimal, contains_char, string_of};

verus! {

/// What the generator knows after some instructions: where each written operand lives,
/// how many bytes of stack are taken, and the text so far.
pub struct AsmState {
    pub symbols: Seq<(Seq<char>, Seq<char>)>,
    pub stack: nat,
    pub text: Seq<char>,
}

/// The registers handed out to operands, in order.
pub open spec fn registers() -> Seq<Seq<char>> {
    seq!["rbx"@, "r10"@, "r11"@, "r12"@, "r13"@, "r14"@, "r15"@]
}

/// The operand-size keyword of a stack slot of `size` bytes.
pub open spec fn word_for_size(size: nat) -> Seq<char> {
    if size == 1 {
        "byte"@
    } else if size == 2 {
        "word"@
    } else if size == 4 {
        "dword"@
    } else {
        "qword"@
    }
}

/// The sizes that have an operand-size keyword.
pub open spec fn valid_size(size: nat) -> bool {
    size == 1 || size == 2 || size == 4 || size == 8
}

/// The types that a written operand can have.
pub open spec fn valid_type(t: Seq<char>) -> bool {
    t == "int"@ || t == "bool"@
}

/// The size in bytes of a value of a type.
pub open spec fn size_for_type(t: Seq<char>) -> nat {
    if t == "int"@ {
        8
    } else {
        1
    }
}

/// The mnemonic of an operation.
pub open spec fn operation_text(op: Op) -> Seq<char> {
    match op {
        Op::Assign => "mov"@,
        Op::Add => "add"@,
        Op::Sub => "sub"@,
        Op::Mul => "mul"@,
        Op::Div => "div"@,
        Op::Mod => "div"@,
        Op::Not => "not"@,
        Op::And => "and"@,
        Op::Or => "or"@,
        Op::Cmp => "cmp"@,
    }
}

/// Where an operand lives: its register or stack slot, or the operand itself (a constant
/// or a name never written).
pub open spec fn value_of(st: AsmState, v: Seq<char>) -> Seq<char> {
    match lookup(st.symbols, v) {
        Some(l) => l,
        None => v,
    }
}

/// The state with `dest` placed: in the next free register, or else in a new stack slot
/// of `size` bytes, which the text reserves.
pub open spec fn with_reg(st: AsmState, dest: Seq<char>, size: nat) -> AsmState {
    let n = st.symbols.len();
    if n < 7 {
        AsmState { symbols: st.symbols.push((dest, registers()[n as int])), ..st }
    } else {
        AsmState {
            symbols: st.symbols.push(
                (dest, word_for_size(size) + " [rbp-"@ + decimal(st.stack + size) + "]"@),
            ),
            stack: st.stack + size,
            text: st.text + "\tsub rsp, "@ + decimal(size) + "\n"@,
        }
    }
}

/// The state with `dest` placed if it was not yet, sized by its type.
pub open spec fn placed(st: AsmState, dest: Seq<char>, types: Seq<(Seq<char>, Seq<char>)>) -> AsmState {
    if lookup(st.symbols, dest) is Some {
        st
    } else {
        with_reg(st, dest, size_for_type(lookup(types, dest).unwrap()))
    }
}

/// A two-operand instruction; two memory operands go through `rax`.
pub open spec fn instruction_text(src_val: Seq<char>, dest_val: Seq<char>, op: Op) -> Seq<char> {
    if src_val.contains('[') && dest_val.contains('[') {
        "\tpush rax\n\tmov rax, "@ + src_val + "\n\t"@ + operation_text(op) + " "@ + dest_val
            + ", rax\n\tpop rax\n"@
    } else {
        "\t"@ + operation_text(op) + " "@ + dest_val + ", "@ + src_val + "\n"@
    }
}

/// The state with `t` added to the text.
pub open spec fn emit(st: AsmState, t: Seq<char>) -> AsmState {
    AsmState { text: st.text + t, ..st }
}

/// The state after one instruction.
pub open spec fn step(st: AsmState, i: IrV, types: Seq<(Seq<char>, Seq<char>)>) -> AsmState {
    match i {
        IrV::Op { dest, src, op } => match op {
            Op::Assign => {
                let st1 = placed(st, dest, types);
                emit(st1, instruction_text(value_of(st1, src), value_of(st1, dest), op))
            },
            Op::Mul | Op::Div => emit(
                st,
                "\tmov rax, "@ + value_of(st, dest) + "\n\t"@ + operation_text(op) + " "@
                    + value_of(st, src) + "\n\tmov "@ + value_of(st, dest) + ", rax\n"@,
            ),
            Op::Mod => emit(
                st,
                "\tmov rax, "@ + value_of(st, dest) + "\n\t"@ + operation_text(op) + " "@
                    + value_of(st, src) + "\n\tmov "@ + value_of(st, dest) + ", rdx\n"@,
            ),
            _ => emit(st, instruction_text(value_of(st, src), value_of(st, dest), op)),
        },
        IrV::Label(l) => emit(st, l + ":\n"@),
        IrV::Jmp { label } => emit(st, "\tjmp "@ + label + "\n"@),
        IrV::JmpCond { src, label } => emit(
            st,
            "\tcmp "@ + value_of(st, src) + ", 0\n\tje "@ + label + "\n"@,
        ),
        IrV::Exit { src } => emit(
            st,
            "\tmov rdi, "@ + value_of(st, src) + "\n\tmov rax, 60\n\tsyscall\n"@,
        ),
        IrV::SetFlag { dest, cond } => {
            let st1 = placed(st, dest, types);
            emit(st1, "\tset"@ + cond_text(cond) + " "@ + value_of(st1, dest) + "b\n"@)
        },
    }
}

/// The state after a sequence of instructions.
pub open spec fn run(st: AsmState, s: Seq<IrV>, types: Seq<(Seq<char>, Seq<char>)>) -> AsmState
    decreases s.len(),
{
    if s.len() == 0 {
        st
    } else {
        step(run(st, s.drop_last(), types), s.last(), types)
    }
}

/// The text that starts every program.
pub open spec fn prologue() -> Seq<char> {
    "global _start\n_start:\n\tmov rbp, rsp\n"@
}

/// The program for a sequence of instructions.
pub open spec fn assemble(s: Seq<IrV>, types: Seq<(Seq<char>, Seq<char>)>) -> Seq<char> {
    run(AsmState { symbols: seq![], stack: 0, text: prologue() }, s, types).text
}

/// The operand an instruction writes to a place of its own, if any.
pub open spec fn written(i: IrV) -> Option<Seq<char>> {
    match i {
        IrV::Op { dest, op, .. } => if op == Op::Assign {
            Some(dest)
        } else {
            None
        },
        IrV::SetFlag { dest, .. } => Some(dest),
        _ => None,
    }
}

/// Every operand that an instruction writes has a type that has a size.
pub open spec fn typed(s: Seq<IrV>, types: Seq<(Seq<char>, Seq<char>)>) -> bool {
    forall|k: int| 0 <= k < s.len() ==> match written(#[trigger] s[k]) {
        Some(d) => lookup(types, d) is Some && valid_type(lookup(types, d).unwrap()),
        None => true,
    }
}

proof fn lemma_run_stack(st: AsmState, s: Seq<IrV>, types: Seq<(Seq<char>, Seq<char>)>)
    requires
        typed(s, types),
    ensures
        st.stack <= run(st, s, types).stack <= st.stack + 8 * s.len(),
    decreases s.len(),
{
    if s.len() > 0 {
        assert(typed(s.drop_last(), types)) by {
            assert forall|k: int| 0 <= k < s.drop_last().len() implies match written(#[trigger] s.drop_last()[k]) {
                Some(d) => lookup(types, d) is Some && valid_type(lookup(types, d).unwrap()),
                None => true,
            } by {
                assert(s.drop_last()[k] == s[k]);
            }
        }
        lemma_run_stack(st, s.drop_last(), types);
        assert(written(s[s.len() - 1]) == written(s.last()));
    }
}

} // verus!

verus! {

fn get_cond(cond: &Cond) -> (s: &'static str)
    ensures
        s@ == cond_text(*cond),
{
    match cond {
        Cond::Eq => "e",
        Cond::Neq => "ne",
        Cond::Lt => "l",
        Cond::Leq => "le",
        Cond::Gt => "g",
        Cond::Geq => "ge",
    }
}

fn get_operation(operation: &Op) -> (s: &'static str)
    ensures
        s@ == operation_text(*operation),
{
    match operation {
        Op::Assign => "mov",
        Op::Add => "add",
        Op::Sub => "sub",
        Op::Mul => "mul",
        Op::Div => "div",
        Op::Mod => "div",
        Op::Not => "not",
        Op::And => "and",
        Op::Or => "or",
        Op::Cmp => "cmp",
    }
}

fn get_instruction(src_val: String, dest_val: String, instruction: &Ir) -> (s: String)
    requires
        instruction is Op,
    ensures
        s@ == instruction_text(src_val@, dest_val@, instruction->op),
{
    match instruction {
        Ir::Op { op, .. } => {
            let mut s = String::new();
            if contains_char(src_val.as_str(), '[') && contains_char(dest_val.as_str(), '[') {
                s.append("\tpush rax\n\tmov rax, ");
                s.append(src_val.as_str());
                s.append("\n\t");
                s.append(get_operation(op));
                s.append(" ");
                s.append(dest_val.as_str());
                s.append(", rax\n\tpop rax\n");
            } else {
                s.append("\t");
                s.append(get_operation(op));
                s.append(" ");
                s.append(dest_val.as_str());
                s.append(", ");
                s.append(src_val.as_str());
                s.append("\n");
            }
            assert(s@ =~= instruction_text(src_val@, dest_val@, *op));
            s
        },
        _ => {
            assert(false);
            String::new()
        },
    }
}

fn get_word_for_size(size: usize) -> (s: String)
    requires
        valid_size(size as nat),
    ensures
        s@ == word_for_size(size as nat),
{
    let w = if size == 1 {
        "byte"
    } else if size == 2 {
        "word"
    } else if size == 4 {
        "dword"
    } else {
        "qword"
    };
    let mut s = String::new();
    s.append(w);
    s
}

fn get_size_for_type(type_to_check: String) -> (n: usize)
    requires
        valid_type(type_to_check@),
    ensures
        n == size_for_type(type_to_check@),
{
    if crate::text::str_eq(type_to_check.as_str(), "int") {
        8
    } else {
        1
    }
}

fn register(n: usize) -> (s: &'static str)
    requires
        n < 7,
    ensures
        s@ == registers()[n as int],
{
    match n {
        0 => "rbx",
        1 => "r10",
        2 => "r11",
        3 => "r12",
        4 => "r13",
        5 => "r14",
        _ => "r15",
    }
}

struct Generator {
    code: String,
    symbol_table: SymbolTable,
    current_stack: usize,
}

impl Generator {
    spec fn state(&self) -> AsmState {
        AsmState { symbols: self.symbol_table@, stack: self.current_stack as nat, text: self.code@ }
    }

    fn get_value(&self, value: &String) -> (r: String)
        ensures
            r@ == value_of(self.state(), value@),
    {
        match self.symbol_table.get(value.as_str()) {
            Some(l) => l,
            None => value.clone(),
        }
    }

    fn insert_reg(&mut self, dest: String, size: usize)
        requires
            valid_size(size as nat),
            old(self).current_stack + size <= usize::MAX,
        ensures
            final(self).state() == with_reg(old(self).state(), dest@, size as nat),
    {
        let num_regs = self.symbol_table.len();
        if num_regs < 7 {
            self.symbol_table.insert(dest, crate::text::string_of(register(num_regs)));
        } else {
            self.code.append("\tsub rsp, ");
            push_decimal(&mut self.code, size as u64);
            self.code.append("\n");
            let mut place = get_word_for_size(size);
            place.append(" [rbp-");
            push_decimal(&mut place, (self.current_stack + size) as u64);
            place.append("]");
            self.symbol_table.insert(dest, place);
            self.current_stack = self.current_stack + size;
        }
        assert(self.state().text =~= with_reg(old(self).state(), dest@, size as nat).text);
        assert(self.state().symbols =~= with_reg(old(self).state(), dest@, size as nat).symbols);
    }

    fn place(&mut self, dest: &String, types: &SymbolTable)
        requires
            lookup(types@, dest@) is Some,
            valid_type(lookup(types@, dest@).unwrap()),
            old(self).current_stack + 8 <= usize::MAX,
        ensures
            final(self).state() == placed(old(self).state(), dest@, types@),
    {
        if self.symbol_table.get(dest.as_str()).is_none() {
            match types.get(dest.as_str()) {
                Some(t) => {
                    let size = get_size_for_type(t);
                    self.insert_reg(dest.clone(), size);
                },
                None => {},
            }
        }
    }

    #[verifier::rlimit(40)]
    fn emit_instruction(&mut self, instruction: &Ir, types: &SymbolTable)
        requires
            match written(instruction@) {
                Some(d) => lookup(types@, d) is Some && valid_type(lookup(types@, d).unwrap()),
                None => true,
            },
            old(self).current_stack + 8 <= usize::MAX,
        ensures
            final(self).state() == step(old(self).state(), instruction@, types@),
    {
        let ghost st0 = self.state();
        match instruction {
            Ir::Op { dest, src, op } => match op {
                Op::Assign => {
                    self.place(dest, types);
                    let text = get_instruction(self.get_value(src), self.get_value(dest), instruction);
                    self.code.append(text.as_str());
                },
                Op::Mul | Op::Div | Op::Mod => {
                    let d = self.get_value(dest);
                    let sv = self.get_value(src);
                    self.code.append("\tmov rax, ");
                    self.code.append(d.as_str());
                    self.code.append("\n\t");
                    self.code.append(get_operation(op));
                    self.code.append(" ");
                    self.code.append(sv.as_str());
                    self.code.append("\n\tmov ");
                    self.code.append(d.as_str());
                    match op {
                        Op::Mod => self.code.append(", rdx\n"),
                        _ => self.code.append(", rax\n"),
                    }
                },
                _ => {
                    let text = get_instruction(self.get_value(src), self.get_value(dest), instruction);
                    self.code.append(text.as_str());
                },
            },
            Ir::Label(label) => {
                self.code.append(label.as_str());
                self.code.append(":\n");
            },
            Ir::Jmp { label } => {
                self.code.append("\tjmp ");
                self.code.append(label.as_str());
                self.code.append("\n");
            },
            Ir::JmpCond { src, label } => {
                let v = self.get_value(src);
                self.code.append("\tcmp ");
                self.code.append(v.as_str());
                self.code.append(", 0\n\tje ");
                self.code.append(label.as_str());
                self.code.append("\n");
            },
            Ir::Exit { src } => {
                let v = self.get_value(src);
                self.code.append("\tmov rdi, ");
                self.code.append(v.as_str());
                self.code.append("\n\tmov rax, 60\n\tsyscall\n");
            },
            Ir::SetFlag { dest, cond } => {
                self.place(dest, types);
                let v = self.get_value(dest);
                self.code.append("\tset");
                self.code.append(get_cond(cond));
                self.code.append(" ");
                self.code.append(v.as_str());
                self.code.append("b\n");
            },
        }
        assert(self.state().text =~= step(st0, instruction@, types@).text);
    }

    fn generate_asm(&mut self, ir: Vec<Ir>, types: &SymbolTable)
        requires
            typed(irs_view(ir@), types@),
            old(self).current_stack + 8 * ir.len() <= usize::MAX,
        ensures
            final(self).state() == run(old(self).state(), irs_view(ir@), types@),
    {
        let ghost s = irs_view(ir@);
        let ghost st0 = self.state();
        let mut i: usize = 0;
        while i < ir.len()
            invariant
                s == irs_view(ir@),
                typed(s, types@),
                st0.stack + 8 * s.len() <= usize::MAX,
                0 <= i <= ir.len(),
                self.state() == run(st0, s.take(i as int), types@),
            decreases ir.len() - i,
        {
            proof {
                assert(s.take(i as int + 1).drop_last() =~= s.take(i as int));
                assert(typed(s.take(i as int), types@)) by {
                    assert forall|k: int| 0 <= k < s.take(i as int).len() implies match written(#[trigger] s.take(i as int)[k]) {
                        Some(d) => lookup(types@, d) is Some && valid_type(lookup(types@, d).unwrap()),
                        None => true,
                    } by {
                        assert(s.take(i as int)[k] == s[k]);
                    }
                }
                lemma_run_stack(st0, s.take(i as int), types@);
                assert(s[i as int] == ir@[i as int]@);
            }
            self.emit_instruction(&ir[i], types);
            i += 1;
        }
        assert(s.take(i as int) =~= s);
    }
}

/// The assembly program for the code, where `type_table` gives the type of each operand
/// that an instruction writes.
pub fn generate_asm(ir: Vec<Ir>, type_table: &SymbolTable) -> (s: String)
    requires
        typed(irs_view(ir@), type_table@),
        8 * ir.len() <= usize::MAX,
    ensures
        s@ == assemble(irs_view(ir@), type_table@),
{
    let mut generator = Generator {
        code: crate::text::string_of("global _start\n_start:\n\tmov rbp, rsp\n"),
        symbol_table: SymbolTable::new(),
        current_stack: 0,
    };
    generator.generate_asm(ir, type_table);
    generator.code
}

} // verus!

verus! {

/// Whether every operand that an instruction of the code writes has the type `int` or
/// `bool` in the table.
pub fn is_typed(ir: &Vec<Ir>, type_table: &SymbolTable) -> (r: bool)
    ensures
        r == typed(irs_view(ir@), type_table@),
{
    let ghost s = irs_view(ir@);
    let mut k: usize = 0;
    while k < ir.len()
        invariant
            s == irs_view(ir@),
            0 <= k <= ir.len(),
            forall|j: int| 0 <= j < k ==> match written(#[trigger] s[j]) {
                Some(d) => lookup(type_table@, d) is Some && valid_type(lookup(type_table@, d).unwrap()),
                None => true,
            },
        decreases ir.len() - k,
    {
        assert(s[k as int] == ir@[k as int]@);
        let dest = match &ir[k] {
            Ir::Op { dest, op: Op::Assign, .. } => Some(dest),
            Ir::SetFlag { dest, .. } => Some(dest),
            _ => None,
        };
        match dest {
            Some(d) => match type_table.get(d.as_str()) {
                Some(t) => {
                    if !(crate::text::str_eq(t.as_str(), "int") || crate::text::str_eq(t.as_str(), "bool")) {
                        return false;
                    }
                },
                None => {
                    return false;
                },
            },
            None => {},
        }
        k += 1;
    }
    true
}

} // verus!

verus! {

/// The type an instruction gives the operand it writes: `int` for an assignment, `bool`
/// for the flag a comparison sets.
pub open spec fn written_type(i: IrV) -> Option<(Seq<char>, Seq<char>)> {
    match i {
        IrV::Op { dest, op, .. } => if op == Op::Assign {
            Some((dest, "int"@))
        } else {
            None
        },
        IrV::SetFlag { dest, .. } => Some((dest, "bool"@)),
        _ => None,
    }
}

/// The types of the operands the code writes, in order of first write; the first write
/// of an operand decides its type.
pub open spec fn inferred_types(s: Seq<IrV>) -> Seq<(Seq<char>, Seq<char>)>
    decreases s.len(),
{
    if s.len() == 0 {
        seq![]
    } else {
        let t = inferred_types(s.drop_last());
        match written_type(s.last()) {
            Some((d, ty)) => if lookup(t, d) is None {
                t.push((d, ty))
            } else {
                t
            },
            None => t,
        }
    }
}

/// Every operand the code writes has an `int` or `bool` type in the inferred table.
pub proof fn lemma_inferred_types_type_everything(s: Seq<IrV>)
    ensures
        typed(s, inferred_types(s)),
        forall|name: Seq<char>| #[trigger] lookup(inferred_types(s), name) is Some ==> valid_type(lookup(inferred_types(s), name).unwrap()),
    decreases s.len(),
{
    if s.len() > 0 {
        let p = s.drop_last();
        lemma_inferred_types_type_everything(p);
        let t = inferred_types(p);
        reveal_strlit("int");
        reveal_strlit("bool");
        assert forall|name: Seq<char>| #[trigger] lookup(inferred_types(s), name) is Some implies valid_type(lookup(inferred_types(s), name).unwrap()) by {
            match written_type(s.last()) {
                Some((d, ty)) => {
                    SymbolTable::lemma_lookup_after_insert(t, d, ty, name);
                },
                None => {},
            }
        }
        assert forall|j: int| 0 <= j < s.len() implies match written(#[trigger] s[j]) {
            Some(d) => lookup(inferred_types(s), d) is Some && valid_type(lookup(inferred_types(s), d).unwrap()),
            None => true,
        } by {
            match written(s[j]) {
                Some(e) => {
                    match written_type(s.last()) {
                        Some((d, ty)) => {
                            SymbolTable::lemma_lookup_after_insert(t, d, ty, e);
                        },
                        None => {},
                    }
                    if j < s.len() - 1 {
                        assert(p[j] == s[j]);
                    }
                },
                None => {},
            }
        }
    }
}

/// The table of the types of the operands the code writes.
pub fn infer_types(ir: &Vec<Ir>) -> (t: SymbolTable)
    ensures
        t@ == inferred_types(irs_view(ir@)),
{
    let ghost s = irs_view(ir@);
    let mut t = SymbolTable::new();
    let mut k: usize = 0;
    assert(s.take(0) =~= Seq::<IrV>::empty());
    while k < ir.len()
        invariant
            s == irs_view(ir@),
            0 <= k <= ir.len(),
            t@ == inferred_types(s.take(k as int)),
        decreases ir.len() - k,
    {
        assert(s[k as int] == ir@[k as int]@);
        assert(s.take(k as int + 1).drop_last() =~= s.take(k as int));
        assert(s.take(k as int + 1).last() == s[k as int]);
        let entry: Option<(&String, &str)> = match &ir[k] {
            Ir::Op { dest, op: Op::Assign, .. } => Some((dest, "int")),
            Ir::SetFlag { dest, .. } => Some((dest, "bool")),
            _ => None,
        };
        match entry {
            Some((d, ty)) => {
                if t.get(d.as_str()).is_none() {
                    t.insert(d.clone(), string_of(ty));
                }
            },
            None => {},
        }
        k += 1;
    }
    assert(s.take(k as int) =~= s);
    t
}

} // verus!

verus! {

/// The operations done in place are assembled to the x86 mnemonics that compute them: on
/// all integers, `add`, `sub`, `and` and `or` leave in the destination what the operation
/// gives.
pub proof fn lemma_operation_text_computes(op: Op, d: i64, s: i64)
    requires
        op == Op::Add || op == Op::Sub || op == Op::And || op == Op::Or,
    ensures
        x86_update(operation_text(op), d, s) == op_value(op, d, s),
        op_value(op, d, s) is Some,
{
    reveal_strlit("add");
    reveal_strlit("sub");
    reveal_strlit("and");
    reveal_strlit("or");
    assert("add"@ =~= seq!['a', 'd', 'd']);
    assert("sub"@ =~= seq!['s', 'u', 'b']);
    assert("and"@ =~= seq!['a', 'n', 'd']);
    assert("or"@ =~= seq!['o', 'r']);
    assert(seq!['s', 'u', 'b'][0] != seq!['a', 'd', 'd'][0]);
    assert(seq!['a', 'n', 'd'][1] != seq!['a', 'd', 'd'][1]);
    assert(seq!['a', 'n', 'd'][0] != seq!['s', 'u', 'b'][0]);
    assert(seq!['o', 'r'].len() != seq!['a', 'd', 'd'].len());
    assert(seq!['o', 'r'].len() != seq!['s', 'u', 'b'].len());
    assert(seq!['o', 'r'].len() != seq!['a', 'n', 'd'].len());
}

/// The suffix of each flag condition names the x86 condition that holds exactly when it
/// does, for all integers.
pub proof fn lemma_cond_text_means(c: Cond, a: int, b: int)
    ensures
        x86_condition(cond_text(c), a, b) == Some(cond_holds(c, a, b)),
{
    reveal_strlit("e");
    reveal_strlit("ne");
    reveal_strlit("l");
    reveal_strlit("le");
    reveal_strlit("g");
    reveal_strlit("ge");
    assert("e"@ =~= seq!['e']);
    assert("ne"@ =~= seq!['n', 'e']);
    assert("l"@ =~= seq!['l']);
    assert("le"@ =~= seq!['l', 'e']);
    assert("g"@ =~= seq!['g']);
    assert("ge"@ =~= seq!['g', 'e']);
    assert(seq!['n', 'e'][0] != seq!['e'][0]);
    assert(seq!['l'][0] != seq!['e'][0]);
    assert(seq!['l', 'e'][0] != seq!['n', 'e'][0]);
    assert(seq!['g'][0] != seq!['e'][0]);
    assert(seq!['g'][0] != seq!['l'][0]);
    assert(seq!['g', 'e'][0] != seq!['n', 'e'][0]);
    assert(seq!['g', 'e'][0] != seq!['l', 'e'][0]);
}

} // verus!
