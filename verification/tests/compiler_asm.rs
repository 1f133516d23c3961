use yora::compiler::asm_gen::{can_generate_asm, generate_asm};
use yora::compiler::ir::{Buffer, Ir, IrInstruction, Value};
use yora::symbols::SymbolTable;
use yora::syntax_analysis::parser::op::Op;

const HEAD: &str = "section .data\n\nsection .text\nglobal _start\n_start:\n\tmov rbp, rsp\n";
const TAIL: &str = "\n\tmov rdi, 0\nexit:\n\tmov rax, 60\n\tsyscall\n\nprint:\n\tmov rax, 1\n\tsyscall\n\tret\n";

fn id(s: &str) -> Value {
    Value::Identifier { id: s.to_string() }
}

fn cst(s: &str) -> Value {
    Value::Constant { value: s.to_string() }
}

fn table(entries: &[(&str, &str)]) -> SymbolTable {
    let mut t = SymbolTable::new();
    for (k, v) in entries {
        t.insert(k.to_string(), v.to_string());
    }
    t
}

fn code(code: Vec<IrInstruction>) -> Ir {
    Ir { data: vec![], code }
}

fn assembled(ir: Ir, types: &SymbolTable) -> String {
    assert!(can_generate_asm(&ir, types));
    generate_asm(ir, types)
}

#[test]
fn an_assignment_gets_a_register_sized_by_its_type() {
    let ir = code(vec![IrInstruction::Ass { dest: id("a"), src: cst("5") }]);
    assert_eq!(assembled(ir, &table(&[("a", "i32")])), format!("{}\tmov ebx, 5\n{}", HEAD, TAIL));
}

#[test]
fn operations_and_comparisons() {
    let ir = code(vec![
        IrInstruction::Ass { dest: id("t1"), src: cst("7") },
        IrInstruction::Op { dest: id("t2"), src1: id("t1"), op: Op::Add, src2: cst("3") },
        IrInstruction::Op { dest: id("c"), src1: id("t2"), op: Op::Lt, src2: cst("10") },
    ]);
    let types = table(&[("t1", "i64"), ("t2", "u64"), ("c", "bool")]);
    let body = "\tmov rbx, 7\n\tmov r10, rbx\n\tadd r10, 3\n\tcmp r10, 10\n\tsetl r11b\n";
    assert_eq!(assembled(ir, &types), format!("{}{}{}", HEAD, body, TAIL));
}

#[test]
fn division_keeps_a_dividend_that_is_the_destination() {
    let ir = code(vec![
        IrInstruction::Ass { dest: id("x"), src: cst("9") },
        IrInstruction::Op { dest: id("x"), src1: id("x"), op: Op::Div, src2: cst("2") },
        IrInstruction::Op { dest: id("x"), src1: id("x"), op: Op::Mod, src2: cst("2") },
    ]);
    let body = "\tmov rbx, 9\n\tmov rax, 0\n\tmov rdx, 0\n\tmov al, rbx\n\tmov rbx, 2\n\tdiv rbx\n\tmov rbx, al\n\tmov rax, 0\n\tmov rdx, 0\n\tmov al, rbx\n\tmov rbx, 2\n\tdiv rbx\n\tmov rbx, dl\n";
    assert_eq!(assembled(ir, &table(&[("x", "i64")])), format!("{}{}{}", HEAD, body, TAIL));
}

#[test]
fn multiplication_and_negation() {
    let ir = code(vec![
        IrInstruction::Ass { dest: id("x"), src: cst("3") },
        IrInstruction::Op { dest: id("y"), src1: cst("4"), op: Op::Mul, src2: id("x") },
        IrInstruction::Not { dest: id("b"), src: cst("1") },
    ]);
    let body = "\tmov rbx, 3\n\tmov r10, 4\n\tmov al, rbx\n\tmul r10\n\tmov r10, al\n\tmov r11b, 1\n\tnot r11b\n\tand r11b, 1\n";
    assert_eq!(assembled(ir, &table(&[("x", "i64"), ("y", "i64"), ("b", "bool")])), format!("{}{}{}", HEAD, body, TAIL));
}

#[test]
fn parameters_go_to_the_argument_registers() {
    let ir = code(vec![
        IrInstruction::Ass { dest: id("t1"), src: cst("1") },
        IrInstruction::Param { src: cst("42") },
        IrInstruction::Param { src: id("t1") },
        IrInstruction::Call { label: "print".to_string() },
    ]);
    let body = "\tmov ebx, 1\n\tmov rdi, 42\n\tmov esi, ebx\n\tcall print\n";
    assert_eq!(assembled(ir, &table(&[("t1", "i32")])), format!("{}{}{}", HEAD, body, TAIL));
}

#[test]
fn the_eighth_name_goes_to_the_stack() {
    let names = ["n0", "n1", "n2", "n3", "n4", "n5", "n6", "n7"];
    let mut instrs = Vec::new();
    let mut entries = Vec::new();
    for n in names.iter() {
        instrs.push(IrInstruction::Ass { dest: id(n), src: cst("0") });
        entries.push((*n, "i64"));
    }
    let out = assembled(code(instrs), &table(&entries));
    let body = "\tmov rbx, 0\n\tmov r10, 0\n\tmov r11, 0\n\tmov r12, 0\n\tmov r13, 0\n\tmov r14, 0\n\tmov r15, 0\n\tmov qword [rbp-8], 0\n";
    assert_eq!(out, format!("{}{}{}", HEAD, body, TAIL));
}

#[test]
fn memory_positions_index_a_buffer() {
    let ir = code(vec![
        IrInstruction::Ass { dest: id("i"), src: cst("2") },
        IrInstruction::Ass { dest: id("y"), src: Value::MemPos { id: "arr".to_string(), offset: "i".to_string() } },
    ]);
    let body = "\tmov rbx, 2\n\tmov r10b, byte [arr + ebx]\n";
    assert_eq!(assembled(ir, &table(&[("i", "i64"), ("y", "i8")])), format!("{}{}{}", HEAD, body, TAIL));
}

#[test]
fn labels_and_jumps() {
    let ir = code(vec![
        IrInstruction::Label("loop0".to_string()),
        IrInstruction::IfGoto { src1: cst("1"), src2: cst("2"), cond: Op::Geq, label: "end0".to_string() },
        IrInstruction::Goto { label: "loop0".to_string() },
        IrInstruction::Label("end0".to_string()),
        IrInstruction::Ret { src: cst("0") },
    ]);
    let body = "loop0:\n\tcmp 1, 2\n\tjge end0\n\tjmp loop0\nend0:\n";
    assert_eq!(assembled(ir, &table(&[])), format!("{}{}{}", HEAD, body, TAIL));
}

#[test]
fn the_data_section_lists_the_buffers() {
    let ir = Ir {
        data: vec![Buffer { label: "buf0".to_string(), contents: "\"hi\", 10".to_string(), size: 3 }],
        code: vec![],
    };
    assert_eq!(
        assembled(ir, &table(&[])),
        format!("section .data\nbuf0:\tdb\t\"hi\", 10\n\nsection .text\nglobal _start\n_start:\n\tmov rbp, rsp\n{}", TAIL)
    );
}

#[test]
fn what_cannot_be_generated() {
    let untyped = code(vec![IrInstruction::Ass { dest: id("a"), src: cst("1") }]);
    assert!(!can_generate_asm(&untyped, &table(&[])));
    let badly_typed = code(vec![IrInstruction::Ass { dest: id("a"), src: cst("1") }]);
    assert!(!can_generate_asm(&badly_typed, &table(&[("a", "f32")])));
    let not_relational = code(vec![IrInstruction::IfGoto { src1: cst("1"), src2: cst("2"), cond: Op::Add, label: "l".to_string() }]);
    assert!(!can_generate_asm(&not_relational, &table(&[])));
    let mut seven = Vec::new();
    for _ in 0..7 {
        seven.push(IrInstruction::Param { src: cst("1") });
    }
    assert!(!can_generate_asm(&code(seven), &table(&[])));
    let big_constant = code(vec![IrInstruction::Param { src: cst("99999999999") }]);
    assert!(!can_generate_asm(&big_constant, &table(&[])));
}
