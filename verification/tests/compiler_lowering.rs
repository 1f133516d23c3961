use yora::compiler::ir::{Buffer, IrInstruction, Value};
use yora::compiler::ir_gen::{generate_ir, Expression, ExpressionKind};
use yora::symbols::SymbolTable;
use yora::syntax_analysis::parser::op::Op;

fn e(kind: ExpressionKind) -> Expression {
    Expression { kind }
}

fn b(x: Expression) -> Box<Expression> {
    Box::new(x)
}

fn name(s: &str) -> Expression {
    e(ExpressionKind::Identifier(s.to_string()))
}

fn num(s: &str) -> Expression {
    e(ExpressionKind::IntLit(s.to_string()))
}

fn seq(v: Vec<Expression>) -> Expression {
    e(ExpressionKind::Sequence(v))
}

fn id(s: &str) -> Value {
    Value::Identifier { id: s.to_string() }
}

fn cst(s: &str) -> Value {
    Value::Constant { value: s.to_string() }
}

fn label(s: &str) -> IrInstruction {
    IrInstruction::Label(s.to_string())
}

fn goto(s: &str) -> IrInstruction {
    IrInstruction::Goto { label: s.to_string() }
}

#[test]
fn a_declared_operation_writes_straight_into_the_name() {
    let mut table = SymbolTable::new();
    let ast = vec![e(ExpressionKind::Declare(b(name("x")), b(e(ExpressionKind::Op(b(num("1")), Op::Add, b(num("2")))))))];
    let ir = generate_ir(ast, &mut table).unwrap();
    assert_eq!(ir.code, vec![IrInstruction::Op { dest: id("x"), src1: cst("1"), op: Op::Add, src2: cst("2") }]);
    assert_eq!(table.len(), 0);
}

#[test]
fn nested_operations_take_typed_temporaries() {
    let mut table = SymbolTable::new();
    let inner = e(ExpressionKind::Op(b(num("3")), Op::Sub, b(num("5"))));
    let ast = vec![e(ExpressionKind::Assign(b(name("y")), b(e(ExpressionKind::Op(b(inner), Op::Lt, b(num("0")))))))];
    let ir = generate_ir(ast, &mut table).unwrap();
    assert_eq!(
        ir.code,
        vec![
            IrInstruction::Op { dest: id("t1"), src1: cst("3"), op: Op::Sub, src2: cst("5") },
            IrInstruction::Op { dest: id("y"), src1: id("t1"), op: Op::Lt, src2: cst("0") },
        ]
    );
    assert_eq!(table.get("t1"), Some("int".to_string()));
}

#[test]
fn printing_a_string_passes_its_buffer_and_length() {
    let mut table = SymbolTable::new();
    let ast = vec![e(ExpressionKind::Call("print".to_string(), b(e(ExpressionKind::StringLit("\"hi\"".to_string())))))];
    let ir = generate_ir(ast, &mut table).unwrap();
    assert_eq!(ir.data, vec![Buffer { label: "buf_1".to_string(), contents: "\"hi\", 10".to_string(), size: 3 }]);
    assert_eq!(
        ir.code,
        vec![
            IrInstruction::Param { src: cst("1") },
            IrInstruction::Param { src: id("buf_1") },
            IrInstruction::Param { src: cst("3") },
            IrInstruction::Call { label: "print".to_string() },
        ]
    );
}

#[test]
fn an_array_buffer_takes_the_declared_name() {
    let mut table = SymbolTable::new();
    let arr = e(ExpressionKind::ArrayLit(vec![num("1"), num("2"), num("3")]));
    let ast = vec![e(ExpressionKind::Declare(b(name("a")), b(arr)))];
    let ir = generate_ir(ast, &mut table).unwrap();
    assert_eq!(ir.data, vec![Buffer { label: "a".to_string(), contents: "1, 2, 3".to_string(), size: 3 }]);
    assert!(ir.code.is_empty());
}

#[test]
fn a_while_loop_jumps_out_on_the_inverse_comparison() {
    let mut table = SymbolTable::new();
    let cond = e(ExpressionKind::Op(b(name("i")), Op::Lt, b(num("10"))));
    let body = seq(vec![e(ExpressionKind::Call("exit".to_string(), b(name("i"))))]);
    let ir = generate_ir(vec![e(ExpressionKind::While(b(cond), b(body)))], &mut table).unwrap();
    assert_eq!(
        ir.code,
        vec![
            label("loop_1"),
            IrInstruction::IfGoto { src1: id("i"), src2: cst("10"), cond: Op::Geq, label: "loop_end_1".to_string() },
            IrInstruction::Param { src: id("i") },
            IrInstruction::Call { label: "exit".to_string() },
            goto("loop_1"),
            label("loop_end_1"),
        ]
    );
}

#[test]
fn if_else_jumps_to_the_else_block_on_a_false_value() {
    let mut table = SymbolTable::new();
    let t = e(ExpressionKind::BoolLit("true".to_string()));
    let ast = vec![e(ExpressionKind::IfElse(b(t), b(seq(vec![name("a")])), b(seq(vec![name("b")]))))];
    let ir = generate_ir(ast, &mut table).unwrap();
    assert_eq!(
        ir.code,
        vec![
            IrInstruction::IfGoto { src1: cst("1"), src2: cst("0"), cond: Op::Eq, label: "else_1".to_string() },
            goto("end_if_1"),
            label("else_1"),
            label("end_if_1"),
        ]
    );
}

#[test]
fn break_and_continue_name_the_innermost_loop() {
    let mut table = SymbolTable::new();
    let inner = e(ExpressionKind::Loop(b(seq(vec![e(ExpressionKind::Break)]))));
    let outer = e(ExpressionKind::Loop(b(seq(vec![inner, e(ExpressionKind::Continue), e(ExpressionKind::Break)]))));
    let ir = generate_ir(vec![outer], &mut table).unwrap();
    assert_eq!(
        ir.code,
        vec![
            label("loop_1"),
            label("loop_2"),
            goto("loop_end_2"),
            goto("loop_2"),
            label("loop_end_2"),
            goto("loop_1"),
            goto("loop_end_1"),
            goto("loop_1"),
            label("loop_end_1"),
        ]
    );
}

#[test]
fn negation_and_element_access() {
    let mut table = SymbolTable::new();
    let ast = vec![
        e(ExpressionKind::Not(b(name("f")))),
        e(ExpressionKind::Assign(b(name("x")), b(e(ExpressionKind::Idx("a".to_string(), b(num("2"))))))),
    ];
    let ir = generate_ir(ast, &mut table).unwrap();
    assert_eq!(
        ir.code,
        vec![
            IrInstruction::Not { dest: id("t1"), src: id("f") },
            IrInstruction::Ass { dest: id("x"), src: Value::MemPos { id: "a".to_string(), offset: "2".to_string() } },
        ]
    );
    assert_eq!(table.get("t1"), Some("bool".to_string()));
}

#[test]
fn what_cannot_be_lowered() {
    let mut table = SymbolTable::new();
    let call = e(ExpressionKind::Call("foo".to_string(), b(num("1"))));
    assert!(generate_ir(vec![call], &mut table).is_none());
    let arr = e(ExpressionKind::ArrayLit(vec![num("1"), name("x")]));
    assert!(generate_ir(vec![arr], &mut table).is_none());
    let cond = e(ExpressionKind::Op(b(num("1")), Op::Add, b(num("2"))));
    let iff = e(ExpressionKind::If(b(cond), b(seq(vec![name("a")]))));
    assert!(generate_ir(vec![iff], &mut table).is_none());
    assert!(generate_ir(vec![seq(vec![])], &mut table).is_none());
}
