use yora::text::char_is_whitespace;
use yora::types::is_valid_type;
use yora::yora_compiler::ir_gen::{generate_ir, Cond, Ir, Op};
use yora::yora_compiler::parser::{Expression, ExpressionKind};

fn e(kind: ExpressionKind) -> Expression {
    Expression { kind, line: 1, col: 1 }
}

fn num(n: &str) -> Expression {
    e(ExpressionKind::IntLit(n.to_string()))
}

fn b(x: Expression) -> Box<Expression> {
    Box::new(x)
}

fn op(dest: &str, src: &str, op: Op) -> Ir {
    Ir::Op { dest: dest.to_string(), src: src.to_string(), op }
}

#[test]
fn subtraction_takes_the_left_operand_first() {
    let ir = generate_ir(vec![e(ExpressionKind::Exit(b(e(ExpressionKind::Sub(b(num("3")), b(num("5")))))))]);
    assert_eq!(
        ir,
        vec![
            op("t2", "3", Op::Assign),
            op("t3", "5", Op::Assign),
            op("t1", "t2", Op::Assign),
            op("t1", "t3", Op::Sub),
            Ir::Exit { src: "t1".to_string() },
        ]
    );
}

#[test]
fn division_and_remainder_keep_their_order() {
    let ir = generate_ir(vec![e(ExpressionKind::Div(b(num("7")), b(num("2"))))]);
    assert_eq!(ir[2], op("t1", "t2", Op::Assign));
    assert_eq!(ir[3], op("t1", "t3", Op::Div));
    let ir = generate_ir(vec![e(ExpressionKind::Mod(b(num("7")), b(num("4"))))]);
    assert_eq!(ir[3], op("t1", "t3", Op::Mod));
}

#[test]
fn comparisons_set_a_flag() {
    let ir = generate_ir(vec![e(ExpressionKind::Lt(b(num("1")), b(num("2"))))]);
    assert_eq!(ir[2], op("t1", "t2", Op::Cmp));
    assert_eq!(ir[3], Ir::SetFlag { dest: "t3".to_string(), cond: Cond::Lt });
}

#[test]
fn nested_loops_get_their_own_labels() {
    let inner = e(ExpressionKind::Loop(b(e(ExpressionKind::Sequence(vec![e(ExpressionKind::Break)])))));
    let outer = e(ExpressionKind::Loop(b(e(ExpressionKind::Sequence(vec![inner, e(ExpressionKind::Break)])))));
    let ir = generate_ir(vec![outer]);
    let label = |s: &str| Ir::Label(s.to_string());
    let jmp = |s: &str| Ir::Jmp { label: s.to_string() };
    assert_eq!(
        ir,
        vec![
            label("loop_0"),
            label("loop_1"),
            jmp("loop_end_1"),
            jmp("loop_1"),
            label("loop_end_1"),
            jmp("loop_end_0"),
            jmp("loop_0"),
            label("loop_end_0"),
        ]
    );
}

#[test]
fn the_primitive_type_names() {
    assert!(is_valid_type("Int".to_string()));
    assert!(is_valid_type("Bool".to_string()));
    assert!(is_valid_type("Char".to_string()));
    assert!(!is_valid_type("Byte".to_string()));
    assert!(!is_valid_type("int".to_string()));
}

#[test]
fn white_space_is_the_unicode_property() {
    for c in [' ', '\t', '\n', '\r', '\u{0B}', '\u{0C}', '\u{85}', '\u{A0}', '\u{1680}', '\u{2000}', '\u{200A}', '\u{2028}', '\u{2029}', '\u{202F}', '\u{205F}', '\u{3000}'] {
        assert!(char_is_whitespace(c));
        assert_eq!(char_is_whitespace(c), c.is_whitespace());
    }
    for c in ['a', '0', '\u{200B}', '\u{FEFF}', '\u{1F600}', '\u{180E}'] {
        assert!(!char_is_whitespace(c));
        assert_eq!(char_is_whitespace(c), c.is_whitespace());
    }
}
