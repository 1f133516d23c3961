use yora::yora_compiler::minimal::asm_generation::generate_asm;
use yora::yora_compiler::minimal::ir_generation::{generate_ir, get_inverse_jump, Ir, JmpType};
use yora::yora_compiler::minimal::lexer::{lex, Token};
use yora::yora_compiler::minimal::parser::{parse, try_parse, Expression, ParseError};

fn s(x: &str) -> String {
    x.to_string()
}

fn b(e: Expression) -> Box<Expression> {
    Box::new(e)
}

#[test]
fn test_input() {
    let input = "exit(2 + 3);\n";

    let output = vec![
        Token::Exit,
        Token::OpenParen,
        Token::IntLit("2".to_string()),
        Token::Add,
        Token::IntLit("3".to_string()),
        Token::CloseParen,
        Token::SemiColon,
    ];

    assert_eq!(lex(input.to_string()), output);
}

#[test]
fn test_parser() {
    let input = vec![
        Token::Exit,
        Token::OpenParen,
        Token::IntLit("2".to_string()),
        Token::Add,
        Token::IntLit("3".to_string()),
        Token::CloseParen,
        Token::SemiColon,
    ];
    let output = vec![Expression::Sequence(vec![Expression::Exit(Box::new(Expression::Add(
        Box::new(Expression::IntLit("2".to_string())),
        Box::new(Expression::IntLit("3".to_string())),
    )))])];
    assert_eq!(parse(input), output);
}

#[test]
fn test_ir_generation() {
    let input = vec![Expression::Exit(Box::new(Expression::Add(
        Box::new(Expression::IntLit("2".to_string())),
        Box::new(Expression::IntLit("3".to_string())),
    )))];
    let output = vec![
        Ir::Assign("t1".to_string(), "2".to_string()),
        Ir::Assign("t2".to_string(), "3".to_string()),
        Ir::Add("t1".to_string(), "t2".to_string()),
        Ir::Exit("t1".to_string()),
    ];
    assert_eq!(generate_ir(input), output);
}

#[test]
fn test_ir_generation_bool_literals() {
    let input = vec![Expression::Sequence(vec![
        Expression::Declare(b(Expression::Identifier(s("a"))), b(Expression::IntLit(s("2")))),
        Expression::If(
            b(Expression::BoolLit(s("true"))),
            b(Expression::Sequence(vec![
                Expression::Declare(b(Expression::Identifier(s("b"))), b(Expression::IntLit(s("3")))),
                Expression::If(
                    b(Expression::BoolLit(s("false"))),
                    b(Expression::Sequence(vec![Expression::Exit(b(Expression::Identifier(s("b"))))])),
                ),
                Expression::Assign(
                    b(Expression::Identifier(s("a"))),
                    b(Expression::Add(b(Expression::Identifier(s("a"))), b(Expression::Identifier(s("b"))))),
                ),
            ])),
        ),
        Expression::Exit(b(Expression::Identifier(s("a")))),
    ])];

    let output = vec![
        Ir::Assign(s("t1"), s("2")),
        Ir::Assign(s("a"), s("t1")),
        Ir::Assign(s("t2"), s("1")),
        Ir::Jmp(s("t2"), s("0"), s("end_if1"), JmpType::Je),
        Ir::Assign(s("t3"), s("3")),
        Ir::Assign(s("b"), s("t3")),
        Ir::Assign(s("t4"), s("0")),
        Ir::Jmp(s("t4"), s("0"), s("end_if2"), JmpType::Je),
        Ir::Exit(s("b")),
        Ir::Label(s("end_if2")),
        Ir::Add(s("a"), s("b")),
        Ir::Assign(s("a"), s("a")),
        Ir::Label(s("end_if1")),
        Ir::Exit(s("a")),
    ];

    assert_eq!(generate_ir(input), output);
}

#[test]
fn test_ir_generation_greater() {
    let input = vec![Expression::Sequence(vec![
        Expression::Declare(b(Expression::Identifier(s("a"))), b(Expression::IntLit(s("2")))),
        Expression::If(
            b(Expression::Greater(b(Expression::Identifier(s("a"))), b(Expression::IntLit(s("1"))))),
            b(Expression::Sequence(vec![
                Expression::Declare(b(Expression::Identifier(s("b"))), b(Expression::IntLit(s("3")))),
                Expression::If(
                    b(Expression::Greater(b(Expression::Identifier(s("a"))), b(Expression::IntLit(s("b"))))),
                    b(Expression::Sequence(vec![Expression::Exit(b(Expression::Identifier(s("b"))))])),
                ),
                Expression::Assign(
                    b(Expression::Identifier(s("a"))),
                    b(Expression::Add(b(Expression::Identifier(s("a"))), b(Expression::Identifier(s("b"))))),
                ),
            ])),
        ),
        Expression::Exit(b(Expression::Identifier(s("a")))),
    ])];

    let output = vec![
        Ir::Assign(s("t1"), s("2")),
        Ir::Assign(s("a"), s("t1")),
        Ir::Assign(s("t2"), s("1")),
        Ir::Jmp(s("a"), s("t2"), s("end_if1"), JmpType::Jle),
        Ir::Assign(s("t3"), s("3")),
        Ir::Assign(s("b"), s("t3")),
        Ir::Assign(s("t4"), s("b")),
        Ir::Jmp(s("a"), s("t4"), s("end_if2"), JmpType::Jle),
        Ir::Exit(s("b")),
        Ir::Label(s("end_if2")),
        Ir::Add(s("a"), s("b")),
        Ir::Assign(s("a"), s("a")),
        Ir::Label(s("end_if1")),
        Ir::Exit(s("a")),
    ];

    assert_eq!(generate_ir(input), output);
}

#[test]
fn test_asm_generation() {
    let input = vec![
        Ir::Assign("t1".to_string(), "2".to_string()),
        Ir::Assign("t2".to_string(), "3".to_string()),
        Ir::Add("t1".to_string(), "t2".to_string()),
        Ir::Exit("t1".to_string()),
    ];
    let output = "global _start\n\
                    _start:\n\
                        \tmov rbp, rsp\n\
                        \tmov rbx, 2\n\
                        \tmov r10, 3\n\
                        \tadd rbx, r10\n\n\
                        \tmov rdi, rbx\n\
                        \tmov rax, 60\n\
                        \tsyscall\n";
    assert_eq!(generate_asm(input), output);
}

#[test]
fn lexes_keywords_comparisons_and_unknown_characters() {
    let tokens = lex("var x = 10;\nif x >= 3 { exit(x % 2); } #".to_string());
    assert_eq!(
        tokens,
        vec![
            Token::Var,
            Token::Identifier(s("x")),
            Token::Assign,
            Token::IntLit(s("10")),
            Token::SemiColon,
            Token::If,
            Token::Identifier(s("x")),
            Token::GreaterEquals,
            Token::IntLit(s("3")),
            Token::OpenBrace,
            Token::Exit,
            Token::OpenParen,
            Token::Identifier(s("x")),
            Token::Mod,
            Token::IntLit(s("2")),
            Token::CloseParen,
            Token::SemiColon,
            Token::CloseBrace,
            Token::Unknown('#'),
        ]
    );
}

#[test]
fn parses_precedence_left_to_right() {
    let tokens = lex("exit(1 - 2 * 3 - 4);".to_string());
    let one = b(Expression::IntLit(s("1")));
    let two = b(Expression::IntLit(s("2")));
    let three = b(Expression::IntLit(s("3")));
    let four = b(Expression::IntLit(s("4")));
    let expected = vec![Expression::Sequence(vec![Expression::Exit(b(Expression::Sub(
        b(Expression::Sub(one, b(Expression::Mul(two, three)))),
        four,
    )))])];
    assert_eq!(parse(tokens), expected);
}

#[test]
fn rejects_a_missing_semicolon() {
    let tokens = lex("exit(1)".to_string());
    assert_eq!(try_parse(tokens), Err(ParseError::InvalidSyntax));
}

#[test]
fn inverse_jump_twice_is_identity() {
    for j in [JmpType::Jmp, JmpType::Je, JmpType::Jne, JmpType::Jl, JmpType::Jle, JmpType::Jg, JmpType::Jge] {
        assert_eq!(get_inverse_jump(get_inverse_jump(j)), j);
    }
    assert_eq!(get_inverse_jump(JmpType::Jg), JmpType::Jle);
}

#[test]
fn spills_past_seven_registers_and_moves_through_rax() {
    let mut input = Vec::new();
    for k in 0..9 {
        input.push(Ir::Assign(format!("v{}", k), format!("{}", k)));
    }
    input.push(Ir::Assign(s("v7"), s("v8")));
    input.push(Ir::Jmp(s("v0"), s("0"), s("end"), JmpType::Je));
    input.push(Ir::Mod(s("v1"), s("v2")));
    input.push(Ir::Label(s("end")));
    let out = generate_asm(input);
    assert!(out.contains("\tsub rsp, 8\n\tmov qword [rbp-0], 7\n"));
    assert!(out.contains("\tmov qword [rbp-8], 8\n"));
    assert!(out.contains("\tpush rax\n\tmov rax, qword [rbp-8]\n\tmov qword [rbp-0], rax\n\tpop rax\n"));
    assert!(out.contains("\tcmp rbx, 0\n\tje end\n"));
    assert!(out.contains("\tmov rax, r10\n\tdiv r11\n\tmov r10, rdx\n"));
    assert!(out.ends_with("end:\n"));
}
