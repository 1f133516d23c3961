use yora::interpreter::{parse_run_args, Flow, Interpreter};
use yora::syntax_analysis::lexer::lexes_without_panic;
use yora::syntax_analysis::{try_produce_ast, SyntaxError};
use yora::syntax_analysis::parser::expression::{Expression, ExpressionKind};
use yora::syntax_analysis::parser::statement::{Statement, StatementKind};
use yora::syntax_analysis::produce_ast;
use yora::types::PrimitiveType;

const FUEL: u64 = 1_000_000;

fn run_source(source: &str, input: Vec<&str>) -> (Flow, String) {
    let ast = match produce_ast(source.to_string()) {
        Ok(ast) => ast,
        Err(_) => panic!("not a program: {}", source),
    };
    run_ast(&ast, input, FUEL)
}

fn run_ast(ast: &Vec<Statement>, input: Vec<&str>, fuel: u64) -> (Flow, String) {
    let mut interpreter = Interpreter::new();
    let lines: Vec<String> = input.iter().map(|l| l.to_string()).collect();
    let flow = interpreter.run(ast, lines, fuel);
    (flow, interpreter.output().to_string())
}

fn finished(r: (Flow, String)) -> String {
    assert!(matches!(r.0, Flow::Go), "the run did not finish");
    r.1
}

// Building blocks for programs written as statements.

fn ex(kind: ExpressionKind, typ: Option<PrimitiveType>) -> Expression {
    Expression { kind, line: 1, col: 1, typ }
}

fn num_lit(n: i64) -> Expression {
    ex(ExpressionKind::Lit(n.to_string()), Some(PrimitiveType::Int))
}

fn boolean(b: bool) -> Expression {
    ex(ExpressionKind::Lit(b.to_string()), Some(PrimitiveType::Bool))
}

fn chr(c: char) -> Expression {
    ex(ExpressionKind::Lit(format!("'{}'", c)), Some(PrimitiveType::Char))
}

fn string(s: &str) -> Expression {
    ex(ExpressionKind::Lit(format!("\"{}\"", s)), Some(PrimitiveType::Arr(Box::new(PrimitiveType::Char))))
}

fn id(name: &str) -> Expression {
    ex(ExpressionKind::Id(name.to_string()), None)
}

fn call(name: &str, args: Vec<Expression>) -> Expression {
    ex(ExpressionKind::Call(name.to_string(), args), None)
}

fn array(values: Vec<Expression>) -> Expression {
    ex(ExpressionKind::Array(values), None)
}

fn st(kind: StatementKind) -> Statement {
    Statement { kind, line: 1, col: 1 }
}

fn declare(name: &str, value: Expression) -> Statement {
    st(StatementKind::Declare { name: name.to_string(), type_hint: None, value: Some(value) })
}

fn assign(dest: Expression, src: Expression) -> Statement {
    st(StatementKind::Assign { dest, src })
}

fn print(e: Expression) -> Statement {
    st(StatementKind::Call { name: "print".to_string(), args: vec![e] })
}

fn procedure(name: &str, params: Vec<&str>, block: Vec<Statement>) -> Statement {
    st(StatementKind::Procedure {
        name: name.to_string(),
        args: params.iter().map(|p| (p.to_string(), Some(PrimitiveType::Int))).collect(),
        ret: Some(PrimitiveType::Int),
        block,
    })
}

fn ret(e: Expression) -> Statement {
    st(StatementKind::Return { value: e })
}

// Programs read from text.

#[test]
fn hello_world() {
    assert_eq!(finished(run_source("print(\"Hello World\\n\")\n", vec![])), "Hello World\n");
}

#[test]
fn arithmetic_on_literals() {
    assert_eq!(finished(run_source("print(1 + 2)\nprint(2 * 3 - 1)\nprint(7 / 2)\nprint(7 % 4)\n", vec![])), "3533");
}

#[test]
fn comparisons_and_boolean_algebra() {
    assert_eq!(finished(run_source("print(3 <= 5)\nprint(3 > 5)\nprint(true and false)\nprint(true or false)\n", vec![])), "truefalsefalsetrue");
}

#[test]
fn if_and_else_blocks() {
    assert_eq!(finished(run_source("if 1 < 2:\n    print(1)\nprint(2)\n", vec![])), "12");
    assert_eq!(finished(run_source("if 1 > 2:\n    print(1)\nelse:\n    print(3)\n", vec![])), "3");
}

#[test]
fn while_with_a_false_condition_runs_nothing() {
    assert_eq!(finished(run_source("while false:\n    print(1)\nprint(0)\n", vec![])), "0");
}

#[test]
fn string_length_and_escapes() {
    assert_eq!(finished(run_source("print(string_len(\"four\"))\nprint(\"a\\tb\\\\c\\n\")\n", vec![])), "4a\tb\\c\n");
}

#[test]
fn comments_are_skipped() {
    assert_eq!(finished(run_source("print(1)\n# a comment\nprint(2)\n", vec![])), "12");
}

#[test]
fn division_by_zero_panics() {
    let (flow, _) = run_source("print(1 / 0)\n", vec![]);
    assert!(matches!(flow, Flow::Panic));
}

#[test]
fn a_last_lone_break_ends_the_loop() {
    let ast = produce_ast("loop:\n    print(1)\n    break\n".to_string()).ok().unwrap();
    let (flow, out) = run_ast(&ast, vec![], 100);
    assert!(matches!(flow, Flow::Go));
    assert_eq!(out, "1");
}

// Programs written as statements.

#[test]
fn variables_change() {
    let p = vec![declare("answer", num_lit(3)), print(id("answer")), assign(id("answer"), num_lit(42)), print(id("answer"))];
    assert_eq!(finished(run_ast(&p, vec![], FUEL)), "342");
}

#[test]
fn undeclared_variable_panics() {
    let p = vec![print(id("nothing"))];
    assert!(matches!(run_ast(&p, vec![], FUEL).0, Flow::Panic));
}

#[test]
fn printing_primitives() {
    let p = vec![print(num_lit(42)), print(boolean(true)), print(chr('B')), print(string("Answer")), print(num_lit(-7))];
    assert_eq!(finished(run_ast(&p, vec![], FUEL)), "42trueBAnswer-7");
}

#[test]
fn arrays_are_indexed_and_assigned() {
    let p = vec![
        declare("nums", array(vec![num_lit(1), num_lit(2), num_lit(3)])),
        print(call("[]", vec![id("nums"), num_lit(0)])),
        declare("planet", string("Earth")),
        print(call("[]", vec![id("planet"), num_lit(2)])),
        assign(call("[]", vec![id("nums"), num_lit(1)]), num_lit(7)),
        print(call("[]", vec![id("nums"), num_lit(1)])),
        print(call("[]", vec![id("nums"), num_lit(2)])),
    ];
    assert_eq!(finished(run_ast(&p, vec![], FUEL)), "1r73");
}

#[test]
fn index_out_of_range_panics() {
    let p = vec![declare("a", array(vec![num_lit(1)])), print(call("[]", vec![id("a"), num_lit(3)]))];
    assert!(matches!(run_ast(&p, vec![], FUEL).0, Flow::Panic));
    let q = vec![declare("a", array(vec![num_lit(1)])), assign(call("[]", vec![id("a"), num_lit(-1)]), num_lit(0))];
    assert!(matches!(run_ast(&q, vec![], FUEL).0, Flow::Panic));
}

#[test]
fn overflow_panics() {
    let p = vec![print(call("*", vec![num_lit(i64::MAX), num_lit(2)]))];
    assert!(matches!(run_ast(&p, vec![], FUEL).0, Flow::Panic));
}

#[test]
fn procedures_return_values() {
    let body = vec![ret(call("==", vec![call("%", vec![id("num"), num_lit(2)]), num_lit(0)]))];
    let p = vec![
        procedure("is_multiple_of_two", vec!["num"], body),
        print(call("is_multiple_of_two", vec![num_lit(7)])),
        print(call("is_multiple_of_two", vec![num_lit(8)])),
    ];
    assert_eq!(finished(run_ast(&p, vec![], FUEL)), "falsetrue");
}

#[test]
fn arguments_are_passed_by_value() {
    let body = vec![assign(id("n"), call("+", vec![id("n"), num_lit(1)])), print(id("n"))];
    let p = vec![
        procedure("bump", vec!["n"], body),
        declare("n", num_lit(5)),
        st(StatementKind::Call { name: "bump".to_string(), args: vec![id("n")] }),
        print(id("n")),
    ];
    assert_eq!(finished(run_ast(&p, vec![], FUEL)), "65");
}

#[test]
fn recursion_works() {
    let body = vec![
        st(StatementKind::If { cond: call("<=", vec![id("n"), num_lit(1)]), block: vec![ret(num_lit(1))] }),
        ret(call("*", vec![id("n"), call("fact", vec![call("-", vec![id("n"), num_lit(1)])])])),
    ];
    let p = vec![procedure("fact", vec!["n"], body), print(call("fact", vec![num_lit(10)]))];
    assert_eq!(finished(run_ast(&p, vec![], FUEL)), "3628800");
}

#[test]
fn a_procedure_without_return_used_as_a_value_panics() {
    let p = vec![procedure("nothing", vec![], vec![print(num_lit(1))]), print(call("nothing", vec![]))];
    assert!(matches!(run_ast(&p, vec![], FUEL).0, Flow::Panic));
}

#[test]
fn undefined_procedure_panics() {
    let p = vec![st(StatementKind::Call { name: "missing".to_string(), args: vec![] })];
    assert!(matches!(run_ast(&p, vec![], FUEL).0, Flow::Panic));
}

#[test]
fn input_lines_are_read_in_order() {
    let p = vec![
        declare("s", call("input", vec![])),
        print(id("s")),
        print(call("+", vec![call("string_to_int", vec![call("input", vec![])]), num_lit(5)])),
        print(call("string_len", vec![call("input", vec![])])),
    ];
    assert_eq!(finished(run_ast(&p, vec!["hi\n", "37\n"], FUEL)), "hi\n420");
}

#[test]
fn string_to_int_of_no_number_panics() {
    let p = vec![print(call("string_to_int", vec![call("input", vec![])]))];
    assert!(matches!(run_ast(&p, vec!["x1\n"], FUEL).0, Flow::Panic));
}

#[test]
fn conversions_between_chars_and_ints() {
    let p = vec![
        print(call("char_to_int", vec![chr('A')])),
        print(call("int_to_char", vec![num_lit(66)])),
    ];
    assert_eq!(finished(run_ast(&p, vec![], FUEL)), "65B");
    let q = vec![print(call("int_to_char", vec![num_lit(0xD800)]))];
    assert!(matches!(run_ast(&q, vec![], FUEL).0, Flow::Panic));
}

#[test]
fn break_ends_the_loop() {
    let p = vec![
        declare("num", num_lit(0)),
        st(StatementKind::While {
            cond: boolean(true),
            block: vec![
                print(id("num")),
                assign(id("num"), call("+", vec![id("num"), num_lit(1)])),
                st(StatementKind::If { cond: call(">=", vec![id("num"), num_lit(3)]), block: vec![st(StatementKind::Break)] }),
            ],
        }),
        print(num_lit(9)),
    ];
    assert_eq!(finished(run_ast(&p, vec![], FUEL)), "0129");
}

#[test]
fn continue_skips_to_the_next_round() {
    let p = vec![
        declare("i", num_lit(0)),
        st(StatementKind::Loop {
            block: vec![
                assign(id("i"), call("+", vec![id("i"), num_lit(1)])),
                st(StatementKind::IfElse {
                    cond: call("==", vec![id("i"), num_lit(2)]),
                    true_block: vec![st(StatementKind::Continue)],
                    false_block: vec![],
                }),
                st(StatementKind::IfElse {
                    cond: call(">", vec![id("i"), num_lit(3)]),
                    true_block: vec![st(StatementKind::Break)],
                    false_block: vec![],
                }),
                print(id("i")),
            ],
        }),
    ];
    assert_eq!(finished(run_ast(&p, vec![], FUEL)), "13");
}

#[test]
fn exit_stops_the_program() {
    let p = vec![
        print(num_lit(1)),
        st(StatementKind::Call { name: "exit".to_string(), args: vec![] }),
        print(num_lit(2)),
    ];
    let (flow, out) = run_ast(&p, vec![], FUEL);
    assert!(matches!(flow, Flow::Exit));
    assert_eq!(out, "1");
}

#[test]
fn an_endless_loop_runs_out_of_fuel() {
    let p = vec![st(StatementKind::Loop { block: vec![print(num_lit(1))] })];
    assert!(matches!(run_ast(&p, vec![], 1000).0, Flow::OutOfFuel));
}

#[test]
fn a_scope_holds_at_most_127_variables() {
    let p = vec![st(StatementKind::Loop { block: vec![declare("x", num_lit(1))] })];
    assert!(matches!(run_ast(&p, vec![], FUEL).0, Flow::Panic));
}

#[test]
fn variables_of_a_block_end_with_it() {
    let p = vec![
        st(StatementKind::If { cond: boolean(true), block: vec![declare("inner", num_lit(1))] }),
        print(id("inner")),
    ];
    assert!(matches!(run_ast(&p, vec![], FUEL).0, Flow::Panic));
}

#[test]
fn a_program_tree_is_drawn() {
    let ast = produce_ast("print(1 + 2)\n".to_string()).ok().unwrap();
    assert_eq!(ast[0].to_string(), "print\n└── +\n    ├── 1\n    └── 2\n");
    let p = vec![
        st(StatementKind::Declare { name: "x".to_string(), type_hint: Some(PrimitiveType::Int), value: Some(num_lit(3)) }),
        st(StatementKind::While { cond: boolean(true), block: vec![st(StatementKind::Break)] }),
    ];
    assert_eq!(p[0].to_string(), "var\n├── x: Int\n└── 3\n");
    assert_eq!(p[1].to_string(), "while\n├── true\n└── then\n    └── break\n");
}

#[test]
fn texts_whose_checks_panic_are_told_apart() {
    assert!(!lexes_without_panic(&"print(é)\n".to_string()));
    assert!(lexes_without_panic(&"print(1)\n".to_string()));
    assert!(try_produce_ast("print(é)\n".to_string()).is_none());
    assert!(try_produce_ast("var x = 1\nvar y = x\n".to_string()).is_none());
    assert!(matches!(try_produce_ast("print(1)\n".to_string()), Some(Ok(_))));
}

#[test]
fn errors_of_the_checks_are_reported() {
    match produce_ast("var x = 1\nx = 2\n".to_string()) {
        Err(SyntaxError::Check(errors)) => {
            assert_eq!(errors.len(), 1);
            assert_eq!(errors.message(0), "2:1: invalid identifier\n");
        }
        _ => panic!("expected a check error"),
    }
    match produce_ast("var a$ = 2\n".to_string()) {
        Err(SyntaxError::Lex(_)) => {}
        _ => panic!("expected a lex error"),
    }
    match produce_ast("var nums = [1, 2]\n".to_string()) {
        Err(SyntaxError::Parse(_)) => {}
        _ => panic!("expected a parse error"),
    }
}

#[test]
fn the_interpreter_reads_its_command_line() {
    let a: Vec<String> = vec!["yora".to_string(), "main.yr".to_string(), "--ast".to_string()];
    assert_eq!(parse_run_args(&a), Some(("main.yr".to_string(), true)));
    let b: Vec<String> = vec!["yora".to_string()];
    assert_eq!(parse_run_args(&b), Some(("yora".to_string(), false)));
    let c: Vec<String> = vec![];
    assert_eq!(parse_run_args(&c), None);
}

#[test]
fn division_rounds_toward_zero_and_the_remainder_takes_the_sign_of_the_dividend() {
    let neg = |n: i64| call("-", vec![num_lit(n)]);
    let p = vec![
        print(call("/", vec![neg(7), num_lit(2)])),
        print(string(" ")),
        print(call("%", vec![neg(7), num_lit(2)])),
        print(string(" ")),
        print(call("%", vec![num_lit(7), neg(2)])),
    ];
    assert_eq!(finished(run_ast(&p, vec![], FUEL)), "-3 -1 1");
}

#[test]
fn text_printed_before_a_panic_is_kept() {
    let (flow, out) = run_source("print(1)\nprint(1 / 0)\nprint(2)\n", vec![]);
    assert!(matches!(flow, Flow::Panic));
    assert_eq!(out, "1");
    let p = vec![print(string("ok ")), print(array(vec![chr('a'), num_lit(1), chr('b')]))];
    let (flow, out) = run_ast(&p, vec![], FUEL);
    assert!(matches!(flow, Flow::Panic));
    assert_eq!(out, "ok a");
}

#[test]
fn text_printed_before_the_fuel_runs_out_is_kept() {
    let p = vec![print(num_lit(7)), st(StatementKind::Loop { block: vec![] })];
    let (flow, out) = run_ast(&p, vec![], 50);
    assert!(matches!(flow, Flow::OutOfFuel));
    assert_eq!(out, "7");
}

