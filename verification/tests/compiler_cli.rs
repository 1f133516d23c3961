use yora::yora_compiler::compiler::{parse_args, Compiler, DebugOptions, Flag, Stage};

fn args(v: &[&str]) -> Vec<String> {
    v.iter().map(|s| s.to_string()).collect()
}

#[test]
fn test_flag_system_output() {
    let input = args(&["program", "test.yr", "-o", "output_file"]);
    let (printed, result) = parse_args(input);
    assert!(printed.is_empty());
    assert_eq!(result, Ok(("test".to_string(), vec![(Flag::Output, Some("output_file".to_string()))])));
}

#[test]
fn test_flag_system_debug() {
    let input = args(&["program", "test.yr", "-d", "ast"]);
    let (printed, result) = parse_args(input);
    assert!(printed.is_empty());
    assert_eq!(result, Ok(("test".to_string(), vec![(Flag::Debug(DebugOptions::Ast), None)])));
}

#[test]
fn test_flag_system_asm() {
    let input = args(&["program", "test.yr", "-s"]);
    let (printed, result) = parse_args(input);
    assert!(printed.is_empty());
    assert_eq!(result, Ok(("test".to_string(), vec![(Flag::Assembly, None)])));
}

#[test]
fn missing_file_name_exits_with_one() {
    let (printed, result) = parse_args(args(&["program", "-s"]));
    assert_eq!(result, Err(1));
    assert_eq!(printed, vec!["No filename given.\n".to_string()]);
}

#[test]
fn wrong_extension_exits_with_one() {
    let (printed, result) = parse_args(args(&["program", "test.txt"]));
    assert_eq!(result, Err(1));
    assert_eq!(printed, vec!["Incorrect extension: please use .yr\n".to_string()]);
}

#[test]
fn help_exits_with_zero() {
    let (printed, result) = parse_args(args(&["program", "-h"]));
    assert_eq!(result, Err(0));
    assert_eq!(printed.len(), 1);
    assert!(printed[0].starts_with("Usage: yora-compiler [options] file\n"));
}

#[test]
fn invalid_debug_option_exits_with_one() {
    let (printed, result) = parse_args(args(&["program", "a.yr", "-d", "colors"]));
    assert_eq!(result, Err(1));
    assert_eq!(printed, vec!["Invalid debug option.\n".to_string()]);
}

#[test]
fn a_program_compiles_to_assembly() {
    let compiler = Compiler::new();
    match compiler.get_assembly("exit(2 + 3)\n".to_string()) {
        Stage::Assembly(text) => {
            assert!(text.starts_with("global _start\n_start:\n\tmov rbp, rsp\n"));
            assert!(text.contains("\tmov rax, 60\n\tsyscall\n"));
        },
        _ => panic!("no assembly"),
    }
}

#[test]
fn the_ast_stop_shows_the_tree() {
    let mut compiler = Compiler::new();
    compiler.set_flags(vec![Flag::Debug(DebugOptions::Ast)]);
    match compiler.get_assembly("exit(2 + 3)\n".to_string()) {
        Stage::Ast(v) => assert_eq!(v.len(), 1),
        _ => panic!("no tree"),
    }
}

#[test]
fn a_word_that_cannot_be_read_is_told_apart() {
    use_try(&["program", ""], true);
    use_try(&["program", "é.yr"], true);
    use_try(&["program", "a.yr", "-o", ""], false);
}

fn use_try(words: &[&str], panics: bool) {
    let r = yora::yora_compiler::compiler::try_parse_args(args(words));
    assert_eq!(r.is_none(), panics);
}
