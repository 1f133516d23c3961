//! The compiler driver: command-line options, output names, and the passes from source
//! text to assembly with the debug stops between them.
use vstd::prelude::*;
use crate::text::{str_eq, string_of, chars_of, push_char};
use crate::yora_compiler::lexer::{lex, lex_spec, LexError, Token, tokens_view};
use crate::yora_compiler::parser::{parse, parse_sequence, Expression, ParseError, exprs_view};
use crate::yora_compiler::analyzer::{analyze, check_all, initial_state, errors_view, Error, AnalysisError};
use crate::yora_compiler::ir_gen::{generate_ir, can_lower, gen_all, Counters, irs_view, lowerable_all, size_all, Ir};
use crate::yora_compiler::optimizer::{optimize, propagated, without_self_assigns};
use crate::yora_compiler::asm_gen::{generate_asm, assemble, infer_types, inferred_types, lemma_inferred_types_type_everything};

verus! {

/// What to print instead of compiling.
#[derive(Debug, PartialEq, Eq, Structural, Clone, Copy, Hash)]
pub enum DebugOptions {
    Tokens,
    Ast,
    Ir,
}

/// A command-line option.
#[derive(Debug, PartialEq, Eq, Structural, Clone, Copy, Hash)]
pub enum Flag {
    Debug(DebugOptions),
    Assembly,
    Output,
}

/// The values of command-line words.
pub open spec fn strings_view(v: Seq<String>) -> Seq<Seq<char>> {
    Seq::new(v.len(), |i: int| v[i]@)
}

/// The values of option bindings.
pub open spec fn flags_view(v: Seq<(Flag, Option<String>)>) -> Seq<(Flag, Option<Seq<char>>)> {
    Seq::new(
        v.len(),
        |i: int|
            (
                v[i].0,
                match v[i].1 {
                    Some(s) => Some(s@),
                    None => None,
                },
            ),
    )
}

/// The bindings without those of `f`, in order.
pub open spec fn without_flag(s: Seq<(Flag, Option<Seq<char>>)>, f: Flag) -> Seq<(Flag, Option<Seq<char>>)>
    decreases s.len(),
{
    if s.len() == 0 {
        seq![]
    } else if s.last().0 == f {
        without_flag(s.drop_last(), f)
    } else {
        without_flag(s.drop_last(), f).push(s.last())
    }
}

/// The bindings after binding `f` to `v`: an earlier binding of `f` is replaced.
pub open spec fn set_flag(s: Seq<(Flag, Option<Seq<char>>)>, f: Flag, v: Option<Seq<char>>) -> Seq<(Flag, Option<Seq<char>>)> {
    without_flag(s, f).push((f, v))
}

/// How reading the command line ends: with a file name, options and the notices printed
/// on the way; with an exit code after the texts printed; or in a panic.
pub enum ArgsEnd {
    Done(Seq<char>, Seq<(Flag, Option<Seq<char>>)>, Seq<Seq<char>>),
    Exit(Seq<Seq<char>>, int),
    Panic,
}

pub open spec fn output_usage() -> Seq<char> {
    "Incorrect usage of output flag.\nCorrect usage: \n\t-o, --output <filename>\tWrite output to <filename>\n"@
}

pub open spec fn debug_usage() -> Seq<char> {
    "Incorrect usage of debug flag.\nCorrect usage:\n\t-d, --debug [tokens, ast]\tPrints debug information\n"@
}

pub open spec fn invalid_debug_option() -> Seq<char> {
    "Invalid debug option.\n"@
}

pub open spec fn help_text() -> Seq<char> {
    "Usage: yora-compiler [options] file\nOption:\n\t-h, --help\t\t\tDisplay this message\n\t-o, --output <filename>\t\tWrite output to <filename>\n\t-d, --debug [tokens, ast, ir]\tPrints debug information\n\t-s, --assembly\t\t\tCompile only; do not assemble or link\n"@
}

pub open spec fn incorrect_usage() -> Seq<char> {
    "Incorrect usage\n"@
}

pub open spec fn incorrect_extension() -> Seq<char> {
    "Incorrect extension: please use .yr\n"@
}

pub open spec fn many_filenames() -> Seq<char> {
    "More than one filename given.\nUse -h for help.\n"@
}

pub open spec fn no_filename() -> Seq<char> {
    "No filename given.\n"@
}

/// The word names a source file: it ends in `.yr`.
pub open spec fn has_source_extension(s: Seq<char>) -> bool {
    s.len() >= 3 && s[s.len() - 3] == '.' && s[s.len() - 2] == 'y' && s[s.len() - 1] == 'r'
}

/// The debug option that a word names.
pub open spec fn debug_option(s: Seq<char>) -> Option<DebugOptions> {
    if s == "tokens"@ {
        Some(DebugOptions::Tokens)
    } else if s == "ast"@ {
        Some(DebugOptions::Ast)
    } else if s == "ir"@ {
        Some(DebugOptions::Ir)
    } else {
        None
    }
}

/// Reading the command line from word `i` on, with the file name, options and printed
/// texts so far.
pub open spec fn scan_args(
    args: Seq<Seq<char>>,
    i: int,
    filename: Seq<char>,
    flags: Seq<(Flag, Option<Seq<char>>)>,
    out: Seq<Seq<char>>,
) -> ArgsEnd
    decreases args.len() - i,
{
    if i >= args.len() || i < 0 {
        if filename.len() == 0 {
            ArgsEnd::Exit(out.push(no_filename()), 1)
        } else {
            ArgsEnd::Done(filename, flags, out)
        }
    } else {
        let arg = args[i];
        if arg == "-o"@ || arg == "--output"@ {
            if i + 1 < args.len() {
                scan_args(args, i + 2, filename, set_flag(flags, Flag::Output, Some(args[i + 1])), out)
            } else {
                ArgsEnd::Exit(out.push(output_usage()), 1)
            }
        } else if arg == "-d"@ || arg == "--debug"@ {
            if i + 1 < args.len() {
                match debug_option(args[i + 1]) {
                    Some(d) => scan_args(args, i + 2, filename, set_flag(flags, Flag::Debug(d), None), out),
                    None => ArgsEnd::Exit(out.push(invalid_debug_option()), 1),
                }
            } else {
                ArgsEnd::Exit(out.push(debug_usage()), 1)
            }
        } else if arg == "-s"@ || arg == "--assembly"@ {
            scan_args(args, i + 1, filename, set_flag(flags, Flag::Assembly, None), out)
        } else if arg == "-h"@ || arg == "--help"@ {
            ArgsEnd::Exit(out.push(help_text()), 0)
        } else if arg.len() == 0 || arg[0] as u32 >= 128 {
            ArgsEnd::Panic
        } else if arg[0] == '-' {
            scan_args(args, i + 1, filename, flags, out.push(incorrect_usage()))
        } else if filename.len() == 0 {
            if has_source_extension(arg) {
                scan_args(args, i + 1, arg.take(arg.len() - 3), flags, out)
            } else {
                ArgsEnd::Exit(out.push(incorrect_extension()), 1)
            }
        } else {
            ArgsEnd::Exit(out.push(many_filenames()), 1)
        }
    }
}

/// Reading a whole command line, whose first word names the program.
pub open spec fn read_args(args: Seq<Seq<char>>) -> ArgsEnd {
    scan_args(args, 1, seq![], seq![], seq![])
}

fn set_flag_exec(flags: &mut Vec<(Flag, Option<String>)>, f: Flag, v: Option<String>)
    ensures
        flags_view(final(flags)@) == set_flag(flags_view(old(flags)@), f, match v {
            Some(s) => Some(s@),
            None => None,
        }),
{
    let ghost s = flags_view(flags@);
    let mut kept: Vec<(Flag, Option<String>)> = Vec::new();
    let mut k: usize = 0;
    while k < flags.len()
        invariant
            s == flags_view(flags@),
            0 <= k <= flags.len(),
            flags_view(kept@) == without_flag(s.take(k as int), f),
        decreases flags.len() - k,
    {
        assert(s.take(k as int + 1).drop_last() =~= s.take(k as int));
        assert(s[k as int].0 == flags@[k as int].0);
        if flags[k].0 != f {
            let value = match &flags[k].1 {
                Some(t) => Some(t.clone()),
                None => None,
            };
            let ghost before = kept@;
            kept.push((flags[k].0, value));
            assert(flags_view(kept@) =~= flags_view(before).push(s[k as int]));
        }
        k += 1;
    }
    assert(s.take(k as int) =~= s);
    let ghost before = kept@;
    let ghost vv = match v {
        Some(ref t) => Some(t@),
        None => None::<Seq<char>>,
    };
    kept.push((f, v));
    assert(flags_view(kept@) =~= flags_view(before).push((f, vv)));
    *flags = kept;
}

fn message(text: &str) -> (s: String)
    ensures
        s@ == text@,
{
    string_of(text)
}

/// Reads the command line as `parse_args` does; `None` exactly where reading it panics
/// (at a word, read as a file name, that is empty or starts with a character of more than
/// one byte).
pub fn try_parse_args(args: Vec<String>) -> (r: Option<(Vec<String>, Result<(String, Vec<(Flag, Option<String>)>), i32>)>)
    ensures
        match read_args(strings_view(args@)) {
            ArgsEnd::Done(name, flags, out) => r matches Some(x) && x.1 is Ok && x.1->Ok_0.0@ == name
                && flags_view(x.1->Ok_0.1@) == flags && strings_view(x.0@) == out,
            ArgsEnd::Exit(out, code) => r matches Some(x) && x.1 == Err::<(String, Vec<(Flag, Option<String>)>), i32>(code as i32)
                && strings_view(x.0@) == out,
            ArgsEnd::Panic => r is None,
        },
{
    let ghost a = strings_view(args@);
    let mut filename = String::new();
    let mut flags: Vec<(Flag, Option<String>)> = Vec::new();
    let mut out: Vec<String> = Vec::new();
    let mut i: usize = 1;
    assert(flags_view(flags@) =~= seq![]);
    assert(strings_view(out@) =~= seq![]);
    while i < args.len()
        invariant
            a == strings_view(args@),
            1 <= i,
            read_args(a) == scan_args(a, i as int, filename@, flags_view(flags@), strings_view(out@)),
        decreases args.len() - i,
    {
        let arg = &args[i];
        assert(a[i as int] == arg@);
        if str_eq(arg.as_str(), "-o") || str_eq(arg.as_str(), "--output") {
            if i + 1 < args.len() {
                assert(a[i as int + 1] == args@[i as int + 1]@);
                set_flag_exec(&mut flags, Flag::Output, Some(args[i + 1].clone()));
                i = i + 2;
            } else {
                let ghost before = out@;
                out.push(message("Incorrect usage of output flag.\nCorrect usage: \n\t-o, --output <filename>\tWrite output to <filename>\n"));
                assert(strings_view(out@) =~= strings_view(before).push(output_usage()));
                return Some((out, Err(1)));
            }
        } else if str_eq(arg.as_str(), "-d") || str_eq(arg.as_str(), "--debug") {
            if i + 1 < args.len() {
                let option = &args[i + 1];
                assert(a[i as int + 1] == option@);
                let d = if str_eq(option.as_str(), "tokens") {
                    DebugOptions::Tokens
                } else if str_eq(option.as_str(), "ast") {
                    DebugOptions::Ast
                } else if str_eq(option.as_str(), "ir") {
                    DebugOptions::Ir
                } else {
                    let ghost before = out@;
                    out.push(message("Invalid debug option.\n"));
                    assert(strings_view(out@) =~= strings_view(before).push(invalid_debug_option()));
                    return Some((out, Err(1)));
                };
                set_flag_exec(&mut flags, Flag::Debug(d), None);
                i = i + 2;
            } else {
                let ghost before = out@;
                out.push(message("Incorrect usage of debug flag.\nCorrect usage:\n\t-d, --debug [tokens, ast]\tPrints debug information\n"));
                assert(strings_view(out@) =~= strings_view(before).push(debug_usage()));
                return Some((out, Err(1)));
            }
        } else if str_eq(arg.as_str(), "-s") || str_eq(arg.as_str(), "--assembly") {
            set_flag_exec(&mut flags, Flag::Assembly, None);
            i = i + 1;
        } else if str_eq(arg.as_str(), "-h") || str_eq(arg.as_str(), "--help") {
            let ghost before = out@;
            out.push(message("Usage: yora-compiler [options] file\nOption:\n\t-h, --help\t\t\tDisplay this message\n\t-o, --output <filename>\t\tWrite output to <filename>\n\t-d, --debug [tokens, ast, ir]\tPrints debug information\n\t-s, --assembly\t\t\tCompile only; do not assemble or link\n"));
            assert(strings_view(out@) =~= strings_view(before).push(help_text()));
            return Some((out, Err(0)));
        } else {
            let chars = chars_of(arg.as_str());
            if chars.len() == 0 || (chars[0] as u32) >= 128 {
                return None;
            }
            if chars[0] == '-' {
                let ghost before = out@;
                out.push(message("Incorrect usage\n"));
                assert(strings_view(out@) =~= strings_view(before).push(incorrect_usage()));
                i = i + 1;
            } else if filename.as_str().is_empty() {
                let n = chars.len();
                if n >= 3 && chars[n - 3] == '.' && chars[n - 2] == 'y' && chars[n - 1] == 'r' {
                    let mut name = String::new();
                    let mut k: usize = 0;
                    while k < n - 3
                        invariant
                            n == chars@.len(),
                            n >= 3,
                            0 <= k <= n - 3,
                            name@ == chars@.take(k as int),
                        decreases n - 3 - k,
                    {
                        push_char(&mut name, chars[k]);
                        assert(chars@.take(k as int + 1) =~= chars@.take(k as int).push(chars@[k as int]));
                        k += 1;
                    }
                    filename = name;
                    i = i + 1;
                } else {
                    let ghost before = out@;
                    out.push(message("Incorrect extension: please use .yr\n"));
                    assert(strings_view(out@) =~= strings_view(before).push(incorrect_extension()));
                    return Some((out, Err(1)));
                }
            } else {
                let ghost before = out@;
                out.push(message("More than one filename given.\nUse -h for help.\n"));
                assert(strings_view(out@) =~= strings_view(before).push(many_filenames()));
                return Some((out, Err(1)));
            }
        }
    }
    if filename.as_str().is_empty() {
        let ghost before = out@;
        out.push(message("No filename given.\n"));
        assert(strings_view(out@) =~= strings_view(before).push(no_filename()));
        return Some((out, Err(1)));
    }
    Some((out, Ok((filename, flags))))
}

/// Reads the command line: the source file's name without its `.yr`, the options with the
/// value of each, and the notices printed on the way; or the texts to print and the
/// exit code where reading stops.
pub fn parse_args(args: Vec<String>) -> (r: (Vec<String>, Result<(String, Vec<(Flag, Option<String>)>), i32>))
    requires
        !(read_args(strings_view(args@)) is Panic),
    ensures
        match read_args(strings_view(args@)) {
            ArgsEnd::Done(name, flags, out) => r.1 is Ok && r.1->Ok_0.0@ == name
                && flags_view(r.1->Ok_0.1@) == flags && strings_view(r.0@) == out,
            ArgsEnd::Exit(out, code) => r.1 == Err::<(String, Vec<(Flag, Option<String>)>), i32>(code as i32)
                && strings_view(r.0@) == out,
            ArgsEnd::Panic => false,
        },
{
    match try_parse_args(args) {
        Some(r) => r,
        None => (Vec::new(), Err(1)),
    }
}

} // verus!

verus! {

/// The source file, the names of what compiling it writes, and the options.
pub struct Compiler {
    filename: String,
    asm_name: String,
    obj_name: String,
    exec_name: String,
    flags: Vec<Flag>,
}

/// Where the passes stop: at a debug stop with what it shows, with the assembly text, or
/// at the first pass that fails.
pub enum Stage {
    Tokens(Vec<Token>),
    Ast(Vec<Expression>),
    Ir(Vec<Ir>),
    Assembly(String),
    LexFailed(LexError),
    ParseFailed(ParseError),
    Rejected(Vec<Error>),
    AnalysisFailed(AnalysisError),
    NotLowerable,
    TooLarge,
}

impl Compiler {
    /// The source file's name, without `.yr`.
    pub closed spec fn spec_filename(&self) -> Seq<char> {
        self.filename@
    }

    /// The name of the assembly file.
    pub closed spec fn spec_asm_name(&self) -> Seq<char> {
        self.asm_name@
    }

    /// The name of the object file.
    pub closed spec fn spec_obj_name(&self) -> Seq<char> {
        self.obj_name@
    }

    /// The name of the executable.
    pub closed spec fn spec_exec_name(&self) -> Seq<char> {
        self.exec_name@
    }

    /// The options.
    pub closed spec fn spec_flags(&self) -> Seq<Flag> {
        self.flags@
    }

    /// A compiler with no file and no options.
    pub fn new() -> (c: Compiler)
        ensures
            c.spec_filename() == Seq::<char>::empty(),
            c.spec_asm_name() == Seq::<char>::empty(),
            c.spec_obj_name() == Seq::<char>::empty(),
            c.spec_exec_name() == Seq::<char>::empty(),
            c.spec_flags() == Seq::<Flag>::empty(),
    {
        Compiler {
            filename: String::new(),
            asm_name: String::new(),
            obj_name: String::new(),
            exec_name: String::new(),
            flags: Vec::new(),
        }
    }

    /// Replaces the options.
    pub fn set_flags(&mut self, flags: Vec<Flag>)
        ensures
            final(self).spec_flags() == flags@,
            final(self).spec_filename() == old(self).spec_filename(),
            final(self).spec_asm_name() == old(self).spec_asm_name(),
            final(self).spec_obj_name() == old(self).spec_obj_name(),
            final(self).spec_exec_name() == old(self).spec_exec_name(),
    {
        self.flags = flags;
    }

    /// Whether an option is set.
    pub fn has_flag(&self, f: Flag) -> (r: bool)
        ensures
            r == self.spec_flags().contains(f),
    {
        let mut k: usize = 0;
        while k < self.flags.len()
            invariant
                0 <= k <= self.flags@.len(),
                forall|j: int| 0 <= j < k ==> self.flags@[j] != f,
            decreases self.flags.len() - k,
        {
            if self.flags[k] == f {
                assert(self.flags@[k as int] == f);
                return true;
            }
            k += 1;
        }
        false
    }

    /// Names the outputs of compiling `filename`: the executable is `exec_name` unless
    /// that is empty, then the source's name; the object file is the scratch file
    /// `obj_tmp`; the assembly file is the executable's name with `.asm` when only
    /// assembly is asked for, else the scratch file `asm_tmp`.
    pub fn set_filename(&mut self, filename: &String, exec_name: &String, obj_tmp: String, asm_tmp: String)
        ensures
            final(self).spec_filename() == filename@,
            final(self).spec_obj_name() == obj_tmp@,
            final(self).spec_exec_name() == (if exec_name@.len() > 0 { exec_name@ } else { filename@ }),
            final(self).spec_asm_name() == (if old(self).spec_flags().contains(Flag::Assembly) {
                final(self).spec_exec_name() + ".asm"@
            } else {
                asm_tmp@
            }),
            final(self).spec_flags() == old(self).spec_flags(),
    {
        self.filename = filename.clone();
        self.obj_name = obj_tmp;
        self.exec_name = if exec_name.as_str().is_empty() {
            filename.clone()
        } else {
            exec_name.clone()
        };
        let mut asm_name = self.exec_name.clone();
        self.asm_name = if self.has_flag(Flag::Assembly) {
            asm_name.append(".asm");
            asm_name
        } else {
            asm_tmp
        };
    }

    /// The source file's name, without `.yr`.
    pub fn filename(&self) -> (r: &String)
        ensures
            r@ == self.spec_filename(),
    {
        &self.filename
    }

    /// The name of the assembly file.
    pub fn asm_name(&self) -> (r: &String)
        ensures
            r@ == self.spec_asm_name(),
    {
        &self.asm_name
    }

    /// The name of the object file.
    pub fn obj_name(&self) -> (r: &String)
        ensures
            r@ == self.spec_obj_name(),
    {
        &self.obj_name
    }

    /// The name of the executable.
    pub fn exec_name(&self) -> (r: &String)
        ensures
            r@ == self.spec_exec_name(),
    {
        &self.exec_name
    }

    /// Runs the passes on the source text: lexing, parsing, checking, code generation,
    /// optimisation and assembly, stopping at the debug stop that an option asks for or at
    /// the first pass that fails. Each operand the code writes is typed by its first write:
    /// `int` for an assignment, `bool` for a flag.
    pub fn get_assembly(&self, source: String) -> (r: Stage)
        requires
            source@.len() < usize::MAX / 8,
        ensures
            match lex_spec(source@) {
                Err(e) => r matches Stage::LexFailed(LexError::InvalidIdentifier(x)) && x@ == e,
                Ok(ts) => if self.spec_flags().contains(Flag::Debug(DebugOptions::Tokens)) {
                    r matches Stage::Tokens(v) && tokens_view(v@) == ts
                } else {
                    match parse_sequence(ts) {
                        None => r is ParseFailed,
                        Some(e) => if self.spec_flags().contains(Flag::Debug(DebugOptions::Ast)) {
                            r matches Stage::Ast(v) && exprs_view(v@) == seq![e]
                        } else {
                            match check_all(initial_state(), seq![e]) {
                                None => r is AnalysisFailed,
                                Some(st) => if st.errors.len() > 0 {
                                    r matches Stage::Rejected(v) && errors_view(v@) == st.errors
                                } else if !(lowerable_all(seq![e]) && size_all(seq![e]) < u32::MAX) {
                                    r is NotLowerable
                                } else {
                                    let ir = propagated(without_self_assigns(
                                        gen_all(seq![e], Counters { tmp: 0, ifs: 0, loops: 0 }).1,
                                    ));
                                    if self.spec_flags().contains(Flag::Debug(DebugOptions::Ir)) {
                                        r matches Stage::Ir(v) && irs_view(v@) == ir
                                    } else if 8 * ir.len() > usize::MAX {
                                        r is TooLarge
                                    } else {
                                        r matches Stage::Assembly(text) && text@ == assemble(ir, inferred_types(ir))
                                    }
                                }
                            }
                        }
                    }
                },
            },
    {
        let tokens = match lex(source) {
            Ok(tokens) => tokens,
            Err(e) => {
                return Stage::LexFailed(e);
            },
        };
        if self.has_flag(Flag::Debug(DebugOptions::Tokens)) {
            return Stage::Tokens(tokens);
        }
        let ast = match parse(tokens) {
            Ok(ast) => ast,
            Err(e) => {
                return Stage::ParseFailed(e);
            },
        };
        proof {
            crate::yora_compiler::parser::lemma_exprs_view(ast@);
            assert(exprs_view(ast@) =~= seq![ast@[0]@]);
        }
        if self.has_flag(Flag::Debug(DebugOptions::Ast)) {
            return Stage::Ast(ast);
        }
        let errors = match analyze(&ast) {
            Ok(errors) => errors,
            Err(e) => {
                return Stage::AnalysisFailed(e);
            },
        };
        if errors.len() > 0 {
            return Stage::Rejected(errors);
        }
        if !can_lower(&ast) {
            return Stage::NotLowerable;
        }
        let ir = optimize(generate_ir(ast));
        if self.has_flag(Flag::Debug(DebugOptions::Ir)) {
            return Stage::Ir(ir);
        }
        if ir.len() > usize::MAX / 8 {
            return Stage::TooLarge;
        }
        let types = infer_types(&ir);
        proof {
            lemma_inferred_types_type_everything(irs_view(ir@));
        }
        Stage::Assembly(generate_asm(ir, &types))
    }
}

} // verus!
