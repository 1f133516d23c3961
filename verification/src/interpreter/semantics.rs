//! The interpreter: runs a checked program statement by statement, with the program's
//! input lines given in advance and its printed text collected. Every statement,
//! expression, call and loop round takes one unit of fuel, and a run that needs more
//! fuel than it is given stops.
use vstd::prelude::*;
use crate::types::PrimitiveType;
use crate::text::{decimal, i64_literal_value, char_of_code};
use crate::syntax_analysis::parser::expression::{ExprV, EKindV};
use crate::syntax_analysis::parser::statement::{StmtV, SKindV};

verus! {

/// A run-time value.
pub enum ValueV {
    Int(i64),
    Bool(bool),
    Char(char),
    Array(Seq<ValueV>),
}

/// What the last statement asks of the statements around it.
pub enum SignalV {
    Normal,
    Continue,
    Break,
    Return(ValueV),
}

/// The state of a run: the variables, latest last; how many each open scope added; the
/// procedures by name; the signal; the text printed; and the input lines not yet read.
pub struct IState {
    pub vars: Seq<(Seq<char>, ValueV)>,
    pub scopes: Seq<int>,
    pub procs: Seq<(Seq<char>, SKindV)>,
    pub signal: SignalV,
    pub out: Seq<char>,
    pub input: Seq<Seq<char>>,
}

/// How running statements ends: in a state, or with the program exiting, panicking or
/// stopping for want of fuel, each with the text printed up to that point.
pub enum Run {
    Go(IState),
    Exit(Seq<char>),
    Panic(Seq<char>),
    OutOfFuel(Seq<char>),
}

/// How evaluating an expression ends.
pub enum Eval {
    Val(IState, ValueV),
    Exit(Seq<char>),
    Panic(Seq<char>),
    OutOfFuel(Seq<char>),
}

/// The value of the latest variable of that name.
pub open spec fn get_var(vars: Seq<(Seq<char>, ValueV)>, name: Seq<char>) -> Option<ValueV>
    decreases vars.len(),
{
    if vars.len() == 0 {
        None
    } else if vars.last().0 == name {
        Some(vars.last().1)
    } else {
        get_var(vars.drop_last(), name)
    }
}

/// The variables with the latest one of that name set; `None` where there is none.
pub open spec fn set_var(vars: Seq<(Seq<char>, ValueV)>, name: Seq<char>, v: ValueV) -> Option<Seq<(Seq<char>, ValueV)>>
    decreases vars.len(),
{
    if vars.len() == 0 {
        None
    } else if vars.last().0 == name {
        Some(vars.drop_last().push((name, v)))
    } else {
        match set_var(vars.drop_last(), name, v) {
            Some(r) => Some(r.push(vars.last())),
            None => None,
        }
    }
}

/// The procedure of that name.
pub open spec fn get_proc(procs: Seq<(Seq<char>, SKindV)>, name: Seq<char>) -> Option<SKindV>
    decreases procs.len(),
{
    if procs.len() == 0 {
        None
    } else if procs[0].0 == name {
        Some(procs[0].1)
    } else {
        get_proc(procs.drop_first(), name)
    }
}

/// The procedures with one of that name set.
pub open spec fn set_proc(procs: Seq<(Seq<char>, SKindV)>, name: Seq<char>, k: SKindV) -> Seq<(Seq<char>, SKindV)>
    decreases procs.len(),
{
    if procs.len() == 0 {
        seq![(name, k)]
    } else if procs[0].0 == name {
        procs.update(0, (name, k))
    } else {
        seq![procs[0]] + set_proc(procs.drop_first(), name, k)
    }
}

/// The state with one more variable counted in the innermost scope; `None` where there is
/// no scope or its count (a signed byte) would overflow.
pub open spec fn count_var(st: IState) -> Option<IState> {
    if st.scopes.len() == 0 || st.scopes.last() >= 127 {
        None
    } else {
        Some(IState { scopes: st.scopes.update(st.scopes.len() - 1, st.scopes.last() + 1), ..st })
    }
}

pub open spec fn start_scope(st: IState) -> IState {
    IState { scopes: st.scopes.push(0), ..st }
}

pub open spec fn end_scope(st: IState) -> Option<IState> {
    if st.scopes.len() == 0 {
        None
    } else {
        let n = st.scopes.last();
        let keep = if n <= 0 {
            st.vars.len() as int
        } else if n <= st.vars.len() {
            st.vars.len() - n
        } else {
            0
        };
        Some(IState { vars: st.vars.take(keep), scopes: st.scopes.drop_last(), ..st })
    }
}

/// The decimal text of an integer, with `-` before a negative one.
pub open spec fn int_text(i: int) -> Seq<char> {
    if i < 0 {
        "-"@ + decimal((-i) as nat)
    } else {
        decimal(i as nat)
    }
}

/// The characters of an array of characters; `None` where an element is no character.
pub open spec fn array_chars(s: Seq<ValueV>) -> Option<Seq<char>>
    decreases s.len(),
{
    if s.len() == 0 {
        Some(seq![])
    } else {
        match (array_chars(s.drop_last()), s.last()) {
            (Some(cs), ValueV::Char(c)) => Some(cs.push(c)),
            _ => None,
        }
    }
}

/// The text that printing a value gives; `None` where it panics.
pub open spec fn print_text(v: ValueV) -> Option<Seq<char>> {
    match v {
        ValueV::Int(i) => Some(int_text(i as int)),
        ValueV::Bool(b) => Some(if b { "true"@ } else { "false"@ }),
        ValueV::Char(c) => Some(seq![c]),
        ValueV::Array(s) => array_chars(s),
    }
}

/// What printing an array writes before it panics: its characters up to the first element
/// that is no character.
pub open spec fn printed_prefix(s: Seq<ValueV>) -> Seq<char>
    decreases s.len(),
{
    if s.len() == 0 {
        seq![]
    } else {
        match array_chars(s.drop_last()) {
            Some(cs) => match s.last() {
                ValueV::Char(c) => cs.push(c),
                _ => cs,
            },
            None => printed_prefix(s.drop_last()),
        }
    }
}

/// What printing a value writes when it panics.
pub open spec fn print_panic_text(v: ValueV) -> Seq<char> {
    match v {
        ValueV::Array(s) => printed_prefix(s),
        _ => seq![],
    }
}

/// Character values for each character.
pub open spec fn char_values(s: Seq<char>) -> Seq<ValueV>
    decreases s.len(),
{
    if s.len() == 0 {
        seq![]
    } else {
        char_values(s.drop_last()).push(ValueV::Char(s.last()))
    }
}

/// The characters of a string literal between its quotes, with `\n`, `\t`, `\0` and `\\`
/// read as escapes; `None` for another escape or a `\` at the end.
pub open spec fn unescape(s: Seq<char>) -> Option<Seq<char>>
    decreases s.len(),
{
    if s.len() == 0 {
        Some(seq![])
    } else if s[0] == '\\' {
        if s.len() < 2 {
            None
        } else {
            let c = s[1];
            let e = if c == 'n' {
                Some('\n')
            } else if c == 't' {
                Some('\t')
            } else if c == '0' {
                Some('\0')
            } else if c == '\\' {
                Some('\\')
            } else {
                None
            };
            match (e, unescape(s.skip(2))) {
                (Some(e), Some(rest)) => Some(seq![e] + rest),
                _ => None,
            }
        }
    } else {
        match unescape(s.skip(1)) {
            Some(rest) => Some(seq![s[0]] + rest),
            None => None,
        }
    }
}

/// The value of a literal of a type; `None` where reading it panics.
pub open spec fn literal_value(lit: Seq<char>, t: Option<PrimitiveType>) -> Option<ValueV> {
    match t {
        None => None,
        Some(PrimitiveType::Int) => match i64_literal_value(lit) {
            Some(v) => Some(ValueV::Int(v as i64)),
            None => None,
        },
        Some(PrimitiveType::Bool) => Some(ValueV::Bool(lit == "true"@)),
        Some(PrimitiveType::Char) => if lit.len() >= 2 {
            Some(ValueV::Char(lit[1]))
        } else {
            None
        },
        Some(PrimitiveType::Arr(e)) => if *e == PrimitiveType::Char && lit.len() >= 2 && (lit[0] as u32)
            < 128 && (lit[lit.len() - 1] as u32) < 128 {
            match unescape(lit.subrange(1, lit.len() - 1)) {
                Some(cs) => Some(ValueV::Array(char_values(cs))),
                None => None,
            }
        } else {
            None
        },
    }
}

/// The value of an integer operator on two integers; `None` where it overflows or divides
/// by zero, or is no such operator.
pub open spec fn int_op(name: Seq<char>, a: i64, b: i64) -> Option<ValueV> {
    if name == "+"@ {
        match a.checked_add(b) {
            Some(v) => Some(ValueV::Int(v)),
            None => None,
        }
    } else if name == "-"@ {
        match a.checked_sub(b) {
            Some(v) => Some(ValueV::Int(v)),
            None => None,
        }
    } else if name == "*"@ {
        match a.checked_mul(b) {
            Some(v) => Some(ValueV::Int(v)),
            None => None,
        }
    } else if name == "/"@ {
        match a.checked_div(b) {
            Some(v) => Some(ValueV::Int(v)),
            None => None,
        }
    } else if name == "%"@ {
        match a.checked_rem(b) {
            Some(v) => Some(ValueV::Int(v)),
            None => None,
        }
    } else if name == "=="@ {
        Some(ValueV::Bool(a == b))
    } else if name == "!="@ {
        Some(ValueV::Bool(a != b))
    } else if name == "<"@ {
        Some(ValueV::Bool(a < b))
    } else if name == "<="@ {
        Some(ValueV::Bool(a <= b))
    } else if name == ">"@ {
        Some(ValueV::Bool(a > b))
    } else if name == ">="@ {
        Some(ValueV::Bool(a >= b))
    } else {
        None
    }
}

/// The names of the two-operand operators.
pub open spec fn is_binary_builtin(name: Seq<char>) -> bool {
    name == "+"@ || name == "-"@ || name == "*"@ || name == "/"@ || name == "%"@ || name == "and"@
        || name == "or"@ || name == "=="@ || name == "!="@ || name == "<"@ || name == "<="@ || name
        == ">"@ || name == ">="@ || name == "[]"@
}

/// The value of a two-operand operator on evaluated operands, or `None` for a panic.
pub open spec fn binary_value(st: IState, name: Seq<char>, first: ExprV, a: ValueV, b: ValueV) -> Option<ValueV> {
    if name == "and"@ || name == "or"@ {
        match (a, b) {
            (ValueV::Bool(x), ValueV::Bool(y)) => Some(ValueV::Bool(if name == "and"@ { x && y } else { x || y })),
            _ => None,
        }
    } else if name == "[]"@ {
        match (first.kind, b) {
            (EKindV::Id(id), ValueV::Int(i)) => match get_var(st.vars, id) {
                Some(ValueV::Array(values)) => if 0 <= i < values.len() {
                    Some(values[i as int])
                } else {
                    None
                },
                _ => None,
            },
            _ => None,
        }
    } else {
        match (a, b) {
            (ValueV::Int(x), ValueV::Int(y)) => int_op(name, x, y),
            _ => None,
        }
    }
}

} // verus!

verus! {

/// How running the body of a loop once ends: leaving the loop, going round again, or as
/// a run ends otherwise.
pub enum Body {
    Broke(IState),
    Again(IState),
    Exit(Seq<char>),
    Panic(Seq<char>),
    OutOfFuel(Seq<char>),
}

/// How evaluating a list of expressions ends.
pub enum Vals {
    Vals(IState, Seq<ValueV>),
    Exit(Seq<char>),
    Panic(Seq<char>),
    OutOfFuel(Seq<char>),
}

/// The state with another signal.
pub open spec fn with_signal(st: IState, s: SignalV) -> IState {
    IState { signal: s, ..st }
}

/// Evaluating an expression.
pub open spec fn eval(st: IState, e: ExprV, fuel: nat) -> Eval
    decreases fuel, 0nat,
{
    if fuel == 0 {
        Eval::OutOfFuel(st.out)
    } else {
        let f = (fuel - 1) as nat;
        match e.kind {
            EKindV::Id(id) => match get_var(st.vars, id) {
                Some(v) => Eval::Val(st, v),
                None => Eval::Panic(st.out),
            },
            EKindV::Lit(lit) => match literal_value(lit, e.typ) {
                Some(v) => Eval::Val(st, v),
                None => Eval::Panic(st.out),
            },
            EKindV::Array(contents) => match eval_list(st, contents, 0, f) {
                Vals::Vals(st1, vs) => Eval::Val(st1, ValueV::Array(vs)),
                Vals::Exit(o) => Eval::Exit(o),
                Vals::Panic(o) => Eval::Panic(o),
                Vals::OutOfFuel(o) => Eval::OutOfFuel(o),
            },
            EKindV::Call(name, args) => if args.len() == 2 {
                match eval(st, args[0], f) {
                    Eval::Val(st1, a) => match eval(st1, args[1], f) {
                        Eval::Val(st2, b) => if is_binary_builtin(name) {
                            match binary_value(st2, name, args[0], a, b) {
                                Some(v) => Eval::Val(st2, v),
                                None => Eval::Panic(st2.out),
                            }
                        } else {
                            call_expr(st2, name, args, f)
                        },
                        other => other,
                    },
                    other => other,
                }
            } else if args.len() == 1 && name == "!"@ {
                match eval(st, args[0], f) {
                    Eval::Val(st1, ValueV::Bool(b)) => Eval::Val(st1, ValueV::Bool(!b)),
                    Eval::Val(st1, _) => Eval::Panic(st1.out),
                    other => other,
                }
            } else if args.len() == 1 && name == "-"@ {
                match eval(st, args[0], f) {
                    Eval::Val(st1, ValueV::Int(i)) => match 0i64.checked_sub(i) {
                        Some(v) => Eval::Val(st1, ValueV::Int(v)),
                        None => Eval::Panic(st1.out),
                    },
                    Eval::Val(st1, _) => Eval::Panic(st1.out),
                    other => other,
                }
            } else {
                call_expr(st, name, args, f)
            },
        }
    }
}

/// Evaluating expressions from the `i`-th on, in order.
pub open spec fn eval_list(st: IState, s: Seq<ExprV>, i: int, fuel: nat) -> Vals
    decreases fuel, s.len() - i,
{
    if fuel == 0 {
        Vals::OutOfFuel(st.out)
    } else if i >= s.len() || i < 0 {
        Vals::Vals(st, seq![])
    } else {
        match eval(st, s[i], (fuel - 1) as nat) {
            Eval::Val(st1, v) => match eval_list(st1, s, i + 1, fuel) {
                Vals::Vals(st2, vs) => Vals::Vals(st2, seq![v] + vs),
                other => other,
            },
            Eval::Exit(o) => Vals::Exit(o),
            Eval::Panic(o) => Vals::Panic(o),
            Eval::OutOfFuel(o) => Vals::OutOfFuel(o),
        }
    }
}

/// Calling a procedure for its value: it must return one.
pub open spec fn call_expr(st: IState, name: Seq<char>, args: Seq<ExprV>, fuel: nat) -> Eval
    decreases fuel, 1nat,
{
    if fuel == 0 {
        Eval::OutOfFuel(st.out)
    } else {
        match run_call(st, name, args, (fuel - 1) as nat) {
            Run::Go(st1) => match st1.signal {
                SignalV::Return(v) => Eval::Val(with_signal(st1, SignalV::Normal), v),
                _ => Eval::Panic(st1.out),
            },
            Run::Exit(o) => Eval::Exit(o),
            Run::Panic(o) => Eval::Panic(o),
            Run::OutOfFuel(o) => Eval::OutOfFuel(o),
        }
    }
}

/// Evaluating the first argument of a built-in procedure.
pub open spec fn first_arg(st: IState, args: Seq<ExprV>, fuel: nat) -> Eval
    decreases fuel, 1nat,
{
    if args.len() == 0 {
        Eval::Panic(st.out)
    } else {
        eval(st, args[0], fuel)
    }
}

/// The run of a built-in procedure that returns a value computed from its first argument.
pub open spec fn builtin(st: IState, name: Seq<char>, args: Seq<ExprV>, fuel: nat) -> Run
    decreases fuel, 2nat,
{
    match first_arg(st, args, fuel) {
        Eval::Val(st1, v) => {
            let r: Option<ValueV> = if name == "string_to_int"@ {
                match v {
                    ValueV::Array(vs) => match array_chars(vs) {
                        Some(cs) => {
                            let s = if cs.len() > 0 { cs.drop_last() } else { cs };
                            match i64_literal_value(s) {
                                Some(n) => Some(ValueV::Int(n as i64)),
                                None => None,
                            }
                        },
                        None => None,
                    },
                    _ => None,
                }
            } else if name == "char_to_int"@ {
                match v {
                    ValueV::Char(c) => Some(ValueV::Int((c as u32) as i64)),
                    _ => None,
                }
            } else if name == "int_to_char"@ {
                match v {
                    ValueV::Int(n) => match char_of_code(n as u32) {
                        Some(c) => Some(ValueV::Char(c)),
                        None => None,
                    },
                    _ => None,
                }
            } else {
                match v {
                    ValueV::Array(vs) => Some(ValueV::Int(vs.len() as i64)),
                    _ => None,
                }
            };
            match r {
                Some(x) => Run::Go(with_signal(st1, SignalV::Return(x))),
                None => Run::Panic(st1.out),
            }
        },
        Eval::Exit(o) => Run::Exit(o),
        Eval::Panic(o) => Run::Panic(o),
        Eval::OutOfFuel(o) => Run::OutOfFuel(o),
    }
}

/// Binding the parameters of a procedure from the `i`-th on to the call's arguments, each
/// evaluated and counted in the call's scope.
pub open spec fn bind_params(st: IState, params: Seq<(Seq<char>, Option<PrimitiveType>)>, args: Seq<ExprV>, i: int, fuel: nat) -> Run
    decreases fuel, params.len() - i,
{
    if fuel == 0 {
        Run::OutOfFuel(st.out)
    } else if i >= params.len() || i < 0 {
        Run::Go(st)
    } else if i >= args.len() {
        Run::Panic(st.out)
    } else {
        match eval(st, args[i], (fuel - 1) as nat) {
            Eval::Val(st1, v) => match count_var(st1) {
                Some(st2) => bind_params(IState { vars: st2.vars.push((params[i].0, v)), ..st2 }, params, args, i + 1, fuel),
                None => Run::Panic(st1.out),
            },
            Eval::Exit(o) => Run::Exit(o),
            Eval::Panic(o) => Run::Panic(o),
            Eval::OutOfFuel(o) => Run::OutOfFuel(o),
        }
    }
}

/// Calling a procedure in a scope of its own: the built-in ones, or one the program
/// declared, whose body stops at a `return`.
pub open spec fn run_call(st: IState, name: Seq<char>, args: Seq<ExprV>, fuel: nat) -> Run
    decreases fuel, 3nat,
{
    if fuel == 0 {
        Run::OutOfFuel(st.out)
    } else {
        let f = (fuel - 1) as nat;
        let st0 = start_scope(st);
        let r = if name == "exit"@ {
            Run::Exit(st0.out)
        } else if name == "print"@ {
            match first_arg(st0, args, f) {
                Eval::Val(st1, v) => match print_text(v) {
                    Some(t) => Run::Go(IState { out: st1.out + t, ..st1 }),
                    None => Run::Panic(st1.out + print_panic_text(v)),
                },
                Eval::Exit(o) => Run::Exit(o),
                Eval::Panic(o) => Run::Panic(o),
                Eval::OutOfFuel(o) => Run::OutOfFuel(o),
            }
        } else if name == "input"@ {
            let line = if st0.input.len() == 0 { seq![] } else { st0.input[0] };
            let rest = if st0.input.len() == 0 { seq![] } else { st0.input.drop_first() };
            Run::Go(IState { signal: SignalV::Return(ValueV::Array(char_values(line))), input: rest, ..st0 })
        } else if name == "string_to_int"@ || name == "char_to_int"@ || name == "int_to_char"@ || name
            == "string_len"@ {
            builtin(st0, name, args, f)
        } else {
            match get_proc(st0.procs, name) {
                Some(SKindV::Procedure { args: params, block, .. }) => match bind_params(st0, params, args, 0, f) {
                    Run::Go(st1) => run_seq(st1, block, 0, f, 2),
                    other => other,
                },
                _ => Run::Panic(st0.out),
            }
        };
        match r {
            Run::Go(st1) => match end_scope(st1) {
                Some(st2) => Run::Go(st2),
                None => Run::Panic(st1.out),
            },
            other => other,
        }
    }
}

/// Running statements from the `i`-th on. `stop` says when to stop early: 0 never, 1
/// after a statement that leaves a `break` or `continue`, 2 after one that leaves a
/// `return`.
pub open spec fn run_seq(st: IState, b: Seq<StmtV>, i: int, fuel: nat, stop: nat) -> Run
    decreases fuel, b.len() - i,
{
    if fuel == 0 {
        Run::OutOfFuel(st.out)
    } else if i >= b.len() || i < 0 {
        Run::Go(st)
    } else {
        match run_stmt(st, b[i], (fuel - 1) as nat) {
            Run::Go(st1) => if (stop == 1 && (st1.signal is Break || st1.signal is Continue)) || (stop == 2
                && st1.signal is Return) {
                Run::Go(st1)
            } else {
                run_seq(st1, b, i + 1, fuel, stop)
            },
            other => other,
        }
    }
}

/// Running a loop body once from the `i`-th statement: a `break` leaves the loop and a
/// `continue` goes round again, each clearing the signal.
pub open spec fn loop_body(st: IState, b: Seq<StmtV>, i: int, fuel: nat) -> Body
    decreases fuel, b.len() - i,
{
    if fuel == 0 {
        Body::OutOfFuel(st.out)
    } else if i >= b.len() || i < 0 {
        Body::Again(st)
    } else {
        match run_stmt(st, b[i], (fuel - 1) as nat) {
            Run::Go(st1) => if st1.signal is Break {
                Body::Broke(with_signal(st1, SignalV::Normal))
            } else if st1.signal is Continue {
                Body::Again(with_signal(st1, SignalV::Normal))
            } else {
                loop_body(st1, b, i + 1, fuel)
            },
            Run::Exit(o) => Body::Exit(o),
            Run::Panic(o) => Body::Panic(o),
            Run::OutOfFuel(o) => Body::OutOfFuel(o),
        }
    }
}

/// Running a `loop` round after round.
pub open spec fn run_loop(st: IState, b: Seq<StmtV>, fuel: nat) -> Run
    decreases fuel, 0nat,
{
    if fuel == 0 {
        Run::OutOfFuel(st.out)
    } else {
        match loop_body(st, b, 0, (fuel - 1) as nat) {
            Body::Broke(st1) => Run::Go(st1),
            Body::Again(st1) => run_loop(st1, b, (fuel - 1) as nat),
            Body::Exit(o) => Run::Exit(o),
            Body::Panic(o) => Run::Panic(o),
            Body::OutOfFuel(o) => Run::OutOfFuel(o),
        }
    }
}

/// Running a `while`: a true condition runs the body, a false one ends the loop, and a
/// condition that is no boolean is evaluated again.
pub open spec fn run_while(st: IState, c: ExprV, b: Seq<StmtV>, fuel: nat) -> Run
    decreases fuel, 0nat,
{
    if fuel == 0 {
        Run::OutOfFuel(st.out)
    } else {
        let f = (fuel - 1) as nat;
        match eval(st, c, f) {
            Eval::Val(st1, ValueV::Bool(true)) => match loop_body(st1, b, 0, f) {
                Body::Broke(st2) => Run::Go(st2),
                Body::Again(st2) => run_while(st2, c, b, f),
                Body::Exit(o) => Run::Exit(o),
                Body::Panic(o) => Run::Panic(o),
                Body::OutOfFuel(o) => Run::OutOfFuel(o),
            },
            Eval::Val(st1, ValueV::Bool(false)) => Run::Go(st1),
            Eval::Val(st1, _) => run_while(st1, c, b, f),
            Eval::Exit(o) => Run::Exit(o),
            Eval::Panic(o) => Run::Panic(o),
            Eval::OutOfFuel(o) => Run::OutOfFuel(o),
        }
    }
}

/// Ending a scope after a run.
pub open spec fn close(r: Run) -> Run {
    match r {
        Run::Go(st) => match end_scope(st) {
            Some(st1) => Run::Go(st1),
            None => Run::Panic(st.out),
        },
        other => other,
    }
}

/// Running a statement.
pub open spec fn run_stmt(st: IState, s: StmtV, fuel: nat) -> Run
    decreases fuel, 4nat,
{
    if fuel == 0 {
        Run::OutOfFuel(st.out)
    } else {
        let f = (fuel - 1) as nat;
        match s.kind {
            SKindV::Procedure { name, .. } => Run::Go(IState { procs: set_proc(st.procs, name, s.kind), ..st }),
            SKindV::Call { name, args } => run_call(st, name, args, f),
            SKindV::Return { value } => match eval(st, value, f) {
                Eval::Val(st1, v) => Run::Go(with_signal(st1, SignalV::Return(v))),
                Eval::Exit(o) => Run::Exit(o),
                Eval::Panic(o) => Run::Panic(o),
                Eval::OutOfFuel(o) => Run::OutOfFuel(o),
            },
            SKindV::Declare { name, value, .. } => match count_var(st) {
                None => Run::Panic(st.out),
                Some(st1) => match value {
                    Some(v) => match eval(st1, v, f) {
                        Eval::Val(st2, x) => Run::Go(IState { vars: st2.vars.push((name, x)), ..st2 }),
                        Eval::Exit(o) => Run::Exit(o),
                        Eval::Panic(o) => Run::Panic(o),
                        Eval::OutOfFuel(o) => Run::OutOfFuel(o),
                    },
                    None => Run::Go(IState { vars: st1.vars.push((name, ValueV::Int(0))), ..st1 }),
                },
            },
            SKindV::Assign { dest, src } => run_assign(st, dest, src, f),
            SKindV::If { cond, block } => close(
                match eval(start_scope(st), cond, f) {
                    Eval::Val(st1, ValueV::Bool(true)) => run_seq(st1, block, 0, f, 0),
                    Eval::Val(st1, _) => Run::Go(st1),
                    Eval::Exit(o) => Run::Exit(o),
                    Eval::Panic(o) => Run::Panic(o),
                    Eval::OutOfFuel(o) => Run::OutOfFuel(o),
                },
            ),
            SKindV::IfElse { cond, true_block, false_block } => close(
                match eval(start_scope(st), cond, f) {
                    Eval::Val(st1, ValueV::Bool(b)) => run_seq(st1, if b { true_block } else { false_block }, 0, f, 1),
                    Eval::Val(st1, _) => Run::Go(st1),
                    Eval::Exit(o) => Run::Exit(o),
                    Eval::Panic(o) => Run::Panic(o),
                    Eval::OutOfFuel(o) => Run::OutOfFuel(o),
                },
            ),
            SKindV::Loop { block } => close(run_loop(start_scope(st), block, f)),
            SKindV::While { cond, block } => close(run_while(start_scope(st), cond, block, f)),
            SKindV::Continue => Run::Go(with_signal(st, SignalV::Continue)),
            SKindV::Break => Run::Go(with_signal(st, SignalV::Break)),
        }
    }
}

/// Running an assignment: to a variable, or to an element of an array variable.
pub open spec fn run_assign(st: IState, dest: ExprV, src: ExprV, fuel: nat) -> Run
    decreases fuel, 5nat,
{
    match dest.kind {
        EKindV::Id(id) => match eval(st, src, fuel) {
            Eval::Val(st1, v) => match set_var(st1.vars, id, v) {
                Some(vs) => Run::Go(IState { vars: vs, ..st1 }),
                None => Run::Panic(st1.out),
            },
            Eval::Exit(o) => Run::Exit(o),
            Eval::Panic(o) => Run::Panic(o),
            Eval::OutOfFuel(o) => Run::OutOfFuel(o),
        },
        EKindV::Call(name, args) => if name == "[]"@ && args.len() >= 2 {
            match eval(st, args[1], fuel) {
                Eval::Val(st1, ValueV::Int(i)) => match args[0].kind {
                    EKindV::Id(id) => match get_var(st1.vars, id) {
                        Some(ValueV::Array(values)) => match eval(st1, src, fuel) {
                            Eval::Val(st2, v) => if 0 <= i < values.len() {
                                match set_var(st2.vars, id, ValueV::Array(values.update(i as int, v))) {
                                    Some(vs) => Run::Go(IState { vars: vs, ..st2 }),
                                    None => Run::Panic(st2.out),
                                }
                            } else {
                                Run::Panic(st2.out)
                            },
                            Eval::Exit(o) => Run::Exit(o),
                            Eval::Panic(o) => Run::Panic(o),
                            Eval::OutOfFuel(o) => Run::OutOfFuel(o),
                        },
                        _ => Run::Panic(st1.out),
                    },
                    _ => Run::Go(st1),
                },
                Eval::Val(st1, _) => Run::Panic(st1.out),
                Eval::Exit(o) => Run::Exit(o),
                Eval::Panic(o) => Run::Panic(o),
                Eval::OutOfFuel(o) => Run::OutOfFuel(o),
            }
        } else {
            Run::Panic(st.out)
        },
        _ => Run::Panic(st.out),
    }
}

/// Running a program with the given input lines: its statements in one scope.
pub open spec fn run_program(ast: Seq<StmtV>, input: Seq<Seq<char>>, fuel: nat) -> Run {
    close(run_seq(start_scope(initial_state(input)), ast, 0, fuel, 0))
}

/// The state before a run: nothing declared or printed, and the input lines.
pub open spec fn initial_state(input: Seq<Seq<char>>) -> IState {
    IState { vars: seq![], scopes: seq![], procs: seq![], signal: SignalV::Normal, out: seq![], input }
}

} // verus!

verus! {

/// Setting a variable and then reading it gives the value set; every other name keeps
/// the value it had.
pub proof fn lemma_set_then_get(vars: Seq<(Seq<char>, ValueV)>, name: Seq<char>, v: ValueV, other: Seq<char>)
    requires
        set_var(vars, name, v) is Some,
    ensures
        get_var(set_var(vars, name, v).unwrap(), name) == Some(v),
        other != name ==> get_var(set_var(vars, name, v).unwrap(), other) == get_var(vars, other),
    decreases vars.len(),
{
    if vars.last().0 == name {
        assert(vars.drop_last().push((name, v)).drop_last() =~= vars.drop_last());
    } else {
        lemma_set_then_get(vars.drop_last(), name, v, other);
        let r = set_var(vars.drop_last(), name, v).unwrap();
        assert(r.push(vars.last()).drop_last() =~= r);
    }
}

/// A variable can be set exactly when one of that name is declared.
pub proof fn lemma_set_needs_declared(vars: Seq<(Seq<char>, ValueV)>, name: Seq<char>, v: ValueV)
    ensures
        (set_var(vars, name, v) is Some) == (get_var(vars, name) is Some),
    decreases vars.len(),
{
    if vars.len() > 0 && vars.last().0 != name {
        lemma_set_needs_declared(vars.drop_last(), name, v);
    }
}

/// A variable declared in a scope of its own is gone when the scope ends: opening a
/// scope, declaring one variable in it and closing it gives back the state before.
pub proof fn lemma_scope_drops_its_variables(st: IState, name: Seq<char>, v: ValueV)
    ensures
        count_var(start_scope(st)) is Some,
        end_scope(IState {
            vars: count_var(start_scope(st)).unwrap().vars.push((name, v)),
            ..count_var(start_scope(st)).unwrap()
        }) == Some(st),
{
    let s1 = count_var(start_scope(st)).unwrap();
    let s2 = IState { vars: s1.vars.push((name, v)), ..s1 };
    assert(s1.scopes =~= st.scopes.push(1));
    assert(s2.vars.take(s2.vars.len() - 1) =~= st.vars);
    assert(s2.scopes.drop_last() =~= st.scopes);
}

} // verus!

verus! {

/// The value fits in an `i64`.
pub open spec fn in_i64(v: int) -> bool {
    i64::MIN <= v <= i64::MAX
}

/// The magnitude of an integer.
pub open spec fn magnitude(x: int) -> int {
    if x < 0 { -x } else { x }
}

/// Division rounding toward zero: the quotient of the magnitudes, negated when the signs
/// differ.
pub open spec fn trunc_div(x: int, y: int) -> int {
    if (x < 0) == (y < 0) {
        magnitude(x) / magnitude(y)
    } else {
        -(magnitude(x) / magnitude(y))
    }
}

/// The remainder of division rounding toward zero: the remainder of the magnitudes, with
/// the sign of the dividend.
pub open spec fn trunc_rem(x: int, y: int) -> int {
    if x < 0 {
        -(magnitude(x) % magnitude(y))
    } else {
        magnitude(x) % magnitude(y)
    }
}

proof fn lemma_int_op(name: Seq<char>, x: i64, y: i64)
    ensures
        name == "+"@ ==> int_op(name, x, y) == (if in_i64(x + y) { Some(ValueV::Int((x + y) as i64)) } else { None }),
        name == "-"@ ==> int_op(name, x, y) == (if in_i64(x - y) { Some(ValueV::Int((x - y) as i64)) } else { None }),
        name == "*"@ ==> int_op(name, x, y) == (if in_i64(x * y) { Some(ValueV::Int((x * y) as i64)) } else { None }),
        name == "/"@ ==> int_op(name, x, y) == (if y != 0 && in_i64(trunc_div(x as int, y as int)) {
            Some(ValueV::Int(trunc_div(x as int, y as int) as i64))
        } else {
            None
        }),
        name == "%"@ ==> int_op(name, x, y) == (if y != 0 && !(x == i64::MIN && y == -1) {
            Some(ValueV::Int(trunc_rem(x as int, y as int) as i64))
        } else {
            None
        }),
        name == "=="@ ==> int_op(name, x, y) == Some(ValueV::Bool(x == y)),
        name == "!="@ ==> int_op(name, x, y) == Some(ValueV::Bool(x != y)),
        name == "<"@ ==> int_op(name, x, y) == Some(ValueV::Bool(x < y)),
        name == "<="@ ==> int_op(name, x, y) == Some(ValueV::Bool(x <= y)),
        name == ">"@ ==> int_op(name, x, y) == Some(ValueV::Bool(x > y)),
        name == ">="@ ==> int_op(name, x, y) == Some(ValueV::Bool(x >= y)),
{
    reveal_strlit("+");
    reveal_strlit("-");
    reveal_strlit("*");
    reveal_strlit("/");
    reveal_strlit("%");
    reveal_strlit("==");
    reveal_strlit("!=");
    reveal_strlit("<");
    reveal_strlit("<=");
    reveal_strlit(">");
    reveal_strlit(">=");
    assert("+"@.len() == 1 && "+"@[0] == '+');
    assert("-"@.len() == 1 && "-"@[0] == '-');
    assert("*"@.len() == 1 && "*"@[0] == '*');
    assert("/"@.len() == 1 && "/"@[0] == '/');
    assert("%"@.len() == 1 && "%"@[0] == '%');
    assert("=="@.len() == 2 && "=="@[0] == '=' && "=="@[1] == '=');
    assert("!="@.len() == 2 && "!="@[0] == '!' && "!="@[1] == '=');
    assert("<"@.len() == 1 && "<"@[0] == '<');
    assert("<="@.len() == 2 && "<="@[0] == '<' && "<="@[1] == '=');
    assert(">"@.len() == 1 && ">"@[0] == '>');
    assert(">="@.len() == 2 && ">="@[0] == '>' && ">="@[1] == '=');
    let a = x as int;
    let b = y as int;
    if a == 0 && b != 0 {
        assert(0int / magnitude(b) == 0) by (nonlinear_arith)
            requires
                magnitude(b) > 0,
        ;
        assert(0int % magnitude(b) == 0) by (nonlinear_arith)
            requires
                magnitude(b) > 0,
        ;
    }
}

/// An operator applied to two operands that evaluate to integers `x` and `y` computes on
/// them: `+`, `-` and `*` give the integer result, or panic when it does not fit in an
/// `i64`; `/` rounds toward zero and `%` takes the sign of `x`, both panicking for a zero
/// divisor or a result out of range; the comparisons give `x rel y`. The operands are
/// evaluated left to right, and the state is the one the second leaves.
pub proof fn lemma_eval_int_operator(
    st: IState,
    e: ExprV,
    name: Seq<char>,
    args: Seq<ExprV>,
    fuel: nat,
    st1: IState,
    st2: IState,
    x: i64,
    y: i64,
)
    requires
        fuel > 0,
        e.kind == EKindV::Call(name, args),
        args.len() == 2,
        eval(st, args[0], (fuel - 1) as nat) == Eval::Val(st1, ValueV::Int(x)),
        eval(st1, args[1], (fuel - 1) as nat) == Eval::Val(st2, ValueV::Int(y)),
    ensures
        name == "+"@ ==> eval(st, e, fuel) == (if in_i64(x + y) { Eval::Val(st2, ValueV::Int((x + y) as i64)) } else { Eval::Panic(st2.out) }),
        name == "-"@ ==> eval(st, e, fuel) == (if in_i64(x - y) { Eval::Val(st2, ValueV::Int((x - y) as i64)) } else { Eval::Panic(st2.out) }),
        name == "*"@ ==> eval(st, e, fuel) == (if in_i64(x * y) { Eval::Val(st2, ValueV::Int((x * y) as i64)) } else { Eval::Panic(st2.out) }),
        name == "/"@ ==> eval(st, e, fuel) == (if y != 0 && in_i64(trunc_div(x as int, y as int)) {
            Eval::Val(st2, ValueV::Int(trunc_div(x as int, y as int) as i64))
        } else {
            Eval::Panic(st2.out)
        }),
        name == "%"@ ==> eval(st, e, fuel) == (if y != 0 && !(x == i64::MIN && y == -1) {
            Eval::Val(st2, ValueV::Int(trunc_rem(x as int, y as int) as i64))
        } else {
            Eval::Panic(st2.out)
        }),
        name == "=="@ ==> eval(st, e, fuel) == Eval::Val(st2, ValueV::Bool(x == y)),
        name == "!="@ ==> eval(st, e, fuel) == Eval::Val(st2, ValueV::Bool(x != y)),
        name == "<"@ ==> eval(st, e, fuel) == Eval::Val(st2, ValueV::Bool(x < y)),
        name == "<="@ ==> eval(st, e, fuel) == Eval::Val(st2, ValueV::Bool(x <= y)),
        name == ">"@ ==> eval(st, e, fuel) == Eval::Val(st2, ValueV::Bool(x > y)),
        name == ">="@ ==> eval(st, e, fuel) == Eval::Val(st2, ValueV::Bool(x >= y)),
{
    reveal_strlit("+");
    reveal_strlit("-");
    reveal_strlit("*");
    reveal_strlit("/");
    reveal_strlit("%");
    reveal_strlit("==");
    reveal_strlit("!=");
    reveal_strlit("<");
    reveal_strlit("<=");
    reveal_strlit(">");
    reveal_strlit(">=");
    reveal_strlit("and");
    reveal_strlit("or");
    reveal_strlit("[]");
    assert("+"@.len() == 1 && "+"@[0] == '+');
    assert("-"@.len() == 1 && "-"@[0] == '-');
    assert("*"@.len() == 1 && "*"@[0] == '*');
    assert("/"@.len() == 1 && "/"@[0] == '/');
    assert("%"@.len() == 1 && "%"@[0] == '%');
    assert("=="@.len() == 2 && "=="@[0] == '=' && "=="@[1] == '=');
    assert("!="@.len() == 2 && "!="@[0] == '!' && "!="@[1] == '=');
    assert("<"@.len() == 1 && "<"@[0] == '<');
    assert("<="@.len() == 2 && "<="@[0] == '<' && "<="@[1] == '=');
    assert(">"@.len() == 1 && ">"@[0] == '>');
    assert(">="@.len() == 2 && ">="@[0] == '>' && ">="@[1] == '=');
    assert("and"@.len() == 3 && "and"@[0] == 'a' && "and"@[1] == 'n' && "and"@[2] == 'd');
    assert("or"@.len() == 2 && "or"@[0] == 'o' && "or"@[1] == 'r');
    assert("[]"@.len() == 2 && "[]"@[0] == '[' && "[]"@[1] == ']');
    lemma_int_op(name, x, y);
    assert((is_binary_builtin(name) && name != "and"@ && name != "or"@ && name != "[]"@) ==> eval(st, e, fuel) == (match int_op(name, x, y) {
        Some(v) => Eval::Val(st2, v),
        None => Eval::Panic(st2.out),
    }));
}

/// `and` and `or` applied to two operands that evaluate to booleans `x` and `y` give the
/// conjunction `x && y` and the disjunction `x || y`. The operands are evaluated left to
/// right, and the state is the one the second leaves.
pub proof fn lemma_eval_bool_operator(
    st: IState,
    e: ExprV,
    name: Seq<char>,
    args: Seq<ExprV>,
    fuel: nat,
    st1: IState,
    st2: IState,
    x: bool,
    y: bool,
)
    requires
        fuel > 0,
        e.kind == EKindV::Call(name, args),
        args.len() == 2,
        eval(st, args[0], (fuel - 1) as nat) == Eval::Val(st1, ValueV::Bool(x)),
        eval(st1, args[1], (fuel - 1) as nat) == Eval::Val(st2, ValueV::Bool(y)),
    ensures
        name == "and"@ ==> eval(st, e, fuel) == Eval::Val(st2, ValueV::Bool(x && y)),
        name == "or"@ ==> eval(st, e, fuel) == Eval::Val(st2, ValueV::Bool(x || y)),
{
    reveal_strlit("and");
    reveal_strlit("or");
    assert("and"@.len() == 3 && "and"@[0] == 'a' && "and"@[1] == 'n' && "and"@[2] == 'd');
    assert("or"@.len() == 2 && "or"@[0] == 'o' && "or"@[1] == 'r');
}

/// `!` applied to one operand that evaluates to the boolean `x` gives `!x`.
pub proof fn lemma_eval_not(st: IState, e: ExprV, arg: ExprV, fuel: nat, st1: IState, x: bool)
    requires
        fuel > 0,
        e.kind == EKindV::Call("!"@, seq![arg]),
        eval(st, arg, (fuel - 1) as nat) == Eval::Val(st1, ValueV::Bool(x)),
    ensures
        eval(st, e, fuel) == Eval::Val(st1, ValueV::Bool(!x)),
{
}

/// `-` applied to one operand that evaluates to the integer `x` gives `-x`, or panics when
/// that does not fit in an `i64`.
pub proof fn lemma_eval_negation(st: IState, e: ExprV, arg: ExprV, fuel: nat, st1: IState, x: i64)
    requires
        fuel > 0,
        e.kind == EKindV::Call("-"@, seq![arg]),
        eval(st, arg, (fuel - 1) as nat) == Eval::Val(st1, ValueV::Int(x)),
    ensures
        eval(st, e, fuel) == (if in_i64(-x) { Eval::Val(st1, ValueV::Int((-x) as i64)) } else { Eval::Panic(st1.out) }),
{
    reveal_strlit("-");
    reveal_strlit("!");
    assert("-"@.len() == 1 && "-"@[0] == '-');
    assert("!"@.len() == 1 && "!"@[0] == '!');
}

/// An `if`-`else` whose condition evaluates to `c` runs the block that `c` chooses, and
/// only it, in a scope of its own that is closed after it.
pub proof fn lemma_if_else_runs_the_chosen_block(st: IState, s: StmtV, fuel: nat, st1: IState, c: bool)
    requires
        fuel > 0,
        s.kind is IfElse,
        eval(start_scope(st), s.kind->IfElse_cond, (fuel - 1) as nat) == Eval::Val(st1, ValueV::Bool(c)),
    ensures
        run_stmt(st, s, fuel) == close(
            run_seq(st1, if c { s.kind->IfElse_true_block } else { s.kind->IfElse_false_block }, 0, (fuel - 1) as nat, 1),
        ),
{
}

} // verus!

verus! {

/// A literal or a name evaluates without changing the state, so an operator applied to
/// such operands leaves the variables as they were.
pub proof fn lemma_plain_operand_keeps_state(st: IState, e: ExprV, fuel: nat)
    requires
        fuel > 0,
        e.kind is Lit || e.kind is Id,
    ensures
        eval(st, e, fuel) matches Eval::Val(st1, _) ==> st1 == st,
{
}

} // verus!

verus! {

/// `char_to_int` gives a character's code, `int_to_char` gives back the character with a
/// code, so that one undoes the other, and `string_len` gives an array's length.
pub proof fn lemma_builtin_conversions(st: IState, name: Seq<char>, args: Seq<ExprV>, fuel: nat, st1: IState, v: ValueV, c: char)
    requires
        first_arg(st, args, fuel) == Eval::Val(st1, v),
    ensures
        name == "char_to_int"@ && v == ValueV::Char(c) ==> builtin(st, name, args, fuel) == Run::Go(
            with_signal(st1, SignalV::Return(ValueV::Int((c as u32) as i64))),
        ),
        name == "int_to_char"@ && v == ValueV::Int((c as u32) as i64) ==> builtin(st, name, args, fuel) == Run::Go(
            with_signal(st1, SignalV::Return(ValueV::Char(c))),
        ),
        name == "string_len"@ && v is Array ==> builtin(st, name, args, fuel) == Run::Go(
            with_signal(st1, SignalV::Return(ValueV::Int(v->Array_0.len() as i64))),
        ),
{
    reveal_strlit("string_to_int");
    reveal_strlit("char_to_int");
    reveal_strlit("int_to_char");
    reveal_strlit("string_len");
    assert("string_to_int"@.len() == 13 && "string_to_int"@[0] == 's');
    assert("char_to_int"@.len() == 11 && "char_to_int"@[0] == 'c');
    assert("int_to_char"@.len() == 11 && "int_to_char"@[0] == 'i');
    assert("string_len"@.len() == 10);
    assert(((c as u32) as i64) as u32 == c as u32);
    assert(char_of_code(c as u32) == Some(c));
}

} // verus!
