//! Fuel bounds how long a run may go on, and nothing else: a run that ends with some fuel
//! ends the same way with more.
use vstd::prelude::*;
use crate::types::PrimitiveType;
use crate::syntax_analysis::parser::expression::{ExprV, EKindV};
use crate::syntax_analysis::parser::statement::{StmtV, SKindV};
use crate::interpreter::semantics::{IState, Run, Eval, Body, ValueV, eval, eval_list, call_expr, first_arg,
    builtin, bind_params, run_call, run_seq, loop_body, run_loop, run_while, run_stmt, run_assign, start_scope,
    count_var, get_proc, run_program, initial_state};

verus! {

/// More fuel gives the same value of an expression, once it has one without running out.
pub proof fn lemma_eval_fuel(st: IState, e: ExprV, f: nat, g: nat)
    requires
        f <= g,
        !(eval(st, e, f) is OutOfFuel),
    ensures
        eval(st, e, g) == eval(st, e, f),
    decreases f, 0nat,
{
    let ff = (f - 1) as nat;
    let gg = (g - 1) as nat;
    match e.kind {
        EKindV::Array(contents) => {
            lemma_eval_list_fuel(st, contents, 0, ff, gg);
        },
        EKindV::Call(name, args) => {
            if args.len() == 2 {
                lemma_eval_fuel(st, args[0], ff, gg);
                match eval(st, args[0], ff) {
                    Eval::Val(st1, a) => {
                        lemma_eval_fuel(st1, args[1], ff, gg);
                        match eval(st1, args[1], ff) {
                            Eval::Val(st2, b) => {
                                if !crate::interpreter::semantics::is_binary_builtin(name) {
                                    lemma_call_expr_fuel(st2, name, args, ff, gg);
                                }
                            },
                            _ => {},
                        }
                    },
                    _ => {},
                }
            } else if args.len() == 1 && (name == "!"@ || name == "-"@) {
                lemma_eval_fuel(st, args[0], ff, gg);
            } else {
                lemma_call_expr_fuel(st, name, args, ff, gg);
            }
        },
        _ => {},
    }
}

/// More fuel gives the same values of a list of expressions.
pub proof fn lemma_eval_list_fuel(st: IState, s: Seq<ExprV>, i: int, f: nat, g: nat)
    requires
        f <= g,
        !(eval_list(st, s, i, f) is OutOfFuel),
    ensures
        eval_list(st, s, i, g) == eval_list(st, s, i, f),
    decreases f, s.len() - i,
{
    if 0 <= i < s.len() {
        let ff = (f - 1) as nat;
        let gg = (g - 1) as nat;
        lemma_eval_fuel(st, s[i], ff, gg);
        match eval(st, s[i], ff) {
            Eval::Val(st1, v) => {
                lemma_eval_list_fuel(st1, s, i + 1, f, g);
            },
            _ => {},
        }
    }
}

/// More fuel gives the same value of a call.
pub proof fn lemma_call_expr_fuel(st: IState, name: Seq<char>, args: Seq<ExprV>, f: nat, g: nat)
    requires
        f <= g,
        !(call_expr(st, name, args, f) is OutOfFuel),
    ensures
        call_expr(st, name, args, g) == call_expr(st, name, args, f),
    decreases f, 1nat,
{
    lemma_run_call_fuel(st, name, args, (f - 1) as nat, (g - 1) as nat);
}

/// More fuel gives the same first argument.
pub proof fn lemma_first_arg_fuel(st: IState, args: Seq<ExprV>, f: nat, g: nat)
    requires
        f <= g,
        !(first_arg(st, args, f) is OutOfFuel),
    ensures
        first_arg(st, args, g) == first_arg(st, args, f),
    decreases f, 1nat,
{
    if args.len() > 0 {
        lemma_eval_fuel(st, args[0], f, g);
    }
}

/// More fuel gives the same run of a built-in procedure.
pub proof fn lemma_builtin_fuel(st: IState, name: Seq<char>, args: Seq<ExprV>, f: nat, g: nat)
    requires
        f <= g,
        !(builtin(st, name, args, f) is OutOfFuel),
    ensures
        builtin(st, name, args, g) == builtin(st, name, args, f),
    decreases f, 2nat,
{
    lemma_first_arg_fuel(st, args, f, g);
}

/// More fuel binds the parameters the same way.
pub proof fn lemma_bind_params_fuel(
    st: IState,
    params: Seq<(Seq<char>, Option<PrimitiveType>)>,
    args: Seq<ExprV>,
    i: int,
    f: nat,
    g: nat,
)
    requires
        f <= g,
        !(bind_params(st, params, args, i, f) is OutOfFuel),
    ensures
        bind_params(st, params, args, i, g) == bind_params(st, params, args, i, f),
    decreases f, params.len() - i,
{
    if 0 <= i < params.len() && i < args.len() {
        let ff = (f - 1) as nat;
        let gg = (g - 1) as nat;
        lemma_eval_fuel(st, args[i], ff, gg);
        match eval(st, args[i], ff) {
            Eval::Val(st1, v) => match count_var(st1) {
                Some(st2) => {
                    lemma_bind_params_fuel(IState { vars: st2.vars.push((params[i].0, v)), ..st2 }, params, args, i + 1, f, g);
                },
                None => {},
            },
            _ => {},
        }
    }
}

/// More fuel gives the same run of a call.
pub proof fn lemma_run_call_fuel(st: IState, name: Seq<char>, args: Seq<ExprV>, f: nat, g: nat)
    requires
        f <= g,
        !(run_call(st, name, args, f) is OutOfFuel),
    ensures
        run_call(st, name, args, g) == run_call(st, name, args, f),
    decreases f, 3nat,
{
    let ff = (f - 1) as nat;
    let gg = (g - 1) as nat;
    let st0 = start_scope(st);
    if name == "exit"@ {
    } else if name == "print"@ {
        lemma_first_arg_fuel(st0, args, ff, gg);
    } else if name == "input"@ {
    } else if name == "string_to_int"@ || name == "char_to_int"@ || name == "int_to_char"@ || name == "string_len"@ {
        lemma_builtin_fuel(st0, name, args, ff, gg);
    } else {
        match get_proc(st0.procs, name) {
            Some(SKindV::Procedure { args: params, block, .. }) => {
                lemma_bind_params_fuel(st0, params, args, 0, ff, gg);
                match bind_params(st0, params, args, 0, ff) {
                    Run::Go(st1) => {
                        lemma_run_seq_fuel(st1, block, 0, ff, gg, 2);
                    },
                    _ => {},
                }
            },
            _ => {},
        }
    }
}

/// More fuel runs a sequence of statements the same way.
pub proof fn lemma_run_seq_fuel(st: IState, b: Seq<StmtV>, i: int, f: nat, g: nat, stop: nat)
    requires
        f <= g,
        !(run_seq(st, b, i, f, stop) is OutOfFuel),
    ensures
        run_seq(st, b, i, g, stop) == run_seq(st, b, i, f, stop),
    decreases f, b.len() - i,
{
    if 0 <= i < b.len() {
        let ff = (f - 1) as nat;
        let gg = (g - 1) as nat;
        lemma_run_stmt_fuel(st, b[i], ff, gg);
        match run_stmt(st, b[i], ff) {
            Run::Go(st1) => {
                if !((stop == 1 && (st1.signal is Break || st1.signal is Continue)) || (stop == 2 && st1.signal is Return)) {
                    lemma_run_seq_fuel(st1, b, i + 1, f, g, stop);
                }
            },
            _ => {},
        }
    }
}

/// More fuel runs a loop body once the same way.
pub proof fn lemma_loop_body_fuel(st: IState, b: Seq<StmtV>, i: int, f: nat, g: nat)
    requires
        f <= g,
        !(loop_body(st, b, i, f) is OutOfFuel),
    ensures
        loop_body(st, b, i, g) == loop_body(st, b, i, f),
    decreases f, b.len() - i,
{
    if 0 <= i < b.len() {
        let ff = (f - 1) as nat;
        let gg = (g - 1) as nat;
        lemma_run_stmt_fuel(st, b[i], ff, gg);
        match run_stmt(st, b[i], ff) {
            Run::Go(st1) => {
                if !(st1.signal is Break) && !(st1.signal is Continue) {
                    lemma_loop_body_fuel(st1, b, i + 1, f, g);
                }
            },
            _ => {},
        }
    }
}

/// More fuel runs a `loop` the same way.
pub proof fn lemma_run_loop_fuel(st: IState, b: Seq<StmtV>, f: nat, g: nat)
    requires
        f <= g,
        !(run_loop(st, b, f) is OutOfFuel),
    ensures
        run_loop(st, b, g) == run_loop(st, b, f),
    decreases f, 0nat,
{
    let ff = (f - 1) as nat;
    let gg = (g - 1) as nat;
    lemma_loop_body_fuel(st, b, 0, ff, gg);
    match loop_body(st, b, 0, ff) {
        Body::Again(st1) => {
            lemma_run_loop_fuel(st1, b, ff, gg);
        },
        _ => {},
    }
}

/// More fuel runs a `while` the same way.
pub proof fn lemma_run_while_fuel(st: IState, c: ExprV, b: Seq<StmtV>, f: nat, g: nat)
    requires
        f <= g,
        !(run_while(st, c, b, f) is OutOfFuel),
    ensures
        run_while(st, c, b, g) == run_while(st, c, b, f),
    decreases f, 0nat,
{
    let ff = (f - 1) as nat;
    let gg = (g - 1) as nat;
    lemma_eval_fuel(st, c, ff, gg);
    match eval(st, c, ff) {
        Eval::Val(st1, ValueV::Bool(true)) => {
            lemma_loop_body_fuel(st1, b, 0, ff, gg);
            match loop_body(st1, b, 0, ff) {
                Body::Again(st2) => {
                    lemma_run_while_fuel(st2, c, b, ff, gg);
                },
                _ => {},
            }
        },
        Eval::Val(st1, ValueV::Bool(false)) => {},
        Eval::Val(st1, _) => {
            lemma_run_while_fuel(st1, c, b, ff, gg);
        },
        _ => {},
    }
}

/// More fuel runs a statement the same way.
pub proof fn lemma_run_stmt_fuel(st: IState, s: StmtV, f: nat, g: nat)
    requires
        f <= g,
        !(run_stmt(st, s, f) is OutOfFuel),
    ensures
        run_stmt(st, s, g) == run_stmt(st, s, f),
    decreases f, 4nat,
{
    let ff = (f - 1) as nat;
    let gg = (g - 1) as nat;
    match s.kind {
        SKindV::Call { name, args } => {
            lemma_run_call_fuel(st, name, args, ff, gg);
        },
        SKindV::Return { value } => {
            lemma_eval_fuel(st, value, ff, gg);
        },
        SKindV::Declare { value, .. } => match count_var(st) {
            Some(st1) => match value {
                Some(v) => {
                    lemma_eval_fuel(st1, v, ff, gg);
                },
                None => {},
            },
            None => {},
        },
        SKindV::Assign { dest, src } => {
            lemma_run_assign_fuel(st, dest, src, ff, gg);
        },
        SKindV::If { cond, block } => {
            lemma_eval_fuel(start_scope(st), cond, ff, gg);
            match eval(start_scope(st), cond, ff) {
                Eval::Val(st1, ValueV::Bool(true)) => {
                    lemma_run_seq_fuel(st1, block, 0, ff, gg, 0);
                },
                _ => {},
            }
        },
        SKindV::IfElse { cond, true_block, false_block } => {
            lemma_eval_fuel(start_scope(st), cond, ff, gg);
            match eval(start_scope(st), cond, ff) {
                Eval::Val(st1, ValueV::Bool(c)) => {
                    lemma_run_seq_fuel(st1, if c { true_block } else { false_block }, 0, ff, gg, 1);
                },
                _ => {},
            }
        },
        SKindV::Loop { block } => {
            lemma_run_loop_fuel(start_scope(st), block, ff, gg);
        },
        SKindV::While { cond, block } => {
            lemma_run_while_fuel(start_scope(st), cond, block, ff, gg);
        },
        _ => {},
    }
}

/// More fuel runs an assignment the same way.
#[verifier::rlimit(40)]
pub proof fn lemma_run_assign_fuel(st: IState, dest: ExprV, src: ExprV, f: nat, g: nat)
    requires
        f <= g,
        !(run_assign(st, dest, src, f) is OutOfFuel),
    ensures
        run_assign(st, dest, src, g) == run_assign(st, dest, src, f),
    decreases f, 5nat,
{
    match dest.kind {
        EKindV::Id(id) => {
            if !(eval(st, src, f) is OutOfFuel) {
                lemma_eval_fuel(st, src, f, g);
            }
        },
        EKindV::Call(name, args) => {
            if name == "[]"@ && args.len() >= 2 {
                if !(eval(st, args[1], f) is OutOfFuel) {
                    lemma_eval_fuel(st, args[1], f, g);
                }
                match eval(st, args[1], f) {
                    Eval::Val(st1, ValueV::Int(i)) => {
                        if !(eval(st1, src, f) is OutOfFuel) {
                            lemma_eval_fuel(st1, src, f, g);
                        }
                    },
                    _ => {},
                }
            }
        },
        _ => {},
    }
}

/// A program that ends with some fuel ends the same way with more: the fuel a run is
/// given bounds how long it may go on and changes nothing else.
pub proof fn lemma_run_program_fuel(ast: Seq<StmtV>, input: Seq<Seq<char>>, f: nat, g: nat)
    requires
        f <= g,
        !(run_program(ast, input, f) is OutOfFuel),
    ensures
        run_program(ast, input, g) == run_program(ast, input, f),
{
    lemma_run_seq_fuel(start_scope(initial_state(input)), ast, 0, f, g, 0);
}

} // verus!
