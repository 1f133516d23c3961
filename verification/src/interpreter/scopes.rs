//! Scopes: evaluating an expression or calling a procedure leaves the number of variables
//! and the scopes as they were, a statement adds variables only to the innermost scope, and
//! a block run in a scope of its own leaves the variables and scopes it found.
use vstd::prelude::*;
use crate::types::PrimitiveType;
use crate::syntax_analysis::parser::expression::{ExprV, EKindV};
use crate::syntax_analysis::parser::statement::{StmtV, SKindV};
use crate::interpreter::semantics::{IState, Run, Eval, Body, Vals, ValueV, eval, eval_list, call_expr,
    first_arg, builtin, bind_params, run_call, run_seq, loop_body, run_loop, run_while, run_stmt, run_assign,
    start_scope, end_scope, close, count_var, get_proc, set_var, is_binary_builtin};

verus! {

/// `b` has as many variables as `a` and the same scopes.
pub open spec fn keeps(a: IState, b: IState) -> bool {
    b.vars.len() == a.vars.len() && b.scopes == a.scopes
}

/// `b` is `a` with variables added to the innermost scope only: the same scopes but the
/// count of the innermost, grown by the number of variables added.
pub open spec fn grows(a: IState, b: IState) -> bool {
    &&& b.scopes.len() == a.scopes.len()
    &&& a.scopes.len() == 0 ==> b.vars.len() == a.vars.len()
    &&& a.scopes.len() > 0 ==> {
        &&& b.scopes.drop_last() == a.scopes.drop_last()
        &&& b.vars.len() >= a.vars.len()
        &&& b.scopes.last() - a.scopes.last() == b.vars.len() - a.vars.len()
    }
}

proof fn lemma_keeps_grows(a: IState, b: IState)
    requires
        keeps(a, b),
    ensures
        grows(a, b),
{
}

proof fn lemma_grows_trans(a: IState, b: IState, c: IState)
    requires
        grows(a, b),
        grows(b, c),
    ensures
        grows(a, c),
{
}

/// A run in a scope of its own that only added variables to that scope ends, once the
/// scope is closed, with the variables and scopes it started from.
proof fn lemma_close_scope(st: IState, b: IState)
    requires
        grows(start_scope(st), b),
    ensures
        end_scope(b) matches Some(c) && keeps(st, c),
{
    assert(start_scope(st).scopes.drop_last() =~= st.scopes);
}

proof fn lemma_set_var_len(vars: Seq<(Seq<char>, ValueV)>, name: Seq<char>, v: ValueV)
    ensures
        set_var(vars, name, v) matches Some(r) ==> r.len() == vars.len(),
    decreases vars.len(),
{
    if vars.len() > 0 {
        lemma_set_var_len(vars.drop_last(), name, v);
    }
}

pub proof fn lemma_eval_keeps(st: IState, e: ExprV, f: nat)
    ensures
        eval(st, e, f) matches Eval::Val(st1, _) ==> keeps(st, st1),
    decreases f, 0nat,
{
    if f > 0 {
        let ff = (f - 1) as nat;
        match e.kind {
            EKindV::Array(contents) => lemma_eval_list_keeps(st, contents, 0, ff),
            EKindV::Call(name, args) => {
                if args.len() == 2 {
                    lemma_eval_keeps(st, args[0], ff);
                    match eval(st, args[0], ff) {
                        Eval::Val(st1, a) => {
                            lemma_eval_keeps(st1, args[1], ff);
                            match eval(st1, args[1], ff) {
                                Eval::Val(st2, b) => {
                                    if !is_binary_builtin(name) {
                                        lemma_call_expr_keeps(st2, name, args, ff);
                                    }
                                },
                                _ => {},
                            }
                        },
                        _ => {},
                    }
                } else if args.len() == 1 && (name == "!"@ || name == "-"@) {
                    lemma_eval_keeps(st, args[0], ff);
                } else {
                    lemma_call_expr_keeps(st, name, args, ff);
                }
            },
            _ => {},
        }
    }
}

pub proof fn lemma_eval_list_keeps(st: IState, s: Seq<ExprV>, i: int, f: nat)
    ensures
        eval_list(st, s, i, f) matches Vals::Vals(st1, _) ==> keeps(st, st1),
    decreases f, s.len() - i,
{
    if f > 0 && 0 <= i < s.len() {
        let ff = (f - 1) as nat;
        lemma_eval_keeps(st, s[i], ff);
        match eval(st, s[i], ff) {
            Eval::Val(st1, v) => lemma_eval_list_keeps(st1, s, i + 1, f),
            _ => {},
        }
    }
}

pub proof fn lemma_call_expr_keeps(st: IState, name: Seq<char>, args: Seq<ExprV>, f: nat)
    ensures
        call_expr(st, name, args, f) matches Eval::Val(st1, _) ==> keeps(st, st1),
    decreases f, 1nat,
{
    if f > 0 {
        lemma_run_call_keeps(st, name, args, (f - 1) as nat);
    }
}

pub proof fn lemma_first_arg_keeps(st: IState, args: Seq<ExprV>, f: nat)
    ensures
        first_arg(st, args, f) matches Eval::Val(st1, _) ==> keeps(st, st1),
    decreases f, 1nat,
{
    if args.len() > 0 {
        lemma_eval_keeps(st, args[0], f);
    }
}

pub proof fn lemma_builtin_keeps(st: IState, name: Seq<char>, args: Seq<ExprV>, f: nat)
    ensures
        builtin(st, name, args, f) matches Run::Go(st1) ==> keeps(st, st1),
    decreases f, 2nat,
{
    lemma_first_arg_keeps(st, args, f);
}

pub proof fn lemma_bind_params_grows(
    st: IState,
    params: Seq<(Seq<char>, Option<PrimitiveType>)>,
    args: Seq<ExprV>,
    i: int,
    f: nat,
)
    ensures
        bind_params(st, params, args, i, f) matches Run::Go(st1) ==> grows(st, st1),
    decreases f, params.len() - i,
{
    if f > 0 && 0 <= i < params.len() && i < args.len() {
        let ff = (f - 1) as nat;
        lemma_eval_keeps(st, args[i], ff);
        match eval(st, args[i], ff) {
            Eval::Val(st1, v) => match count_var(st1) {
                Some(st2) => {
                    let st3 = IState { vars: st2.vars.push((params[i].0, v)), ..st2 };
                    assert(st2.scopes.drop_last() =~= st1.scopes.drop_last());
                    lemma_bind_params_grows(st3, params, args, i + 1, f);
                    match bind_params(st3, params, args, i + 1, f) {
                        Run::Go(st4) => lemma_grows_trans(st, st3, st4),
                        _ => {},
                    }
                },
                None => {},
            },
            _ => {},
        }
    }
}

/// Calling a procedure, built in or the program's own, leaves as many variables and the
/// same scopes: its parameters and variables live in a scope of its own, closed after it.
pub proof fn lemma_run_call_keeps(st: IState, name: Seq<char>, args: Seq<ExprV>, f: nat)
    ensures
        run_call(st, name, args, f) matches Run::Go(st1) ==> keeps(st, st1),
    decreases f, 3nat,
{
    if f > 0 {
        let ff = (f - 1) as nat;
        let st0 = start_scope(st);
        if name == "exit"@ {
        } else if name == "print"@ {
            lemma_first_arg_keeps(st0, args, ff);
            match first_arg(st0, args, ff) {
                Eval::Val(st1, _) => lemma_close_scope(st, IState { out: st1.out, ..st1 }),
                _ => {},
            }
        } else if name == "input"@ {
            lemma_close_scope(st, st0);
            let line = if st0.input.len() == 0 { seq![] } else { st0.input[0] };
            let rest = if st0.input.len() == 0 { seq![] } else { st0.input.drop_first() };
            lemma_close_scope(st, IState { signal: crate::interpreter::semantics::SignalV::Return(ValueV::Array(crate::interpreter::semantics::char_values(line))), input: rest, ..st0 });
        } else if name == "string_to_int"@ || name == "char_to_int"@ || name == "int_to_char"@ || name == "string_len"@ {
            lemma_builtin_keeps(st0, name, args, ff);
            match builtin(st0, name, args, ff) {
                Run::Go(st1) => lemma_close_scope(st, st1),
                _ => {},
            }
        } else {
            match get_proc(st0.procs, name) {
                Some(SKindV::Procedure { args: params, block, .. }) => {
                    lemma_bind_params_grows(st0, params, args, 0, ff);
                    match bind_params(st0, params, args, 0, ff) {
                        Run::Go(st1) => {
                            lemma_run_seq_grows(st1, block, 0, ff, 2);
                            match run_seq(st1, block, 0, ff, 2) {
                                Run::Go(st2) => {
                                    lemma_grows_trans(st0, st1, st2);
                                    lemma_close_scope(st, st2);
                                },
                                _ => {},
                            }
                        },
                        _ => {},
                    }
                },
                _ => {},
            }
        }
    }
}

pub proof fn lemma_run_seq_grows(st: IState, b: Seq<StmtV>, i: int, f: nat, stop: nat)
    ensures
        run_seq(st, b, i, f, stop) matches Run::Go(st1) ==> grows(st, st1),
    decreases f, b.len() - i,
{
    if f > 0 && 0 <= i < b.len() {
        let ff = (f - 1) as nat;
        lemma_run_stmt_grows(st, b[i], ff);
        match run_stmt(st, b[i], ff) {
            Run::Go(st1) => {
                if !((stop == 1 && (st1.signal is Break || st1.signal is Continue)) || (stop == 2 && st1.signal is Return)) {
                    lemma_run_seq_grows(st1, b, i + 1, f, stop);
                    match run_seq(st1, b, i + 1, f, stop) {
                        Run::Go(st2) => lemma_grows_trans(st, st1, st2),
                        _ => {},
                    }
                }
            },
            _ => {},
        }
    } else if f > 0 {
        assert(grows(st, st));
    }
}

pub proof fn lemma_loop_body_grows(st: IState, b: Seq<StmtV>, i: int, f: nat)
    ensures
        loop_body(st, b, i, f) matches Body::Broke(st1) ==> grows(st, st1),
        loop_body(st, b, i, f) matches Body::Again(st1) ==> grows(st, st1),
    decreases f, b.len() - i,
{
    if f > 0 && 0 <= i < b.len() {
        let ff = (f - 1) as nat;
        lemma_run_stmt_grows(st, b[i], ff);
        match run_stmt(st, b[i], ff) {
            Run::Go(st1) => {
                if !(st1.signal is Break) && !(st1.signal is Continue) {
                    lemma_loop_body_grows(st1, b, i + 1, f);
                    match loop_body(st1, b, i + 1, f) {
                        Body::Broke(st2) => lemma_grows_trans(st, st1, st2),
                        Body::Again(st2) => lemma_grows_trans(st, st1, st2),
                        _ => {},
                    }
                }
            },
            _ => {},
        }
    }
}

pub proof fn lemma_run_loop_grows(st: IState, b: Seq<StmtV>, f: nat)
    ensures
        run_loop(st, b, f) matches Run::Go(st1) ==> grows(st, st1),
    decreases f, 0nat,
{
    if f > 0 {
        let ff = (f - 1) as nat;
        lemma_loop_body_grows(st, b, 0, ff);
        match loop_body(st, b, 0, ff) {
            Body::Again(st1) => {
                lemma_run_loop_grows(st1, b, ff);
                match run_loop(st1, b, ff) {
                    Run::Go(st2) => lemma_grows_trans(st, st1, st2),
                    _ => {},
                }
            },
            _ => {},
        }
    }
}

pub proof fn lemma_run_while_grows(st: IState, c: ExprV, b: Seq<StmtV>, f: nat)
    ensures
        run_while(st, c, b, f) matches Run::Go(st1) ==> grows(st, st1),
    decreases f, 0nat,
{
    if f > 0 {
        let ff = (f - 1) as nat;
        lemma_eval_keeps(st, c, ff);
        match eval(st, c, ff) {
            Eval::Val(st1, ValueV::Bool(true)) => {
                lemma_loop_body_grows(st1, b, 0, ff);
                match loop_body(st1, b, 0, ff) {
                    Body::Broke(st2) => lemma_grows_trans(st, st1, st2),
                    Body::Again(st2) => {
                        lemma_grows_trans(st, st1, st2);
                        lemma_run_while_grows(st2, c, b, ff);
                        match run_while(st2, c, b, ff) {
                            Run::Go(st3) => lemma_grows_trans(st, st2, st3),
                            _ => {},
                        }
                    },
                    _ => {},
                }
            },
            Eval::Val(st1, ValueV::Bool(false)) => {},
            Eval::Val(st1, _) => {
                lemma_run_while_grows(st1, c, b, ff);
                match run_while(st1, c, b, ff) {
                    Run::Go(st2) => lemma_grows_trans(st, st1, st2),
                    _ => {},
                }
            },
            _ => {},
        }
    }
}

/// A statement in a scope of its own (`if`, `if`-`else`, `loop`, `while`) leaves the
/// variables and scopes it found, once it ends normally.
pub proof fn lemma_scoped_statement_keeps(st: IState, r: Run)
    requires
        r matches Run::Go(st1) ==> grows(start_scope(st), st1),
    ensures
        close(r) matches Run::Go(st2) ==> keeps(st, st2),
{
    match r {
        Run::Go(st1) => lemma_close_scope(st, st1),
        _ => {},
    }
}

/// A statement adds variables only to the innermost scope: a declaration adds one there,
/// and every other statement leaves as many variables and the same scopes.
pub proof fn lemma_run_stmt_grows(st: IState, s: StmtV, f: nat)
    ensures
        run_stmt(st, s, f) matches Run::Go(st1) ==> grows(st, st1),
        !(s.kind is Declare) ==> (run_stmt(st, s, f) matches Run::Go(st1) ==> keeps(st, st1)),
    decreases f, 4nat,
{
    if f > 0 {
        let ff = (f - 1) as nat;
        match s.kind {
            SKindV::Call { name, args } => lemma_run_call_keeps(st, name, args, ff),
            SKindV::Return { value } => lemma_eval_keeps(st, value, ff),
            SKindV::Declare { value, .. } => match count_var(st) {
                Some(st1) => {
                    assert(st1.scopes.drop_last() =~= st.scopes.drop_last());
                    match value {
                        Some(v) => lemma_eval_keeps(st1, v, ff),
                        None => {},
                    }
                },
                None => {},
            },
            SKindV::Assign { dest, src } => lemma_run_assign_keeps(st, dest, src, ff),
            SKindV::If { cond, block } => {
                let s0 = start_scope(st);
                lemma_eval_keeps(s0, cond, ff);
                match eval(s0, cond, ff) {
                    Eval::Val(st1, ValueV::Bool(true)) => {
                        lemma_run_seq_grows(st1, block, 0, ff, 0);
                        match run_seq(st1, block, 0, ff, 0) {
                            Run::Go(st2) => lemma_grows_trans(s0, st1, st2),
                            _ => {},
                        }
                    },
                    _ => {},
                }
                lemma_scoped_statement_keeps(st, match eval(s0, cond, ff) {
                    Eval::Val(st1, ValueV::Bool(true)) => run_seq(st1, block, 0, ff, 0),
                    Eval::Val(st1, _) => Run::Go(st1),
                    Eval::Exit(o) => Run::Exit(o),
                    Eval::Panic(o) => Run::Panic(o),
                    Eval::OutOfFuel(o) => Run::OutOfFuel(o),
                });
            },
            SKindV::IfElse { cond, true_block, false_block } => {
                let s0 = start_scope(st);
                lemma_eval_keeps(s0, cond, ff);
                match eval(s0, cond, ff) {
                    Eval::Val(st1, ValueV::Bool(c)) => {
                        let blk = if c { true_block } else { false_block };
                        lemma_run_seq_grows(st1, blk, 0, ff, 1);
                        match run_seq(st1, blk, 0, ff, 1) {
                            Run::Go(st2) => lemma_grows_trans(s0, st1, st2),
                            _ => {},
                        }
                    },
                    _ => {},
                }
                lemma_scoped_statement_keeps(st, match eval(s0, cond, ff) {
                    Eval::Val(st1, ValueV::Bool(b)) => run_seq(st1, if b { true_block } else { false_block }, 0, ff, 1),
                    Eval::Val(st1, _) => Run::Go(st1),
                    Eval::Exit(o) => Run::Exit(o),
                    Eval::Panic(o) => Run::Panic(o),
                    Eval::OutOfFuel(o) => Run::OutOfFuel(o),
                });
            },
            SKindV::Loop { block } => {
                lemma_run_loop_grows(start_scope(st), block, ff);
                lemma_scoped_statement_keeps(st, run_loop(start_scope(st), block, ff));
            },
            SKindV::While { cond, block } => {
                lemma_run_while_grows(start_scope(st), cond, block, ff);
                lemma_scoped_statement_keeps(st, run_while(start_scope(st), cond, block, ff));
            },
            _ => {},
        }
    }
}

pub proof fn lemma_run_assign_keeps(st: IState, dest: ExprV, src: ExprV, f: nat)
    ensures
        run_assign(st, dest, src, f) matches Run::Go(st1) ==> keeps(st, st1),
    decreases f, 5nat,
{
    match dest.kind {
        EKindV::Id(id) => {
            lemma_eval_keeps(st, src, f);
            match eval(st, src, f) {
                Eval::Val(st1, v) => lemma_set_var_len(st1.vars, id, v),
                _ => {},
            }
        },
        EKindV::Call(name, args) => {
            if name == "[]"@ && args.len() >= 2 {
                lemma_eval_keeps(st, args[1], f);
                match eval(st, args[1], f) {
                    Eval::Val(st1, ValueV::Int(i)) => {
                        lemma_eval_keeps(st1, src, f);
                        match args[0].kind {
                            EKindV::Id(id) => match crate::interpreter::semantics::get_var(st1.vars, id) {
                                Some(ValueV::Array(values)) => match eval(st1, src, f) {
                                    Eval::Val(st2, v) => lemma_set_var_len(st2.vars, id, ValueV::Array(values.update(i as int, v))),
                                    _ => {},
                                },
                                _ => {},
                            },
                            _ => {},
                        }
                    },
                    _ => {},
                }
            }
        },
        _ => {},
    }
}

/// An `if`-`else` that ends normally leaves as many variables and the same scopes: the
/// block it runs declares its names in a scope of its own.
pub proof fn lemma_if_else_keeps_scopes(st: IState, s: StmtV, f: nat)
    requires
        s.kind is IfElse,
    ensures
        run_stmt(st, s, f) matches Run::Go(st1) ==> st1.vars.len() == st.vars.len() && st1.scopes == st.scopes,
{
    lemma_run_stmt_grows(st, s, f);
}

} // verus!
