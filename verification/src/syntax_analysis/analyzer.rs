//! The analyzer: types each name and call in the program, reports the errors it finds,
//! and learns the signature of each procedure.
use vstd::prelude::*;
use crate::types::{PrimitiveType, type_text};
use crate::syntax_analysis::parser::op::{Op, op_text, is_comparison, is_arithmetic};
use crate::positioned::insert_positioned;
use crate::syntax_analysis::errors::{Errors, ErrorKind, ErrorKindV};
use crate::syntax_analysis::parser::expression::{Expression, ExpressionKind, ExprV, EKindV, exprs_view};
use crate::syntax_analysis::parser::statement::{Statement, StatementKind, StmtV, SKindV, stmts_view, args_view};

verus! {

/// A call signature: a name and argument types, and the type of the result.
pub struct SigV {
    pub name: Seq<char>,
    pub args: Seq<PrimitiveType>,
    pub ret: Option<PrimitiveType>,
}

/// The state of the analyzer: the variables in scope, latest last; how many each open
/// scope added; the known signatures; and the errors so far.
pub struct AState {
    pub vars: Seq<(Seq<char>, PrimitiveType)>,
    pub scopes: Seq<int>,
    pub sigs: Seq<SigV>,
    pub errors: Seq<(usize, usize, ErrorKindV)>,
}

/// The type of the latest variable of that name.
pub open spec fn var_type(vars: Seq<(Seq<char>, PrimitiveType)>, name: Seq<char>) -> Option<PrimitiveType>
    decreases vars.len(),
{
    if vars.len() == 0 {
        None
    } else if vars.last().0 == name {
        Some(vars.last().1)
    } else {
        var_type(vars.drop_last(), name)
    }
}

/// The result type of the signature for a name and argument types, if one is known.
pub open spec fn sig_of(sigs: Seq<SigV>, name: Seq<char>, args: Seq<PrimitiveType>) -> Option<Option<PrimitiveType>>
    decreases sigs.len(),
{
    if sigs.len() == 0 {
        None
    } else if sigs[0].name == name && sigs[0].args == args {
        Some(sigs[0].ret)
    } else {
        sig_of(sigs.drop_first(), name, args)
    }
}

/// The signatures with one set: an existing one for the same name and argument types
/// takes the new result type, else it is added.
pub open spec fn sig_set(sigs: Seq<SigV>, s: SigV) -> Seq<SigV>
    decreases sigs.len(),
{
    if sigs.len() == 0 {
        seq![s]
    } else if sigs[0].name == s.name && sigs[0].args == s.args {
        sigs.update(0, s)
    } else {
        seq![sigs[0]] + sig_set(sigs.drop_first(), s)
    }
}

/// The state with one more error.
pub open spec fn report(st: AState, kind: ErrorKindV, line: usize, col: usize) -> AState {
    AState { errors: insert_positioned(st.errors, (line, col, kind)), ..st }
}

/// The state with a variable added to the innermost scope; `None` where there is no scope
/// or the scope's count (a signed byte) would overflow.
pub open spec fn add_variable(st: AState, name: Seq<char>, t: PrimitiveType) -> Option<AState> {
    if st.scopes.len() == 0 || st.scopes.last() >= 127 {
        None
    } else {
        Some(
            AState {
                vars: st.vars.push((name, t)),
                scopes: st.scopes.update(st.scopes.len() - 1, st.scopes.last() + 1),
                ..st
            },
        )
    }
}

/// The state with a new, empty scope.
pub open spec fn start_scope(st: AState) -> AState {
    AState { scopes: st.scopes.push(0), ..st }
}

/// The state with the innermost scope and its variables gone; `None` where no scope is
/// open.
pub open spec fn end_scope(st: AState) -> Option<AState> {
    if st.scopes.len() == 0 {
        None
    } else {
        let n = st.scopes.last();
        let keep = if n <= 0 {
            st.vars.len() as int
        } else if n <= st.vars.len() {
            st.vars.len() - n
        } else {
            0
        };
        Some(AState { vars: st.vars.take(keep), scopes: st.scopes.drop_last(), ..st })
    }
}

/// An expression with another type.
pub open spec fn with_type(e: ExprV, t: Option<PrimitiveType>) -> ExprV {
    ExprV { typ: t, ..e }
}

/// An expression with another kind.
pub open spec fn with_kind(e: ExprV, k: EKindV) -> ExprV {
    ExprV { kind: k, ..e }
}

/// Checking an expression: the state after it and the expression with its type filled
/// in; `None` where checking panics.
pub open spec fn analyze_expr(st: AState, e: ExprV) -> Option<(AState, ExprV)>
    decreases e, 1nat,
{
    match e.kind {
        EKindV::Call(name, args) => match analyze_args(st, args) {
            None => None,
            Some((st1, args1, tys)) => {
                let e1 = with_kind(e, EKindV::Call(name, args1));
                match sig_of(st1.sigs, name, tys) {
                    Some(r) => Some((st1, with_type(e1, r))),
                    None => Some((report(st1, ErrorKindV::UndefinedProcedure, e.line as usize, e.col as usize), e1)),
                }
            },
        },
        EKindV::Lit(_) => Some((st, e)),
        EKindV::Id(id) => match var_type(st.vars, id) {
            Some(t) => Some((st, with_type(e, Some(t)))),
            None => Some((report(st, ErrorKindV::UndeclaredVariable { var: id }, e.line as usize, e.col as usize), e)),
        },
        EKindV::Array(values) => match analyze_list(st, values) {
            None => None,
            Some((st1, values1)) => Some((st1, with_kind(e, EKindV::Array(values1)))),
        },
    }
}

/// Checking the arguments of a call in order: the state after them, the checked
/// arguments, and the types they contribute to the signature looked up (a name by its
/// variable's type, which panics for an undeclared name; any other argument by its type
/// if it has one).
pub open spec fn analyze_args(st: AState, s: Seq<ExprV>) -> Option<(AState, Seq<ExprV>, Seq<PrimitiveType>)>
    decreases s, 0nat,
{
    if s.len() == 0 {
        Some((st, seq![], seq![]))
    } else {
        match analyze_args(st, s.drop_last()) {
            None => None,
            Some((st1, done, tys)) => match analyze_expr(st1, s.last()) {
                None => None,
                Some((st2, a)) => match a.kind {
                    EKindV::Id(id) => match var_type(st2.vars, id) {
                        Some(t) => Some((st2, done.push(a), tys.push(t))),
                        None => None,
                    },
                    _ => match a.typ {
                        Some(t) => Some((st2, done.push(a), tys.push(t))),
                        None => Some((st2, done.push(a), tys)),
                    },
                },
            },
        }
    }
}

/// Checking expressions in order.
pub open spec fn analyze_list(st: AState, s: Seq<ExprV>) -> Option<(AState, Seq<ExprV>)>
    decreases s, 0nat,
{
    if s.len() == 0 {
        Some((st, seq![]))
    } else {
        match analyze_list(st, s.drop_last()) {
            None => None,
            Some((st1, done)) => match analyze_expr(st1, s.last()) {
                None => None,
                Some((st2, a)) => Some((st2, done.push(a))),
            },
        }
    }
}

/// Checking a condition: it must have a type, and a boolean one or an error is reported.
pub open spec fn analyze_condition(st: AState, c: ExprV) -> Option<(AState, ExprV)> {
    match analyze_expr(st, c) {
        None => None,
        Some((st1, c1)) => match c1.typ {
            None => None,
            Some(t) => if t != PrimitiveType::Bool {
                Some((
                    report(st1, ErrorKindV::MismatchedTypes { expected: "bool"@, found: type_text(t) }, c1.line as usize, c1.col as usize),
                    c1,
                ))
            } else {
                Some((st1, c1))
            },
        },
    }
}

/// A statement with another kind.
pub open spec fn with_skind(s: StmtV, k: SKindV) -> StmtV {
    StmtV { kind: k, ..s }
}

/// Checking a block in a scope of its own.
pub open spec fn scoped_block(st: AState, b: Seq<StmtV>) -> Option<(AState, Seq<StmtV>)>
    decreases b, 1nat,
{
    match analyze_block(start_scope(st), b) {
        None => None,
        Some((st1, b1)) => match end_scope(st1) {
            None => None,
            Some(st2) => Some((st2, b1)),
        },
    }
}

/// The parameters of a procedure added as variables, with their types; `None` where one
/// has no type.
pub open spec fn proc_params(st: AState, args: Seq<(Seq<char>, Option<PrimitiveType>)>) -> Option<(AState, Seq<PrimitiveType>)>
    decreases args.len(),
{
    if args.len() == 0 {
        Some((st, seq![]))
    } else {
        match proc_params(st, args.drop_last()) {
            None => None,
            Some((st1, tys)) => match args.last().1 {
                None => None,
                Some(t) => match add_variable(st1, args.last().0, t) {
                    None => None,
                    Some(st2) => Some((st2, tys.push(t))),
                },
            },
        }
    }
}

/// Checking a statement: the state after it and the statement with its expressions
/// typed; `None` where checking panics.
pub open spec fn analyze_stmt(st: AState, s: StmtV) -> Option<(AState, StmtV)>
    decreases s, 2nat,
{
    match s.kind {
        SKindV::Declare { name, type_hint, value } => match value {
            Some(v) => match analyze_expr(st, v) {
                None => None,
                Some((st1, v1)) => {
                    let s1 = with_skind(s, SKindV::Declare { name, type_hint, value: Some(v1) });
                    match v1.typ {
                        None => None,
                        Some(vt) => match type_hint {
                            Some(h) => if h != vt {
                                Some((
                                    report(
                                        st1,
                                        ErrorKindV::MismatchedTypes { expected: type_text(vt), found: type_text(h) },
                                        s.line as usize,
                                        s.col as usize,
                                    ),
                                    s1,
                                ))
                            } else {
                                match add_variable(st1, name, vt) {
                                    None => None,
                                    Some(st2) => Some((st2, s1)),
                                }
                            },
                            None => match add_variable(st1, name, vt) {
                                None => None,
                                Some(st2) => Some((st2, s1)),
                            },
                        },
                    }
                },
            },
            None => match type_hint {
                Some(h) => match add_variable(st, name, h) {
                    None => None,
                    Some(st1) => Some((st1, s)),
                },
                None => None,
            },
        },
        SKindV::Assign { dest, src } => match analyze_expr(st, dest) {
            None => None,
            Some((st1, d1)) => match analyze_expr(st1, src) {
                None => None,
                Some((st2, s1)) => match s1.typ {
                    None => None,
                    Some(src_t) => match d1.kind {
                        EKindV::Id(id) => if var_type(st2.vars, id) is Some {
                            match d1.typ {
                                None => None,
                                Some(dt) => if dt != src_t {
                                    Some((
                                        report(
                                            st2,
                                            ErrorKindV::MismatchedTypes { expected: type_text(dt), found: type_text(src_t) },
                                            d1.line as usize,
                                            d1.col as usize,
                                        ),
                                        with_skind(s, SKindV::Assign { dest: d1, src: s1 }),
                                    ))
                                } else {
                                    Some((st2, with_skind(s, SKindV::Assign { dest: d1, src: s1 })))
                                },
                            }
                        } else {
                            Some((
                                report(st2, ErrorKindV::UndeclaredVariable { var: id }, d1.line as usize, d1.col as usize),
                                with_skind(s, SKindV::Assign { dest: d1, src: s1 }),
                            ))
                        },
                        EKindV::Call(name, exprs) => if name == "[]"@ {
                            match analyze_list(st2, exprs) {
                                None => None,
                                Some((st3, exprs1)) => Some((
                                    st3,
                                    with_skind(s, SKindV::Assign { dest: with_kind(d1, EKindV::Call(name, exprs1)), src: s1 }),
                                )),
                            }
                        } else {
                            Some((st2, with_skind(s, SKindV::Assign { dest: d1, src: s1 })))
                        },
                        _ => Some((
                            report(st2, ErrorKindV::InvalidIdentifier, d1.line as usize, d1.col as usize),
                            with_skind(s, SKindV::Assign { dest: d1, src: s1 }),
                        )),
                    },
                },
            },
        },
        SKindV::If { cond, block } => match analyze_condition(start_scope(st), cond) {
            None => None,
            Some((st1, c1)) => match analyze_block(st1, block) {
                None => None,
                Some((st2, b1)) => match end_scope(st2) {
                    None => None,
                    Some(st3) => Some((st3, with_skind(s, SKindV::If { cond: c1, block: b1 }))),
                },
            },
        },
        SKindV::IfElse { cond, true_block, false_block } => match analyze_condition(st, cond) {
            None => None,
            Some((st1, c1)) => match scoped_block(st1, true_block) {
                None => None,
                Some((st2, tb)) => match scoped_block(st2, false_block) {
                    None => None,
                    Some((st3, fb)) => Some((
                        st3,
                        with_skind(s, SKindV::IfElse { cond: c1, true_block: tb, false_block: fb }),
                    )),
                },
            },
        },
        SKindV::Loop { block } => match scoped_block(st, block) {
            None => None,
            Some((st1, b1)) => Some((st1, with_skind(s, SKindV::Loop { block: b1 }))),
        },
        SKindV::While { cond, block } => match analyze_condition(start_scope(st), cond) {
            None => None,
            Some((st1, c1)) => match analyze_block(st1, block) {
                None => None,
                Some((st2, b1)) => match end_scope(st2) {
                    None => None,
                    Some(st3) => Some((st3, with_skind(s, SKindV::While { cond: c1, block: b1 }))),
                },
            },
        },
        SKindV::Call { name, args } => match analyze_list(st, args) {
            None => None,
            Some((st1, args1)) => Some((st1, with_skind(s, SKindV::Call { name, args: args1 }))),
        },
        SKindV::Procedure { name, args, ret, block } => {
            let st0 = start_scope(AState { vars: seq![], ..st });
            match proc_params(st0, args) {
                None => None,
                Some((st1, tys)) => match analyze_block(st1, block) {
                    None => None,
                    Some((st2, b1)) => {
                        let st3 = AState { sigs: sig_set(st2.sigs, SigV { name, args: tys, ret }), ..st2 };
                        match end_scope(st3) {
                            None => None,
                            Some(st4) => Some((
                                AState { vars: st.vars, ..st4 },
                                with_skind(s, SKindV::Procedure { name, args, ret, block: b1 }),
                            )),
                        }
                    },
                },
            }
        },
        _ => Some((st, s)),
    }
}

/// Checking statements in order.
pub open spec fn analyze_block(st: AState, s: Seq<StmtV>) -> Option<(AState, Seq<StmtV>)>
    decreases s, 0nat,
{
    if s.len() == 0 {
        Some((st, seq![]))
    } else {
        match analyze_block(st, s.drop_last()) {
            None => None,
            Some((st1, done)) => match analyze_stmt(st1, s.last()) {
                None => None,
                Some((st2, a)) => Some((st2, done.push(a))),
            },
        }
    }
}

/// The signatures known before any procedure: arithmetic, comparison and logic, array
/// indexing, and the built-in procedures.
pub open spec fn initial_signatures() -> Seq<SigV> {
    let i = PrimitiveType::Int;
    let boolean = PrimitiveType::Bool;
    let ch = PrimitiveType::Char;
    let ints = PrimitiveType::Arr(Box::new(PrimitiveType::Int));
    let text = PrimitiveType::Arr(Box::new(PrimitiveType::Char));
    seq![
        SigV { name: "+"@, args: seq![i, i], ret: Some(i) },
        SigV { name: "-"@, args: seq![i, i], ret: Some(i) },
        SigV { name: "-"@, args: seq![i], ret: Some(i) },
        SigV { name: "/"@, args: seq![i, i], ret: Some(i) },
        SigV { name: "*"@, args: seq![i, i], ret: Some(i) },
        SigV { name: "%"@, args: seq![i, i], ret: Some(i) },
        SigV { name: "=="@, args: seq![i, i], ret: Some(boolean) },
        SigV { name: "!="@, args: seq![i, i], ret: Some(boolean) },
        SigV { name: "<"@, args: seq![i, i], ret: Some(boolean) },
        SigV { name: "<="@, args: seq![i, i], ret: Some(boolean) },
        SigV { name: ">"@, args: seq![i, i], ret: Some(boolean) },
        SigV { name: ">="@, args: seq![i, i], ret: Some(boolean) },
        SigV { name: "and"@, args: seq![boolean, boolean], ret: Some(boolean) },
        SigV { name: "or"@, args: seq![boolean, boolean], ret: Some(boolean) },
        SigV { name: "!"@, args: seq![boolean], ret: Some(boolean) },
        SigV { name: "[]"@, args: seq![ints, i], ret: Some(i) },
        SigV { name: "[]"@, args: seq![text, i], ret: Some(ch) },
        SigV { name: "input"@, args: seq![], ret: Some(text) },
        SigV { name: "string_to_int"@, args: seq![text], ret: Some(i) },
        SigV { name: "char_to_int"@, args: seq![ch], ret: Some(i) },
        SigV { name: "int_to_char"@, args: seq![i], ret: Some(ch) },
        SigV { name: "string_len"@, args: seq![text], ret: Some(i) },
    ]
}

/// Checking a program with the errors found before: the state at the end and the typed
/// program, the program's statements in one scope; `None` where checking panics.
pub open spec fn analyze_program(ast: Seq<StmtV>, errors: Seq<(usize, usize, ErrorKindV)>) -> Option<(AState, Seq<StmtV>)> {
    let st0 = AState { vars: seq![], scopes: seq![], sigs: initial_signatures(), errors };
    match analyze_block(start_scope(st0), ast) {
        None => None,
        Some((st1, b)) => match end_scope(st1) {
            None => None,
            Some(st2) => Some((st2, b)),
        },
    }
}

} // verus!

verus! {

/// The value of a stored signature.
pub open spec fn sig_view(s: (String, Vec<PrimitiveType>, Option<PrimitiveType>)) -> SigV {
    SigV { name: s.0@, args: s.1@, ret: s.2 }
}

/// The analyzer's state.
pub struct Analyzer {
    variables: Vec<(String, PrimitiveType)>,
    num_vars_scope: Vec<i8>,
    call_signatures: Vec<(String, Vec<PrimitiveType>, Option<PrimitiveType>)>,
    errors: Errors,
}

fn copy_types(v: &Vec<PrimitiveType>) -> (r: Vec<PrimitiveType>)
    ensures
        r@ == v@,
{
    let mut r: Vec<PrimitiveType> = Vec::new();
    let mut i: usize = 0;
    while i < v.len()
        invariant
            0 <= i <= v.len(),
            r@ == v@.take(i as int),
        decreases v.len() - i,
    {
        r.push(v[i].copy());
        assert(r@ =~= v@.take(i as int + 1));
        i += 1;
    }
    assert(v@.take(i as int) =~= v@);
    r
}

fn same_types(a: &Vec<PrimitiveType>, b: &Vec<PrimitiveType>) -> (r: bool)
    ensures
        r == (a@ == b@),
{
    if a.len() != b.len() {
        return false;
    }
    let mut i: usize = 0;
    while i < a.len()
        invariant
            a@.len() == b@.len(),
            0 <= i <= a.len(),
            forall|j: int| 0 <= j < i ==> a@[j] == b@[j],
        decreases a.len() - i,
    {
        if !a[i].same(&b[i]) {
            return false;
        }
        i += 1;
    }
    assert(a@ =~= b@);
    true
}

fn sig(name: &str, args: Vec<PrimitiveType>, ret: Option<PrimitiveType>) -> (r: (String, Vec<PrimitiveType>, Option<PrimitiveType>))
    ensures
        sig_view(r) == (SigV { name: name@, args: args@, ret }),
{
    (crate::text::string_of(name), args, ret)
}

fn types2(a: PrimitiveType, b: PrimitiveType) -> (r: Vec<PrimitiveType>)
    ensures
        r@ == seq![a, b],
{
    let mut r: Vec<PrimitiveType> = Vec::new();
    r.push(a);
    r.push(b);
    assert(r@ =~= seq![a, b]);
    r
}

fn types1(a: PrimitiveType) -> (r: Vec<PrimitiveType>)
    ensures
        r@ == seq![a],
{
    let mut r: Vec<PrimitiveType> = Vec::new();
    r.push(a);
    assert(r@ =~= seq![a]);
    r
}

fn chars_type() -> (t: PrimitiveType)
    ensures
        t == PrimitiveType::Arr(Box::new(PrimitiveType::Char)),
{
    PrimitiveType::Arr(Box::new(PrimitiveType::Char))
}

impl Analyzer {
    /// The analyzer's state.
    pub closed spec fn state(&self) -> AState {
        AState {
            vars: self.variables@.map_values(|v: (String, PrimitiveType)| (v.0@, v.1)),
            scopes: self.num_vars_scope@.map_values(|n: i8| n as int),
            sigs: self.call_signatures@.map_values(|s: (String, Vec<PrimitiveType>, Option<PrimitiveType>)| sig_view(s)),
            errors: self.errors.view_entries(),
        }
    }

    fn new(errors: Errors) -> (a: Analyzer)
        ensures
            a.state() == (AState {
                vars: seq![],
                scopes: seq![],
                sigs: initial_signatures(),
                errors: errors.view_entries(),
            }),
    {
        let mut s: Vec<(String, Vec<PrimitiveType>, Option<PrimitiveType>)> = Vec::new();
        s.push(sig("+", types2(PrimitiveType::Int, PrimitiveType::Int), Some(PrimitiveType::Int)));
        s.push(sig("-", types2(PrimitiveType::Int, PrimitiveType::Int), Some(PrimitiveType::Int)));
        s.push(sig("-", types1(PrimitiveType::Int), Some(PrimitiveType::Int)));
        s.push(sig("/", types2(PrimitiveType::Int, PrimitiveType::Int), Some(PrimitiveType::Int)));
        s.push(sig("*", types2(PrimitiveType::Int, PrimitiveType::Int), Some(PrimitiveType::Int)));
        s.push(sig("%", types2(PrimitiveType::Int, PrimitiveType::Int), Some(PrimitiveType::Int)));
        s.push(sig("==", types2(PrimitiveType::Int, PrimitiveType::Int), Some(PrimitiveType::Bool)));
        s.push(sig("!=", types2(PrimitiveType::Int, PrimitiveType::Int), Some(PrimitiveType::Bool)));
        s.push(sig("<", types2(PrimitiveType::Int, PrimitiveType::Int), Some(PrimitiveType::Bool)));
        s.push(sig("<=", types2(PrimitiveType::Int, PrimitiveType::Int), Some(PrimitiveType::Bool)));
        s.push(sig(">", types2(PrimitiveType::Int, PrimitiveType::Int), Some(PrimitiveType::Bool)));
        s.push(sig(">=", types2(PrimitiveType::Int, PrimitiveType::Int), Some(PrimitiveType::Bool)));
        s.push(sig("and", types2(PrimitiveType::Bool, PrimitiveType::Bool), Some(PrimitiveType::Bool)));
        s.push(sig("or", types2(PrimitiveType::Bool, PrimitiveType::Bool), Some(PrimitiveType::Bool)));
        s.push(sig("!", types1(PrimitiveType::Bool), Some(PrimitiveType::Bool)));
        s.push(sig("[]", types2(PrimitiveType::Arr(Box::new(PrimitiveType::Int)), PrimitiveType::Int), Some(PrimitiveType::Int)));
        s.push(sig("[]", types2(chars_type(), PrimitiveType::Int), Some(PrimitiveType::Char)));
        s.push(sig("input", Vec::new(), Some(chars_type())));
        s.push(sig("string_to_int", types1(chars_type()), Some(PrimitiveType::Int)));
        s.push(sig("char_to_int", types1(PrimitiveType::Char), Some(PrimitiveType::Int)));
        s.push(sig("int_to_char", types1(PrimitiveType::Int), Some(PrimitiveType::Char)));
        s.push(sig("string_len", types1(chars_type()), Some(PrimitiveType::Int)));
        let a = Analyzer { variables: Vec::new(), num_vars_scope: Vec::new(), call_signatures: s, errors };
        assert(a.state().vars =~= seq![]);
        assert(a.state().scopes =~= seq![]);
        assert(a.state().sigs =~= initial_signatures());
        a
    }
}

} // verus!

verus! {

impl Analyzer {
    fn report(&mut self, kind: ErrorKind, line: usize, col: usize)
        ensures
            final(self).state() == report(old(self).state(), kind@, line, col),
    {
        self.errors.add(kind, line, col);
    }

    fn add_variable(&mut self, name: String, t: PrimitiveType) -> (r: bool)
        ensures
            r == (add_variable(old(self).state(), name@, t) is Some),
            r ==> final(self).state() == add_variable(old(self).state(), name@, t).unwrap(),
    {
        let ghost st = self.state();
        let len = self.num_vars_scope.len();
        if len == 0 || self.num_vars_scope[len - 1] >= 127 {
            return false;
        }
        let n = self.num_vars_scope[len - 1];
        self.num_vars_scope.set(len - 1, n + 1);
        self.variables.push((name, t));
        assert(self.state().vars =~= st.vars.push((name@, t)));
        assert(self.state().scopes =~= st.scopes.update(st.scopes.len() - 1, st.scopes.last() + 1));
        true
    }

    fn get_type_by_name(&self, name: &String) -> (r: Option<PrimitiveType>)
        ensures
            r == var_type(self.state().vars, name@),
    {
        let ghost vars = self.state().vars;
        let mut i: usize = self.variables.len();
        assert(vars.take(i as int) =~= vars);
        while i > 0
            invariant
                0 <= i <= self.variables@.len(),
                vars == self.state().vars,
                var_type(vars, name@) == var_type(vars.take(i as int), name@),
            decreases i,
        {
            assert(vars.take(i as int).drop_last() =~= vars.take(i as int - 1));
            assert(vars[i as int - 1] == (self.variables@[i as int - 1].0@, self.variables@[i as int - 1].1));
            if crate::text::str_eq(self.variables[i - 1].0.as_str(), name.as_str()) {
                return Some(self.variables[i - 1].1.copy());
            }
            i -= 1;
        }
        None
    }

    fn start_scope(&mut self)
        ensures
            final(self).state() == start_scope(old(self).state()),
    {
        let ghost st = self.state();
        self.num_vars_scope.push(0);
        assert(self.state().scopes =~= st.scopes.push(0));
    }

    fn end_scope(&mut self) -> (r: bool)
        ensures
            r == (end_scope(old(self).state()) is Some),
            r ==> final(self).state() == end_scope(old(self).state()).unwrap(),
    {
        let ghost st = self.state();
        let n = match self.num_vars_scope.pop() {
            Some(n) => n,
            None => {
                return false;
            },
        };
        assert(n as int == st.scopes.last());
        let ghost orig = self.variables@;
        let ghost scopes = self.num_vars_scope@;
        let mut k: i8 = 0;
        while k < n
            invariant
                0 <= k,
                k <= n || n <= 0,
                n <= 0 ==> k == 0,
                self.variables@ == orig.take(if orig.len() >= k { orig.len() - k } else { 0 }),
                self.num_vars_scope@ == scopes,
                self.call_signatures@ == old(self).call_signatures@,
                self.errors == old(self).errors,
            decreases n - k,
        {
            let ghost before = self.variables@;
            self.variables.pop();
            proof {
                let m: int = if orig.len() >= k { orig.len() - k } else { 0 };
                if before.len() > 0 {
                    assert(self.variables@ =~= orig.take(m - 1));
                } else {
                    assert(self.variables@ =~= orig.take(0));
                }
            }
            k += 1;
        }
        proof {
            let e = end_scope(st).unwrap();
            assert(n > 0 ==> k == n);
            assert(n <= 0 ==> k == 0);
            assert(orig.len() == st.vars.len());
            let m: int = if orig.len() >= k { orig.len() - k } else { 0 };
            assert(e.vars == st.vars.take(m));
            assert forall|i: int| 0 <= i < m implies #[trigger] self.state().vars[i] == e.vars[i] by {
                assert(self.variables@[i] == orig[i]);
            }
            assert(self.state().vars =~= e.vars);
            assert(self.state().scopes =~= e.scopes);
        }
        true
    }

    fn find_signature(&self, name: &String, args: &Vec<PrimitiveType>) -> (r: Option<Option<PrimitiveType>>)
        ensures
            r == sig_of(self.state().sigs, name@, args@),
    {
        let ghost sigs = self.state().sigs;
        let mut i: usize = 0;
        assert(sigs.skip(0) =~= sigs);
        while i < self.call_signatures.len()
            invariant
                0 <= i <= self.call_signatures@.len(),
                sigs == self.state().sigs,
                sig_of(sigs, name@, args@) == sig_of(sigs.skip(i as int), name@, args@),
            decreases self.call_signatures.len() - i,
        {
            let entry = &self.call_signatures[i];
            assert(sigs.skip(i as int)[0] == sig_view(self.call_signatures@[i as int]));
            if crate::text::str_eq(entry.0.as_str(), name.as_str()) && same_types(&entry.1, args) {
                return Some(
                    match &entry.2 {
                        Some(t) => Some(t.copy()),
                        None => None,
                    },
                );
            }
            assert(sigs.skip(i as int).drop_first() =~= sigs.skip(i as int + 1));
            i += 1;
        }
        None
    }

    fn set_signature(&mut self, name: String, args: Vec<PrimitiveType>, ret: Option<PrimitiveType>)
        ensures
            final(self).state() == (AState {
                sigs: sig_set(old(self).state().sigs, SigV { name: name@, args: args@, ret }),
                ..old(self).state()
            }),
    {
        let ghost st = self.state();
        let ghost s = SigV { name: name@, args: args@, ret };
        let mut i: usize = 0;
        while i < self.call_signatures.len()
            invariant
                0 <= i <= self.call_signatures@.len(),
                self.call_signatures@ == old(self).call_signatures@,
                self.state() == st,
                st == old(self).state(),
                s == (SigV { name: name@, args: args@, ret }),
                forall|k: int| 0 <= k < i ==> !(st.sigs[k].name == name@ && st.sigs[k].args == args@),
            decreases self.call_signatures.len() - i,
        {
            assert(st.sigs[i as int] == sig_view(self.call_signatures@[i as int]));
            if crate::text::str_eq(self.call_signatures[i].0.as_str(), name.as_str()) && same_types(
                &self.call_signatures[i].1,
                &args,
            ) {
                proof {
                    lemma_sig_set_after(st.sigs, s, i as int);
                }
                self.call_signatures.set(i, (name, args, ret));
                assert(self.state().sigs =~= st.sigs.take(i as int) + st.sigs.skip(i as int).update(0, s));
                return;
            }
            i += 1;
        }
        proof {
            lemma_sig_set_after(st.sigs, s, i as int);
            assert(st.sigs.skip(i as int) =~= Seq::<SigV>::empty());
        }
        self.call_signatures.push((name, args, ret));
        assert(self.state().sigs =~= st.sigs.take(i as int) + seq![s]);
    }
}

proof fn lemma_sig_set_after(sigs: Seq<SigV>, s: SigV, i: int)
    requires
        0 <= i <= sigs.len(),
        forall|k: int| 0 <= k < i ==> !(sigs[k].name == s.name && sigs[k].args == s.args),
    ensures
        sig_set(sigs, s) == sigs.take(i) + sig_set(sigs.skip(i), s),
        i < sigs.len() && sigs[i].name == s.name && sigs[i].args == s.args ==> sig_set(sigs.skip(i), s)
            == sigs.skip(i).update(0, s),
        i == sigs.len() ==> sig_set(sigs.skip(i), s) == seq![s],
    decreases i,
{
    if i > 0 {
        lemma_sig_set_after(sigs.drop_first(), s, i - 1);
        assert(sigs.drop_first().skip(i - 1) =~= sigs.skip(i));
        assert(sigs.take(i) =~= seq![sigs[0]] + sigs.drop_first().take(i - 1));
    } else {
        assert(sigs.skip(0) =~= sigs);
        if i < sigs.len() && sigs[i].name == s.name && sigs[i].args == s.args {
        }
        if i == sigs.len() {
            assert(sigs.skip(i) =~= Seq::<SigV>::empty());
        }
    }
}

} // verus!

verus! {

proof fn lemma_args_prefix(st: AState, s: Seq<ExprV>, j: int)
    requires
        analyze_args(st, s) is Some,
        0 <= j <= s.len(),
    ensures
        analyze_args(st, s.take(j)) is Some,
    decreases s.len(),
{
    if j < s.len() {
        lemma_args_prefix(st, s.drop_last(), j);
        assert(s.drop_last().take(j) =~= s.take(j));
    } else {
        assert(s.take(j) =~= s);
    }
}

proof fn lemma_list_prefix(st: AState, s: Seq<ExprV>, j: int)
    requires
        analyze_list(st, s) is Some,
        0 <= j <= s.len(),
    ensures
        analyze_list(st, s.take(j)) is Some,
    decreases s.len(),
{
    if j < s.len() {
        lemma_list_prefix(st, s.drop_last(), j);
        assert(s.drop_last().take(j) =~= s.take(j));
    } else {
        assert(s.take(j) =~= s);
    }
}

proof fn lemma_block_prefix(st: AState, s: Seq<StmtV>, j: int)
    requires
        analyze_block(st, s) is Some,
        0 <= j <= s.len(),
    ensures
        analyze_block(st, s.take(j)) is Some,
    decreases s.len(),
{
    if j < s.len() {
        lemma_block_prefix(st, s.drop_last(), j);
        assert(s.drop_last().take(j) =~= s.take(j));
    } else {
        assert(s.take(j) =~= s);
    }
}

proof fn lemma_exprs_push(s: Seq<Expression>, e: Expression)
    ensures
        exprs_view(s.push(e)) == exprs_view(s).push(e@),
{
    assert(s.push(e).drop_last() =~= s);
}

proof fn lemma_stmts_push(s: Seq<Statement>, e: Statement)
    ensures
        stmts_view(s.push(e)) == stmts_view(s).push(e@),
{
    assert(s.push(e).drop_last() =~= s);
}

impl Analyzer {
    fn analyze_expression(&mut self, expr: Expression) -> (r: Option<Expression>)
        ensures
            match r {
                Some(x) => analyze_expr(old(self).state(), expr@) == Some((final(self).state(), x@)),
                None => analyze_expr(old(self).state(), expr@) is None,
            },
        decreases expr, 1nat,
    {
        let ghost e = expr@;
        proof {
            assert(decreases_to!(expr => expr.kind));
        }
        let Expression { kind, line, col, typ } = expr;
        match kind {
            ExpressionKind::Call(name, args) => {
                proof {
                    assert(decreases_to!(kind => args));
                }
                let (args1, tys) = match self.analyze_args(args) {
                    Some(r) => r,
                    None => {
                        return None;
                    },
                };
                match self.find_signature(&name, &tys) {
                    Some(r) => Some(Expression { kind: ExpressionKind::Call(name, args1), line, col, typ: r }),
                    None => {
                        self.report(ErrorKind::UndefinedProcedure, line, col);
                        Some(Expression { kind: ExpressionKind::Call(name, args1), line, col, typ })
                    },
                }
            },
            ExpressionKind::Lit(s) => Some(Expression { kind: ExpressionKind::Lit(s), line, col, typ }),
            ExpressionKind::Id(id) => match self.get_type_by_name(&id) {
                Some(t) => Some(Expression { kind: ExpressionKind::Id(id), line, col, typ: Some(t) }),
                None => {
                    self.report(ErrorKind::UndeclaredVariable { var: id.clone() }, line, col);
                    Some(Expression { kind: ExpressionKind::Id(id), line, col, typ })
                },
            },
            ExpressionKind::Array(values) => {
                proof {
                    assert(decreases_to!(kind => values));
                }
                match self.analyze_list(values) {
                    Some(values1) => Some(Expression { kind: ExpressionKind::Array(values1), line, col, typ }),
                    None => None,
                }
            },
        }
    }

    fn analyze_args(&mut self, args: Vec<Expression>) -> (r: Option<(Vec<Expression>, Vec<PrimitiveType>)>)
        ensures
            match r {
                Some((x, t)) => analyze_args(old(self).state(), exprs_view(args@)) == Some((final(self).state(), exprs_view(x@), t@)),
                None => analyze_args(old(self).state(), exprs_view(args@)) is None,
            },
        decreases args, 0nat,
    {
        let ghost orig_args = args@;
        let ghost orig = exprs_view(args@);
        let ghost st0 = self.state();
        proof {
            assert(decreases_to!(args => args@));
        }
        proof {
            crate::syntax_analysis::parser::expression::lemma_exprs_view(args@);
        }
        let mut rest = args;
        let mut done: Vec<Expression> = Vec::new();
        let mut tys: Vec<PrimitiveType> = Vec::new();
        assert(orig.take(0) =~= Seq::<ExprV>::empty());
        assert(exprs_view(done@) =~= Seq::<ExprV>::empty());
        assert(tys@ =~= Seq::<PrimitiveType>::empty());
        while rest.len() > 0
            invariant
                orig_args == args@,
                orig == exprs_view(orig_args),
                orig.len() == orig_args.len(),
                forall|j: int| 0 <= j < orig_args.len() ==> #[trigger] orig[j] == orig_args[j]@,
                done.len() + rest.len() == orig_args.len(),
                rest@ == orig_args.skip(done.len() as int),
                st0 == old(self).state(),
                analyze_args(st0, orig.take(done.len() as int)) == Some((self.state(), exprs_view(done@), tys@)),
            decreases rest.len(),
        {
            let k = done.len();
            let ghost before = self.state();
            let a = rest.remove(0);
            assert(a == orig_args[k as int]);
            proof {
                assert(orig.take(k as int + 1).drop_last() =~= orig.take(k as int));
                assert(decreases_to!(args => args@));
                assert(decreases_to!(orig_args => orig_args[k as int]));
            }
            let a1 = match self.analyze_expression(a) {
                Some(a1) => a1,
                None => {
                    proof {
                        if analyze_args(st0, orig) is Some {
                            lemma_args_prefix(st0, orig, k as int + 1);
                        }
                    }
                    return None;
                },
            };
            let ghost old_done = done@;
            let ghost old_tys = tys@;
            match &a1.kind {
                ExpressionKind::Id(id) => {
                    match self.get_type_by_name(id) {
                        Some(t) => {
                            tys.push(t);
                        },
                        None => {
                            proof {
                                if analyze_args(st0, orig) is Some {
                                    lemma_args_prefix(st0, orig, k as int + 1);
                                }
                            }
                            return None;
                        },
                    }
                },
                _ => {
                    match &a1.typ {
                        Some(t) => {
                            tys.push(t.copy());
                        },
                        None => {},
                    }
                },
            }
            done.push(a1);
            proof {
                lemma_exprs_push(old_done, done@.last());
                assert(done@ == old_done.push(done@.last()));
                assert(rest@ =~= orig_args.skip(done.len() as int));
            }
        }
        assert(orig.take(done.len() as int) =~= orig);
        Some((done, tys))
    }

    fn analyze_list(&mut self, values: Vec<Expression>) -> (r: Option<Vec<Expression>>)
        ensures
            match r {
                Some(x) => analyze_list(old(self).state(), exprs_view(values@)) == Some((final(self).state(), exprs_view(x@))),
                None => analyze_list(old(self).state(), exprs_view(values@)) is None,
            },
        decreases values, 0nat,
    {
        let ghost orig_args = values@;
        let ghost orig = exprs_view(values@);
        let ghost st0 = self.state();
        proof {
            assert(decreases_to!(values => values@));
        }
        proof {
            crate::syntax_analysis::parser::expression::lemma_exprs_view(values@);
        }
        let mut rest = values;
        let mut done: Vec<Expression> = Vec::new();
        assert(orig.take(0) =~= Seq::<ExprV>::empty());
        assert(exprs_view(done@) =~= Seq::<ExprV>::empty());
        while rest.len() > 0
            invariant
                orig_args == values@,
                orig == exprs_view(orig_args),
                orig.len() == orig_args.len(),
                forall|j: int| 0 <= j < orig_args.len() ==> #[trigger] orig[j] == orig_args[j]@,
                done.len() + rest.len() == orig_args.len(),
                rest@ == orig_args.skip(done.len() as int),
                st0 == old(self).state(),
                analyze_list(st0, orig.take(done.len() as int)) == Some((self.state(), exprs_view(done@))),
            decreases rest.len(),
        {
            let k = done.len();
            let a = rest.remove(0);
            assert(a == orig_args[k as int]);
            proof {
                assert(orig.take(k as int + 1).drop_last() =~= orig.take(k as int));
                assert(decreases_to!(values => values@));
                assert(decreases_to!(orig_args => orig_args[k as int]));
            }
            let a1 = match self.analyze_expression(a) {
                Some(a1) => a1,
                None => {
                    proof {
                        if analyze_list(st0, orig) is Some {
                            lemma_list_prefix(st0, orig, k as int + 1);
                        }
                    }
                    return None;
                },
            };
            let ghost old_done = done@;
            done.push(a1);
            proof {
                lemma_exprs_push(old_done, done@.last());
                assert(done@ == old_done.push(done@.last()));
                assert(rest@ =~= orig_args.skip(done.len() as int));
            }
        }
        assert(orig.take(done.len() as int) =~= orig);
        Some(done)
    }

    fn analyze_condition(&mut self, cond: Expression) -> (r: Option<Expression>)
        ensures
            match r {
                Some(x) => analyze_condition(old(self).state(), cond@) == Some((final(self).state(), x@)),
                None => analyze_condition(old(self).state(), cond@) is None,
            },
    {
        let c = match self.analyze_expression(cond) {
            Some(c) => c,
            None => {
                return None;
            },
        };
        match &c.typ {
            Some(t) => {
                if !t.same(&PrimitiveType::Bool) {
                    let found = t.as_string();
                    self.report(
                        ErrorKind::MismatchedTypes { expected: crate::text::string_of("bool"), found },
                        c.line,
                        c.col,
                    );
                }
            },
            None => {
                return None;
            },
        }
        Some(c)
    }
}

} // verus!

verus! {


impl Analyzer {
    fn proc_params(&mut self, args: &Vec<(String, Option<PrimitiveType>)>) -> (r: Option<Vec<PrimitiveType>>)
        ensures
            match r {
                Some(t) => proc_params(old(self).state(), args_view(args@)) == Some((final(self).state(), t@)),
                None => proc_params(old(self).state(), args_view(args@)) is None,
            },
    {
        let ghost a = args_view(args@);
        let ghost st0 = self.state();
        let mut tys: Vec<PrimitiveType> = Vec::new();
        let mut i: usize = 0;
        assert(a.take(0) =~= Seq::<(Seq<char>, Option<PrimitiveType>)>::empty());
        assert(tys@ =~= Seq::<PrimitiveType>::empty());
        while i < args.len()
            invariant
                a == args_view(args@),
                0 <= i <= args.len(),
                st0 == old(self).state(),
                proc_params(st0, a.take(i as int)) == Some((self.state(), tys@)),
            decreases args.len() - i,
        {
            proof {
                assert(a.take(i as int + 1).drop_last() =~= a.take(i as int));
            }
            match &args[i].1 {
                Some(t) => {
                    if !self.add_variable(args[i].0.clone(), t.copy()) {
                        proof {
                            if proc_params(st0, a) is Some {
                                lemma_params_prefix(st0, a, i as int + 1);
                            }
                        }
                        return None;
                    }
                    tys.push(t.copy());
                },
                None => {
                    proof {
                        if proc_params(st0, a) is Some {
                            lemma_params_prefix(st0, a, i as int + 1);
                        }
                    }
                    return None;
                },
            }
            i += 1;
        }
        assert(a.take(i as int) =~= a);
        Some(tys)
    }

    fn scoped_block(&mut self, block: Vec<Statement>) -> (r: Option<Vec<Statement>>)
        ensures
            match r {
                Some(x) => scoped_block(old(self).state(), stmts_view(block@)) == Some((final(self).state(), stmts_view(x@))),
                None => scoped_block(old(self).state(), stmts_view(block@)) is None,
            },
        decreases block, 1nat,
    {
        self.start_scope();
        let b = match self.analyze_block(block) {
            Some(b) => b,
            None => {
                return None;
            },
        };
        if !self.end_scope() {
            return None;
        }
        Some(b)
    }

    fn analyze_block(&mut self, block: Vec<Statement>) -> (r: Option<Vec<Statement>>)
        ensures
            match r {
                Some(x) => analyze_block(old(self).state(), stmts_view(block@)) == Some((final(self).state(), stmts_view(x@))),
                None => analyze_block(old(self).state(), stmts_view(block@)) is None,
            },
        decreases block, 0nat,
    {
        let ghost orig_args = block@;
        let ghost orig = stmts_view(block@);
        let ghost st0 = self.state();
        proof {
            crate::syntax_analysis::parser::statement::lemma_stmts_view(block@);
        }
        let mut rest = block;
        let mut done: Vec<Statement> = Vec::new();
        assert(orig.take(0) =~= Seq::<StmtV>::empty());
        assert(stmts_view(done@) =~= Seq::<StmtV>::empty());
        while rest.len() > 0
            invariant
                orig_args == block@,
                orig == stmts_view(orig_args),
                orig.len() == orig_args.len(),
                forall|j: int| 0 <= j < orig_args.len() ==> #[trigger] orig[j] == orig_args[j]@,
                done.len() + rest.len() == orig_args.len(),
                rest@ == orig_args.skip(done.len() as int),
                st0 == old(self).state(),
                analyze_block(st0, orig.take(done.len() as int)) == Some((self.state(), stmts_view(done@))),
            decreases rest.len(),
        {
            let k = done.len();
            let a = rest.remove(0);
            assert(a == orig_args[k as int]);
            proof {
                assert(orig.take(k as int + 1).drop_last() =~= orig.take(k as int));
                assert(decreases_to!(block => block@));
                assert(decreases_to!(orig_args => orig_args[k as int]));
            }
            let a1 = match self.analyze_statement(a) {
                Some(a1) => a1,
                None => {
                    proof {
                        if analyze_block(st0, orig) is Some {
                            lemma_block_prefix(st0, orig, k as int + 1);
                        }
                    }
                    return None;
                },
            };
            let ghost old_done = done@;
            done.push(a1);
            proof {
                lemma_stmts_push(old_done, done@.last());
                assert(done@ == old_done.push(done@.last()));
                assert(rest@ =~= orig_args.skip(done.len() as int));
            }
        }
        assert(orig.take(done.len() as int) =~= orig);
        Some(done)
    }

    fn analyze_statement(&mut self, statement: Statement) -> (r: Option<Statement>)
        ensures
            match r {
                Some(x) => analyze_stmt(old(self).state(), statement@) == Some((final(self).state(), x@)),
                None => analyze_stmt(old(self).state(), statement@) is None,
            },
        decreases statement, 2nat,
    {
        match &statement.kind {
            StatementKind::Declare { .. } => self.analyze_declare(statement),
            StatementKind::Assign { .. } => self.analyze_assign(statement),
            StatementKind::Procedure { .. } => self.analyze_procedure(statement),
            StatementKind::If { .. } | StatementKind::IfElse { .. } | StatementKind::Loop { .. }
            | StatementKind::While { .. } => self.analyze_control(statement),
            StatementKind::Call { .. } => self.analyze_call(statement),
            _ => Some(statement),
        }
    }

    fn analyze_declare(&mut self, statement: Statement) -> (r: Option<Statement>)
        requires
            statement.kind is Declare,
        ensures
            match r {
                Some(x) => analyze_stmt(old(self).state(), statement@) == Some((final(self).state(), x@)),
                None => analyze_stmt(old(self).state(), statement@) is None,
            },
        decreases statement, 1nat,
    {
        proof {
            assert(decreases_to!(statement => statement.kind));
        }
        let Statement { kind, line, col } = statement;
        match kind {
            StatementKind::Declare { name, type_hint, value } => {
                match value {
                    Some(v) => {
                        let v1 = match self.analyze_expression(v) {
                            Some(v1) => v1,
                            None => {
                                return None;
                            },
                        };
                        match &v1.typ {
                            Some(vt) => {
                                let vt = vt.copy();
                                match &type_hint {
                                    Some(h) => {
                                        if !h.same(&vt) {
                                            let expected = vt.as_string();
                                            let found = h.as_string();
                                            self.report(ErrorKind::MismatchedTypes { expected, found }, line, col);
                                        } else {
                                            if !self.add_variable(name.clone(), vt) {
                                                return None;
                                            }
                                        }
                                    },
                                    None => {
                                        if !self.add_variable(name.clone(), vt) {
                                            return None;
                                        }
                                    },
                                }
                            },
                            None => {
                                return None;
                            },
                        }
                        Some(Statement { kind: StatementKind::Declare { name, type_hint, value: Some(v1) }, line, col })
                    },
                    None => {
                        match &type_hint {
                            Some(h) => {
                                if !self.add_variable(name.clone(), h.copy()) {
                                    return None;
                                }
                            },
                            None => {
                                return None;
                            },
                        }
                        Some(Statement { kind: StatementKind::Declare { name, type_hint, value: None }, line, col })
                    },
                }
            },
            other => Some(Statement { kind: other, line, col }),
        }
    }

    fn analyze_assign(&mut self, statement: Statement) -> (r: Option<Statement>)
        requires
            statement.kind is Assign,
        ensures
            match r {
                Some(x) => analyze_stmt(old(self).state(), statement@) == Some((final(self).state(), x@)),
                None => analyze_stmt(old(self).state(), statement@) is None,
            },
        decreases statement, 1nat,
    {
        proof {
            assert(decreases_to!(statement => statement.kind));
        }
        let Statement { kind, line, col } = statement;
        match kind {
            StatementKind::Assign { dest, src } => {
                let d1 = match self.analyze_expression(dest) {
                    Some(d1) => d1,
                    None => {
                        return None;
                    },
                };
                let s1 = match self.analyze_expression(src) {
                    Some(s1) => s1,
                    None => {
                        return None;
                    },
                };
                let src_t = match &s1.typ {
                    Some(t) => t.copy(),
                    None => {
                        return None;
                    },
                };
                let Expression { kind: dkind, line: dline, col: dcol, typ: dtyp } = d1;
                let dkind1 = match dkind {
                    ExpressionKind::Id(id) => {
                        if self.get_type_by_name(&id).is_some() {
                            match &dtyp {
                                Some(dt) => {
                                    if !dt.same(&src_t) {
                                        let expected = dt.as_string();
                                        let found = src_t.as_string();
                                        self.report(ErrorKind::MismatchedTypes { expected, found }, dline, dcol);
                                    }
                                },
                                None => {
                                    return None;
                                },
                            }
                        } else {
                            self.report(ErrorKind::UndeclaredVariable { var: id.clone() }, dline, dcol);
                        }
                        ExpressionKind::Id(id)
                    },
                    ExpressionKind::Call(name, exprs) => {
                        if crate::text::str_eq(name.as_str(), "[]") {
                            let exprs1 = match self.analyze_list(exprs) {
                                Some(e) => e,
                                None => {
                                    return None;
                                },
                            };
                            ExpressionKind::Call(name, exprs1)
                        } else {
                            ExpressionKind::Call(name, exprs)
                        }
                    },
                    other => {
                        self.report(ErrorKind::InvalidIdentifier, dline, dcol);
                        other
                    },
                };
                let d2 = Expression { kind: dkind1, line: dline, col: dcol, typ: dtyp };
                Some(Statement { kind: StatementKind::Assign { dest: d2, src: s1 }, line, col })
            },
            other => Some(Statement { kind: other, line, col }),
        }
    }

    fn analyze_control(&mut self, statement: Statement) -> (r: Option<Statement>)
        requires
            statement.kind is If || statement.kind is IfElse || statement.kind is Loop || statement.kind is While,
        ensures
            match r {
                Some(x) => analyze_stmt(old(self).state(), statement@) == Some((final(self).state(), x@)),
                None => analyze_stmt(old(self).state(), statement@) is None,
            },
        decreases statement, 1nat,
    {
        proof {
            assert(decreases_to!(statement => statement.kind));
        }
        let Statement { kind, line, col } = statement;
        match kind {
            StatementKind::If { cond, block } => {
                self.start_scope();
                let c1 = match self.analyze_condition(cond) {
                    Some(c) => c,
                    None => {
                        return None;
                    },
                };
                let b1 = match self.analyze_block(block) {
                    Some(b) => b,
                    None => {
                        return None;
                    },
                };
                if !self.end_scope() {
                    return None;
                }
                Some(Statement { kind: StatementKind::If { cond: c1, block: b1 }, line, col })
            },
            StatementKind::IfElse { cond, true_block, false_block } => {
                let c1 = match self.analyze_condition(cond) {
                    Some(c) => c,
                    None => {
                        return None;
                    },
                };
                let tb = match self.scoped_block(true_block) {
                    Some(b) => b,
                    None => {
                        return None;
                    },
                };
                let fb = match self.scoped_block(false_block) {
                    Some(b) => b,
                    None => {
                        return None;
                    },
                };
                Some(Statement { kind: StatementKind::IfElse { cond: c1, true_block: tb, false_block: fb }, line, col })
            },
            StatementKind::Loop { block } => {
                let b1 = match self.scoped_block(block) {
                    Some(b) => b,
                    None => {
                        return None;
                    },
                };
                Some(Statement { kind: StatementKind::Loop { block: b1 }, line, col })
            },
            StatementKind::While { cond, block } => {
                self.start_scope();
                let c1 = match self.analyze_condition(cond) {
                    Some(c) => c,
                    None => {
                        return None;
                    },
                };
                let b1 = match self.analyze_block(block) {
                    Some(b) => b,
                    None => {
                        return None;
                    },
                };
                if !self.end_scope() {
                    return None;
                }
                Some(Statement { kind: StatementKind::While { cond: c1, block: b1 }, line, col })
            },
            other => Some(Statement { kind: other, line, col }),
        }
    }

    fn analyze_call(&mut self, statement: Statement) -> (r: Option<Statement>)
        requires
            statement.kind is Call,
        ensures
            match r {
                Some(x) => analyze_stmt(old(self).state(), statement@) == Some((final(self).state(), x@)),
                None => analyze_stmt(old(self).state(), statement@) is None,
            },
        decreases statement, 1nat,
    {
        proof {
            assert(decreases_to!(statement => statement.kind));
        }
        let Statement { kind, line, col } = statement;
        match kind {
            StatementKind::Call { name, args } => {
                let args1 = match self.analyze_list(args) {
                    Some(a) => a,
                    None => {
                        return None;
                    },
                };
                Some(Statement { kind: StatementKind::Call { name, args: args1 }, line, col })
            },
            other => Some(Statement { kind: other, line, col }),
        }
    }

    fn analyze_procedure(&mut self, statement: Statement) -> (r: Option<Statement>)
        requires
            statement.kind is Procedure,
        ensures
            match r {
                Some(x) => analyze_stmt(old(self).state(), statement@) == Some((final(self).state(), x@)),
                None => analyze_stmt(old(self).state(), statement@) is None,
            },
        decreases statement, 1nat,
    {
        proof {
            assert(decreases_to!(statement => statement.kind));
        }
        let ghost st = self.state();
        let Statement { kind, line, col } = statement;
        match kind {
            StatementKind::Procedure { name, args, ret, block } => {
                let mut saved: Vec<(String, PrimitiveType)> = Vec::new();
                std::mem::swap(&mut saved, &mut self.variables);
                assert(self.state().vars =~= Seq::<(Seq<char>, PrimitiveType)>::empty());
                assert(self.state() == (AState { vars: seq![], ..st }));
                self.start_scope();
                let tys = match self.proc_params(&args) {
                    Some(t) => t,
                    None => {
                        return None;
                    },
                };
                let b1 = match self.analyze_block(block) {
                    Some(b) => b,
                    None => {
                        return None;
                    },
                };
                let r = match &ret {
                    Some(t) => Some(t.copy()),
                    None => None,
                };
                self.set_signature(name.clone(), tys, r);
                if !self.end_scope() {
                    return None;
                }
                self.variables = saved;
                Some(Statement { kind: StatementKind::Procedure { name, args, ret, block: b1 }, line, col })
            },
            other => Some(Statement { kind: other, line, col }),
        }
    }
}

proof fn lemma_params_prefix(st: AState, s: Seq<(Seq<char>, Option<PrimitiveType>)>, j: int)
    requires
        proc_params(st, s) is Some,
        0 <= j <= s.len(),
    ensures
        proc_params(st, s.take(j)) is Some,
    decreases s.len(),
{
    if j < s.len() {
        lemma_params_prefix(st, s.drop_last(), j);
        assert(s.drop_last().take(j) =~= s.take(j));
    } else {
        assert(s.take(j) =~= s);
    }
}

/// Checks a program as `analyze` does, taking it and giving it back typed with the
/// errors found; `None` where checking it panics.
pub fn check_program(ast: Vec<Statement>, errors: Errors) -> (r: Option<(Vec<Statement>, Errors)>)
    ensures
        match r {
            Some((typed, found)) => analyze_program(stmts_view(ast@), errors.view_entries()) == Some((
                analyze_program(stmts_view(ast@), errors.view_entries()).unwrap().0,
                stmts_view(typed@),
            )) && found.view_entries() == analyze_program(stmts_view(ast@), errors.view_entries()).unwrap().0.errors,
            None => analyze_program(stmts_view(ast@), errors.view_entries()) is None,
        },
{
    let mut analyzer = Analyzer::new(errors);
    analyzer.start_scope();
    let checked = match analyzer.analyze_block(ast) {
        Some(b) => b,
        None => {
            return None;
        },
    };
    if !analyzer.end_scope() {
        return None;
    }
    let Analyzer { errors: found, .. } = analyzer;
    Some((checked, found))
}

/// Checks a program: fills in the types of names and calls and adds the errors found to
/// `errors`.
pub fn analyze(ast: &mut Vec<Statement>, errors: &mut Errors)
    requires
        analyze_program(stmts_view(old(ast)@), old(errors).view_entries()) is Some,
    ensures
        stmts_view(final(ast)@) == analyze_program(stmts_view(old(ast)@), old(errors).view_entries()).unwrap().1,
        final(errors).view_entries() == analyze_program(stmts_view(old(ast)@), old(errors).view_entries()).unwrap().0.errors,
{
    let mut taken = Errors::new();
    std::mem::swap(errors, &mut taken);
    let mut program: Vec<Statement> = Vec::new();
    std::mem::swap(ast, &mut program);
    match check_program(program, taken) {
        Some((checked, found)) => {
            *ast = checked;
            *errors = found;
        },
        None => {},
    }
}

} // verus!

verus! {

/// Two analyzer states have the same variables, scopes and signatures; only their errors
/// may differ.
pub open spec fn same_names(a: AState, b: AState) -> bool {
    a.vars == b.vars && a.scopes == b.scopes && a.sigs == b.sigs
}

/// Checking an expression declares nothing: it keeps the variables, scopes and signatures,
/// and adds at most errors.
pub proof fn lemma_expression_check_declares_nothing(st: AState, e: ExprV)
    ensures
        analyze_expr(st, e) matches Some((st1, _)) ==> same_names(st, st1),
    decreases e, 1nat,
{
    match e.kind {
        EKindV::Call(_, args) => lemma_args_declare_nothing(st, args),
        EKindV::Array(values) => lemma_list_declares_nothing(st, values),
        _ => {},
    }
}

proof fn lemma_args_declare_nothing(st: AState, s: Seq<ExprV>)
    ensures
        analyze_args(st, s) matches Some((st1, _, _)) ==> same_names(st, st1),
    decreases s, 0nat,
{
    if s.len() > 0 {
        lemma_args_declare_nothing(st, s.drop_last());
        match analyze_args(st, s.drop_last()) {
            Some((st1, _, _)) => lemma_expression_check_declares_nothing(st1, s.last()),
            None => {},
        }
    }
}

proof fn lemma_list_declares_nothing(st: AState, s: Seq<ExprV>)
    ensures
        analyze_list(st, s) matches Some((st1, _)) ==> same_names(st, st1),
    decreases s, 0nat,
{
    if s.len() > 0 {
        lemma_list_declares_nothing(st, s.drop_last());
        match analyze_list(st, s.drop_last()) {
            Some((st1, _)) => lemma_expression_check_declares_nothing(st1, s.last()),
            None => {},
        }
    }
}

/// An assignment to a name whose value checks with type `src_t`: if the name is a declared
/// variable of type `t`, a mismatch is reported at the name's position exactly when
/// `t != src_t`; if it is not declared, an undeclared variable is reported there. No
/// variable, scope or signature changes.
pub proof fn lemma_assignment_check(st: AState, s: StmtV, x: Seq<char>, st2: AState, src1: ExprV, src_t: PrimitiveType)
    requires
        s.kind is Assign,
        s.kind->Assign_dest.kind == EKindV::Id(x),
        analyze_expr(analyze_expr(st, s.kind->Assign_dest).unwrap().0, s.kind->Assign_src) == Some((st2, src1)),
        src1.typ == Some(src_t),
    ensures
        analyze_stmt(st, s) matches Some((st3, _)) && same_names(st, st3) && st3.errors == (match var_type(st.vars, x) {
            Some(t) => if t != src_t {
                insert_positioned(
                    st2.errors,
                    (
                        s.kind->Assign_dest.line as usize,
                        s.kind->Assign_dest.col as usize,
                        ErrorKindV::MismatchedTypes { expected: type_text(t), found: type_text(src_t) },
                    ),
                )
            } else {
                st2.errors
            },
            None => insert_positioned(
                st2.errors,
                (s.kind->Assign_dest.line as usize, s.kind->Assign_dest.col as usize, ErrorKindV::UndeclaredVariable { var: x }),
            ),
        }),
{
    let dest = s.kind->Assign_dest;
    let st1 = analyze_expr(st, dest).unwrap().0;
    lemma_expression_check_declares_nothing(st, dest);
    lemma_expression_check_declares_nothing(st1, s.kind->Assign_src);
}

/// A declaration with a value that checks with type `v_t`: with a hint other than `v_t`, a
/// mismatch is reported at the declaration and no variable is added; otherwise the name is
/// added with type `v_t` (the type inferred from the value when there is no hint), in the
/// innermost scope, which must exist and hold fewer than 127 variables.
pub proof fn lemma_declaration_check(st: AState, s: StmtV, st1: AState, v1: ExprV, v_t: PrimitiveType)
    requires
        s.kind matches SKindV::Declare { value: Some(v), .. } && analyze_expr(st, v) == Some((st1, v1)),
        v1.typ == Some(v_t),
    ensures
        (s.kind->Declare_type_hint matches Some(h) && h != v_t) ==> (analyze_stmt(st, s) matches Some((st2, _))
            && same_names(st, st2) && st2.errors == insert_positioned(
            st1.errors,
            (s.line as usize, s.col as usize, ErrorKindV::MismatchedTypes { expected: type_text(v_t), found: type_text(s.kind->Declare_type_hint.unwrap()) }),
        )),
        !(s.kind->Declare_type_hint matches Some(h) && h != v_t) ==> (if st.scopes.len() > 0 && st.scopes.last() < 127 {
            analyze_stmt(st, s) matches Some((st2, _)) && st2.vars == st.vars.push((s.kind->Declare_name, v_t))
                && st2.sigs == st.sigs && st2.errors == st1.errors
        } else {
            analyze_stmt(st, s) is None
        }),
{
    lemma_expression_check_declares_nothing(st, s.kind->Declare_value.unwrap());
}

/// A call's type is the return type of the signature for its name and argument types; with
/// no such signature, an undefined procedure is reported at the call's position and the call
/// keeps no type.
pub proof fn lemma_call_check(st: AState, e: ExprV, st1: AState, args1: Seq<ExprV>, tys: Seq<PrimitiveType>)
    requires
        e.kind is Call,
        analyze_args(st, e.kind->Call_1) == Some((st1, args1, tys)),
    ensures
        st1.sigs == st.sigs,
        analyze_expr(st, e) matches Some((st2, e2)) && (match sig_of(st.sigs, e.kind->Call_0, tys) {
            Some(r) => st2 == st1 && e2.typ == r,
            None => st2.errors == insert_positioned(
                st1.errors,
                (e.line as usize, e.col as usize, ErrorKindV::UndefinedProcedure),
            ) && e2.typ == e.typ,
        }),
{
    lemma_args_declare_nothing(st, e.kind->Call_1);
}

} // verus!

verus! {

/// `b` is `a` with variables added to the innermost scope: the same scopes but the count
/// of the innermost, grown by the number of variables added after `a`'s; with no scope,
/// the same variables and scopes.
pub open spec fn grows_in_scope(a: AState, b: AState) -> bool {
    &&& b.scopes.len() == a.scopes.len()
    &&& a.scopes.len() == 0 ==> b.vars == a.vars
    &&& a.scopes.len() > 0 ==> {
        &&& b.scopes.drop_last() == a.scopes.drop_last()
        &&& b.vars.len() >= a.vars.len()
        &&& b.scopes.last() - a.scopes.last() == b.vars.len() - a.vars.len()
        &&& b.vars.take(a.vars.len() as int) == a.vars
    }
}

proof fn lemma_grows_refl(a: AState)
    ensures
        grows_in_scope(a, a),
{
    assert(a.vars.take(a.vars.len() as int) =~= a.vars);
}

proof fn lemma_grows_trans(a: AState, b: AState, c: AState)
    requires
        grows_in_scope(a, b),
        grows_in_scope(b, c),
    ensures
        grows_in_scope(a, c),
{
    if a.scopes.len() > 0 {
        assert(c.vars.take(a.vars.len() as int) =~= c.vars.take(b.vars.len() as int).take(a.vars.len() as int));
    }
}

proof fn lemma_names_grow(a: AState, b: AState)
    requires
        same_names(a, b),
    ensures
        grows_in_scope(a, b),
{
    lemma_grows_refl(a);
}

/// A block whose statements leave a state grown in the innermost scope, run in a scope of
/// its own, leaves the variables and scopes it found.
proof fn lemma_closed_scope(st: AState, st2: AState)
    requires
        grows_in_scope(start_scope(st), st2),
    ensures
        end_scope(st2) matches Some(st3) && st3.vars == st.vars && st3.scopes == st.scopes,
{
    let s0 = start_scope(st);
    assert(s0.scopes.last() == 0);
    assert(st2.vars.take(st.vars.len() as int) == st.vars);
    assert(s0.scopes.drop_last() =~= st.scopes);
}

proof fn lemma_condition_declares_nothing(st: AState, c: ExprV)
    ensures
        analyze_condition(st, c) matches Some((st1, _)) ==> same_names(st, st1),
{
    lemma_expression_check_declares_nothing(st, c);
}

proof fn lemma_params_grow(st: AState, args: Seq<(Seq<char>, Option<PrimitiveType>)>)
    ensures
        proc_params(st, args) matches Some((st1, _)) ==> grows_in_scope(st, st1),
    decreases args.len(),
{
    if args.len() == 0 {
        lemma_grows_refl(st);
    } else {
        lemma_params_grow(st, args.drop_last());
        match proc_params(st, args.drop_last()) {
            Some((st1, _)) => match args.last().1 {
                Some(t) => match add_variable(st1, args.last().0, t) {
                    Some(st2) => {
                        assert(st2.vars.take(st1.vars.len() as int) =~= st1.vars);
                        assert(st2.scopes.drop_last() =~= st1.scopes.drop_last());
                        lemma_grows_trans(st, st1, st2);
                    },
                    None => {},
                },
                None => {},
            },
            None => {},
        }
    }
}

proof fn lemma_scoped_block_keeps(st: AState, b: Seq<StmtV>)
    ensures
        scoped_block(st, b) matches Some((st1, _)) ==> st1.vars == st.vars && st1.scopes == st.scopes,
    decreases b, 1nat,
{
    lemma_block_grows(start_scope(st), b);
    match analyze_block(start_scope(st), b) {
        Some((st2, _)) => lemma_closed_scope(st, st2),
        None => {},
    }
}

proof fn lemma_block_grows(st: AState, b: Seq<StmtV>)
    ensures
        analyze_block(st, b) matches Some((st1, _)) ==> grows_in_scope(st, st1),
    decreases b, 0nat,
{
    if b.len() == 0 {
        lemma_grows_refl(st);
    } else {
        lemma_block_grows(st, b.drop_last());
        match analyze_block(st, b.drop_last()) {
            Some((st1, _)) => {
                lemma_statement_grows(st1, b.last());
                match analyze_stmt(st1, b.last()) {
                    Some((st2, _)) => lemma_grows_trans(st, st1, st2),
                    None => {},
                }
            },
            None => {},
        }
    }
}

proof fn lemma_statement_grows(st: AState, s: StmtV)
    ensures
        analyze_stmt(st, s) matches Some((st1, _)) ==> grows_in_scope(st, st1),
    decreases s, 2nat,
{
    lemma_statement_keeps_names(st, s);
    match s.kind {
        SKindV::Declare { name, type_hint, value } => {
            match value {
                Some(v) => {
                    lemma_expression_check_declares_nothing(st, v);
                    match analyze_expr(st, v) {
                        Some((st1, v1)) => {
                            lemma_names_grow(st, st1);
                            match v1.typ {
                                Some(vt) => {
                                    match add_variable(st1, name, vt) {
                                        Some(st2) => {
                                            assert(st2.vars.take(st1.vars.len() as int) =~= st1.vars);
                                            assert(st2.scopes.drop_last() =~= st1.scopes.drop_last());
                                            lemma_grows_trans(st, st1, st2);
                                        },
                                        None => {},
                                    }
                                },
                                None => {},
                            }
                        },
                        None => {},
                    }
                },
                None => match type_hint {
                    Some(h) => match add_variable(st, name, h) {
                        Some(st2) => {
                            assert(st2.vars.take(st.vars.len() as int) =~= st.vars);
                            assert(st2.scopes.drop_last() =~= st.scopes.drop_last());
                        },
                        None => {},
                    },
                    None => {},
                },
            }
        },
        SKindV::Assign { dest, src } => {
            lemma_expression_check_declares_nothing(st, dest);
            match analyze_expr(st, dest) {
                Some((st1, d1)) => {
                    lemma_expression_check_declares_nothing(st1, src);
                    match analyze_expr(st1, src) {
                        Some((st2, _)) => {
                            match d1.kind {
                                EKindV::Call(_, exprs) => {
                                    lemma_list_declares_nothing(st2, exprs);
                                },
                                _ => {},
                            }
                            lemma_grows_refl(st);
                        },
                        None => {},
                    }
                },
                None => {},
            }
        },
        SKindV::Call { args, .. } => {
            lemma_list_declares_nothing(st, args);
            lemma_grows_refl(st);
        },
        _ => {
            match analyze_stmt(st, s) {
                Some((st1, _)) => {
                    assert(st1.vars == st.vars && st1.scopes == st.scopes);
                    lemma_grows_refl(st);
                },
                None => {},
            }
        },
    }
}

/// A statement with a block (`if`, `if`-`else`, `loop`, `while`, a procedure) leaves the
/// variables and scopes it found: the names declared inside are not visible after it.
pub proof fn lemma_statement_keeps_names(st: AState, s: StmtV)
    ensures
        (s.kind is If || s.kind is IfElse || s.kind is Loop || s.kind is While || s.kind is Procedure) ==> (
            analyze_stmt(st, s) matches Some((st1, _)) ==> st1.vars == st.vars && st1.scopes == st.scopes),
    decreases s, 1nat,
{
    match s.kind {
        SKindV::If { cond, block } | SKindV::While { cond, block } => {
            lemma_condition_declares_nothing(start_scope(st), cond);
            match analyze_condition(start_scope(st), cond) {
                Some((st1, _)) => {
                    lemma_block_grows(st1, block);
                    match analyze_block(st1, block) {
                        Some((st2, _)) => {
                            lemma_names_grow(start_scope(st), st1);
                            lemma_grows_trans(start_scope(st), st1, st2);
                            lemma_closed_scope(st, st2);
                        },
                        None => {},
                    }
                },
                None => {},
            }
        },
        SKindV::IfElse { cond, true_block, false_block } => {
            lemma_condition_declares_nothing(st, cond);
            match analyze_condition(st, cond) {
                Some((st1, _)) => {
                    lemma_scoped_block_keeps(st1, true_block);
                    match scoped_block(st1, true_block) {
                        Some((st2, _)) => lemma_scoped_block_keeps(st2, false_block),
                        None => {},
                    }
                },
                None => {},
            }
        },
        SKindV::Loop { block } => lemma_scoped_block_keeps(st, block),
        SKindV::Procedure { name, args, ret, block } => {
            let st0 = start_scope(AState { vars: seq![], ..st });
            lemma_params_grow(st0, args);
            match proc_params(st0, args) {
                Some((st1, tys)) => {
                    lemma_block_grows(st1, block);
                    match analyze_block(st1, block) {
                        Some((st2, _)) => {
                            lemma_grows_trans(st0, st1, st2);
                            let st3 = AState { sigs: sig_set(st2.sigs, SigV { name, args: tys, ret }), ..st2 };
                            assert(grows_in_scope(st0, st3));
                            lemma_closed_scope(AState { vars: seq![], ..st }, st3);
                        },
                        None => {},
                    }
                },
                None => {},
            }
        },
        _ => {},
    }
}

/// After setting a signature, looking up its name and argument types gives its result
/// type.
pub proof fn lemma_signature_set_then_found(sigs: Seq<SigV>, g: SigV)
    ensures
        sig_of(sig_set(sigs, g), g.name, g.args) == Some(g.ret),
    decreases sigs.len(),
{
    if sigs.len() > 0 && !(sigs[0].name == g.name && sigs[0].args == g.args) {
        lemma_signature_set_then_found(sigs.drop_first(), g);
        assert((seq![sigs[0]] + sig_set(sigs.drop_first(), g)).drop_first() =~= sig_set(sigs.drop_first(), g));
    }
}

/// After a procedure is checked, its name with the types of its parameters looks up its
/// return type.
pub proof fn lemma_procedure_signature(st: AState, s: StmtV)
    requires
        s.kind is Procedure,
    ensures
        analyze_stmt(st, s) matches Some((st1, _)) ==> sig_of(
            st1.sigs,
            s.kind->Procedure_name,
            proc_params(start_scope(AState { vars: seq![], ..st }), s.kind->Procedure_args).unwrap().1,
        ) == Some(s.kind->Procedure_ret),
{
    match s.kind {
        SKindV::Procedure { name, args, ret, block } => {
            match proc_params(start_scope(AState { vars: seq![], ..st }), args) {
                Some((st1, tys)) => match analyze_block(st1, block) {
                    Some((st2, _)) => lemma_signature_set_then_found(st2.sigs, SigV { name, args: tys, ret }),
                    None => {},
                },
                None => {},
            }
        },
        _ => {},
    }
}

} // verus!

verus! {

/// Before any procedure is declared, the checker types each comparison of two integers as a
/// boolean, each arithmetic operation on two integers as an integer, `and` and `or` of two
/// booleans as a boolean, `!` of a boolean as a boolean and `-` of an integer as an integer.
pub proof fn lemma_operator_types(op: Op)
    ensures
        is_comparison(op) ==> sig_of(initial_signatures(), op_text(op), seq![PrimitiveType::Int, PrimitiveType::Int])
            == Some(Some(PrimitiveType::Bool)),
        is_arithmetic(op) ==> sig_of(initial_signatures(), op_text(op), seq![PrimitiveType::Int, PrimitiveType::Int])
            == Some(Some(PrimitiveType::Int)),
        (op == Op::And || op == Op::Or) ==> sig_of(initial_signatures(), op_text(op), seq![PrimitiveType::Bool, PrimitiveType::Bool])
            == Some(Some(PrimitiveType::Bool)),
        sig_of(initial_signatures(), "!"@, seq![PrimitiveType::Bool]) == Some(Some(PrimitiveType::Bool)),
        sig_of(initial_signatures(), "-"@, seq![PrimitiveType::Int]) == Some(Some(PrimitiveType::Int)),
{
    reveal_strlit("+");
    reveal_strlit("-");
    reveal_strlit("*");
    reveal_strlit("/");
    reveal_strlit("%");
    reveal_strlit("==");
    reveal_strlit("!=");
    reveal_strlit("<");
    reveal_strlit("<=");
    reveal_strlit(">");
    reveal_strlit(">=");
    reveal_strlit("and");
    reveal_strlit("or");
    reveal_strlit("!");
    assert("+"@.len() == 1 && "+"@[0] == '+');
    assert("-"@.len() == 1 && "-"@[0] == '-');
    assert("*"@.len() == 1 && "*"@[0] == '*');
    assert("/"@.len() == 1 && "/"@[0] == '/');
    assert("%"@.len() == 1 && "%"@[0] == '%');
    assert("=="@.len() == 2 && "=="@[0] == '=' && "=="@[1] == '=');
    assert("!="@.len() == 2 && "!="@[0] == '!' && "!="@[1] == '=');
    assert("<"@.len() == 1 && "<"@[0] == '<');
    assert("<="@.len() == 2 && "<="@[0] == '<' && "<="@[1] == '=');
    assert(">"@.len() == 1 && ">"@[0] == '>');
    assert(">="@.len() == 2 && ">="@[0] == '>' && ">="@[1] == '=');
    assert("and"@.len() == 3 && "and"@[0] == 'a' && "and"@[1] == 'n' && "and"@[2] == 'd');
    assert("or"@.len() == 2 && "or"@[0] == 'o' && "or"@[1] == 'r');
    assert("!"@.len() == 1 && "!"@[0] == '!');
    let s = initial_signatures();
    let ii = seq![PrimitiveType::Int, PrimitiveType::Int];
    let bb = seq![PrimitiveType::Bool, PrimitiveType::Bool];
    assert(ii[0] != bb[0]);
    assert(ii.len() != seq![PrimitiveType::Int].len());
    reveal_with_fuel(sig_of, 16);
}

/// Before any procedure is declared, indexing an array of integers or of characters with
/// an integer gives an element of the array's type.
pub proof fn lemma_index_types(elem: PrimitiveType)
    requires
        elem == PrimitiveType::Int || elem == PrimitiveType::Char,
    ensures
        sig_of(initial_signatures(), "[]"@, seq![PrimitiveType::Arr(Box::new(elem)), PrimitiveType::Int]) == Some(Some(elem)),
{
    reveal_strlit("+");
    reveal_strlit("-");
    reveal_strlit("*");
    reveal_strlit("/");
    reveal_strlit("%");
    reveal_strlit("==");
    reveal_strlit("!=");
    reveal_strlit("<");
    reveal_strlit("<=");
    reveal_strlit(">");
    reveal_strlit(">=");
    reveal_strlit("and");
    reveal_strlit("or");
    reveal_strlit("!");
    reveal_strlit("[]");
    assert("+"@.len() == 1);
    assert("-"@.len() == 1);
    assert("*"@.len() == 1);
    assert("/"@.len() == 1);
    assert("%"@.len() == 1);
    assert("=="@.len() == 2 && "=="@[0] == '=');
    assert("!="@.len() == 2 && "!="@[0] == '!');
    assert("<"@.len() == 1);
    assert("<="@.len() == 2 && "<="@[0] == '<');
    assert(">"@.len() == 1);
    assert(">="@.len() == 2 && ">="@[0] == '>');
    assert("and"@.len() == 3);
    assert("or"@.len() == 2 && "or"@[0] == 'o');
    assert("!"@.len() == 1);
    assert("[]"@.len() == 2 && "[]"@[0] == '[');
    let ints = seq![PrimitiveType::Arr(Box::new(PrimitiveType::Int)), PrimitiveType::Int];
    let chars = seq![PrimitiveType::Arr(Box::new(PrimitiveType::Char)), PrimitiveType::Int];
    assert(ints[0] != chars[0]);
    reveal_with_fuel(sig_of, 18);
}

} // verus!
