//! Type checking of the indentation-based language: `int` and `bool` values, variables
//! declared before use, operands and conditions of the right types.
use vstd::prelude::*;
use crate::positioned::{PositionedList, insert_positioned};
use crate::symbols::{SymbolTable, assign, lookup};
use crate::text::{str_eq, string_of, decimal, push_decimal};
use crate::yora_compiler::parser::{Expression, ExpressionKind, ExprV, KindV, exprs_view, kind_view, lemma_exprs_view};

verus! {

/// What is wrong at a position of the program.
#[derive(Debug, PartialEq)]
pub enum ErrorKind {
    UndeclaredVariable { var: String },
    CannotMakeOperation { type1: String, type2: String },
    NotACondition,
    InvalidAssignment { type1: String, type2: String },
    InvalidComparison { type1: String, type2: String },
    InvalidExitCode,
    InvalidIdentifier,
}

/// The value of an error kind.
pub enum ErrorKindV {
    UndeclaredVariable { var: Seq<char> },
    CannotMakeOperation { type1: Seq<char>, type2: Seq<char> },
    NotACondition,
    InvalidAssignment { type1: Seq<char>, type2: Seq<char> },
    InvalidComparison { type1: Seq<char>, type2: Seq<char> },
    InvalidExitCode,
    InvalidIdentifier,
}

impl View for ErrorKind {
    type V = ErrorKindV;

    open spec fn view(&self) -> ErrorKindV {
        match self {
            ErrorKind::UndeclaredVariable { var } => ErrorKindV::UndeclaredVariable { var: var@ },
            ErrorKind::CannotMakeOperation { type1, type2 } => ErrorKindV::CannotMakeOperation { type1: type1@, type2: type2@ },
            ErrorKind::NotACondition => ErrorKindV::NotACondition,
            ErrorKind::InvalidAssignment { type1, type2 } => ErrorKindV::InvalidAssignment { type1: type1@, type2: type2@ },
            ErrorKind::InvalidComparison { type1, type2 } => ErrorKindV::InvalidComparison { type1: type1@, type2: type2@ },
            ErrorKind::InvalidExitCode => ErrorKindV::InvalidExitCode,
            ErrorKind::InvalidIdentifier => ErrorKindV::InvalidIdentifier,
        }
    }
}

/// An error with the line and column it is reported at.
#[derive(Debug, PartialEq)]
pub struct Error {
    pub kind: ErrorKind,
    pub line: usize,
    pub col: usize,
}

/// The state of the analyzer: the errors so far, in order of position, and the type of
/// each declared variable.
pub struct CheckState {
    pub errors: Seq<(usize, usize, ErrorKindV)>,
    pub symbols: Seq<(Seq<char>, Seq<char>)>,
}

/// The state before any expression is checked: no errors, no variables.
pub open spec fn initial_state() -> CheckState {
    CheckState { errors: Seq::empty(), symbols: Seq::empty() }
}

/// The state with one more error.
pub open spec fn report(st: CheckState, kind: ErrorKindV, line: int, col: int) -> CheckState {
    CheckState { errors: insert_positioned(st.errors, (line as usize, col as usize, kind)), ..st }
}

/// The type of an expression (`int`, `bool`, or `null` for an undeclared variable, which
/// is reported), with the state after it; `None` for an expression that has no type.
pub open spec fn type_of(st: CheckState, e: ExprV) -> Option<(Seq<char>, CheckState)>
    decreases e,
{
    match e.kind {
        KindV::Identifier(id) => match lookup(st.symbols, id) {
            Some(t) => Some((t, st)),
            None => Some(("null"@, report(st, ErrorKindV::UndeclaredVariable { var: id }, e.line, e.col))),
        },
        KindV::IntLit(_) => Some(("int"@, st)),
        KindV::BoolLit(_) | KindV::Eq(..) | KindV::Neq(..) | KindV::Lt(..) | KindV::Leq(..)
        | KindV::Gt(..) | KindV::Geq(..) => Some(("bool"@, st)),
        KindV::Add(d, _) | KindV::Sub(d, _) | KindV::Mul(d, _) | KindV::Div(d, _) | KindV::Mod(d, _) => type_of(st, *d),
        _ => None,
    }
}

/// The state after checking an expression; `None` where some expression that needs a
/// type has none.
pub open spec fn check(st: CheckState, e: ExprV) -> Option<CheckState>
    decreases e, 1nat,
{
    match e.kind {
        KindV::Declare(dest, src) => match check(st, *src) {
            None => None,
            Some(st1) => match dest.kind {
                KindV::Identifier(id) => match type_of(st1, *src) {
                    None => None,
                    Some((t, st2)) => Some(CheckState { symbols: assign(st2.symbols, id, t), ..st2 }),
                },
                _ => Some(report(st1, ErrorKindV::InvalidIdentifier, dest.line, dest.col)),
            },
        },
        KindV::Assign(dest, src) => match check(st, *src) {
            None => None,
            Some(st1) => match type_of(st1, *src) {
                None => None,
                Some((t1, st2)) => match type_of(st2, *dest) {
                    None => None,
                    Some((t2, st3)) => if t1 != t2 {
                        Some(report(st3, ErrorKindV::InvalidAssignment { type1: t1, type2: t2 }, src.line, dest.col))
                    } else {
                        Some(st3)
                    },
                },
            },
        },
        KindV::Add(dest, src) | KindV::Sub(dest, src) | KindV::Mul(dest, src) | KindV::Div(dest, src)
        | KindV::Mod(dest, src) => match check(st, *src) {
            None => None,
            Some(st1) => match check(st1, *dest) {
                None => None,
                Some(st2) => match type_of(st2, *src) {
                    None => None,
                    Some((t1, st3)) => match type_of(st3, *dest) {
                        None => None,
                        Some((t2, st4)) => if t1 != "int"@ || t2 != "int"@ {
                            Some(report(st4, ErrorKindV::CannotMakeOperation { type1: t1, type2: t2 }, e.line, e.col))
                        } else {
                            Some(st4)
                        },
                    },
                },
            },
        },
        KindV::Sequence(s) => check_all(st, s),
        KindV::If(cond, body) => match check(st, *cond) {
            None => None,
            Some(st1) => match check(st1, *body) {
                None => None,
                Some(st2) => match type_of(st2, *cond) {
                    None => None,
                    Some((t, st3)) => if t != "bool"@ {
                        Some(report(st3, ErrorKindV::NotACondition, cond.line, cond.col))
                    } else {
                        Some(st3)
                    },
                },
            },
        },
        KindV::Eq(a, b) | KindV::Neq(a, b) | KindV::Lt(a, b) | KindV::Leq(a, b) | KindV::Gt(a, b)
        | KindV::Geq(a, b) => match check(st, *a) {
            None => None,
            Some(st1) => match check(st1, *b) {
                None => None,
                Some(st2) => match type_of(st2, *a) {
                    None => None,
                    Some((t1, st3)) => match type_of(st3, *b) {
                        None => None,
                        Some((t2, st4)) => if t1 != t2 {
                            Some(report(st4, ErrorKindV::InvalidComparison { type1: t1, type2: t2 }, a.line, a.col))
                        } else {
                            Some(st4)
                        },
                    },
                },
            },
        },
        KindV::Loop(body) => check(st, *body),
        KindV::Exit(v) => match check(st, *v) {
            None => None,
            Some(st1) => match type_of(st1, *v) {
                None => None,
                Some((t, st2)) => if t != "int"@ {
                    Some(report(st2, ErrorKindV::InvalidExitCode, v.line, v.col))
                } else {
                    Some(st2)
                },
            },
        },
        _ => Some(st),
    }
}

/// The state after checking a sequence of expressions in order.
pub open spec fn check_all(st: CheckState, s: Seq<ExprV>) -> Option<CheckState>
    decreases s, 0nat,
{
    if s.len() == 0 {
        Some(st)
    } else {
        match check_all(st, s.drop_last()) {
            None => None,
            Some(st1) => check(st1, s.last()),
        }
    }
}

} // verus!

verus! {

/// The values of error entries.
pub open spec fn entries_view(s: Seq<(usize, usize, ErrorKind)>) -> Seq<(usize, usize, ErrorKindV)> {
    s.map_values(|e: (usize, usize, ErrorKind)| (e.0, e.1, e.2@))
}

proof fn lemma_insert_view(s: Seq<(usize, usize, ErrorKind)>, e: (usize, usize, ErrorKind))
    ensures
        entries_view(insert_positioned(s, e)) == insert_positioned(entries_view(s), (e.0, e.1, e.2@)),
    decreases s.len(),
{
    let ev = (e.0, e.1, e.2@);
    if s.len() == 0 {
        assert(entries_view(seq![e]) =~= seq![ev]);
    } else if s[0].0 == e.0 && s[0].1 == e.1 {
    } else if crate::positioned::before((e.0, e.1), (s[0].0, s[0].1)) {
        assert(entries_view(seq![e] + s) =~= seq![ev] + entries_view(s));
    } else {
        lemma_insert_view(s.drop_first(), e);
        assert(entries_view(s).drop_first() =~= entries_view(s.drop_first()));
        assert(entries_view(seq![s[0]] + insert_positioned(s.drop_first(), e)) =~= seq![entries_view(s)[0]]
            + entries_view(insert_positioned(s.drop_first(), e)));
    }
}

/// The values of a list of errors.
pub open spec fn errors_view(v: Seq<Error>) -> Seq<(usize, usize, ErrorKindV)> {
    v.map_values(|e: Error| (e.line, e.col, e.kind@))
}

/// The analyzer over a program.
pub struct Analyzer {
    errors: PositionedList<ErrorKind>,
    symbol_table: SymbolTable,
}

impl Analyzer {
    /// The state of the analyzer.
    pub closed spec fn state(&self) -> CheckState {
        CheckState { errors: entries_view(self.errors.entries()), symbols: self.symbol_table@ }
    }

    fn new() -> (a: Analyzer)
        ensures
            a.state().errors == Seq::<(usize, usize, ErrorKindV)>::empty(),
            a.state().symbols == Seq::<(Seq<char>, Seq<char>)>::empty(),
    {
        let a = Analyzer { errors: PositionedList::new(), symbol_table: SymbolTable::new() };
        assert(entries_view(a.errors.entries()) =~= Seq::<(usize, usize, ErrorKindV)>::empty());
        a
    }

    fn add_error(&mut self, kind: ErrorKind, line: usize, col: usize)
        ensures
            final(self).state() == report(old(self).state(), kind@, line as int, col as int),
    {
        proof {
            lemma_insert_view(self.errors.entries(), (line, col, kind));
        }
        self.errors.insert(line, col, kind);
    }

    fn get_type(&mut self, expr: &Expression) -> (r: Option<String>)
        ensures
            match type_of(old(self).state(), expr@) {
                Some((t, st)) => r is Some && r.unwrap()@ == t && final(self).state() == st,
                None => r is None,
            },
        decreases expr,
    {
        match &expr.kind {
            ExpressionKind::Identifier(id) => match self.symbol_table.get(id.as_str()) {
                Some(t) => Some(t),
                None => {
                    self.add_error(ErrorKind::UndeclaredVariable { var: id.clone() }, expr.line, expr.col);
                    Some(string_of("null"))
                },
            },
            ExpressionKind::IntLit(..) => Some(string_of("int")),
            ExpressionKind::BoolLit(..) | ExpressionKind::Eq(..) | ExpressionKind::Neq(..)
            | ExpressionKind::Lt(..) | ExpressionKind::Leq(..) | ExpressionKind::Gt(..)
            | ExpressionKind::Geq(..) => Some(string_of("bool")),
            ExpressionKind::Add(dest, _) | ExpressionKind::Sub(dest, _) | ExpressionKind::Mul(dest, _)
            | ExpressionKind::Div(dest, _) | ExpressionKind::Mod(dest, _) => self.get_type(dest),
            _ => None,
        }
    }

    fn analyze_expression(&mut self, expr: &Expression) -> (ok: bool)
        ensures
            match check(old(self).state(), expr@) {
                Some(st) => ok && final(self).state() == st,
                None => !ok,
            },
        decreases expr, 1nat,
    {
        match &expr.kind {
            ExpressionKind::Declare(..) => self.analyze_declare(expr),
            ExpressionKind::Assign(..) => self.analyze_assign(expr),
            ExpressionKind::Add(..) | ExpressionKind::Sub(..) | ExpressionKind::Mul(..)
            | ExpressionKind::Div(..) | ExpressionKind::Mod(..) => self.analyze_arithmetic(expr),
            ExpressionKind::Sequence(..) => self.analyze_sequence(expr),
            ExpressionKind::If(..) => self.analyze_if(expr),
            ExpressionKind::Eq(..) | ExpressionKind::Neq(..) | ExpressionKind::Lt(..)
            | ExpressionKind::Leq(..) | ExpressionKind::Gt(..) | ExpressionKind::Geq(..) => self.analyze_comparison(expr),
            ExpressionKind::Loop(body) => self.analyze_expression(body),
            ExpressionKind::Exit(..) => self.analyze_exit(expr),
            _ => true,
        }
    }

    fn analyze_declare(&mut self, expr: &Expression) -> (ok: bool)
        requires
            expr.kind is Declare,
        ensures
            match check(old(self).state(), expr@) {
                Some(st) => ok && final(self).state() == st,
                None => !ok,
            },
        decreases expr, 0nat,
    {
        match &expr.kind {
            ExpressionKind::Declare(dest, src) => {
                if !self.analyze_expression(src) {
                    return false;
                }
                assert(expr@.kind == KindV::Declare(Box::new(dest@), Box::new(src@)));
                assert(dest@.kind == kind_view(dest.kind));
                match &dest.kind {
                    ExpressionKind::Identifier(id) => match self.get_type(src) {
                        None => false,
                        Some(t) => {
                            self.symbol_table.set(id.clone(), t);
                            true
                        },
                    },
                    _ => {
                        self.add_error(ErrorKind::InvalidIdentifier, dest.line, dest.col);
                        true
                    },
                }
            },
            _ => false,
        }
    }

    fn analyze_assign(&mut self, expr: &Expression) -> (ok: bool)
        requires
            expr.kind is Assign,
        ensures
            match check(old(self).state(), expr@) {
                Some(st) => ok && final(self).state() == st,
                None => !ok,
            },
        decreases expr, 0nat,
    {
        match &expr.kind {
            ExpressionKind::Assign(dest, src) => {
                if !self.analyze_expression(src) {
                    return false;
                }
                let type1 = match self.get_type(src) {
                    None => {
                        return false;
                    },
                    Some(t) => t,
                };
                let type2 = match self.get_type(dest) {
                    None => {
                        return false;
                    },
                    Some(t) => t,
                };
                if !str_eq(type1.as_str(), type2.as_str()) {
                    self.add_error(ErrorKind::InvalidAssignment { type1, type2 }, src.line, dest.col);
                }
                true
            },
            _ => false,
        }
    }

    fn analyze_arithmetic(&mut self, expr: &Expression) -> (ok: bool)
        requires
            expr.kind is Add || expr.kind is Sub || expr.kind is Mul || expr.kind is Div || expr.kind is Mod,
        ensures
            match check(old(self).state(), expr@) {
                Some(st) => ok && final(self).state() == st,
                None => !ok,
            },
        decreases expr, 0nat,
    {
        match &expr.kind {
            ExpressionKind::Add(dest, src) | ExpressionKind::Sub(dest, src) | ExpressionKind::Mul(dest, src)
            | ExpressionKind::Div(dest, src) | ExpressionKind::Mod(dest, src) => {
                if !self.analyze_expression(src) {
                    return false;
                }
                if !self.analyze_expression(dest) {
                    return false;
                }
                let type1 = match self.get_type(src) {
                    None => {
                        return false;
                    },
                    Some(t) => t,
                };
                let type2 = match self.get_type(dest) {
                    None => {
                        return false;
                    },
                    Some(t) => t,
                };
                if !str_eq(type1.as_str(), "int") || !str_eq(type2.as_str(), "int") {
                    self.add_error(ErrorKind::CannotMakeOperation { type1, type2 }, expr.line, expr.col);
                }
                true
            },
            _ => false,
        }
    }

    fn analyze_sequence(&mut self, expr: &Expression) -> (ok: bool)
        requires
            expr.kind is Sequence,
        ensures
            match check(old(self).state(), expr@) {
                Some(st) => ok && final(self).state() == st,
                None => !ok,
            },
        decreases expr, 0nat,
    {
        match &expr.kind {
            ExpressionKind::Sequence(seq) => {
                let ghost sv = exprs_view(seq@);
                let ghost st0 = self.state();
                let mut k: usize = 0;
                proof {
                    lemma_exprs_view(seq@);
                }
                while k < seq.len()
                    invariant
                        expr.kind is Sequence,
                        expr.kind->Sequence_0 == *seq,
                        sv == exprs_view(seq@),
                        sv.len() == seq@.len(),
                        forall|j: int| 0 <= j < seq@.len() ==> #[trigger] sv[j] == seq@[j]@,
                        0 <= k <= seq.len(),
                        check_all(st0, sv.take(k as int)) == Some(self.state()),
                        st0 == old(self).state(),
                    decreases seq.len() - k,
                {
                    proof {
                        assert(sv.take(k as int + 1).drop_last() =~= sv.take(k as int));
                        assert(decreases_to!(*expr => expr.kind));
                        assert(decreases_to!(expr.kind => expr.kind->Sequence_0));
                        assert(decreases_to!(*seq => seq@));
                        assert(decreases_to!(seq@ => seq@[k as int]));
                    }
                    if !self.analyze_expression(&seq[k]) {
                        proof {
                            lemma_check_all_none(st0, sv, k as int + 1);
                            assert(sv =~= sv.take(sv.len() as int));
                        }
                        return false;
                    }
                    k += 1;
                }
                assert(sv.take(k as int) =~= sv);
                true
            },
            _ => false,
        }
    }

    fn analyze_if(&mut self, expr: &Expression) -> (ok: bool)
        requires
            expr.kind is If,
        ensures
            match check(old(self).state(), expr@) {
                Some(st) => ok && final(self).state() == st,
                None => !ok,
            },
        decreases expr, 0nat,
    {
        match &expr.kind {
            ExpressionKind::If(cond, body) => {
                if !self.analyze_expression(cond) {
                    return false;
                }
                if !self.analyze_expression(body) {
                    return false;
                }
                match self.get_type(cond) {
                    None => false,
                    Some(t) => {
                        if !str_eq(t.as_str(), "bool") {
                            self.add_error(ErrorKind::NotACondition, cond.line, cond.col);
                        }
                        true
                    },
                }
            },
            _ => false,
        }
    }

    fn analyze_comparison(&mut self, expr: &Expression) -> (ok: bool)
        requires
            expr.kind is Eq || expr.kind is Neq || expr.kind is Lt || expr.kind is Leq || expr.kind is Gt || expr.kind is Geq,
        ensures
            match check(old(self).state(), expr@) {
                Some(st) => ok && final(self).state() == st,
                None => !ok,
            },
        decreases expr, 0nat,
    {
        match &expr.kind {
            ExpressionKind::Eq(a, b) | ExpressionKind::Neq(a, b) | ExpressionKind::Lt(a, b)
            | ExpressionKind::Leq(a, b) | ExpressionKind::Gt(a, b) | ExpressionKind::Geq(a, b) => {
                if !self.analyze_expression(a) {
                    return false;
                }
                if !self.analyze_expression(b) {
                    return false;
                }
                let type1 = match self.get_type(a) {
                    None => {
                        return false;
                    },
                    Some(t) => t,
                };
                let type2 = match self.get_type(b) {
                    None => {
                        return false;
                    },
                    Some(t) => t,
                };
                if !str_eq(type1.as_str(), type2.as_str()) {
                    self.add_error(ErrorKind::InvalidComparison { type1, type2 }, a.line, a.col);
                }
                true
            },
            _ => false,
        }
    }

    fn analyze_exit(&mut self, expr: &Expression) -> (ok: bool)
        requires
            expr.kind is Exit,
        ensures
            match check(old(self).state(), expr@) {
                Some(st) => ok && final(self).state() == st,
                None => !ok,
            },
        decreases expr, 0nat,
    {
        match &expr.kind {
            ExpressionKind::Exit(v) => {
                if !self.analyze_expression(v) {
                    return false;
                }
                match self.get_type(v) {
                    None => false,
                    Some(t) => {
                        if !str_eq(t.as_str(), "int") {
                            self.add_error(ErrorKind::InvalidExitCode, v.line, v.col);
                        }
                        true
                    },
                }
            },
            _ => false,
        }
    }
}

proof fn lemma_check_all_none(st: CheckState, s: Seq<ExprV>, k: int)
    requires
        0 <= k <= s.len(),
        check_all(st, s.take(k)) is None,
    ensures
        check_all(st, s) is None,
    decreases s.len() - k,
{
    if k < s.len() {
        assert(s.take(k + 1).drop_last() =~= s.take(k));
        lemma_check_all_none(st, s, k + 1);
    } else {
        assert(s.take(k) =~= s);
    }
}

/// Why a program cannot be checked at all.
#[derive(Debug, PartialEq)]
pub enum AnalysisError {
    /// An expression whose type is asked for has none (such as a negation on the right
    /// of a declaration).
    UntypedExpression,
}

/// The errors of a program in order of position, at most one per position, as checking
/// its expressions in order finds them.
pub fn analyze(ast: &Vec<Expression>) -> (r: Result<Vec<Error>, AnalysisError>)
    ensures
        match check_all(initial_state(), exprs_view(ast@)) {
            Some(st) => r is Ok && errors_view(r.unwrap()@) == st.errors,
            None => r is Err,
        },
{
    let mut analyzer = Analyzer::new();
    let ghost st0 = analyzer.state();
    let ghost init = initial_state();
    assert(st0.errors =~= init.errors);
    assert(st0.symbols =~= init.symbols);
    assert(st0 == init);
    let ghost sv = exprs_view(ast@);
    proof {
        lemma_exprs_view(ast@);
    }
    let mut k: usize = 0;
    while k < ast.len()
        invariant
            sv == exprs_view(ast@),
            sv.len() == ast@.len(),
            forall|j: int| 0 <= j < ast@.len() ==> #[trigger] sv[j] == ast@[j]@,
            0 <= k <= ast.len(),
            check_all(st0, sv.take(k as int)) == Some(analyzer.state()),
            st0 == initial_state(),
        decreases ast.len() - k,
    {
        proof {
            assert(sv.take(k as int + 1).drop_last() =~= sv.take(k as int));
        }
        assert(sv.take(k as int + 1).last() == ast@[k as int]@);
        if !analyzer.analyze_expression(&ast[k]) {
            proof {
                assert(check_all(st0, sv.take(k as int + 1)) is None);
                lemma_check_all_none(st0, sv, k as int + 1);
            }
            return Err(AnalysisError::UntypedExpression);
        }
        k += 1;
    }
    assert(sv.take(k as int) =~= sv);
    let errors = analyzer.into_errors();
    Ok(errors)
}

impl Analyzer {
    fn into_errors(self) -> (r: Vec<Error>)
        ensures
            errors_view(r@) == self.state().errors,
    {
        let Analyzer { errors, symbol_table: _ } = self;
        let ghost es = errors.entries();
        let mut out: Vec<Error> = Vec::new();
        let n = errors.len();
        let mut i: usize = 0;
        while i < n
            invariant
                n == errors.entries().len(),
                es == errors.entries(),
                0 <= i <= n,
                errors_view(out@) == entries_view(es.take(i as int)),
            decreases n - i,
        {
            let entry = errors.get(i);
            let kind = copy_kind(&entry.2);
            let ghost o0 = out@;
            out.push(Error { kind, line: entry.0, col: entry.1 });
            proof {
                assert(errors_view(out@) =~= errors_view(o0).push((entry.0, entry.1, kind@)));
                assert(es.take(i as int + 1) =~= es.take(i as int).push(es[i as int]));
                assert(entries_view(es.take(i as int + 1)) =~= entries_view(es.take(i as int)).push((entry.0, entry.1, entry.2@)));
            }
            i += 1;
        }
        assert(es.take(n as int) =~= es);
        out
    }
}

fn copy_kind(k: &ErrorKind) -> (r: ErrorKind)
    ensures
        r@ == k@,
{
    match k {
        ErrorKind::UndeclaredVariable { var } => ErrorKind::UndeclaredVariable { var: var.clone() },
        ErrorKind::CannotMakeOperation { type1, type2 } => ErrorKind::CannotMakeOperation { type1: type1.clone(), type2: type2.clone() },
        ErrorKind::NotACondition => ErrorKind::NotACondition,
        ErrorKind::InvalidAssignment { type1, type2 } => ErrorKind::InvalidAssignment { type1: type1.clone(), type2: type2.clone() },
        ErrorKind::InvalidComparison { type1, type2 } => ErrorKind::InvalidComparison { type1: type1.clone(), type2: type2.clone() },
        ErrorKind::InvalidExitCode => ErrorKind::InvalidExitCode,
        ErrorKind::InvalidIdentifier => ErrorKind::InvalidIdentifier,
    }
}

} // verus!

verus! {

/// The line that reports an error, ending in its position.
pub open spec fn error_text(kind: ErrorKindV, line: usize, col: usize) -> Seq<char> {
    let at = " [line "@ + decimal(line as nat) + ": col "@ + decimal(col as nat) + "]"@;
    match kind {
        ErrorKindV::UndeclaredVariable { var } => "Variable with name "@ + var + " undeclared"@ + at,
        ErrorKindV::CannotMakeOperation { type1, type2 } => "Can't make an operation between ints, types "@ + type1
            + " and "@ + type2 + " were given"@ + at,
        ErrorKindV::NotACondition => "Invalid condition for if statement"@ + at,
        ErrorKindV::InvalidComparison { type1, type2 } => "Can't compare type "@ + type1 + " with type "@ + type2
            + at,
        ErrorKindV::InvalidExitCode => "Exit codes can only be ints"@ + at,
        ErrorKindV::InvalidAssignment { type1, type2 } => "Can't assign variable with type "@ + type1
            + " to expression with type "@ + type2 + at,
        ErrorKindV::InvalidIdentifier => "Destination is not a valid identifier"@ + at,
    }
}

/// The line that reports an error.
pub fn error_message(error: &Error) -> (r: String)
    ensures
        r@ == error_text(error.kind@, error.line, error.col),
{
    let mut r = String::new();
    match &error.kind {
        ErrorKind::UndeclaredVariable { var } => {
            r.append("Variable with name ");
            r.append(var.as_str());
            r.append(" undeclared");
        },
        ErrorKind::CannotMakeOperation { type1, type2 } => {
            r.append("Can't make an operation between ints, types ");
            r.append(type1.as_str());
            r.append(" and ");
            r.append(type2.as_str());
            r.append(" were given");
        },
        ErrorKind::NotACondition => {
            r.append("Invalid condition for if statement");
        },
        ErrorKind::InvalidComparison { type1, type2 } => {
            r.append("Can't compare type ");
            r.append(type1.as_str());
            r.append(" with type ");
            r.append(type2.as_str());
        },
        ErrorKind::InvalidExitCode => {
            r.append("Exit codes can only be ints");
        },
        ErrorKind::InvalidAssignment { type1, type2 } => {
            r.append("Can't assign variable with type ");
            r.append(type1.as_str());
            r.append(" to expression with type ");
            r.append(type2.as_str());
        },
        ErrorKind::InvalidIdentifier => {
            r.append("Destination is not a valid identifier");
        },
    }
    r.append(" [line ");
    push_decimal(&mut r, error.line as u64);
    r.append(": col ");
    push_decimal(&mut r, error.col as u64);
    r.append("]");
    assert(r@ =~= error_text(error.kind@, error.line, error.col));
    r
}

} // verus!

verus! {

/// A comparison is a boolean and an integer literal an integer, with nothing reported; an
/// arithmetic node has the type of its first operand, so that arithmetic on an integer
/// variable is an integer.
pub proof fn lemma_expression_types(st: CheckState, e: ExprV)
    ensures
        (e.kind is Eq || e.kind is Neq || e.kind is Lt || e.kind is Leq || e.kind is Gt || e.kind is Geq)
            ==> type_of(st, e) == Some(("bool"@, st)),
        e.kind is IntLit ==> type_of(st, e) == Some(("int"@, st)),
        e.kind matches KindV::Add(d, _) ==> type_of(st, e) == type_of(st, *d),
        e.kind matches KindV::Sub(d, _) ==> type_of(st, e) == type_of(st, *d),
        e.kind matches KindV::Mul(d, _) ==> type_of(st, e) == type_of(st, *d),
        e.kind matches KindV::Div(d, _) ==> type_of(st, e) == type_of(st, *d),
        e.kind matches KindV::Mod(d, _) ==> type_of(st, e) == type_of(st, *d),
{
}

} // verus!
