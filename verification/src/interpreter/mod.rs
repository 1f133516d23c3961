//! The interpreter: runs a checked program statement by statement, with the lines its
//! `input` calls read given in advance and the text its `print` calls write collected.
//! How a run goes is stated in `semantics`; every function here is proved to follow it.
use vstd::prelude::*;
use crate::types::PrimitiveType;
use crate::text::{push_char, push_decimal, chars_of, str_eq, parse_i64, char_from_u32};
use crate::syntax_analysis::parser::expression::{Expression, ExpressionKind, exprs_view, lemma_exprs_view};
use crate::syntax_analysis::parser::statement::{Statement, StatementKind, SKindV, stmts_view, lemma_stmts_view, skind_view, args_view};

pub mod semantics;
pub mod fuel;
pub mod scopes;

use semantics::{ValueV, SignalV, IState, Run, Eval, Body, Vals, get_var, set_var, get_proc, set_proc, count_var, start_scope, end_scope, int_text, array_chars, print_text, print_panic_text, printed_prefix, char_values, unescape, literal_value, int_op, is_binary_builtin, binary_value, eval, eval_list, call_expr, first_arg, builtin, bind_params, run_call, run_seq, loop_body, run_loop, run_while, close, run_stmt, run_assign, run_program, initial_state};
use crate::text::decimal;

verus! {

/// A run-time value.
pub enum Value {
    Int(i64),
    Bool(bool),
    Char(char),
    Array(Vec<Value>),
}

/// The value a run-time value stands for.
pub open spec fn value_view(v: Value) -> ValueV
    decreases v, 0nat,
{
    match v {
        Value::Int(i) => ValueV::Int(i),
        Value::Bool(b) => ValueV::Bool(b),
        Value::Char(c) => ValueV::Char(c),
        Value::Array(a) => ValueV::Array(values_view(a@)),
    }
}

/// The values a sequence of run-time values stands for.
pub open spec fn values_view(s: Seq<Value>) -> Seq<ValueV>
    decreases s, 1nat,
{
    if s.len() == 0 {
        seq![]
    } else {
        values_view(s.drop_last()).push(value_view(s.last()))
    }
}

impl View for Value {
    type V = ValueV;

    open spec fn view(&self) -> ValueV {
        value_view(*self)
    }
}

/// The values of a sequence of run-time values are the values of its elements.
pub proof fn lemma_values_view(s: Seq<Value>)
    ensures
        values_view(s).len() == s.len(),
        forall|k: int| 0 <= k < s.len() ==> #[trigger] values_view(s)[k] == s[k]@,
    decreases s.len(),
{
    if s.len() > 0 {
        lemma_values_view(s.drop_last());
    }
}

proof fn lemma_values_push(s: Seq<Value>, v: Value)
    ensures
        values_view(s.push(v)) == values_view(s).push(v@),
{
    assert(s.push(v).drop_last() =~= s);
}

/// A copy of a value, arrays copied element by element.
pub fn copy_value(v: &Value) -> (r: Value)
    ensures
        r@ == v@,
    decreases v,
{
    match v {
        Value::Int(i) => Value::Int(*i),
        Value::Bool(b) => Value::Bool(*b),
        Value::Char(c) => Value::Char(*c),
        Value::Array(a) => {
            let mut out: Vec<Value> = Vec::new();
            let mut i: usize = 0;
            proof {
                assert(decreases_to!(*v => (*v)->Array_0));
                assert(decreases_to!((*v)->Array_0 => a@));
            }
            while i < a.len()
                invariant
                    i <= a.len(),
                    decreases_to!(*v => a@),
                    values_view(out@) == values_view(a@.take(i as int)),
                decreases a.len() - i,
            {
                proof {
                    assert(decreases_to!(a@ => a@[i as int]));
                }
                let x = copy_value(&a[i]);
                proof {
                    lemma_values_push(out@, x);
                    lemma_values_push(a@.take(i as int), a@[i as int]);
                    assert(a@.take(i as int).push(a@[i as int]) =~= a@.take(i as int + 1));
                }
                out.push(x);
                i += 1;
            }
            assert(a@.take(i as int) =~= a@);
            Value::Array(out)
        },
    }
}

/// The character at a position of a vector.
fn char_at(v: &Vec<char>, i: usize) -> (c: char)
    requires
        i < v.len(),
    ensures
        c == v@[i as int],
{
    v[i]
}

/// The value at a position of a vector.
fn value_at(v: &Vec<Value>, i: usize) -> (r: &Value)
    requires
        i < v.len(),
    ensures
        *r == v@[i as int],
{
    &v[i]
}

/// Character values for the characters of a vector.
fn char_values_of(cs: &Vec<char>) -> (r: Vec<Value>)
    ensures
        values_view(r@) == char_values(cs@),
{
    let mut out: Vec<Value> = Vec::new();
    let mut i: usize = 0;
    assert(cs@.take(0) =~= Seq::<char>::empty());
    while i < cs.len()
        invariant
            i <= cs.len(),
            values_view(out@) == char_values(cs@.take(i as int)),
        decreases cs.len() - i,
    {
        let c = char_at(cs, i);
        proof {
            lemma_values_push(out@, Value::Char(c));
            assert(cs@.take(i as int + 1).drop_last() =~= cs@.take(i as int));
            assert(cs@.take(i as int + 1).last() == c);
            assert(Value::Char(c)@ == ValueV::Char(c));
            assert(char_values(cs@.take(i as int + 1)) == char_values(cs@.take(i as int)).push(ValueV::Char(c)));
        }
        let ghost prev = out@;
        out.push(Value::Char(c));
        assert(out@ == prev.push(Value::Char(c)));
        assert(values_view(out@) == values_view(prev).push(ValueV::Char(c)));
        i += 1;
    }
    assert(cs@.take(i as int) =~= cs@);
    out
}

/// The characters of `s` from `lo` to `hi` with the escapes of a string literal read.
fn unescape_chars(s: &Vec<char>, lo: usize, hi: usize) -> (r: Option<Vec<char>>)
    requires
        lo <= hi <= s.len(),
    ensures
        match r {
            Some(v) => unescape(s@.subrange(lo as int, hi as int)) == Some(v@),
            None => unescape(s@.subrange(lo as int, hi as int)) is None,
        },
{
    let ghost whole = s@.subrange(lo as int, hi as int);
    let mut out: Vec<char> = Vec::new();
    let mut j: usize = lo;
    while j < hi
        invariant
            lo <= j <= hi <= s.len(),
            whole == s@.subrange(lo as int, hi as int),
            unescape(whole) == (match unescape(s@.subrange(j as int, hi as int)) {
                Some(rest) => Some(out@ + rest),
                None => None::<Seq<char>>,
            }),
        decreases hi - j,
    {
        let ghost cur = s@.subrange(j as int, hi as int);
        let c = s[j];
        assert(cur[0] == c);
        if c == '\\' {
            if j + 1 >= hi {
                return None;
            }
            let d = s[j + 1];
            assert(cur[1] == d);
            let e: char = if d == 'n' {
                '\n'
            } else if d == 't' {
                '\t'
            } else if d == '0' {
                '\0'
            } else if d == '\\' {
                '\\'
            } else {
                return None;
            };
            assert(cur.skip(2) =~= s@.subrange(j as int + 2, hi as int));
            proof {
                match unescape(cur.skip(2)) {
                    Some(rest) => {
                        assert(out@ + (seq![e] + rest) =~= out@.push(e) + rest);
                    },
                    None => {},
                }
            }
            out.push(e);
            j = j + 2;
        } else {
            assert(cur.skip(1) =~= s@.subrange(j as int + 1, hi as int));
            proof {
                match unescape(cur.skip(1)) {
                    Some(rest) => {
                        assert(out@ + (seq![c] + rest) =~= out@.push(c) + rest);
                    },
                    None => {},
                }
            }
            out.push(c);
            j = j + 1;
        }
    }
    assert(s@.subrange(j as int, hi as int) =~= Seq::<char>::empty());
    assert(out@ + Seq::<char>::empty() =~= out@);
    Some(out)
}

/// The value of a literal of a type, or `None` where reading it fails.
fn literal_of(lit: &String, t: &Option<PrimitiveType>) -> (r: Option<Value>)
    ensures
        match r {
            Some(v) => literal_value(lit@, *t) == Some(v@),
            None => literal_value(lit@, *t) is None,
        },
{
    match t {
        None => None,
        Some(PrimitiveType::Int) => match parse_i64(lit.as_str()) {
            Some(v) => Some(Value::Int(v)),
            None => None,
        },
        Some(PrimitiveType::Bool) => Some(Value::Bool(str_eq(lit.as_str(), "true"))),
        Some(PrimitiveType::Char) => {
            let cs = chars_of(lit.as_str());
            if cs.len() >= 2 {
                Some(Value::Char(char_at(&cs, 1)))
            } else {
                None
            }
        },
        Some(PrimitiveType::Arr(e)) => {
            let is_char = match &**e {
                PrimitiveType::Char => true,
                _ => false,
            };
            let cs = chars_of(lit.as_str());
            let n = cs.len();
            if is_char && n >= 2 && (cs[0] as u32) < 128 && (cs[n - 1] as u32) < 128 {
                assert(lit@.len() >= 2);
                assert((lit@[0] as u32) < 128);
                assert((lit@[lit@.len() - 1] as u32) < 128);
                assert(**e == PrimitiveType::Char);
                match unescape_chars(&cs, 1, n - 1) {
                    Some(v) => {
                        let vals = char_values_of(&v);
                        assert(Value::Array(vals)@ == ValueV::Array(char_values(v@)));
                        Some(Value::Array(vals))
                    },
                    None => None,
                }
            } else {
                None
            }
        },
    }
}

/// The value of an integer operator on two integers, or `None` where it overflows,
/// divides by zero or is no such operator.
fn int_op_of(name: &str, a: i64, b: i64) -> (r: Option<Value>)
    ensures
        match r {
            Some(v) => int_op(name@, a, b) == Some(v@),
            None => int_op(name@, a, b) is None,
        },
{
    if str_eq(name, "+") {
        match a.checked_add(b) {
            Some(v) => Some(Value::Int(v)),
            None => None,
        }
    } else if str_eq(name, "-") {
        match a.checked_sub(b) {
            Some(v) => Some(Value::Int(v)),
            None => None,
        }
    } else if str_eq(name, "*") {
        match a.checked_mul(b) {
            Some(v) => Some(Value::Int(v)),
            None => None,
        }
    } else if str_eq(name, "/") {
        match a.checked_div(b) {
            Some(v) => Some(Value::Int(v)),
            None => None,
        }
    } else if str_eq(name, "%") {
        match a.checked_rem(b) {
            Some(v) => Some(Value::Int(v)),
            None => None,
        }
    } else if str_eq(name, "==") {
        Some(Value::Bool(a == b))
    } else if str_eq(name, "!=") {
        Some(Value::Bool(a != b))
    } else if str_eq(name, "<") {
        Some(Value::Bool(a < b))
    } else if str_eq(name, "<=") {
        Some(Value::Bool(a <= b))
    } else if str_eq(name, ">") {
        Some(Value::Bool(a > b))
    } else if str_eq(name, ">=") {
        Some(Value::Bool(a >= b))
    } else {
        None
    }
}

/// Whether `name` is one of the two-operand operators.
fn is_binary_op(name: &str) -> (r: bool)
    ensures
        r == is_binary_builtin(name@),
{
    str_eq(name, "+") || str_eq(name, "-") || str_eq(name, "*") || str_eq(name, "/") || str_eq(name, "%")
        || str_eq(name, "and") || str_eq(name, "or") || str_eq(name, "==") || str_eq(name, "!=") || str_eq(
        name,
        "<",
    ) || str_eq(name, "<=") || str_eq(name, ">") || str_eq(name, ">=") || str_eq(name, "[]")
}

/// Appends the decimal text of an integer.
fn push_int(out: &mut String, i: i64)
    ensures
        final(out)@ == old(out)@ + int_text(i as int),
{
    if i < 0 {
        push_char(out, '-');
        let n: u64 = if i == i64::MIN {
            9223372036854775808u64
        } else {
            (0 - i) as u64
        };
        push_decimal(out, n);
        proof {
            reveal_strlit("-");
            assert(old(out)@.push('-') + decimal(n as nat) =~= old(out)@ + ("-"@ + decimal(n as nat)));
        }
    } else {
        push_decimal(out, i as u64);
    }
}

/// Appends the text that printing a value gives; `false` where printing it fails.
fn push_value(out: &mut String, v: &Value) -> (r: bool)
    ensures
        r == (print_text(v@) is Some),
        r ==> final(out)@ == old(out)@ + print_text(v@).unwrap(),
        !r ==> final(out)@ == old(out)@ + print_panic_text(v@),
{
    match v {
        Value::Int(i) => {
            push_int(out, *i);
            true
        },
        Value::Bool(b) => {
            if *b {
                out.append("true");
            } else {
                out.append("false");
            }
            true
        },
        Value::Char(c) => {
            push_char(out, *c);
            assert(old(out)@.push(*c) =~= old(out)@ + seq![*c]);
            true
        },
        Value::Array(a) => {
            let ghost vs = values_view(a@);
            proof {
                lemma_values_view(a@);
            }
            let mut i: usize = 0;
            while i < a.len()
                invariant
                    i <= a.len(),
                    vs == values_view(a@),
                    v@ == ValueV::Array(vs),
                    vs.len() == a@.len(),
                    forall|k: int| 0 <= k < a@.len() ==> #[trigger] vs[k] == a@[k]@,
                    array_chars(vs.take(i as int)) is Some,
                    out@ == old(out)@ + array_chars(vs.take(i as int)).unwrap(),
                decreases a.len() - i,
            {
                assert(vs.take(i as int + 1).drop_last() =~= vs.take(i as int));
                match value_at(a, i) {
                    Value::Char(c) => {
                        push_char(out, *c);
                        proof {
                            let prev = array_chars(vs.take(i as int)).unwrap();
                            assert(array_chars(vs.take(i as int + 1)) == Some(prev.push(*c)));
                            assert(old(out)@ + prev.push(*c) =~= (old(out)@ + prev).push(*c));
                        }
                    },
                    _ => {
                        proof {
                            assert(vs.take(i as int + 1).last() == vs[i as int]);
                            assert(vs[i as int] == a@[i as int]@);
                            assert(!(vs[i as int] is Char));
                            assert(array_chars(vs.take(i as int + 1)) is None);
                            lemma_array_chars_prefix(vs, i as int + 1);
                            assert(array_chars(vs) is None);
                            lemma_printed_prefix(vs, i as int);

                        }
                        return false;
                    },
                }
                i += 1;
            }
            assert(vs.take(i as int) =~= vs);
            true
        },
    }
}

/// What printing an array writes before its first element that is no character.
proof fn lemma_printed_prefix(s: Seq<ValueV>, i: int)
    requires
        0 <= i < s.len(),
        array_chars(s.take(i)) is Some,
        !(s[i] is Char),
    ensures
        printed_prefix(s) == array_chars(s.take(i)).unwrap(),
    decreases s.len(),
{
    if s.len() == i + 1 {
        assert(s.drop_last() =~= s.take(i));
    } else {
        assert(s.drop_last().take(i) =~= s.take(i));
        lemma_printed_prefix(s.drop_last(), i);
        assert(s.take(i + 1).drop_last() =~= s.take(i));
        assert(array_chars(s.take(i + 1)) is None);
        lemma_array_chars_prefix(s.drop_last(), i + 1);
        assert(s.drop_last().take(i + 1) =~= s.take(i + 1));
    }
}

/// Where a prefix of an array has no characters, neither has the array.
proof fn lemma_array_chars_prefix(s: Seq<ValueV>, k: int)
    requires
        0 <= k <= s.len(),
        array_chars(s.take(k)) is None,
    ensures
        array_chars(s) is None,
    decreases s.len(),
{
    if k < s.len() {
        assert(s.drop_last().take(k) =~= s.take(k));
        lemma_array_chars_prefix(s.drop_last(), k);
    } else {
        assert(s.take(k) =~= s);
    }
}

} // verus!

verus! {

} // verus!

verus! {

} // verus!
verus! {

proof fn lemma_vars_update(s: Seq<(String, Value)>, k: int, x: (String, Value))
    requires
        0 <= k < s.len(),
    ensures
        vars_view(s.update(k, x)) == vars_view(s).update(k, (x.0@, x.1@)),
{
    assert(vars_view(s.update(k, x)) =~= vars_view(s).update(k, (x.0@, x.1@)));
}

proof fn lemma_vars_take(s: Seq<(String, Value)>, k: int)
    requires
        0 <= k <= s.len(),
    ensures
        vars_view(s.take(k)) == vars_view(s).take(k),
{
    assert(vars_view(s.take(k)) =~= vars_view(s).take(k));
}

proof fn lemma_procs_update<'a>(s: Seq<(String, &'a StatementKind)>, k: int, x: (String, &'a StatementKind))
    requires
        0 <= k < s.len(),
    ensures
        procs_view(s.update(k, x)) == procs_view(s).update(k, (x.0@, skind_view(*x.1))),
{
    assert(procs_view(s.update(k, x)) =~= procs_view(s).update(k, (x.0@, skind_view(*x.1))));
}

/// What the last statement asks of the statements around it.
pub enum Signal {
    Normal,
    Continue,
    Break,
    Return(Value),
}

/// The value a signal stands for.
pub open spec fn signal_view(s: Signal) -> SignalV {
    match s {
        Signal::Normal => SignalV::Normal,
        Signal::Continue => SignalV::Continue,
        Signal::Break => SignalV::Break,
        Signal::Return(v) => SignalV::Return(v@),
    }
}

/// The names and values of variables.
pub open spec fn vars_view(v: Seq<(String, Value)>) -> Seq<(Seq<char>, ValueV)> {
    v.map_values(|p: (String, Value)| (p.0@, p.1@))
}

/// The names and kinds of procedures.
pub open spec fn procs_view<'a>(p: Seq<(String, &'a StatementKind)>) -> Seq<(Seq<char>, SKindV)> {
    p.map_values(|q: (String, &'a StatementKind)| (q.0@, skind_view(*q.1)))
}

/// The counts of variables of open scopes.
pub open spec fn scopes_view(n: Seq<i8>) -> Seq<int> {
    n.map_values(|x: i8| x as int)
}

/// The text of lines.
pub open spec fn lines_view(v: Seq<String>) -> Seq<Seq<char>> {
    v.map_values(|s: String| s@)
}

/// A running program: its variables, latest last, with the number each open scope
/// declared; the procedures it declared, which stay borrowed from its statements; the
/// signal the last statement left; the text printed so far; and the input lines not yet
/// read.
pub struct Interpreter<'a> {
    variables: Vec<(String, Value)>,
    num_vars_scope: Vec<i8>,
    procedures: Vec<(String, &'a StatementKind)>,
    signal: Signal,
    output: String,
    input: Vec<String>,
}

impl<'a> Interpreter<'a> {
    /// The state of the run.
    pub closed spec fn state(&self) -> IState {
        IState {
            vars: vars_view(self.variables@),
            scopes: scopes_view(self.num_vars_scope@),
            procs: procs_view(self.procedures@),
            signal: signal_view(self.signal),
            out: self.output@,
            input: lines_view(self.input@),
        }
    }

    /// An interpreter with nothing declared, nothing printed and no input.
    pub fn new() -> (r: Interpreter<'a>)
        ensures
            r.state() == initial_state(seq![]),
    {
        let r = Interpreter {
            variables: Vec::new(),
            num_vars_scope: Vec::new(),
            procedures: Vec::new(),
            signal: Signal::Normal,
            output: String::new(),
            input: Vec::new(),
        };
        assert(r.state().vars =~= seq![]);
        assert(r.state().scopes =~= seq![]);
        assert(r.state().procs =~= seq![]);
        assert(r.state().input =~= seq![]);
        r
    }

    /// Runs a program: its statements in a scope of their own, with `input` as the lines
    /// that its `input` calls read (each as read from a terminal, with its line break),
    /// taking at most `fuel` steps. On a fresh interpreter this is `run_program`.
    pub fn run(&mut self, ast: &'a Vec<Statement>, input: Vec<String>, fuel: u64) -> (r: Flow)
        ensures
            ran(
                r,
                close(run_seq(start_scope(IState { input: lines_view(input@), ..old(self).state() }), stmts_view(ast@), 0, fuel as nat, 0)),
                final(self).state(),
            ),
            old(self).state() == initial_state(seq![]) ==> ran(r, run_program(stmts_view(ast@), lines_view(input@), fuel as nat), final(self).state()),
    {
        self.input = input;
        self.start_scope();
        match self.run_block(ast, fuel, 0) {
            Flow::Go => if self.end_scope() {
                Flow::Go
            } else {
                Flow::Panic
            },
            other => other,
        }
    }

    /// The text printed so far.
    pub fn output(&self) -> (r: &str)
        ensures
            r@ == self.state().out,
    {
        self.output.as_str()
    }

    /// The value of the latest variable of that name.
    fn get_value_by_name(&self, name: &String) -> (r: Option<Value>)
        ensures
            match r {
                Some(v) => get_var(self.state().vars, name@) == Some(v@),
                None => get_var(self.state().vars, name@) is None,
            },
    {
        let ghost vs = self.state().vars;
        let mut i = self.variables.len();
        assert(vs.take(i as int) =~= vs);
        while i > 0
            invariant
                i <= self.variables.len(),
                vs == vars_view(self.variables@),
                get_var(vs.take(i as int), name@) == get_var(vs, name@),
            decreases i,
        {
            let k = i - 1;
            assert(vs.take(i as int).drop_last() =~= vs.take(k as int));
            assert(vs.take(i as int).last() == vs[k as int]);
            if str_eq(self.variables[k].0.as_str(), name.as_str()) {
                return Some(copy_value(&self.variables[k].1));
            }
            i = k;
        }
        None
    }

    /// Sets the latest variable of that name; `false` where there is none.
    fn set_value_by_name(&mut self, name: &String, value: Value) -> (r: bool)
        ensures
            r == (set_var(old(self).state().vars, name@, value@) is Some),
            r ==> final(self).state() == (IState {
                vars: set_var(old(self).state().vars, name@, value@).unwrap(),
                ..old(self).state()
            }),
            !r ==> final(self).state() == old(self).state(),
    {
        let ghost vs = self.state().vars;
        let ghost v = value@;
        let mut i = self.variables.len();
        assert(vs.take(i as int) =~= vs);
        assert(vs.skip(i as int) =~= Seq::<(Seq<char>, ValueV)>::empty());
        proof {
            match set_var(vs, name@, v) {
                Some(r) => assert(r + vs.skip(i as int) =~= r),
                None => {},
            }
        }
        while i > 0
            invariant
                i <= self.variables.len(),
                vs == vars_view(self.variables@),
                v == value@,
                self.state() == old(self).state(),
                set_var(vs, name@, v) == (match set_var(vs.take(i as int), name@, v) {
                    Some(r) => Some(r + vs.skip(i as int)),
                    None => None::<Seq<(Seq<char>, ValueV)>>,
                }),
            decreases i,
        {
            let k = i - 1;
            assert(vs.take(i as int).drop_last() =~= vs.take(k as int));
            assert(vs.take(i as int).last() == vs[k as int]);
            if str_eq(self.variables[k].0.as_str(), name.as_str()) {
                let nm = self.variables[k].0.clone();
                let ghost old_vars = self.variables@;
                let pair = (nm, value);
                let ghost gp = pair;
                self.variables.set(k, pair);
                proof {
                    assert(self.variables@ == old_vars.update(k as int, gp));
                    assert(gp.0@ == name@);
                    assert(vars_view(self.variables@)[k as int] == (gp.0@, gp.1@));
                    lemma_vars_update(old_vars, k as int, gp);
                    assert(vs[k as int].0 == name@);
                    assert(set_var(vs.take(i as int), name@, v) == Some(vs.take(k as int).push((name@, v))));
                    assert(gp.1@ == v);
                    assert(vars_view(self.variables@) == vs.update(k as int, (name@, v)));
                    assert(set_var(vs, name@, v) == Some(vs.take(k as int).push((name@, v)) + vs.skip(i as int)));
                    assert(set_var(vs, name@, v) == Some(vs.update(k as int, (name@, v))));
                    assert(v == value@);
                    assert(vs.take(k as int).push((name@, v)) + vs.skip(i as int) =~= vs.update(k as int, (name@, v)));
                }
                return true;
            }
            proof {
                match set_var(vs.take(k as int), name@, v) {
                    Some(r) => {
                        assert(r.push(vs[k as int]) + vs.skip(i as int) =~= r + vs.skip(k as int));
                    },
                    None => {},
                }
            }
            i = k;
        }
        assert(vs.take(0) =~= Seq::<(Seq<char>, ValueV)>::empty());
        false
    }

    /// Counts one more variable in the innermost scope; `false` where there is no scope
    /// or its count would overflow.
    fn count_var(&mut self) -> (r: bool)
        ensures
            r == (count_var(old(self).state()) is Some),
            r ==> final(self).state() == count_var(old(self).state()).unwrap(),
            !r ==> final(self).state() == old(self).state(),
    {
        let n = self.num_vars_scope.len();
        if n == 0 || self.num_vars_scope[n - 1] >= 127 {
            return false;
        }
        let x = self.num_vars_scope[n - 1];
        self.num_vars_scope.set(n - 1, x + 1);
        assert(self.state().scopes =~= old(self).state().scopes.update(n - 1, x + 1));
        true
    }

    /// Opens a scope.
    fn start_scope(&mut self)
        ensures
            final(self).state() == start_scope(old(self).state()),
    {
        self.num_vars_scope.push(0);
        assert(self.state().scopes =~= old(self).state().scopes.push(0));
    }

    /// Closes the innermost scope, dropping the variables it declared; `false` where no
    /// scope is open.
    fn end_scope(&mut self) -> (r: bool)
        ensures
            r == (end_scope(old(self).state()) is Some),
            r ==> final(self).state() == end_scope(old(self).state()).unwrap(),
            final(self).state().out == old(self).state().out,
    {
        let ghost st = self.state();
        match self.num_vars_scope.pop() {
            None => false,
            Some(n) => {
                let ghost orig = self.variables@;
                let mut k: i8 = 0;
                while k < n
                    invariant
                        0 <= k,
                        n > 0 ==> k <= n,
                        n <= 0 ==> k == 0,
                        orig == old(self).variables@,
                        self.variables@ == orig.take(if k <= orig.len() { orig.len() - k } else { 0 }),
                        self.num_vars_scope@ == old(self).num_vars_scope@.drop_last(),
                        self.procedures == old(self).procedures,
                        self.signal == old(self).signal,
                        self.output == old(self).output,
                        self.input == old(self).input,
                    decreases n - k,
                {
                    let ghost before = self.variables@;
                    self.variables.pop();
                    proof {
                        if k < orig.len() {
                            assert(before.drop_last() =~= orig.take(orig.len() - k - 1));
                        }
                    }
                    k += 1;
                }
                proof {
                    let keep = if n <= 0 {
                        orig.len() as int
                    } else if n <= orig.len() {
                        orig.len() - n
                    } else {
                        0
                    };
                    if n <= 0 {
                        assert(k == 0);
                        assert(orig.take(orig.len() as int) =~= orig);
                    } else {
                        assert(k == n);
                    }
                    assert(self.variables@ == orig.take(keep));
                    lemma_vars_take(orig, keep);
                    assert(self.state().scopes =~= st.scopes.drop_last());
                }
                true
            },
        }
    }

    /// Declares a procedure, in place of one of the same name.
    fn declare_procedure(&mut self, name: &String, kind: &'a StatementKind)
        ensures
            final(self).state() == (IState {
                procs: set_proc(old(self).state().procs, name@, skind_view(*kind)),
                ..old(self).state()
            }),
    {
        let ghost ps = self.state().procs;
        let ghost k = skind_view(*kind);
        let mut j: usize = 0;
        assert(ps.skip(0) =~= ps);
        assert(ps.take(0) + set_proc(ps.skip(0), name@, k) =~= set_proc(ps, name@, k));
        while j < self.procedures.len()
            invariant
                j <= self.procedures.len(),
                ps == procs_view(self.procedures@),
                k == skind_view(*kind),
                self.state() == old(self).state(),
                set_proc(ps, name@, k) == ps.take(j as int) + set_proc(ps.skip(j as int), name@, k),
            decreases self.procedures.len() - j,
        {
            assert(ps.skip(j as int)[0] == ps[j as int]);
            if str_eq(self.procedures[j].0.as_str(), name.as_str()) {
                let nm = self.procedures[j].0.clone();
                let ghost old_procs = self.procedures@;
                let pair = (nm, kind);
                let ghost gp = pair;
                self.procedures.set(j, pair);
                proof {
                    lemma_procs_update(old_procs, j as int, gp);
                    assert(gp.0@ == name@);
                    assert(self.procedures@ == old_procs.update(j as int, gp));
                    assert(procs_view(old_procs) == ps);
                    assert(skind_view(*gp.1) == k);
                    assert(procs_view(self.procedures@) == ps.update(j as int, (name@, k)));
                    assert(ps.take(j as int) + ps.skip(j as int).update(0, (name@, k)) =~= procs_view(self.procedures@));
                    assert(self.state().scopes == old(self).state().scopes);
                }
                return;
            }
            proof {
                assert(ps.skip(j as int).drop_first() =~= ps.skip(j as int + 1));
                assert(ps.take(j as int) + (seq![ps[j as int]] + set_proc(ps.skip(j as int + 1), name@, k))
                    =~= ps.take(j as int + 1) + set_proc(ps.skip(j as int + 1), name@, k));
            }
            j += 1;
        }
        let nm = name.clone();
        self.procedures.push((nm, kind));
        proof {
            assert(ps.skip(j as int) =~= Seq::<(Seq<char>, SKindV)>::empty());
            assert(ps.take(j as int) =~= ps);
            assert(ps + seq![(name@, k)] =~= procs_view(self.procedures@));
        }
    }

    /// The procedure of that name.
    fn find_procedure(&self, name: &String) -> (r: Option<&'a StatementKind>)
        ensures
            match r {
                Some(k) => get_proc(self.state().procs, name@) == Some(skind_view(*k)),
                None => get_proc(self.state().procs, name@) is None,
            },
    {
        let ghost ps = self.state().procs;
        let mut j: usize = 0;
        assert(ps.skip(0) =~= ps);
        while j < self.procedures.len()
            invariant
                j <= self.procedures.len(),
                ps == procs_view(self.procedures@),
                get_proc(ps, name@) == get_proc(ps.skip(j as int), name@),
            decreases self.procedures.len() - j,
        {
            assert(ps.skip(j as int)[0] == ps[j as int]);
            if str_eq(self.procedures[j].0.as_str(), name.as_str()) {
                return Some(self.procedures[j].1);
            }
            assert(ps.skip(j as int).drop_first() =~= ps.skip(j as int + 1));
            j += 1;
        }
        None
    }
}

} // verus!

verus! {

/// How running statements ended.
pub enum Flow {
    Go,
    Exit,
    Panic,
    OutOfFuel,
}

/// The run ended as the statement says, in the state given: an exit, a panic or a stop
/// for want of fuel with the text printed up to it.
pub open spec fn ran(f: Flow, r: Run, st: IState) -> bool {
    match f {
        Flow::Go => r == Run::Go(st),
        Flow::Exit => r == Run::Exit(st.out),
        Flow::Panic => r == Run::Panic(st.out),
        Flow::OutOfFuel => r == Run::OutOfFuel(st.out),
    }
}

/// How evaluating an expression ended.
enum Evaluated {
    Val(Value),
    Exit,
    Panic,
    OutOfFuel,
}

spec fn evaluated(e: Evaluated, r: Eval, st: IState) -> bool {
    match e {
        Evaluated::Val(v) => r == Eval::Val(st, v@),
        Evaluated::Exit => r == Eval::Exit(st.out),
        Evaluated::Panic => r == Eval::Panic(st.out),
        Evaluated::OutOfFuel => r == Eval::OutOfFuel(st.out),
    }
}

/// How evaluating a list of expressions ended.
enum Listed {
    Vals(Vec<Value>),
    Exit,
    Panic,
    OutOfFuel,
}

spec fn listed(l: Listed, r: Vals, st: IState) -> bool {
    match l {
        Listed::Vals(v) => r == Vals::Vals(st, values_view(v@)),
        Listed::Exit => r == Vals::Exit(st.out),
        Listed::Panic => r == Vals::Panic(st.out),
        Listed::OutOfFuel => r == Vals::OutOfFuel(st.out),
    }
}

/// How running a loop body once ended.
enum Round {
    Broke,
    Again,
    Exit,
    Panic,
    OutOfFuel,
}

spec fn rounded(x: Round, r: Body, st: IState) -> bool {
    match x {
        Round::Broke => r == Body::Broke(st),
        Round::Again => r == Body::Again(st),
        Round::Exit => r == Body::Exit(st.out),
        Round::Panic => r == Body::Panic(st.out),
        Round::OutOfFuel => r == Body::OutOfFuel(st.out),
    }
}

/// Values evaluated before, put in front of those of the rest of a list.
spec fn vals_after(done: Seq<ValueV>, r: Vals) -> Vals {
    match r {
        Vals::Vals(st, vs) => Vals::Vals(st, done + vs),
        other => other,
    }
}

proof fn lemma_vals_step(done: Seq<ValueV>, v: ValueV, r: Vals)
    ensures
        vals_after(
            done,
            match r {
                Vals::Vals(st2, vs) => Vals::Vals(st2, seq![v] + vs),
                other => other,
            },
        ) == vals_after(done.push(v), r),
{
    match r {
        Vals::Vals(st2, vs) => {
            assert(done + (seq![v] + vs) =~= done.push(v) + vs);
        },
        _ => {},
    }
}

proof fn lemma_values_update(s: Seq<Value>, k: int, x: Value)
    requires
        0 <= k < s.len(),
    ensures
        values_view(s.update(k, x)) == values_view(s).update(k, x@),
    decreases s.len(),
{
    lemma_values_view(s);
    lemma_values_view(s.update(k, x));
    assert(values_view(s.update(k, x)) =~= values_view(s).update(k, x@));
}

proof fn lemma_lines_drop_first(s: Seq<String>)
    requires
        s.len() > 0,
    ensures
        lines_view(s.remove(0)) == lines_view(s).drop_first(),
        lines_view(s)[0] == s[0]@,
{
    assert(lines_view(s.remove(0)) =~= lines_view(s).drop_first());
}

proof fn lemma_vars_push(s: Seq<(String, Value)>, x: (String, Value))
    ensures
        vars_view(s.push(x)) == vars_view(s).push((x.0@, x.1@)),
{
    assert(vars_view(s.push(x)) =~= vars_view(s).push((x.0@, x.1@)));
}

/// The characters of `s` but the last one.
fn without_last(s: &String) -> (r: String)
    ensures
        r@ == (if s@.len() > 0 { s@.drop_last() } else { s@ }),
{
    let cs = chars_of(s.as_str());
    let n = if cs.len() > 0 { cs.len() - 1 } else { 0 };
    let mut r = String::new();
    let mut i: usize = 0;
    while i < n
        invariant
            cs@ == s@,
            n == (if cs.len() > 0 { cs.len() - 1 } else { 0 }),
            i <= n,
            r@ == cs@.take(i as int),
        decreases n - i,
    {
        push_char(&mut r, cs[i]);
        assert(cs@.take(i as int).push(cs@[i as int]) =~= cs@.take(i as int + 1));
        i += 1;
    }
    assert(r@ =~= (if s@.len() > 0 { s@.drop_last() } else { s@ }));
    r
}

} // verus!

verus! {

impl<'a> Interpreter<'a> {
    /// The value of a two-operand operator on evaluated operands; `None` where it fails.
    fn binary_of(&self, name: &str, first: &Expression, a: &Value, b: &Value) -> (r: Option<Value>)
        ensures
            match r {
                Some(v) => binary_value(self.state(), name@, first@, a@, b@) == Some(v@),
                None => binary_value(self.state(), name@, first@, a@, b@) is None,
            },
    {
        if str_eq(name, "and") || str_eq(name, "or") {
            match (a, b) {
                (Value::Bool(x), Value::Bool(y)) => Some(
                    Value::Bool(
                        if str_eq(name, "and") {
                            *x && *y
                        } else {
                            *x || *y
                        },
                    ),
                ),
                _ => None,
            }
        } else if str_eq(name, "[]") {
            match (&first.kind, b) {
                (ExpressionKind::Id(id), Value::Int(i)) => match self.get_value_by_name(id) {
                    Some(Value::Array(values)) => {
                        proof {
                            lemma_values_view(values@);
                        }
                        if *i >= 0 && (*i as u64) < (values.len() as u64) {
                            Some(copy_value(value_at(&values, *i as usize)))
                        } else {
                            None
                        }
                    },
                    _ => None,
                },
                _ => None,
            }
        } else {
            match (a, b) {
                (Value::Int(x), Value::Int(y)) => int_op_of(name, *x, *y),
                _ => None,
            }
        }
    }

    /// Evaluates an expression.
    fn eval_expression(&mut self, e: &Expression, fuel: u64) -> (r: Evaluated)
        ensures
            evaluated(r, eval(old(self).state(), e@, fuel as nat), final(self).state()),
        decreases fuel, 0nat,
    {
        if fuel == 0 {
            return Evaluated::OutOfFuel;
        }
        let f = fuel - 1;
        match &e.kind {
            ExpressionKind::Id(id) => match self.get_value_by_name(id) {
                Some(v) => Evaluated::Val(v),
                None => Evaluated::Panic,
            },
            ExpressionKind::Lit(lit) => match literal_of(lit, &e.typ) {
                Some(v) => Evaluated::Val(v),
                None => Evaluated::Panic,
            },
            ExpressionKind::Array(contents) => match self.eval_list(contents, f) {
                Listed::Vals(vs) => Evaluated::Val(Value::Array(vs)),
                Listed::Exit => Evaluated::Exit,
                Listed::Panic => Evaluated::Panic,
                Listed::OutOfFuel => Evaluated::OutOfFuel,
            },
            ExpressionKind::Call(name, args) => {
                proof {
                    lemma_exprs_view(args@);
                }
                if args.len() == 2 {
                    match self.eval_expression(&args[0], f) {
                        Evaluated::Val(a) => match self.eval_expression(&args[1], f) {
                            Evaluated::Val(b) => {
                                if is_binary_op(name.as_str()) {
                                    match self.binary_of(name.as_str(), &args[0], &a, &b) {
                                        Some(v) => Evaluated::Val(v),
                                        None => Evaluated::Panic,
                                    }
                                } else {
                                    self.call_expr(name, args, f)
                                }
                            },
                            other => other,
                        },
                        other => other,
                    }
                } else if args.len() == 1 && str_eq(name.as_str(), "!") {
                    match self.eval_expression(&args[0], f) {
                        Evaluated::Val(Value::Bool(b)) => Evaluated::Val(Value::Bool(!b)),
                        Evaluated::Val(_) => Evaluated::Panic,
                        other => other,
                    }
                } else if args.len() == 1 && str_eq(name.as_str(), "-") {
                    match self.eval_expression(&args[0], f) {
                        Evaluated::Val(Value::Int(i)) => match 0i64.checked_sub(i) {
                            Some(v) => Evaluated::Val(Value::Int(v)),
                            None => Evaluated::Panic,
                        },
                        Evaluated::Val(_) => Evaluated::Panic,
                        other => other,
                    }
                } else {
                    self.call_expr(name, args, f)
                }
            },
        }
    }

    /// Evaluates expressions in order.
    fn eval_list(&mut self, s: &Vec<Expression>, fuel: u64) -> (r: Listed)
        ensures
            listed(r, eval_list(old(self).state(), exprs_view(s@), 0, fuel as nat), final(self).state()),
        decreases fuel, 1nat,
    {
        if fuel == 0 {
            return Listed::OutOfFuel;
        }
        let ghost es = exprs_view(s@);
        let ghost st0 = self.state();
        proof {
            lemma_exprs_view(s@);
        }
        let mut done: Vec<Value> = Vec::new();
        let mut i: usize = 0;
        assert(values_view(done@) =~= Seq::<ValueV>::empty());
        proof {
            match eval_list(st0, es, 0, fuel as nat) {
                Vals::Vals(st, vs) => assert(Seq::<ValueV>::empty() + vs =~= vs),
                _ => {},
            }
        }
        while i < s.len()
            invariant
                fuel > 0,
                st0 == old(self).state(),
                i <= s.len(),
                es == exprs_view(s@),
                es.len() == s.len(),
                forall|k: int| 0 <= k < s.len() ==> #[trigger] es[k] == s@[k]@,
                eval_list(st0, es, 0, fuel as nat) == vals_after(values_view(done@), eval_list(self.state(), es, i as int, fuel as nat)),
            decreases s.len() - i,
        {
            let ghost before = self.state();
            match self.eval_expression(&s[i], fuel - 1) {
                Evaluated::Val(v) => {
                    proof {
                        lemma_vals_step(values_view(done@), v@, eval_list(self.state(), es, i as int + 1, fuel as nat));
                        lemma_values_push(done@, v);
                    }
                    done.push(v);
                },
                Evaluated::Exit => {
                    return Listed::Exit;
                },
                Evaluated::Panic => {
                    return Listed::Panic;
                },
                Evaluated::OutOfFuel => {
                    return Listed::OutOfFuel;
                },
            }
            i += 1;
        }
        assert(values_view(done@) + Seq::<ValueV>::empty() =~= values_view(done@));
        Listed::Vals(done)
    }

    /// Calls a procedure for the value it returns.
    fn call_expr(&mut self, name: &String, args: &Vec<Expression>, fuel: u64) -> (r: Evaluated)
        ensures
            evaluated(r, call_expr(old(self).state(), name@, exprs_view(args@), fuel as nat), final(self).state()),
        decreases fuel, 1nat,
    {
        if fuel == 0 {
            return Evaluated::OutOfFuel;
        }
        match self.run_call(name, args, fuel - 1) {
            Flow::Go => {
                let v = match &self.signal {
                    Signal::Return(v) => copy_value(v),
                    _ => {
                        return Evaluated::Panic;
                    },
                };
                self.signal = Signal::Normal;
                Evaluated::Val(v)
            },
            Flow::Exit => Evaluated::Exit,
            Flow::Panic => Evaluated::Panic,
            Flow::OutOfFuel => Evaluated::OutOfFuel,
        }
    }

    /// Evaluates the first argument of a built-in procedure.
    fn first_arg(&mut self, args: &Vec<Expression>, fuel: u64) -> (r: Evaluated)
        ensures
            evaluated(r, first_arg(old(self).state(), exprs_view(args@), fuel as nat), final(self).state()),
        decreases fuel, 1nat,
    {
        proof {
            lemma_exprs_view(args@);
        }
        if args.len() == 0 {
            Evaluated::Panic
        } else {
            self.eval_expression(&args[0], fuel)
        }
    }

    /// Runs a built-in procedure that returns a value computed from its first argument.
    fn builtin(&mut self, name: &String, args: &Vec<Expression>, fuel: u64) -> (r: Flow)
        ensures
            ran(r, builtin(old(self).state(), name@, exprs_view(args@), fuel as nat), final(self).state()),
        decreases fuel, 2nat,
    {
        match self.first_arg(args, fuel) {
            Evaluated::Val(v) => {
                let r: Option<Value> = if str_eq(name.as_str(), "string_to_int") {
                    match &v {
                        Value::Array(_) => {
                            let mut t = String::new();
                            if push_value(&mut t, &v) {
                                let u = without_last(&t);
                                match parse_i64(u.as_str()) {
                                    Some(n) => Some(Value::Int(n)),
                                    None => None,
                                }
                            } else {
                                None
                            }
                        },
                        _ => None,
                    }
                } else if str_eq(name.as_str(), "char_to_int") {
                    match &v {
                        Value::Char(c) => Some(Value::Int((*c as u32) as i64)),
                        _ => None,
                    }
                } else if str_eq(name.as_str(), "int_to_char") {
                    match &v {
                        Value::Int(n) => match char_from_u32(*n as u32) {
                            Some(c) => Some(Value::Char(c)),
                            None => None,
                        },
                        _ => None,
                    }
                } else {
                    match &v {
                        Value::Array(vs) => {
                            proof {
                                lemma_values_view(vs@);
                            }
                            Some(Value::Int(vs.len() as i64))
                        },
                        _ => None,
                    }
                };
                match r {
                    Some(x) => {
                        self.signal = Signal::Return(x);
                        Flow::Go
                    },
                    None => Flow::Panic,
                }
            },
            Evaluated::Exit => Flow::Exit,
            Evaluated::Panic => Flow::Panic,
            Evaluated::OutOfFuel => Flow::OutOfFuel,
        }
    }

    /// Binds the parameters of a procedure to the call's arguments, each evaluated and
    /// counted in the call's scope.
    fn bind_params(&mut self, params: &Vec<(String, Option<PrimitiveType>)>, args: &Vec<Expression>, fuel: u64) -> (r: Flow)
        ensures
            ran(r, bind_params(old(self).state(), args_view(params@), exprs_view(args@), 0, fuel as nat), final(self).state()),
        decreases fuel, 2nat,
    {
        if fuel == 0 {
            return Flow::OutOfFuel;
        }
        let ghost ps = args_view(params@);
        let ghost es = exprs_view(args@);
        let ghost st0 = self.state();
        proof {
            lemma_exprs_view(args@);
        }
        let mut i: usize = 0;
        while i < params.len()
            invariant
                fuel > 0,
                st0 == old(self).state(),
                i <= params.len(),
                ps == args_view(params@),
                es == exprs_view(args@),
                es.len() == args.len(),
                forall|k: int| 0 <= k < args.len() ==> #[trigger] es[k] == args@[k]@,
                bind_params(st0, ps, es, 0, fuel as nat) == bind_params(self.state(), ps, es, i as int, fuel as nat),
            decreases params.len() - i,
        {
            if i >= args.len() {
                return Flow::Panic;
            }
            match self.eval_expression(&args[i], fuel - 1) {
                Evaluated::Val(v) => {
                    if !self.count_var() {
                        return Flow::Panic;
                    }
                    let nm = params[i].0.clone();
                    let ghost before = self.variables@;
                    let pair = (nm, v);
                    let ghost gp = pair;
                    self.variables.push(pair);
                    proof {
                        lemma_vars_push(before, gp);
                        assert(ps[i as int].0 == params@[i as int].0@);
                    }
                },
                Evaluated::Exit => {
                    return Flow::Exit;
                },
                Evaluated::Panic => {
                    return Flow::Panic;
                },
                Evaluated::OutOfFuel => {
                    return Flow::OutOfFuel;
                },
            }
            i += 1;
        }
        Flow::Go
    }

    /// Calls a procedure in a scope of its own.
    fn run_call(&mut self, name: &String, args: &Vec<Expression>, fuel: u64) -> (r: Flow)
        ensures
            ran(r, run_call(old(self).state(), name@, exprs_view(args@), fuel as nat), final(self).state()),
        decreases fuel, 3nat,
    {
        if fuel == 0 {
            return Flow::OutOfFuel;
        }
        let f = fuel - 1;
        self.start_scope();
        let r = if str_eq(name.as_str(), "exit") {
            Flow::Exit
        } else if str_eq(name.as_str(), "print") {
            match self.first_arg(args, f) {
                Evaluated::Val(v) => {
                    if push_value(&mut self.output, &v) {
                        Flow::Go
                    } else {
                        Flow::Panic
                    }
                },
                Evaluated::Exit => Flow::Exit,
                Evaluated::Panic => Flow::Panic,
                Evaluated::OutOfFuel => Flow::OutOfFuel,
            }
        } else if str_eq(name.as_str(), "input") {
            let ghost lines = self.input@;
            let line = if self.input.len() == 0 {
                String::new()
            } else {
                proof {
                    lemma_lines_drop_first(lines);
                }
                self.input.remove(0)
            };
            let cs = chars_of(line.as_str());
            let vals = char_values_of(&cs);
            self.signal = Signal::Return(Value::Array(vals));
            proof {
                if lines.len() == 0 {
                    assert(lines_view(self.input@) =~= Seq::<Seq<char>>::empty());
                }
            }
            Flow::Go
        } else if str_eq(name.as_str(), "string_to_int") || str_eq(name.as_str(), "char_to_int") || str_eq(
            name.as_str(),
            "int_to_char",
        ) || str_eq(name.as_str(), "string_len") {
            self.builtin(name, args, f)
        } else {
            match self.find_procedure(name) {
                Some(kind) => match kind {
                    StatementKind::Procedure { args: params, block, .. } => match self.bind_params(params, args, f) {
                        Flow::Go => self.run_block(block, f, 2),
                        other => other,
                    },
                    _ => Flow::Panic,
                },
                None => Flow::Panic,
            }
        };
        match r {
            Flow::Go => if self.end_scope() {
                Flow::Go
            } else {
                Flow::Panic
            },
            other => other,
        }
    }

    /// Runs statements in order. `stop` says when to stop early: 0 never, 1 after a
    /// statement that leaves a `break` or `continue`, 2 after one that leaves a `return`.
    fn run_block(&mut self, b: &'a Vec<Statement>, fuel: u64, stop: u8) -> (r: Flow)
        ensures
            ran(r, run_seq(old(self).state(), stmts_view(b@), 0, fuel as nat, stop as nat), final(self).state()),
        decreases fuel, 2nat,
    {
        if fuel == 0 {
            return Flow::OutOfFuel;
        }
        let ghost bs = stmts_view(b@);
        let ghost st0 = self.state();
        proof {
            lemma_stmts_view(b@);
        }
        let mut i: usize = 0;
        while i < b.len()
            invariant
                fuel > 0,
                st0 == old(self).state(),
                i <= b.len(),
                bs == stmts_view(b@),
                bs.len() == b.len(),
                forall|k: int| 0 <= k < b.len() ==> #[trigger] bs[k] == b@[k]@,
                run_seq(st0, bs, 0, fuel as nat, stop as nat) == run_seq(self.state(), bs, i as int, fuel as nat, stop as nat),
            decreases b.len() - i,
        {
            match self.run_statement(&b[i], fuel - 1) {
                Flow::Go => {
                    let leave = match &self.signal {
                        Signal::Break => stop == 1,
                        Signal::Continue => stop == 1,
                        Signal::Return(_) => stop == 2,
                        Signal::Normal => false,
                    };
                    if leave {
                        return Flow::Go;
                    }
                },
                other => {
                    return other;
                },
            }
            i += 1;
        }
        Flow::Go
    }

    /// Runs a loop body once: a `break` leaves the loop and a `continue` goes round
    /// again, each clearing the signal.
    fn run_round(&mut self, b: &'a Vec<Statement>, fuel: u64) -> (r: Round)
        ensures
            rounded(r, loop_body(old(self).state(), stmts_view(b@), 0, fuel as nat), final(self).state()),
        decreases fuel, 2nat,
    {
        if fuel == 0 {
            return Round::OutOfFuel;
        }
        let ghost bs = stmts_view(b@);
        let ghost st0 = self.state();
        proof {
            lemma_stmts_view(b@);
        }
        let mut i: usize = 0;
        while i < b.len()
            invariant
                fuel > 0,
                st0 == old(self).state(),
                i <= b.len(),
                bs == stmts_view(b@),
                bs.len() == b.len(),
                forall|k: int| 0 <= k < b.len() ==> #[trigger] bs[k] == b@[k]@,
                loop_body(st0, bs, 0, fuel as nat) == loop_body(self.state(), bs, i as int, fuel as nat),
            decreases b.len() - i,
        {
            match self.run_statement(&b[i], fuel - 1) {
                Flow::Go => {
                    let k = match &self.signal {
                        Signal::Break => 1u8,
                        Signal::Continue => 2u8,
                        _ => 0u8,
                    };
                    if k == 1 {
                        self.signal = Signal::Normal;
                        return Round::Broke;
                    } else if k == 2 {
                        self.signal = Signal::Normal;
                        return Round::Again;
                    }
                },
                Flow::Exit => {
                    return Round::Exit;
                },
                Flow::Panic => {
                    return Round::Panic;
                },
                Flow::OutOfFuel => {
                    return Round::OutOfFuel;
                },
            }
            i += 1;
        }
        Round::Again
    }

    /// Runs a `loop` round after round.
    fn run_loop(&mut self, b: &'a Vec<Statement>, fuel: u64) -> (r: Flow)
        ensures
            ran(r, run_loop(old(self).state(), stmts_view(b@), fuel as nat), final(self).state()),
        decreases fuel, 2nat,
    {
        let ghost bs = stmts_view(b@);
        let ghost st0 = self.state();
        let mut fu = fuel;
        loop
            invariant
                fu <= fuel,
                st0 == old(self).state(),
                bs == stmts_view(b@),
                run_loop(st0, bs, fuel as nat) == run_loop(self.state(), bs, fu as nat),
            decreases fu,
        {
            if fu == 0 {
                return Flow::OutOfFuel;
            }
            match self.run_round(b, fu - 1) {
                Round::Broke => {
                    return Flow::Go;
                },
                Round::Again => {
                    fu = fu - 1;
                },
                Round::Exit => {
                    return Flow::Exit;
                },
                Round::Panic => {
                    return Flow::Panic;
                },
                Round::OutOfFuel => {
                    return Flow::OutOfFuel;
                },
            }
        }
    }

    /// Runs a `while` round after round.
    fn run_while(&mut self, c: &Expression, b: &'a Vec<Statement>, fuel: u64) -> (r: Flow)
        ensures
            ran(r, run_while(old(self).state(), c@, stmts_view(b@), fuel as nat), final(self).state()),
        decreases fuel, 2nat,
    {
        let ghost bs = stmts_view(b@);
        let ghost st0 = self.state();
        let mut fu = fuel;
        loop
            invariant
                fu <= fuel,
                st0 == old(self).state(),
                bs == stmts_view(b@),
                run_while(st0, c@, bs, fuel as nat) == run_while(self.state(), c@, bs, fu as nat),
            decreases fu,
        {
            if fu == 0 {
                return Flow::OutOfFuel;
            }
            match self.eval_expression(c, fu - 1) {
                Evaluated::Val(Value::Bool(true)) => match self.run_round(b, fu - 1) {
                    Round::Broke => {
                        return Flow::Go;
                    },
                    Round::Again => {},
                    Round::Exit => {
                        return Flow::Exit;
                    },
                    Round::Panic => {
                        return Flow::Panic;
                    },
                    Round::OutOfFuel => {
                        return Flow::OutOfFuel;
                    },
                },
                Evaluated::Val(Value::Bool(false)) => {
                    return Flow::Go;
                },
                Evaluated::Val(_) => {},
                Evaluated::Exit => {
                    return Flow::Exit;
                },
                Evaluated::Panic => {
                    return Flow::Panic;
                },
                Evaluated::OutOfFuel => {
                    return Flow::OutOfFuel;
                },
            }
            fu = fu - 1;
        }
    }

    /// Runs a statement.
    fn run_statement(&mut self, s: &'a Statement, fuel: u64) -> (r: Flow)
        ensures
            ran(r, run_stmt(old(self).state(), s@, fuel as nat), final(self).state()),
        decreases fuel, 4nat,
    {
        if fuel == 0 {
            return Flow::OutOfFuel;
        }
        let f = fuel - 1;
        match &s.kind {
            StatementKind::Procedure { name, .. } => {
                self.declare_procedure(name, &s.kind);
                Flow::Go
            },
            StatementKind::Call { name, args } => self.run_call(name, args, f),
            StatementKind::Return { value } => match self.eval_expression(value, f) {
                Evaluated::Val(v) => {
                    self.signal = Signal::Return(v);
                    Flow::Go
                },
                Evaluated::Exit => Flow::Exit,
                Evaluated::Panic => Flow::Panic,
                Evaluated::OutOfFuel => Flow::OutOfFuel,
            },
            StatementKind::Declare { name, value, .. } => {
                if !self.count_var() {
                    return Flow::Panic;
                }
                match value {
                    Some(e) => match self.eval_expression(e, f) {
                        Evaluated::Val(x) => {
                            let ghost before = self.variables@;
                            let pair = (name.clone(), x);
                            let ghost gp = pair;
                            self.variables.push(pair);
                            proof {
                                lemma_vars_push(before, gp);
                            }
                            Flow::Go
                        },
                        Evaluated::Exit => Flow::Exit,
                        Evaluated::Panic => Flow::Panic,
                        Evaluated::OutOfFuel => Flow::OutOfFuel,
                    },
                    None => {
                        let ghost before = self.variables@;
                        let pair = (name.clone(), Value::Int(0));
                        let ghost gp = pair;
                        self.variables.push(pair);
                        proof {
                            lemma_vars_push(before, gp);
                        }
                        Flow::Go
                    },
                }
            },
            StatementKind::Assign { dest, src } => self.run_assign(dest, src, f),
            StatementKind::If { cond, block } => {
                self.start_scope();
                let r = match self.eval_expression(cond, f) {
                    Evaluated::Val(Value::Bool(true)) => self.run_block(block, f, 0),
                    Evaluated::Val(_) => Flow::Go,
                    Evaluated::Exit => Flow::Exit,
                    Evaluated::Panic => Flow::Panic,
                    Evaluated::OutOfFuel => Flow::OutOfFuel,
                };
                match r {
                    Flow::Go => if self.end_scope() {
                        Flow::Go
                    } else {
                        Flow::Panic
                    },
                    other => other,
                }
            },
            StatementKind::IfElse { cond, true_block, false_block } => {
                self.start_scope();
                let r = match self.eval_expression(cond, f) {
                    Evaluated::Val(Value::Bool(c)) => {
                        if c {
                            self.run_block(true_block, f, 1)
                        } else {
                            self.run_block(false_block, f, 1)
                        }
                    },
                    Evaluated::Val(_) => Flow::Go,
                    Evaluated::Exit => Flow::Exit,
                    Evaluated::Panic => Flow::Panic,
                    Evaluated::OutOfFuel => Flow::OutOfFuel,
                };
                match r {
                    Flow::Go => if self.end_scope() {
                        Flow::Go
                    } else {
                        Flow::Panic
                    },
                    other => other,
                }
            },
            StatementKind::Loop { block } => {
                self.start_scope();
                let r = self.run_loop(block, f);
                match r {
                    Flow::Go => if self.end_scope() {
                        Flow::Go
                    } else {
                        Flow::Panic
                    },
                    other => other,
                }
            },
            StatementKind::While { cond, block } => {
                self.start_scope();
                let r = self.run_while(cond, block, f);
                match r {
                    Flow::Go => if self.end_scope() {
                        Flow::Go
                    } else {
                        Flow::Panic
                    },
                    other => other,
                }
            },
            StatementKind::Continue => {
                self.signal = Signal::Continue;
                Flow::Go
            },
            StatementKind::Break => {
                self.signal = Signal::Break;
                Flow::Go
            },
        }
    }

    /// Runs an assignment: to a variable, or to an element of an array variable.
    #[verifier::rlimit(50)]
    fn run_assign(&mut self, dest: &Expression, src: &Expression, fuel: u64) -> (r: Flow)
        ensures
            ran(r, run_assign(old(self).state(), dest@, src@, fuel as nat), final(self).state()),
        decreases fuel, 6nat,
    {
        match &dest.kind {
            ExpressionKind::Id(id) => match self.eval_expression(src, fuel) {
                Evaluated::Val(v) => if self.set_value_by_name(id, v) {
                    Flow::Go
                } else {
                    Flow::Panic
                },
                Evaluated::Exit => Flow::Exit,
                Evaluated::Panic => Flow::Panic,
                Evaluated::OutOfFuel => Flow::OutOfFuel,
            },
            ExpressionKind::Call(_, _) => self.assign_element(dest, src, fuel),
            _ => Flow::Panic,
        }
    }

    /// Runs an assignment to an element of an array variable, `a[i] = v`.
    #[verifier::rlimit(100)]
    fn assign_element(&mut self, dest: &Expression, src: &Expression, fuel: u64) -> (r: Flow)
        requires
            dest.kind is Call,
        ensures
            ran(r, run_assign(old(self).state(), dest@, src@, fuel as nat), final(self).state()),
        decreases fuel, 5nat,
    {
        let ExpressionKind::Call(name, args) = &dest.kind else {
            return Flow::Panic;
        };
        proof {
            lemma_exprs_view(args@);
        }
        if !(str_eq(name.as_str(), "[]") && args.len() >= 2) {
            return Flow::Panic;
        }
        let i = match self.eval_expression(&args[1], fuel) {
            Evaluated::Val(Value::Int(i)) => i,
            Evaluated::Val(_) => {
                return Flow::Panic;
            },
            Evaluated::Exit => {
                return Flow::Exit;
            },
            Evaluated::Panic => {
                return Flow::Panic;
            },
            Evaluated::OutOfFuel => {
                return Flow::OutOfFuel;
            },
        };
        let id = match &args[0].kind {
            ExpressionKind::Id(id) => id,
            _ => {
                return Flow::Go;
            },
        };
        let mut values = match self.get_value_by_name(id) {
            Some(Value::Array(values)) => values,
            _ => {
                return Flow::Panic;
            },
        };
        let v = match self.eval_expression(src, fuel) {
            Evaluated::Val(v) => v,
            Evaluated::Exit => {
                return Flow::Exit;
            },
            Evaluated::Panic => {
                return Flow::Panic;
            },
            Evaluated::OutOfFuel => {
                return Flow::OutOfFuel;
            },
        };
        proof {
            lemma_values_view(values@);
        }
        if !(i >= 0 && (i as u64) < (values.len() as u64)) {
            return Flow::Panic;
        }
        let ghost old_values = values@;
        let ghost gv = v;
        values.set(i as usize, v);
        proof {
            lemma_values_update(old_values, i as int, gv);
        }
        if self.set_value_by_name(id, Value::Array(values)) {
            Flow::Go
        } else {
            Flow::Panic
        }
    }
}

} // verus!

verus! {

/// The file to run and whether to print its tree instead, from the command-line words
/// (the program's own name among them): every word but `--ast` names the file, the last
/// one counting.
pub open spec fn run_args(args: Seq<Seq<char>>) -> (Seq<char>, bool)
    decreases args.len(),
{
    if args.len() == 0 {
        (seq![], false)
    } else {
        let (f, d) = run_args(args.drop_last());
        if args.last() == "--ast"@ {
            (f, true)
        } else {
            (args.last(), d)
        }
    }
}

/// Reads the command line of the interpreter: the file to run and whether to print its
/// tree instead; `None` where no file is named.
pub fn parse_run_args(args: &Vec<String>) -> (r: Option<(String, bool)>)
    ensures
        match r {
            Some((f, d)) => run_args(lines_view(args@)) == (f@, d) && f@.len() > 0,
            None => run_args(lines_view(args@)).0.len() == 0,
        },
{
    let ghost a = lines_view(args@);
    let mut filename = String::new();
    let mut debug_ast = false;
    let mut i: usize = 0;
    assert(a.take(0) =~= Seq::<Seq<char>>::empty());
    while i < args.len()
        invariant
            a == lines_view(args@),
            a.len() == args.len(),
            i <= args.len(),
            run_args(a.take(i as int)) == (filename@, debug_ast),
        decreases args.len() - i,
    {
        assert(a.take(i as int + 1).drop_last() =~= a.take(i as int));
        assert(a.take(i as int + 1).last() == args@[i as int]@);
        if str_eq(args[i].as_str(), "--ast") {
            debug_ast = true;
        } else {
            filename = args[i].clone();
        }
        i += 1;
    }
    assert(a.take(i as int) =~= a);
    if filename.as_str().is_empty() {
        None
    } else {
        Some((filename, debug_ast))
    }
}

} // verus!
