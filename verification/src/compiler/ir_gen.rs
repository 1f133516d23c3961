//! Lowering of the back end's syntax tree to intermediate code: literals become constants
//! or data buffers, operations take numbered temporaries whose types go to a type table,
//! and `if`s and loops become numbered labels and jumps.
use vstd::prelude::*;
use crate::syntax_analysis::parser::op::{Op, is_comparison, holds};
use crate::compiler::ir::{Ir, Buffer, Value, IrInstruction, ValueV, InstrV, BufferV, data_view, code_view, value_text};
use crate::symbols::{SymbolTable, assign};
use crate::text::{decimal, push_decimal, string_of, str_eq, chars_of, lemma_decimal_digits, lemma_decimal_injective};

verus! {

/// A node of the tree that the generator reads.
#[derive(Debug, PartialEq)]
pub struct Expression {
    pub kind: ExpressionKind,
}

/// The kinds of nodes: names and literals, calls of the built-in `exit` and `print` with
/// one argument, declarations and assignments, binary operations, `if`, `if`-`else`, loops,
/// `while`, `break`, `continue`, sequences, negation and an element of a named array.
#[derive(Debug, PartialEq)]
pub enum ExpressionKind {
    Identifier(String),
    IntLit(String),
    StringLit(String),
    BoolLit(String),
    ArrayLit(Vec<Expression>),
    Call(String, Box<Expression>),
    Assign(Box<Expression>, Box<Expression>),
    Declare(Box<Expression>, Box<Expression>),
    Op(Box<Expression>, Op, Box<Expression>),
    If(Box<Expression>, Box<Expression>),
    IfElse(Box<Expression>, Box<Expression>, Box<Expression>),
    Loop(Box<Expression>),
    While(Box<Expression>, Box<Expression>),
    Break,
    Continue,
    Sequence(Vec<Expression>),
    Not(Box<Expression>),
    Idx(String, Box<Expression>),
}

/// The value of a node.
pub struct ExprV {
    pub kind: KindV,
}

/// The value of a node kind.
pub enum KindV {
    Identifier(Seq<char>),
    IntLit(Seq<char>),
    StringLit(Seq<char>),
    BoolLit(Seq<char>),
    ArrayLit(Seq<ExprV>),
    Call(Seq<char>, Box<ExprV>),
    Assign(Box<ExprV>, Box<ExprV>),
    Declare(Box<ExprV>, Box<ExprV>),
    Op(Box<ExprV>, Op, Box<ExprV>),
    If(Box<ExprV>, Box<ExprV>),
    IfElse(Box<ExprV>, Box<ExprV>, Box<ExprV>),
    Loop(Box<ExprV>),
    While(Box<ExprV>, Box<ExprV>),
    Break,
    Continue,
    Sequence(Seq<ExprV>),
    Not(Box<ExprV>),
    Idx(Seq<char>, Box<ExprV>),
}

/// The value of a node.
pub open spec fn expr_view(e: Expression) -> ExprV
    decreases e, 1nat,
{
    ExprV { kind: kind_view(e.kind) }
}

/// The value of a node kind.
pub open spec fn kind_view(k: ExpressionKind) -> KindV
    decreases k, 0nat,
{
    match k {
        ExpressionKind::Identifier(s) => KindV::Identifier(s@),
        ExpressionKind::IntLit(s) => KindV::IntLit(s@),
        ExpressionKind::StringLit(s) => KindV::StringLit(s@),
        ExpressionKind::BoolLit(s) => KindV::BoolLit(s@),
        ExpressionKind::ArrayLit(v) => KindV::ArrayLit(exprs_view(v@)),
        ExpressionKind::Call(n, a) => KindV::Call(n@, Box::new(expr_view(*a))),
        ExpressionKind::Assign(a, b) => KindV::Assign(Box::new(expr_view(*a)), Box::new(expr_view(*b))),
        ExpressionKind::Declare(a, b) => KindV::Declare(Box::new(expr_view(*a)), Box::new(expr_view(*b))),
        ExpressionKind::Op(a, op, b) => KindV::Op(Box::new(expr_view(*a)), op, Box::new(expr_view(*b))),
        ExpressionKind::If(a, b) => KindV::If(Box::new(expr_view(*a)), Box::new(expr_view(*b))),
        ExpressionKind::IfElse(a, b, c) => KindV::IfElse(
            Box::new(expr_view(*a)),
            Box::new(expr_view(*b)),
            Box::new(expr_view(*c)),
        ),
        ExpressionKind::Loop(a) => KindV::Loop(Box::new(expr_view(*a))),
        ExpressionKind::While(a, b) => KindV::While(Box::new(expr_view(*a)), Box::new(expr_view(*b))),
        ExpressionKind::Break => KindV::Break,
        ExpressionKind::Continue => KindV::Continue,
        ExpressionKind::Sequence(v) => KindV::Sequence(exprs_view(v@)),
        ExpressionKind::Not(a) => KindV::Not(Box::new(expr_view(*a))),
        ExpressionKind::Idx(n, a) => KindV::Idx(n@, Box::new(expr_view(*a))),
    }
}

/// The values of a sequence of nodes.
pub open spec fn exprs_view(s: Seq<Expression>) -> Seq<ExprV>
    decreases s, 2nat,
{
    if s.len() == 0 {
        seq![]
    } else {
        exprs_view(s.drop_last()).push(expr_view(s.last()))
    }
}

/// The values of a sequence of nodes are the values of its nodes, one for one.
pub proof fn lemma_exprs_view(s: Seq<Expression>)
    ensures
        exprs_view(s).len() == s.len(),
        forall|k: int| 0 <= k < s.len() ==> #[trigger] exprs_view(s)[k] == expr_view(s[k]),
    decreases s.len(),
{
    if s.len() > 0 {
        lemma_exprs_view(s.drop_last());
    }
}

impl View for Expression {
    type V = ExprV;

    open spec fn view(&self) -> ExprV {
        expr_view(*self)
    }
}

/// What generation has made so far: the data and code of the intermediate code, the type
/// table, and the numbers of temporaries, `if`s, loops and buffers used.
#[verifier::ext_equal]
pub struct GenV {
    pub data: Seq<BufferV>,
    pub code: Seq<InstrV>,
    pub table: Seq<(Seq<char>, Seq<char>)>,
    pub tmp: nat,
    pub ifs: nat,
    pub loops: nat,
    pub buf: nat,
}

/// The state with one more instruction at the end of the code.
pub open spec fn emit(st: GenV, i: InstrV) -> GenV {
    GenV { code: st.code.push(i), ..st }
}

/// The state with `name` typed `ty` in the table.
pub open spec fn typed(st: GenV, name: Seq<char>, ty: Seq<char>) -> GenV {
    GenV { table: assign(st.table, name, ty), ..st }
}

/// A name operand.
pub open spec fn ident(s: Seq<char>) -> ValueV {
    ValueV::Identifier { id: s }
}

/// A constant operand.
pub open spec fn constant(s: Seq<char>) -> ValueV {
    ValueV::Constant { value: s }
}

/// A counter can be increased and stay a `u32`.
pub open spec fn can_count(n: nat) -> bool {
    n + 1 <= u32::MAX
}

/// A prefix followed by a number, as in `t3` or `loop_end_2`.
pub open spec fn numbered(p: Seq<char>, n: nat) -> Seq<char> {
    p + decimal(n)
}

/// The number of the loop that `break` and `continue` refer to: the innermost loop around
/// them, or, outside every loop, the number of the last loop begun.
pub open spec fn loop_target(st: GenV, cur: Option<nat>) -> nat {
    match cur {
        Some(n) => n,
        None => st.loops,
    }
}

/// The number of bytes of a character in UTF-8.
pub open spec fn char_width(c: char) -> nat {
    if (c as u32) < 0x80 {
        1
    } else if (c as u32) < 0x800 {
        2
    } else if (c as u32) < 0x10000 {
        3
    } else {
        4
    }
}

/// The number of bytes of a text in UTF-8.
pub open spec fn utf8_len(s: Seq<char>) -> nat
    decreases s.len(),
{
    if s.len() == 0 {
        0
    } else {
        utf8_len(s.drop_last()) + char_width(s.last())
    }
}

/// The integer literals of an array, joined by `, `; `None` if an element is not one.
pub open spec fn int_list(s: Seq<ExprV>) -> Option<Seq<char>>
    decreases s.len(),
{
    if s.len() == 0 {
        Some(seq![])
    } else {
        match int_list(s.drop_last()) {
            None => None,
            Some(p) => match s.last().kind {
                KindV::IntLit(n) => Some(if s.len() == 1 { n } else { p + ", "@ + n }),
                _ => None,
            },
        }
    }
}

/// The size of the first buffer labelled `id`, or 0.
pub open spec fn buffer_size(data: Seq<BufferV>, id: Seq<char>) -> nat
    decreases data.len(),
{
    if data.len() == 0 {
        0
    } else if data[0].label == id {
        data[0].size
    } else {
        buffer_size(data.drop_first(), id)
    }
}

/// The length that `print` is given for an operand: the size of the buffer it names.
pub open spec fn print_size(data: Seq<BufferV>, v: ValueV) -> nat {
    match v {
        ValueV::Identifier { id } => buffer_size(data, id),
        _ => 0,
    }
}

/// The buffers with every label `from` renamed `to`.
pub open spec fn relabel(data: Seq<BufferV>, from: Seq<char>, to: Seq<char>) -> Seq<BufferV> {
    Seq::new(
        data.len(),
        |i: int|
            if data[i].label == from {
                BufferV { label: to, contents: data[i].contents, size: data[i].size }
            } else {
                data[i]
            },
    )
}

/// The comparison that jumps when a comparison fails; `None` for an operator that is no
/// comparison.
pub open spec fn inverse(op: Op) -> Option<Op> {
    match op {
        Op::Eq => Some(Op::Neq),
        Op::Neq => Some(Op::Eq),
        Op::Lt => Some(Op::Geq),
        Op::Leq => Some(Op::Gt),
        Op::Gt => Some(Op::Leq),
        Op::Geq => Some(Op::Lt),
        _ => None,
    }
}

/// The type name of the result of an operator.
pub open spec fn op_type_name(op: Op) -> Seq<char> {
    match op {
        Op::Add | Op::Sub | Op::Mul | Op::Div | Op::Mod => "int"@,
        _ => "bool"@,
    }
}

/// A string literal becomes a buffer `buf_n` holding its text and a newline, of its length
/// in bytes less one.
pub open spec fn gen_string(s: Seq<char>, st: GenV) -> Option<(ValueV, GenV)> {
    if !can_count(st.buf) || utf8_len(s) == 0 || utf8_len(s) > usize::MAX {
        None
    } else {
        let n = st.buf + 1;
        let label = numbered("buf_"@, n);
        let b = BufferV { label, contents: s + ", 10"@, size: (utf8_len(s) - 1) as nat };
        Some((ident(label), GenV { buf: n, data: st.data.push(b), ..st }))
    }
}

/// An array of integer literals becomes a buffer `buf_n` holding them, of their number.
pub open spec fn gen_array(c: Seq<ExprV>, st: GenV) -> Option<(ValueV, GenV)> {
    match int_list(c) {
        None => None,
        Some(text) => if !can_count(st.buf) {
            None
        } else {
            let n = st.buf + 1;
            let label = numbered("buf_"@, n);
            let b = BufferV { label, contents: text, size: c.len() };
            Some((ident(label), GenV { buf: n, data: st.data.push(b), ..st }))
        },
    }
}

/// Code for a tree, given the state so far and the number of the innermost loop around
/// it: the operand that holds its value and the state after it; `None` where generation
/// fails (a call of another procedure, an array of other than integer literals, a condition
/// with an arithmetic operator, an empty sequence or string, or a counter past `u32::MAX`).
pub open spec fn gen(e: ExprV, st: GenV, cur: Option<nat>) -> Option<(ValueV, GenV)>
    decreases e, 1nat,
{
    match e.kind {
        KindV::Identifier(id) => Some((ident(id), st)),
        KindV::IntLit(n) => Some((constant(n), st)),
        KindV::StringLit(s) => gen_string(s, st),
        KindV::BoolLit(b) => Some((constant(if b == "true"@ { "1"@ } else { "0"@ }), st)),
        KindV::ArrayLit(c) => gen_array(c, st),
        KindV::Call(name, arg) => match gen(*arg, st, cur) {
            None => None,
            Some((a, s1)) => if name == "exit"@ {
                Some((a, emit(emit(s1, InstrV::Param { src: a }), InstrV::Call { label: name })))
            } else if name == "print"@ {
                let s2 = emit(emit(s1, InstrV::Param { src: constant("1"@) }), InstrV::Param { src: a });
                let s3 = emit(s2, InstrV::Param { src: constant(decimal(print_size(s1.data, a))) });
                Some((a, emit(s3, InstrV::Call { label: name })))
            } else {
                None
            },
        },
        KindV::Assign(d, s) | KindV::Declare(d, s) => match gen(*d, st, cur) {
            None => None,
            Some((dv, s1)) => match gen_store(dv, *s, s1, cur) {
                None => None,
                Some(s2) => Some((dv, s2)),
            },
        },
        KindV::Op(a, op, b) => if !can_count(st.tmp) {
            None
        } else {
            let n = st.tmp + 1;
            let t = numbered("t"@, n);
            match gen(*a, GenV { tmp: n, ..st }, cur) {
                None => None,
                Some((av, s1)) => match gen(*b, s1, cur) {
                    None => None,
                    Some((bv, s2)) => Some((
                        ident(t),
                        typed(emit(s2, InstrV::Op { dest: ident(t), src1: av, op, src2: bv }), t, op_type_name(op)),
                    )),
                },
            }
        },
        KindV::If(c, body) => if !can_count(st.ifs) {
            None
        } else {
            let n = st.ifs + 1;
            let end = numbered("end_if_"@, n);
            match gen_cond(*c, end, GenV { ifs: n, ..st }, cur) {
                None => None,
                Some(s1) => match gen(*body, s1, cur) {
                    None => None,
                    Some((v, s2)) => Some((v, emit(s2, InstrV::Label(end)))),
                },
            }
        },
        KindV::IfElse(c, a, b) => if !can_count(st.ifs) {
            None
        } else {
            let n = st.ifs + 1;
            let end = numbered("end_if_"@, n);
            let other = numbered("else_"@, n);
            match gen_cond(*c, other, GenV { ifs: n, ..st }, cur) {
                None => None,
                Some(s1) => match gen(*a, s1, cur) {
                    None => None,
                    Some((av, s2)) => match gen(
                        *b,
                        emit(emit(s2, InstrV::Goto { label: end }), InstrV::Label(other)),
                        cur,
                    ) {
                        None => None,
                        Some((_, s3)) => Some((av, emit(s3, InstrV::Label(end)))),
                    },
                },
            }
        },
        KindV::Loop(body) => if !can_count(st.loops) {
            None
        } else {
            let n = st.loops + 1;
            let start = numbered("loop_"@, n);
            let end = numbered("loop_end_"@, n);
            match gen(*body, emit(GenV { loops: n, ..st }, InstrV::Label(start)), Some(n)) {
                None => None,
                Some((v, s1)) => Some((v, emit(emit(s1, InstrV::Goto { label: start }), InstrV::Label(end)))),
            }
        },
        KindV::While(c, body) => if !can_count(st.loops) {
            None
        } else {
            let n = st.loops + 1;
            let start = numbered("loop_"@, n);
            let end = numbered("loop_end_"@, n);
            match gen_cond(*c, end, emit(GenV { loops: n, ..st }, InstrV::Label(start)), Some(n)) {
                None => None,
                Some(s1) => match gen(*body, s1, Some(n)) {
                    None => None,
                    Some((v, s2)) => Some((v, emit(emit(s2, InstrV::Goto { label: start }), InstrV::Label(end)))),
                },
            }
        },
        KindV::Break => Some((
            constant(seq![]),
            emit(st, InstrV::Goto { label: numbered("loop_end_"@, loop_target(st, cur)) }),
        )),
        KindV::Continue => Some((
            constant(seq![]),
            emit(st, InstrV::Goto { label: numbered("loop_"@, loop_target(st, cur)) }),
        )),
        KindV::Sequence(s) => if s.len() == 0 {
            None
        } else {
            gen_list(s, st, cur)
        },
        KindV::Not(a) => if !can_count(st.tmp) {
            None
        } else {
            let n = st.tmp + 1;
            let t = numbered("t"@, n);
            match gen(*a, GenV { tmp: n, ..st }, cur) {
                None => None,
                Some((av, s1)) => Some((ident(t), typed(emit(s1, InstrV::Not { dest: ident(t), src: av }), t, "bool"@))),
            }
        },
        KindV::Idx(id, off) => match gen(*off, st, cur) {
            None => None,
            Some((ov, s1)) => if ov is MemPos {
                if !can_count(s1.tmp) {
                    None
                } else {
                    let n = s1.tmp + 1;
                    let t = numbered("t"@, n);
                    let s2 = typed(emit(GenV { tmp: n, ..s1 }, InstrV::Ass { dest: ident(t), src: ov }), t, "i8"@);
                    Some((ValueV::MemPos { id, offset: t }, s2))
                }
            } else {
                match gen(*off, s1, cur) {
                    None => None,
                    Some((ov2, s2)) => Some((ValueV::MemPos { id, offset: value_text(ov2) }, s2)),
                }
            },
        },
    }
}

/// The code that stores the value of `s` into `dv`: an array's buffer takes the name, a
/// negation or an operation writes straight into it, any other value is assigned to it.
pub open spec fn gen_store(dv: ValueV, s: ExprV, st: GenV, cur: Option<nat>) -> Option<GenV>
    decreases s, 2nat,
{
    match s.kind {
        KindV::ArrayLit(_) => match gen(s, st, cur) {
            None => None,
            Some((bv, s1)) => match (bv, dv) {
                (ValueV::Identifier { id: b }, ValueV::Identifier { id: d }) => Some(
                    GenV { data: relabel(s1.data, b, d), ..s1 },
                ),
                _ => None,
            },
        },
        KindV::Not(x) => match gen(*x, st, cur) {
            None => None,
            Some((xv, s1)) => Some(emit(s1, InstrV::Not { dest: dv, src: xv })),
        },
        KindV::Op(a, op, b) => match gen(*a, st, cur) {
            None => None,
            Some((av, s1)) => match gen(*b, s1, cur) {
                None => None,
                Some((bv, s2)) => Some(emit(s2, InstrV::Op { dest: dv, src1: av, op, src2: bv })),
            },
        },
        _ => match gen(s, st, cur) {
            None => None,
            Some((sv, s1)) => Some(emit(s1, InstrV::Ass { dest: dv, src: sv })),
        },
    }
}

/// The jump to `label` when condition `c` fails: a comparison jumps on its inverse, any
/// other condition when its value is 0.
pub open spec fn gen_cond(c: ExprV, label: Seq<char>, st: GenV, cur: Option<nat>) -> Option<GenV>
    decreases c, 3nat,
{
    match c.kind {
        KindV::Op(a, op, b) => if op != Op::And && op != Op::Or {
            match gen(*a, st, cur) {
                None => None,
                Some((av, s1)) => match gen(*b, s1, cur) {
                    None => None,
                    Some((bv, s2)) => match inverse(op) {
                        None => None,
                        Some(iv) => Some(emit(s2, InstrV::IfGoto { src1: av, src2: bv, cond: iv, label })),
                    },
                },
            }
        } else {
            gen_test(c, label, st, cur)
        },
        _ => gen_test(c, label, st, cur),
    }
}

/// The jump to `label` when the value of `c` is 0.
pub open spec fn gen_test(c: ExprV, label: Seq<char>, st: GenV, cur: Option<nat>) -> Option<GenV>
    decreases c, 2nat,
{
    match gen(c, st, cur) {
        None => None,
        Some((cv, s1)) => Some(emit(s1, InstrV::IfGoto { src1: cv, src2: constant("0"@), cond: Op::Eq, label })),
    }
}

/// Code for trees one after the other; the value is that of the last, an empty constant
/// for none.
pub open spec fn gen_list(s: Seq<ExprV>, st: GenV, cur: Option<nat>) -> Option<(ValueV, GenV)>
    decreases s, 0nat,
{
    if s.len() == 0 {
        Some((constant(seq![]), st))
    } else {
        match gen_list(s.drop_last(), st, cur) {
            None => None,
            Some((_, s1)) => gen(s.last(), s1, cur),
        }
    }
}

/// The state after generating a program's trees from `start_state(table)`; `None` where
/// generation fails.
pub open spec fn program_state(ast: Seq<ExprV>, table: Seq<(Seq<char>, Seq<char>)>) -> Option<GenV> {
    match gen_list(ast, start_state(table), None) {
        Some((_, st)) => Some(st),
        None => None,
    }
}

/// The state before generation: nothing made, an existing type table.
pub open spec fn start_state(table: Seq<(Seq<char>, Seq<char>)>) -> GenV {
    GenV { data: seq![], code: seq![], table, tmp: 0, ifs: 0, loops: 0, buf: 0 }
}

} // verus!

verus! {

struct Nums {
    tmp: u32,
    ifs: u32,
    loops: u32,
    buf: u32,
}

/// The generator: the type table it fills, its counters, and the intermediate code made
/// so far.
pub struct IrGenerator {
    type_table: SymbolTable,
    nums: Nums,
    ir: Ir,
}

spec fn loop_of(cur: Option<u32>) -> Option<nat> {
    match cur {
        Some(n) => Some(n as nat),
        None => None,
    }
}

/// `r` is what generation gave and `st` the state after it.
spec fn result_is(g: Option<(ValueV, GenV)>, r: Option<Value>, st: GenV) -> bool {
    match r {
        Some(v) => g == Some((v@, st)),
        None => g is None,
    }
}

/// `r` tells whether generation succeeded and `st` is the state after it.
spec fn done_is(g: Option<GenV>, r: bool, st: GenV) -> bool {
    if r {
        g == Some(st)
    } else {
        g is None
    }
}

proof fn lemma_code_push(s: Seq<IrInstruction>, i: IrInstruction)
    ensures
        code_view(s.push(i)) == code_view(s).push(i@),
{
    assert(code_view(s.push(i)) =~= code_view(s).push(i@));
}

proof fn lemma_data_push(s: Seq<Buffer>, b: Buffer)
    ensures
        data_view(s.push(b)) == data_view(s).push(b@),
{
    assert(data_view(s.push(b)) =~= data_view(s).push(b@));
}

proof fn lemma_utf8_prefix(s: Seq<char>, k: int)
    requires
        0 <= k <= s.len(),
    ensures
        utf8_len(s.take(k)) <= utf8_len(s),
    decreases s.len(),
{
    if k == s.len() {
        assert(s.take(k) =~= s);
    } else {
        lemma_utf8_prefix(s.drop_last(), k);
        assert(s.drop_last().take(k) =~= s.take(k));
    }
}

proof fn lemma_int_list_prefix(s: Seq<ExprV>, k: int)
    requires
        0 <= k <= s.len(),
        int_list(s.take(k)) is None,
    ensures
        int_list(s) is None,
    decreases s.len(),
{
    if k == s.len() {
        assert(s.take(k) =~= s);
    } else {
        assert(s.drop_last().take(k) =~= s.take(k));
        lemma_int_list_prefix(s.drop_last(), k);
    }
}

proof fn lemma_gen_list_prefix(s: Seq<ExprV>, k: int, st: GenV, cur: Option<nat>)
    requires
        0 <= k <= s.len(),
        gen_list(s.take(k), st, cur) is None,
    ensures
        gen_list(s, st, cur) is None,
    decreases s.len(),
{
    if k == s.len() {
        assert(s.take(k) =~= s);
    } else {
        assert(s.drop_last().take(k) =~= s.take(k));
        lemma_gen_list_prefix(s.drop_last(), k, st, cur);
    }
}

/// The same operand.
fn dup(v: &Value) -> (r: Value)
    ensures
        r@ == v@,
{
    match v {
        Value::Identifier { id } => Value::Identifier { id: id.clone() },
        Value::Constant { value } => Value::Constant { value: value.clone() },
        Value::MemPos { id, offset } => Value::MemPos { id: id.clone(), offset: offset.clone() },
    }
}

fn numbered_string(prefix: &str, n: u32) -> (s: String)
    ensures
        s@ == numbered(prefix@, n as nat),
{
    let mut s = string_of(prefix);
    push_decimal(&mut s, n as u64);
    s
}

/// The length of a text in UTF-8 bytes; `None` if it is past `usize::MAX`.
fn utf8_length(s: &str) -> (r: Option<usize>)
    ensures
        match r {
            Some(n) => n == utf8_len(s@),
            None => utf8_len(s@) > usize::MAX,
        },
{
    let cs = chars_of(s);
    let mut total: usize = 0;
    let mut i: usize = 0;
    while i < cs.len()
        invariant
            cs@ == s@,
            0 <= i <= cs@.len(),
            total == utf8_len(cs@.take(i as int)),
        decreases cs.len() - i,
    {
        let c = cs[i];
        let w: usize = if (c as u32) < 0x80 {
            1
        } else if (c as u32) < 0x800 {
            2
        } else if (c as u32) < 0x10000 {
            3
        } else {
            4
        };
        assert(cs@.take(i as int + 1).drop_last() =~= cs@.take(i as int));
        assert(w == char_width(cs@.take(i as int + 1).last()));
        if total > usize::MAX - w {
            proof {
                lemma_utf8_prefix(s@, i as int + 1);
            }
            return None;
        }
        total = total + w;
        i = i + 1;
    }
    assert(cs@.take(i as int) =~= s@);
    Some(total)
}

/// The size of the first buffer labelled `id`, or 0.
fn find_size(data: &Vec<Buffer>, id: &str) -> (n: usize)
    ensures
        n == buffer_size(data_view(data@), id@),
{
    let ghost dv = data_view(data@);
    let mut i: usize = 0;
    assert(dv.skip(0) =~= dv);
    while i < data.len()
        invariant
            dv == data_view(data@),
            0 <= i <= data@.len(),
            buffer_size(dv, id@) == buffer_size(dv.skip(i as int), id@),
        decreases data.len() - i,
    {
        assert(dv.skip(i as int)[0] == data@[i as int]@);
        if str_eq(data[i].label.as_str(), id) {
            return data[i].size;
        }
        assert(dv.skip(i as int).drop_first() =~= dv.skip(i as int + 1));
        i += 1;
    }
    0
}

impl IrGenerator {
    /// What the generator has made so far.
    pub closed spec fn state(&self) -> GenV {
        GenV {
            data: data_view(self.ir.data@),
            code: code_view(self.ir.code@),
            table: self.type_table@,
            tmp: self.nums.tmp as nat,
            ifs: self.nums.ifs as nat,
            loops: self.nums.loops as nat,
            buf: self.nums.buf as nat,
        }
    }

    fn new(type_table: SymbolTable) -> (g: IrGenerator)
        ensures
            g.state() == start_state(type_table@),
    {
        let g = IrGenerator { type_table, nums: Nums { tmp: 0, ifs: 0, loops: 0, buf: 0 }, ir: Ir::new() };
        assert(g.state() =~= start_state(type_table@));
        g
    }

    fn add(&mut self, i: IrInstruction)
        ensures
            final(self).state() == emit(old(self).state(), i@),
    {
        let ghost c = self.ir.code@;
        let ghost iv = i;
        self.ir.add_instruction(i);
        proof {
            lemma_code_push(c, iv);
        }
        assert(self.state() =~= emit(old(self).state(), iv@));
    }

    fn set_type(&mut self, name: String, ty: &str)
        ensures
            final(self).state() == typed(old(self).state(), name@, ty@),
    {
        self.type_table.set(name, string_of(ty));
        assert(self.state() =~= typed(old(self).state(), name@, ty@));
    }
}

} // verus!

verus! {

impl IrGenerator {
    fn get_value(&mut self, expr: &Expression, cur: Option<u32>) -> (r: Option<Value>)
        ensures
            result_is(gen(expr@, old(self).state(), loop_of(cur)), r, final(self).state()),
        decreases expr, 1nat,
    {
        match &expr.kind {
            ExpressionKind::Identifier(id) => Some(Value::Identifier { id: id.clone() }),
            ExpressionKind::IntLit(n) => Some(Value::Constant { value: n.clone() }),
            ExpressionKind::StringLit(s) => self.get_string_lit(s),
            ExpressionKind::BoolLit(b) => {
                let value = if str_eq(b.as_str(), "true") { string_of("1") } else { string_of("0") };
                Some(Value::Constant { value })
            },
            ExpressionKind::ArrayLit(contents) => self.get_array_lit(contents),
            ExpressionKind::Call(..) => self.get_call(expr, cur),
            ExpressionKind::Assign(dest, src) | ExpressionKind::Declare(dest, src) => {
                let dest_val = match self.get_value(dest, cur) {
                    Some(v) => v,
                    None => return None,
                };
                if self.get_store(&dest_val, src, cur) {
                    Some(dest_val)
                } else {
                    None
                }
            },
            ExpressionKind::Op(..) => self.get_operation(expr, cur),
            ExpressionKind::If(..) => self.get_if(expr, cur),
            ExpressionKind::IfElse(..) => self.get_if_else(expr, cur),
            ExpressionKind::Loop(..) => self.get_loop(expr, cur),
            ExpressionKind::While(..) => self.get_while(expr, cur),
            ExpressionKind::Break => {
                let n = match cur {
                    Some(n) => n,
                    None => self.nums.loops,
                };
                self.add(IrInstruction::Goto { label: numbered_string("loop_end_", n) });
                Some(Value::Constant { value: String::new() })
            },
            ExpressionKind::Continue => {
                let n = match cur {
                    Some(n) => n,
                    None => self.nums.loops,
                };
                self.add(IrInstruction::Goto { label: numbered_string("loop_", n) });
                Some(Value::Constant { value: String::new() })
            },
            ExpressionKind::Sequence(..) => self.get_sequence(expr, cur),
            ExpressionKind::Not(..) => self.get_not(expr, cur),
            ExpressionKind::Idx(..) => self.get_idx(expr, cur),
        }
    }

    fn get_string_lit(&mut self, s: &String) -> (r: Option<Value>)
        ensures
            result_is(gen_string(s@, old(self).state()), r, final(self).state()),
    {
        if self.nums.buf == u32::MAX {
            return None;
        }
        let len = match utf8_length(s.as_str()) {
            Some(n) => n,
            None => return None,
        };
        if len == 0 {
            return None;
        }
        self.nums.buf = self.nums.buf + 1;
        let label = numbered_string("buf_", self.nums.buf);
        let mut contents = s.clone();
        contents.append(", 10");
        let ghost d = self.ir.data@;
        self.ir.add_data(label.clone(), contents, len - 1);
        proof {
            lemma_data_push(d, self.ir.data@.last());
        }
        let ghost expected = gen_string(s@, old(self).state());
        assert(self.state() =~= expected.unwrap().1);
        Some(Value::Identifier { id: label })
    }

    fn get_array_lit(&mut self, contents: &Vec<Expression>) -> (r: Option<Value>)
        ensures
            result_is(gen_array(exprs_view(contents@), old(self).state()), r, final(self).state()),
    {
        let ghost ev = exprs_view(contents@);
        proof {
            lemma_exprs_view(contents@);
        }
        let mut text = String::new();
        let mut i: usize = 0;
        assert(ev.take(0) =~= Seq::<ExprV>::empty());
        while i < contents.len()
            invariant
                ev == exprs_view(contents@),
                ev.len() == contents@.len(),
                forall|k: int| 0 <= k < contents@.len() ==> #[trigger] ev[k] == expr_view(contents@[k]),
                0 <= i <= contents@.len(),
                int_list(ev.take(i as int)) == Some(text@),
                *self == *old(self),
            decreases contents.len() - i,
        {
            assert(ev.take(i as int + 1).drop_last() =~= ev.take(i as int));
            assert(ev.take(i as int + 1).last() == ev[i as int]);
            match &contents[i].kind {
                ExpressionKind::IntLit(n) => {
                    if i > 0 {
                        text.append(", ");
                    }
                    text.append(n.as_str());
                    proof {
                        reveal_strlit(", ");
                    }
                    assert(text@ =~= int_list(ev.take(i as int + 1)).unwrap());
                },
                _ => {
                    proof {
                        lemma_int_list_prefix(ev, i as int + 1);
                    }
                    return None;
                },
            }
            i = i + 1;
        }
        assert(ev.take(i as int) =~= ev);
        if self.nums.buf == u32::MAX {
            return None;
        }
        self.nums.buf = self.nums.buf + 1;
        let label = numbered_string("buf_", self.nums.buf);
        let ghost d = self.ir.data@;
        self.ir.add_data(label.clone(), text, contents.len());
        proof {
            lemma_data_push(d, self.ir.data@.last());
        }
        let ghost expected = gen_array(ev, old(self).state());
        assert(self.state() =~= expected.unwrap().1);
        Some(Value::Identifier { id: label })
    }

    fn get_call(&mut self, expr: &Expression, cur: Option<u32>) -> (r: Option<Value>)
        requires
            expr.kind is Call,
        ensures
            result_is(gen(expr@, old(self).state(), loop_of(cur)), r, final(self).state()),
        decreases expr, 0nat,
    {
        match &expr.kind {
            ExpressionKind::Call(name, arg) => {
                let a = match self.get_value(arg, cur) {
                    Some(v) => v,
                    None => return None,
                };
                let ghost s1 = self.state();
                if str_eq(name.as_str(), "exit") {
                    self.add(IrInstruction::Param { src: dup(&a) });
                } else if str_eq(name.as_str(), "print") {
                    self.add(IrInstruction::Param { src: Value::Constant { value: string_of("1") } });
                    self.add(IrInstruction::Param { src: dup(&a) });
                    let size = match &a {
                        Value::Identifier { id } => find_size(&self.ir.data, id.as_str()),
                        _ => 0,
                    };
                    let mut value = String::new();
                    push_decimal(&mut value, size as u64);
                    self.add(IrInstruction::Param { src: Value::Constant { value } });
                } else {
                    return None;
                }
                self.add(IrInstruction::Call { label: name.clone() });
                Some(a)
            },
            _ => {
                assert(false);
                None
            },
        }
    }

    fn get_store(&mut self, dest_val: &Value, src: &Expression, cur: Option<u32>) -> (r: bool)
        ensures
            done_is(gen_store(dest_val@, src@, old(self).state(), loop_of(cur)), r, final(self).state()),
        decreases src, 2nat,
    {
        match &src.kind {
            ExpressionKind::ArrayLit(..) => {
                let buf = match self.get_value(src, cur) {
                    Some(v) => v,
                    None => return false,
                };
                match (&buf, dest_val) {
                    (Value::Identifier { id: b }, Value::Identifier { id: d }) => {
                        self.relabel(b.as_str(), d);
                        true
                    },
                    _ => false,
                }
            },
            ExpressionKind::Not(x) => {
                let xv = match self.get_value(x, cur) {
                    Some(v) => v,
                    None => return false,
                };
                self.add(IrInstruction::Not { dest: dup(dest_val), src: xv });
                true
            },
            ExpressionKind::Op(a, op, b) => {
                let av = match self.get_value(a, cur) {
                    Some(v) => v,
                    None => return false,
                };
                let bv = match self.get_value(b, cur) {
                    Some(v) => v,
                    None => return false,
                };
                self.add(IrInstruction::Op { dest: dup(dest_val), src1: av, op: *op, src2: bv });
                true
            },
            _ => {
                let sv = match self.get_value(src, cur) {
                    Some(v) => v,
                    None => return false,
                };
                self.add(IrInstruction::Ass { dest: dup(dest_val), src: sv });
                true
            },
        }
    }

    fn relabel(&mut self, from: &str, to: &String)
        ensures
            final(self).state() == (GenV { data: relabel(old(self).state().data, from@, to@), ..old(self).state() }),
    {
        let ghost d0 = data_view(self.ir.data@);
        let mut i: usize = 0;
        while i < self.ir.data.len()
            invariant
                0 <= i <= self.ir.data@.len(),
                self.ir.data@.len() == d0.len(),
                d0 == data_view(old(self).ir.data@),
                self.ir.code@ == old(self).ir.code@,
                self.type_table@ == old(self).type_table@,
                self.nums == old(self).nums,
                forall|k: int| 0 <= k < i ==> #[trigger] self.ir.data@[k]@ == relabel(d0, from@, to@)[k],
                forall|k: int| i <= k < d0.len() ==> #[trigger] self.ir.data@[k]@ == d0[k],
            decreases self.ir.data.len() - i,
        {
            let ghost before = self.ir.data@;
            assert(before[i as int]@ == d0[i as int]);
            if str_eq(self.ir.data[i].label.as_str(), from) {
                let contents = self.ir.data[i].contents.clone();
                let size = self.ir.data[i].size;
                let b = Buffer { label: to.clone(), contents, size };
                self.ir.data.set(i, b);
            }
            assert(self.ir.data@[i as int]@ == relabel(d0, from@, to@)[i as int]);
            assert(forall|k: int| 0 <= k < d0.len() && k != i ==> self.ir.data@[k] == before[k]);
            i += 1;
        }
        assert(data_view(self.ir.data@) =~= relabel(d0, from@, to@));
        assert(self.state() =~= GenV { data: relabel(old(self).state().data, from@, to@), ..old(self).state() });
    }

    fn get_operation(&mut self, expr: &Expression, cur: Option<u32>) -> (r: Option<Value>)
        requires
            expr.kind is Op,
        ensures
            result_is(gen(expr@, old(self).state(), loop_of(cur)), r, final(self).state()),
        decreases expr, 0nat,
    {
        match &expr.kind {
            ExpressionKind::Op(a, op, b) => {
                if self.nums.tmp == u32::MAX {
                    return None;
                }
                self.nums.tmp = self.nums.tmp + 1;
                let t = numbered_string("t", self.nums.tmp);
                assert(self.state() =~= GenV { tmp: old(self).state().tmp + 1, ..old(self).state() });
                let av = match self.get_value(a, cur) {
                    Some(v) => v,
                    None => return None,
                };
                let bv = match self.get_value(b, cur) {
                    Some(v) => v,
                    None => return None,
                };
                self.add(IrInstruction::Op { dest: Value::Identifier { id: t.clone() }, src1: av, op: *op, src2: bv });
                let ty = match op {
                    Op::Add | Op::Sub | Op::Mul | Op::Div | Op::Mod => "int",
                    _ => "bool",
                };
                proof {
                    reveal_strlit("int");
                    reveal_strlit("bool");
                }
                self.set_type(t.clone(), ty);
                Some(Value::Identifier { id: t })
            },
            _ => {
                assert(false);
                None
            },
        }
    }

    fn get_condition(&mut self, cond: &Expression, label: String, cur: Option<u32>) -> (r: bool)
        ensures
            done_is(gen_cond(cond@, label@, old(self).state(), loop_of(cur)), r, final(self).state()),
        decreases cond, 3nat,
    {
        match &cond.kind {
            ExpressionKind::Op(a, op, b) => {
                if *op != Op::And && *op != Op::Or {
                    let av = match self.get_value(a, cur) {
                        Some(v) => v,
                        None => return false,
                    };
                    let bv = match self.get_value(b, cur) {
                        Some(v) => v,
                        None => return false,
                    };
                    let inv = match op {
                        Op::Eq => Op::Neq,
                        Op::Neq => Op::Eq,
                        Op::Lt => Op::Geq,
                        Op::Leq => Op::Gt,
                        Op::Gt => Op::Leq,
                        Op::Geq => Op::Lt,
                        _ => return false,
                    };
                    self.add(IrInstruction::IfGoto { src1: av, src2: bv, cond: inv, label });
                    return true;
                }
                self.get_test(cond, label, cur)
            },
            _ => self.get_test(cond, label, cur),
        }
    }

    fn get_test(&mut self, cond: &Expression, label: String, cur: Option<u32>) -> (r: bool)
        ensures
            done_is(gen_test(cond@, label@, old(self).state(), loop_of(cur)), r, final(self).state()),
        decreases cond, 2nat,
    {
        let cv = match self.get_value(cond, cur) {
            Some(v) => v,
            None => return false,
        };
        self.add(IrInstruction::IfGoto { src1: cv, src2: Value::Constant { value: string_of("0") }, cond: Op::Eq, label });
        true
    }

    fn get_if(&mut self, expr: &Expression, cur: Option<u32>) -> (r: Option<Value>)
        requires
            expr.kind is If,
        ensures
            result_is(gen(expr@, old(self).state(), loop_of(cur)), r, final(self).state()),
        decreases expr, 0nat,
    {
        match &expr.kind {
            ExpressionKind::If(cond, seq) => {
                if self.nums.ifs == u32::MAX {
                    return None;
                }
                self.nums.ifs = self.nums.ifs + 1;
                let n = self.nums.ifs;
                assert(self.state() =~= GenV { ifs: old(self).state().ifs + 1, ..old(self).state() });
                if !self.get_condition(cond, numbered_string("end_if_", n), cur) {
                    return None;
                }
                let v = match self.get_value(seq, cur) {
                    Some(v) => v,
                    None => return None,
                };
                self.add(IrInstruction::Label(numbered_string("end_if_", n)));
                Some(v)
            },
            _ => {
                assert(false);
                None
            },
        }
    }

    fn get_if_else(&mut self, expr: &Expression, cur: Option<u32>) -> (r: Option<Value>)
        requires
            expr.kind is IfElse,
        ensures
            result_is(gen(expr@, old(self).state(), loop_of(cur)), r, final(self).state()),
        decreases expr, 0nat,
    {
        match &expr.kind {
            ExpressionKind::IfElse(cond, if_seq, else_seq) => {
                if self.nums.ifs == u32::MAX {
                    return None;
                }
                self.nums.ifs = self.nums.ifs + 1;
                let n = self.nums.ifs;
                assert(self.state() =~= GenV { ifs: old(self).state().ifs + 1, ..old(self).state() });
                if !self.get_condition(cond, numbered_string("else_", n), cur) {
                    return None;
                }
                let v = match self.get_value(if_seq, cur) {
                    Some(v) => v,
                    None => return None,
                };
                self.add(IrInstruction::Goto { label: numbered_string("end_if_", n) });
                self.add(IrInstruction::Label(numbered_string("else_", n)));
                if self.get_value(else_seq, cur).is_none() {
                    return None;
                }
                self.add(IrInstruction::Label(numbered_string("end_if_", n)));
                Some(v)
            },
            _ => {
                assert(false);
                None
            },
        }
    }

    fn get_loop(&mut self, expr: &Expression, cur: Option<u32>) -> (r: Option<Value>)
        requires
            expr.kind is Loop,
        ensures
            result_is(gen(expr@, old(self).state(), loop_of(cur)), r, final(self).state()),
        decreases expr, 0nat,
    {
        match &expr.kind {
            ExpressionKind::Loop(seq) => {
                if self.nums.loops == u32::MAX {
                    return None;
                }
                self.nums.loops = self.nums.loops + 1;
                let n = self.nums.loops;
                assert(self.state() =~= GenV { loops: old(self).state().loops + 1, ..old(self).state() });
                self.add(IrInstruction::Label(numbered_string("loop_", n)));
                let v = match self.get_value(seq, Some(n)) {
                    Some(v) => v,
                    None => return None,
                };
                self.add(IrInstruction::Goto { label: numbered_string("loop_", n) });
                self.add(IrInstruction::Label(numbered_string("loop_end_", n)));
                Some(v)
            },
            _ => {
                assert(false);
                None
            },
        }
    }

    fn get_while(&mut self, expr: &Expression, cur: Option<u32>) -> (r: Option<Value>)
        requires
            expr.kind is While,
        ensures
            result_is(gen(expr@, old(self).state(), loop_of(cur)), r, final(self).state()),
        decreases expr, 0nat,
    {
        match &expr.kind {
            ExpressionKind::While(cond, seq) => {
                if self.nums.loops == u32::MAX {
                    return None;
                }
                self.nums.loops = self.nums.loops + 1;
                let n = self.nums.loops;
                assert(self.state() =~= GenV { loops: old(self).state().loops + 1, ..old(self).state() });
                self.add(IrInstruction::Label(numbered_string("loop_", n)));
                if !self.get_condition(cond, numbered_string("loop_end_", n), Some(n)) {
                    return None;
                }
                let v = match self.get_value(seq, Some(n)) {
                    Some(v) => v,
                    None => return None,
                };
                self.add(IrInstruction::Goto { label: numbered_string("loop_", n) });
                self.add(IrInstruction::Label(numbered_string("loop_end_", n)));
                Some(v)
            },
            _ => {
                assert(false);
                None
            },
        }
    }

    fn get_not(&mut self, expr: &Expression, cur: Option<u32>) -> (r: Option<Value>)
        requires
            expr.kind is Not,
        ensures
            result_is(gen(expr@, old(self).state(), loop_of(cur)), r, final(self).state()),
        decreases expr, 0nat,
    {
        match &expr.kind {
            ExpressionKind::Not(arg) => {
                if self.nums.tmp == u32::MAX {
                    return None;
                }
                self.nums.tmp = self.nums.tmp + 1;
                let t = numbered_string("t", self.nums.tmp);
                assert(self.state() =~= GenV { tmp: old(self).state().tmp + 1, ..old(self).state() });
                let av = match self.get_value(arg, cur) {
                    Some(v) => v,
                    None => return None,
                };
                self.add(IrInstruction::Not { dest: Value::Identifier { id: t.clone() }, src: av });
                proof {
                    reveal_strlit("bool");
                }
                self.set_type(t.clone(), "bool");
                Some(Value::Identifier { id: t })
            },
            _ => {
                assert(false);
                None
            },
        }
    }

    fn get_idx(&mut self, expr: &Expression, cur: Option<u32>) -> (r: Option<Value>)
        requires
            expr.kind is Idx,
        ensures
            result_is(gen(expr@, old(self).state(), loop_of(cur)), r, final(self).state()),
        decreases expr, 0nat,
    {
        match &expr.kind {
            ExpressionKind::Idx(id, offset) => {
                let ov = match self.get_value(offset, cur) {
                    Some(v) => v,
                    None => return None,
                };
                let off = match ov {
                    Value::MemPos { .. } => {
                        if self.nums.tmp == u32::MAX {
                            return None;
                        }
                        let ghost s1 = self.state();
                        self.nums.tmp = self.nums.tmp + 1;
                        let t = numbered_string("t", self.nums.tmp);
                        assert(self.state() =~= GenV { tmp: s1.tmp + 1, ..s1 });
                        self.add(IrInstruction::Ass { dest: Value::Identifier { id: t.clone() }, src: ov });
                        proof {
                            reveal_strlit("i8");
                        }
                        self.set_type(t.clone(), "i8");
                        t
                    },
                    _ => {
                        match self.get_value(offset, cur) {
                            Some(v) => v.to_string(),
                            None => return None,
                        }
                    },
                };
                Some(Value::MemPos { id: id.clone(), offset: off })
            },
            _ => {
                assert(false);
                None
            },
        }
    }

    fn get_sequence(&mut self, expr: &Expression, cur: Option<u32>) -> (r: Option<Value>)
        requires
            expr.kind is Sequence,
        ensures
            result_is(gen(expr@, old(self).state(), loop_of(cur)), r, final(self).state()),
        decreases expr, 0nat,
    {
        match &expr.kind {
            ExpressionKind::Sequence(seq) => {
                let ghost sv = exprs_view(seq@);
                let ghost s0 = self.state();
                proof {
                    lemma_exprs_view(seq@);
                }
                if seq.len() == 0 {
                    return None;
                }
                let mut last = Value::Constant { value: String::new() };
                let mut k: usize = 0;
                assert(sv.take(0) =~= Seq::<ExprV>::empty());
                while k < seq.len()
                    invariant
                        expr.kind is Sequence,
                        expr.kind->Sequence_0 == *seq,
                        sv == exprs_view(seq@),
                        sv.len() == seq@.len(),
                        seq@.len() > 0,
                        s0 == old(self).state(),
                        expr@.kind == KindV::Sequence(sv),
                        forall|j: int| 0 <= j < seq@.len() ==> #[trigger] sv[j] == expr_view(seq@[j]),
                        0 <= k <= seq.len(),
                        gen_list(sv.take(k as int), s0, loop_of(cur)) == Some((last@, self.state())),
                    decreases seq.len() - k,
                {
                    proof {
                        assert(sv.take(k as int + 1).drop_last() =~= sv.take(k as int));
                        assert(decreases_to!(*expr => expr.kind));
                        assert(decreases_to!(expr.kind => expr.kind->Sequence_0));
                        assert(decreases_to!(*seq => seq@));
                        assert(decreases_to!(seq@ => seq@[k as int]));
                    }
                    last = match self.get_value(&seq[k], cur) {
                        Some(v) => v,
                        None => {
                            proof {
                                lemma_gen_list_prefix(sv, k as int + 1, s0, loop_of(cur));
                            }
                            return None;
                        },
                    };
                    k = k + 1;
                }
                assert(sv.take(k as int) =~= sv);
                Some(last)
            },
            _ => {
                assert(false);
                None
            },
        }
    }
}

/// Intermediate code for a program: its trees one after the other, with temporaries,
/// `if`s, loops and buffers numbered across the whole program, and the types of the
/// temporaries written to `type_table`. `None` where generation fails (see `gen`).
pub fn generate_ir(ast: Vec<Expression>, type_table: &mut SymbolTable) -> (r: Option<Ir>)
    ensures
        match r {
            Some(ir) => program_state(exprs_view(ast@), old(type_table)@) matches Some(st) && data_view(ir.data@)
                == st.data && code_view(ir.code@) == st.code && final(type_table)@ == st.table,
            None => program_state(exprs_view(ast@), old(type_table)@) is None,
        },
{
    let mut table = SymbolTable::new();
    std::mem::swap(&mut table, type_table);
    let mut generator = IrGenerator::new(table);
    let ghost sv = exprs_view(ast@);
    let ghost s0 = generator.state();
    proof {
        lemma_exprs_view(ast@);
    }
    let mut last = Value::Constant { value: String::new() };
    let mut k: usize = 0;
    assert(sv.take(0) =~= Seq::<ExprV>::empty());
    while k < ast.len()
        invariant
            sv == exprs_view(ast@),
            sv.len() == ast@.len(),
            forall|j: int| 0 <= j < ast@.len() ==> #[trigger] sv[j] == expr_view(ast@[j]),
            0 <= k <= ast.len(),
            s0 == start_state(old(type_table)@),
            gen_list(sv.take(k as int), s0, None) == Some((last@, generator.state())),
        decreases ast.len() - k,
    {
        proof {
            assert(sv.take(k as int + 1).drop_last() =~= sv.take(k as int));
        }
        last = match generator.get_value(&ast[k], None) {
            Some(v) => v,
            None => {
                proof {
                    lemma_gen_list_prefix(sv, k as int + 1, s0, None);
                }
                return None;
            },
        };
        k = k + 1;
    }
    assert(sv.take(k as int) =~= sv);
    let IrGenerator { type_table: t, nums: _, ir } = generator;
    *type_table = t;
    Some(ir)
}

} // verus!

verus! {

/// The labels that the instructions define, in order.
pub open spec fn labels_of(is: Seq<InstrV>) -> Seq<Seq<char>>
    decreases is.len(),
{
    if is.len() == 0 {
        seq![]
    } else {
        match is.last() {
            InstrV::Label(l) => labels_of(is.drop_last()).push(l),
            _ => labels_of(is.drop_last()),
        }
    }
}

/// No text occurs twice.
pub open spec fn distinct(s: Seq<Seq<char>>) -> bool {
    forall|i: int, j: int| 0 <= i < j < s.len() ==> s[i] != s[j]
}

/// A label that generation from `a` to `b` may define: the end or the `else` of an `if`
/// numbered after `a.ifs` up to `b.ifs`, or the start or end of a loop numbered after
/// `a.loops` up to `b.loops`.
pub open spec fn label_in(l: Seq<char>, a: GenV, b: GenV) -> bool {
    ||| exists|k: nat| a.ifs < k <= b.ifs && (l == numbered("end_if_"@, k) || l == numbered("else_"@, k))
    ||| exists|k: nat| a.loops < k <= b.loops && (l == numbered("loop_"@, k) || l == numbered("loop_end_"@, k))
}

/// The code that generation from `a` to `b` added.
pub open spec fn added(a: GenV, b: GenV) -> Seq<InstrV> {
    b.code.subrange(a.code.len() as int, b.code.len() as int)
}

/// Generation from `a` to `b` appended to the code, did not decrease the counters, and
/// defined each label at most once, all within its counters' range.
pub open spec fn step(a: GenV, b: GenV) -> bool {
    &&& a.code.len() <= b.code.len()
    &&& b.code.subrange(0, a.code.len() as int) == a.code
    &&& a.ifs <= b.ifs
    &&& a.loops <= b.loops
    &&& distinct(labels_of(added(a, b)))
    &&& forall|i: int| 0 <= i < labels_of(added(a, b)).len() ==> label_in(#[trigger] labels_of(added(a, b))[i], a, b)
}

proof fn lemma_labels_of_concat(a: Seq<InstrV>, b: Seq<InstrV>)
    ensures
        labels_of(a + b) == labels_of(a) + labels_of(b),
    decreases b.len(),
{
    if b.len() == 0 {
        assert(a + b =~= a);
        assert(labels_of(a) + labels_of(b) =~= labels_of(a));
    } else {
        lemma_labels_of_concat(a, b.drop_last());
        assert((a + b).drop_last() =~= a + b.drop_last());
        assert((a + b).last() == b.last());
        match b.last() {
            InstrV::Label(l) => {
                assert(labels_of(a) + labels_of(b) =~= (labels_of(a) + labels_of(b.drop_last())).push(l));
            },
            _ => {
                assert(labels_of(a) + labels_of(b) =~= labels_of(a) + labels_of(b.drop_last()));
            },
        }
    }
}

proof fn lemma_numbered_injective(p: Seq<char>, a: nat, b: nat)
    requires
        numbered(p, a) == numbered(p, b),
    ensures
        a == b,
{
    assert(numbered(p, a).skip(p.len() as int) =~= decimal(a));
    assert(numbered(p, b).skip(p.len() as int) =~= decimal(b));
    lemma_decimal_injective(a, b);
}

/// Labels of different kinds differ, and labels of one kind differ by their numbers.
proof fn lemma_label_kinds(a: nat, b: nat)
    ensures
        numbered("end_if_"@, a) != numbered("else_"@, b),
        numbered("end_if_"@, a) != numbered("loop_"@, b),
        numbered("end_if_"@, a) != numbered("loop_end_"@, b),
        numbered("else_"@, a) != numbered("loop_"@, b),
        numbered("else_"@, a) != numbered("loop_end_"@, b),
        numbered("loop_"@, a) != numbered("loop_end_"@, b),
        numbered("end_if_"@, a) == numbered("end_if_"@, b) ==> a == b,
        numbered("else_"@, a) == numbered("else_"@, b) ==> a == b,
        numbered("loop_"@, a) == numbered("loop_"@, b) ==> a == b,
        numbered("loop_end_"@, a) == numbered("loop_end_"@, b) ==> a == b,
{
    reveal_strlit("end_if_");
    reveal_strlit("else_");
    reveal_strlit("loop_");
    reveal_strlit("loop_end_");
    lemma_decimal_digits(a);
    lemma_decimal_digits(b);
    assert(numbered("end_if_"@, a)[0] == 'e' && numbered("end_if_"@, a)[1] == 'n');
    assert(numbered("else_"@, b)[0] == 'e' && numbered("else_"@, b)[1] == 'l');
    assert(numbered("else_"@, a)[0] == 'e');
    assert(numbered("loop_"@, b)[0] == 'l');
    assert(numbered("loop_end_"@, b)[0] == 'l');
    assert(numbered("loop_"@, a)[5] == decimal(a)[0]);
    assert(numbered("loop_end_"@, b)[5] == 'e');
    if numbered("end_if_"@, a) == numbered("end_if_"@, b) {
        lemma_numbered_injective("end_if_"@, a, b);
    }
    if numbered("else_"@, a) == numbered("else_"@, b) {
        lemma_numbered_injective("else_"@, a, b);
    }
    if numbered("loop_"@, a) == numbered("loop_"@, b) {
        lemma_numbered_injective("loop_"@, a, b);
    }
    if numbered("loop_end_"@, a) == numbered("loop_end_"@, b) {
        lemma_numbered_injective("loop_end_"@, a, b);
    }
}

/// A label numbered after `lo` differs from every label numbered `n` when `n <= lo`.
proof fn lemma_label_after(l: Seq<char>, a: GenV, b: GenV, n: nat, lo_ifs: bool)
    requires
        label_in(l, a, b),
        lo_ifs ==> n <= a.ifs,
        !lo_ifs ==> n <= a.loops,
    ensures
        lo_ifs ==> l != numbered("end_if_"@, n) && l != numbered("else_"@, n),
        !lo_ifs ==> l != numbered("loop_"@, n) && l != numbered("loop_end_"@, n),
{
    if exists|k: nat| a.ifs < k <= b.ifs && (l == numbered("end_if_"@, k) || l == numbered("else_"@, k)) {
        let k = choose|k: nat| a.ifs < k <= b.ifs && (l == numbered("end_if_"@, k) || l == numbered("else_"@, k));
        lemma_label_kinds(k, n);
        lemma_label_kinds(n, k);
    } else {
        let k = choose|k: nat| a.loops < k <= b.loops && (l == numbered("loop_"@, k) || l == numbered("loop_end_"@, k));
        lemma_label_kinds(k, n);
        lemma_label_kinds(n, k);
    }
}

proof fn lemma_ranges_disjoint(l: Seq<char>, a: GenV, b: GenV, c: GenV)
    requires
        a.ifs <= b.ifs,
        a.loops <= b.loops,
    ensures
        !(label_in(l, a, b) && label_in(l, b, c)),
{
    if label_in(l, a, b) && label_in(l, b, c) {
        if exists|k: nat| a.ifs < k <= b.ifs && (l == numbered("end_if_"@, k) || l == numbered("else_"@, k)) {
            let k = choose|k: nat| a.ifs < k <= b.ifs && (l == numbered("end_if_"@, k) || l == numbered("else_"@, k));
            lemma_label_after(l, b, c, k, true);
        } else {
            let k = choose|k: nat| a.loops < k <= b.loops && (l == numbered("loop_"@, k) || l == numbered("loop_end_"@, k));
            lemma_label_after(l, b, c, k, false);
        }
    }
}

proof fn lemma_step_join(a: GenV, b: GenV, c: GenV)
    requires
        step(a, b),
        step(b, c),
    ensures
        step(a, c),
        labels_of(added(a, c)) == labels_of(added(a, b)) + labels_of(added(b, c)),
{
    let x = added(a, b);
    let y = added(b, c);
    assert(c.code.subrange(0, a.code.len() as int) =~= a.code) by {
        assert(c.code.subrange(0, a.code.len() as int) =~= c.code.subrange(0, b.code.len() as int).subrange(0, a.code.len() as int));
    }
    assert(added(a, c) =~= x + y) by {
        assert(x =~= c.code.subrange(0, b.code.len() as int).subrange(a.code.len() as int, b.code.len() as int));
    }
    lemma_labels_of_concat(x, y);
    let lx = labels_of(x);
    let ly = labels_of(y);
    let l = labels_of(added(a, c));
    assert forall|i: int, j: int| 0 <= i < j < l.len() implies l[i] != l[j] by {
        if j < lx.len() {
            assert(l[i] == lx[i] && l[j] == lx[j]);
        } else if i >= lx.len() {
            assert(l[i] == ly[i - lx.len()] && l[j] == ly[j - lx.len()]);
        } else {
            assert(l[i] == lx[i] && l[j] == ly[j - lx.len()]);
            assert(label_in(lx[i], a, b));
            assert(label_in(ly[j - lx.len()], b, c));
            lemma_ranges_disjoint(l[i], a, b, c);
        }
    }
    assert forall|i: int| 0 <= i < l.len() implies label_in(#[trigger] l[i], a, c) by {
        if i < lx.len() {
            assert(l[i] == lx[i]);
            assert(label_in(lx[i], a, b));
        } else {
            assert(l[i] == ly[i - lx.len()]);
            assert(label_in(ly[i - lx.len()], b, c));
        }
    }
}

proof fn lemma_step_same_code(a: GenV, b: GenV)
    requires
        b.code == a.code,
        a.ifs <= b.ifs,
        a.loops <= b.loops,
    ensures
        step(a, b),
{
    assert(b.code.subrange(0, a.code.len() as int) =~= a.code);
    assert(added(a, b) =~= Seq::<InstrV>::empty());
    assert(labels_of(Seq::<InstrV>::empty()) =~= Seq::<Seq<char>>::empty());
}

proof fn lemma_step_emit(a: GenV, i: InstrV)
    requires
        !(i is Label),
    ensures
        step(a, emit(a, i)),
{
    let b = emit(a, i);
    assert(b.code.subrange(0, a.code.len() as int) =~= a.code);
    assert(added(a, b) =~= seq![i]);
    assert(seq![i].drop_last() =~= Seq::<InstrV>::empty());
    assert(labels_of(Seq::<InstrV>::empty()) =~= Seq::<Seq<char>>::empty());
    assert(labels_of(seq![i]) =~= Seq::<Seq<char>>::empty());
}

/// Appending a label that no earlier step defined and that lies in the range of `base`,
/// an earlier state with the same code as `a`.
proof fn lemma_step_label(base: GenV, a: GenV, b: GenV, l: Seq<char>)
    requires
        step(a, b),
        base.code == a.code,
        base.ifs <= a.ifs,
        base.loops <= a.loops,
        forall|i: int| 0 <= i < labels_of(added(a, b)).len() ==> labels_of(added(a, b))[i] != l,
        label_in(l, base, b),
    ensures
        step(base, emit(b, InstrV::Label(l))),
        labels_of(added(base, emit(b, InstrV::Label(l)))) == labels_of(added(a, b)).push(l),
{
    let c = emit(b, InstrV::Label(l));
    assert(c.code.subrange(0, base.code.len() as int) =~= base.code) by {
        assert(c.code.subrange(0, base.code.len() as int) =~= b.code.subrange(0, a.code.len() as int));
    }
    assert(added(base, c) =~= added(a, b).push(InstrV::Label(l)));
    assert(added(a, b).push(InstrV::Label(l)).drop_last() =~= added(a, b));
    let la = labels_of(added(a, b));
    let lc = labels_of(added(base, c));
    assert(lc == la.push(l));
    assert forall|i: int| 0 <= i < lc.len() implies label_in(#[trigger] lc[i], base, c) by {
        if i < la.len() {
            assert(lc[i] == la[i]);
            assert(label_in(la[i], a, b));
        }
    }
}

proof fn lemma_step_emit_join(a: GenV, b: GenV, i: InstrV)
    requires
        step(a, b),
        !(i is Label),
    ensures
        step(a, emit(b, i)),
        labels_of(added(a, emit(b, i))) == labels_of(added(a, b)),
{
    lemma_step_emit(b, i);
    lemma_step_join(a, b, emit(b, i));
    assert(added(b, emit(b, i)) =~= seq![i]);
    assert(seq![i].drop_last() =~= Seq::<InstrV>::empty());
    assert(labels_of(Seq::<InstrV>::empty()) =~= Seq::<Seq<char>>::empty());
    assert(labels_of(added(a, b)) + labels_of(seq![i]) =~= labels_of(added(a, b)));
}

#[verifier::rlimit(50)]
proof fn lemma_gen_step(e: ExprV, st: GenV, cur: Option<nat>)
    ensures
        gen(e, st, cur) matches Some((_, st1)) ==> step(st, st1),
    decreases e, 1nat,
{
    match gen(e, st, cur) {
        None => {},
        Some((v, st1)) => {
            match e.kind {
                KindV::Identifier(_) | KindV::IntLit(_) | KindV::BoolLit(_) | KindV::StringLit(_) | KindV::ArrayLit(_) => {
                    lemma_step_same_code(st, st1);
                },
                KindV::Call(name, arg) => {
                    lemma_gen_step(*arg, st, cur);
                    let (a, s1) = gen(*arg, st, cur).unwrap();
                    if name == "exit"@ {
                        let s2 = emit(s1, InstrV::Param { src: a });
                        lemma_step_emit_join(st, s1, InstrV::Param { src: a });
                        lemma_step_emit_join(st, s2, InstrV::Call { label: name });
                    } else {
                        let s2 = emit(s1, InstrV::Param { src: constant("1"@) });
                        let s3 = emit(s2, InstrV::Param { src: a });
                        let s4 = emit(s3, InstrV::Param { src: constant(decimal(print_size(s1.data, a))) });
                        lemma_step_emit_join(st, s1, InstrV::Param { src: constant("1"@) });
                        lemma_step_emit_join(st, s2, InstrV::Param { src: a });
                        lemma_step_emit_join(st, s3, InstrV::Param { src: constant(decimal(print_size(s1.data, a))) });
                        lemma_step_emit_join(st, s4, InstrV::Call { label: name });
                    }
                },
                KindV::Assign(d, s) | KindV::Declare(d, s) => {
                    lemma_gen_step(*d, st, cur);
                    let (dv, s1) = gen(*d, st, cur).unwrap();
                    lemma_store_step(dv, *s, s1, cur);
                    lemma_step_join(st, s1, st1);
                },
                KindV::Op(a, op, b) => {
                    let n = st.tmp + 1;
                    let t = numbered("t"@, n);
                    let a0 = GenV { tmp: n, ..st };
                    lemma_step_same_code(st, a0);
                    lemma_gen_step(*a, a0, cur);
                    let (av, s1) = gen(*a, a0, cur).unwrap();
                    lemma_gen_step(*b, s1, cur);
                    let (bv, s2) = gen(*b, s1, cur).unwrap();
                    lemma_step_join(st, a0, s1);
                    lemma_step_join(st, s1, s2);
                    let i = InstrV::Op { dest: ident(t), src1: av, op, src2: bv };
                    lemma_step_emit_join(st, s2, i);
                    lemma_step_same_code(emit(s2, i), st1);
                    lemma_step_join(st, emit(s2, i), st1);
                },
                KindV::If(..) | KindV::IfElse(..) | KindV::Loop(..) | KindV::While(..) => lemma_control_step(e, st, cur),
                KindV::Break | KindV::Continue => {
                    lemma_step_emit(st, st1.code.last());
                    assert(emit(st, st1.code.last()) == st1);
                },
                KindV::Sequence(s) => lemma_list_step(s, st, cur),
                KindV::Not(a) => {
                    let n = st.tmp + 1;
                    let t = numbered("t"@, n);
                    let a0 = GenV { tmp: n, ..st };
                    lemma_step_same_code(st, a0);
                    lemma_gen_step(*a, a0, cur);
                    let (av, s1) = gen(*a, a0, cur).unwrap();
                    lemma_step_join(st, a0, s1);
                    let i = InstrV::Not { dest: ident(t), src: av };
                    lemma_step_emit_join(st, s1, i);
                    lemma_step_same_code(emit(s1, i), st1);
                    lemma_step_join(st, emit(s1, i), st1);
                },
                KindV::Idx(id, off) => {
                    lemma_gen_step(*off, st, cur);
                    let (ov, s1) = gen(*off, st, cur).unwrap();
                    if ov is MemPos {
                        let n = s1.tmp + 1;
                        let t = numbered("t"@, n);
                        let a0 = GenV { tmp: n, ..s1 };
                        lemma_step_same_code(s1, a0);
                        lemma_step_join(st, s1, a0);
                        let i = InstrV::Ass { dest: ident(t), src: ov };
                        lemma_step_emit_join(st, a0, i);
                        lemma_step_same_code(emit(a0, i), st1);
                        lemma_step_join(st, emit(a0, i), st1);
                    } else {
                        lemma_gen_step(*off, s1, cur);
                        lemma_step_join(st, s1, st1);
                    }
                },
            }
        },
    }
}

#[verifier::rlimit(50)]
proof fn lemma_control_step(e: ExprV, st: GenV, cur: Option<nat>)
    requires
        e.kind is If || e.kind is IfElse || e.kind is Loop || e.kind is While,
    ensures
        gen(e, st, cur) matches Some((_, st1)) ==> step(st, st1),
    decreases e, 0nat,
{
    match gen(e, st, cur) {
        None => {},
        Some((v, st1)) => {
            match e.kind {
                KindV::If(c, body) => {
                    let n = st.ifs + 1;
                    let end = numbered("end_if_"@, n);
                    let a1 = GenV { ifs: n, ..st };
                    lemma_cond_step(*c, end, a1, cur);
                    let s1 = gen_cond(*c, end, a1, cur).unwrap();
                    lemma_gen_step(*body, s1, cur);
                    let s2 = gen(*body, s1, cur).unwrap().1;
                    lemma_step_join(a1, s1, s2);
                    let la = labels_of(added(a1, s2));
                    assert forall|i: int| 0 <= i < la.len() implies la[i] != end by {
                        lemma_label_after(la[i], a1, s2, n, true);
                    }
                    lemma_step_label(st, a1, s2, end);
                },
                KindV::IfElse(c, a, b) => {
                    let n = st.ifs + 1;
                    let end = numbered("end_if_"@, n);
                    let other = numbered("else_"@, n);
                    let a1 = GenV { ifs: n, ..st };
                    lemma_cond_step(*c, other, a1, cur);
                    let s1 = gen_cond(*c, other, a1, cur).unwrap();
                    lemma_gen_step(*a, s1, cur);
                    let s2 = gen(*a, s1, cur).unwrap().1;
                    lemma_step_join(a1, s1, s2);
                    let s2g = emit(s2, InstrV::Goto { label: end });
                    lemma_step_emit_join(a1, s2, InstrV::Goto { label: end });
                    let la = labels_of(added(a1, s2g));
                    assert forall|i: int| 0 <= i < la.len() implies la[i] != other && la[i] != end by {
                        lemma_label_after(la[i], a1, s2g, n, true);
                    }
                    lemma_step_label(st, a1, s2g, other);
                    let s2l = emit(s2g, InstrV::Label(other));
                    lemma_gen_step(*b, s2l, cur);
                    let s3 = gen(*b, s2l, cur).unwrap().1;
                    lemma_step_join(st, s2l, s3);
                    let lb = labels_of(added(s2l, s3));
                    let lall = labels_of(added(st, s3));
                    lemma_label_kinds(n, n);
                    assert forall|i: int| 0 <= i < lall.len() implies lall[i] != end by {
                        if i < la.len() {
                            assert(lall[i] == la[i]);
                        } else if i == la.len() {
                            assert(lall[i] == other);
                        } else {
                            assert(lall[i] == lb[i - la.len() - 1]);
                            lemma_label_after(lb[i - la.len() - 1], s2l, s3, n, true);
                        }
                    }
                    lemma_step_label(st, st, s3, end);
                },
                KindV::Loop(body) => {
                    let n = st.loops + 1;
                    let start = numbered("loop_"@, n);
                    let end = numbered("loop_end_"@, n);
                    let a0 = GenV { loops: n, ..st };
                    lemma_step_same_code(a0, a0);
                    assert(labels_of(added(a0, a0)) =~= Seq::<Seq<char>>::empty()) by {
                        assert(added(a0, a0) =~= Seq::<InstrV>::empty());
                    }
                    lemma_step_label(st, a0, a0, start);
                    let a1 = emit(a0, InstrV::Label(start));
                    lemma_gen_step(*body, a1, Some(n));
                    let s1 = gen(*body, a1, Some(n)).unwrap().1;
                    lemma_step_join(st, a1, s1);
                    let s1g = emit(s1, InstrV::Goto { label: start });
                    lemma_step_emit_join(st, s1, InstrV::Goto { label: start });
                    let lb = labels_of(added(a1, s1));
                    let lall = labels_of(added(st, s1g));
                    lemma_label_kinds(n, n);
                    assert forall|i: int| 0 <= i < lall.len() implies lall[i] != end by {
                        if i == 0 {
                            assert(lall[i] == start);
                        } else {
                            assert(lall[i] == lb[i - 1]);
                            lemma_label_after(lb[i - 1], a1, s1, n, false);
                        }
                    }
                    lemma_step_label(st, st, s1g, end);
                },
                KindV::While(c, body) => {
                    let n = st.loops + 1;
                    let start = numbered("loop_"@, n);
                    let end = numbered("loop_end_"@, n);
                    let a0 = GenV { loops: n, ..st };
                    lemma_step_same_code(a0, a0);
                    assert(labels_of(added(a0, a0)) =~= Seq::<Seq<char>>::empty()) by {
                        assert(added(a0, a0) =~= Seq::<InstrV>::empty());
                    }
                    lemma_step_label(st, a0, a0, start);
                    let a1 = emit(a0, InstrV::Label(start));
                    lemma_cond_step(*c, end, a1, Some(n));
                    let s1 = gen_cond(*c, end, a1, Some(n)).unwrap();
                    lemma_gen_step(*body, s1, Some(n));
                    let s2 = gen(*body, s1, Some(n)).unwrap().1;
                    lemma_step_join(a1, s1, s2);
                    lemma_step_join(st, a1, s2);
                    let s2g = emit(s2, InstrV::Goto { label: start });
                    lemma_step_emit_join(st, s2, InstrV::Goto { label: start });
                    let lb = labels_of(added(a1, s2));
                    let lall = labels_of(added(st, s2g));
                    lemma_label_kinds(n, n);
                    assert forall|i: int| 0 <= i < lall.len() implies lall[i] != end by {
                        if i == 0 {
                            assert(lall[i] == start);
                        } else {
                            assert(lall[i] == lb[i - 1]);
                            lemma_label_after(lb[i - 1], a1, s2, n, false);
                        }
                    }
                    lemma_step_label(st, st, s2g, end);
                },
                _ => {},
            }
        },
    }
}

proof fn lemma_store_step(dv: ValueV, s: ExprV, st: GenV, cur: Option<nat>)
    ensures
        gen_store(dv, s, st, cur) matches Some(st1) ==> step(st, st1),
    decreases s, 2nat,
{
    match gen_store(dv, s, st, cur) {
        None => {},
        Some(st1) => match s.kind {
            KindV::ArrayLit(_) => {
                lemma_gen_step(s, st, cur);
                let s1 = gen(s, st, cur).unwrap().1;
                lemma_step_same_code(s1, st1);
                lemma_step_join(st, s1, st1);
            },
            KindV::Not(x) => {
                lemma_gen_step(*x, st, cur);
                let (xv, s1) = gen(*x, st, cur).unwrap();
                lemma_step_emit_join(st, s1, InstrV::Not { dest: dv, src: xv });
            },
            KindV::Op(a, op, b) => {
                lemma_gen_step(*a, st, cur);
                let (av, s1) = gen(*a, st, cur).unwrap();
                lemma_gen_step(*b, s1, cur);
                let (bv, s2) = gen(*b, s1, cur).unwrap();
                lemma_step_join(st, s1, s2);
                lemma_step_emit_join(st, s2, InstrV::Op { dest: dv, src1: av, op, src2: bv });
            },
            _ => {
                lemma_gen_step(s, st, cur);
                let (sv, s1) = gen(s, st, cur).unwrap();
                lemma_step_emit_join(st, s1, InstrV::Ass { dest: dv, src: sv });
            },
        },
    }
}

proof fn lemma_cond_step(c: ExprV, label: Seq<char>, st: GenV, cur: Option<nat>)
    ensures
        gen_cond(c, label, st, cur) matches Some(st1) ==> step(st, st1),
    decreases c, 3nat,
{
    match c.kind {
        KindV::Op(a, op, b) => if op != Op::And && op != Op::Or {
            lemma_gen_step(*a, st, cur);
            match gen(*a, st, cur) {
                Some((av, s1)) => {
                    lemma_gen_step(*b, s1, cur);
                    match gen(*b, s1, cur) {
                        Some((bv, s2)) => {
                            lemma_step_join(st, s1, s2);
                            match inverse(op) {
                                Some(iv) => lemma_step_emit_join(st, s2, InstrV::IfGoto { src1: av, src2: bv, cond: iv, label }),
                                None => {},
                            }
                        },
                        None => {},
                    }
                },
                None => {},
            }
        } else {
            lemma_test_step(c, label, st, cur);
        },
        _ => lemma_test_step(c, label, st, cur),
    }
}

proof fn lemma_test_step(c: ExprV, label: Seq<char>, st: GenV, cur: Option<nat>)
    ensures
        gen_test(c, label, st, cur) matches Some(st1) ==> step(st, st1),
    decreases c, 2nat,
{
    lemma_gen_step(c, st, cur);
    match gen(c, st, cur) {
        Some((cv, s1)) => lemma_step_emit_join(st, s1, InstrV::IfGoto { src1: cv, src2: constant("0"@), cond: Op::Eq, label }),
        None => {},
    }
}

proof fn lemma_list_step(s: Seq<ExprV>, st: GenV, cur: Option<nat>)
    ensures
        gen_list(s, st, cur) matches Some((_, st1)) ==> step(st, st1),
    decreases s, 0nat,
{
    if s.len() == 0 {
        lemma_step_same_code(st, st);
    } else {
        lemma_list_step(s.drop_last(), st, cur);
        match gen_list(s.drop_last(), st, cur) {
            Some((_, s1)) => {
                lemma_gen_step(s.last(), s1, cur);
                match gen(s.last(), s1, cur) {
                    Some((_, s2)) => lemma_step_join(st, s1, s2),
                    None => {},
                }
            },
            None => {},
        }
    }
}

/// In the intermediate code generated for a program, every label is defined at most once:
/// `if`s and loops take their numbers on entry, so a label's number tells apart the `if` or
/// loop it belongs to.
pub proof fn lemma_labels_unique(ast: Seq<ExprV>, table: Seq<(Seq<char>, Seq<char>)>)
    ensures
        program_state(ast, table) matches Some(st) ==> distinct(labels_of(st.code)),
{
    lemma_list_step(ast, start_state(table), None);
    match gen_list(ast, start_state(table), None) {
        Some((_, st)) => {
            assert(added(start_state(table), st) =~= st.code);
        },
        None => {},
    }
}

} // verus!

verus! {

/// The labels that the instructions jump to, in order.
pub open spec fn jumps_of(is: Seq<InstrV>) -> Seq<Seq<char>>
    decreases is.len(),
{
    if is.len() == 0 {
        seq![]
    } else {
        match is.last() {
            InstrV::Goto { label } => jumps_of(is.drop_last()).push(label),
            InstrV::IfGoto { label, .. } => jumps_of(is.drop_last()).push(label),
            _ => jumps_of(is.drop_last()),
        }
    }
}

/// A `break` or `continue` in the tree that no loop of the tree encloses.
pub open spec fn free_jump(e: ExprV) -> bool
    decreases e, 1nat,
{
    match e.kind {
        KindV::Break | KindV::Continue => true,
        KindV::Loop(_) => false,
        KindV::While(c, _) => free_jump(*c),
        KindV::Sequence(s) | KindV::ArrayLit(s) => free_jump_any(s),
        KindV::Assign(a, b) | KindV::Declare(a, b) | KindV::Op(a, _, b) | KindV::If(a, b) => free_jump(*a) || free_jump(*b),
        KindV::IfElse(a, b, c) => free_jump(*a) || free_jump(*b) || free_jump(*c),
        KindV::Call(_, a) | KindV::Not(a) | KindV::Idx(_, a) => free_jump(*a),
        _ => false,
    }
}

/// A `break` or `continue` outside every loop in one of the trees.
pub open spec fn free_jump_any(s: Seq<ExprV>) -> bool
    decreases s, 0nat,
{
    if s.len() == 0 {
        false
    } else {
        free_jump_any(s.drop_last()) || free_jump(s.last())
    }
}

/// A jump target that the code around may define: the start or end of the loop `cur`
/// around the code, a label of `extra`, or, where the code has a `break` or `continue`
/// outside every loop, wherever that goes.
pub open spec fn target_ok(l: Seq<char>, cur: Option<nat>, free: bool, extra: Set<Seq<char>>) -> bool {
    ||| cur matches Some(m) && (l == numbered("loop_"@, m) || l == numbered("loop_end_"@, m))
    ||| cur is None && free
    ||| extra.contains(l)
}

/// Every jump that generation from `a` to `b` added goes to a label it added or to a
/// target that `target_ok` allows.
pub open spec fn jumps_ok(a: GenV, b: GenV, cur: Option<nat>, free: bool, extra: Set<Seq<char>>) -> bool {
    forall|j: int| 0 <= j < jumps_of(added(a, b)).len() ==> labels_of(added(a, b)).contains(#[trigger] jumps_of(added(a, b))[j])
        || target_ok(jumps_of(added(a, b))[j], cur, free, extra)
}

proof fn lemma_jumps_of_concat(a: Seq<InstrV>, b: Seq<InstrV>)
    ensures
        jumps_of(a + b) == jumps_of(a) + jumps_of(b),
    decreases b.len(),
{
    if b.len() == 0 {
        assert(a + b =~= a);
        assert(jumps_of(a) + jumps_of(b) =~= jumps_of(a));
    } else {
        lemma_jumps_of_concat(a, b.drop_last());
        assert((a + b).drop_last() =~= a + b.drop_last());
        assert((a + b).last() == b.last());
        match b.last() {
            InstrV::Goto { label } => {
                assert(jumps_of(a) + jumps_of(b) =~= (jumps_of(a) + jumps_of(b.drop_last())).push(label));
            },
            InstrV::IfGoto { label, .. } => {
                assert(jumps_of(a) + jumps_of(b) =~= (jumps_of(a) + jumps_of(b.drop_last())).push(label));
            },
            _ => {
                assert(jumps_of(a) + jumps_of(b) =~= jumps_of(a) + jumps_of(b.drop_last()));
            },
        }
    }
}

proof fn lemma_added_split(a: GenV, b: GenV, c: GenV)
    requires
        step(a, b),
        step(b, c),
    ensures
        added(a, c) == added(a, b) + added(b, c),
        labels_of(added(a, c)) == labels_of(added(a, b)) + labels_of(added(b, c)),
        jumps_of(added(a, c)) == jumps_of(added(a, b)) + jumps_of(added(b, c)),
{
    lemma_step_join(a, b, c);
    assert(added(a, c) =~= added(a, b) + added(b, c)) by {
        assert(added(a, b) =~= c.code.subrange(0, b.code.len() as int).subrange(a.code.len() as int, b.code.len() as int));
    }
    lemma_labels_of_concat(added(a, b), added(b, c));
    lemma_jumps_of_concat(added(a, b), added(b, c));
}

/// Joining two pieces of code keeps `jumps_ok`, with the targets that either allows.
proof fn lemma_jumps_join(a: GenV, b: GenV, c: GenV, cur: Option<nat>, f1: bool, f2: bool, x1: Set<Seq<char>>, x2: Set<Seq<char>>)
    requires
        step(a, b),
        step(b, c),
        jumps_ok(a, b, cur, f1, x1),
        jumps_ok(b, c, cur, f2, x2),
    ensures
        jumps_ok(a, c, cur, f1 || f2, x1 + x2),
{
    lemma_added_split(a, b, c);
    let la = labels_of(added(a, b));
    let lb = labels_of(added(b, c));
    let l = labels_of(added(a, c));
    let ja = jumps_of(added(a, b));
    let jb = jumps_of(added(b, c));
    let jc = jumps_of(added(a, c));
    assert forall|j: int| 0 <= j < jc.len() implies l.contains(#[trigger] jc[j]) || target_ok(jc[j], cur, f1 || f2, x1 + x2) by {
        if j < ja.len() {
            assert(jc[j] == ja[j]);
            if la.contains(ja[j]) {
                let k = choose|k: int| 0 <= k < la.len() && la[k] == ja[j];
                assert(l[k] == la[k]);
            }
        } else {
            assert(jc[j] == jb[j - ja.len()]);
            if lb.contains(jb[j - ja.len()]) {
                let k = choose|k: int| 0 <= k < lb.len() && lb[k] == jb[j - ja.len()];
                assert(l[k + la.len()] == lb[k]);
            }
        }
    }
}

/// Code with no jumps.
proof fn lemma_jumps_none(a: GenV, b: GenV, cur: Option<nat>, f: bool, x: Set<Seq<char>>)
    requires
        jumps_of(added(a, b)).len() == 0,
    ensures
        jumps_ok(a, b, cur, f, x),
{
}

proof fn lemma_jumps_same_code(a: GenV, b: GenV, cur: Option<nat>, f: bool, x: Set<Seq<char>>)
    requires
        b.code == a.code,
    ensures
        jumps_ok(a, b, cur, f, x),
{
    assert(added(a, b) =~= Seq::<InstrV>::empty());
    assert(jumps_of(Seq::<InstrV>::empty()) =~= Seq::<Seq<char>>::empty());
}

/// One instruction more: a jump whose target is allowed, or no jump.
proof fn lemma_jumps_emit(a: GenV, i: InstrV, cur: Option<nat>, f: bool, x: Set<Seq<char>>)
    requires
        !(i is Label),
        i is Goto ==> target_ok(i->Goto_label, cur, f, x),
        i is IfGoto ==> target_ok(i->IfGoto_label, cur, f, x),
    ensures
        jumps_ok(a, emit(a, i), cur, f, x),
{
    let b = emit(a, i);
    assert(added(a, b) =~= seq![i]);
    assert(seq![i].drop_last() =~= Seq::<InstrV>::empty());
    assert(jumps_of(Seq::<InstrV>::empty()) =~= Seq::<Seq<char>>::empty());
}

/// A label appended after code makes the jumps to it resolved.
proof fn lemma_jumps_label(base: GenV, a: GenV, b: GenV, l: Seq<char>, cur: Option<nat>, f: bool, x: Set<Seq<char>>)
    requires
        step(a, b),
        base.code == a.code,
        jumps_ok(a, b, cur, f, x.insert(l)),
    ensures
        jumps_ok(base, emit(b, InstrV::Label(l)), cur, f, x),
{
    let c = emit(b, InstrV::Label(l));
    assert(added(base, c) =~= added(a, b).push(InstrV::Label(l)));
    assert(added(a, b).push(InstrV::Label(l)).drop_last() =~= added(a, b));
    let la = labels_of(added(a, b));
    let lc = labels_of(added(base, c));
    assert(lc == la.push(l));
    assert(jumps_of(added(base, c)) == jumps_of(added(a, b)));
    assert forall|j: int| 0 <= j < jumps_of(added(base, c)).len() implies lc.contains(#[trigger] jumps_of(added(base, c))[j])
        || target_ok(jumps_of(added(base, c))[j], cur, f, x) by {
        let t = jumps_of(added(a, b))[j];
        if la.contains(t) {
            let k = choose|k: int| 0 <= k < la.len() && la[k] == t;
            assert(lc[k] == la[k]);
        } else if t == l {
            assert(lc[la.len() as int] == l);
        }
    }
}

/// Widening the allowed targets.
proof fn lemma_jumps_weaken(a: GenV, b: GenV, cur: Option<nat>, f: bool, x: Set<Seq<char>>, cur2: Option<nat>, g: bool, y: Set<Seq<char>>)
    requires
        jumps_ok(a, b, cur, f, x),
        x.subset_of(y),
        (cur is None && f) ==> (cur2 is None && g),
        cur matches Some(m) ==> cur2 == cur || (y.contains(numbered("loop_"@, m)) && y.contains(numbered("loop_end_"@, m))),
    ensures
        jumps_ok(a, b, cur2, g, y),
{
    assert forall|j: int| 0 <= j < jumps_of(added(a, b)).len() implies labels_of(added(a, b)).contains(#[trigger] jumps_of(added(a, b))[j])
        || target_ok(jumps_of(added(a, b))[j], cur2, g, y) by {
        let t = jumps_of(added(a, b))[j];
        if x.contains(t) {
            assert(y.contains(t));
        }
    }
}

} // verus!

verus! {

/// A target that the code's own labels define needs no other allowance.
proof fn lemma_jumps_resolved(a: GenV, b: GenV, cur: Option<nat>, f: bool, x: Set<Seq<char>>, l: Seq<char>)
    requires
        jumps_ok(a, b, cur, f, x.insert(l)),
        labels_of(added(a, b)).contains(l),
    ensures
        jumps_ok(a, b, cur, f, x),
{
    assert forall|j: int| 0 <= j < jumps_of(added(a, b)).len() implies labels_of(added(a, b)).contains(#[trigger] jumps_of(added(a, b))[j])
        || target_ok(jumps_of(added(a, b))[j], cur, f, x) by {
        let t = jumps_of(added(a, b))[j];
        if t == l {
        } else if x.insert(l).contains(t) {
            assert(x.contains(t));
        }
    }
}

/// Two pieces with no targets allowed beyond the loop around them.
proof fn lemma_jumps_chain(a: GenV, b: GenV, c: GenV, cur: Option<nat>, f1: bool, f2: bool, g: bool)
    requires
        step(a, b),
        step(b, c),
        jumps_ok(a, b, cur, f1, Set::empty()),
        jumps_ok(b, c, cur, f2, Set::empty()),
        (f1 || f2) ==> g,
    ensures
        jumps_ok(a, c, cur, g, Set::empty()),
        step(a, c),
{
    lemma_jumps_join(a, b, c, cur, f1, f2, Set::empty(), Set::empty());
    lemma_step_join(a, b, c);
    lemma_jumps_weaken(a, c, cur, f1 || f2, Set::<Seq<char>>::empty() + Set::<Seq<char>>::empty(), cur, g, Set::empty());
}

/// Code followed by an instruction that neither defines nor jumps to a label.
proof fn lemma_jumps_then(a: GenV, b: GenV, i: InstrV, cur: Option<nat>, f: bool)
    requires
        step(a, b),
        jumps_ok(a, b, cur, f, Set::empty()),
        !(i is Label),
        !(i is Goto),
        !(i is IfGoto),
    ensures
        jumps_ok(a, emit(b, i), cur, f, Set::empty()),
        step(a, emit(b, i)),
{
    lemma_step_emit(b, i);
    lemma_jumps_emit(b, i, cur, f, Set::empty());
    lemma_jumps_chain(a, b, emit(b, i), cur, f, f, f);
}

proof fn lemma_gen_jumps(e: ExprV, st: GenV, cur: Option<nat>)
    ensures
        gen(e, st, cur) matches Some((_, st1)) ==> jumps_ok(st, st1, cur, free_jump(e), Set::empty()),
    decreases e, 2nat,
{
    lemma_gen_step(e, st, cur);
    match gen(e, st, cur) {
        None => {},
        Some((v, st1)) => {
            match e.kind {
                KindV::Identifier(_) | KindV::IntLit(_) | KindV::BoolLit(_) | KindV::StringLit(_) | KindV::ArrayLit(_) => {
                    lemma_jumps_same_code(st, st1, cur, free_jump(e), Set::empty());
                },
                KindV::Call(name, arg) => {
                    lemma_gen_jumps(*arg, st, cur);
                    lemma_gen_step(*arg, st, cur);
                    let (a, s1) = gen(*arg, st, cur).unwrap();
                    let f = free_jump(e);
                    if name == "exit"@ {
                        let i1 = InstrV::Param { src: a };
                        lemma_jumps_then(st, s1, i1, cur, f);
                        lemma_jumps_then(st, emit(s1, i1), InstrV::Call { label: name }, cur, f);
                    } else {
                        let i1 = InstrV::Param { src: constant("1"@) };
                        let i2 = InstrV::Param { src: a };
                        let i3 = InstrV::Param { src: constant(decimal(print_size(s1.data, a))) };
                        lemma_jumps_then(st, s1, i1, cur, f);
                        lemma_jumps_then(st, emit(s1, i1), i2, cur, f);
                        lemma_jumps_then(st, emit(emit(s1, i1), i2), i3, cur, f);
                        lemma_jumps_then(st, emit(emit(emit(s1, i1), i2), i3), InstrV::Call { label: name }, cur, f);
                    }
                },
                KindV::Assign(d, s) | KindV::Declare(d, s) => {
                    lemma_gen_jumps(*d, st, cur);
                    lemma_gen_step(*d, st, cur);
                    let (dv, s1) = gen(*d, st, cur).unwrap();
                    lemma_store_jumps(dv, *s, s1, cur);
                    lemma_store_step(dv, *s, s1, cur);
                    lemma_jumps_chain(st, s1, st1, cur, free_jump(*d), free_jump(*s), free_jump(e));
                },
                KindV::Op(a, op, b) => {
                    let n = st.tmp + 1;
                    let t = numbered("t"@, n);
                    let a0 = GenV { tmp: n, ..st };
                    let f = free_jump(e);
                    lemma_step_same_code(st, a0);
                    lemma_jumps_same_code(st, a0, cur, f, Set::empty());
                    lemma_gen_jumps(*a, a0, cur);
                    lemma_gen_step(*a, a0, cur);
                    let (av, s1) = gen(*a, a0, cur).unwrap();
                    lemma_gen_jumps(*b, s1, cur);
                    lemma_gen_step(*b, s1, cur);
                    let (bv, s2) = gen(*b, s1, cur).unwrap();
                    lemma_jumps_chain(st, a0, s1, cur, f, free_jump(*a), f);
                    lemma_jumps_chain(st, s1, s2, cur, f, free_jump(*b), f);
                    let i = InstrV::Op { dest: ident(t), src1: av, op, src2: bv };
                    lemma_jumps_then(st, s2, i, cur, f);
                    lemma_step_same_code(emit(s2, i), st1);
                    lemma_jumps_same_code(emit(s2, i), st1, cur, f, Set::empty());
                    lemma_jumps_chain(st, emit(s2, i), st1, cur, f, f, f);
                },
                KindV::If(..) | KindV::IfElse(..) => lemma_branch_jumps(e, st, cur),
                KindV::Loop(..) | KindV::While(..) => lemma_loop_jumps(e, st, cur),
                KindV::Break | KindV::Continue => {
                    lemma_jumps_emit(st, st1.code.last(), cur, true, Set::empty());
                    assert(emit(st, st1.code.last()) == st1);
                },
                KindV::Sequence(s) => lemma_list_jumps(s, st, cur),
                KindV::Not(a) => {
                    let n = st.tmp + 1;
                    let t = numbered("t"@, n);
                    let a0 = GenV { tmp: n, ..st };
                    let f = free_jump(e);
                    lemma_step_same_code(st, a0);
                    lemma_jumps_same_code(st, a0, cur, f, Set::empty());
                    lemma_gen_jumps(*a, a0, cur);
                    lemma_gen_step(*a, a0, cur);
                    let (av, s1) = gen(*a, a0, cur).unwrap();
                    lemma_jumps_chain(st, a0, s1, cur, f, f, f);
                    let i = InstrV::Not { dest: ident(t), src: av };
                    lemma_jumps_then(st, s1, i, cur, f);
                    lemma_step_same_code(emit(s1, i), st1);
                    lemma_jumps_same_code(emit(s1, i), st1, cur, f, Set::empty());
                    lemma_jumps_chain(st, emit(s1, i), st1, cur, f, f, f);
                },
                KindV::Idx(id, off) => {
                    let f = free_jump(e);
                    lemma_gen_jumps(*off, st, cur);
                    lemma_gen_step(*off, st, cur);
                    let (ov, s1) = gen(*off, st, cur).unwrap();
                    if ov is MemPos {
                        let n = s1.tmp + 1;
                        let t = numbered("t"@, n);
                        let a0 = GenV { tmp: n, ..s1 };
                        lemma_step_same_code(s1, a0);
                        lemma_jumps_same_code(s1, a0, cur, f, Set::empty());
                        lemma_jumps_chain(st, s1, a0, cur, f, f, f);
                        let i = InstrV::Ass { dest: ident(t), src: ov };
                        lemma_jumps_then(st, a0, i, cur, f);
                        lemma_step_same_code(emit(a0, i), st1);
                        lemma_jumps_same_code(emit(a0, i), st1, cur, f, Set::empty());
                        lemma_jumps_chain(st, emit(a0, i), st1, cur, f, f, f);
                    } else {
                        lemma_gen_jumps(*off, s1, cur);
                        lemma_gen_step(*off, s1, cur);
                        lemma_jumps_chain(st, s1, st1, cur, f, f, f);
                    }
                },
            }
        },
    }
}

#[verifier::rlimit(50)]
proof fn lemma_branch_jumps(e: ExprV, st: GenV, cur: Option<nat>)
    requires
        e.kind is If || e.kind is IfElse,
    ensures
        gen(e, st, cur) matches Some((_, st1)) ==> jumps_ok(st, st1, cur, free_jump(e), Set::empty()),
    decreases e, 1nat,
{
    let empty = Set::<Seq<char>>::empty();
    match gen(e, st, cur) {
        None => {},
        Some((v, st1)) => {
            lemma_control_step(e, st, cur);
            let f = free_jump(e);
            match e.kind {
                KindV::If(c, body) => {
                    let n = st.ifs + 1;
                    let end = numbered("end_if_"@, n);
                    let a1 = GenV { ifs: n, ..st };
                    lemma_cond_jumps(*c, end, a1, cur);
                    lemma_cond_step(*c, end, a1, cur);
                    let s1 = gen_cond(*c, end, a1, cur).unwrap();
                    lemma_gen_jumps(*body, s1, cur);
                    lemma_gen_step(*body, s1, cur);
                    let s2 = gen(*body, s1, cur).unwrap().1;
                    lemma_jumps_join(a1, s1, s2, cur, free_jump(*c), free_jump(*body), empty.insert(end), empty);
                    lemma_step_join(a1, s1, s2);
                    lemma_jumps_weaken(a1, s2, cur, free_jump(*c) || free_jump(*body), empty.insert(end) + empty, cur, f, empty.insert(end));
                    lemma_jumps_label(st, a1, s2, end, cur, f, empty);
                },
                KindV::IfElse(c, a, b) => {
                    let n = st.ifs + 1;
                    let end = numbered("end_if_"@, n);
                    let other = numbered("else_"@, n);
                    let a1 = GenV { ifs: n, ..st };
                    lemma_cond_jumps(*c, other, a1, cur);
                    lemma_cond_step(*c, other, a1, cur);
                    let s1 = gen_cond(*c, other, a1, cur).unwrap();
                    lemma_gen_jumps(*a, s1, cur);
                    lemma_gen_step(*a, s1, cur);
                    let s2 = gen(*a, s1, cur).unwrap().1;
                    lemma_jumps_join(a1, s1, s2, cur, free_jump(*c), free_jump(*a), empty.insert(other), empty);
                    lemma_step_join(a1, s1, s2);
                    let g = InstrV::Goto { label: end };
                    let s2g = emit(s2, g);
                    lemma_step_emit(s2, g);
                    lemma_jumps_emit(s2, g, cur, f, empty.insert(end));
                    lemma_jumps_join(a1, s2, s2g, cur, free_jump(*c) || free_jump(*a), f, empty.insert(other) + empty, empty.insert(end));
                    lemma_step_join(a1, s2, s2g);
                    lemma_jumps_weaken(a1, s2g, cur, free_jump(*c) || free_jump(*a) || f, empty.insert(other) + empty + empty.insert(end), cur, f, empty.insert(end).insert(other));
                    lemma_jumps_label(st, a1, s2g, other, cur, f, empty.insert(end));
                    let s2l = emit(s2g, InstrV::Label(other));
                    lemma_step_control_label(st, a1, s2g, other);
                    lemma_gen_jumps(*b, s2l, cur);
                    lemma_gen_step(*b, s2l, cur);
                    let s3 = gen(*b, s2l, cur).unwrap().1;
                    lemma_jumps_join(st, s2l, s3, cur, f, free_jump(*b), empty.insert(end), empty);
                    lemma_step_join(st, s2l, s3);
                    lemma_jumps_weaken(st, s3, cur, f || free_jump(*b), empty.insert(end) + empty, cur, f, empty.insert(end));
                    lemma_jumps_label(st, st, s3, end, cur, f, empty);
                },
                _ => {},
            }
        },
    }
}

/// The `else` label of an `if`-`else`, appended after the condition and the first block.
proof fn lemma_step_control_label(st: GenV, a1: GenV, s2g: GenV, other: Seq<char>)
    requires
        step(a1, s2g),
        a1 == (GenV { ifs: st.ifs + 1, ..st }),
        other == numbered("else_"@, st.ifs + 1),
    ensures
        step(st, emit(s2g, InstrV::Label(other))),
{
    let la = labels_of(added(a1, s2g));
    assert forall|i: int| 0 <= i < la.len() implies la[i] != other by {
        lemma_label_after(la[i], a1, s2g, st.ifs + 1, true);
    }
    lemma_step_label(st, a1, s2g, other);
}

} // verus!

verus! {

#[verifier::rlimit(50)]
proof fn lemma_loop_jumps(e: ExprV, st: GenV, cur: Option<nat>)
    requires
        e.kind is Loop || e.kind is While,
    ensures
        gen(e, st, cur) matches Some((_, st1)) ==> jumps_ok(st, st1, cur, free_jump(e), Set::empty()),
    decreases e, 1nat,
{
    let empty = Set::<Seq<char>>::empty();
    match gen(e, st, cur) {
        None => {},
        Some((v, st1)) => {
            let f = free_jump(e);
            let n = st.loops + 1;
            let start = numbered("loop_"@, n);
            let end = numbered("loop_end_"@, n);
            let both = empty.insert(start).insert(end);
            let a0 = GenV { loops: n, ..st };
            let a1 = emit(a0, InstrV::Label(start));
            lemma_step_same_code(a0, a0);
            assert(labels_of(added(a0, a0)) =~= Seq::<Seq<char>>::empty()) by {
                assert(added(a0, a0) =~= Seq::<InstrV>::empty());
            }
            lemma_step_label(st, a0, a0, start);
            lemma_jumps_same_code(a0, a0, cur, f, empty.insert(start));
            lemma_jumps_label(st, a0, a0, start, cur, f, empty);
            let s_body = match e.kind {
                KindV::Loop(body) => {
                    lemma_gen_jumps(*body, a1, Some(n));
                    lemma_gen_step(*body, a1, Some(n));
                    let s1 = gen(*body, a1, Some(n)).unwrap().1;
                    lemma_jumps_weaken(a1, s1, Some(n), free_jump(*body), empty, cur, f, both);
                    s1
                },
                KindV::While(c, body) => {
                    lemma_cond_jumps(*c, end, a1, Some(n));
                    lemma_cond_step(*c, end, a1, Some(n));
                    let s1 = gen_cond(*c, end, a1, Some(n)).unwrap();
                    lemma_gen_jumps(*body, s1, Some(n));
                    lemma_gen_step(*body, s1, Some(n));
                    let s2 = gen(*body, s1, Some(n)).unwrap().1;
                    lemma_jumps_weaken(a1, s1, Some(n), free_jump(*c), empty.insert(end), cur, f, both);
                    lemma_jumps_weaken(s1, s2, Some(n), free_jump(*body), empty, cur, f, both);
                    lemma_jumps_join(a1, s1, s2, cur, f, f, both, both);
                    lemma_step_join(a1, s1, s2);
                    lemma_jumps_weaken(a1, s2, cur, f, both + both, cur, f, both);
                    s2
                },
                _ => a1,
            };
            lemma_jumps_join(st, a1, s_body, cur, f, f, empty, both);
            lemma_step_join(st, a1, s_body);
            let g = InstrV::Goto { label: start };
            let sg = emit(s_body, g);
            lemma_step_emit(s_body, g);
            lemma_jumps_emit(s_body, g, cur, f, both);
            lemma_jumps_join(st, s_body, sg, cur, f, f, empty + both, both);
            lemma_step_join(st, s_body, sg);
            lemma_jumps_weaken(st, sg, cur, f, empty + both + both, cur, f, empty.insert(start).insert(end));
            lemma_jumps_label(st, st, sg, end, cur, f, empty.insert(start));
            let fin = emit(sg, InstrV::Label(end));
            assert(fin == st1);
            lemma_step_join(a1, s_body, sg);
            lemma_added_split(st, a1, sg);
            assert(added(st, fin) =~= added(st, sg).push(InstrV::Label(end)));
            assert(added(st, sg).push(InstrV::Label(end)).drop_last() =~= added(st, sg));
            assert(labels_of(added(st, fin)) == labels_of(added(st, sg)).push(end));
            assert(labels_of(added(st, a1)) =~= seq![start]) by {
                assert(added(st, a1) =~= seq![InstrV::Label(start)]);
                assert(seq![InstrV::Label(start)].drop_last() =~= Seq::<InstrV>::empty());
                assert(labels_of(Seq::<InstrV>::empty()) =~= Seq::<Seq<char>>::empty());
            }
            assert(labels_of(added(st, fin))[0] == start);
            lemma_jumps_resolved(st, fin, cur, f, empty, start);
        },
    }
}

proof fn lemma_store_jumps(dv: ValueV, s: ExprV, st: GenV, cur: Option<nat>)
    ensures
        gen_store(dv, s, st, cur) matches Some(st1) ==> jumps_ok(st, st1, cur, free_jump(s), Set::empty()),
    decreases s, 3nat,
{
    let f = free_jump(s);
    match gen_store(dv, s, st, cur) {
        None => {},
        Some(st1) => match s.kind {
            KindV::ArrayLit(_) => {
                lemma_gen_jumps(s, st, cur);
                lemma_gen_step(s, st, cur);
                let s1 = gen(s, st, cur).unwrap().1;
                lemma_step_same_code(s1, st1);
                lemma_jumps_same_code(s1, st1, cur, f, Set::empty());
                lemma_jumps_chain(st, s1, st1, cur, f, f, f);
            },
            KindV::Not(x) => {
                lemma_gen_jumps(*x, st, cur);
                lemma_gen_step(*x, st, cur);
                let (xv, s1) = gen(*x, st, cur).unwrap();
                lemma_jumps_then(st, s1, InstrV::Not { dest: dv, src: xv }, cur, f);
            },
            KindV::Op(a, op, b) => {
                lemma_gen_jumps(*a, st, cur);
                lemma_gen_step(*a, st, cur);
                let (av, s1) = gen(*a, st, cur).unwrap();
                lemma_gen_jumps(*b, s1, cur);
                lemma_gen_step(*b, s1, cur);
                let (bv, s2) = gen(*b, s1, cur).unwrap();
                lemma_jumps_chain(st, s1, s2, cur, free_jump(*a), free_jump(*b), f);
                lemma_jumps_then(st, s2, InstrV::Op { dest: dv, src1: av, op, src2: bv }, cur, f);
            },
            _ => {
                lemma_gen_jumps(s, st, cur);
                lemma_gen_step(s, st, cur);
                let (sv, s1) = gen(s, st, cur).unwrap();
                lemma_jumps_then(st, s1, InstrV::Ass { dest: dv, src: sv }, cur, f);
            },
        },
    }
}

proof fn lemma_cond_jumps(c: ExprV, label: Seq<char>, st: GenV, cur: Option<nat>)
    ensures
        gen_cond(c, label, st, cur) matches Some(st1) ==> jumps_ok(st, st1, cur, free_jump(c), Set::empty().insert(label)),
    decreases c, 4nat,
{
    let empty = Set::<Seq<char>>::empty();
    let f = free_jump(c);
    let two = match c.kind {
        KindV::Op(a, op, b) => op != Op::And && op != Op::Or,
        _ => false,
    };
    if two {
        match c.kind {
            KindV::Op(a, op, b) => {
                lemma_gen_jumps(*a, st, cur);
                lemma_gen_step(*a, st, cur);
                match gen(*a, st, cur) {
                    Some((av, s1)) => {
                        lemma_gen_jumps(*b, s1, cur);
                        lemma_gen_step(*b, s1, cur);
                        match gen(*b, s1, cur) {
                            Some((bv, s2)) => {
                                lemma_jumps_chain(st, s1, s2, cur, free_jump(*a), free_jump(*b), f);
                                match inverse(op) {
                                    Some(iv) => {
                                        let i = InstrV::IfGoto { src1: av, src2: bv, cond: iv, label };
                                        lemma_step_emit(s2, i);
                                        lemma_jumps_emit(s2, i, cur, f, empty.insert(label));
                                        lemma_jumps_join(st, s2, emit(s2, i), cur, f, f, empty, empty.insert(label));
                                        lemma_jumps_weaken(st, emit(s2, i), cur, f, empty + empty.insert(label), cur, f, empty.insert(label));
                                    },
                                    None => {},
                                }
                            },
                            None => {},
                        }
                    },
                    None => {},
                }
            },
            _ => {},
        }
    } else {
        lemma_gen_jumps(c, st, cur);
        lemma_gen_step(c, st, cur);
        match gen(c, st, cur) {
            Some((cv, s1)) => {
                let i = InstrV::IfGoto { src1: cv, src2: constant("0"@), cond: Op::Eq, label };
                lemma_step_emit(s1, i);
                lemma_jumps_emit(s1, i, cur, f, empty.insert(label));
                lemma_jumps_join(st, s1, emit(s1, i), cur, f, f, empty, empty.insert(label));
                lemma_jumps_weaken(st, emit(s1, i), cur, f, empty + empty.insert(label), cur, f, empty.insert(label));
            },
            None => {},
        }
    }
}

proof fn lemma_list_jumps(s: Seq<ExprV>, st: GenV, cur: Option<nat>)
    ensures
        gen_list(s, st, cur) matches Some((_, st1)) ==> jumps_ok(st, st1, cur, free_jump_any(s), Set::empty()),
    decreases s, 0nat,
{
    if s.len() == 0 {
        lemma_jumps_same_code(st, st, cur, false, Set::empty());
    } else {
        lemma_list_jumps(s.drop_last(), st, cur);
        lemma_list_step(s.drop_last(), st, cur);
        match gen_list(s.drop_last(), st, cur) {
            Some((_, s1)) => {
                lemma_gen_jumps(s.last(), s1, cur);
                lemma_gen_step(s.last(), s1, cur);
                match gen(s.last(), s1, cur) {
                    Some((_, s2)) => lemma_jumps_chain(st, s1, s2, cur, free_jump_any(s.drop_last()), free_jump(s.last()), free_jump_any(s)),
                    None => {},
                }
            },
            None => {},
        }
    }
}

/// In the intermediate code generated for a program with no `break` or `continue` outside a
/// loop, every jump goes to a label that the code defines: a `break` or `continue` names
/// the innermost loop around it, and each `if`, `else` and loop defines the labels its
/// jumps name.
pub proof fn lemma_jumps_defined(ast: Seq<ExprV>, table: Seq<(Seq<char>, Seq<char>)>)
    requires
        !free_jump_any(ast),
    ensures
        program_state(ast, table) matches Some(st) ==> forall|j: int|
            0 <= j < jumps_of(st.code).len() ==> labels_of(st.code).contains(#[trigger] jumps_of(st.code)[j]),
{
    lemma_list_jumps(ast, start_state(table), None);
    match gen_list(ast, start_state(table), None) {
        Some((_, st)) => {
            assert(added(start_state(table), st) =~= st.code);
        },
        None => {},
    }
}

} // verus!

verus! {

/// The jump that leaves a condition's code when the condition fails tests the negation of
/// the comparison: for all integers, the inverse holds exactly when the comparison does not.
pub proof fn lemma_inverse_negates(op: Op, a: int, b: int)
    ensures
        is_comparison(op) ==> (inverse(op) matches Some(iv) && is_comparison(iv) && holds(iv, a, b) == !holds(op, a, b)),
        !is_comparison(op) ==> inverse(op) is None,
{
}

} // verus!
