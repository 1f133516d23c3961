//! x86-64 assembly for the fixed-width intermediate code: each written operand gets a
//! callee register sized by its type while some are free, then a stack slot; parameters
//! go to the argument registers in order.
use vstd::prelude::*;
use crate::compiler::ir::{Ir, Buffer, BufferV, Value, ValueV, IrInstruction, InstrV, data_view, code_view};
use crate::syntax_analysis::parser::op::{Op, is_comparison, holds};
use crate::symbols::{SymbolTable, lookup};
use crate::text::{decimal, push_decimal, push_char, chars_of, contains_char, parse_i64, i64_literal_value, is_ascii_digit, string_of, str_eq};

verus! {

/// The text is a decimal integer, with an optional sign, that fits in an `i32`.
pub open spec fn is_i32_text(s: Seq<char>) -> bool {
    match i64_literal_value(s) {
        Some(v) => i32::MIN <= v <= i32::MAX,
        None => false,
    }
}

/// An ASCII character.
pub open spec fn is_ascii(c: char) -> bool {
    (c as u32) < 128
}

/// An ASCII letter.
pub open spec fn is_ascii_letter(c: char) -> bool {
    ('a' <= c && c <= 'z') || ('A' <= c && c <= 'Z')
}

/// The text before the first space.
pub open spec fn first_word(s: Seq<char>) -> Seq<char>
    decreases s.len(),
{
    if s.len() == 0 || s[0] == ' ' {
        seq![]
    } else {
        seq![s[0]] + first_word(s.skip(1))
    }
}

/// `rep` before, between and after the characters of `s`.
pub open spec fn interleave(s: Seq<char>, rep: Seq<char>) -> Seq<char>
    decreases s.len(),
{
    if s.len() == 0 {
        rep
    } else {
        rep + seq![s[0]] + interleave(s.skip(1), rep)
    }
}

/// `s` with every match of `pat`, found from left to right without overlaps, replaced
/// by `rep`; an empty `pat` matches before, between and after the characters.
pub open spec fn replace_all(s: Seq<char>, pat: Seq<char>, rep: Seq<char>) -> Seq<char>
    decreases s.len(),
{
    if pat.len() == 0 {
        interleave(s, rep)
    } else if s.len() < pat.len() {
        s
    } else if s.take(pat.len() as int) == pat {
        rep + replace_all(s.skip(pat.len() as int), pat, rep)
    } else {
        seq![s[0]] + replace_all(s.skip(1), pat, rep)
    }
}

/// The operand-size keyword for a size in bytes.
pub open spec fn size_word(size: nat) -> Option<Seq<char>> {
    if size == 8 {
        Some("qword"@)
    } else if size == 4 {
        Some("dword"@)
    } else if size == 2 {
        Some("word"@)
    } else if size == 1 {
        Some("byte"@)
    } else {
        None
    }
}

/// The size in bytes of a value of a type.
pub open spec fn type_size(t: Seq<char>) -> Option<nat> {
    if t == "ptr"@ || t == "i8"@ || t == "u8"@ {
        Some(1)
    } else if t == "i16"@ || t == "u16"@ {
        Some(2)
    } else if t == "i32"@ || t == "u32"@ {
        Some(4)
    } else if t == "i64"@ || t == "u64"@ {
        Some(8)
    } else if t == "int"@ || t == "bool"@ {
        Some(1)
    } else {
        None
    }
}

/// A register, or memory operand, resized to `size` bytes: a number stays as it is; a
/// memory operand gets the size keyword in place of its first word; a register named
/// like `rdi`, `dil` gets the `i` form, one named like `rbx` the `x` form, and one
/// numbered like `r10` a size suffix. `None` where resizing fails: no such size, or a
/// name too short or not ASCII at its end.
pub open spec fn reg_with_size(reg: Seq<char>, size: nat) -> Option<Seq<char>> {
    let n = reg.len() as int;
    if is_i32_text(reg) {
        Some(reg)
    } else if reg.contains('[') {
        match size_word(size) {
            Some(w) => Some(replace_all(reg, first_word(reg), w)),
            None => None,
        }
    } else if n < 2 || !is_ascii(reg[n - 1]) || !is_ascii(reg[n - 2]) {
        None
    } else {
        let last = reg[n - 1];
        let second = reg[n - 2];
        if second == 'i' || last == 'i' {
            if last == 'l' && (n < 3 || !is_ascii(reg[n - 3])) {
                None
            } else {
                let l = if last == 'l' { reg[n - 3] } else { second };
                if size == 8 {
                    Some(seq!['r', l, 'i'])
                } else if size == 4 {
                    Some(seq!['e', l, 'i'])
                } else if size == 2 {
                    Some(seq![l, 'i'])
                } else if size == 1 {
                    Some(seq![l, 'i', 'l'])
                } else {
                    None
                }
            }
        } else if !is_ascii_digit(last) && !is_ascii_digit(second) {
            if size == 8 {
                Some(seq!['r', second, 'x'])
            } else if size == 4 {
                Some(seq!['e', second, 'x'])
            } else if size == 2 {
                Some(seq![second, 'x'])
            } else if size == 1 {
                Some(seq![second, 'l'])
            } else {
                None
            }
        } else {
            let base = if is_ascii_letter(last) { reg.drop_last() } else { reg };
            if size == 8 {
                Some(base)
            } else if size == 4 {
                Some(base.push('d'))
            } else if size == 2 {
                Some(base.push('w'))
            } else if size == 1 {
                Some(base.push('b'))
            } else {
                None
            }
        }
    }
}

/// The condition suffix of a relational operator.
pub open spec fn relation_text(op: Op) -> Option<Seq<char>> {
    match op {
        Op::Eq => Some("e"@),
        Op::Neq => Some("ne"@),
        Op::Lt => Some("l"@),
        Op::Leq => Some("le"@),
        Op::Gt => Some("g"@),
        Op::Geq => Some("ge"@),
        _ => None,
    }
}

} // verus!

verus! {

/// Whether the text is an `i32` literal.
fn parses_as_i32(s: &str) -> (r: bool)
    ensures
        r == is_i32_text(s@),
{
    match parse_i64(s) {
        Some(v) => -2147483648 <= v && v <= 2147483647,
        None => false,
    }
}

/// The text before the first space.
fn first_word_of(cs: &Vec<char>) -> (r: Vec<char>)
    ensures
        r@ == first_word(cs@),
{
    let mut r: Vec<char> = Vec::new();
    let mut i: usize = 0;
    assert(cs@.skip(0) =~= cs@);
    while i < cs.len() && cs[i] != ' '
        invariant
            i <= cs.len(),
            r@ + first_word(cs@.skip(i as int)) == first_word(cs@),
        decreases cs.len() - i,
    {
        let ghost before = r@;
        assert(cs@.skip(i as int)[0] == cs@[i as int]);
        assert(cs@.skip(i as int).skip(1) =~= cs@.skip(i as int + 1));
        r.push(cs[i]);
        assert(before + first_word(cs@.skip(i as int)) =~= r@ + first_word(cs@.skip(i as int + 1)));
        i += 1;
    }
    proof {
        if i < cs.len() {
            assert(cs@.skip(i as int)[0] == ' ');
        }
        assert(first_word(cs@.skip(i as int)) =~= Seq::<char>::empty());
        assert(r@ + Seq::<char>::empty() =~= r@);
    }
    r
}

/// Whether `pat` occurs in `s` at position `i`.
fn matches_at(s: &Vec<char>, i: usize, pat: &Vec<char>) -> (r: bool)
    requires
        i <= s.len(),
    ensures
        r == (pat.len() <= s.len() - i && s@.skip(i as int).take(pat.len() as int) == pat@),
{
    if pat.len() > s.len() - i {
        return false;
    }
    let mut j: usize = 0;
    while j < pat.len()
        invariant
            i <= s.len(),
            pat.len() <= s.len() - i,
            j <= pat.len(),
            forall|k: int| 0 <= k < j ==> s@[i + k] == pat@[k],
        decreases pat.len() - j,
    {
        if s[i + j] != pat[j] {
            assert(s@.skip(i as int).take(pat.len() as int)[j as int] != pat@[j as int]);
            return false;
        }
        j += 1;
    }
    assert(s@.skip(i as int).take(pat.len() as int) =~= pat@);
    true
}

/// `s` with every match of `pat` replaced by `rep`.
fn replace_text(s: &Vec<char>, pat: &Vec<char>, rep: &str) -> (r: String)
    ensures
        r@ == replace_all(s@, pat@, rep@),
{
    let mut r = String::new();
    let mut i: usize = 0;
    assert(s@.skip(0) =~= s@);
    if pat.len() == 0 {
        while i < s.len()
            invariant
                pat@.len() == 0,
                i <= s.len(),
                r@ + interleave(s@.skip(i as int), rep@) == replace_all(s@, pat@, rep@),
            decreases s.len() - i,
        {
            let ghost before = r@;
            r.append(rep);
            push_char(&mut r, s[i]);
            assert(s@.skip(i as int).skip(1) =~= s@.skip(i as int + 1));
            assert(before + interleave(s@.skip(i as int), rep@) =~= r@ + interleave(s@.skip(i as int + 1), rep@));
            i += 1;
        }
        assert(interleave(s@.skip(i as int), rep@) == rep@);
        r.append(rep);
        return r;
    }
    while i < s.len()
        invariant
            pat@.len() > 0,
            i <= s.len(),
            r@ + replace_all(s@.skip(i as int), pat@, rep@) == replace_all(s@, pat@, rep@),
        decreases s.len() - i,
    {
        let ghost before = r@;
        let ghost rest = s@.skip(i as int);
        if matches_at(s, i, pat) {
            r.append(rep);
            assert(rest.skip(pat.len() as int) =~= s@.skip(i + pat.len()));
            assert(before + replace_all(rest, pat@, rep@) =~= r@ + replace_all(s@.skip(i + pat.len()), pat@, rep@));
            i = i + pat.len();
        } else {
            if pat.len() > s.len() - i {
                assert(replace_all(rest, pat@, rep@) == rest);
                let mut k = i;
                while k < s.len()
                    invariant
                        i <= k <= s.len(),
                        r@ == before + s@.subrange(i as int, k as int),
                    decreases s.len() - k,
                {
                    push_char(&mut r, s[k]);
                    assert(s@.subrange(i as int, k as int).push(s@[k as int]) =~= s@.subrange(i as int, k as int + 1));
                    k += 1;
                }
                assert(s@.subrange(i as int, k as int) =~= rest);
                return r;
            }
            push_char(&mut r, s[i]);
            assert(rest[0] == s@[i as int]);
            assert(rest.skip(1) =~= s@.skip(i as int + 1));
            assert(before + replace_all(rest, pat@, rep@) =~= r@ + replace_all(s@.skip(i as int + 1), pat@, rep@));
            i += 1;
        }
    }
    assert(replace_all(s@.skip(i as int), pat@, rep@) =~= Seq::<char>::empty());
    assert(r@ + Seq::<char>::empty() =~= r@);
    r
}

/// The operand-size keyword for a size.
fn get_word_for_size(size: usize) -> (r: Option<&'static str>)
    ensures
        match r {
            Some(w) => size_word(size as nat) == Some(w@),
            None => size_word(size as nat) is None,
        },
{
    if size == 8 {
        Some("qword")
    } else if size == 4 {
        Some("dword")
    } else if size == 2 {
        Some("word")
    } else if size == 1 {
        Some("byte")
    } else {
        None
    }
}

/// The size of a value of a type.
fn get_size_for_type(t: &str) -> (r: Option<usize>)
    ensures
        match r {
            Some(n) => type_size(t@) == Some(n as nat) && n <= 8,
            None => type_size(t@) is None,
        },
{
    if str_eq(t, "ptr") || str_eq(t, "i8") || str_eq(t, "u8") {
        Some(1)
    } else if str_eq(t, "i16") || str_eq(t, "u16") {
        Some(2)
    } else if str_eq(t, "i32") || str_eq(t, "u32") {
        Some(4)
    } else if str_eq(t, "i64") || str_eq(t, "u64") {
        Some(8)
    } else if str_eq(t, "int") || str_eq(t, "bool") {
        Some(1)
    } else {
        None
    }
}

/// The condition suffix of a relational operator.
fn get_relation_str(op: &Op) -> (r: Option<&'static str>)
    ensures
        match r {
            Some(s) => relation_text(*op) == Some(s@),
            None => relation_text(*op) is None,
        },
{
    match op {
        Op::Eq => Some("e"),
        Op::Neq => Some("ne"),
        Op::Lt => Some("l"),
        Op::Leq => Some("le"),
        Op::Gt => Some("g"),
        Op::Geq => Some("ge"),
        _ => None,
    }
}

/// The character at a position of a vector.
fn char_at(v: &Vec<char>, i: usize) -> (c: char)
    requires
        i < v.len(),
    ensures
        c == v@[i as int],
{
    v[i]
}

/// A string of three characters.
fn three(a: char, b: char, c: char) -> (r: String)
    ensures
        r@ == seq![a, b, c],
{
    let mut r = String::new();
    push_char(&mut r, a);
    push_char(&mut r, b);
    push_char(&mut r, c);
    assert(r@ =~= seq![a, b, c]);
    r
}

/// A string of two characters.
fn two(a: char, b: char) -> (r: String)
    ensures
        r@ == seq![a, b],
{
    let mut r = String::new();
    push_char(&mut r, a);
    push_char(&mut r, b);
    assert(r@ =~= seq![a, b]);
    r
}

/// A register or memory operand resized to `size` bytes; `None` where resizing fails.
fn get_reg_with_size(reg: &str, size: usize) -> (r: Option<String>)
    ensures
        match r {
            Some(s) => reg_with_size(reg@, size as nat) == Some(s@),
            None => reg_with_size(reg@, size as nat) is None,
        },
{
    if parses_as_i32(reg) {
        return Some(string_of(reg));
    }
    let cs = chars_of(reg);
    if contains_char(reg, '[') {
        let w = match get_word_for_size(size) {
            Some(w) => w,
            None => {
                return None;
            },
        };
        let first = first_word_of(&cs);
        return Some(replace_text(&cs, &first, w));
    }
    let n = cs.len();
    if n < 2 {
        return None;
    }
    let last = char_at(&cs, n - 1);
    let second = char_at(&cs, n - 2);
    if !((last as u32) < 128) || !((second as u32) < 128) {
        return None;
    }
    if second == 'i' || last == 'i' {
        let l = if last == 'l' {
            if n < 3 {
                return None;
            }
            let third = char_at(&cs, n - 3);
            if !((third as u32) < 128) {
                return None;
            }
            third
        } else {
            second
        };
        if size == 8 {
            Some(three('r', l, 'i'))
        } else if size == 4 {
            Some(three('e', l, 'i'))
        } else if size == 2 {
            Some(two(l, 'i'))
        } else if size == 1 {
            Some(three(l, 'i', 'l'))
        } else {
            None
        }
    } else if !('0' <= last && last <= '9') && !('0' <= second && second <= '9') {
        if size == 8 {
            Some(three('r', second, 'x'))
        } else if size == 4 {
            Some(three('e', second, 'x'))
        } else if size == 2 {
            Some(two(second, 'x'))
        } else if size == 1 {
            Some(two(second, 'l'))
        } else {
            None
        }
    } else {
        let keep = if ('a' <= last && last <= 'z') || ('A' <= last && last <= 'Z') {
            n - 1
        } else {
            n
        };
        let mut base = String::new();
        let mut i: usize = 0;
        while i < keep
            invariant
                keep <= n,
                n == cs.len(),
                i <= keep,
                base@ == cs@.take(i as int),
            decreases keep - i,
        {
            push_char(&mut base, cs[i]);
            assert(cs@.take(i as int).push(cs@[i as int]) =~= cs@.take(i as int + 1));
            i += 1;
        }
        assert(cs@.take(n as int) =~= cs@);
        assert(cs@.take(n as int - 1) =~= cs@.drop_last());
        if size == 8 {
            Some(base)
        } else if size == 4 {
            push_char(&mut base, 'd');
            Some(base)
        } else if size == 2 {
            push_char(&mut base, 'w');
            Some(base)
        } else if size == 1 {
            push_char(&mut base, 'b');
            Some(base)
        } else {
            None
        }
    }
}

} // verus!

verus! {

/// A name-to-text table.
pub type Table = Seq<(Seq<char>, Seq<char>)>;

/// What the generator has made after some instructions: the data and code sections so
/// far, where each written operand lives, how many bytes of stack are taken, and how many
/// parameters in a row were just passed.
pub struct GenState {
    pub data: Seq<char>,
    pub text: Seq<char>,
    pub symbols: Table,
    pub stack: nat,
    pub params: nat,
}

/// The state with `t` added to the code.
pub open spec fn emit(st: GenState, t: Seq<char>) -> GenState {
    GenState { text: st.text + t, ..st }
}

/// Where a name lives: its register or stack slot, or the name itself.
pub open spec fn located(st: GenState, name: Seq<char>) -> Seq<char> {
    match lookup(st.symbols, name) {
        Some(l) => l,
        None => name,
    }
}

/// The operand text of a value, with the state after it: a memory position whose offset
/// lives in memory first loads the offset into `rax`, sized by the offset's type.
pub open spec fn value_of(st: GenState, v: ValueV, types: Table) -> Option<(GenState, Seq<char>)> {
    match v {
        ValueV::Identifier { id } => Some((st, located(st, id))),
        ValueV::Constant { value } => Some((st, value)),
        ValueV::MemPos { id, offset } => {
            let ov = located(st, offset);
            if ov.contains('[') {
                match lookup(types, offset) {
                    Some(t) => match type_size(t) {
                        Some(sz) => match reg_with_size("rax"@, sz) {
                            Some(acc) => Some((emit(st, "\tmov "@ + acc + ", "@ + ov + "\n"@), acc)),
                            None => None,
                        },
                        None => None,
                    },
                    None => None,
                }
            } else {
                match reg_with_size(ov, 4) {
                    Some(r) => Some((st, "byte ["@ + id + " + "@ + r + "]"@)),
                    None => None,
                }
            }
        },
    }
}

/// The register handed to the `n`-th operand placed in a register.
pub open spec fn callee_reg(n: nat) -> Seq<char> {
    if n == 0 {
        "rbx"@
    } else {
        "r"@ + decimal(n + 9)
    }
}

/// The state with `dest` placed: in the next of seven registers, sized, or else in a new
/// stack slot of `size` bytes.
pub open spec fn insert_reg(st: GenState, dest: Seq<char>, size: nat) -> Option<GenState> {
    let n = st.symbols.len();
    if n < 7 {
        match reg_with_size(callee_reg(n), size) {
            Some(r) => Some(GenState { symbols: st.symbols.push((dest, r)), ..st }),
            None => None,
        }
    } else {
        match size_word(size) {
            Some(w) => Some(
                GenState {
                    stack: st.stack + size,
                    symbols: st.symbols.push((dest, w + " [rbp-"@ + decimal(st.stack + size) + "]"@)),
                    ..st
                },
            ),
            None => None,
        }
    }
}

/// The state with a written name placed, sized by its type, if it was not yet.
pub open spec fn placed(st: GenState, dest: ValueV, types: Table) -> Option<GenState> {
    match dest {
        ValueV::Identifier { id } => if lookup(st.symbols, id) is Some {
            Some(st)
        } else {
            match lookup(types, id) {
                Some(t) => match type_size(t) {
                    Some(sz) => insert_reg(st, id, sz),
                    None => None,
                },
                None => None,
            }
        },
        _ => Some(st),
    }
}

/// An assignment; two memory operands go through `rax`.
pub open spec fn assign_piece(st: GenState, dest: ValueV, src: ValueV, types: Table) -> Option<(GenState, Seq<char>)> {
    match placed(st, dest, types) {
        None => None,
        Some(st1) => match value_of(st1, src, types) {
            None => None,
            Some((st2, sv)) => match value_of(st2, dest, types) {
                None => None,
                Some((st3, dv)) => match reg_with_size("rax"@, 1) {
                    None => None,
                    Some(acc) => Some(
                        (
                            st3,
                            if sv.contains('[') && dv.contains('[') {
                                "\tpush rax\n\tmov "@ + acc + ", "@ + sv + "\n\tmov "@ + dv + ", "@ + acc + "\n\tpop rax\n"@
                            } else {
                                "\tmov "@ + dv + ", "@ + sv + "\n"@
                            },
                        ),
                    ),
                },
            },
        },
    }
}

/// A logical negation.
pub open spec fn not_piece(st: GenState, dest: ValueV, src: ValueV, types: Table) -> Option<(GenState, Seq<char>)> {
    match placed(st, dest, types) {
        None => None,
        Some(st1) => match value_of(st1, dest, types) {
            None => None,
            Some((st2, dv)) => match value_of(st2, src, types) {
                None => None,
                Some((st3, sv)) => Some(
                    (st3, "\tmov "@ + dv + ", "@ + sv + "\n\tnot "@ + dv + "\n\tand "@ + dv + ", 1\n"@),
                ),
            },
        },
    }
}

/// The operand texts of three values, in order, with the state after them.
pub open spec fn values3(st: GenState, a: ValueV, b: ValueV, c: ValueV, types: Table) -> Option<(GenState, Seq<char>, Seq<char>, Seq<char>)> {
    match value_of(st, a, types) {
        None => None,
        Some((st1, x)) => match value_of(st1, b, types) {
            None => None,
            Some((st2, y)) => match value_of(st2, c, types) {
                None => None,
                Some((st3, z)) => Some((st3, x, y, z)),
            },
        },
    }
}

/// The mnemonic of an operation done in place.
pub open spec fn simple_name(op: Op) -> Seq<char> {
    match op {
        Op::Add => "add"@,
        Op::Sub => "sub"@,
        Op::And => "and"@,
        _ => "or"@,
    }
}

/// A multiplication: the operand that is not the destination goes through `rax`.
pub open spec fn mul_piece(st: GenState, dest: ValueV, src1: ValueV, src2: ValueV, types: Table) -> Option<(GenState, Seq<char>)> {
    let (first, other) = if src2 == dest { (src2, src1) } else { (src1, src2) };
    match value_of(st, dest, types) {
        None => None,
        Some((st1, d)) => match value_of(st1, first, types) {
            None => None,
            Some((st2, f)) => match reg_with_size("rax"@, 1) {
                None => None,
                Some(acc) => match value_of(st2, other, types) {
                    None => None,
                    Some((st3, o)) => Some(
                        (st3, "\tmov "@ + d + ", "@ + f + "\n\tmov "@ + acc + ", "@ + o + "\n\tmul "@ + d + "\n\tmov "@ + d + ", "@ + acc + "\n"@),
                    ),
                },
            },
        },
    }
}

/// The code of a division: `rdx:rax` cleared, the dividend and divisor loaded (in an
/// order that keeps a dividend that is the destination), the division, and the result
/// stored.
pub open spec fn div_text(
    same: bool,
    acc: Seq<char>,
    d: Seq<char>,
    s1: Seq<char>,
    s2: Seq<char>,
    w: Seq<char>,
    res: Seq<char>,
) -> Seq<char> {
    let loads = if same {
        "\tmov "@ + acc + ", "@ + s1 + "\n\tmov "@ + d + ", "@ + s2 + "\n"@
    } else {
        "\tmov "@ + d + ", "@ + s2 + "\n\tmov "@ + acc + ", "@ + s1 + "\n"@
    };
    "\tmov rax, 0\n\tmov rdx, 0\n"@ + loads + "\tdiv "@ + w + "\n\tmov "@ + d + ", "@ + res + "\n"@
}

/// A division, giving the quotient, or the remainder for `rem`.
pub open spec fn div_piece(st: GenState, dest: ValueV, src1: ValueV, src2: ValueV, rem: bool, types: Table) -> Option<(GenState, Seq<char>)> {
    match values3(st, dest, src2, src1, types) {
        None => None,
        Some((st1, d, s2, s1)) => match reg_with_size("rax"@, 1) {
            None => None,
            Some(acc) => match value_of(st1, dest, types) {
                None => None,
                Some((st2, d2)) => match reg_with_size(d2, 8) {
                    None => None,
                    Some(w) => {
                        let result: Option<Seq<char>> = if rem { reg_with_size("rdx"@, 1) } else { Some(acc) };
                        match result {
                            None => None,
                            Some(res) => Some((st2, div_text(src1 == dest, acc, d, s1, s2, w, res))),
                        }
                    },
                },
            },
        },
    }
}

/// A comparison: the `cmp` goes straight into the code, the `set` is the piece.
pub open spec fn cmp_piece(st: GenState, dest: ValueV, src1: ValueV, src2: ValueV, op: Op, types: Table) -> Option<(GenState, Seq<char>)> {
    match values3(st, dest, src1, src2, types) {
        None => None,
        Some((st1, d, s1, s2)) => match relation_text(op) {
            None => None,
            Some(rel) => Some((emit(st1, "\tcmp "@ + s1 + ", "@ + s2 + "\n"@), "\tset"@ + rel + " "@ + d + "\n"@)),
        },
    }
}

/// An operation into a destination, which is placed first.
pub open spec fn op_piece(st: GenState, dest: ValueV, src1: ValueV, op: Op, src2: ValueV, types: Table) -> Option<(GenState, Seq<char>)> {
    match placed(st, dest, types) {
        None => None,
        Some(st1) => match op {
            Op::Add | Op::Sub | Op::And | Op::Or => match values3(st1, dest, src1, src2, types) {
                None => None,
                Some((st2, d, s1, s2)) => Some(
                    (st2, "\tmov "@ + d + ", "@ + s1 + "\n\t"@ + simple_name(op) + " "@ + d + ", "@ + s2 + "\n"@),
                ),
            },
            Op::Mul => mul_piece(st1, dest, src1, src2, types),
            Op::Div => div_piece(st1, dest, src1, src2, false, types),
            Op::Mod => div_piece(st1, dest, src1, src2, true, types),
            _ => cmp_piece(st1, dest, src1, src2, op, types),
        },
    }
}

/// A conditional jump.
pub open spec fn if_goto_piece(st: GenState, src1: ValueV, src2: ValueV, cond: Op, label: Seq<char>, types: Table) -> Option<(GenState, Seq<char>)> {
    match value_of(st, src1, types) {
        None => None,
        Some((st1, s1)) => match value_of(st1, src2, types) {
            None => None,
            Some((st2, s2)) => match relation_text(cond) {
                None => None,
                Some(rel) => Some((st2, "\tcmp "@ + s1 + ", "@ + s2 + "\n\tj"@ + rel + " "@ + label + "\n"@)),
            },
        },
    }
}

/// The register of the `n`-th parameter in a row.
pub open spec fn param_base(n: nat) -> Option<Seq<char>> {
    if n == 1 {
        Some("rdi"@)
    } else if n == 2 {
        Some("rsi"@)
    } else if n == 3 {
        Some("rdx"@)
    } else if n == 4 {
        Some("rcx"@)
    } else if n == 5 {
        Some("r8"@)
    } else if n == 6 {
        Some("r9"@)
    } else {
        None
    }
}

/// The size in bytes a parameter is passed with: that of its type where it has one in a
/// register, stack slot or memory position, else eight; `None` for a constant that is no
/// `i32` or a type that has no size.
pub open spec fn param_size(st: GenState, src: ValueV, types: Table) -> Option<nat> {
    match src {
        ValueV::Constant { value } => if is_i32_text(value) {
            Some(8)
        } else {
            None
        },
        ValueV::Identifier { id } => if lookup(st.symbols, id) is None {
            Some(8)
        } else {
            match lookup(types, id) {
                Some(t) => type_size(t),
                None => None,
            }
        },
        ValueV::MemPos { id, .. } => match lookup(types, id) {
            Some(t) => type_size(t),
            None => None,
        },
    }
}

/// Passing a parameter: it goes to the next argument register, sized.
pub open spec fn param_piece(st: GenState, src: ValueV, types: Table) -> Option<(GenState, Seq<char>)> {
    match param_size(st, src, types) {
        None => None,
        Some(ts) => match value_of(st, src, types) {
            None => None,
            Some((st1, v)) => match param_base(st.params) {
                None => None,
                Some(base) => match reg_with_size(base, ts) {
                    None => None,
                    Some(r) => Some((st1, "\tmov "@ + r + ", "@ + v + "\n"@)),
                },
            },
        },
    }
}

/// The piece of code of an instruction, with the state after the operands are placed and
/// read.
pub open spec fn piece(st: GenState, i: InstrV, types: Table) -> Option<(GenState, Seq<char>)> {
    match i {
        InstrV::Ass { dest, src } => assign_piece(st, dest, src, types),
        InstrV::Not { dest, src } => not_piece(st, dest, src, types),
        InstrV::Op { dest, src1, op, src2 } => op_piece(st, dest, src1, op, src2, types),
        InstrV::Label(l) => Some((st, l + ":\n"@)),
        InstrV::Goto { label } => Some((st, "\tjmp "@ + label + "\n"@)),
        InstrV::IfGoto { src1, src2, cond, label } => if_goto_piece(st, src1, src2, cond, label, types),
        InstrV::Param { src } => param_piece(st, src, types),
        InstrV::Call { label } => Some((st, "\tcall "@ + label + "\n"@)),
        InstrV::Ret { .. } => Some((st, seq![])),
    }
}

/// The state after one instruction: parameters in a row are counted, and the piece is
/// added to the code.
#[verifier::opaque]
pub open spec fn step(st: GenState, i: InstrV, types: Table) -> Option<GenState> {
    let st0 = GenState { params: if i is Param { st.params + 1 } else { 0 }, ..st };
    match piece(st0, i, types) {
        Some((st1, t)) => Some(emit(st1, t)),
        None => None,
    }
}

/// The state after a sequence of instructions; `None` where one of them fails.
pub open spec fn run(st: GenState, s: Seq<InstrV>, types: Table) -> Option<GenState>
    decreases s.len(),
{
    if s.len() == 0 {
        Some(st)
    } else {
        match run(st, s.drop_last(), types) {
            Some(st1) => step(st1, s.last(), types),
            None => None,
        }
    }
}

/// The lines of the data section for some buffers.
pub open spec fn data_section(d: Seq<BufferV>) -> Seq<char>
    decreases d.len(),
{
    if d.len() == 0 {
        seq![]
    } else {
        data_section(d.drop_last()) + d.last().label + ":\tdb\t"@ + d.last().contents + "\n"@
    }
}

/// The code after the last instruction: exit with status 0, then the print routine.
pub open spec fn code_tail() -> Seq<char> {
    "\n\tmov rdi, 0\nexit:\n\tmov rax, 60\n\tsyscall\n"@ + "\nprint:\n\tmov rax, 1\n\tsyscall\n\tret\n"@
}

/// The state before the first instruction.
pub open spec fn start_state(data: Seq<BufferV>) -> GenState {
    GenState {
        data: "section .data\n"@ + data_section(data),
        text: "section .text\nglobal _start\n_start:\n\tmov rbp, rsp\n"@,
        symbols: seq![],
        stack: 0,
        params: 0,
    }
}

/// The assembly program for the intermediate code, where `types` gives the type of each
/// name; `None` where generating it fails.
pub open spec fn assembly(data: Seq<BufferV>, code: Seq<InstrV>, types: Table) -> Option<Seq<char>> {
    match run(start_state(data), code, types) {
        Some(st) => Some(st.data + "\n"@ + st.text + code_tail()),
        None => None,
    }
}

} // verus!

verus! {

/// The generator: the data and code sections so far, where each written operand lives,
/// the stack taken, and the parameters just passed in a row.
struct AsmGenerator {
    asm_data: String,
    asm_text: String,
    symbol_table: SymbolTable,
    current_stack: usize,
    num_params: usize,
}

impl AsmGenerator {
    spec fn state(&self) -> GenState {
        GenState {
            data: self.asm_data@,
            text: self.asm_text@,
            symbols: self.symbol_table@,
            stack: self.current_stack as nat,
            params: self.num_params as nat,
        }
    }

    /// Where a name lives.
    fn located_text(&self, name: &String) -> (r: String)
        ensures
            r@ == located(self.state(), name@),
    {
        match self.symbol_table.get(name.as_str()) {
            Some(l) => l,
            None => name.clone(),
        }
    }

    /// The operand text of a value; `None` where reading it fails.
    fn get_value(&mut self, value: &Value, types: &SymbolTable) -> (r: Option<String>)
        ensures
            match r {
                Some(s) => value_of(old(self).state(), value@, types@) == Some((final(self).state(), s@)),
                None => value_of(old(self).state(), value@, types@) is None,
            },
            final(self).current_stack == old(self).current_stack,
            final(self).num_params == old(self).num_params,
    {
        match value {
            Value::Identifier { id } => Some(self.located_text(id)),
            Value::Constant { value } => Some(value.clone()),
            Value::MemPos { id, offset } => {
                let ov = self.located_text(offset);
                if contains_char(ov.as_str(), '[') {
                    let t = match types.get(offset.as_str()) {
                        Some(t) => t,
                        None => {
                            return None;
                        },
                    };
                    let sz = match get_size_for_type(t.as_str()) {
                        Some(sz) => sz,
                        None => {
                            return None;
                        },
                    };
                    let acc = match get_reg_with_size("rax", sz) {
                        Some(acc) => acc,
                        None => {
                            return None;
                        },
                    };
                    self.asm_text.append("\tmov ");
                    self.asm_text.append(acc.as_str());
                    self.asm_text.append(", ");
                    self.asm_text.append(ov.as_str());
                    self.asm_text.append("\n");
                    assert(self.asm_text@ =~= old(self).asm_text@ + ("\tmov "@ + acc@ + ", "@ + ov@ + "\n"@));
                    Some(acc)
                } else {
                    let r = match get_reg_with_size(ov.as_str(), 4) {
                        Some(r) => r,
                        None => {
                            return None;
                        },
                    };
                    let mut s = string_of("byte [");
                    s.append(id.as_str());
                    s.append(" + ");
                    s.append(r.as_str());
                    s.append("]");
                    assert(s@ =~= "byte ["@ + id@ + " + "@ + r@ + "]"@);
                    Some(s)
                }
            },
        }
    }

    /// Places `dest` in the next register or a new stack slot; `false` where that fails.
    fn insert_reg(&mut self, dest: String, size: usize) -> (r: bool)
        requires
            old(self).current_stack + size <= usize::MAX,
        ensures
            r == (insert_reg(old(self).state(), dest@, size as nat) is Some),
            r ==> final(self).state() == insert_reg(old(self).state(), dest@, size as nat).unwrap(),
            final(self).current_stack <= old(self).current_stack + size,
            final(self).num_params == old(self).num_params,
    {
        let n = self.symbol_table.len();
        if n < 7 {
            let base = if n == 0 {
                string_of("rbx")
            } else {
                let mut b = string_of("r");
                push_decimal(&mut b, (n + 9) as u64);
                b
            };
            proof {
                if n > 0 {
                    reveal_strlit("r");
                }
            }
            match get_reg_with_size(base.as_str(), size) {
                Some(reg) => {
                    self.symbol_table.insert(dest, reg);
                    true
                },
                None => false,
            }
        } else {
            let w = match get_word_for_size(size) {
                Some(w) => w,
                None => {
                    return false;
                },
            };
            self.current_stack = self.current_stack + size;
            let mut slot = string_of(w);
            slot.append(" [rbp-");
            push_decimal(&mut slot, self.current_stack as u64);
            slot.append("]");
            self.symbol_table.insert(dest, slot);
            true
        }
    }

    /// Places a written name that has no place yet, sized by its type.
    fn place(&mut self, dest: &Value, types: &SymbolTable) -> (r: bool)
        requires
            old(self).current_stack + 8 <= usize::MAX,
        ensures
            r == (placed(old(self).state(), dest@, types@) is Some),
            r ==> final(self).state() == placed(old(self).state(), dest@, types@).unwrap(),
            final(self).current_stack <= old(self).current_stack + 8,
            final(self).num_params == old(self).num_params,
    {
        match dest {
            Value::Identifier { id } => {
                if self.symbol_table.get(id.as_str()).is_some() {
                    return true;
                }
                match types.get(id.as_str()) {
                    Some(t) => match get_size_for_type(t.as_str()) {
                        Some(sz) => self.insert_reg(id.clone(), sz),
                        None => false,
                    },
                    None => false,
                }
            },
            _ => true,
        }
    }
}

} // verus!

verus! {

impl AsmGenerator {
    fn get_assign(&mut self, dest: &Value, src: &Value, types: &SymbolTable) -> (r: Option<String>)
        requires
            old(self).current_stack + 8 <= usize::MAX,
        ensures
            match r {
                Some(s) => assign_piece(old(self).state(), dest@, src@, types@) == Some((final(self).state(), s@)),
                None => assign_piece(old(self).state(), dest@, src@, types@) is None,
            },
            final(self).current_stack <= old(self).current_stack + 8,
            final(self).num_params == old(self).num_params,
    {
        if !self.place(dest, types) {
            return None;
        }
        let src_val = match self.get_value(src, types) {
            Some(v) => v,
            None => {
                return None;
            },
        };
        let dest_val = match self.get_value(dest, types) {
            Some(v) => v,
            None => {
                return None;
            },
        };
        let acc = match get_reg_with_size("rax", 1) {
            Some(a) => a,
            None => {
                return None;
            },
        };
        let mut s = String::new();
        if contains_char(src_val.as_str(), '[') && contains_char(dest_val.as_str(), '[') {
            s.append("\tpush rax\n\tmov ");
            s.append(acc.as_str());
            s.append(", ");
            s.append(src_val.as_str());
            s.append("\n\tmov ");
            s.append(dest_val.as_str());
            s.append(", ");
            s.append(acc.as_str());
            s.append("\n\tpop rax\n");
            assert(s@ =~= "\tpush rax\n\tmov "@ + acc@ + ", "@ + src_val@ + "\n\tmov "@ + dest_val@ + ", "@ + acc@ + "\n\tpop rax\n"@);
        } else {
            s.append("\tmov ");
            s.append(dest_val.as_str());
            s.append(", ");
            s.append(src_val.as_str());
            s.append("\n");
            assert(s@ =~= "\tmov "@ + dest_val@ + ", "@ + src_val@ + "\n"@);
        }
        Some(s)
    }

    fn get_not(&mut self, dest: &Value, src: &Value, types: &SymbolTable) -> (r: Option<String>)
        requires
            old(self).current_stack + 8 <= usize::MAX,
        ensures
            match r {
                Some(s) => not_piece(old(self).state(), dest@, src@, types@) == Some((final(self).state(), s@)),
                None => not_piece(old(self).state(), dest@, src@, types@) is None,
            },
            final(self).current_stack <= old(self).current_stack + 8,
            final(self).num_params == old(self).num_params,
    {
        if !self.place(dest, types) {
            return None;
        }
        let d = match self.get_value(dest, types) {
            Some(v) => v,
            None => {
                return None;
            },
        };
        let sv = match self.get_value(src, types) {
            Some(v) => v,
            None => {
                return None;
            },
        };
        let mut s = string_of("\tmov ");
        s.append(d.as_str());
        s.append(", ");
        s.append(sv.as_str());
        s.append("\n\tnot ");
        s.append(d.as_str());
        s.append("\n\tand ");
        s.append(d.as_str());
        s.append(", 1\n");
        assert(s@ =~= "\tmov "@ + d@ + ", "@ + sv@ + "\n\tnot "@ + d@ + "\n\tand "@ + d@ + ", 1\n"@);
        Some(s)
    }

    fn get_values3(&mut self, a: &Value, b: &Value, c: &Value, types: &SymbolTable) -> (r: Option<(String, String, String)>)
        ensures
            match r {
                Some((x, y, z)) => values3(old(self).state(), a@, b@, c@, types@) == Some((final(self).state(), x@, y@, z@)),
                None => values3(old(self).state(), a@, b@, c@, types@) is None,
            },
            final(self).current_stack == old(self).current_stack,
            final(self).num_params == old(self).num_params,
    {
        let x = match self.get_value(a, types) {
            Some(v) => v,
            None => {
                return None;
            },
        };
        let y = match self.get_value(b, types) {
            Some(v) => v,
            None => {
                return None;
            },
        };
        let z = match self.get_value(c, types) {
            Some(v) => v,
            None => {
                return None;
            },
        };
        Some((x, y, z))
    }

    fn get_simple_op(&mut self, dest: &Value, src1: &Value, src2: &Value, op: &Op, types: &SymbolTable) -> (r: Option<String>)
        requires
            *op == Op::Add || *op == Op::Sub || *op == Op::And || *op == Op::Or,
        ensures
            match r {
                Some(s) => match values3(old(self).state(), dest@, src1@, src2@, types@) {
                    Some((st2, d, s1, s2)) => final(self).state() == st2 && s@ == "\tmov "@ + d + ", "@ + s1 + "\n\t"@ + simple_name(*op) + " "@ + d + ", "@ + s2 + "\n"@,
                    None => false,
                },
                None => values3(old(self).state(), dest@, src1@, src2@, types@) is None,
            },
            final(self).current_stack == old(self).current_stack,
            final(self).num_params == old(self).num_params,
    {
        let (d, s1, s2) = match self.get_values3(dest, src1, src2, types) {
            Some(t) => t,
            None => {
                return None;
            },
        };
        let name = match op {
            Op::Add => "add",
            Op::Sub => "sub",
            Op::And => "and",
            _ => "or",
        };
        let mut s = string_of("\tmov ");
        s.append(d.as_str());
        s.append(", ");
        s.append(s1.as_str());
        s.append("\n\t");
        s.append(name);
        s.append(" ");
        s.append(d.as_str());
        s.append(", ");
        s.append(s2.as_str());
        s.append("\n");
        assert(s@ =~= "\tmov "@ + d@ + ", "@ + s1@ + "\n\t"@ + simple_name(*op) + " "@ + d@ + ", "@ + s2@ + "\n"@);
        Some(s)
    }

    fn get_mul(&mut self, dest: &Value, src1: &Value, src2: &Value, types: &SymbolTable) -> (r: Option<String>)
        ensures
            match r {
                Some(s) => mul_piece(old(self).state(), dest@, src1@, src2@, types@) == Some((final(self).state(), s@)),
                None => mul_piece(old(self).state(), dest@, src1@, src2@, types@) is None,
            },
            final(self).current_stack == old(self).current_stack,
            final(self).num_params == old(self).num_params,
    {
        let same = same_value(src2, dest);
        let (first, other) = if same { (src2, src1) } else { (src1, src2) };
        let d = match self.get_value(dest, types) {
            Some(v) => v,
            None => {
                return None;
            },
        };
        let f = match self.get_value(first, types) {
            Some(v) => v,
            None => {
                return None;
            },
        };
        let acc = match get_reg_with_size("rax", 1) {
            Some(a) => a,
            None => {
                return None;
            },
        };
        let o = match self.get_value(other, types) {
            Some(v) => v,
            None => {
                return None;
            },
        };
        let mut s = string_of("\tmov ");
        s.append(d.as_str());
        s.append(", ");
        s.append(f.as_str());
        s.append("\n\tmov ");
        s.append(acc.as_str());
        s.append(", ");
        s.append(o.as_str());
        s.append("\n\tmul ");
        s.append(d.as_str());
        s.append("\n\tmov ");
        s.append(d.as_str());
        s.append(", ");
        s.append(acc.as_str());
        s.append("\n");
        assert(s@ =~= "\tmov "@ + d@ + ", "@ + f@ + "\n\tmov "@ + acc@ + ", "@ + o@ + "\n\tmul "@ + d@ + "\n\tmov "@ + d@ + ", "@ + acc@ + "\n"@);
        Some(s)
    }

    fn get_div_or_mod(&mut self, dest: &Value, src1: &Value, src2: &Value, rem: bool, types: &SymbolTable) -> (r: Option<String>)
        ensures
            match r {
                Some(s) => div_piece(old(self).state(), dest@, src1@, src2@, rem, types@) == Some((final(self).state(), s@)),
                None => div_piece(old(self).state(), dest@, src1@, src2@, rem, types@) is None,
            },
            final(self).current_stack == old(self).current_stack,
            final(self).num_params == old(self).num_params,
    {
        let same = same_value(src1, dest);
        let (d, s2, s1) = match self.get_values3(dest, src2, src1, types) {
            Some(t) => t,
            None => {
                return None;
            },
        };
        let acc = match get_reg_with_size("rax", 1) {
            Some(a) => a,
            None => {
                return None;
            },
        };
        let d2 = match self.get_value(dest, types) {
            Some(v) => v,
            None => {
                return None;
            },
        };
        let w = match get_reg_with_size(d2.as_str(), 8) {
            Some(w) => w,
            None => {
                return None;
            },
        };
        let res = if rem {
            match get_reg_with_size("rdx", 1) {
                Some(x) => x,
                None => {
                    return None;
                },
            }
        } else {
            acc.clone()
        };
        Some(div_code(same, &acc, &d, &s1, &s2, &w, &res))
    }

    fn get_cmp(&mut self, dest: &Value, src1: &Value, src2: &Value, op: &Op, types: &SymbolTable) -> (r: Option<String>)
        ensures
            match r {
                Some(s) => cmp_piece(old(self).state(), dest@, src1@, src2@, *op, types@) == Some((final(self).state(), s@)),
                None => cmp_piece(old(self).state(), dest@, src1@, src2@, *op, types@) is None,
            },
            final(self).current_stack == old(self).current_stack,
            final(self).num_params == old(self).num_params,
    {
        let (d, s1, s2) = match self.get_values3(dest, src1, src2, types) {
            Some(t) => t,
            None => {
                return None;
            },
        };
        let rel = match get_relation_str(op) {
            Some(r) => r,
            None => {
                return None;
            },
        };
        let ghost before = self.asm_text@;
        self.asm_text.append("\tcmp ");
        self.asm_text.append(s1.as_str());
        self.asm_text.append(", ");
        self.asm_text.append(s2.as_str());
        self.asm_text.append("\n");
        assert(self.asm_text@ =~= before + ("\tcmp "@ + s1@ + ", "@ + s2@ + "\n"@));
        let mut s = string_of("\tset");
        s.append(rel);
        s.append(" ");
        s.append(d.as_str());
        s.append("\n");
        assert(s@ =~= "\tset"@ + rel@ + " "@ + d@ + "\n"@);
        Some(s)
    }

    fn get_if_goto(&mut self, src1: &Value, src2: &Value, cond: &Op, label: &String, types: &SymbolTable) -> (r: Option<String>)
        ensures
            match r {
                Some(s) => if_goto_piece(old(self).state(), src1@, src2@, *cond, label@, types@) == Some((final(self).state(), s@)),
                None => if_goto_piece(old(self).state(), src1@, src2@, *cond, label@, types@) is None,
            },
            final(self).current_stack == old(self).current_stack,
            final(self).num_params == old(self).num_params,
    {
        let s1 = match self.get_value(src1, types) {
            Some(v) => v,
            None => {
                return None;
            },
        };
        let s2 = match self.get_value(src2, types) {
            Some(v) => v,
            None => {
                return None;
            },
        };
        let rel = match get_relation_str(cond) {
            Some(r) => r,
            None => {
                return None;
            },
        };
        let mut s = string_of("\tcmp ");
        s.append(s1.as_str());
        s.append(", ");
        s.append(s2.as_str());
        s.append("\n\tj");
        s.append(rel);
        s.append(" ");
        s.append(label.as_str());
        s.append("\n");
        assert(s@ =~= "\tcmp "@ + s1@ + ", "@ + s2@ + "\n\tj"@ + rel@ + " "@ + label@ + "\n"@);
        Some(s)
    }

    fn get_param(&mut self, src: &Value, types: &SymbolTable) -> (r: Option<String>)
        ensures
            match r {
                Some(s) => param_piece(old(self).state(), src@, types@) == Some((final(self).state(), s@)),
                None => param_piece(old(self).state(), src@, types@) is None,
            },
            final(self).current_stack == old(self).current_stack,
            final(self).num_params == old(self).num_params,
    {
        let type_size: usize = match src {
            Value::Constant { value } => {
                if !parses_as_i32(value.as_str()) {
                    return None;
                }
                8
            },
            Value::Identifier { id } => {
                if self.symbol_table.get(id.as_str()).is_none() {
                    8
                } else {
                    match types.get(id.as_str()) {
                        Some(t) => match get_size_for_type(t.as_str()) {
                            Some(sz) => sz,
                            None => {
                                return None;
                            },
                        },
                        None => {
                            return None;
                        },
                    }
                }
            },
            Value::MemPos { id, .. } => match types.get(id.as_str()) {
                Some(t) => match get_size_for_type(t.as_str()) {
                    Some(sz) => sz,
                    None => {
                        return None;
                    },
                },
                None => {
                    return None;
                },
            },
        };
        let ghost params = self.num_params;
        let reg = match self.get_value(src, types) {
            Some(v) => v,
            None => {
                return None;
            },
        };
        let base = if self.num_params == 1 {
            "rdi"
        } else if self.num_params == 2 {
            "rsi"
        } else if self.num_params == 3 {
            "rdx"
        } else if self.num_params == 4 {
            "rcx"
        } else if self.num_params == 5 {
            "r8"
        } else if self.num_params == 6 {
            "r9"
        } else {
            return None;
        };
        let target = match get_reg_with_size(base, type_size) {
            Some(t) => t,
            None => {
                return None;
            },
        };
        let mut s = string_of("\tmov ");
        s.append(target.as_str());
        s.append(", ");
        s.append(reg.as_str());
        s.append("\n");
        assert(s@ =~= "\tmov "@ + target@ + ", "@ + reg@ + "\n"@);
        Some(s)
    }
}

/// The code of a division.
fn div_code(same: bool, acc: &String, d: &String, s1: &String, s2: &String, w: &String, res: &String) -> (r: String)
    ensures
        r@ == div_text(same, acc@, d@, s1@, s2@, w@, res@),
{
    let mut s = string_of("\tmov rax, 0\n\tmov rdx, 0\n");
    let ghost head = s@;
    if same {
        s.append("\tmov ");
        s.append(acc.as_str());
        s.append(", ");
        s.append(s1.as_str());
        s.append("\n\tmov ");
        s.append(d.as_str());
        s.append(", ");
        s.append(s2.as_str());
        s.append("\n");
        assert(s@ =~= head + ("\tmov "@ + acc@ + ", "@ + s1@ + "\n\tmov "@ + d@ + ", "@ + s2@ + "\n"@));
    } else {
        s.append("\tmov ");
        s.append(d.as_str());
        s.append(", ");
        s.append(s2.as_str());
        s.append("\n\tmov ");
        s.append(acc.as_str());
        s.append(", ");
        s.append(s1.as_str());
        s.append("\n");
        assert(s@ =~= head + ("\tmov "@ + d@ + ", "@ + s2@ + "\n\tmov "@ + acc@ + ", "@ + s1@ + "\n"@));
    }
    let ghost mid = s@;
    s.append("\tdiv ");
    s.append(w.as_str());
    s.append("\n\tmov ");
    s.append(d.as_str());
    s.append(", ");
    s.append(res.as_str());
    s.append("\n");
    assert(s@ =~= mid + ("\tdiv "@ + w@ + "\n\tmov "@ + d@ + ", "@ + res@ + "\n"@));
    s
}

/// Whether two operands are the same.
fn same_value(a: &Value, b: &Value) -> (r: bool)
    ensures
        r == (a@ == b@),
{
    match (a, b) {
        (Value::Identifier { id: x }, Value::Identifier { id: y }) => str_eq(x.as_str(), y.as_str()),
        (Value::Constant { value: x }, Value::Constant { value: y }) => str_eq(x.as_str(), y.as_str()),
        (Value::MemPos { id: x, offset: o }, Value::MemPos { id: y, offset: p }) => str_eq(x.as_str(), y.as_str())
            && str_eq(o.as_str(), p.as_str()),
        _ => false,
    }
}

} // verus!

verus! {

impl AsmGenerator {
    /// Adds the code of one instruction; `false` where generating it fails.
    fn generate_instruction(&mut self, instruction: &IrInstruction, types: &SymbolTable) -> (r: bool)
        requires
            old(self).current_stack + 8 <= usize::MAX,
            old(self).num_params < usize::MAX,
        ensures
            r == (step(old(self).state(), instruction@, types@) is Some),
            r ==> final(self).state() == step(old(self).state(), instruction@, types@).unwrap(),
            final(self).current_stack <= old(self).current_stack + 8,
            final(self).num_params <= old(self).num_params + 1,
    {
        reveal(step);
        match instruction {
            IrInstruction::Param { .. } => {
                self.num_params = self.num_params + 1;
            },
            _ => {
                self.num_params = 0;
            },
        }
        let piece: Option<String> = match instruction {
            IrInstruction::Ass { dest, src } => self.get_assign(dest, src, types),
            IrInstruction::Not { dest, src } => self.get_not(dest, src, types),
            IrInstruction::Op { dest, src1, op, src2 } => {
                if !self.place(dest, types) {
                    None
                } else {
                    match op {
                        Op::Add | Op::Sub | Op::And | Op::Or => self.get_simple_op(dest, src1, src2, op, types),
                        Op::Mul => self.get_mul(dest, src1, src2, types),
                        Op::Div => self.get_div_or_mod(dest, src1, src2, false, types),
                        Op::Mod => self.get_div_or_mod(dest, src1, src2, true, types),
                        _ => self.get_cmp(dest, src1, src2, op, types),
                    }
                }
            },
            IrInstruction::Label(label) => {
                let mut s = string_of(label.as_str());
                s.append(":\n");
                Some(s)
            },
            IrInstruction::Goto { label } => {
                let mut s = string_of("\tjmp ");
                s.append(label.as_str());
                s.append("\n");
                Some(s)
            },
            IrInstruction::IfGoto { src1, src2, cond, label } => self.get_if_goto(src1, src2, cond, label, types),
            IrInstruction::Param { src } => self.get_param(src, types),
            IrInstruction::Call { label } => {
                let mut s = string_of("\tcall ");
                s.append(label.as_str());
                s.append("\n");
                Some(s)
            },
            IrInstruction::Ret { .. } => Some(String::new()),
        };
        match piece {
            Some(s) => {
                self.asm_text.append(s.as_str());
                true
            },
            None => false,
        }
    }
}

} // verus!

verus! {

impl AsmGenerator {
    /// Adds a line to the data section for each buffer.
    fn generate_data(&mut self, data: &Vec<Buffer>)
        ensures
            final(self).state() == (GenState { data: old(self).state().data + data_section(data_view(data@)), ..old(self).state() }),
    {
        let ghost d = data_view(data@);
        let mut i: usize = 0;
        assert(d.take(0) =~= Seq::<BufferV>::empty());
        assert(old(self).asm_data@ + data_section(Seq::<BufferV>::empty()) =~= old(self).asm_data@);
        while i < data.len()
            invariant
                d == data_view(data@),
                d.len() == data.len(),
                i <= data.len(),
                self.asm_data@ == old(self).asm_data@ + data_section(d.take(i as int)),
                self.asm_text == old(self).asm_text,
                self.symbol_table == old(self).symbol_table,
                self.current_stack == old(self).current_stack,
                self.num_params == old(self).num_params,
            decreases data.len() - i,
        {
            let ghost before = self.asm_data@;
            self.asm_data.append(data[i].label.as_str());
            self.asm_data.append(":\tdb\t");
            self.asm_data.append(data[i].contents.as_str());
            self.asm_data.append("\n");
            proof {
                assert(d.take(i as int + 1).drop_last() =~= d.take(i as int));
                assert(d.take(i as int + 1).last() == data@[i as int]@);
                assert(self.asm_data@ =~= before + (data@[i as int].label@ + ":\tdb\t"@ + data@[i as int].contents@ + "\n"@));
            }
            i += 1;
        }
        assert(d.take(i as int) =~= d);
    }

    /// Adds the code of the instructions and the exit and print routines; `false` where
    /// generating an instruction fails.
    fn generate_code(&mut self, code: &Vec<IrInstruction>, types: &SymbolTable) -> (r: bool)
        requires
            old(self).current_stack == 0,
            old(self).num_params == 0,
            code.len() <= usize::MAX / 8,
        ensures
            r == (run(old(self).state(), code_view(code@), types@) is Some),
            r ==> final(self).state() == emit(run(old(self).state(), code_view(code@), types@).unwrap(), code_tail()),
    {
        let ghost s = code_view(code@);
        let ghost st0 = self.state();
        let mut i: usize = 0;
        assert(s.take(0) =~= Seq::<InstrV>::empty());
        while i < code.len()
            invariant
                s == code_view(code@),
                s.len() == code.len(),
                code.len() <= usize::MAX / 8,
                i <= code.len(),
                self.current_stack <= 8 * i,
                self.num_params <= i,
                run(st0, s.take(i as int), types@) == Some(self.state()),
                st0 == old(self).state(),
            decreases code.len() - i,
        {
            proof {
                assert(s.take(i as int + 1).drop_last() =~= s.take(i as int));
                assert(s.take(i as int + 1).last() == code@[i as int]@);
            }
            if !self.generate_instruction(&code[i], types) {
                proof {
                    lemma_run_fails_after(st0, s, i as int + 1, types@);
                }
                return false;
            }
            i += 1;
        }
        assert(s.take(i as int) =~= s);
        let ghost before = self.asm_text@;
        self.asm_text.append("\n\tmov rdi, 0\nexit:\n\tmov rax, 60\n\tsyscall\n");
        self.asm_text.append("\nprint:\n\tmov rax, 1\n\tsyscall\n\tret\n");
        assert(self.asm_text@ =~= before + code_tail());
        true
    }
}

/// Where a prefix of the code fails, the whole code fails.
proof fn lemma_run_fails_after(st: GenState, s: Seq<InstrV>, k: int, types: Table)
    requires
        0 <= k <= s.len(),
        run(st, s.take(k), types) is None,
    ensures
        run(st, s, types) is None,
    decreases s.len(),
{
    if k < s.len() {
        assert(s.drop_last().take(k) =~= s.take(k));
        lemma_run_fails_after(st, s.drop_last(), k, types);
    } else {
        assert(s.take(k) =~= s);
    }
}

/// The assembly program, or `None` where generating it fails.
fn assemble(ir: &Ir, type_table: &SymbolTable) -> (r: Option<String>)
    requires
        ir.code.len() <= usize::MAX / 8,
    ensures
        match r {
            Some(s) => assembly(data_view(ir.data@), code_view(ir.code@), type_table@) == Some(s@),
            None => assembly(data_view(ir.data@), code_view(ir.code@), type_table@) is None,
        },
{
    let mut generator = AsmGenerator {
        asm_data: string_of("section .data\n"),
        asm_text: string_of("section .text\nglobal _start\n_start:\n\tmov rbp, rsp\n"),
        symbol_table: SymbolTable::new(),
        current_stack: 0,
        num_params: 0,
    };
    generator.generate_data(&ir.data);
    assert(generator.state() == start_state(data_view(ir.data@)));
    if !generator.generate_code(&ir.code, type_table) {
        return None;
    }
    let mut out = generator.asm_data;
    out.append("\n");
    out.append(generator.asm_text.as_str());
    Some(out)
}

/// Whether the assembly program for the intermediate code can be generated: every
/// written name has a type with a size, every parameter is one of the first six in a row,
/// and every register and memory operand can be resized.
pub fn can_generate_asm(ir: &Ir, type_table: &SymbolTable) -> (r: bool)
    requires
        ir.code.len() <= usize::MAX / 8,
    ensures
        r == (assembly(data_view(ir.data@), code_view(ir.code@), type_table@) is Some),
{
    assemble(ir, type_table).is_some()
}

/// The assembly program for the intermediate code: the data section, then the code with
/// the exit and print routines; `type_table` gives the type of each name.
pub fn generate_asm(ir: Ir, type_table: &SymbolTable) -> (s: String)
    requires
        ir.code.len() <= usize::MAX / 8,
        assembly(data_view(ir.data@), code_view(ir.code@), type_table@) is Some,
    ensures
        s@ == assembly(data_view(ir.data@), code_view(ir.code@), type_table@).unwrap(),
{
    match assemble(&ir, type_table) {
        Some(s) => s,
        None => String::new(),
    }
}

} // verus!

verus! {

/// The table `b` keeps every entry of `a`, in place, and may add more after them.
pub open spec fn extends(a: Table, b: Table) -> bool {
    a.len() <= b.len() && b.take(a.len() as int) == a
}

proof fn lemma_extends_trans(a: Table, b: Table, c: Table)
    requires
        extends(a, b),
        extends(b, c),
    ensures
        extends(a, c),
{
    assert(c.take(a.len() as int) =~= c.take(b.len() as int).take(a.len() as int));
}

proof fn lemma_piece_extends(st: GenState, i: InstrV, types: Table)
    requires
        piece(st, i, types) is Some,
    ensures
        extends(st.symbols, piece(st, i, types).unwrap().0.symbols),
{
    assert forall|s: GenState, v: ValueV| #[trigger] value_of(s, v, types) is Some implies value_of(s, v, types).unwrap().0.symbols
        == s.symbols by {}
    assert forall|s: GenState, d: ValueV| #[trigger] placed(s, d, types) is Some implies extends(s.symbols, placed(s, d, types).unwrap().symbols) by {
        match placed(s, d, types) {
            Some(s2) => {
                assert(s2.symbols.take(s.symbols.len() as int) =~= s.symbols);
            },
            None => {},
        }
    }
    assert forall|s: GenState, a: ValueV, b: ValueV, c: ValueV| #[trigger] values3(s, a, b, c, types) is Some implies values3(s, a, b, c, types).unwrap().0.symbols
        == s.symbols by {}
    assert(extends(st.symbols, st.symbols)) by {
        assert(st.symbols.take(st.symbols.len() as int) =~= st.symbols);
    }
    match i {
        InstrV::Op { dest, src1, op, src2 } => {
            let st1 = placed(st, dest, types).unwrap();
            assert(extends(st1.symbols, piece(st, i, types).unwrap().0.symbols)) by {
                assert(st1.symbols.take(st1.symbols.len() as int) =~= st1.symbols);
            }
            lemma_extends_trans(st.symbols, st1.symbols, piece(st, i, types).unwrap().0.symbols);
        },
        InstrV::Ass { dest, .. } => {
            let st1 = placed(st, dest, types).unwrap();
            assert(extends(st1.symbols, piece(st, i, types).unwrap().0.symbols)) by {
                assert(st1.symbols.take(st1.symbols.len() as int) =~= st1.symbols);
            }
            lemma_extends_trans(st.symbols, st1.symbols, piece(st, i, types).unwrap().0.symbols);
        },
        InstrV::Not { dest, .. } => {
            let st1 = placed(st, dest, types).unwrap();
            assert(extends(st1.symbols, piece(st, i, types).unwrap().0.symbols)) by {
                assert(st1.symbols.take(st1.symbols.len() as int) =~= st1.symbols);
            }
            lemma_extends_trans(st.symbols, st1.symbols, piece(st, i, types).unwrap().0.symbols);
        },
        _ => {},
    }
}

/// A name keeps the register or stack slot it was given: however far generation goes,
/// the table of places of a later state starts with that of an earlier one.
pub proof fn lemma_places_are_kept(st: GenState, s: Seq<InstrV>, types: Table)
    requires
        run(st, s, types) is Some,
    ensures
        extends(st.symbols, run(st, s, types).unwrap().symbols),
    decreases s.len(),
{
    if s.len() == 0 {
        assert(st.symbols.take(st.symbols.len() as int) =~= st.symbols);
    } else {
        lemma_places_are_kept(st, s.drop_last(), types);
        let st1 = run(st, s.drop_last(), types).unwrap();
        let st0 = GenState { params: if s.last() is Param { st1.params + 1 } else { 0 }, ..st1 };
        reveal(step);
        lemma_piece_extends(st0, s.last(), types);
        lemma_extends_trans(st.symbols, st1.symbols, run(st, s, types).unwrap().symbols);
    }
}

} // verus!

verus! {

/// The value that an x86 instruction updating its destination in place leaves there, by
/// its mnemonic, for destination `d` and source `s`.
pub open spec fn x86_update(m: Seq<char>, d: i64, s: i64) -> Option<int> {
    if m == seq!['a', 'd', 'd'] {
        Some(d + s)
    } else if m == seq!['s', 'u', 'b'] {
        Some(d - s)
    } else if m == seq!['a', 'n', 'd'] {
        Some((d & s) as int)
    } else if m == seq!['o', 'r'] {
        Some((d | s) as int)
    } else {
        None
    }
}

/// What an operation of the intermediate code computes on two integers.
pub open spec fn ir_value(op: Op, x: i64, y: i64) -> Option<int> {
    match op {
        Op::Add => Some(x + y),
        Op::Sub => Some(x - y),
        Op::And => Some((x & y) as int),
        Op::Or => Some((x | y) as int),
        _ => None,
    }
}

/// Whether an x86 condition code, by its suffix, holds after comparing `a` with `b`.
pub open spec fn x86_condition(t: Seq<char>, a: int, b: int) -> Option<bool> {
    if t == seq!['e'] {
        Some(a == b)
    } else if t == seq!['n', 'e'] {
        Some(a != b)
    } else if t == seq!['l'] {
        Some(a < b)
    } else if t == seq!['l', 'e'] {
        Some(a <= b)
    } else if t == seq!['g'] {
        Some(a > b)
    } else if t == seq!['g', 'e'] {
        Some(a >= b)
    } else {
        None
    }
}

/// Each operation done in place is assembled to the x86 mnemonic that computes it: on all
/// integers, the instruction leaves in the destination what the operation gives.
pub proof fn lemma_simple_op_computes(op: Op, x: i64, y: i64)
    requires
        op == Op::Add || op == Op::Sub || op == Op::And || op == Op::Or,
    ensures
        x86_update(simple_name(op), x, y) == ir_value(op, x, y),
        ir_value(op, x, y) is Some,
{
    reveal_strlit("add");
    reveal_strlit("sub");
    reveal_strlit("and");
    reveal_strlit("or");
    assert("add"@ =~= seq!['a', 'd', 'd']);
    assert("sub"@ =~= seq!['s', 'u', 'b']);
    assert("and"@ =~= seq!['a', 'n', 'd']);
    assert("or"@ =~= seq!['o', 'r']);
    assert(seq!['s', 'u', 'b'][0] != seq!['a', 'd', 'd'][0]);
    assert(seq!['a', 'n', 'd'][1] != seq!['a', 'd', 'd'][1]);
    assert(seq!['a', 'n', 'd'][0] != seq!['s', 'u', 'b'][0]);
    assert(seq!['o', 'r'].len() != seq!['a', 'd', 'd'].len());
    assert(seq!['o', 'r'].len() != seq!['s', 'u', 'b'].len());
    assert(seq!['o', 'r'].len() != seq!['a', 'n', 'd'].len());
}

/// The condition suffix of each comparison names the x86 condition that holds exactly when
/// the comparison does, for all integers; other operators have none.
pub proof fn lemma_relation_text_means(op: Op, a: int, b: int)
    ensures
        is_comparison(op) ==> (relation_text(op) matches Some(t) && x86_condition(t, a, b) == Some(holds(op, a, b))),
        !is_comparison(op) ==> relation_text(op) is None,
{
    reveal_strlit("e");
    reveal_strlit("ne");
    reveal_strlit("l");
    reveal_strlit("le");
    reveal_strlit("g");
    reveal_strlit("ge");
    assert("e"@ =~= seq!['e']);
    assert("ne"@ =~= seq!['n', 'e']);
    assert("l"@ =~= seq!['l']);
    assert("le"@ =~= seq!['l', 'e']);
    assert("g"@ =~= seq!['g']);
    assert("ge"@ =~= seq!['g', 'e']);
    assert(seq!['n', 'e'][0] != seq!['e'][0]);
    assert(seq!['l'][0] != seq!['e'][0]);
    assert(seq!['l', 'e'][0] != seq!['n', 'e'][0]);
    assert(seq!['g'][0] != seq!['e'][0]);
    assert(seq!['g'][0] != seq!['l'][0]);
    assert(seq!['g', 'e'][0] != seq!['n', 'e'][0]);
    assert(seq!['g', 'e'][0] != seq!['l', 'e'][0]);
}

} // verus!
