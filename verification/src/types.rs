//! The types of the language and the system calls it knows.
use vstd::prelude::*;
use crate::text::{str_eq, string_of, chars_of};

verus! {

/// The number of a Linux system call, by name.
pub open spec fn syscall_number(name: Seq<char>) -> Option<nat> {
    if name == "read"@ {
        Some(0)
    } else if name == "write"@ {
        Some(1)
    } else if name == "open"@ {
        Some(2)
    } else if name == "close"@ {
        Some(3)
    } else if name == "mmap"@ {
        Some(9)
    } else if name == "exit"@ {
        Some(60)
    } else {
        None
    }
}

/// The number of a known system call.
pub fn get_syscall_num(syscall: String) -> (n: usize)
    requires
        syscall_number(syscall@) is Some,
    ensures
        n == syscall_number(syscall@).unwrap(),
{
    let s = syscall.as_str();
    if str_eq(s, "read") {
        0
    } else if str_eq(s, "write") {
        1
    } else if str_eq(s, "open") {
        2
    } else if str_eq(s, "close") {
        3
    } else if str_eq(s, "mmap") {
        9
    } else {
        60
    }
}

/// A type of the language: booleans, integers, characters, and arrays of a type.
#[derive(Debug, PartialEq, Eq, Hash)]
pub enum PrimitiveType {
    Bool,
    Int,
    Char,
    Arr(Box<PrimitiveType>),
}

/// The name of a type, as programs write it: `Int[]` for an array of integers.
pub open spec fn type_text(t: PrimitiveType) -> Seq<char>
    decreases t,
{
    match t {
        PrimitiveType::Bool => "Bool"@,
        PrimitiveType::Char => "Char"@,
        PrimitiveType::Int => "Int"@,
        PrimitiveType::Arr(e) => type_text(*e) + "[]"@,
    }
}

/// The text ends in `[]`.
pub open spec fn ends_with_brackets(s: Seq<char>) -> bool {
    s.len() >= 2 && s[s.len() - 2] == '[' && s[s.len() - 1] == ']'
}

/// The type that a type name names: each trailing `[]` makes an array of what precedes
/// it. `None` where the name is no type, and where a check for `[]` meets fewer than two
/// characters (a name that is read as a type must keep two characters to look at).
pub open spec fn type_of_text(s: Seq<char>) -> Option<PrimitiveType>
    decreases s.len(),
{
    if s.len() < 2 {
        None
    } else if ends_with_brackets(s) {
        match type_of_text(s.take(s.len() - 2)) {
            Some(t) => Some(PrimitiveType::Arr(Box::new(t))),
            None => None,
        }
    } else if s == "Bool"@ {
        Some(PrimitiveType::Bool)
    } else if s == "Char"@ {
        Some(PrimitiveType::Char)
    } else if s == "Int"@ {
        Some(PrimitiveType::Int)
    } else {
        None
    }
}

/// The size in bytes of a value of a type: arrays are held by an eight-byte address.
pub open spec fn type_size(t: PrimitiveType) -> nat {
    match t {
        PrimitiveType::Bool => 1,
        PrimitiveType::Char => 1,
        PrimitiveType::Int => 8,
        PrimitiveType::Arr(..) => 8,
    }
}

impl PrimitiveType {
    /// The type a type name names.
    pub fn from_str(type_str: &str) -> (t: PrimitiveType)
        requires
            type_of_text(type_str@) is Some,
        ensures
            t == type_of_text(type_str@).unwrap(),
    {
        let chars = chars_of(type_str);
        let mut end: usize = chars.len();
        let mut array_count: usize = 0;
        assert(chars@.take(end as int) =~= type_str@);
        while end >= 2 && chars[end - 2] == '[' && chars[end - 1] == ']'
            invariant
                chars@ == type_str@,
                end <= chars.len(),
                end + 2 * array_count == chars.len(),
                type_of_text(type_str@) == wrap(type_of_text(chars@.take(end as int)), array_count as nat),
                type_of_text(chars@.take(end as int)) is Some,
            decreases end,
        {
            let ghost pre = chars@.take(end as int);
            assert(pre.take(pre.len() - 2) =~= chars@.take(end as int - 2));
            proof {
                let inner = type_of_text(chars@.take(end as int - 2));
                assert(type_of_text(pre) == wrap(inner, 1)) by {
                    reveal_with_fuel(wrap, 2);
                }
                lemma_wrap_inner(inner, array_count as nat);
            }
            end = end - 2;
            array_count = array_count + 1;
        }
        let ghost base = chars@.take(end as int);
        let mut t = if end == 4 && chars[0] == 'B' {
            PrimitiveType::Bool
        } else if end == 4 {
            PrimitiveType::Char
        } else {
            PrimitiveType::Int
        };
        proof {
            reveal_strlit("Bool");
            reveal_strlit("Char");
            reveal_strlit("Int");
            assert(type_of_text(base) == Some(t));
        }
        let mut k: usize = 0;
        while k < array_count
            invariant
                0 <= k <= array_count,
                type_of_text(type_str@) == wrap(type_of_text(base), array_count as nat),
                wrap(Some(t), (array_count - k) as nat) == wrap(type_of_text(base), array_count as nat),
            decreases array_count - k,
        {
            proof {
                assert(wrap(Some(t), 1) == Some(PrimitiveType::Arr(Box::new(t)))) by {
                    reveal_with_fuel(wrap, 2);
                }
                lemma_wrap_inner(Some(t), (array_count - k - 1) as nat);
            }
            t = PrimitiveType::Arr(Box::new(t));
            k += 1;
        }
        t
    }

    /// The type a type name names, or `None` for a text that names none.
    pub fn parse(type_str: &str) -> (t: Option<PrimitiveType>)
        ensures
            t == type_of_text(type_str@),
    {
        let chars = chars_of(type_str);
        let mut end: usize = chars.len();
        let mut array_count: usize = 0;
        assert(chars@.take(end as int) =~= type_str@);
        assert(type_of_text(type_str@) == wrap(type_of_text(chars@.take(end as int)), 0));
        loop
            invariant
                chars@ == type_str@,
                end <= chars.len(),
                end + 2 * array_count == chars.len(),
                type_of_text(type_str@) == wrap(type_of_text(chars@.take(end as int)), array_count as nat),
            ensures
                chars@ == type_str@,
                2 <= end <= chars.len(),
                !ends_with_brackets(chars@.take(end as int)),
                type_of_text(type_str@) == wrap(type_of_text(chars@.take(end as int)), array_count as nat),
            decreases end,
        {
            if end < 2 {
                proof {
                    lemma_wrap_none(array_count as nat);
                }
                return None;
            }
            if !(chars[end - 2] == '[' && chars[end - 1] == ']') {
                break;
            }
            let ghost pre = chars@.take(end as int);
            assert(pre.take(pre.len() - 2) =~= chars@.take(end as int - 2));
            proof {
                let inner = type_of_text(chars@.take(end as int - 2));
                assert(type_of_text(pre) == wrap(inner, 1)) by {
                    reveal_with_fuel(wrap, 2);
                }
                lemma_wrap_inner(inner, array_count as nat);
            }
            end = end - 2;
            array_count = array_count + 1;
        }
        let ghost base = chars@.take(end as int);
        assert(base.len() == end);
        proof {
            reveal_strlit("Bool");
            reveal_strlit("Char");
            reveal_strlit("Int");
        }
        let mut t = if end == 4 && chars[0] == 'B' && chars[1] == 'o' && chars[2] == 'o' && chars[3] == 'l' {
            assert(base =~= "Bool"@);
            PrimitiveType::Bool
        } else if end == 4 && chars[0] == 'C' && chars[1] == 'h' && chars[2] == 'a' && chars[3] == 'r' {
            assert(base =~= "Char"@);
            PrimitiveType::Char
        } else if end == 3 && chars[0] == 'I' && chars[1] == 'n' && chars[2] == 't' {
            assert(base =~= "Int"@);
            PrimitiveType::Int
        } else {
            assert(type_of_text(base) is None) by {
                if base == "Bool"@ {
                    assert(base[0] == 'B' && base[1] == 'o' && base[2] == 'o' && base[3] == 'l');
                }
                if base == "Char"@ {
                    assert(base[0] == 'C' && base[1] == 'h' && base[2] == 'a' && base[3] == 'r');
                }
                if base == "Int"@ {
                    assert(base[0] == 'I' && base[1] == 'n' && base[2] == 't');
                }
            }
            proof {
                lemma_wrap_none(array_count as nat);
            }
            return None;
        };
        assert(type_of_text(base) == Some(t));
        let mut k: usize = 0;
        while k < array_count
            invariant
                0 <= k <= array_count,
                type_of_text(type_str@) == wrap(type_of_text(base), array_count as nat),
                wrap(Some(t), (array_count - k) as nat) == wrap(type_of_text(base), array_count as nat),
            decreases array_count - k,
        {
            proof {
                assert(wrap(Some(t), 1) == Some(PrimitiveType::Arr(Box::new(t)))) by {
                    reveal_with_fuel(wrap, 2);
                }
                lemma_wrap_inner(Some(t), (array_count - k - 1) as nat);
            }
            t = PrimitiveType::Arr(Box::new(t));
            k += 1;
        }
        Some(t)
    }

    /// The name of the type.
    pub fn as_string(&self) -> (s: String)
        ensures
            s@ == type_text(*self),
        decreases self,
    {
        match self {
            PrimitiveType::Bool => string_of("Bool"),
            PrimitiveType::Char => string_of("Char"),
            PrimitiveType::Int => string_of("Int"),
            PrimitiveType::Arr(t) => {
                let mut s = t.as_string();
                s.append("[]");
                s
            },
        }
    }

    /// The size in bytes of a value of the type.
    pub fn get_size(&self) -> (n: usize)
        ensures
            n == type_size(*self),
    {
        match self {
            PrimitiveType::Bool => 1,
            PrimitiveType::Char => 1,
            PrimitiveType::Int => 8,
            PrimitiveType::Arr(..) => 8,
        }
    }

    /// A copy of the type.
    pub fn copy(&self) -> (t: PrimitiveType)
        ensures
            t == *self,
        decreases self,
    {
        match self {
            PrimitiveType::Bool => PrimitiveType::Bool,
            PrimitiveType::Char => PrimitiveType::Char,
            PrimitiveType::Int => PrimitiveType::Int,
            PrimitiveType::Arr(t) => PrimitiveType::Arr(Box::new(t.copy())),
        }
    }

    /// Whether two types are the same.
    pub fn same(&self, other: &PrimitiveType) -> (r: bool)
        ensures
            r == (*self == *other),
        decreases self,
    {
        match (self, other) {
            (PrimitiveType::Bool, PrimitiveType::Bool) => true,
            (PrimitiveType::Char, PrimitiveType::Char) => true,
            (PrimitiveType::Int, PrimitiveType::Int) => true,
            (PrimitiveType::Arr(a), PrimitiveType::Arr(b)) => a.same(b),
            _ => false,
        }
    }
}

/// `n` levels of arrays around a type.
pub open spec fn wrap(t: Option<PrimitiveType>, n: nat) -> Option<PrimitiveType>
    decreases n,
{
    if n == 0 {
        t
    } else {
        match wrap(t, (n - 1) as nat) {
            Some(u) => Some(PrimitiveType::Arr(Box::new(u))),
            None => None,
        }
    }
}

proof fn lemma_wrap_none(n: nat)
    ensures
        wrap(None, n) is None,
    decreases n,
{
    if n > 0 {
        lemma_wrap_none((n - 1) as nat);
    }
}

proof fn lemma_wrap_inner(t: Option<PrimitiveType>, n: nat)
    ensures
        wrap(wrap(t, 1), n) == wrap(t, n + 1),
    decreases n,
{
    if n > 0 {
        lemma_wrap_inner(t, (n - 1) as nat);
    }
}

/// A text that names a type is that type's name: reading a name and writing the type
/// gives the text back.
pub proof fn lemma_text_type_roundtrip(s: Seq<char>)
    requires
        type_of_text(s) is Some,
    ensures
        type_text(type_of_text(s).unwrap()) == s,
    decreases s.len(),
{
    reveal_strlit("[]");
    if ends_with_brackets(s) {
        let p = s.take(s.len() - 2);
        lemma_text_type_roundtrip(p);
        assert(p + "[]"@ =~= s);
    }
}

/// Reading the name of a type gives the type back.
pub proof fn lemma_type_text_roundtrip(t: PrimitiveType)
    ensures
        type_of_text(type_text(t)) == Some(t),
    decreases t,
{
    reveal_strlit("Bool");
    reveal_strlit("Char");
    reveal_strlit("Int");
    reveal_strlit("[]");
    match t {
        PrimitiveType::Arr(e) => {
            lemma_type_text_roundtrip(*e);
            lemma_type_text_len(*e);
            let s = type_text(t);
            assert(s.take(s.len() - 2) =~= type_text(*e));
        },
        _ => {},
    }
}

proof fn lemma_type_text_len(t: PrimitiveType)
    ensures
        type_text(t).len() >= 3,
    decreases t,
{
    reveal_strlit("Bool");
    reveal_strlit("Char");
    reveal_strlit("Int");
    reveal_strlit("[]");
    match t {
        PrimitiveType::Arr(e) => lemma_type_text_len(*e),
        _ => {},
    }
}

/// The names of the language's three primitive types.
pub open spec fn valid_type_name(s: Seq<char>) -> bool {
    s == "Bool"@ || s == "Int"@ || s == "Char"@
}

/// Whether the text names one of the primitive types `Int`, `Bool` and `Char`.
pub fn is_valid_type(type_str: String) -> (r: bool)
    ensures
        r == valid_type_name(type_str@),
{
    let s = type_str.as_str();
    str_eq(s, "Bool") || str_eq(s, "Int") || str_eq(s, "Char")
}

} // verus!
