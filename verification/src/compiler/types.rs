//! Fixed-width machine types and the system calls the back end emits.
use vstd::prelude::*;
use crate::text::{str_eq, string_of, chars_of};
use crate::types::syscall_number;

verus! {

/// The number of a known system call.
pub fn get_syscall(syscall: String) -> (n: usize)
    requires
        syscall_number(syscall@) is Some,
    ensures
        n == syscall_number(syscall@).unwrap(),
{
    crate::types::get_syscall_num(syscall)
}

/// A machine type: a boolean, a pointer, or a signed or unsigned integer of 8 to 64 bits.
#[derive(Debug, PartialEq, Eq, Structural, Clone, Copy)]
pub enum PrimitiveType {
    Bool,
    Ptr,
    I8,
    I16,
    I32,
    I64,
    U8,
    U16,
    U32,
    U64,
}

/// The type that a name names; pointers have no name.
pub open spec fn named_type(s: Seq<char>) -> Option<PrimitiveType> {
    if s == "bool"@ {
        Some(PrimitiveType::Bool)
    } else if s == "i8"@ {
        Some(PrimitiveType::I8)
    } else if s == "i16"@ {
        Some(PrimitiveType::I16)
    } else if s == "i32"@ {
        Some(PrimitiveType::I32)
    } else if s == "i64"@ {
        Some(PrimitiveType::I64)
    } else if s == "u8"@ {
        Some(PrimitiveType::U8)
    } else if s == "u16"@ {
        Some(PrimitiveType::U16)
    } else if s == "u32"@ {
        Some(PrimitiveType::U32)
    } else if s == "u64"@ {
        Some(PrimitiveType::U64)
    } else {
        None
    }
}

/// Whether the text names a type.
pub fn is_valid_type(type_str: String) -> (r: bool)
    ensures
        r == (named_type(type_str@) is Some),
{
    let s = type_str.as_str();
    str_eq(s, "bool") || str_eq(s, "i8") || str_eq(s, "i16") || str_eq(s, "i32") || str_eq(s, "i64")
        || str_eq(s, "u8") || str_eq(s, "u16") || str_eq(s, "u32") || str_eq(s, "u64")
}

/// `[]` occurs in the text.
pub open spec fn contains_brackets(s: Seq<char>) -> bool {
    exists|i: int| 0 <= i < s.len() - 1 && s[i] == '[' && #[trigger] s[i + 1] == ']'
}

/// The name of the element type of a type text: a text holding `[]` loses its last two
/// characters.
pub open spec fn element_name(s: Seq<char>) -> Seq<char> {
    if contains_brackets(s) {
        s.take(s.len() - 2)
    } else {
        s
    }
}

/// The type of the elements a type text names; an array type names its element type.
pub fn get_type(type_str: String) -> (t: PrimitiveType)
    requires
        named_type(element_name(type_str@)) is Some,
    ensures
        t == named_type(element_name(type_str@)).unwrap(),
{
    let chars = chars_of(type_str.as_str());
    let mut found = false;
    if chars.len() >= 2 {
        let mut i: usize = 0;
        while i < chars.len() - 1
            invariant
                chars@ == type_str@,
                chars@.len() >= 2,
                0 <= i <= chars@.len() - 1,
                found == exists|j: int| 0 <= j < i && chars@[j] == '[' && #[trigger] chars@[j + 1] == ']',
            decreases chars.len() - i,
        {
            if chars[i] == '[' && chars[i + 1] == ']' {
                found = true;
            }
            i += 1;
        }
        assert(found == contains_brackets(type_str@)) by {
            if contains_brackets(type_str@) {
                let j = choose|j: int| 0 <= j < type_str@.len() - 1 && type_str@[j] == '[' && #[trigger] type_str@[j + 1] == ']';
                assert(0 <= j < i);
            }
        }
    }
    let end: usize = if found { chars.len() - 2 } else { chars.len() };
    let mut name = String::new();
    let mut k: usize = 0;
    while k < end
        invariant
            chars@ == type_str@,
            end <= chars.len(),
            0 <= k <= end,
            name@ == chars@.take(k as int),
        decreases end - k,
    {
        crate::text::push_char(&mut name, chars[k]);
        assert(chars@.take(k as int + 1) =~= chars@.take(k as int).push(chars@[k as int]));
        k += 1;
    }
    assert(name@ =~= element_name(type_str@));
    let s = name.as_str();
    if str_eq(s, "bool") {
        PrimitiveType::Bool
    } else if str_eq(s, "i8") {
        PrimitiveType::I8
    } else if str_eq(s, "i16") {
        PrimitiveType::I16
    } else if str_eq(s, "i32") {
        PrimitiveType::I32
    } else if str_eq(s, "i64") {
        PrimitiveType::I64
    } else if str_eq(s, "u8") {
        PrimitiveType::U8
    } else if str_eq(s, "u16") {
        PrimitiveType::U16
    } else if str_eq(s, "u32") {
        PrimitiveType::U32
    } else {
        PrimitiveType::U64
    }
}

/// The name of a type.
pub open spec fn name_of_type(t: PrimitiveType) -> Seq<char> {
    match t {
        PrimitiveType::Bool => "bool"@,
        PrimitiveType::I8 => "i8"@,
        PrimitiveType::I16 => "i16"@,
        PrimitiveType::I32 => "i32"@,
        PrimitiveType::I64 => "i64"@,
        PrimitiveType::U8 => "u8"@,
        PrimitiveType::U16 => "u16"@,
        PrimitiveType::U32 => "u32"@,
        PrimitiveType::U64 => "u64"@,
        PrimitiveType::Ptr => "ptr"@,
    }
}

/// The size in bytes of a value of a type.
pub open spec fn width(t: PrimitiveType) -> nat {
    match t {
        PrimitiveType::Bool | PrimitiveType::I8 | PrimitiveType::U8 => 1,
        PrimitiveType::I16 | PrimitiveType::U16 => 2,
        PrimitiveType::I32 | PrimitiveType::U32 => 4,
        PrimitiveType::I64 | PrimitiveType::U64 | PrimitiveType::Ptr => 8,
    }
}

impl PrimitiveType {
    /// The name of the type.
    pub fn as_string(&self) -> (s: String)
        ensures
            s@ == name_of_type(*self),
    {
        string_of(
            match self {
                PrimitiveType::Bool => "bool",
                PrimitiveType::I8 => "i8",
                PrimitiveType::I16 => "i16",
                PrimitiveType::I32 => "i32",
                PrimitiveType::I64 => "i64",
                PrimitiveType::U8 => "u8",
                PrimitiveType::U16 => "u16",
                PrimitiveType::U32 => "u32",
                PrimitiveType::U64 => "u64",
                PrimitiveType::Ptr => "ptr",
            },
        )
    }

    /// The size in bytes of a value of the type.
    pub fn get_size(&self) -> (n: usize)
        ensures
            n == width(*self),
    {
        match self {
            PrimitiveType::Bool => 1,
            PrimitiveType::I8 => 1,
            PrimitiveType::I16 => 2,
            PrimitiveType::I32 => 4,
            PrimitiveType::I64 => 8,
            PrimitiveType::U8 => 1,
            PrimitiveType::U16 => 2,
            PrimitiveType::U32 => 4,
            PrimitiveType::U64 => 8,
            PrimitiveType::Ptr => 8,
        }
    }
}

/// Every named type reads back from its name; the pointer type has no name to read.
pub proof fn lemma_type_name_roundtrip(t: PrimitiveType)
    requires
        t != PrimitiveType::Ptr,
    ensures
        named_type(name_of_type(t)) == Some(t),
{
    reveal_strlit("bool");
    reveal_strlit("i8");
    reveal_strlit("i16");
    reveal_strlit("i32");
    reveal_strlit("i64");
    reveal_strlit("u8");
    reveal_strlit("u16");
    reveal_strlit("u32");
    reveal_strlit("u64");
    match t {
        PrimitiveType::Bool => {
            assert(named_type(name_of_type(t)) == Some(t));
        },
        PrimitiveType::I8 => {
            assert("i8"@.len() != "bool"@.len());
            assert(named_type(name_of_type(t)) == Some(t));
        },
        PrimitiveType::I16 => {
            assert("i16"@.len() != "bool"@.len());
            assert("i16"@.len() != "i8"@.len());
            assert(named_type(name_of_type(t)) == Some(t));
        },
        PrimitiveType::I32 => {
            assert("i32"@.len() != "bool"@.len());
            assert("i32"@.len() != "i8"@.len());
            assert("i32"@[1] != "i16"@[1]);
            assert(named_type(name_of_type(t)) == Some(t));
        },
        PrimitiveType::I64 => {
            assert("i64"@.len() != "bool"@.len());
            assert("i64"@.len() != "i8"@.len());
            assert("i64"@[1] != "i16"@[1]);
            assert("i64"@[1] != "i32"@[1]);
            assert(named_type(name_of_type(t)) == Some(t));
        },
        PrimitiveType::U8 => {
            assert("u8"@.len() != "bool"@.len());
            assert("u8"@[0] != "i8"@[0]);
            assert("u8"@.len() != "i16"@.len());
            assert("u8"@.len() != "i32"@.len());
            assert("u8"@.len() != "i64"@.len());
            assert(named_type(name_of_type(t)) == Some(t));
        },
        PrimitiveType::U16 => {
            assert("u16"@.len() != "bool"@.len());
            assert("u16"@.len() != "i8"@.len());
            assert("u16"@[0] != "i16"@[0]);
            assert("u16"@[0] != "i32"@[0]);
            assert("u16"@[0] != "i64"@[0]);
            assert("u16"@.len() != "u8"@.len());
            assert(named_type(name_of_type(t)) == Some(t));
        },
        PrimitiveType::U32 => {
            assert("u32"@.len() != "bool"@.len());
            assert("u32"@.len() != "i8"@.len());
            assert("u32"@[0] != "i16"@[0]);
            assert("u32"@[0] != "i32"@[0]);
            assert("u32"@[0] != "i64"@[0]);
            assert("u32"@.len() != "u8"@.len());
            assert("u32"@[1] != "u16"@[1]);
            assert(named_type(name_of_type(t)) == Some(t));
        },
        PrimitiveType::U64 => {
            assert("u64"@.len() != "bool"@.len());
            assert("u64"@.len() != "i8"@.len());
            assert("u64"@[0] != "i16"@[0]);
            assert("u64"@[0] != "i32"@[0]);
            assert("u64"@[0] != "i64"@[0]);
            assert("u64"@.len() != "u8"@.len());
            assert("u64"@[1] != "u16"@[1]);
            assert("u64"@[1] != "u32"@[1]);
            assert(named_type(name_of_type(t)) == Some(t));
        },
        PrimitiveType::Ptr => {},
    }
}

} // verus!
