//! Character and string helpers shared by the lexers, parsers and code generators.
use vstd::prelude::*;

verus! {

/// The `White_Space` property of Unicode: tab to carriage return, space, next line,
/// no-break space, ogham space mark, en quad to hair space, the line and paragraph
/// separators, narrow no-break space, medium mathematical space and ideographic space.
pub open spec fn is_whitespace(c: char) -> bool {
    let u = c as u32;
    (0x09 <= u && u <= 0x0D) || u == 0x20 || u == 0x85 || u == 0xA0 || u == 0x1680 || (0x2000 <= u
        && u <= 0x200A) || u == 0x2028 || u == 0x2029 || u == 0x202F || u == 0x205F || u == 0x3000
}

/// The `Alphabetic` or `Numeric` property of a character, as `char::is_alphanumeric` reads it.
pub uninterp spec fn is_alphanumeric(c: char) -> bool;

/// The ASCII letters and digits.
pub open spec fn is_ascii_alphanumeric(c: char) -> bool {
    ('a' <= c && c <= 'z') || ('A' <= c && c <= 'Z') || ('0' <= c && c <= '9')
}

/// The ASCII characters that carry the `White_Space` property.
pub open spec fn is_ascii_space(c: char) -> bool {
    c == ' ' || c == '\t' || c == '\n' || c == '\r' || c == '\x0B' || c == '\x0C'
}

/// Whether the character has the `White_Space` property, as `char::is_whitespace` answers.
pub fn char_is_whitespace(c: char) -> (r: bool)
    ensures
        r == is_whitespace(c),
        (c as u32) < 128 ==> (r == is_ascii_space(c)),
{
    let u = c as u32;
    (0x09 <= u && u <= 0x0D) || u == 0x20 || u == 0x85 || u == 0xA0 || u == 0x1680 || (0x2000 <= u
        && u <= 0x200A) || u == 0x2028 || u == 0x2029 || u == 0x202F || u == 0x205F || u == 0x3000
}

/// Calls `char::is_alphanumeric`. Claimed: the answer is a function of `c`, and on ASCII
/// it holds exactly for letters and digits.
#[verifier::external_body]
pub fn char_is_alphanumeric(c: char) -> (r: bool)
    ensures
        r == is_alphanumeric(c),
        (c as u32) < 128 ==> (r == is_ascii_alphanumeric(c)),
{
    c.is_alphanumeric()
}

/// Calls `str::eq`: two string slices are equal when they hold the same characters.
#[verifier::external_body]
pub fn str_eq(a: &str, b: &str) -> (r: bool)
    ensures
        r == (a@ == b@),
{
    a == b
}

/// Calls `String::push`, which appends one character.
#[verifier::external_body]
pub fn push_char(s: &mut String, c: char)
    ensures
        final(s)@ == old(s)@.push(c),
{
    s.push(c)
}

/// The character of a decimal digit.
pub open spec fn digit_char(d: nat) -> char {
    (48 + d) as char
}

/// The decimal digits of a natural number, most significant first, without leading zeros.
pub open spec fn decimal(n: nat) -> Seq<char>
    decreases n,
{
    if n < 10 {
        seq![digit_char(n)]
    } else {
        decimal(n / 10).push(digit_char(n % 10))
    }
}

/// The decimal text of a number has a digit first, and two digits or more from 10 on.
pub proof fn lemma_decimal_digits(n: nat)
    ensures
        decimal(n).len() >= 1,
        '0' <= decimal(n)[0] <= '9',
        n >= 10 ==> decimal(n).len() >= 2,
    decreases n,
{
    if n >= 10 {
        lemma_decimal_digits(n / 10);
    }
}

/// Different numbers have different decimal texts.
pub proof fn lemma_decimal_injective(a: nat, b: nat)
    requires
        decimal(a) == decimal(b),
    ensures
        a == b,
    decreases a,
{
    lemma_decimal_digits(a);
    lemma_decimal_digits(b);
    if a >= 10 && b >= 10 {
        let da = decimal(a);
        assert(da.drop_last() == decimal(a / 10));
        assert(decimal(b).drop_last() == decimal(b / 10));
        lemma_decimal_injective(a / 10, b / 10);
        assert(da.last() == digit_char(a % 10));
        assert(decimal(b).last() == digit_char(b % 10));
        assert(a % 10 == b % 10);
    }
}

/// Appends the decimal digits of `n` to `s`.
pub fn push_decimal(s: &mut String, n: u64)
    ensures
        final(s)@ == old(s)@ + decimal(n as nat),
    decreases n,
{
    if n >= 10 {
        push_decimal(s, n / 10);
    }
    let d: u8 = (n % 10) as u8;
    let c: char = (48u8 + d) as char;
    push_char(s, c);
    proof {
        assert(c == digit_char((n % 10) as nat));
    }
}

/// The decimal text of `n`.
pub fn decimal_string(n: u64) -> (s: String)
    ensures
        s@ == decimal(n as nat),
{
    let mut s = String::new();
    push_decimal(&mut s, n);
    s
}

} // verus!

verus! {

/// The characters of a text, in order, in a vector.
pub fn chars_of(s: &str) -> (v: Vec<char>)
    ensures
        v@ == s@,
{
    broadcast use vstd::string::axiom_spec_iter;
    let mut v: Vec<char> = Vec::new();
    for c in it: s.chars()
        invariant
            it.seq() == s@,
            v@ == it.seq().take(it.index() as int),
    {
        v.push(c);
    }
    v
}

/// The character with a code, if the code is one: any code up to `0x10FFFF` but those
/// from `0xD800` to `0xDFFF`.
pub open spec fn char_of_code(n: u32) -> Option<char> {
    if n < 0xD800 || (0xE000 <= n && n <= 0x10FFFF) {
        Some(n as char)
    } else {
        None
    }
}

/// Calls `char::from_u32`, which gives the character with a code where there is one.
#[verifier::external_body]
pub fn char_from_u32(n: u32) -> (r: Option<char>)
    ensures
        r == char_of_code(n),
{
    char::from_u32(n)
}

/// The ASCII decimal digits.
pub open spec fn is_ascii_digit(c: char) -> bool {
    '0' <= c && c <= '9'
}

/// A character that may continue an identifier or number: alphanumeric (on ASCII, a
/// letter or a digit) or `_`.
pub open spec fn is_word_char(c: char) -> bool {
    (if (c as u32) < 128 { is_ascii_alphanumeric(c) } else { is_alphanumeric(c) }) || c == '_'
}

/// Whether `c` occurs in `s`.
pub fn contains_char(s: &str, c: char) -> (r: bool)
    ensures
        r == s@.contains(c),
{
    let v = chars_of(s);
    let mut i: usize = 0;
    while i < v.len()
        invariant
            v@ == s@,
            0 <= i <= v.len(),
            forall|j: int| 0 <= j < i ==> v@[j] != c,
        decreases v.len() - i,
    {
        if v[i] == c {
            proof {
                assert(s@[i as int] == c);
            }
            return true;
        }
        i += 1;
    }
    false
}

/// A new string holding the characters of `s`.
pub fn string_of(s: &str) -> (r: String)
    ensures
        r@ == s@,
{
    let mut r = String::new();
    r.append(s);
    r
}

} // verus!

verus! {

/// The number that a sequence of decimal digits spells.
pub open spec fn digits_value(s: Seq<char>) -> nat
    decreases s.len(),
{
    if s.len() == 0 {
        0
    } else {
        digits_value(s.drop_last()) * 10 + (s.last() as nat - 48) as nat
    }
}

/// Every character is a decimal digit.
pub open spec fn all_digits(s: Seq<char>) -> bool {
    forall|i: int| 0 <= i < s.len() ==> is_ascii_digit(#[trigger] s[i])
}

/// The value of a decimal integer literal with an optional sign, as `i64::from_str`
/// reads it; `None` where it is no such literal or does not fit in an `i64`.
pub open spec fn i64_literal_value(s: Seq<char>) -> Option<int> {
    if s.len() == 0 {
        None
    } else {
        let neg = s[0] == '-';
        let body = if s[0] == '-' || s[0] == '+' { s.drop_first() } else { s };
        if body.len() == 0 || !all_digits(body) {
            None
        } else {
            let v: int = if neg { -(digits_value(body) as int) } else { digits_value(body) as int };
            if i64::MIN <= v <= i64::MAX {
                Some(v)
            } else {
                None
            }
        }
    }
}

proof fn lemma_digits_value_prefix(s: Seq<char>, k: int)
    requires
        0 <= k <= s.len(),
        all_digits(s),
    ensures
        digits_value(s.take(k)) <= digits_value(s),
    decreases s.len(),
{
    if k < s.len() {
        assert(all_digits(s.drop_last()));
        lemma_digits_value_prefix(s.drop_last(), k);
        assert(s.drop_last().take(k) =~= s.take(k));
    } else {
        assert(s.take(k) =~= s);
    }
}

/// Reads a decimal integer literal with an optional sign into an `i64`.
pub fn parse_i64(s: &str) -> (r: Option<i64>)
    ensures
        match r {
            Some(v) => i64_literal_value(s@) == Some(v as int),
            None => i64_literal_value(s@) is None,
        },
{
    let chars = chars_of(s);
    if chars.len() == 0 {
        return None;
    }
    let neg = chars[0] == '-';
    let start: usize = if chars[0] == '-' || chars[0] == '+' { 1 } else { 0 };
    let ghost body = if chars@[0] == '-' || chars@[0] == '+' { chars@.drop_first() } else { chars@ };
    assert(body =~= chars@.skip(start as int));
    if start == chars.len() {
        return None;
    }
    let mut acc: u64 = 0;
    let mut k: usize = start;
    let bound: u64 = 9223372036854775808;
    while k < chars.len()
        invariant
            chars@ == s@,
            start <= k <= chars.len(),
            body == chars@.skip(start as int),
            chars@.len() > 0,
            body == (if chars@[0] == '-' || chars@[0] == '+' { chars@.drop_first() } else { chars@ }),
            neg == (chars@[0] == '-'),
            all_digits(body.take(k - start)),
            acc == digits_value(body.take(k - start)),
            acc <= bound,
            bound == 9223372036854775808u64,
        decreases chars.len() - k,
    {
        let c = chars[k];
        if !('0' <= c && c <= '9') {
            assert(body[k - start] == c);
            assert(!is_ascii_digit(body[k - start]));
            return None;
        }
        let d: u64 = (c as u32 - 48) as u64;
        assert(body.take(k - start + 1).drop_last() =~= body.take(k - start));
        assert(body.take(k - start + 1).last() == c);
        let ghost next = body.take(k - start + 1);
        assert(digits_value(next) == acc * 10 + d);
        if acc > (bound - d) / 10 {
            proof {
                assert(acc * 10 + d > bound) by (nonlinear_arith)
                    requires
                        acc > (bound - d) / 10,
                        d <= 9,
                        bound == 9223372036854775808u64,
                ;
                assert(all_digits(body.take(k - start + 1)));
                assert(digits_value(body.take(k - start + 1)) > bound);
                if all_digits(body) {
                    lemma_digits_value_prefix(body, k - start + 1);
                }
                assert(body.len() > 0);
            }
            return None;
        }
        assert(acc * 10 + d <= bound) by (nonlinear_arith)
            requires
                acc <= (bound - d) / 10,
                d <= 9,
                bound == 9223372036854775808u64,
        ;
        acc = acc * 10 + d;
        k += 1;
        assert(all_digits(body.take(k - start)));
    }
    assert(body.take(k - start) =~= body);
    if neg {
        if acc == bound {
            Some(-9223372036854775807i64 - 1)
        } else {
            Some(-(acc as i64))
        }
    } else {
        if acc == bound {
            None
        } else {
            Some(acc as i64)
        }
    }
}

} // verus!
