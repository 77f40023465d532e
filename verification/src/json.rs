//! JSON text: string escaping, and the typed scalar that a raw field value
//! is written as.

use vstd::prelude::*;
use crate::text::{
    all_digits, bounded_number, chars_of, decimal, number, parse_number, push_decimal,
};

verus! {

/// The character that writes `n` as one lower-case hexadecimal digit.
pub open spec fn hex_digit(n: int) -> char {
    if n < 10 {
        (n + 48) as u8 as char
    } else {
        (n + 87) as u8 as char
    }
}

/// How one character stands inside a JSON string: the backslash, the double
/// quote, line feed, carriage return and tab by their two-character escapes,
/// any other character below the space as `\u00` and two hexadecimal digits,
/// and every other character as itself.
pub open spec fn escape_char(c: char) -> Seq<char> {
    if c == '\\' {
        seq!['\\', '\\']
    } else if c == '"' {
        seq!['\\', '"']
    } else if c == '\n' {
        seq!['\\', 'n']
    } else if c == '\r' {
        seq!['\\', 'r']
    } else if c == '\t' {
        seq!['\\', 't']
    } else if (c as u32) < 0x20 {
        seq![
            '\\',
            'u',
            '0',
            '0',
            hex_digit((c as u32 / 16) as int),
            hex_digit((c as u32 % 16) as int),
        ]
    } else {
        seq![c]
    }
}

/// The characters of `s`, each escaped, in order.
pub open spec fn escaped(s: Seq<char>) -> Seq<char>
    decreases s.len(),
{
    if s.len() == 0 {
        Seq::empty()
    } else {
        escaped(s.drop_last()) + escape_char(s.last())
    }
}

fn hex_char(n: u32) -> (c: char)
    requires
        n < 16,
    ensures
        c == hex_digit(n as int),
{
    if n < 10 {
        (n as u8 + 48) as char
    } else {
        (n as u8 + 87) as char
    }
}

fn push_escaped_char(out: &mut String, c: char)
    ensures
        final(out)@ == old(out)@ + escape_char(c),
{
    if c == '\\' {
        out.push('\\');
        out.push('\\');
    } else if c == '"' {
        out.push('\\');
        out.push('"');
    } else if c == '\n' {
        out.push('\\');
        out.push('n');
    } else if c == '\r' {
        out.push('\\');
        out.push('r');
    } else if c == '\t' {
        out.push('\\');
        out.push('t');
    } else if (c as u32) < 0x20 {
        let n: u32 = c as u32;
        out.push('\\');
        out.push('u');
        out.push('0');
        out.push('0');
        out.push(hex_char(n / 16));
        out.push(hex_char(n % 16));
    } else {
        out.push(c);
    }
    assert(out@ =~= old(out)@ + escape_char(c));
}

/// Appends the escaped form of `s` to `out`.
pub fn push_escaped(out: &mut String, s: &str)
    ensures
        final(out)@ == old(out)@ + escaped(s@),
{
    broadcast use vstd::string::group_string_axioms;

    let ghost before = out@;
    assert(out@ =~= before + escaped(s@.take(0)));
    for c in it: s.chars()
        invariant
            it.seq() == s@,
            out@ == before + escaped(it.seq().take(it.index())),
    {
        let ghost k = it.index();
        assert(s@.take(k + 1).drop_last() =~= s@.take(k));
        push_escaped_char(out, c);
        assert(out@ =~= before + escaped(s@.take(k + 1)));
    }
    assert(s@.take(s@.len() as int) =~= s@);
}

/// The escaped form of `s`: what stands between the quotes of the JSON string
/// that holds `s`.
pub fn json_escape(s: &str) -> (r: String)
    ensures
        r@ == escaped(s@),
{
    let mut out = String::new();
    push_escaped(&mut out, s);
    assert(out@ =~= escaped(s@));
    out
}

/// The integer that `s` writes: an optional sign, `+` or `-`, then one or
/// more decimal digits, with a value that a signed 64-bit integer holds.
pub open spec fn int_literal(s: Seq<char>) -> Option<int> {
    let negative = s.len() > 0 && s[0] == '-';
    let digits = if s.len() > 0 && (s[0] == '-' || s[0] == '+') {
        s.drop_first()
    } else {
        s
    };
    let limit = if negative {
        0x8000_0000_0000_0000
    } else {
        0x7fff_ffff_ffff_ffff
    };
    match bounded_number(digits, limit) {
        Some(v) => Some(
            if negative {
                -v
            } else {
                v
            },
        ),
        None => None,
    }
}

/// The decimal numeral of an integer, with a minus sign before a negative one.
pub open spec fn signed_decimal(v: int) -> Seq<char> {
    if v < 0 {
        seq!['-'] + decimal((-v) as nat)
    } else {
        decimal(v as nat)
    }
}

/// Reads `s` as a signed 64-bit integer in decimal notation.
pub fn parse_integer(s: &str) -> (r: Option<i64>)
    ensures
        r matches Some(v) ==> int_literal(s@) == Some(v as int),
        r is None ==> int_literal(s@) is None,
{
    let chars = chars_of(s);
    parse_integer_chars(&chars)
}

fn parse_integer_chars(chars: &Vec<char>) -> (r: Option<i64>)
    ensures
        r matches Some(v) ==> int_literal(chars@) == Some(v as int),
        r is None ==> int_literal(chars@) is None,
{
    let n: usize = chars.len();
    let negative = n > 0 && chars[0] == '-';
    let signed = n > 0 && (chars[0] == '-' || chars[0] == '+');
    let from: usize = if signed {
        1
    } else {
        0
    };
    let limit: u64 = if negative {
        0x8000_0000_0000_0000
    } else {
        0x7fff_ffff_ffff_ffff
    };
    proof {
        if signed {
            assert(chars@.subrange(1, n as int) =~= chars@.drop_first());
        } else {
            assert(chars@.subrange(0, n as int) =~= chars@);
        }
    }
    match parse_number(chars, from, n, limit) {
        Some(m) => {
            if !negative {
                Some(m as i64)
            } else if m == 0x8000_0000_0000_0000 {
                Some(i64::MIN)
            } else {
                Some(-(m as i64))
            }
        },
        None => None,
    }
}

/// Appends the decimal numeral of `v` to `out`.
pub fn push_signed_decimal(out: &mut String, v: i64)
    ensures
        final(out)@ == old(out)@ + signed_decimal(v as int),
{
    if v < 0 {
        out.push('-');
        let m: u64 = if v == i64::MIN {
            0x8000_0000_0000_0000
        } else {
            (-v) as u64
        };
        push_decimal(out, m);
        assert(out@ =~= old(out)@ + signed_decimal(v as int));
    } else {
        push_decimal(out, v as u64);
    }
}

/// `c` with an upper-case letter of the Latin alphabet turned to lower case.
pub open spec fn ascii_lower(c: char) -> char {
    if 'A' <= c <= 'Z' {
        (c as u32 + 32) as u8 as char
    } else {
        c
    }
}

/// Whether `s` is `word` up to the case of its letters. `word` is meant to be
/// in lower case.
pub open spec fn reads_as(s: Seq<char>, word: Seq<char>) -> bool {
    &&& s.len() == word.len()
    &&& forall|k: int| 0 <= k < s.len() ==> ascii_lower(#[trigger] s[k]) == word[k]
}

fn is_word(chars: &Vec<char>, word: &str) -> (r: bool)
    ensures
        r == reads_as(chars@, word@),
{
    let target = chars_of(word);
    if chars.len() != target.len() {
        return false;
    }
    let mut i: usize = 0;
    while i < chars.len()
        invariant
            i <= chars@.len() == target@.len(),
            target@ == word@,
            forall|k: int| 0 <= k < i ==> ascii_lower(#[trigger] chars@[k]) == target@[k],
        decreases chars@.len() - i,
    {
        let c = chars[i];
        let low = if 'A' <= c && c <= 'Z' {
            (c as u8 + 32) as char
        } else {
            c
        };
        assert(low == ascii_lower(chars@[i as int]));
        if low != target[i] {
            return false;
        }
        i += 1;
    }
    true
}

/// The typed scalar that a raw value stands for.
pub enum Scalar {
    Null,
    Integer(int),
    Float(Seq<char>),
    Boolean(bool),
    Text(Seq<char>),
}

/// The type of a raw value. `float` is the literal of the value read as a
/// floating-point number, where it reads as one. The empty value is null; a
/// value that writes an integer is that integer; failing that, one with a
/// floating-point reading is that number; failing that, `true` and `false` in
/// any case of letters are the booleans; everything else is text.
pub open spec fn classify(s: Seq<char>, float: Option<Seq<char>>) -> Scalar {
    if s.len() == 0 {
        Scalar::Null
    } else if int_literal(s) is Some {
        Scalar::Integer(int_literal(s)->0)
    } else if float is Some {
        Scalar::Float(float->0)
    } else if reads_as(s, seq!['t', 'r', 'u', 'e']) {
        Scalar::Boolean(true)
    } else if reads_as(s, seq!['f', 'a', 'l', 's', 'e']) {
        Scalar::Boolean(false)
    } else {
        Scalar::Text(s)
    }
}

/// The JSON literal of a typed scalar.
pub open spec fn literal(v: Scalar) -> Seq<char> {
    match v {
        Scalar::Null => seq!['n', 'u', 'l', 'l'],
        Scalar::Integer(i) => signed_decimal(i),
        Scalar::Float(f) => f,
        Scalar::Boolean(b) => if b {
            seq!['t', 'r', 'u', 'e']
        } else {
            seq!['f', 'a', 'l', 's', 'e']
        },
        Scalar::Text(t) => seq!['"'] + escaped(t) + seq!['"'],
    }
}

/// The JSON literal that a raw value is written as.
pub open spec fn typed_literal(s: Seq<char>, float: Option<Seq<char>>) -> Seq<char> {
    literal(classify(s, float))
}

/// Appends to `out` the JSON literal that the raw value `s` is written as.
/// `float` is the literal of `s` read as a floating-point number, where it
/// reads as one.
pub fn push_typed(out: &mut String, s: &str, float: Option<&str>)
    ensures
        final(out)@ == old(out)@ + typed_literal(s@, float.deep_view()),
{
    proof {
        reveal_strlit("null");
        reveal_strlit("true");
        reveal_strlit("false");
        assert("true"@ =~= seq!['t', 'r', 'u', 'e']);
        assert("false"@ =~= seq!['f', 'a', 'l', 's', 'e']);
    }
    let ghost kind = classify(s@, float.deep_view());
    let chars = chars_of(s);
    if chars.len() == 0 {
        out.append("null");
        assert("null"@ =~= literal(kind));
        return ;
    }
    match parse_integer_chars(&chars) {
        Some(v) => {
            push_signed_decimal(out, v);
            return ;
        },
        None => {},
    }
    match float {
        Some(f) => {
            out.append(f);
            return ;
        },
        None => {},
    }
    if is_word(&chars, "true") {
        out.append("true");
        assert("true"@ =~= literal(kind));
    } else if is_word(&chars, "false") {
        out.append("false");
        assert("false"@ =~= literal(kind));
    } else {
        out.push('"');
        push_escaped(out, s);
        out.push('"');
        assert(out@ =~= old(out)@ + literal(kind));
    }
}

/// The JSON literal that the raw value `s` is written as. `float` is the
/// literal of `s` read as a floating-point number, where it reads as one.
pub fn infer_type(s: &str, float: Option<&str>) -> (r: String)
    ensures
        r@ == typed_literal(s@, float.deep_view()),
{
    let mut out = String::new();
    push_typed(&mut out, s, float);
    assert(out@ =~= typed_literal(s@, float.deep_view()));
    out
}

} // verus!
