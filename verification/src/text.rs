//! Character-level helpers shared by the other modules: moving between strings
//! and character vectors, whitespace trimming, and decimal numerals.

use vstd::prelude::*;

verus! {

/// `String::push` of the standard library: appends one character to the end
/// of the string and leaves the characters before it as they were.
pub assume_specification[ String::push ](s: &mut String, c: char)
    ensures
        final(s)@ == old(s)@.push(c),
;

/// The characters of `s`, in order.
pub fn chars_of(s: &str) -> (r: Vec<char>)
    ensures
        r@ == s@,
{
    broadcast use vstd::string::group_string_axioms;

    let mut out: Vec<char> = Vec::new();
    for c in it: s.chars()
        invariant
            it.seq() == s@,
            out@ == it.seq().take(it.index()),
    {
        out.push(c);
    }
    assert(out@ =~= s@);
    out
}

/// The string made of `chars[from..to]`.
pub fn string_of(chars: &Vec<char>, from: usize, to: usize) -> (r: String)
    requires
        from <= to <= chars@.len(),
    ensures
        r@ == chars@.subrange(from as int, to as int),
{
    let mut out = String::new();
    let mut i: usize = from;
    while i < to
        invariant
            from <= i <= to <= chars@.len(),
            out@ == chars@.subrange(from as int, i as int),
        decreases to - i,
    {
        out.push(chars[i]);
        i += 1;
        assert(out@ =~= chars@.subrange(from as int, i as int));
    }
    out
}

/// Whether `c` is white space in the sense of Unicode's `White_Space`
/// property.
pub open spec fn is_space(c: char) -> bool {
    let n = c as u32;
    ||| 0x09 <= n <= 0x0D
    ||| n == 0x20
    ||| n == 0x85
    ||| n == 0xA0
    ||| n == 0x1680
    ||| 0x2000 <= n <= 0x200A
    ||| n == 0x2028
    ||| n == 0x2029
    ||| n == 0x202F
    ||| n == 0x205F
    ||| n == 0x3000
}

/// Tests a character for white space.
pub fn is_space_char(c: char) -> (r: bool)
    ensures
        r == is_space(c),
{
    let n: u32 = c as u32;
    (0x09 <= n && n <= 0x0D) || n == 0x20 || n == 0x85 || n == 0xA0 || n == 0x1680 || (0x2000 <= n
        && n <= 0x200A) || n == 0x2028 || n == 0x2029 || n == 0x202F || n == 0x205F || n == 0x3000
}

/// The first position at or after `i` that holds no white space.
pub open spec fn skip_spaces(s: Seq<char>, i: int) -> int
    decreases s.len() - i,
{
    if 0 <= i < s.len() && is_space(s[i]) {
        skip_spaces(s, i + 1)
    } else {
        i
    }
}

/// The end of `s[lo..j]` once the white space at its end is taken off.
pub open spec fn drop_spaces(s: Seq<char>, lo: int, j: int) -> int
    decreases j,
{
    if lo < j <= s.len() && 0 < j && is_space(s[j - 1]) {
        drop_spaces(s, lo, j - 1)
    } else {
        j
    }
}

/// Where the trimmed part of `s` starts.
pub open spec fn trim_start(s: Seq<char>) -> int {
    skip_spaces(s, 0)
}

/// Where the trimmed part of `s` ends.
pub open spec fn trim_end(s: Seq<char>) -> int {
    drop_spaces(s, trim_start(s), s.len() as int)
}

/// `s` without the white space at its start and at its end.
pub open spec fn trimmed(s: Seq<char>) -> Seq<char> {
    s.subrange(trim_start(s), trim_end(s))
}

proof fn lemma_skip_spaces(s: Seq<char>, i: int)
    requires
        0 <= i <= s.len(),
    ensures
        i <= skip_spaces(s, i) <= s.len(),
        forall|k: int| i <= k < skip_spaces(s, i) ==> is_space(s[k]),
        skip_spaces(s, i) < s.len() ==> !is_space(s[skip_spaces(s, i)]),
    decreases s.len() - i,
{
    if i < s.len() && is_space(s[i]) {
        lemma_skip_spaces(s, i + 1);
    }
}

proof fn lemma_drop_spaces(s: Seq<char>, lo: int, j: int)
    requires
        0 <= lo <= j <= s.len(),
    ensures
        lo <= drop_spaces(s, lo, j) <= j,
        forall|k: int| drop_spaces(s, lo, j) <= k < j ==> is_space(s[k]),
        lo < drop_spaces(s, lo, j) ==> !is_space(s[drop_spaces(s, lo, j) - 1]),
    decreases j,
{
    if lo < j && is_space(s[j - 1]) {
        lemma_drop_spaces(s, lo, j - 1);
    }
}

/// Trimming takes white space, and only white space, from the two ends: the
/// trimmed part is a range of `s`, all that lies outside the range is white
/// space, and the part itself neither starts nor ends with white space.
pub proof fn lemma_trimmed(s: Seq<char>)
    ensures
        0 <= trim_start(s) <= trim_end(s) <= s.len(),
        forall|k: int| 0 <= k < trim_start(s) ==> is_space(s[k]),
        forall|k: int| trim_end(s) <= k < s.len() ==> is_space(s[k]),
        trimmed(s).len() > 0 ==> !is_space(trimmed(s).first()) && !is_space(trimmed(s).last()),
{
    lemma_skip_spaces(s, 0);
    lemma_drop_spaces(s, trim_start(s), s.len() as int);
}

/// The trimmed part of `chars`, as a string.
pub fn trim(chars: &Vec<char>) -> (r: String)
    ensures
        r@ == trimmed(chars@),
{
    let n: usize = chars.len();
    let mut a: usize = 0;
    while a < n && is_space_char(chars[a])
        invariant
            a <= n == chars@.len(),
            skip_spaces(chars@, a as int) == trim_start(chars@),
        decreases n - a,
    {
        a += 1;
    }
    let mut b: usize = n;
    while a < b && is_space_char(chars[b - 1])
        invariant
            a <= b <= n == chars@.len(),
            a == trim_start(chars@),
            drop_spaces(chars@, a as int, b as int) == trim_end(chars@),
        decreases b,
    {
        b -= 1;
    }
    string_of(chars, a, b)
}

/// Whether `c` is one of the ten decimal digits.
pub open spec fn is_digit(c: char) -> bool {
    '0' <= c <= '9'
}

/// The value of the digit `c`.
pub open spec fn digit_value(c: char) -> int {
    c as u32 - '0' as u32
}

/// The character that writes the digit `d`.
pub open spec fn digit_char(d: int) -> char {
    (d + 48) as u8 as char
}

/// Whether `s` holds decimal digits only.
pub open spec fn all_digits(s: Seq<char>) -> bool {
    forall|k: int| 0 <= k < s.len() ==> is_digit(#[trigger] s[k])
}

/// The number that the digits `s` write in base ten: 0 for no digits.
pub open spec fn number(s: Seq<char>) -> int
    decreases s.len(),
{
    if s.len() == 0 {
        0
    } else {
        number(s.drop_last()) * 10 + digit_value(s.last())
    }
}

/// The decimal numeral of `n`, without leading zeros.
pub open spec fn decimal(n: nat) -> Seq<char>
    decreases n,
{
    if n < 10 {
        seq![digit_char(n as int)]
    } else {
        decimal(n / 10).push(digit_char((n % 10) as int))
    }
}

/// A numeral reads back as the number it was written for.
pub proof fn lemma_number_of_decimal(n: nat)
    ensures
        all_digits(decimal(n)),
        decimal(n).len() > 0,
        number(decimal(n)) == n,
    decreases n,
{
    let d = decimal(n);
    if n < 10 {
        assert(d.drop_last() =~= Seq::<char>::empty());
        assert(number(d.drop_last()) == 0);
    } else {
        lemma_number_of_decimal(n / 10);
        assert(d.drop_last() =~= decimal(n / 10));
    }
}

/// A number grows, or stays, with every digit written after it.
proof fn lemma_number_prefix(s: Seq<char>, k: int)
    requires
        all_digits(s),
        0 <= k <= s.len(),
    ensures
        0 <= number(s.take(k)) <= number(s),
    decreases s.len() - k,
{
    if k == s.len() {
        assert(s.take(k) =~= s);
        lemma_number_nonnegative(s);
    } else {
        lemma_number_prefix(s, k + 1);
        assert(s.take(k + 1).drop_last() =~= s.take(k));
        lemma_number_nonnegative(s.take(k));
    }
}

proof fn lemma_number_nonnegative(s: Seq<char>)
    requires
        all_digits(s),
    ensures
        0 <= number(s),
    decreases s.len(),
{
    if s.len() > 0 {
        lemma_number_nonnegative(s.drop_last());
    }
}

/// Appends the decimal numeral of `n` to `out`.
pub fn push_decimal(out: &mut String, n: u64)
    ensures
        final(out)@ == old(out)@ + decimal(n as nat),
    decreases n,
{
    if n >= 10 {
        push_decimal(out, n / 10);
    }
    let d: u8 = (n % 10) as u8;
    out.push((d + 48) as char);
    assert(out@ =~= old(out)@ + decimal(n as nat));
}

/// Reads `chars[from..to]` as a decimal number of at most `limit`: the number
/// where the range is not empty, holds digits only and writes no more than
/// `limit`, and nothing otherwise.
pub open spec fn bounded_number(s: Seq<char>, limit: int) -> Option<int> {
    if s.len() > 0 && all_digits(s) && number(s) <= limit {
        Some(number(s))
    } else {
        None
    }
}

/// Reads `chars[from..to]` as a decimal number of at most `limit`.
pub fn parse_number(chars: &Vec<char>, from: usize, to: usize, limit: u64) -> (r: Option<u64>)
    requires
        from <= to <= chars@.len(),
    ensures
        r matches Some(v) ==> bounded_number(
            chars@.subrange(from as int, to as int),
            limit as int,
        ) == Some(v as int),
        r is None ==> bounded_number(chars@.subrange(from as int, to as int), limit as int) is None,
{
    let ghost s = chars@.subrange(from as int, to as int);
    if from == to {
        return None;
    }
    let mut acc: u64 = 0;
    let mut i: usize = from;
    while i < to
        invariant
            from <= i <= to <= chars@.len(),
            s == chars@.subrange(from as int, to as int),
            all_digits(s.take(i - from)),
            acc == number(s.take(i - from)),
            acc <= limit,
        decreases to - i,
    {
        let c = chars[i];
        let ghost k = i - from;
        proof {
            assert(s.take(k + 1).drop_last() =~= s.take(k));
            assert(s.take(k + 1).last() == c);
        }
        if !('0' <= c && c <= '9') {
            assert(!is_digit(s[k]));
            return None;
        }
        let d: u64 = (c as u32 - '0' as u32) as u64;
        if acc > limit / 10 || (acc == limit / 10 && d > limit % 10) {
            proof {
                if all_digits(s) {
                    lemma_number_prefix(s, k + 1);
                }
            }
            return None;
        }
        acc = acc * 10 + d;
        i += 1;
        assert forall|j: int| 0 <= j < s.take(k + 1).len() implies is_digit(
            #[trigger] s.take(k + 1)[j],
        ) by {
            if j < k {
                assert(s.take(k)[j] == s.take(k + 1)[j]);
            }
        }
    }
    assert(s.take(to - from) =~= s);
    Some(acc)
}

/// The first position at or after `i` that holds `c`, and the length of `s`
/// where there is none.
pub open spec fn find(s: Seq<char>, c: char, i: int) -> int
    decreases s.len() - i,
{
    if i < 0 || i >= s.len() {
        s.len() as int
    } else if s[i] == c {
        i
    } else {
        find(s, c, i + 1)
    }
}

/// `find` gives a position that holds `c` and has no `c` before it, from `i`
/// on; or the length of `s`, and then no `c` stands at or after `i`.
pub proof fn lemma_find(s: Seq<char>, c: char, i: int)
    requires
        0 <= i <= s.len(),
    ensures
        i <= find(s, c, i) <= s.len(),
        forall|k: int| i <= k < find(s, c, i) ==> s[k] != c,
        find(s, c, i) < s.len() ==> s[find(s, c, i)] == c,
    decreases s.len() - i,
{
    if i < s.len() && s[i] != c {
        lemma_find(s, c, i + 1);
    }
}

/// The first position in `chars[from..to]` that holds `c`, counted within
/// that range, and the length of the range where there is none.
pub fn find_char(chars: &Vec<char>, c: char, from: usize, to: usize) -> (r: usize)
    requires
        from <= to <= chars@.len(),
    ensures
        r == find(chars@.subrange(from as int, to as int), c, 0),
        r <= to - from,
{
    let ghost s = chars@.subrange(from as int, to as int);
    let mut i: usize = from;
    while i < to && chars[i] != c
        invariant
            from <= i <= to <= chars@.len(),
            s == chars@.subrange(from as int, to as int),
            find(s, c, i - from) == find(s, c, 0),
        decreases to - i,
    {
        i += 1;
    }
    i - from
}

/// Whether `chars` begins with `prefix`.
pub fn starts_with(chars: &Vec<char>, prefix: &Vec<char>) -> (r: bool)
    ensures
        r == prefix@.is_prefix_of(chars@),
{
    occurs_at_index(chars, prefix, 0)
}

/// Whether `needle` stands in `hay` at position `k`.
pub open spec fn occurs_at(hay: Seq<char>, needle: Seq<char>, k: int) -> bool {
    0 <= k && k + needle.len() <= hay.len() && hay.subrange(k, k + needle.len()) == needle
}

/// Whether `needle` stands somewhere in `hay`.
pub open spec fn contains_text(hay: Seq<char>, needle: Seq<char>) -> bool {
    exists|k: int| occurs_at(hay, needle, k)
}

fn occurs_at_index(hay: &Vec<char>, needle: &Vec<char>, k: usize) -> (r: bool)
    ensures
        r == occurs_at(hay@, needle@, k as int),
{
    let m: usize = needle.len();
    let n: usize = hay.len();
    if k > n || m > n - k {
        return false;
    }
    let ghost window = hay@.subrange(k as int, k + m);
    let mut j: usize = 0;
    while j < m
        invariant
            j <= m == needle@.len(),
            k + m <= n == hay@.len(),
            window == hay@.subrange(k as int, k + m),
            forall|t: int| 0 <= t < j ==> window[t] == needle@[t],
        decreases m - j,
    {
        if hay[k + j] != needle[j] {
            assert(window[j as int] != needle@[j as int]);
            return false;
        }
        j += 1;
    }
    assert(window =~= needle@);
    true
}

/// Whether `needle` stands somewhere in `hay`.
pub fn contains(hay: &Vec<char>, needle: &Vec<char>) -> (r: bool)
    ensures
        r == contains_text(hay@, needle@),
{
    let n: usize = hay.len();
    let mut k: usize = 0;
    while k < n
        invariant
            k <= n == hay@.len(),
            forall|t: int| 0 <= t < k ==> !occurs_at(hay@, needle@, t),
        decreases n - k,
    {
        if occurs_at_index(hay, needle, k) {
            return true;
        }
        k += 1;
    }
    occurs_at_index(hay, needle, n)
}

} // verus!
