//! Plain-text normalization: whitespace trimming and decimal numbers.

use vstd::prelude::*;

verus! {

/// The characters that count as whitespace when a value is trimmed
/// (the Unicode `White_Space` set).
pub open spec fn is_space_char(c: char) -> bool {
    c == ' ' || c == '\t' || c == '\n' || c == '\r' || c == '\u{b}' || c == '\u{c}'
        || c == '\u{85}' || c == '\u{a0}' || c == '\u{1680}' || c == '\u{2000}'
        || c == '\u{2001}' || c == '\u{2002}' || c == '\u{2003}' || c == '\u{2004}'
        || c == '\u{2005}' || c == '\u{2006}' || c == '\u{2007}' || c == '\u{2008}'
        || c == '\u{2009}' || c == '\u{200a}' || c == '\u{2028}' || c == '\u{2029}'
        || c == '\u{202f}' || c == '\u{205f}' || c == '\u{3000}'
}

/// How many whitespace characters the text begins with.
pub open spec fn leading_spaces(s: Seq<char>) -> int
    decreases s.len(),
{
    if s.len() == 0 || !is_space_char(s[0]) {
        0
    } else {
        1 + leading_spaces(s.skip(1))
    }
}

/// How many whitespace characters the text ends with.
pub open spec fn trailing_spaces(s: Seq<char>) -> int
    decreases s.len(),
{
    if s.len() == 0 || !is_space_char(s.last()) {
        0
    } else {
        1 + trailing_spaces(s.drop_last())
    }
}

/// The text without its leading and trailing whitespace.
pub open spec fn trim_of(s: Seq<char>) -> Seq<char> {
    let a = leading_spaces(s);
    let b = s.len() - trailing_spaces(s);
    if a < b {
        s.subrange(a, b)
    } else {
        Seq::empty()
    }
}

proof fn lemma_leading_spaces(s: Seq<char>, i: int)
    requires
        0 <= i <= s.len(),
        forall|k: int| 0 <= k < i ==> is_space_char(s[k]),
        i == s.len() || !is_space_char(s[i]),
    ensures
        leading_spaces(s) == i,
    decreases i,
{
    if i == 0 {
    } else {
        lemma_leading_spaces(s.skip(1), i - 1);
    }
}

proof fn lemma_trailing_spaces(s: Seq<char>, j: int)
    requires
        0 <= j <= s.len(),
        forall|k: int| s.len() - j <= k < s.len() ==> is_space_char(s[k]),
        j == s.len() || !is_space_char(s[s.len() - j - 1]),
    ensures
        trailing_spaces(s) == j,
    decreases j,
{
    if j == 0 {
    } else {
        lemma_trailing_spaces(s.drop_last(), j - 1);
    }
}

/// Copy of the text without its leading and trailing whitespace.
pub fn trim(s: &str) -> (r: String)
    ensures
        r@ == trim_of(s@),
{
    let n = s.unicode_len();
    let mut i: usize = 0;
    while i < n && is_space(s.get_char(i))
        invariant
            0 <= i <= n,
            n == s@.len(),
            forall|k: int| 0 <= k < i ==> is_space_char(s@[k]),
        decreases n - i,
    {
        i = i + 1;
    }
    let mut j: usize = n;
    while j > i && is_space(s.get_char(j - 1))
        invariant
            i <= j <= n,
            n == s@.len(),
            forall|k: int| j <= k < n ==> is_space_char(s@[k]),
        decreases j,
    {
        j = j - 1;
    }
    proof {
        if i < j {
            lemma_leading_spaces(s@, i as int);
            lemma_trailing_spaces(s@, n - j);
        } else {
            assert(forall|k: int| 0 <= k < n ==> is_space_char(s@[k]));
            lemma_leading_spaces(s@, n as int);
            lemma_trailing_spaces(s@, n as int);
        }
    }
    let sub = s.substring_char(i, j);
    sub.to_owned()
}

/// Whether the character is in the whitespace set that trimming removes.
pub fn is_space(c: char) -> (r: bool)
    ensures
        r == is_space_char(c),
{
    c == ' ' || c == '\t' || c == '\n' || c == '\r' || c == '\u{b}' || c == '\u{c}'
        || c == '\u{85}' || c == '\u{a0}' || c == '\u{1680}' || c == '\u{2000}'
        || c == '\u{2001}' || c == '\u{2002}' || c == '\u{2003}' || c == '\u{2004}'
        || c == '\u{2005}' || c == '\u{2006}' || c == '\u{2007}' || c == '\u{2008}'
        || c == '\u{2009}' || c == '\u{200a}' || c == '\u{2028}' || c == '\u{2029}'
        || c == '\u{202f}' || c == '\u{205f}' || c == '\u{3000}'
}

/// Relies on `String::push`: appends the one character to the text.
pub assume_specification[ String::push ](s: &mut String, c: char)
    ensures
        final(s)@ == old(s)@.push(c),
;

/// Whether the character is a decimal digit.
pub open spec fn is_digit_char(c: char) -> bool {
    48 <= c as int && c as int <= 57
}

/// The numeric value of a decimal digit character.
pub open spec fn digit_val(c: char) -> int {
    c as int - 48
}

/// The character for a decimal digit value.
pub open spec fn digit_char(d: int) -> char {
    if d == 0 {
        '0'
    } else if d == 1 {
        '1'
    } else if d == 2 {
        '2'
    } else if d == 3 {
        '3'
    } else if d == 4 {
        '4'
    } else if d == 5 {
        '5'
    } else if d == 6 {
        '6'
    } else if d == 7 {
        '7'
    } else if d == 8 {
        '8'
    } else {
        '9'
    }
}

/// A digit's character carries its value.
pub proof fn lemma_digit_char_val(d: int)
    requires
        0 <= d <= 9,
    ensures
        is_digit_char(digit_char(d)),
        digit_val(digit_char(d)) == d,
{
}

/// The one-character text of a decimal digit value.
pub fn digit_str(d: u32) -> (r: &'static str)
    requires
        d <= 9,
    ensures
        r@ =~= seq![digit_char(d as int)],
{
    proof {
        reveal_strlit("0");
        reveal_strlit("1");
        reveal_strlit("2");
        reveal_strlit("3");
        reveal_strlit("4");
        reveal_strlit("5");
        reveal_strlit("6");
        reveal_strlit("7");
        reveal_strlit("8");
        reveal_strlit("9");
    }
    match d {
        0 => "0",
        1 => "1",
        2 => "2",
        3 => "3",
        4 => "4",
        5 => "5",
        6 => "6",
        7 => "7",
        8 => "8",
        _ => "9",
    }
}

/// The decimal digits of a non-negative number, most significant first.
pub open spec fn dec_of(n: int) -> Seq<char>
    decreases n,
{
    if n < 10 {
        seq![digit_char(n)]
    } else {
        dec_of(n / 10).push(digit_char(n % 10))
    }
}

/// The decimal digits of a number denote it: they are digits, at least one,
/// and their value is the number.
pub proof fn lemma_dec_of_digits(n: int)
    requires
        n >= 0,
    ensures
        forall|k: int| 0 <= k < dec_of(n).len() ==> is_digit_char(dec_of(n)[k]),
        digits_of(dec_of(n)) == n,
        dec_of(n).len() >= 1,
    decreases n,
{
    if n < 10 {
        lemma_digit_char_val(n);
        assert(digits_of(Seq::<char>::empty()) == 0);
        assert(seq![digit_char(n)].drop_last() =~= Seq::<char>::empty());
        assert(seq![digit_char(n)].last() == digit_char(n));
        assert(digits_of(seq![digit_char(n)]) == n);
    } else {
        lemma_dec_of_digits(n / 10);
        lemma_digit_char_val(n % 10);
        let t = dec_of(n / 10);
        let c = digit_char(n % 10);
        assert(t.push(c).drop_last() =~= t);
        assert(t.push(c).last() == c);
        assert(digits_of(t.push(c)) == digits_of(t) * 10 + digit_val(c));
        vstd::arithmetic::div_mod::lemma_fundamental_div_mod(n, 10);
        assert(digits_of(dec_of(n)) == n);
        assert(forall|k: int|
            0 <= k < t.push(c).len() ==> is_digit_char(t.push(c)[k])) by {
            assert(forall|k: int| 0 <= k < t.len() ==> t.push(c)[k] == t[k]);
        }
    }
}

/// Write the number in decimal.
pub fn u32_to_string(n: u32) -> (r: String)
    ensures
        r@ == dec_of(n as int),
    decreases n,
{
    if n < 10 {
        digit_str(n).to_owned()
    } else {
        let mut s = u32_to_string(n / 10);
        s.append(digit_str(n % 10));
        proof {
            assert(s@ =~= dec_of(n as int));
        }
        s
    }
}

/// The number a sequence of decimal digit characters denotes.
pub open spec fn digits_of(s: Seq<char>) -> int
    decreases s.len(),
{
    if s.len() == 0 {
        0
    } else {
        digits_of(s.drop_last()) * 10 + digit_val(s.last())
    }
}

/// The digits of the number, without its sign character if it has one.
pub open spec fn u32_body(s: Seq<char>) -> Seq<char> {
    if s.len() > 0 && s[0] == '+' {
        s.skip(1)
    } else {
        s
    }
}

/// What parsing the text as a decimal `u32` yields: an optional leading `+`,
/// then one or more digits whose value fits; anything else is `None`.
pub open spec fn spec_parse_u32(s: Seq<char>) -> Option<u32> {
    let b = u32_body(s);
    if b.len() == 0 {
        None
    } else if !(forall|k: int| 0 <= k < b.len() ==> is_digit_char(b[k])) {
        None
    } else if digits_of(b) > u32::MAX {
        None
    } else {
        Some(digits_of(b) as u32)
    }
}

pub proof fn lemma_digits_nonneg(s: Seq<char>)
    requires
        forall|k: int| 0 <= k < s.len() ==> is_digit_char(s[k]),
    ensures
        digits_of(s) >= 0,
    decreases s.len(),
{
    if s.len() > 0 {
        lemma_digits_nonneg(s.drop_last());
    }
}

pub proof fn lemma_digits_mono(s: Seq<char>, k: int)
    requires
        forall|j: int| 0 <= j < s.len() ==> is_digit_char(s[j]),
        0 <= k <= s.len(),
    ensures
        digits_of(s.take(k)) <= digits_of(s),
    decreases s.len(),
{
    if k == s.len() {
        assert(s.take(k) =~= s);
    } else {
        let t = s.drop_last();
        assert(s.take(k) =~= t.take(k));
        lemma_digits_mono(t, k);
        lemma_digits_nonneg(t);
    }
}

proof fn lemma_digits_overflow(b: Seq<char>, prefix1: Seq<char>, k: int, lo: int)
    requires
        0 <= k,
        k + 1 <= b.len(),
        prefix1 =~= b.take(k + 1),
        digits_of(prefix1) >= lo,
    ensures
        (forall|j: int| 0 <= j < b.len() ==> is_digit_char(b[j])) ==> digits_of(b) >= lo,
{
    if forall|j: int| 0 <= j < b.len() ==> is_digit_char(b[j]) {
        lemma_digits_mono(b, k + 1);
    }
}

/// Parse the text as a decimal `u32`, as the count field requires.
pub fn parse_u32(s: &str) -> (r: Option<u32>)
    ensures
        r == spec_parse_u32(s@),
{
    let n = s.unicode_len();
    let offset: usize = if n > 0 && s.get_char(0) == '+' {
        1
    } else {
        0
    };
    proof {
        assert(u32_body(s@) =~= s@.subrange(offset as int, n as int));
    }
    if n == offset {
        return None;
    }
    let ghost b = u32_body(s@);
    let mut val: u32 = 0;
    let mut i: usize = offset;
    while i < n
        invariant
            offset <= i <= n,
            n == s@.len(),
            b == u32_body(s@),
            b =~= s@.subrange(offset as int, n as int),
            forall|k: int| offset <= k < i ==> is_digit_char(s@[k]),
            val == digits_of(s@.subrange(offset as int, i as int)),
        decreases n - i,
    {
        let c = s.get_char(i);
        let u = c as u32;
        if u < 48 || u > 57 {
            assert(!is_digit_char(b[i - offset]));
            return None;
        }
        let d = u - 48;
        let ghost prefix = s@.subrange(offset as int, i as int);
        let ghost prefix1 = s@.subrange(offset as int, i as int + 1);
        proof {
            assert(prefix1.drop_last() =~= prefix);
            assert(prefix1.last() == s@[i as int]);
            assert(digit_val(s@[i as int]) == d);
            assert(digits_of(prefix1) == val * 10 + d);
        }
        let next = match val.checked_mul(10) {
            Some(v) => match v.checked_add(d) {
                Some(v2) => v2,
                None => {
                    proof {
                        lemma_digits_overflow(b, prefix1, i as int - offset, val * 10 + d);
                    }
                    return None;
                },
            },
            None => {
                proof {
                    lemma_digits_nonneg(prefix);
                    assert(digits_of(prefix1) >= val * 10);
                    lemma_digits_overflow(b, prefix1, i as int - offset, digits_of(prefix1));
                }
                return None;
            },
        };
        val = next;
        i = i + 1;
    }
    proof {
        assert(b =~= s@.subrange(offset as int, n as int));
    }
    Some(val)
}

} // verus!
