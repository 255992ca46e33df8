//! Text as sequences of characters.

use vstd::prelude::*;

verus! {

/// Appends one character (`String::push`).
pub assume_specification[ String::push ](s: &mut String, c: char)
    ensures
        final(s)@ == old(s)@.push(c),
;

/// The character that writes the decimal digit `d`.
pub open spec fn digit_char(d: nat) -> char {
    (('0' as u32) + d) as char
}

/// `n` in decimal, without leading zeros.
pub open spec fn decimal(n: nat) -> Seq<char>
    decreases n,
{
    if n < 10 {
        seq![digit_char(n)]
    } else {
        decimal(n / 10).push(digit_char(n % 10))
    }
}

/// Whether `c` is one of the ten ASCII digits.
pub open spec fn is_digit(c: char) -> bool {
    '0' <= c <= '9'
}

/// Whether `s` consists of ASCII digits alone.
pub open spec fn all_digits(s: Seq<char>) -> bool {
    forall|i: int| 0 <= i < s.len() ==> is_digit(#[trigger] s[i])
}

/// The number that the digits `s` write in decimal.
pub open spec fn digits_value(s: Seq<char>) -> nat
    decreases s.len(),
{
    if s.len() == 0 {
        0
    } else {
        digits_value(s.drop_last()) * 10 + (s.last() as u32 - '0' as u32) as nat
    }
}

/// Whether `part` stands in `s` at index `i`.
pub open spec fn has_at(s: Seq<char>, i: int, part: Seq<char>) -> bool {
    &&& 0 <= i
    &&& i + part.len() <= s.len()
    &&& s.subrange(i, i + part.len()) == part
}

/// Whether `part` stands somewhere in `s`.
pub open spec fn occurs_in(part: Seq<char>, s: Seq<char>) -> bool {
    exists|i: int| has_at(s, i, part)
}

/// `s` with every `from` replaced by `to`.
pub open spec fn replaced(s: Seq<char>, from: char, to: char) -> Seq<char> {
    Seq::new(
        s.len(),
        |i: int|
            if s[i] == from {
                to
            } else {
                s[i]
            },
    )
}

/// How often `c` stands in `s`.
pub open spec fn count_of(s: Seq<char>, c: char) -> nat
    decreases s.len(),
{
    if s.len() == 0 {
        0
    } else {
        count_of(s.drop_last(), c) + if s.last() == c {
            1nat
        } else {
            0
        }
    }
}

/// Whether `s` consists of ASCII letters and digits alone.
pub open spec fn all_alphanumeric(s: Seq<char>) -> bool {
    forall|i: int|
        0 <= i < s.len() ==> is_digit(#[trigger] s[i]) || 'A' <= s[i] <= 'Z' || 'a' <= s[i] <= 'z'
}

/// The 64-bit number that `s` writes: an optional plus sign, then at least one
/// digit and nothing else, with a value that fits.
pub open spec fn number_of(s: Seq<char>) -> Option<u64> {
    let digits = if s.len() > 0 && s[0] == '+' {
        s.skip(1)
    } else {
        s
    };
    if digits.len() > 0 && all_digits(digits) && digits_value(digits) <= u64::MAX {
        Some(digits_value(digits) as u64)
    } else {
        None
    }
}

/// The characters of `s`.
pub fn to_chars(s: &str) -> (res: Vec<char>)
    ensures
        res@ == s@,
{
    let mut res: Vec<char> = Vec::new();
    for c in it: s.chars()
        invariant
            it.seq() == s@,
            res@ == s@.take(it.index()),
    {
        res.push(c);
        assert(s@.take(it.index() + 1) == s@.take(it.index()).push(c));
    }
    assert(s@.take(s@.len() as int) == s@);
    res
}

/// `n` in decimal.
pub fn decimal_string(n: u64) -> (res: String)
    ensures
        res@ == decimal(n as nat),
    decreases n,
{
    let mut res: String = if n < 10 {
        String::new()
    } else {
        decimal_string(n / 10)
    };
    let digit: u8 = (n % 10) as u8;
    res.push((48u8 + digit) as char);
    res
}

/// The two texts, one after the other.
pub fn concat(a: &str, b: &str) -> (res: String)
    ensures
        res@ == a@ + b@,
{
    let mut res: String = a.to_owned();
    res.append(b);
    res
}

/// Whether `part` stands in `s` at index `at`.
pub fn stands_at(s: &Vec<char>, at: usize, part: &Vec<char>) -> (res: bool)
    requires
        at <= s.len(),
    ensures
        res == has_at(s@, at as int, part@),
{
    if s.len() - at < part.len() {
        return false;
    }
    let mut i: usize = 0;
    while i < part.len()
        invariant
            i <= part.len(),
            at + part.len() <= s.len(),
            forall|k: int| 0 <= k < i ==> s[at + k] == #[trigger] part[k],
        decreases part.len() - i,
    {
        if s[at + i] != part[i] {
            assert(s@.subrange(at as int, at + part.len())[i as int] != part[i as int]);
            return false;
        }
        i += 1;
    }
    assert(s@.subrange(at as int, at + part.len()) =~= part@);
    true
}

/// Whether `s` begins with `prefix`.
pub fn starts_with(s: &str, prefix: &str) -> (res: bool)
    ensures
        res == prefix@.is_prefix_of(s@),
{
    let res: bool = stands_at(&to_chars(s), 0, &to_chars(prefix));
    res
}

/// Whether `part` occurs in `s`.
pub fn contains(s: &str, part: &str) -> (res: bool)
    ensures
        res == occurs_in(part@, s@),
{
    let chars: Vec<char> = to_chars(s);
    let wanted: Vec<char> = to_chars(part);
    let mut i: usize = 0;
    loop
        invariant
            i <= chars.len(),
            chars@ == s@,
            wanted@ == part@,
            forall|k: int| 0 <= k < i ==> !has_at(s@, k, part@),
        decreases chars.len() - i,
    {
        if stands_at(&chars, i, &wanted) {
            return true;
        }
        if i == chars.len() {
            return false;
        }
        i += 1;
    }
}

/// `s` with every `from` replaced by `to`.
pub fn replace(s: &str, from: char, to: char) -> (res: String)
    ensures
        res@ == replaced(s@, from, to),
{
    let mut res: String = String::new();
    for c in it: s.chars()
        invariant
            it.seq() == s@,
            res@ == replaced(s@.take(it.index()), from, to),
    {
        let ghost before = s@.take(it.index());
        if c == from {
            res.push(to);
        } else {
            res.push(c);
        }
        assert(s@.take(it.index() + 1) == before.push(c));
        assert(replaced(before.push(c), from, to) == res@);
    }
    assert(s@.take(s@.len() as int) == s@);
    res
}

/// How often `c` stands in `s`.
pub fn count(s: &str, c: char) -> (res: usize)
    ensures
        res == count_of(s@, c),
{
    let chars: Vec<char> = to_chars(s);
    let mut found: usize = 0;
    let mut i: usize = 0;
    while i < chars.len()
        invariant
            i <= chars.len(),
            chars@ == s@,
            found <= i,
            found == count_of(s@.take(i as int), c),
        decreases chars.len() - i,
    {
        assert(s@.take(i + 1).drop_last() == s@.take(i as int));
        if chars[i] == c {
            found += 1;
        }
        i += 1;
    }
    assert(s@.take(i as int) == s@);
    found
}

/// Dropping trailing digits never makes the number larger.
pub proof fn lemma_digits_value_prefix(s: Seq<char>, k: int)
    requires
        0 <= k <= s.len(),
        all_digits(s),
    ensures
        digits_value(s.take(k)) <= digits_value(s),
    decreases s.len(),
{
    if k == s.len() {
        assert(s.take(k) == s);
    } else {
        assert(s.drop_last().take(k) == s.take(k));
        lemma_digits_value_prefix(s.drop_last(), k);
    }
}

/// The 64-bit number that `s` writes, if it writes one.
pub fn parse_number(s: &str) -> (res: Option<u64>)
    ensures
        res == number_of(s@),
{
    let chars: Vec<char> = to_chars(s);
    let start: usize = if chars.len() > 0 && chars[0] == '+' {
        1
    } else {
        0
    };
    let ghost digits = s@.skip(start as int);
    assert(s@.skip(0) == s@);
    if start == chars.len() {
        return None;
    }
    let mut value: u64 = 0;
    let mut i: usize = start;
    while i < chars.len()
        invariant
            chars@ == s@,
            start <= i <= chars.len(),
            digits == s@.skip(start as int),
            digits == (if s@.len() > 0 && s@[0] == '+' {
                s@.skip(1)
            } else {
                s@
            }),
            all_digits(digits.take(i - start)),
            value == digits_value(digits.take(i - start)),
        decreases chars.len() - i,
    {
        let c: char = chars[i];
        assert(digits[i - start] == c);
        if c < '0' || '9' < c {
            return None;
        }
        let digit: u64 = (c as u32 - 48) as u64;
        let ghost next = digits.take(i - start + 1);
        assert(next.drop_last() == digits.take(i - start));
        assert(digits_value(next) == value * 10 + digit);
        if value > (u64::MAX - digit) / 10 {
            proof {
                if all_digits(digits) {
                    lemma_digits_value_prefix(digits, i - start + 1);
                }
            }
            return None;
        }
        value = value * 10 + digit;
        i += 1;
    }
    assert(digits.take(chars.len() - start) == digits);
    Some(value)
}

/// What is written in decimal is read back as the same number.
pub proof fn law_decimal_is_read_back(n: nat)
    ensures
        decimal(n).len() > 0,
        all_digits(decimal(n)),
        digits_value(decimal(n)) == n,
        n <= u64::MAX ==> number_of(decimal(n)) == Some(n as u64),
    decreases n,
{
    let s = decimal(n);
    reveal_with_fuel(digits_value, 2);
    if n < 10 {
        assert(s.drop_last() =~= Seq::<char>::empty());
    } else {
        law_decimal_is_read_back(n / 10);
        assert(s.drop_last() =~= decimal(n / 10));
    }
}

/// Two numbers in decimal, each with the same separator and more behind it, give
/// different texts if they are different.
pub proof fn law_numbered_texts_differ(a: nat, b: nat, separator: char, x: Seq<char>, y: Seq<char>)
    requires
        !is_digit(separator),
        a != b,
    ensures
        decimal(a).push(separator) + x != decimal(b).push(separator) + y,
{
    let left = decimal(a).push(separator) + x;
    let right = decimal(b).push(separator) + y;
    law_decimal_is_read_back(a);
    law_decimal_is_read_back(b);
    if left == right {
        let n = decimal(a).len() as int;
        let m = decimal(b).len() as int;
        if n < m {
            assert(left[n] == separator);
            assert(right[n] == decimal(b)[n]);
        } else if m < n {
            assert(right[m] == separator);
            assert(left[m] == decimal(a)[m]);
        } else {
            assert forall|i: int| 0 <= i < n implies decimal(a)[i] == decimal(b)[i] by {
                assert(left[i] == right[i]);
            }
            assert(decimal(a) =~= decimal(b));
        }
    }
}

/// A digit is one of the ten characters from `0` to `9`.
pub proof fn law_ten_digits(c: char)
    ensures
        is_digit(c) <==> c == '0' || c == '1' || c == '2' || c == '3' || c == '4' || c == '5' || c
            == '6' || c == '7' || c == '8' || c == '9',
{
}

/// A digit behind others makes their number ten times as large, and adds itself.
pub proof fn law_digit_is_appended(s: Seq<char>, c: char)
    requires
        '0' <= c <= '9',
    ensures
        digits_value(Seq::empty()) == 0,
        digits_value(s.push(c)) == 10 * digits_value(s) + (c as int - 48),
{
    assert(s.push(c).drop_last() =~= s);
}

/// A number is written without leading zeros.
pub proof fn law_no_leading_zero(n: nat)
    ensures
        decimal(n).len() > 0,
        n > 0 ==> decimal(n)[0] != '0',
        n == 0 ==> decimal(n) == seq!['0'],
    decreases n,
{
    if n >= 10 {
        law_no_leading_zero(n / 10);
    }
}

/// Digits, with or without a plus sign before them, are read as their number if it
/// fits into 64 bits; nothing else is read.
pub proof fn law_number_is_read(s: Seq<char>, digits: Seq<char>)
    requires
        s == digits || s == seq!['+'] + digits,
        digits.len() > 0,
        forall|i: int| 0 <= i < digits.len() ==> '0' <= #[trigger] digits[i] <= '9',
    ensures
        digits_value(digits) <= 0xffff_ffff_ffff_ffff ==> number_of(s) == Some(
            digits_value(digits) as u64,
        ),
        digits_value(digits) > 0xffff_ffff_ffff_ffff ==> number_of(s) is None,
{
    if s != digits {
        assert(s.skip(1) =~= digits);
        assert(s[0] == '+');
    } else {
        assert('0' <= digits[0] <= '9');
    }
    assert forall|i: int| 0 <= i < digits.len() implies is_digit(#[trigger] digits[i]) by {}
}

/// A text that is read as a number has only digits, but for a plus sign at its
/// beginning, and at least one of them.
pub proof fn law_only_numbers_are_read(s: Seq<char>)
    requires
        number_of(s) is Some,
    ensures
        s.len() > 0,
        s[0] == '+' || '0' <= s[0] <= '9',
        s[0] == '+' ==> s.len() > 1,
        forall|i: int| 1 <= i < s.len() ==> '0' <= #[trigger] s[i] <= '9',
{
    if s[0] == '+' {
        assert forall|i: int| 1 <= i < s.len() implies '0' <= #[trigger] s[i] <= '9' by {
            assert(s.skip(1)[i - 1] == s[i]);
        }
    }
}

/// A text occurs in another exactly if the other is that text with something, or
/// nothing, before and behind it.
pub proof fn law_occurs(part: Seq<char>, s: Seq<char>)
    ensures
        occurs_in(part, s) <==> exists|a: Seq<char>, b: Seq<char>| s == #[trigger] ((a + part) + b),
{
    if occurs_in(part, s) {
        let i = choose|i: int| has_at(s, i, part);
        let a = s.take(i);
        let b = s.skip(i + part.len());
        assert(s =~= (a + part) + b);
    }
    if exists|a: Seq<char>, b: Seq<char>| s == #[trigger] ((a + part) + b) {
        let (a, b) = choose|a: Seq<char>, b: Seq<char>| s == #[trigger] ((a + part) + b);
        assert(s.subrange(a.len() as int, (a.len() + part.len()) as int) =~= part);
        assert(has_at(s, a.len() as int, part));
    }
}

/// Replacing a character changes it wherever it stands, and nothing else.
pub proof fn law_replaced(s: Seq<char>, from: char, to: char, i: int)
    requires
        0 <= i < s.len(),
    ensures
        replaced(s, from, to).len() == s.len(),
        s[i] == from ==> replaced(s, from, to)[i] == to,
        s[i] != from ==> replaced(s, from, to)[i] == s[i],
{
}

/// Counting goes character by character.
pub proof fn law_count(s: Seq<char>, c: char, d: char)
    ensures
        count_of(Seq::empty(), c) == 0,
        count_of(s.push(c), c) == count_of(s, c) + 1,
        c != d ==> count_of(s.push(d), c) == count_of(s, c),
{
    assert(s.push(c).drop_last() =~= s);
    assert(s.push(d).drop_last() =~= s);
}

} // verus!
