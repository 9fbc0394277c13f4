//! The names of segment and index files.
//!
//! A segment that begins at offset `b` lives in the file whose name is `b`
//! in decimal, padded with zeros to twenty digits, followed by `.log`; its
//! index has the same stem and ends in `.index`.

use vstd::prelude::*;
use vstd::string::StringExecFns;
use vstd::string::StrSliceExecFns;

verus! {

/// The character of a decimal digit.
pub open spec fn digit_char(d: int) -> char {
    if d == 0 {
        '0'
    } else if d == 1 {
        '1'
    } else if d == 2 {
        '2'
    } else if d == 3 {
        '3'
    } else if d == 4 {
        '4'
    } else if d == 5 {
        '5'
    } else if d == 6 {
        '6'
    } else if d == 7 {
        '7'
    } else if d == 8 {
        '8'
    } else {
        '9'
    }
}

/// The value of a decimal digit character, or -1 for any other character.
pub open spec fn digit_value(c: char) -> int {
    if c == '0' {
        0
    } else if c == '1' {
        1
    } else if c == '2' {
        2
    } else if c == '3' {
        3
    } else if c == '4' {
        4
    } else if c == '5' {
        5
    } else if c == '6' {
        6
    } else if c == '7' {
        7
    } else if c == '8' {
        8
    } else if c == '9' {
        9
    } else {
        -1
    }
}

/// The last `width` decimal digits of `n`, most significant first.
pub open spec fn padded_decimal(n: nat, width: nat) -> Seq<char>
    decreases width,
{
    if width == 0 {
        Seq::empty()
    } else {
        padded_decimal(n / 10, (width - 1) as nat).push(digit_char((n % 10) as int))
    }
}

/// The number that a sequence of decimal digits writes, or -1 if a
/// character is no digit. The empty sequence writes zero.
pub open spec fn decimal_value(s: Seq<char>) -> int
    decreases s.len(),
{
    if s.len() == 0 {
        0
    } else if digit_value(s.last()) < 0 || decimal_value(s.drop_last()) < 0 {
        -1
    } else {
        decimal_value(s.drop_last()) * 10 + digit_value(s.last())
    }
}

/// The number that `s` writes in decimal, as the standard library reads it:
/// at least one digit, an optional plus sign in front, and a value that
/// fits in 64 bits.
pub open spec fn parse_decimal(s: Seq<char>) -> Option<u64> {
    let digits = if s.len() > 0 && s[0] == '+' {
        s.subrange(1, s.len() as int)
    } else {
        s
    };
    if digits.len() == 0 || decimal_value(digits) < 0 || decimal_value(digits) > u64::MAX {
        None
    } else {
        Some(decimal_value(digits) as u64)
    }
}

/// The position of the last dot of `s` before `upto`, or -1.
pub open spec fn last_dot(s: Seq<char>, upto: int) -> int
    decreases upto,
{
    if upto <= 0 || upto > s.len() {
        -1
    } else if s[upto - 1] == '.' {
        upto - 1
    } else {
        last_dot(s, upto - 1)
    }
}

/// The position of the last slash of `s` before `upto`, or -1.
pub open spec fn last_slash(s: Seq<char>, upto: int) -> int
    decreases upto,
{
    if upto <= 0 || upto > s.len() {
        -1
    } else if s[upto - 1] == '/' {
        upto - 1
    } else {
        last_slash(s, upto - 1)
    }
}

/// The directory part of a path: everything up to and including the last
/// slash, or nothing if the path has no slash.
pub open spec fn directory_of(path: Seq<char>) -> Seq<char> {
    path.subrange(0, last_slash(path, path.len() as int) + 1)
}

/// The last component of a path: what stands behind the last slash.
pub open spec fn component_of(path: Seq<char>) -> Seq<char> {
    path.subrange(last_slash(path, path.len() as int) + 1, path.len() as int)
}

/// The file name of a path, if it has one: its last component, unless that
/// is empty or stands for a directory.
pub open spec fn file_name_of(path: Seq<char>) -> Option<Seq<char>> {
    let c = component_of(path);
    if c.len() == 0 || c == seq!['.'] || c == seq!['.', '.'] {
        None
    } else {
        Some(c)
    }
}

/// The name without its extension: what stands before the last dot. A name
/// without a dot, or with its only dot in front, has no extension.
pub open spec fn stem_of(name: Seq<char>) -> Seq<char> {
    let d = last_dot(name, name.len() as int);
    if d <= 0 {
        name
    } else {
        name.subrange(0, d)
    }
}

/// The extension of a name: what stands behind the last dot, if the name
/// has one that is not in front.
pub open spec fn extension_of(name: Seq<char>) -> Option<Seq<char>> {
    let d = last_dot(name, name.len() as int);
    if d <= 0 {
        None
    } else {
        Some(name.subrange(d + 1, name.len() as int))
    }
}

/// The name of the segment file that begins at `base`.
pub open spec fn segment_name(base: u64) -> Seq<char> {
    padded_decimal(base as nat, 20) + seq!['.', 'l', 'o', 'g']
}

/// The name of the index file of the segment that begins at `base`.
pub open spec fn index_name(base: u64) -> Seq<char> {
    padded_decimal(base as nat, 20) + seq!['.', 'i', 'n', 'd', 'e', 'x']
}

/// The text of one decimal digit.
fn digit_text(d: u64) -> (r: &'static str)
    requires
        d < 10,
    ensures
        r@ == seq![digit_char(d as int)],
{
    proof {
        reveal_strlit("0");
        reveal_strlit("1");
        reveal_strlit("2");
        reveal_strlit("3");
        reveal_strlit("4");
        reveal_strlit("5");
        reveal_strlit("6");
        reveal_strlit("7");
        reveal_strlit("8");
        reveal_strlit("9");
    }
    let r: &'static str = if d == 0 {
        "0"
    } else if d == 1 {
        "1"
    } else if d == 2 {
        "2"
    } else if d == 3 {
        "3"
    } else if d == 4 {
        "4"
    } else if d == 5 {
        "5"
    } else if d == 6 {
        "6"
    } else if d == 7 {
        "7"
    } else if d == 8 {
        "8"
    } else {
        "9"
    };
    r
}

/// Ten to the power of `e`.
pub open spec fn pow10(e: nat) -> nat
    decreases e,
{
    if e == 0 {
        1
    } else {
        10 * pow10((e - 1) as nat)
    }
}

/// `n` in decimal, padded with zeros to twenty digits.
pub fn twenty_digits(n: u64) -> (r: String)
    ensures
        r@ == padded_decimal(n as nat, 20),
{
    let mut s: String = String::new();
    let mut p: u64 = 10_000_000_000_000_000_000;
    let mut k: usize = 0;
    proof {
        lemma_pow10_nineteen();
    }
    while k < 20
        invariant
            k <= 20,
            k < 20 ==> p == pow10((19 - k) as nat),
            s@ == padded_decimal((n as nat) / pow10((20 - k) as nat), k as nat),
        decreases 20 - k,
    {
        proof {
            lemma_pow10_positive((19 - k) as nat);
        }
        let m: u64 = n / p;
        let d: u64 = m % 10;
        proof {
            let e = (19 - k) as nat;
            // (n / 10^e) / 10 == n / 10^(e+1)
            vstd::arithmetic::div_mod::lemma_div_denominator(n as int, pow10(e) as int, 10);
        }
        s.append(digit_text(d));
        k += 1;
        if k < 20 {
            p = p / 10;
        }
    }
    assert((n as nat) / 1 == n as nat);
    s
}

/// The value of ten to the nineteenth, the largest power of ten below 2^64.
pub proof fn lemma_pow10_nineteen()
    ensures
        pow10(19) == 10_000_000_000_000_000_000nat,
{
    reveal_with_fuel(pow10, 5);
    assert(pow10(4) == 10_000);
    assert(pow10(8) == 100_000_000);
    assert(pow10(12) == 1_000_000_000_000);
    assert(pow10(16) == 10_000_000_000_000_000);
}

/// `n` in decimal, without leading zeros.
pub open spec fn decimal_digits(n: nat) -> Seq<char>
    decreases n,
{
    if n < 10 {
        seq![digit_char(n as int)]
    } else {
        decimal_digits(n / 10).push(digit_char((n % 10) as int))
    }
}

/// `n` in decimal, without leading zeros.
pub fn decimal_text(n: u64) -> (r: String)
    ensures
        r@ == decimal_digits(n as nat),
    decreases n,
{
    if n < 10 {
        String::from_str(digit_text(n))
    } else {
        let mut s: String = decimal_text(n / 10);
        s.append(digit_text(n % 10));
        s
    }
}

/// Powers of ten are positive.
pub proof fn lemma_pow10_positive(e: nat)
    ensures
        pow10(e) > 0,
    decreases e,
{
    if e > 0 {
        lemma_pow10_positive((e - 1) as nat);
    }
}

/// Padding writes a number that has no more digits than the width allows
/// in such a way that reading gives the number back; and what it writes
/// holds digits only.
pub proof fn lemma_padded_decimal(n: nat, width: nat)
    requires
        n < pow10(width),
    ensures
        padded_decimal(n, width).len() == width,
        decimal_value(padded_decimal(n, width)) == n,
        forall|i: int|
            0 <= i < width ==> (#[trigger] padded_decimal(n, width)[i]) != '.' && padded_decimal(
                n,
                width,
            )[i] != '+',
    decreases width,
{
    if width > 0 {
        let w = (width - 1) as nat;
        lemma_padded_decimal(n / 10, w);
        let s = padded_decimal(n, width);
        assert(s.drop_last() =~= padded_decimal(n / 10, w));
    }
}

/// The name of a segment file gives back the offset it was made from.
pub proof fn lemma_segment_name_parses(base: u64)
    ensures
        parse_decimal(stem_of(segment_name(base))) == Some(base),
        extension_of(segment_name(base)) == Some(seq!['l', 'o', 'g']),
{
    lemma_pow10_nineteen();
    lemma_padded_decimal(base as nat, 20);
    let digits = padded_decimal(base as nat, 20);
    let name = segment_name(base);
    assert(last_dot(name, 24) == 20) by {
        reveal_with_fuel(last_dot, 5);
    }
    assert(name.subrange(0, 20) =~= digits);
}

/// The name of the segment file that begins at `base`.
pub fn segment_file_name(base: u64) -> (r: String)
    ensures
        r@ == segment_name(base),
{
    proof {
        reveal_strlit(".log");
    }
    let mut s: String = twenty_digits(base);
    s.append(".log");
    s
}

/// The name of the index file of the segment that begins at `base`.
pub fn index_file_name(base: u64) -> (r: String)
    ensures
        r@ == index_name(base),
{
    proof {
        reveal_strlit(".index");
    }
    let mut s: String = twenty_digits(base);
    s.append(".index");
    s
}

/// The value of a decimal digit character.
fn digit_of(c: char) -> (r: Option<u64>)
    ensures
        match r {
            Some(d) => d == digit_value(c) && d < 10,
            None => digit_value(c) < 0,
        },
{
    if c == '0' {
        Some(0)
    } else if c == '1' {
        Some(1)
    } else if c == '2' {
        Some(2)
    } else if c == '3' {
        Some(3)
    } else if c == '4' {
        Some(4)
    } else if c == '5' {
        Some(5)
    } else if c == '6' {
        Some(6)
    } else if c == '7' {
        Some(7)
    } else if c == '8' {
        Some(8)
    } else if c == '9' {
        Some(9)
    } else {
        None
    }
}

/// Once a prefix of the digits is no number, or too large, the whole is.
proof fn lemma_decimal_value_grows(s: Seq<char>, k: int)
    requires
        0 <= k <= s.len(),
    ensures
        decimal_value(s.subrange(0, k)) < 0 ==> decimal_value(s) < 0,
        decimal_value(s) >= 0 ==> decimal_value(s.subrange(0, k)) <= decimal_value(s),
    decreases s.len() - k,
{
    if k < s.len() {
        lemma_decimal_value_grows(s, k + 1);
        let t = s.subrange(0, k + 1);
        assert(t.drop_last() =~= s.subrange(0, k));
    } else {
        assert(s.subrange(0, k) =~= s);
    }
}

/// Reads a decimal number from characters `from..` of `s`, as the standard
/// library's parser for `u64` does on that part.
fn parse_digits(s: &str, from: usize, len: usize) -> (r: Option<u64>)
    requires
        from <= len,
        len == s@.len(),
    ensures
        ({
            let digits = s@.subrange(from as int, len as int);
            r == (if digits.len() == 0 || decimal_value(digits) < 0 || decimal_value(digits)
                > u64::MAX {
                None
            } else {
                Some(decimal_value(digits) as u64)
            })
        }),
{
    let ghost digits = s@.subrange(from as int, len as int);
    if from == len {
        return None;
    }
    let mut value: u64 = 0;
    let mut i: usize = from;
    while i < len
        invariant
            from <= i <= len,
            len == s@.len(),
            digits == s@.subrange(from as int, len as int),
            value == decimal_value(digits.subrange(0, i - from)),
        decreases len - i,
    {
        let c: char = s.get_char(i);
        let ghost prefix = digits.subrange(0, i - from);
        let ghost next = digits.subrange(0, i - from + 1);
        proof {
            assert(next.drop_last() =~= prefix);
            lemma_decimal_value_grows(digits, i - from + 1);
        }
        match digit_of(c) {
            None => {
                return None;
            },
            Some(d) => {
                if value > (u64::MAX - d) / 10 {
                    return None;
                }
                value = value * 10 + d;
            },
        }
        i += 1;
    }
    assert(digits.subrange(0, len - from) =~= digits);
    Some(value)
}

/// Reads a decimal number as the standard library's parser for `u64` does.
pub fn parse_u64(s: &str) -> (r: Option<u64>)
    ensures
        r == parse_decimal(s@),
{
    let len: usize = s.unicode_len();
    if len > 0 && s.get_char(0) == '+' {
        parse_digits(s, 1, len)
    } else {
        assert(s@.subrange(0, len as int) =~= s@);
        parse_digits(s, 0, len)
    }
}

/// The position of the last dot of `s`, if it has one.
fn find_last_dot(s: &str, len: usize) -> (r: Option<usize>)
    requires
        len == s@.len(),
    ensures
        match r {
            Some(d) => d == last_dot(s@, s@.len() as int) && d < len,
            None => last_dot(s@, s@.len() as int) == -1,
        },
{
    let mut i: usize = len;
    while i > 0
        invariant
            i <= len,
            len == s@.len(),
            last_dot(s@, i as int) == last_dot(s@, len as int),
        decreases i,
    {
        if s.get_char(i - 1) == '.' {
            return Some(i - 1);
        }
        i -= 1;
    }
    None
}

/// Splits a path into its directory part and its last component.
pub fn split_path(path: &str) -> (r: (&str, &str))
    ensures
        r.0@ == directory_of(path@),
        r.1@ == component_of(path@),
{
    let len: usize = path.unicode_len();
    let mut i: usize = len;
    while i > 0
        invariant
            i <= len,
            len == path@.len(),
            last_slash(path@, i as int) == last_slash(path@, len as int),
        decreases i,
    {
        if path.get_char(i - 1) == '/' {
            return (path.substring_char(0, i), path.substring_char(i, len));
        }
        i -= 1;
    }
    (path.substring_char(0, 0), path.substring_char(0, len))
}

/// The file name of a path, if it has one.
pub fn path_file_name(path: &str) -> (r: Option<&str>)
    ensures
        match r {
            Some(n) => file_name_of(path@) == Some(n@),
            None => file_name_of(path@) is None,
        },
{
    let (_, c) = split_path(path);
    let len: usize = c.unicode_len();
    if len == 0 {
        return None;
    }
    if len == 1 && c.get_char(0) == '.' {
        assert(c@ =~= seq!['.']);
        return None;
    }
    if len == 2 && c.get_char(0) == '.' && c.get_char(1) == '.' {
        assert(c@ =~= seq!['.', '.']);
        return None;
    }
    Some(c)
}

/// Splits a file name into its stem and its extension.
pub fn split_name(name: &str) -> (r: (&str, Option<&str>))
    ensures
        r.0@ == stem_of(name@),
        match r.1 {
            Some(e) => extension_of(name@) == Some(e@),
            None => extension_of(name@) is None,
        },
{
    let len: usize = name.unicode_len();
    match find_last_dot(name, len) {
        Some(d) => {
            if d == 0 {
                (name, None)
            } else {
                (name.substring_char(0, d), Some(name.substring_char(d + 1, len)))
            }
        },
        None => (name, None),
    }
}

/// Whether `s` is the text `log`.
pub fn is_log_extension(s: &str) -> (r: bool)
    ensures
        r == (s@ == seq!['l', 'o', 'g']),
{
    let len: usize = s.unicode_len();
    if len != 3 {
        return false;
    }
    let r: bool = s.get_char(0) == 'l' && s.get_char(1) == 'o' && s.get_char(2) == 'g';
    if r {
        assert(s@ =~= seq!['l', 'o', 'g']);
    }
    r
}

} // verus!
