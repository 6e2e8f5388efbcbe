//! Whole numbers as decimal text.

use vstd::prelude::*;
use vstd::string::*;

use crate::text::{chars_of, is_digit};

verus! {

/// The value of a digit.
pub open spec fn digit_value(c: char) -> nat {
    (c as u32 - '0' as u32) as nat
}

/// Whether every character is a digit.
pub open spec fn all_digits(s: Seq<char>) -> bool {
    forall|i: int| 0 <= i < s.len() ==> is_digit(#[trigger] s[i])
}

/// The number that a row of digits stands for.
pub open spec fn digits_value(s: Seq<char>) -> nat
    decreases s.len(),
{
    if s.len() == 0 {
        0
    } else {
        10 * digits_value(s.drop_last()) + digit_value(s.last())
    }
}

/// The number that an unsigned decimal text stands for: an optional plus sign,
/// then at least one digit and nothing else.
pub open spec fn unsigned_value(s: Seq<char>) -> Option<nat> {
    let digits = if s.len() > 0 && s[0] == '+' {
        s.skip(1)
    } else {
        s
    };
    if digits.len() > 0 && all_digits(digits) {
        Some(digits_value(digits))
    } else {
        None
    }
}

/// The number that a signed decimal text stands for: an optional sign, then at
/// least one digit and nothing else.
pub open spec fn signed_value(s: Seq<char>) -> Option<int> {
    if s.len() > 0 && s[0] == '-' {
        if s.len() > 1 && all_digits(s.skip(1)) {
            Some(-(digits_value(s.skip(1)) as int))
        } else {
            None
        }
    } else {
        match unsigned_value(s) {
            Some(n) => Some(n as int),
            None => None,
        }
    }
}

/// The number of a text read as a `u64`, if it is one.
pub open spec fn u64_value(s: Seq<char>) -> Option<u64> {
    match unsigned_value(s) {
        Some(n) if n <= u64::MAX => Some(n as u64),
        _ => None,
    }
}

/// The number of a text read as an `i32`, if it is one.
pub open spec fn i32_value(s: Seq<char>) -> Option<i32> {
    match signed_value(s) {
        Some(n) if i32::MIN <= n <= i32::MAX => Some(n as i32),
        _ => None,
    }
}

proof fn lemma_digits_value_grows(s: Seq<char>, k: int)
    requires
        0 <= k <= s.len(),
    ensures
        digits_value(s.take(k)) <= digits_value(s),
    decreases s.len(),
{
    if k < s.len() {
        lemma_digits_value_grows(s.drop_last(), k);
        assert(s.drop_last().take(k) == s.take(k));
    } else {
        assert(s.take(k) == s);
    }
}

/// The value of the digits of `v` from position `from` on, if there is at
/// least one, nothing else follows, and the value is at most `limit`.
fn read_digits(v: &Vec<char>, from: usize, limit: u64) -> (r: Option<u64>)
    requires
        from <= v.len(),
    ensures
        r == ({
            let d = v@.skip(from as int);
            if d.len() > 0 && all_digits(d) && digits_value(d) <= limit {
                Some(digits_value(d) as u64)
            } else {
                None
            }
        }),
{
    let ghost d = v@.skip(from as int);
    if from == v.len() {
        return None;
    }
    let mut n: u64 = 0;
    let mut i: usize = from;
    while i < v.len()
        invariant
            from <= i <= v.len(),
            d == v@.skip(from as int),
            n <= limit,
            n == digits_value(d.take(i - from)),
            forall|k: int| 0 <= k < i - from ==> is_digit(#[trigger] d[k]),
        decreases v.len() - i,
    {
        let c: char = v[i];
        assert(c == d[i - from]);
        if c < '0' || c > '9' {
            return None;
        }
        let x: u64 = (c as u32 - '0' as u32) as u64;
        proof {
            let p = d.take(i - from + 1);
            assert(p.drop_last() == d.take(i - from));
            assert(digits_value(p) == 10 * n + x);
            lemma_digits_value_grows(d, i - from + 1);
        }
        if n > (u64::MAX - x) / 10 || n * 10 + x > limit {
            return None;
        }
        n = n * 10 + x;
        i += 1;
    }
    assert(d.take(i - from) == d);
    Some(n)
}

/// The number that the text stands for as a `u64`: `None` where the text is
/// not an unsigned decimal number, or where the number does not fit.
pub fn parse_u64(s: &str) -> (r: Option<u64>)
    ensures
        r == u64_value(s@),
{
    let v: Vec<char> = chars_of(s);
    if v.len() > 0 && v[0] == '+' {
        read_digits(&v, 1, u64::MAX)
    } else {
        assert(v@.skip(0) == v@);
        read_digits(&v, 0, u64::MAX)
    }
}

/// The number that the text stands for as an `i32`: `None` where the text is
/// not a signed decimal number, or where the number does not fit.
pub fn parse_i32(s: &str) -> (r: Option<i32>)
    ensures
        r == i32_value(s@),
{
    let v: Vec<char> = chars_of(s);
    if v.len() > 0 && v[0] == '-' {
        match read_digits(&v, 1, 2_147_483_648) {
            Some(n) => Some((0 - n as i64) as i32),
            None => None,
        }
    } else {
        let from: usize = if v.len() > 0 && v[0] == '+' { 1 } else { 0 };
        assert(v@.skip(0) == v@);
        match read_digits(&v, from, 2_147_483_647) {
            Some(n) => Some(n as i32),
            None => None,
        }
    }
}

/// The digit that stands for a number below ten.
pub open spec fn digit_char(n: nat) -> char {
    ('0' as u32 + n) as char
}

/// A number in decimal, without leading zeros.
pub open spec fn decimal(n: nat) -> Seq<char>
    decreases n,
{
    if n < 10 {
        seq![digit_char(n)]
    } else {
        decimal(n / 10).push(digit_char(n % 10))
    }
}

/// A number in decimal, with a minus sign before a negative one.
pub open spec fn signed_decimal(n: int) -> Seq<char> {
    if n < 0 {
        seq!['-'] + decimal((-n) as nat)
    } else {
        decimal(n as nat)
    }
}

/// The number in decimal.
pub fn u64_text(n: u64) -> (r: String)
    ensures
        r@ == decimal(n as nat),
    decreases n,
{
    let mut r: String = if n < 10 {
        String::new()
    } else {
        u64_text(n / 10)
    };
    r.push(('0' as u8 + (n % 10) as u8) as char);
    r
}

/// The number in decimal, with its sign where it is negative.
pub fn i32_text(n: i32) -> (r: String)
    ensures
        r@ == signed_decimal(n as int),
{
    if n < 0 {
        proof {
            reveal_strlit("-");
        }
        let mut r: String = "-".to_string();
        r.append(u64_text((0 - n as i64) as u64).as_str());
        r
    } else {
        u64_text(n as u64)
    }
}

/// The decimal text of a number is a row of digits that stands for it.
pub proof fn decimal_stands_for(n: nat)
    ensures
        decimal(n).len() > 0,
        all_digits(decimal(n)),
        digits_value(decimal(n)) == n,
    decreases n,
{
    if n < 10 {
        let s = seq![digit_char(n)];
        assert(s.drop_last() == Seq::<char>::empty());
        assert(digits_value(s.drop_last()) == 0);
        assert(s.last() == digit_char(n));
        assert(digits_value(s) == digit_value(digit_char(n)));
    } else {
        decimal_stands_for(n / 10);
        assert(decimal(n).drop_last() == decimal(n / 10));
    }
}

/// Reading the decimal text of a `u64` gives the number back.
pub proof fn reading_undoes_writing_u64(n: u64)
    ensures
        u64_value(decimal(n as nat)) == Some(n),
{
    decimal_stands_for(n as nat);
    assert(is_digit(decimal(n as nat)[0]));
}

/// Reading the decimal text of an `i32` gives the number back.
pub proof fn reading_undoes_writing_i32(n: i32)
    ensures
        i32_value(signed_decimal(n as int)) == Some(n),
{
    if n < 0 {
        decimal_stands_for((-(n as int)) as nat);
        assert(signed_decimal(n as int).skip(1) == decimal((-(n as int)) as nat));
    } else {
        decimal_stands_for(n as nat);
        assert(is_digit(decimal(n as nat)[0]));
    }
}

/// One more digit makes ten times the number, and the digit.
pub proof fn digits_count_by_tens(s: Seq<char>, c: char)
    requires
        48 <= c as u32 <= 57,
    ensures
        digits_value(Seq::empty()) == 0,
        digits_value(s.push(c)) == 10 * digits_value(s) + (c as u32 - 48),
{
    assert(s.push(c).drop_last() == s);
}

/// A row of digits is read as the number that it stands for where that fits, and
/// as nothing where it does not; a plus sign before it changes nothing, and a
/// minus sign turns it round.
pub proof fn rows_of_digits_are_read(s: Seq<char>)
    requires
        s.len() > 0,
        forall|i: int| 0 <= i < s.len() ==> '0' <= (#[trigger] s[i]) && s[i] <= '9',
    ensures
        ({
            let n = digits_value(s);
            &&& u64_value(s) == if n <= u64::MAX { Some(n as u64) } else { None }
            &&& i32_value(s) == if n <= i32::MAX { Some(n as i32) } else { None }
            &&& u64_value(seq!['+'] + s) == u64_value(s)
            &&& i32_value(seq!['+'] + s) == i32_value(s)
            &&& u64_value(seq!['-'] + s) is None
            &&& i32_value(seq!['-'] + s) == if -n >= i32::MIN { Some((-n) as i32) } else { None }
        }),
{
    assert(all_digits(s));
    assert(is_digit(s[0]));
    let plus = seq!['+'] + s;
    let minus = seq!['-'] + s;
    assert(plus.skip(1) == s);
    assert(minus.skip(1) == s);
    assert(!is_digit(minus[0]));
}

/// A text with anything but digits after an optional sign is no number, nor is
/// one without digits.
pub proof fn other_texts_are_no_numbers(s: Seq<char>, i: int)
    requires
        s.len() == 0 || (0 <= i < s.len() && !('0' <= s[i] && s[i] <= '9') && (i > 0 || s.len() == 1
            || (s[0] != '+' && s[0] != '-'))),
    ensures
        u64_value(s) is None,
        i32_value(s) is None,
{
    if s.len() > 0 {
        assert(!is_digit(s[i]));
        if s[0] == '+' || s[0] == '-' {
            let rest = s.skip(1);
            if i > 0 {
                assert(rest[i - 1] == s[i]);
                assert(!all_digits(rest));
            }
        }
        assert(!all_digits(s));
    }
}

/// A number is written with digits alone, with no zero before the others, and
/// with a minus sign exactly where it is negative.
pub proof fn numbers_are_written_plainly(n: int)
    ensures
        n >= 0 ==> ({
            let s = signed_decimal(n);
            &&& s.len() > 0
            &&& forall|i: int| 0 <= i < s.len() ==> '0' <= (#[trigger] s[i]) && s[i] <= '9'
            &&& s.len() > 1 ==> s[0] != '0'
            &&& digits_value(s) == n
            &&& s == decimal(n as nat)
        }),
        n < 0 ==> signed_decimal(n) == seq!['-'] + signed_decimal(-n),
    decreases if n < 0 { 1 - n } else { n },
{
    if n >= 0 {
        decimal_stands_for(n as nat);
        lemma_no_leading_zero(n as nat);
        let s = signed_decimal(n);
        assert forall|i: int| 0 <= i < s.len() implies '0' <= (#[trigger] s[i])
            && s[i] <= '9' by {
            assert(is_digit(s[i]));
        }
    }
}

proof fn lemma_no_leading_zero(n: nat)
    ensures
        decimal(n).len() > 0,
        n > 0 ==> decimal(n)[0] != '0',
        n == 0 ==> decimal(n).len() == 1,
        n < 10 ==> decimal(n).len() == 1,
    decreases n,
{
    if n >= 10 {
        lemma_no_leading_zero(n / 10);
        assert(decimal(n)[0] == decimal(n / 10)[0]);
    }
}

} // verus!
