use vstd::prelude::*;

verus! {

/// Why a decimal integer could not be read, as `core::num::IntErrorKind` tells it.
#[derive(Debug, Clone, Copy, PartialEq, Eq, Structural)]
pub enum IntFault {
    Empty,
    InvalidDigit,
    PosOverflow,
    NegOverflow,
}

/// The message that `ParseIntError` shows for each kind of failure.
pub open spec fn int_fault_text(f: IntFault) -> Seq<char> {
    match f {
        IntFault::Empty => "cannot parse integer from empty string"@,
        IntFault::InvalidDigit => "invalid digit found in string"@,
        IntFault::PosOverflow => "number too large to fit in target type"@,
        IntFault::NegOverflow => "number too small to fit in target type"@,
    }
}

/// The message that `ParseIntError` shows for a kind of failure.
pub fn int_fault_message(f: IntFault) -> (r: String)
    ensures
        r@ == int_fault_text(f),
{
    match f {
        IntFault::Empty => "cannot parse integer from empty string".to_owned(),
        IntFault::InvalidDigit => "invalid digit found in string".to_owned(),
        IntFault::PosOverflow => "number too large to fit in target type".to_owned(),
        IntFault::NegOverflow => "number too small to fit in target type".to_owned(),
    }
}

pub open spec fn is_digit(c: char) -> bool {
    48 <= (c as u32) <= 57
}

pub open spec fn digit_value(c: char) -> int {
    (c as u32) - 48
}

/// Reads decimal digits from left to right onto `acc`, failing at the first
/// character that is not a digit or at the first digit that takes the value past
/// `max`.
pub open spec fn scan_up(d: Seq<char>, acc: int, max: int) -> Result<int, IntFault>
    decreases d.len(),
{
    if d.len() == 0 {
        Ok(acc)
    } else if !is_digit(d[0]) {
        Err(IntFault::InvalidDigit)
    } else if acc * 10 + digit_value(d[0]) > max {
        Err(IntFault::PosOverflow)
    } else {
        scan_up(d.drop_first(), acc * 10 + digit_value(d[0]), max)
    }
}

/// As `scan_up` for a negative number: each digit is subtracted, and the value may
/// not go below `min`.
pub open spec fn scan_down(d: Seq<char>, acc: int, min: int) -> Result<int, IntFault>
    decreases d.len(),
{
    if d.len() == 0 {
        Ok(acc)
    } else if !is_digit(d[0]) {
        Err(IntFault::InvalidDigit)
    } else if acc * 10 - digit_value(d[0]) < min {
        Err(IntFault::NegOverflow)
    } else {
        scan_down(d.drop_first(), acc * 10 - digit_value(d[0]), min)
    }
}

/// What `str::parse::<u64>` gives: an optional `+`, then decimal digits.
pub open spec fn parse_u64_text(s: Seq<char>) -> Result<u64, IntFault> {
    if s.len() == 0 {
        Err(IntFault::Empty)
    } else if (s[0] == '+' || s[0] == '-') && s.len() == 1 {
        Err(IntFault::InvalidDigit)
    } else {
        let digits = if s[0] == '+' {
            s.drop_first()
        } else {
            s
        };
        match scan_up(digits, 0, u64::MAX as int) {
            Ok(v) => Ok(v as u64),
            Err(f) => Err(f),
        }
    }
}

/// What `str::parse::<i64>` gives: an optional `+` or `-`, then decimal digits.
pub open spec fn parse_i64_text(s: Seq<char>) -> Result<i64, IntFault> {
    if s.len() == 0 {
        Err(IntFault::Empty)
    } else if (s[0] == '+' || s[0] == '-') && s.len() == 1 {
        Err(IntFault::InvalidDigit)
    } else if s[0] == '-' {
        match scan_down(s.drop_first(), 0, i64::MIN as int) {
            Ok(v) => Ok(v as i64),
            Err(f) => Err(f),
        }
    } else {
        let digits = if s[0] == '+' {
            s.drop_first()
        } else {
            s
        };
        match scan_up(digits, 0, i64::MAX as int) {
            Ok(v) => Ok(v as i64),
            Err(f) => Err(f),
        }
    }
}

proof fn lemma_scan_up_bounds(d: Seq<char>, acc: int, max: int)
    requires
        0 <= acc <= max,
    ensures
        scan_up(d, acc, max) matches Ok(v) ==> 0 <= v <= max,
    decreases d.len(),
{
    if d.len() > 0 && is_digit(d[0]) && acc * 10 + digit_value(d[0]) <= max {
        lemma_scan_up_bounds(d.drop_first(), acc * 10 + digit_value(d[0]), max);
    }
}

proof fn lemma_scan_down_bounds(d: Seq<char>, acc: int, min: int)
    requires
        min <= acc <= 0,
    ensures
        scan_down(d, acc, min) matches Ok(v) ==> min <= v <= 0,
    decreases d.len(),
{
    if d.len() > 0 && is_digit(d[0]) && acc * 10 - digit_value(d[0]) >= min {
        lemma_scan_down_bounds(d.drop_first(), acc * 10 - digit_value(d[0]), min);
    }
}

/// Reads the decimal digits of `s` from position `start` (see `scan_up`).
fn scan_up_exec(s: &[char], start: usize, max: u64) -> (r: Result<u64, IntFault>)
    requires
        start <= s@.len(),
    ensures
        match scan_up(s@.skip(start as int), 0, max as int) {
            Ok(v) => r == Ok::<u64, IntFault>(v as u64),
            Err(f) => r == Err::<u64, IntFault>(f),
        },
{
    let n = s.len();
    let mut acc: u64 = 0;
    let mut i: usize = start;
    while i < n
        invariant
            n == s@.len(),
            start <= i <= n,
            acc <= max,
            scan_up(s@.skip(start as int), 0, max as int) == scan_up(
                s@.skip(i as int),
                acc as int,
                max as int,
            ),
        decreases n - i,
    {
        let ghost rest = s@.skip(i as int);
        assert(rest[0] == s@[i as int]);
        assert(rest.drop_first() == s@.skip(i + 1));
        let u = s[i] as u32;
        if u < 48 || u > 57 {
            return Err(IntFault::InvalidDigit);
        }
        let next: u128 = (acc as u128) * 10 + ((u - 48) as u128);
        if next > max as u128 {
            return Err(IntFault::PosOverflow);
        }
        acc = next as u64;
        i = i + 1;
    }
    assert(s@.skip(i as int).len() == 0);
    proof {
        lemma_scan_up_bounds(s@.skip(start as int), 0, max as int);
    }
    Ok(acc)
}

/// Reads the decimal digits of `s` from position `start` as a negative number
/// (see `scan_down`).
fn scan_down_exec(s: &[char], start: usize) -> (r: Result<i64, IntFault>)
    requires
        start <= s@.len(),
    ensures
        match scan_down(s@.skip(start as int), 0, i64::MIN as int) {
            Ok(v) => r == Ok::<i64, IntFault>(v as i64),
            Err(f) => r == Err::<i64, IntFault>(f),
        },
{
    let n = s.len();
    let mut acc: i64 = 0;
    let mut i: usize = start;
    while i < n
        invariant
            n == s@.len(),
            start <= i <= n,
            i64::MIN <= acc <= 0,
            scan_down(s@.skip(start as int), 0, i64::MIN as int) == scan_down(
                s@.skip(i as int),
                acc as int,
                i64::MIN as int,
            ),
        decreases n - i,
    {
        let ghost rest = s@.skip(i as int);
        assert(rest[0] == s@[i as int]);
        assert(rest.drop_first() == s@.skip(i + 1));
        let u = s[i] as u32;
        if u < 48 || u > 57 {
            return Err(IntFault::InvalidDigit);
        }
        let next: i128 = (acc as i128) * 10 - ((u - 48) as i128);
        if next < i64::MIN as i128 {
            return Err(IntFault::NegOverflow);
        }
        acc = next as i64;
        i = i + 1;
    }
    assert(s@.skip(i as int).len() == 0);
    proof {
        lemma_scan_down_bounds(s@.skip(start as int), 0, i64::MIN as int);
    }
    Ok(acc)
}

/// Reads an unsigned decimal number as `str::parse::<u64>` does.
pub fn parse_u64(s: &[char]) -> (r: Result<u64, IntFault>)
    ensures
        r == parse_u64_text(s@),
{
    if s.len() == 0 {
        return Err(IntFault::Empty);
    }
    if (s[0] == '+' || s[0] == '-') && s.len() == 1 {
        return Err(IntFault::InvalidDigit);
    }
    let start: usize = if s[0] == '+' {
        1
    } else {
        0
    };
    assert(s@.skip(0) == s@);
    assert(s@.skip(1) == s@.drop_first());
    proof {
        lemma_scan_up_bounds(s@.skip(start as int), 0, u64::MAX as int);
    }
    scan_up_exec(s, start, u64::MAX)
}

/// Reads a signed decimal number as `str::parse::<i64>` does.
pub fn parse_i64(s: &[char]) -> (r: Result<i64, IntFault>)
    ensures
        r == parse_i64_text(s@),
{
    if s.len() == 0 {
        return Err(IntFault::Empty);
    }
    if (s[0] == '+' || s[0] == '-') && s.len() == 1 {
        return Err(IntFault::InvalidDigit);
    }
    assert(s@.skip(0) == s@);
    assert(s@.skip(1) == s@.drop_first());
    if s[0] == '-' {
        proof {
            lemma_scan_down_bounds(s@.skip(1), 0, i64::MIN as int);
        }
        return scan_down_exec(s, 1);
    }
    let start: usize = if s[0] == '+' {
        1
    } else {
        0
    };
    proof {
        lemma_scan_up_bounds(s@.skip(start as int), 0, i64::MAX as int);
    }
    match scan_up_exec(s, start, i64::MAX as u64) {
        Ok(v) => Ok(v as i64),
        Err(f) => Err(f),
    }
}

/// The character of a decimal digit.
pub open spec fn digit_char(d: int) -> char {
    (d + 48) as char
}

proof fn lemma_digit_char(d: int)
    requires
        0 <= d < 10,
    ensures
        is_digit(digit_char(d)),
        digit_value(digit_char(d)) == d,
{
    assert((d + 48) as char as u32 == d + 48);
}

/// The decimal representation of a natural number, with no leading zeros.
pub open spec fn decimal(n: nat) -> Seq<char>
    decreases n,
{
    if n < 10 {
        seq![digit_char(n as int)]
    } else {
        decimal(n / 10).push(digit_char((n % 10) as int))
    }
}

/// The decimal representation of an integer, with a `-` in front of a negative one.
pub open spec fn signed_decimal(v: int) -> Seq<char> {
    if v < 0 {
        seq!['-'] + decimal((-v) as nat)
    } else {
        decimal(v as nat)
    }
}

/// Appends the decimal representation of `n`.
pub fn push_decimal(out: &mut Vec<char>, n: u64)
    ensures
        final(out)@ == old(out)@ + decimal(n as nat),
    decreases n,
{
    if n >= 10 {
        push_decimal(out, n / 10);
    }
    let d = (n % 10) as u8;
    let c = (d + 48) as char;
    out.push(c);
    assert(final(out)@ =~= old(out)@ + decimal(n as nat));
}

/// Appends the decimal representation of `v`, with `-` in front of a negative one.
pub fn push_signed_decimal(out: &mut Vec<char>, v: i64)
    ensures
        final(out)@ == old(out)@ + signed_decimal(v as int),
{
    if v < 0 {
        out.push('-');
        let m: u64 = ((-(v + 1)) as u64) + 1;
        push_decimal(out, m);
        assert(final(out)@ =~= old(out)@ + signed_decimal(v as int));
    } else {
        push_decimal(out, v as u64);
    }
}

proof fn lemma_scan_up_concat(a: Seq<char>, b: Seq<char>, acc: int, max: int)
    requires
        scan_up(a, acc, max) is Ok,
    ensures
        scan_up(a + b, acc, max) == scan_up(b, scan_up(a, acc, max)->Ok_0, max),
    decreases a.len(),
{
    if a.len() > 0 {
        assert((a + b).drop_first() == a.drop_first() + b);
        assert((a + b)[0] == a[0]);
        lemma_scan_up_concat(a.drop_first(), b, acc * 10 + digit_value(a[0]), max);
    } else {
        assert(a + b == b);
    }
}

proof fn lemma_scan_down_concat(a: Seq<char>, b: Seq<char>, acc: int, min: int)
    requires
        scan_down(a, acc, min) is Ok,
    ensures
        scan_down(a + b, acc, min) == scan_down(b, scan_down(a, acc, min)->Ok_0, min),
    decreases a.len(),
{
    if a.len() > 0 {
        assert((a + b).drop_first() == a.drop_first() + b);
        assert((a + b)[0] == a[0]);
        lemma_scan_down_concat(a.drop_first(), b, acc * 10 - digit_value(a[0]), min);
    } else {
        assert(a + b == b);
    }
}

/// The decimal representation starts with a digit.
pub proof fn lemma_decimal_shape(n: nat)
    ensures
        decimal(n).len() > 0,
        is_digit(decimal(n)[0]),
    decreases n,
{
    lemma_digit_char((n % 10) as int);
    if n >= 10 {
        lemma_decimal_shape(n / 10);
    }
}

/// Reading the digits of `n` back gives `n`.
pub proof fn lemma_decimal_scan_up(n: nat, max: int)
    requires
        n <= max,
    ensures
        scan_up(decimal(n), 0, max) == Ok::<int, IntFault>(n as int),
    decreases n,
{
    lemma_digit_char((n % 10) as int);
    if n < 10 {
        assert(decimal(n).drop_first().len() == 0);
        assert(scan_up(decimal(n).drop_first(), n as int, max) == Ok::<int, IntFault>(n as int));
    } else {
        let q = n / 10;
        lemma_decimal_scan_up(q, max);
        let last = seq![digit_char((n % 10) as int)];
        assert(decimal(n) == decimal(q) + last);
        lemma_scan_up_concat(decimal(q), last, 0, max);
        assert(last.drop_first().len() == 0);
        assert(scan_up(last.drop_first(), n as int, max) == Ok::<int, IntFault>(n as int));
        assert(scan_up(last, q as int, max) == Ok::<int, IntFault>(n as int));
    }
}

/// Reading the digits of `n` back as a negative number gives `-n`.
pub proof fn lemma_decimal_scan_down(n: nat, min: int)
    requires
        -n >= min,
    ensures
        scan_down(decimal(n), 0, min) == Ok::<int, IntFault>(-n),
    decreases n,
{
    lemma_digit_char((n % 10) as int);
    if n < 10 {
        assert(decimal(n).drop_first().len() == 0);
        assert(scan_down(decimal(n).drop_first(), -n, min) == Ok::<int, IntFault>(-n));
    } else {
        let q = n / 10;
        lemma_decimal_scan_down(q, min);
        let last = seq![digit_char((n % 10) as int)];
        assert(decimal(n) == decimal(q) + last);
        lemma_scan_down_concat(decimal(q), last, 0, min);
        assert(last.drop_first().len() == 0);
        assert(scan_down(last.drop_first(), -n, min) == Ok::<int, IntFault>(-n));
        assert(scan_down(last, -q, min) == Ok::<int, IntFault>(-n));
    }
}

/// Reading back what was written for a `u64` gives it again.
pub proof fn lemma_u64_text_roundtrip(v: u64)
    ensures
        parse_u64_text(decimal(v as nat)) == Ok::<u64, IntFault>(v),
{
    lemma_decimal_shape(v as nat);
    lemma_decimal_scan_up(v as nat, u64::MAX as int);
}

/// Reading back what was written for an `i64` gives it again.
pub proof fn lemma_i64_text_roundtrip(v: i64)
    ensures
        parse_i64_text(signed_decimal(v as int)) == Ok::<i64, IntFault>(v),
{
    if v < 0 {
        let m = (-v) as nat;
        let s = signed_decimal(v as int);
        lemma_decimal_shape(m);
        lemma_decimal_scan_down(m, i64::MIN as int);
        assert(s.drop_first() == decimal(m));
    } else {
        lemma_decimal_shape(v as nat);
        lemma_decimal_scan_up(v as nat, i64::MAX as int);
    }
}

/// Every character of a decimal representation is a digit.
pub proof fn lemma_decimal_digits(n: nat)
    ensures
        decimal(n).len() > 0,
        forall|i: int| 0 <= i < decimal(n).len() ==> is_digit(#[trigger] decimal(n)[i]),
    decreases n,
{
    lemma_digit_char((n % 10) as int);
    if n >= 10 {
        lemma_decimal_digits(n / 10);
        let d = decimal(n / 10);
        assert forall|i: int| 0 <= i < decimal(n).len() implies is_digit(#[trigger] decimal(n)[i]) by {
            if i < d.len() {
                assert(decimal(n)[i] == d[i]);
            }
        }
    }
}

/// A signed decimal representation is a `-` or digits, then digits; it ends with a
/// digit.
pub proof fn lemma_signed_decimal_chars(v: int)
    ensures
        signed_decimal(v).len() > 0,
        is_digit(signed_decimal(v).last()),
        is_digit(signed_decimal(v)[0]) || signed_decimal(v)[0] == '-',
        forall|i: int| 0 <= i < signed_decimal(v).len() ==> is_digit(#[trigger] signed_decimal(v)[i])
            || signed_decimal(v)[i] == '-',
{
    if v < 0 {
        let m = (-v) as nat;
        lemma_decimal_digits(m);
        let s = signed_decimal(v);
        assert forall|i: int| 0 <= i < s.len() implies is_digit(#[trigger] s[i]) || s[i] == '-' by {
            if i > 0 {
                assert(s[i] == decimal(m)[i - 1]);
            }
        }
        assert(s.last() == decimal(m)[decimal(m).len() - 1]);
    } else {
        lemma_decimal_digits(v as nat);
        assert(signed_decimal(v).last() == decimal(v as nat)[decimal(v as nat).len() - 1]);
    }
}

} // verus!
