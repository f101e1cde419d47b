//! Decimal text for unsigned integers: parsing with the rules of Rust's
//! unsigned `from_str`, and rendering.
use vstd::prelude::*;

verus! {

/// Why a decimal text did not parse as an unsigned integer.
#[derive(Debug, Clone, Copy, PartialEq, Eq, Structural)]
pub enum IntParseError {
    /// The text was empty.
    Empty,
    /// A character other than an ASCII digit (after an optional leading `+`).
    InvalidDigit,
    /// The value is larger than the target type can hold.
    PosOverflow,
}

pub open spec fn int_error_text(e: IntParseError) -> Seq<char> {
    match e {
        IntParseError::Empty => "cannot parse integer from empty string"@,
        IntParseError::InvalidDigit => "invalid digit found in string"@,
        IntParseError::PosOverflow => "number too large to fit in target type"@,
    }
}

impl IntParseError {
    /// The message for this error, worded as std words it.
    pub fn to_string(&self) -> (r: String)
        ensures
            r@ == int_error_text(*self),
    {
        match self {
            IntParseError::Empty => String::from_str("cannot parse integer from empty string"),
            IntParseError::InvalidDigit => String::from_str("invalid digit found in string"),
            IntParseError::PosOverflow => String::from_str("number too large to fit in target type"),
        }
    }
}

pub open spec fn is_digit(c: char) -> bool {
    '0' <= c && c <= '9'
}

pub open spec fn digit_value(c: char) -> nat {
    (c as u32 - '0' as u32) as nat
}

pub open spec fn digit_char(d: nat) -> char
    recommends
        d < 10,
{
    if d == 0 {
        '0'
    } else if d == 1 {
        '1'
    } else if d == 2 {
        '2'
    } else if d == 3 {
        '3'
    } else if d == 4 {
        '4'
    } else if d == 5 {
        '5'
    } else if d == 6 {
        '6'
    } else if d == 7 {
        '7'
    } else if d == 8 {
        '8'
    } else {
        '9'
    }
}

/// Reads `d` left to right as decimal digits, failing at the first
/// non-digit or at the first prefix whose value exceeds `max`.
pub open spec fn scan_digits(d: Seq<char>, max: nat) -> Result<nat, IntParseError>
    decreases d.len(),
{
    if d.len() == 0 {
        Ok(0)
    } else {
        match scan_digits(d.drop_last(), max) {
            Err(e) => Err(e),
            Ok(v) => if !is_digit(d.last()) {
                Err(IntParseError::InvalidDigit)
            } else if v * 10 + digit_value(d.last()) > max {
                Err(IntParseError::PosOverflow)
            } else {
                Ok(v * 10 + digit_value(d.last()))
            },
        }
    }
}

/// The digits of `s` once an optional leading `+` is removed.
pub open spec fn unsigned_digits(s: Seq<char>) -> Seq<char> {
    if s.len() > 0 && s[0] == '+' {
        s.drop_first()
    } else {
        s
    }
}

/// Parsing of an unsigned integer no larger than `max`: an optional `+`
/// followed by one or more ASCII digits, nothing else.
pub open spec fn parse_unsigned(s: Seq<char>, max: nat) -> Result<nat, IntParseError> {
    if s.len() == 0 {
        Err(IntParseError::Empty)
    } else if unsigned_digits(s).len() == 0 {
        Err(IntParseError::InvalidDigit)
    } else {
        scan_digits(unsigned_digits(s), max)
    }
}

/// The shortest decimal text of `n`.
pub open spec fn decimal_text(n: nat) -> Seq<char>
    decreases n,
{
    if n < 10 {
        seq![digit_char(n)]
    } else {
        decimal_text(n / 10).push(digit_char(n % 10))
    }
}

/// The two results agree, the integer one read as a `nat`.
pub open spec fn same_result<T: Integer>(r: Result<T, IntParseError>, s: Result<nat, IntParseError>) -> bool {
    match r {
        Ok(v) => s == Ok::<nat, IntParseError>(v as nat),
        Err(e) => s == Err::<nat, IntParseError>(e),
    }
}

pub proof fn lemma_digit_char(d: nat)
    requires
        d < 10,
    ensures
        is_digit(digit_char(d)),
        digit_value(digit_char(d)) == d,
        digit_char(d) != '+',
        digit_char(d) != '.',
        digit_char(d) != ':',
{
}

fn parse_digits(s: &str, max: u32) -> (r: Result<u32, IntParseError>)
    requires
        max <= 0xffff,
    ensures
        same_result(r, parse_unsigned(s@, max as nat)),
{
    let n = s.unicode_len();
    if n == 0 {
        return Err(IntParseError::Empty);
    }
    let start: usize = if s.get_char(0) == '+' { 1 } else { 0 };
    if start == n {
        return Err(IntParseError::InvalidDigit);
    }
    let ghost d = unsigned_digits(s@);
    assert(d =~= s@.subrange(start as int, n as int));
    assert(parse_unsigned(s@, max as nat) == scan_digits(d, max as nat));
    let mut v: u32 = 0;
    let mut i: usize = start;
    while i < n
        invariant
            start <= i <= n,
            n == s@.len(),
            d =~= s@.subrange(start as int, n as int),
            parse_unsigned(s@, max as nat) == scan_digits(d, max as nat),
            max <= 0xffff,
            v <= max,
            scan_digits(d.take(i - start), max as nat) == Ok::<nat, IntParseError>(v as nat),
        decreases n - i,
    {
        let c = s.get_char(i);
        let ghost p = d.take(i + 1 - start);
        assert(p.drop_last() =~= d.take(i - start));
        assert(p.last() == c);
        if c < '0' || c > '9' {
            assert(scan_digits(p, max as nat) == Err::<nat, IntParseError>(IntParseError::InvalidDigit));
            proof {
                lemma_scan_err_extends(d, (i + 1 - start) as int, max as nat);
                assert(d.take(d.len() as int) =~= d);
                assert(scan_digits(d.take(d.len() as int), max as nat) == scan_digits(p, max as nat));
            }
            return Err(IntParseError::InvalidDigit);
        }
        let x = (c as u32) - ('0' as u32);
        let w = v * 10 + x;
        if w > max {
            assert(scan_digits(p, max as nat) == Err::<nat, IntParseError>(IntParseError::PosOverflow));
            proof {
                lemma_scan_err_extends(d, (i + 1 - start) as int, max as nat);
                assert(d.take(d.len() as int) =~= d);
                assert(scan_digits(d.take(d.len() as int), max as nat) == scan_digits(p, max as nat));
            }
            return Err(IntParseError::PosOverflow);
        }
        v = w;
        i = i + 1;
    }
    assert(d.take(d.len() as int) =~= d);
    Ok(v)
}

/// Once a prefix fails, every longer prefix fails the same way.
proof fn lemma_scan_err_extends(d: Seq<char>, k: int, max: nat)
    requires
        0 <= k <= d.len(),
        scan_digits(d.take(k), max).is_err(),
    ensures
        forall|j: int| k <= j <= d.len() ==> #[trigger] scan_digits(d.take(j), max) == scan_digits(d.take(k), max),
    decreases d.len() - k,
{
    if k < d.len() {
        assert(d.take(k + 1).drop_last() =~= d.take(k));
        lemma_scan_err_extends(d, k + 1, max);
    }
}

/// Parses `s` as a `u8`, as `str::parse::<u8>` does.
pub fn parse_u8(s: &str) -> (r: Result<u8, IntParseError>)
    ensures
        same_result(r, parse_unsigned(s@, 0xff)),
{
    match parse_digits(s, 0xff) {
        Ok(v) => Ok(v as u8),
        Err(e) => Err(e),
    }
}

/// Parses `s` as a `u16`, as `str::parse::<u16>` does.
pub fn parse_u16(s: &str) -> (r: Result<u16, IntParseError>)
    ensures
        same_result(r, parse_unsigned(s@, 0xffff)),
{
    match parse_digits(s, 0xffff) {
        Ok(v) => Ok(v as u16),
        Err(e) => Err(e),
    }
}

/// The one-character text of the digit `d`.
fn digit_str(d: u64) -> (r: &'static str)
    requires
        d < 10,
    ensures
        r@ == seq![digit_char(d as nat)],
{
    let digits = "0123456789";
    proof {
        reveal_strlit("0123456789");
    }
    let r = digits.substring_char(d as usize, d as usize + 1);
    assert(r@ =~= seq![digit_char(d as nat)]);
    r
}

/// Appends the decimal text of `n` to `out`.
pub fn push_decimal(out: &mut String, n: u64)
    ensures
        final(out)@ == old(out)@ + decimal_text(n as nat),
    decreases n,
{
    if n >= 10 {
        push_decimal(out, n / 10);
    }
    out.append(digit_str(n % 10));
    assert(final(out)@ =~= old(out)@ + decimal_text(n as nat));
}

/// Parsing the decimal text of `n` gives `n` back, when `n` fits.
pub proof fn lemma_scan_decimal_text(n: nat, max: nat)
    requires
        n <= max,
    ensures
        scan_digits(decimal_text(n), max) == Ok::<nat, IntParseError>(n),
        decimal_text(n).len() > 0,
        decimal_text(n)[0] != '+',
        forall|i: int| 0 <= i < decimal_text(n).len() ==> is_digit(#[trigger] decimal_text(n)[i]),
    decreases n,
{
    lemma_digit_char(n % 10);
    if n < 10 {
        let t = decimal_text(n);
        assert(t.drop_last() =~= Seq::<char>::empty());
        assert(scan_digits(t.drop_last(), max) == Ok::<nat, IntParseError>(0));
    } else {
        lemma_scan_decimal_text(n / 10, max);
        let t = decimal_text(n);
        assert(t.drop_last() =~= decimal_text(n / 10));
    }
}

} // verus!
