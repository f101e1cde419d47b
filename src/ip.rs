//! Network addresses: a dotted-quad IPv4 address or an IPv6 literal kept as text.
use vstd::prelude::*;
use crate::decimal::{
    IntParseError, int_error_text, decimal_text, lemma_scan_decimal_text, parse_u8, parse_unsigned, push_decimal,
    same_result, unsigned_digits,
};

verus! {

/// A parsed network address.
#[derive(Debug)]
pub enum IpAddr {
    V4(u8, u8, u8, u8),
    /// Any text holding a `:`, kept as given.
    V6(String),
}

/// What an `IpAddr` holds, as plain values.
pub enum IpModel {
    V4(u8, u8, u8, u8),
    V6(Seq<char>),
}

impl View for IpAddr {
    type V = IpModel;

    open spec fn view(&self) -> IpModel {
        match self {
            IpAddr::V4(a, b, c, d) => IpModel::V4(*a, *b, *c, *d),
            IpAddr::V6(s) => IpModel::V6(s@),
        }
    }
}

/// Why a text is not a network address.
#[derive(Debug, Clone, Copy, PartialEq, Eq, Structural)]
pub enum IpParseError {
    /// Neither four dot-separated parts nor a text holding `:`.
    InvalidFormat,
    /// Four dot-separated parts, one of which is not a `u8`.
    ParseError(IntParseError),
}

pub open spec fn ip_error_text(e: IpParseError) -> Seq<char> {
    match e {
        IpParseError::InvalidFormat => "Invalid IP address format"@,
        IpParseError::ParseError(e) => "Failed to parse IP component: "@ + int_error_text(e),
    }
}

impl IpParseError {
    /// A message for this error.
    pub fn to_string(&self) -> (r: String)
        ensures
            r@ == ip_error_text(*self),
    {
        match self {
            IpParseError::InvalidFormat => String::from_str("Invalid IP address format"),
            IpParseError::ParseError(e) => {
                let out = String::from_str("Failed to parse IP component: ");
                out.concat(e.to_string().as_str())
            },
        }
    }
}

/// `s` cut at every `sep`: one more part than there are separators.
pub open spec fn split_on(s: Seq<char>, sep: char) -> Seq<Seq<char>>
    decreases s.len(),
{
    if s.len() == 0 {
        seq![Seq::<char>::empty()]
    } else {
        let init = split_on(s.drop_last(), sep);
        if s.last() == sep {
            init.push(Seq::<char>::empty())
        } else {
            init.update(init.len() - 1, init.last().push(s.last()))
        }
    }
}

pub open spec fn octet(part: Seq<char>) -> Result<nat, IntParseError> {
    parse_unsigned(part, 0xff)
}

/// The address that `s` denotes: four dot-separated `u8` parts give V4
/// (the first part that fails gives its error); otherwise a text with a
/// `:` is taken as V6; anything else is malformed.
pub open spec fn parse_ip(s: Seq<char>) -> Result<IpModel, IpParseError> {
    let parts = split_on(s, '.');
    if parts.len() == 4 {
        match (octet(parts[0]), octet(parts[1]), octet(parts[2]), octet(parts[3])) {
            (Err(e), _, _, _) => Err(IpParseError::ParseError(e)),
            (Ok(_), Err(e), _, _) => Err(IpParseError::ParseError(e)),
            (Ok(_), Ok(_), Err(e), _) => Err(IpParseError::ParseError(e)),
            (Ok(_), Ok(_), Ok(_), Err(e)) => Err(IpParseError::ParseError(e)),
            (Ok(a), Ok(b), Ok(c), Ok(d)) => Ok(IpModel::V4(a as u8, b as u8, c as u8, d as u8)),
        }
    } else if s.contains(':') {
        Ok(IpModel::V6(s))
    } else {
        Err(IpParseError::InvalidFormat)
    }
}

/// Four octets in dotted decimal.
pub open spec fn dotted_text(a: u8, b: u8, c: u8, d: u8) -> Seq<char> {
    decimal_text(a as nat) + seq!['.'] + decimal_text(b as nat) + seq!['.'] + decimal_text(
        c as nat,
    ) + seq!['.'] + decimal_text(d as nat)
}

/// The text form of an address: V4 in dotted decimal, V6 as kept.
pub open spec fn ip_text(m: IpModel) -> Seq<char> {
    match m {
        IpModel::V4(a, b, c, d) => dotted_text(a, b, c, d),
        IpModel::V6(s) => s,
    }
}

/// Start of the part that follows the `k`-th separator.
spec fn part_start(dots: Seq<usize>, k: int) -> int {
    if k == 0 {
        0
    } else {
        dots[k - 1] + 1
    }
}

/// The parts of `s.take(i)`, given the positions of its separators.
spec fn parts_at(s: Seq<char>, i: int, dots: Seq<usize>) -> bool {
    let parts = split_on(s.take(i), '.');
    &&& parts.len() == dots.len() + 1
    &&& forall|k: int| 0 <= k < dots.len() ==> part_start(dots, k) <= #[trigger] dots[k] < i
    &&& forall|k: int|
        0 <= k < dots.len() ==> #[trigger] parts[k] == s.subrange(part_start(dots, k), dots[k] as int)
    &&& part_start(dots, dots.len() as int) <= i
    &&& parts[dots.len() as int] == s.subrange(part_start(dots, dots.len() as int), i)
}

fn octet_at(s: &str, from: usize, to: usize) -> (r: Result<u8, IntParseError>)
    requires
        from <= to <= s@.len(),
    ensures
        same_result(r, octet(s@.subrange(from as int, to as int))),
{
    parse_u8(s.substring_char(from, to))
}

impl IpAddr {
    /// Parses a dotted-quad IPv4 address, or takes any text holding `:` as
    /// an IPv6 literal.
    pub fn from_string(input: String) -> (r: Result<IpAddr, IpParseError>)
        ensures
            match r {
                Ok(a) => parse_ip(input@) == Ok::<IpModel, IpParseError>(a@),
                Err(e) => parse_ip(input@) == Err::<IpModel, IpParseError>(e),
            },
    {
        let s = input.as_str();
        let n = s.unicode_len();
        let mut dots: Vec<usize> = Vec::new();
        let mut has_colon = false;
        let mut i: usize = 0;
        assert(s@.take(0) =~= Seq::<char>::empty());
        while i < n
            invariant
                n == s@.len(),
                s@ == input@,
                i <= n,
                parts_at(s@, i as int, dots@),
                has_colon == exists|j: int| 0 <= j < i && s@[j] == ':',
            decreases n - i,
        {
            let c = s.get_char(i);
            let ghost old_dots = dots@;
            let ghost t = s@.take(i + 1);
            assert(t.drop_last() =~= s@.take(i as int));
            assert(t.last() == c);
            let ghost prev = split_on(s@.take(i as int), '.');
            if c == '.' {
                dots.push(i);
                assert(part_start(dots@, dots@.len() as int) == i + 1);
                assert(s@.subrange(i + 1, i + 1) =~= Seq::<char>::empty());
                assert forall|k: int| 0 <= k < old_dots.len() implies part_start(dots@, k) == part_start(old_dots, k) by {}
            } else {
                let ghost st = part_start(dots@, dots@.len() as int);
                assert(s@.subrange(st, i as int).push(c) =~= s@.subrange(st, i + 1));
            }
            if c == ':' {
                has_colon = true;
            }
            i = i + 1;
        }
        assert(s@.take(n as int) =~= s@);
        assert(has_colon == s@.contains(':'));
        if dots.len() == 3 {
            let a = match octet_at(s, 0, dots[0]) {
                Ok(v) => v,
                Err(e) => return Err(IpParseError::ParseError(e)),
            };
            let b = match octet_at(s, dots[0] + 1, dots[1]) {
                Ok(v) => v,
                Err(e) => return Err(IpParseError::ParseError(e)),
            };
            let c = match octet_at(s, dots[1] + 1, dots[2]) {
                Ok(v) => v,
                Err(e) => return Err(IpParseError::ParseError(e)),
            };
            let d = match octet_at(s, dots[2] + 1, n) {
                Ok(v) => v,
                Err(e) => return Err(IpParseError::ParseError(e)),
            };
            return Ok(IpAddr::V4(a, b, c, d));
        }
        if has_colon {
            return Ok(IpAddr::V6(input));
        }
        Err(IpParseError::InvalidFormat)
    }
}

impl IpAddr {
    /// The address as text: dotted decimal for V4, the kept literal for V6.
    pub fn to_string(&self) -> (r: String)
        ensures
            r@ == ip_text(self@),
    {
        match self {
            IpAddr::V4(a, b, c, d) => {
                let mut out = String::new();
                push_decimal(&mut out, *a as u64);
                out.append(".");
                push_decimal(&mut out, *b as u64);
                out.append(".");
                push_decimal(&mut out, *c as u64);
                out.append(".");
                push_decimal(&mut out, *d as u64);
                proof {
                    reveal_strlit(".");
                }
                assert(out@ =~= ip_text(self@));
                out
            },
            IpAddr::V6(text) => text.clone(),
        }
    }
}

/// Appending text without separators extends the last part.
proof fn lemma_split_append_plain(p: Seq<char>, q: Seq<char>, sep: char)
    requires
        !q.contains(sep),
    ensures
        split_on(p + q, sep) == split_on(p, sep).update(
            split_on(p, sep).len() - 1,
            split_on(p, sep).last() + q,
        ),
        split_on(p + q, sep).len() == split_on(p, sep).len(),
    decreases q.len(),
{
    let sp = split_on(p, sep);
    lemma_split_nonempty(p, sep);
    if q.len() == 0 {
        assert(p + q =~= p);
        assert(sp.last() + q =~= sp.last());
        assert(sp.update(sp.len() - 1, sp.last()) =~= sp);
    } else {
        let q1 = q.drop_last();
        assert(!q1.contains(sep)) by {
            if q1.contains(sep) {
                let j = choose|j: int| 0 <= j < q1.len() && q1[j] == sep;
                assert(q[j] == sep);
            }
        }
        assert(q.last() != sep) by {
            assert(q[q.len() - 1] == q.last());
        }
        lemma_split_append_plain(p, q1, sep);
        assert((p + q).drop_last() =~= p + q1);
        assert((p + q).last() == q.last());
        assert((sp.last() + q1).push(q.last()) =~= sp.last() + q);
        assert(split_on(p + q, sep) =~= sp.update(sp.len() - 1, sp.last() + q));
    }
}

proof fn lemma_split_nonempty(s: Seq<char>, sep: char)
    ensures
        split_on(s, sep).len() >= 1,
    decreases s.len(),
{
    if s.len() > 0 {
        lemma_split_nonempty(s.drop_last(), sep);
    }
}

/// Appending a separator starts a new, empty part.
proof fn lemma_split_append_sep(p: Seq<char>, sep: char)
    ensures
        split_on(p.push(sep), sep) == split_on(p, sep).push(Seq::<char>::empty()),
{
    assert(p.push(sep).drop_last() =~= p);
}

/// The decimal text of an octet parses back to it and holds no `.` or `:`.
proof fn lemma_octet_text(n: u8)
    ensures
        octet(decimal_text(n as nat)) == Ok::<nat, IntParseError>(n as nat),
        !decimal_text(n as nat).contains('.'),
        !decimal_text(n as nat).contains(':'),
{
    let t = decimal_text(n as nat);
    lemma_scan_decimal_text(n as nat, 0xff);
    assert(unsigned_digits(t) == t);
    if t.contains('.') {
        let j = choose|j: int| 0 <= j < t.len() && t[j] == '.';
        assert(crate::decimal::is_digit(t[j]));
    }
    if t.contains(':') {
        let j = choose|j: int| 0 <= j < t.len() && t[j] == ':';
        assert(crate::decimal::is_digit(t[j]));
    }
}

/// Every dotted quad parses to its four octets, and its text form is the
/// dotted quad again.
pub proof fn lemma_dotted_quad_round_trip(a: u8, b: u8, c: u8, d: u8)
    ensures
        parse_ip(dotted_text(a, b, c, d)) == Ok::<IpModel, IpParseError>(IpModel::V4(a, b, c, d)),
        ip_text(IpModel::V4(a, b, c, d)) == dotted_text(a, b, c, d),
{
    let ta = decimal_text(a as nat);
    let tb = decimal_text(b as nat);
    let tc = decimal_text(c as nat);
    let td = decimal_text(d as nat);
    lemma_octet_text(a);
    lemma_octet_text(b);
    lemma_octet_text(c);
    lemma_octet_text(d);
    let e = Seq::<char>::empty();
    assert(split_on(e, '.') =~= seq![e]);
    lemma_split_append_plain(e, ta, '.');
    assert(e + ta =~= ta);
    assert(split_on(ta, '.') =~= seq![ta]);
    let s1 = ta + seq!['.'];
    assert(s1 =~= ta.push('.'));
    lemma_split_append_sep(ta, '.');
    let s2 = s1 + tb;
    lemma_split_append_plain(s1, tb, '.');
    assert(split_on(s2, '.') =~= seq![ta, tb]);
    let s3 = s2 + seq!['.'];
    assert(s3 =~= s2.push('.'));
    lemma_split_append_sep(s2, '.');
    let s4 = s3 + tc;
    lemma_split_append_plain(s3, tc, '.');
    assert(split_on(s4, '.') =~= seq![ta, tb, tc]);
    let s5 = s4 + seq!['.'];
    assert(s5 =~= s4.push('.'));
    lemma_split_append_sep(s4, '.');
    let s6 = s5 + td;
    lemma_split_append_plain(s5, td, '.');
    assert(split_on(s6, '.') =~= seq![ta, tb, tc, td]);
    assert(s6 == dotted_text(a, b, c, d));
}

/// Four dot-separated parts, one of which is not a `u8`: parsing fails with
/// that part's error, never with an address.
pub proof fn lemma_bad_octet_fails(s: Seq<char>, k: int)
    requires
        split_on(s, '.').len() == 4,
        0 <= k < 4,
        octet(split_on(s, '.')[k]).is_err(),
    ensures
        parse_ip(s) matches Err(IpParseError::ParseError(_)),
{
}

/// A text with a `:` that is not four dot-separated parts is kept whole
/// as a V6 literal.
pub proof fn lemma_colon_text_is_v6(s: Seq<char>)
    requires
        split_on(s, '.').len() != 4,
        s.contains(':'),
    ensures
        parse_ip(s) == Ok::<IpModel, IpParseError>(IpModel::V6(s)),
{
}

/// A text that is neither four dot-separated parts nor holds a `:` is
/// malformed.
pub proof fn lemma_other_text_is_invalid(s: Seq<char>)
    requires
        split_on(s, '.').len() != 4,
        !s.contains(':'),
    ensures
        parse_ip(s) == Err::<IpModel, IpParseError>(IpParseError::InvalidFormat),
{
}

} // verus!
