use vstd::prelude::*;
use vstd::string::*;

verus! {

/// The decimal digit for `d` (0 to 9).
pub open spec fn digit_char(d: u64) -> char {
    if d == 0 {
        '0'
    } else if d == 1 {
        '1'
    } else if d == 2 {
        '2'
    } else if d == 3 {
        '3'
    } else if d == 4 {
        '4'
    } else if d == 5 {
        '5'
    } else if d == 6 {
        '6'
    } else if d == 7 {
        '7'
    } else if d == 8 {
        '8'
    } else {
        '9'
    }
}

/// The text of `n` in decimal, as `u64`'s `Display` writes it: its digits, most
/// significant first, with no leading zeros.
pub open spec fn decimal_text(n: u64) -> Seq<char>
    decreases n,
{
    if n < 10 {
        seq![digit_char(n)]
    } else {
        decimal_text(n / 10).push(digit_char(n % 10))
    }
}

/// The one-character text of the digit `d`.
fn digit_str(d: u64) -> (s: &'static str)
    requires
        d < 10,
    ensures
        s@ == seq![digit_char(d)],
{
    proof {
        reveal_strlit("0");
        reveal_strlit("1");
        reveal_strlit("2");
        reveal_strlit("3");
        reveal_strlit("4");
        reveal_strlit("5");
        reveal_strlit("6");
        reveal_strlit("7");
        reveal_strlit("8");
        reveal_strlit("9");
    }
    if d == 0 {
        "0"
    } else if d == 1 {
        "1"
    } else if d == 2 {
        "2"
    } else if d == 3 {
        "3"
    } else if d == 4 {
        "4"
    } else if d == 5 {
        "5"
    } else if d == 6 {
        "6"
    } else if d == 7 {
        "7"
    } else if d == 8 {
        "8"
    } else {
        "9"
    }
}

/// The text of `n` in decimal.
pub fn u64_text(n: u64) -> (s: String)
    ensures
        s@ == decimal_text(n),
    decreases n,
{
    if n < 10 {
        text(digit_str(n))
    } else {
        join(u64_text(n / 10), digit_str(n % 10))
    }
}

/// `a` followed by `b`.
pub fn join(a: String, b: &str) -> (s: String)
    ensures
        s@ == a@ + b@,
{
    let mut s = a;
    s.append(b);
    s
}

/// A string whose text is `a`.
pub fn text(a: &str) -> (s: String)
    ensures
        s@ == a@,
{
    String::from_str(a)
}

/// Whether two strings hold the same characters.
pub fn str_eq(a: &str, b: &str) -> (r: bool)
    ensures
        r == (a@ == b@),
{
    let n = a.unicode_len();
    if n != b.unicode_len() {
        return false;
    }
    let mut i: usize = 0;
    while i < n
        invariant
            0 <= i <= n,
            n == a@.len(),
            n == b@.len(),
            forall|j: int| 0 <= j < i ==> a@[j] == b@[j],
        decreases n - i,
    {
        if a.get_char(i) != b.get_char(i) {
            return false;
        }
        i = i + 1;
    }
    assert(a@ =~= b@);
    true
}

/// The dotted-decimal text of an IPv4 address, as `Ipv4Addr`'s `Display` writes it.
pub open spec fn ipv4_text(v: u32) -> Seq<char> {
    decimal_text((v / 0x100_0000) as u64) + "."@ + decimal_text(((v / 0x1_0000) % 0x100) as u64)
        + "."@ + decimal_text(((v / 0x100) % 0x100) as u64) + "."@ + decimal_text(
        (v % 0x100) as u64,
    )
}

/// The dotted-decimal text of an IPv4 address.
pub fn ipv4_to_text(v: u32) -> (s: String)
    ensures
        s@ == ipv4_text(v),
{
    let s = u64_text((v / 0x100_0000) as u64);
    let s = join(s, ".");
    let s = join(s, u64_text(((v / 0x1_0000) % 0x100) as u64).as_str());
    let s = join(s, ".");
    let s = join(s, u64_text(((v / 0x100) % 0x100) as u64).as_str());
    let s = join(s, ".");
    join(s, u64_text((v % 0x100) as u64).as_str())
}

/// Whether `c` is an ASCII decimal digit.
pub open spec fn is_digit(c: char) -> bool {
    '0' <= c && c <= '9'
}

/// The number that a string of decimal digits spells.
pub open spec fn digits_value(s: Seq<char>) -> nat
    decreases s.len(),
{
    if s.len() == 0 {
        0
    } else {
        digits_value(s.drop_last()) * 10 + ((s.last() as int) - ('0' as int)) as nat
    }
}

/// The value of a decimal unsigned integer: an optional `+` and then one or more
/// digits, nothing else; `None` for any other text.
pub open spec fn unsigned_value(s: Seq<char>) -> Option<nat> {
    let d = if s.len() > 0 && s[0] == '+' {
        s.drop_first()
    } else {
        s
    };
    if d.len() > 0 && (forall|i: int| 0 <= i < d.len() ==> is_digit(#[trigger] d[i])) {
        Some(digits_value(d))
    } else {
        None
    }
}

/// Whether `s` is a decimal unsigned integer no greater than `max`.
pub open spec fn parses_within(s: Seq<char>, max: nat) -> bool {
    unsigned_value(s) matches Some(n) && n <= max
}

/// The text of the error that `u8::from_str` gives for `s`.
pub uninterp spec fn u8_parse_error_text(s: Seq<char>) -> Seq<char>;

/// The text of the error that `u32::from_str` gives for `s`.
pub uninterp spec fn u32_parse_error_text(s: Seq<char>) -> Seq<char>;

/// The text of the error that `u64::from_str` gives for `s`.
pub uninterp spec fn u64_parse_error_text(s: Seq<char>) -> Seq<char>;

/// Calls `u8::from_str`, which accepts an optional `+` followed by decimal digits
/// whose value fits in a `u8`, and nothing else; an error is given as its text.
#[verifier::external_body]
pub(crate) fn parse_u8(s: &str) -> (r: Result<u8, String>)
    ensures
        r is Ok <==> parses_within(s@, u8::MAX as nat),
        r matches Ok(v) ==> unsigned_value(s@) == Some(v as nat),
        r matches Err(e) ==> e@ == u8_parse_error_text(s@),
{
    match s.parse::<u8>() {
        Ok(v) => Ok(v),
        Err(e) => Err(e.to_string()),
    }
}

/// Calls `u32::from_str`, which accepts an optional `+` followed by decimal digits
/// whose value fits in a `u32`, and nothing else; an error is given as its text.
#[verifier::external_body]
pub(crate) fn parse_u32(s: &str) -> (r: Result<u32, String>)
    ensures
        r is Ok <==> parses_within(s@, u32::MAX as nat),
        r matches Ok(v) ==> unsigned_value(s@) == Some(v as nat),
        r matches Err(e) ==> e@ == u32_parse_error_text(s@),
{
    match s.parse::<u32>() {
        Ok(v) => Ok(v),
        Err(e) => Err(e.to_string()),
    }
}

/// Calls `u64::from_str`, which accepts an optional `+` followed by decimal digits
/// whose value fits in a `u64`, and nothing else; an error is given as its text.
#[verifier::external_body]
pub(crate) fn parse_u64(s: &str) -> (r: Result<u64, String>)
    ensures
        r is Ok <==> parses_within(s@, u64::MAX as nat),
        r matches Ok(v) ==> unsigned_value(s@) == Some(v as nat),
        r matches Err(e) ==> e@ == u64_parse_error_text(s@),
{
    match s.parse::<u64>() {
        Ok(v) => Ok(v),
        Err(e) => Err(e.to_string()),
    }
}

} // verus!
