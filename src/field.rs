//! Field elements as little-endian byte strings, their decimal rendering,
//! and the version-string format.
use vstd::prelude::*;

verus! {

/// The number that a little-endian byte string encodes.
pub open spec fn le_nat(b: Seq<u8>) -> nat
    decreases b.len(),
{
    if b.len() == 0 {
        0
    } else {
        b[0] as nat + 256 * le_nat(b.drop_first())
    }
}

pub open spec fn digit_char(d: nat) -> char {
    if d == 0 {
        '0'
    } else if d == 1 {
        '1'
    } else if d == 2 {
        '2'
    } else if d == 3 {
        '3'
    } else if d == 4 {
        '4'
    } else if d == 5 {
        '5'
    } else if d == 6 {
        '6'
    } else if d == 7 {
        '7'
    } else if d == 8 {
        '8'
    } else {
        '9'
    }
}

/// The decimal digits of `n`, most significant first, without leading zeros.
pub open spec fn decimal(n: nat) -> Seq<char>
    decreases n,
{
    if n < 10 {
        seq![digit_char(n)]
    } else {
        decimal(n / 10).push(digit_char(n % 10))
    }
}

pub open spec fn is_digit(c: char) -> bool {
    '0' <= c <= '9'
}

pub open spec fn all_digits(s: Seq<char>) -> bool {
    s.len() > 0 && forall|i: int| 0 <= i < s.len() ==> is_digit(#[trigger] s[i])
}

/// `<major>.<minor>.<patch>`, each a non-empty run of ASCII digits.
pub open spec fn is_version(s: Seq<char>) -> bool {
    exists|i: int, j: int|
        0 < i < j < s.len() && #[trigger] s[i] == '.' && #[trigger] s[j] == '.' && all_digits(
            s.subrange(0, i),
        ) && all_digits(s.subrange(i + 1, j)) && all_digits(s.subrange(j + 1, s.len() as int))
}

/// The regular expression of `is_version`.
pub const VERSION_PATTERN: &'static str = r"^[0-9]+\.[0-9]+\.[0-9]+$";

/// Relies on regex::Regex::new and Regex::is_match: the version pattern
/// compiles, and matches exactly the strings that `is_version` describes
/// (`^` and `$` anchor at the ends of the text).
#[verifier::external_body]
fn regex_is_match(pattern: &str, s: &str) -> (r: bool)
    requires
        pattern@ == VERSION_PATTERN@,
    ensures
        r == is_version(s@),
{
    match regex::Regex::new(pattern) {
        Ok(re) => re.is_match(s),
        Err(_) => false,
    }
}

/// Whether `s` has the form `<major>.<minor>.<patch>`.
pub fn is_version_string(s: &str) -> (r: bool)
    ensures
        r == is_version(s@),
{
    regex_is_match(VERSION_PATTERN, s)
}

/// Relies on num_bigint::BigUint::from_bytes_le, which reads little-endian
/// bytes (the empty string reads as zero), and on the integer order of
/// BigUint's `Ord`.
#[verifier::external_body]
fn biguint_compare_le(a: &[u8], b: &[u8]) -> (r: i8)
    ensures
        r == -1 <==> le_nat(a@) < le_nat(b@),
        r == 0 <==> le_nat(a@) == le_nat(b@),
        r == 1 <==> le_nat(a@) > le_nat(b@),
{
    match num_bigint::BigUint::from_bytes_le(a).cmp(&num_bigint::BigUint::from_bytes_le(b)) {
        std::cmp::Ordering::Less => -1,
        std::cmp::Ordering::Equal => 0,
        std::cmp::Ordering::Greater => 1,
    }
}

/// Relies on num_bigint::BigUint::from_bytes_le and BigUint's `Display`,
/// which writes the number in decimal without leading zeros.
#[verifier::external_body]
fn biguint_decimal_le(a: &[u8]) -> (r: String)
    ensures
        r@ == decimal(le_nat(a@)),
{
    num_bigint::BigUint::from_bytes_le(a).to_string()
}

/// Compares the numbers that two little-endian byte strings encode:
/// -1, 0 or 1 as `a` is less than, equal to or greater than `b`.
pub fn compare_values(a: &Vec<u8>, b: &Vec<u8>) -> (r: i8)
    ensures
        r == -1 <==> le_nat(a@) < le_nat(b@),
        r == 0 <==> le_nat(a@) == le_nat(b@),
        r == 1 <==> le_nat(a@) > le_nat(b@),
{
    biguint_compare_le(a.as_slice(), b.as_slice())
}

/// The number that a little-endian byte string encodes, in decimal.
pub fn value_to_decimal(a: &Vec<u8>) -> (r: String)
    ensures
        r@ == decimal(le_nat(a@)),
{
    biguint_decimal_le(a.as_slice())
}

fn digit_str(d: u64) -> (r: &'static str)
    requires
        d < 10,
    ensures
        r@ == seq![digit_char(d as nat)],
{
    proof {
        reveal_strlit("0");
        reveal_strlit("1");
        reveal_strlit("2");
        reveal_strlit("3");
        reveal_strlit("4");
        reveal_strlit("5");
        reveal_strlit("6");
        reveal_strlit("7");
        reveal_strlit("8");
        reveal_strlit("9");
    }
    if d == 0 {
        "0"
    } else if d == 1 {
        "1"
    } else if d == 2 {
        "2"
    } else if d == 3 {
        "3"
    } else if d == 4 {
        "4"
    } else if d == 5 {
        "5"
    } else if d == 6 {
        "6"
    } else if d == 7 {
        "7"
    } else if d == 8 {
        "8"
    } else {
        "9"
    }
}

/// `n` in decimal.
pub fn u64_to_decimal(n: u64) -> (r: String)
    ensures
        r@ == decimal(n as nat),
    decreases n,
{
    if n < 10 {
        String::from_str(digit_str(n))
    } else {
        let mut s = u64_to_decimal(n / 10);
        s.append(digit_str(n % 10));
        s
    }
}

} // verus!
