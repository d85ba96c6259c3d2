use vstd::prelude::*;
use vstd::string::*;

use crate::error::ErrorKind;
use crate::token::Token;

verus! {

/// How many characters a puzzle number holds.
pub const NUM_OPERANDS: usize = 4;

pub open spec fn is_digit(c: char) -> bool {
    '0' <= c <= '9'
}

pub open spec fn digit_of(c: char) -> int {
    c as int - '0' as int
}

pub open spec fn all_digits(d: Seq<char>) -> bool {
    forall|i: int| 0 <= i < d.len() ==> is_digit(#[trigger] d[i])
}

/// The number written by the decimal digits `d`.
pub open spec fn digits_value(d: Seq<char>) -> int
    decreases d.len(),
{
    if d.len() == 0 {
        0
    } else {
        digits_value(d.drop_last()) * 10 + digit_of(d.last())
    }
}

/// The text after an optional leading `+`.
pub open spec fn unsigned_digits(s: Seq<char>) -> Seq<char> {
    if s.len() > 0 && s[0] == '+' {
        s.drop_first()
    } else {
        s
    }
}

/// The unsigned 16-bit integer that `s` writes: an optional `+`, then one or
/// more decimal digits whose value is at most 65535.
pub open spec fn parse_u16_spec(s: Seq<char>) -> Option<u16> {
    let d = unsigned_digits(s);
    if d.len() > 0 && all_digits(d) && digits_value(d) <= u16::MAX {
        Some(digits_value(d) as u16)
    } else {
        None
    }
}

/// What validation of a puzzle number gives: `WrongLength` unless it holds
/// exactly four characters, else `ParseFailure` unless it parses as a `u16`.
pub open spec fn validate_spec(s: Seq<char>) -> Result<bool, ErrorKind> {
    if s.len() != NUM_OPERANDS {
        Err(ErrorKind::WrongLength)
    } else if parse_u16_spec(s) is None {
        Err(ErrorKind::ParseFailure)
    } else {
        Ok(true)
    }
}

/// One operand token for each digit of `s`, in order.
pub open spec fn operands_of(s: Seq<char>) -> Seq<Token> {
    Seq::new(s.len(), |i: int| Token::Operand(digit_of(s[i]) as i64))
}

/// What building the base equation of `s` gives: the error of validation, or
/// `ParseFailure` where a character is no decimal digit (a leading `+`), or
/// the four operand tokens.
pub open spec fn build_spec(s: Seq<char>) -> Result<Seq<Token>, ErrorKind> {
    match validate_spec(s) {
        Err(e) => Err(e),
        Ok(_) => if all_digits(s) {
            Ok(operands_of(s))
        } else {
            Err(ErrorKind::ParseFailure)
        },
    }
}

proof fn lemma_digits_value_prefix(d: Seq<char>, k: int)
    requires
        all_digits(d),
        0 <= k <= d.len(),
    ensures
        0 <= digits_value(d.take(k)) <= digits_value(d),
    decreases d.len(),
{
    if k == d.len() {
        assert(d.take(k) =~= d);
        if d.len() > 0 {
            lemma_digits_value_prefix(d.drop_last(), d.len() - 1);
            assert(d.drop_last().take(d.len() - 1) =~= d.drop_last());
        }
    } else {
        let p = d.drop_last();
        assert(p.take(k) =~= d.take(k));
        lemma_digits_value_prefix(p, k);
        lemma_digits_value_prefix(p, p.len() as int);
        assert(p.take(p.len() as int) =~= p);
    }
}

/// Parses `s` as `str::parse::<u16>` does.
fn parse_u16(s: &str) -> (r: Option<u16>)
    ensures
        r == parse_u16_spec(s@),
{
    let len = s.unicode_len();
    let mut start: usize = 0;
    if len > 0 && s.get_char(0) == '+' {
        start = 1;
    }
    let ghost d = unsigned_digits(s@);
    assert(d =~= s@.subrange(start as int, s@.len() as int));
    if start == len {
        return None;
    }
    let mut acc: u32 = 0;
    let mut i: usize = start;
    while i < len
        invariant
            start <= i <= len,
            len == s@.len(),
            d == s@.subrange(start as int, len as int),
            d == unsigned_digits(s@),
            d.len() > 0,
            all_digits(d.take(i - start)),
            acc == digits_value(d.take(i - start)),
            acc <= u16::MAX,
        decreases len - i,
    {
        let c = s.get_char(i);
        assert(d[i - start] == c);
        if c < '0' || c > '9' {
            assert(!is_digit(d[i - start]));
            return None;
        }
        let ghost t = d.take(i + 1 - start);
        assert(t.drop_last() =~= d.take(i - start));
        assert(t.last() == c);
        assert(all_digits(t));
        assert(digits_value(t) == acc * 10 + digit_of(c));
        acc = acc * 10 + (c as u32 - '0' as u32);
        i = i + 1;
        if acc > u16::MAX as u32 {
            proof {
                if all_digits(d) {
                    lemma_digits_value_prefix(d, i - start);
                }
            }
            return None;
        }
    }
    assert(d.take(i - start) =~= d);
    Some(acc as u16)
}

/// Checks that `number` is a puzzle number: exactly four characters that
/// parse as an unsigned 16-bit integer.
pub fn validate_num_string(number: &str) -> (r: Result<bool, ErrorKind>)
    ensures
        r == validate_spec(number@),
{
    if number.unicode_len() != NUM_OPERANDS {
        return Err(ErrorKind::WrongLength);
    }
    if parse_u16(number).is_none() {
        return Err(ErrorKind::ParseFailure);
    }
    Ok(true)
}

/// Validates `number` and turns its digits into operand tokens, leftmost first.
pub fn create_base_equation(number: &str) -> (r: Result<Vec<Token>, ErrorKind>)
    ensures
        r matches Ok(v) ==> build_spec(number@) == Ok::<Seq<Token>, ErrorKind>(v@),
        r matches Err(e) ==> build_spec(number@) == Err::<Seq<Token>, ErrorKind>(e),
{
    if let Err(e) = validate_num_string(number) {
        return Err(e);
    }
    let mut equation: Vec<Token> = Vec::new();
    let mut i: usize = 0;
    while i < NUM_OPERANDS
        invariant
            0 <= i <= NUM_OPERANDS,
            number@.len() == NUM_OPERANDS,
            all_digits(number@.take(i as int)),
            equation@ =~= operands_of(number@.take(i as int)),
        decreases NUM_OPERANDS - i,
    {
        let c = number.get_char(i);
        if c < '0' || c > '9' {
            assert(!is_digit(number@[i as int]));
            return Err(ErrorKind::ParseFailure);
        }
        equation.push(Token::Operand((c as u32 - '0' as u32) as i64));
        i = i + 1;
        assert(all_digits(number@.take(i as int))) by {
            assert forall|j: int| 0 <= j < i implies is_digit(#[trigger] number@.take(i as int)[j]) by {
                if j < i - 1 {
                    assert(number@.take(i as int)[j] == number@.take(i - 1)[j]);
                }
            }
        }
    }
    assert(number@.take(i as int) =~= number@);
    Ok(equation)
}

/// Validation and construction depend on the text alone, so repeated calls
/// agree; construction fails wherever validation fails, with the same error.
pub proof fn lemma_validate_build_repeatable(
    s: Seq<char>,
    v1: Result<bool, ErrorKind>,
    v2: Result<bool, ErrorKind>,
    b1: Result<Seq<Token>, ErrorKind>,
    b2: Result<Seq<Token>, ErrorKind>,
)
    requires
        v1 == validate_spec(s),
        v2 == validate_spec(s),
        b1 == build_spec(s),
        b2 == build_spec(s),
    ensures
        v1 == v2,
        b1 == b2,
        v1 matches Err(e) ==> b1 == Err::<Seq<Token>, ErrorKind>(e),
{
}

} // verus!
