//! Decimal digits: parsing unsigned integers and formatting them back.

use vstd::prelude::*;

verus! {

/// Is `c` one of the ten decimal digit characters?
pub open spec fn is_dec_digit(c: char) -> bool {
    '0' as u32 <= c as u32 && c as u32 <= '9' as u32
}

/// The numeric value of a decimal digit character.
pub open spec fn digit_val(c: char) -> int {
    c as u32 - '0' as u32
}

pub open spec fn all_dec_digits(s: Seq<char>) -> bool {
    forall|i: int| 0 <= i < s.len() ==> is_dec_digit(s[i])
}

/// The value denoted by a sequence of decimal digits, most significant first.
pub open spec fn digits_val(s: Seq<char>) -> int
    decreases s.len(),
{
    if s.len() == 0 {
        0
    } else {
        digits_val(s.drop_last()) * 10 + digit_val(s.last())
    }
}

pub proof fn lemma_digits_val_nonneg(s: Seq<char>)
    requires
        all_dec_digits(s),
    ensures
        digits_val(s) >= 0,
    decreases s.len(),
{
    if s.len() > 0 {
        assert(all_dec_digits(s.drop_last()));
        lemma_digits_val_nonneg(s.drop_last());
    }
}

/// Appending one more digit: the value of `s.subrange(a, i + 1)` in terms of
/// the value of `s.subrange(a, i)`.
pub proof fn lemma_digits_val_snoc(s: Seq<char>, a: int, i: int)
    requires
        0 <= a <= i < s.len(),
    ensures
        digits_val(s.subrange(a, i + 1)) == digits_val(s.subrange(a, i)) * 10 + digit_val(s[i]),
{
    assert(s.subrange(a, i + 1).drop_last() =~= s.subrange(a, i));
    assert(s.subrange(a, i + 1).last() == s[i]);
}

/// A prefix of a digit string never denotes more than the whole string.
pub proof fn lemma_digits_val_prefix_le(s: Seq<char>, i: int)
    requires
        0 <= i <= s.len(),
        all_dec_digits(s),
    ensures
        digits_val(s.subrange(0, i)) <= digits_val(s),
    decreases s.len() - i,
{
    if i == s.len() {
        assert(s.subrange(0, i) =~= s);
    } else {
        assert(all_dec_digits(s.subrange(0, i)));
        lemma_digits_val_nonneg(s.subrange(0, i));
        lemma_digits_val_snoc(s, 0, i);
        lemma_digits_val_prefix_le(s, i + 1);
    }
}

/// How the parse of an unsigned integer can fail; the messages mirror the
/// standard library's wording.
#[derive(Debug, Clone, Copy, PartialEq, Eq, Structural)]
pub enum UintParseError {
    Empty,
    InvalidDigit,
    Overflow,
}

pub open spec fn spec_uint_error_message(e: UintParseError) -> Seq<char> {
    match e {
        UintParseError::Empty => "cannot parse integer from empty string"@,
        UintParseError::InvalidDigit => "invalid digit found in string"@,
        UintParseError::Overflow => "number too large to fit in target type"@,
    }
}

pub fn uint_error_message(e: UintParseError) -> (r: &'static str)
    ensures
        r@ == spec_uint_error_message(e),
{
    match e {
        UintParseError::Empty => "cannot parse integer from empty string",
        UintParseError::InvalidDigit => "invalid digit found in string",
        UintParseError::Overflow => "number too large to fit in target type",
    }
}

/// Parsing a `u32` out of a character sequence: an optional leading `+`,
/// then at least one decimal digit, denoting a value of at most `u32::MAX`.
pub open spec fn spec_parse_u32(s: Seq<char>) -> Result<u32, UintParseError> {
    if s.len() == 0 {
        Err(UintParseError::Empty)
    } else {
        let digits = if s[0] == '+' {
            s.drop_first()
        } else {
            s
        };
        if digits.len() == 0 || !all_dec_digits(digits) {
            Err(UintParseError::InvalidDigit)
        } else if digits_val(digits) > u32::MAX {
            Err(UintParseError::Overflow)
        } else {
            Ok(digits_val(digits) as u32)
        }
    }
}

pub fn parse_u32(s: &str) -> (r: Result<u32, UintParseError>)
    ensures
        r == spec_parse_u32(s@),
{
    let n = s.unicode_len();
    if n == 0 {
        return Err(UintParseError::Empty);
    }
    let first = s.get_char(0);
    let start: usize = if first == '+' {
        1
    } else {
        0
    };
    let ghost digits: Seq<char> = s@.subrange(start as int, n as int);
    proof {
        if start == 1 {
            assert(digits =~= s@.drop_first());
        } else {
            assert(digits =~= s@);
        }
    }
    if start == n {
        return Err(UintParseError::InvalidDigit);
    }
    let mut i: usize = start;
    while i < n
        invariant
            start <= i <= n,
            n == s@.len(),
            n > 0,
            digits == s@.subrange(start as int, n as int),
            s@[0] == '+' ==> start == 1 && digits == s@.drop_first(),
            s@[0] != '+' ==> start == 0 && digits == s@,
            forall|j: int| start <= j < i ==> is_dec_digit(s@[j]),
        decreases n - i,
    {
        let c = s.get_char(i);
        if !(c as u32 >= 48 && c as u32 <= 57) {
            proof {
                assert(digits[i - start] == s@[i as int]);
                assert(!is_dec_digit(digits[i - start]));
            }
            return Err(UintParseError::InvalidDigit);
        }
        i = i + 1;
    }
    proof {
        assert(all_dec_digits(digits));
    }
    let mut acc: u64 = 0;
    let mut k: usize = start;
    while k < n
        invariant
            start <= k <= n,
            n == s@.len(),
            n > 0,
            start < n,
            digits == s@.subrange(start as int, n as int),
            s@[0] == '+' ==> start == 1 && digits == s@.drop_first(),
            s@[0] != '+' ==> start == 0 && digits == s@,
            all_dec_digits(digits),
            forall|j: int| start <= j < n ==> is_dec_digit(s@[j]),
            acc == digits_val(s@.subrange(start as int, k as int)),
            acc <= u32::MAX,
        decreases n - k,
    {
        let c = s.get_char(k);
        let d: u64 = (c as u32 - 48) as u64;
        let next: u64 = acc * 10 + d;
        proof {
            lemma_digits_val_snoc(s@, start as int, k as int);
        }
        if next > 0xFFFF_FFFF {
            proof {
                assert(digits_val(digits.subrange(0, k + 1 - start)) > u32::MAX) by {
                    assert(digits.subrange(0, k + 1 - start) =~= s@.subrange(
                        start as int,
                        k as int + 1,
                    ));
                };
                lemma_digits_val_prefix_le(digits, k + 1 - start);
            }
            return Err(UintParseError::Overflow);
        }
        acc = next;
        k = k + 1;
    }
    proof {
        assert(s@.subrange(start as int, n as int) =~= digits);
    }
    Ok(acc as u32)
}

/// The decimal digit character for a value below ten.
pub open spec fn dec_digit_char(d: int) -> char {
    if d == 0 {
        '0'
    } else if d == 1 {
        '1'
    } else if d == 2 {
        '2'
    } else if d == 3 {
        '3'
    } else if d == 4 {
        '4'
    } else if d == 5 {
        '5'
    } else if d == 6 {
        '6'
    } else if d == 7 {
        '7'
    } else if d == 8 {
        '8'
    } else {
        '9'
    }
}

/// The usual decimal rendering of `n`, without sign or padding.
pub open spec fn spec_uint_string(n: nat) -> Seq<char>
    decreases n,
{
    if n < 10 {
        seq![dec_digit_char(n as int)]
    } else {
        spec_uint_string(n / 10).push(dec_digit_char((n % 10) as int))
    }
}

fn dec_digit_str(d: u64) -> (r: &'static str)
    requires
        d < 10,
    ensures
        r@ == seq![dec_digit_char(d as int)],
{
    proof {
        reveal_strlit("0");
        reveal_strlit("1");
        reveal_strlit("2");
        reveal_strlit("3");
        reveal_strlit("4");
        reveal_strlit("5");
        reveal_strlit("6");
        reveal_strlit("7");
        reveal_strlit("8");
        reveal_strlit("9");
        assert("0"@ =~= seq!['0']);
        assert("1"@ =~= seq!['1']);
        assert("2"@ =~= seq!['2']);
        assert("3"@ =~= seq!['3']);
        assert("4"@ =~= seq!['4']);
        assert("5"@ =~= seq!['5']);
        assert("6"@ =~= seq!['6']);
        assert("7"@ =~= seq!['7']);
        assert("8"@ =~= seq!['8']);
        assert("9"@ =~= seq!['9']);
    }
    if d == 0 {
        "0"
    } else if d == 1 {
        "1"
    } else if d == 2 {
        "2"
    } else if d == 3 {
        "3"
    } else if d == 4 {
        "4"
    } else if d == 5 {
        "5"
    } else if d == 6 {
        "6"
    } else if d == 7 {
        "7"
    } else if d == 8 {
        "8"
    } else {
        "9"
    }
}

pub fn uint_to_string(n: u64) -> (r: String)
    ensures
        r@ == spec_uint_string(n as nat),
{
    let mut digits: u64 = n / 10;
    let mut out: String = dec_digit_str(n % 10).to_owned();
    proof {
        if digits > 0 {
            assert(spec_uint_string(n as nat) == spec_uint_string((n / 10) as nat).push(
                dec_digit_char((n % 10) as int),
            ));
            assert(spec_uint_string((n / 10) as nat).push(dec_digit_char((n % 10) as int)) =~=
                spec_uint_string((n / 10) as nat) + out@);
        }
    }
    while digits > 0
        invariant
            digits > 0 ==> spec_uint_string(n as nat) == spec_uint_string(digits as nat) + out@,
            digits == 0 ==> spec_uint_string(n as nat) == out@,
        decreases digits,
    {
        let ghost old_digits = digits as nat;
        let ghost old_out = out@;
        let d: u64 = digits % 10;
        digits = digits / 10;
        out = dec_digit_str(d).to_owned().concat(out.as_str());
        proof {
            if digits > 0 {
                assert(spec_uint_string(old_digits) == spec_uint_string(digits as nat).push(
                    dec_digit_char(d as int),
                ));
                assert(spec_uint_string(digits as nat).push(dec_digit_char(d as int)) + old_out =~=
                    spec_uint_string(digits as nat) + out@);
            } else {
                assert(spec_uint_string(old_digits) == seq![dec_digit_char(d as int)]);
                assert(spec_uint_string(old_digits) + old_out =~= out@);
            }
        }
    }
    out
}

pub fn usize_to_string(n: usize) -> (r: String)
    ensures
        r@ == spec_uint_string(n as nat),
{
    uint_to_string(n as u64)
}

} // verus!
