//! Monetary amounts as fixed-point decimals.
//!
//! An amount is held as a signed integer count of ten-thousandths, i.e.
//! scaled by `AMOUNT_SCALE`; "1000.0" denotes 10_000_000 units. The parser
//! accepts an optional sign, an integer part, and an optional fraction of at
//! most four digits.

use vstd::prelude::*;
use crate::digits::{all_dec_digits, digits_val, is_dec_digit, lemma_digits_val_nonneg,
    lemma_digits_val_prefix_le, lemma_digits_val_snoc};
use crate::split::{field_views, split_on, split_char};

verus! {

/// One amount unit is one ten-thousandth of the ledger's currency unit.
pub const AMOUNT_SCALE: i64 = 10000;

/// How the parse of an amount can fail.
#[derive(Debug, Clone, Copy, PartialEq, Eq, Structural)]
pub enum AmountParseError {
    Empty,
    Invalid,
    Overflow,
}

pub open spec fn spec_amount_error_message(e: AmountParseError) -> Seq<char> {
    match e {
        AmountParseError::Empty => "cannot parse number from empty string"@,
        AmountParseError::Invalid => "invalid decimal literal"@,
        AmountParseError::Overflow => "number too large to fit in target type"@,
    }
}

pub fn amount_error_message(e: AmountParseError) -> (r: &'static str)
    ensures
        r@ == spec_amount_error_message(e),
{
    match e {
        AmountParseError::Empty => "cannot parse number from empty string",
        AmountParseError::Invalid => "invalid decimal literal",
        AmountParseError::Overflow => "number too large to fit in target type",
    }
}

pub open spec fn pow10(k: nat) -> int
    decreases k,
{
    if k == 0 {
        1
    } else {
        10 * pow10((k - 1) as nat)
    }
}

/// A digit string never denotes more than `pow10` of its length.
pub proof fn lemma_digits_val_lt_pow10(s: Seq<char>)
    requires
        all_dec_digits(s),
    ensures
        digits_val(s) < pow10(s.len()),
    decreases s.len(),
{
    if s.len() == 0 {
    } else {
        assert(all_dec_digits(s.drop_last()));
        lemma_digits_val_lt_pow10(s.drop_last());
    }
}

/// The value of the fractional digits, scaled out to four places.
pub open spec fn frac_val(fp: Seq<char>) -> int {
    digits_val(fp) * pow10((4 - fp.len()) as nat)
}

/// Parsing an amount: an optional `+` or `-` sign, a non-empty integer
/// part, and optionally a `.` followed by one to four fraction digits. The
/// result is the signed value scaled by `AMOUNT_SCALE`; a magnitude beyond
/// `i64::MAX` is an overflow.
pub open spec fn spec_parse_amount(s: Seq<char>) -> Result<i64, AmountParseError> {
    if s.len() == 0 {
        Err(AmountParseError::Empty)
    } else {
        let neg = s[0] == '-';
        let body = if s[0] == '-' || s[0] == '+' {
            s.drop_first()
        } else {
            s
        };
        let parts = split_on(body, '.');
        let ip = parts[0];
        let fp = if parts.len() == 2 {
            parts[1]
        } else {
            Seq::<char>::empty()
        };
        if parts.len() > 2 {
            Err(AmountParseError::Invalid)
        } else if ip.len() == 0 || !all_dec_digits(ip) {
            Err(AmountParseError::Invalid)
        } else if parts.len() == 2 && (fp.len() == 0 || fp.len() > 4 || !all_dec_digits(fp)) {
            Err(AmountParseError::Invalid)
        } else {
            let mag = digits_val(ip) * (AMOUNT_SCALE as int) + frac_val(fp);
            if mag > i64::MAX {
                Err(AmountParseError::Overflow)
            } else if neg {
                Ok((-mag) as i64)
            } else {
                Ok(mag as i64)
            }
        }
    }
}

/// The magnitude overflows exactly when the integer part exceeds the
/// remaining headroom divided by the scale.
proof fn lemma_scaled_overflow(d: int, f: int, cap: int)
    requires
        d >= 0,
        0 <= f <= 9999,
        cap == (i64::MAX - f) / 10000,
    ensures
        (d > cap) <==> (d * 10000 + f > i64::MAX),
{
    let m = i64::MAX - f;
    vstd::arithmetic::div_mod::lemma_fundamental_div_mod(m, 10000);
    if d > cap {
        assert(d * 10000 >= (cap + 1) * 10000) by (nonlinear_arith)
            requires
                d >= cap + 1,
        ;
        assert((cap + 1) * 10000 == cap * 10000 + 10000);
    } else {
        assert(d * 10000 <= cap * 10000) by (nonlinear_arith)
            requires
                0 <= d <= cap,
        ;
    }
}

fn all_digits_check(s: &str) -> (r: bool)
    ensures
        r == all_dec_digits(s@),
{
    let n = s.unicode_len();
    let mut i: usize = 0;
    while i < n
        invariant
            i <= n,
            n == s@.len(),
            forall|j: int| 0 <= j < i ==> is_dec_digit(s@[j]),
        decreases n - i,
    {
        let c = s.get_char(i);
        if !(c as u32 >= 48 && c as u32 <= 57) {
            return false;
        }
        i = i + 1;
    }
    true
}

#[verifier::loop_isolation(false)]
pub fn parse_amount(s: &str) -> (r: Result<i64, AmountParseError>)
    ensures
        r == spec_parse_amount(s@),
{
    let n = s.unicode_len();
    if n == 0 {
        return Err(AmountParseError::Empty);
    }
    let first = s.get_char(0);
    let neg = first == '-';
    let start: usize = if first == '-' || first == '+' {
        1
    } else {
        0
    };
    let body = s.substring_char(start, n);
    proof {
        if start == 1 {
            assert(body@ =~= s@.drop_first());
        } else {
            assert(body@ =~= s@);
        }
    }
    let parts = split_char(body, '.');
    proof {
        assert(field_views(parts@).len() == parts@.len());
        assert(field_views(parts@)[0] == parts@[0]@);
    }
    if parts.len() > 2 {
        return Err(AmountParseError::Invalid);
    }
    let ghost spec_fp: Seq<char> = if parts@.len() == 2 {
        parts@[1]@
    } else {
        Seq::<char>::empty()
    };
    proof {
        if parts@.len() == 2 {
            assert(field_views(parts@)[1] == parts@[1]@);
        }
    }
    let ip: &String = &parts[0];
    let ip_len = ip.as_str().unicode_len();
    if ip_len == 0 || !all_digits_check(ip.as_str()) {
        return Err(AmountParseError::Invalid);
    }
    // fraction digits, already scaled out to four places
    let mut frac: u64 = 0;
    if parts.len() == 2 {
        let fp: &String = &parts[1];
        let fp_len = fp.as_str().unicode_len();
        if fp_len == 0 || fp_len > 4 || !all_digits_check(fp.as_str()) {
            return Err(AmountParseError::Invalid);
        }
        let mut k: usize = 0;
        while k < fp_len
            invariant
                k <= fp_len,
                fp_len == fp@.len(),
                fp_len <= 4,
                all_dec_digits(fp@),
                frac == digits_val(fp@.subrange(0, k as int)),
                frac < 10000,
            decreases fp_len - k,
        {
            let c = fp.as_str().get_char(k);
            proof {
                reveal_with_fuel(pow10, 6);
                lemma_digits_val_snoc(fp@, 0, k as int);
                assert(fp@.subrange(0, k as int).len() == k);
                assert(all_dec_digits(fp@.subrange(0, k as int)));
                lemma_digits_val_lt_pow10(fp@.subrange(0, k as int));
                assert(pow10(0) == 1 && pow10(1) == 10 && pow10(2) == 100 && pow10(3) == 1000);
                assert(frac <= 999);
            }
            frac = frac * 10 + (c as u32 - 48) as u64;
            k = k + 1;
        }
        proof {
            assert(fp@.subrange(0, fp_len as int) =~= fp@);
        }
        let scale: u64 = if fp_len == 1 {
            1000
        } else if fp_len == 2 {
            100
        } else if fp_len == 3 {
            10
        } else {
            1
        };
        proof {
            reveal_with_fuel(pow10, 6);
            assert(pow10(0) == 1 && pow10(1) == 10 && pow10(2) == 100 && pow10(3) == 1000);
            assert(scale == pow10((4 - fp@.len()) as nat));
            lemma_digits_val_lt_pow10(fp@);
            lemma_digits_val_nonneg(fp@);
            if fp_len == 1 {
                assert(frac <= 9);
            } else if fp_len == 2 {
                assert(frac <= 99);
            } else if fp_len == 3 {
                assert(frac <= 999);
            } else {
                assert(frac <= 9999);
            }
            assert(frac * scale <= 9999);
            assert(frac * scale == frac_val(spec_fp));
        }
        frac = frac * scale;
    }
    proof {
        lemma_digits_val_nonneg(spec_fp);
    }
    // integer part, with exact overflow detection against the headroom
    let cap: u64 = (0x7FFF_FFFF_FFFF_FFFFu64 - frac) / 10000;
    let mut acc: u64 = 0;
    let mut k: usize = 0;
    while k < ip_len
        invariant
            k <= ip_len,
            ip_len == ip@.len(),
            all_dec_digits(ip@),
            acc == digits_val(ip@.subrange(0, k as int)),
            acc <= cap,
            frac <= 9999,
            frac == frac_val(spec_fp),
            cap == (i64::MAX - frac) / 10000,
        decreases ip_len - k,
    {
        let c = ip.as_str().get_char(k);
        proof {
            assert(is_dec_digit(ip@[k as int]));
        }
        let d: u64 = (c as u32 - 48) as u64;
        proof {
            lemma_digits_val_snoc(ip@, 0, k as int);
            assert(acc * 10 + d <= cap * 10 + 9) by (nonlinear_arith)
                requires
                    0 <= acc <= cap,
                    d <= 9,
            ;
        }
        let next: u64 = acc * 10 + d;
        if next > cap {
            proof {
                lemma_digits_val_prefix_le(ip@, k as int + 1);
                lemma_digits_val_nonneg(ip@.subrange(0, k as int + 1));
                lemma_scaled_overflow(digits_val(ip@), frac as int, cap as int);
            }
            return Err(AmountParseError::Overflow);
        }
        acc = next;
        k = k + 1;
    }
    proof {
        assert(ip@.subrange(0, ip_len as int) =~= ip@);
        lemma_scaled_overflow(digits_val(ip@), frac as int, cap as int);
        assert(acc * 10000 <= cap * 10000) by (nonlinear_arith)
            requires
                0 <= acc <= cap,
        ;
        assert(cap * 10000 <= i64::MAX - frac) by {
            vstd::arithmetic::div_mod::lemma_fundamental_div_mod(i64::MAX - frac, 10000);
        };
    }
    let mag: u64 = acc * 10000 + frac;
    if neg {
        Ok(-(mag as i64))
    } else {
        Ok(mag as i64)
    }
}

} // verus!
