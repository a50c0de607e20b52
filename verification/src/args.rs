//! What the command line means: numbers, the frame rate and the driver.

use vstd::prelude::*;
use vstd::string::is_ascii;
use vstd::string::StrSliceExecFns;
use vstd::utf8::is_ascii_chars;
use crate::input::interval::{Interval, NANOS_PER_SEC};

verus! {

/// Whether `c` is a decimal digit.
pub open spec fn is_digit(c: char) -> bool {
    '0' <= c <= '9'
}

/// The number that the digit `c` stands for.
pub open spec fn digit_of(c: char) -> nat {
    if is_digit(c) {
        (c as nat - '0' as nat) as nat
    } else {
        0
    }
}

/// Whether `digits` holds decimal digits only.
pub open spec fn all_digits(digits: Seq<char>) -> bool {
    forall|i: int| 0 <= i < digits.len() ==> is_digit(#[trigger] digits[i])
}

/// The number that `digits` spell in base ten.
pub open spec fn digits_value(digits: Seq<char>) -> nat
    decreases digits.len(),
{
    if digits.len() == 0 {
        0
    } else {
        digits_value(digits.drop_last()) * 10 + digit_of(digits.last())
    }
}

/// What is left of `s` behind a leading plus sign, if it has one.
pub open spec fn unsigned_digits(s: Seq<char>) -> Seq<char> {
    if s.len() > 0 && s[0] == '+' {
        s.skip(1)
    } else {
        s
    }
}

/// The number that `s` spells, if it spells one that is at most `max`: an
/// optional plus sign, then one decimal digit or more, and nothing else.
pub open spec fn unsigned_value(s: Seq<char>, max: nat) -> Option<nat> {
    let digits = unsigned_digits(s);
    if digits.len() > 0 && all_digits(digits) && digits_value(digits) <= max {
        Some(digits_value(digits))
    } else {
        None
    }
}

/// What `is_int` answers to a value that is no number.
pub open spec fn not_a_number() -> Seq<char> {
    "Value is not a positive integer"@
}

proof fn lemma_value_grows(digits: Seq<char>, k: int)
    requires
        0 <= k <= digits.len(),
    ensures
        digits_value(digits.take(k)) <= digits_value(digits),
    decreases digits.len() - k,
{
    if k == digits.len() {
        assert(digits.take(k) =~= digits);
    } else {
        lemma_value_grows(digits.drop_last(), k);
        assert(digits.drop_last().take(k) =~= digits.take(k));
    }
}

proof fn lemma_value_step(digits: Seq<char>, k: int)
    requires
        0 <= k < digits.len(),
    ensures
        digits_value(digits.take(k + 1)) == digits_value(digits.take(k)) * 10 + digit_of(digits[k]),
{
    assert(digits.take(k + 1).drop_last() =~= digits.take(k));
}

/// Reads `s` as a number in base ten that is at most `max`.
pub fn parse_unsigned(s: &str, max: u64) -> (value: Option<u64>)
    ensures
        value == match unsigned_value(s@, max as nat) {
            Some(v) => Some(v as u64),
            None => None,
        },
{
    if !s.is_ascii() {
        proof {
            let i = choose|i: int| 0 <= i < s@.len() && !('\0' <= #[trigger] s@[i] <= '\u{7f}');
            let digits = unsigned_digits(s@);
            if s@[0] == '+' {
                assert(digits[i - 1] == s@[i]);
            }
        }
        return None;
    }
    let n: usize = s.unicode_len();
    let start: usize = if n > 0 && s.get_ascii(0) == 43 { 1 } else { 0 };
    let ghost digits = unsigned_digits(s@);
    let mut acc: u64 = 0;
    let mut i: usize = start;
    while i < n
        invariant
            start <= i <= n,
            n == s@.len(),
            is_ascii(s),
            digits == s@.skip(start as int),
            digits == unsigned_digits(s@),
            all_digits(digits.take(i - start)),
            acc == digits_value(digits.take(i - start)),
            acc <= max,
        decreases n - i,
    {
        let b: u8 = s.get_ascii(i);
        let ghost k = i - start;
        if b < 48 || b > 57 {
            assert(!is_digit(digits[k]));
            return None;
        }
        let d: u64 = (b - 48) as u64;
        proof {
            lemma_value_step(digits, k);
        }
        if d > max || acc > (max - d) / 10 {
            proof {
                lemma_value_grows(digits, k + 1);
            }
            return None;
        }
        acc = acc * 10 + d;
        i += 1;
        assert(all_digits(digits.take(i - start))) by {
            assert forall|j: int| 0 <= j < i - start implies is_digit(
                #[trigger] digits.take(i - start)[j],
            ) by {
                if j < k {
                    assert(digits.take(k)[j] == digits[j]);
                }
            }
        }
    }
    assert(digits.take(i - start) =~= digits);
    if i == start {
        None
    } else {
        Some(acc)
    }
}

/// Accepts `s` if it is a number: an optional plus sign and decimal digits
/// that spell a value of at most 64 bits.
pub fn is_int(s: String) -> (verdict: Result<(), String>)
    ensures
        verdict is Ok <==> unsigned_value(s@, u64::MAX as nat) is Some,
        verdict matches Err(message) ==> message@ == not_a_number(),
{
    match parse_unsigned(s.as_str(), u64::MAX) {
        Some(_) => Ok(()),
        None => Err("Value is not a positive integer".to_owned()),
    }
}

/// The pause that keeps the output at `fps` frames a second, or none without
/// a frame rate: a second divided by the rate, in whole nanoseconds.
pub fn framerate_limiter(opt: Option<&str>) -> (pause: Option<Interval>)
    requires
        opt matches Some(fps) ==> unsigned_value(fps@, u32::MAX as nat) matches Some(rate) && rate
            > 0,
    ensures
        opt is None ==> pause is None,
        opt matches Some(fps) ==> pause matches Some(t) && t.wf() && t.secs * NANOS_PER_SEC
            + t.nanos == NANOS_PER_SEC as nat / unsigned_value(fps@, u32::MAX as nat).unwrap(),
{
    match opt {
        Some(fps) => {
            let rate: u64 = match parse_unsigned(fps, 4_294_967_295) {
                Some(rate) => rate,
                None => vstd::pervasive::unreached(),
            };
            let second: u64 = 1_000_000_000;
            let nanos: u64 = second / rate;
            if nanos == second {
                Some(Interval { secs: 1, nanos: 0 })
            } else {
                assert(nanos < second) by (nonlinear_arith)
                    requires
                        nanos == second / rate,
                        nanos != second,
                        rate >= 1,
                        second == 1_000_000_000,
                ;
                Some(Interval { secs: 0, nanos: nanos as u32 })
            }
        },
        None => None,
    }
}

/// The name of the driver for the output `file`.
pub fn detect_driver(file: &str) -> (driver: &'static str)
    ensures
        driver@ == "spidev"@,
{
    "spidev"
}

} // verus!
