//! Parsing of the textual inputs the model works with: `YYYY-MM-DD`
//! dates, `YYYY-MM` month keys, and decimal amount strings entered by
//! the user, which become fixed-point minor units.

use vstd::prelude::*;
use vstd::string::StrSliceExecFns;
use crate::text::{
    all_digits, digit_val, digits_val, is_digit_char, pow10, lemma_digits_val_upper, parse_digits,
};
use crate::models::MAX_AMOUNT_CENTS;

verus! {

/// Gregorian leap years.
pub open spec fn is_leap_year(y: int) -> bool {
    (y % 4 == 0 && y % 100 != 0) || y % 400 == 0
}

/// Number of days in a month of the Gregorian calendar.
pub open spec fn days_in_month(y: int, m: int) -> int {
    if m == 2 {
        if is_leap_year(y) {
            29
        } else {
            28
        }
    } else if m == 4 || m == 6 || m == 9 || m == 11 {
        30
    } else {
        31
    }
}

/// `s` is a well-formed `YYYY-MM-DD` calendar date: four year digits,
/// two month digits and two day digits, month and day in range.
pub open spec fn valid_date_chars(s: Seq<char>) -> bool {
    &&& s.len() == 10
    &&& s[4] == '-'
    &&& s[7] == '-'
    &&& all_digits(s.subrange(0, 4))
    &&& all_digits(s.subrange(5, 7))
    &&& all_digits(s.subrange(8, 10))
    &&& 1 <= date_month(s) <= 12
    &&& 1 <= date_day(s) <= days_in_month(date_year(s), date_month(s))
}

pub open spec fn date_year(s: Seq<char>) -> int {
    digits_val(s.subrange(0, 4))
}

pub open spec fn date_month(s: Seq<char>) -> int {
    digits_val(s.subrange(5, 7))
}

pub open spec fn date_day(s: Seq<char>) -> int {
    digits_val(s.subrange(8, 10))
}

/// `s` is a well-formed `YYYY-MM` month key with the month in range.
pub open spec fn valid_month_key(s: Seq<char>) -> bool {
    &&& s.len() == 7
    &&& s[4] == '-'
    &&& all_digits(s.subrange(0, 4))
    &&& all_digits(s.subrange(5, 7))
    &&& 1 <= month_key_month(s) <= 12
}

pub open spec fn month_key_year(s: Seq<char>) -> int {
    digits_val(s.subrange(0, 4))
}

pub open spec fn month_key_month(s: Seq<char>) -> int {
    digits_val(s.subrange(5, 7))
}

/// Parses a `YYYY-MM-DD` date, yielding year, month and day; refuses
/// anything that is not a well-formed calendar date.
pub fn parse_date(s: &str) -> (r: Option<(u64, u64, u64)>)
    ensures
        match r {
            Some(ymd) => valid_date_chars(s@) && ymd.0 == date_year(s@) && ymd.1 == date_month(
                s@,
            ) && ymd.2 == date_day(s@),
            None => !valid_date_chars(s@),
        },
{
    if s.unicode_len() != 10 {
        return None;
    }
    if s.get_char(4) != '-' || s.get_char(7) != '-' {
        return None;
    }
    let year = match parse_digits(s, 0, 4, 9999) {
        Some(v) => v,
        None => {
            proof {
                four_digits_fit(s@.subrange(0, 4));
            }
            return None;
        },
    };
    let month = match parse_digits(s, 5, 7, 99) {
        Some(v) => v,
        None => {
            proof {
                two_digits_fit(s@.subrange(5, 7));
            }
            return None;
        },
    };
    let day = match parse_digits(s, 8, 10, 99) {
        Some(v) => v,
        None => {
            proof {
                two_digits_fit(s@.subrange(8, 10));
            }
            return None;
        },
    };
    if !(1 <= month && month <= 12) {
        return None;
    }
    let dim = exec_days_in_month(year, month);
    if !(1 <= day && day <= dim) {
        return None;
    }
    Some((year, month, day))
}

/// A run of four digits cannot exceed 9999.
proof fn four_digits_fit(s: Seq<char>)
    requires
        s.len() == 4,
    ensures
        all_digits(s) ==> digits_val(s) <= 9999,
{
    if all_digits(s) {
        lemma_digits_val_upper(s);
        reveal_with_fuel(pow10, 5);
        assert(pow10(4) == 10000);
    }
}

/// A run of two digits cannot exceed 99.
proof fn two_digits_fit(s: Seq<char>)
    requires
        s.len() == 2,
    ensures
        all_digits(s) ==> digits_val(s) <= 99,
{
    if all_digits(s) {
        lemma_digits_val_upper(s);
        reveal_with_fuel(pow10, 3);
        assert(pow10(2) == 100);
    }
}

/// Day count of a month, matching `days_in_month`.
pub fn exec_days_in_month(year: u64, month: u64) -> (d: u64)
    ensures
        d == days_in_month(year as int, month as int),
{
    if month == 2 {
        if (year % 4 == 0 && year % 100 != 0) || year % 400 == 0 {
            29
        } else {
            28
        }
    } else if month == 4 || month == 6 || month == 9 || month == 11 {
        30
    } else {
        31
    }
}

/// Parses a `YYYY-MM` month key, yielding year and month.
pub fn parse_month_key(s: &str) -> (r: Option<(u64, u64)>)
    ensures
        match r {
            Some(ym) => valid_month_key(s@) && ym.0 == month_key_year(s@) && ym.1
                == month_key_month(s@),
            None => !valid_month_key(s@),
        },
{
    if s.unicode_len() != 7 {
        return None;
    }
    if s.get_char(4) != '-' {
        return None;
    }
    let year = match parse_digits(s, 0, 4, 9999) {
        Some(v) => v,
        None => {
            proof {
                four_digits_fit(s@.subrange(0, 4));
            }
            return None;
        },
    };
    let month = match parse_digits(s, 5, 7, 99) {
        Some(v) => v,
        None => {
            proof {
                two_digits_fit(s@.subrange(5, 7));
            }
            return None;
        },
    };
    if !(1 <= month && month <= 12) {
        return None;
    }
    Some((year, month))
}

/// Index of the first `.` in `s`, or `s.len()` when there is none.
pub open spec fn first_dot(s: Seq<char>) -> int
    decreases s.len(),
{
    if s.len() == 0 {
        0
    } else if s[0] == '.' {
        0
    } else {
        1 + first_dot(s.drop_first())
    }
}

pub proof fn lemma_first_dot(s: Seq<char>)
    ensures
        0 <= first_dot(s) <= s.len(),
        forall|k: int| 0 <= k < first_dot(s) ==> s[k] != '.',
        first_dot(s) < s.len() ==> s[first_dot(s)] == '.',
    decreases s.len(),
{
    if s.len() > 0 && s[0] != '.' {
        lemma_first_dot(s.drop_first());
        assert forall|k: int| 0 <= k < first_dot(s) implies s[k] != '.' by {
            if k > 0 {
                assert(s.drop_first()[k - 1] == s[k]);
            }
        }
        if first_dot(s) < s.len() {
            assert(s.drop_first()[first_dot(s) - 1] == s[first_dot(s)]);
        }
    }
}

/// `s` is a decimal amount: digits, at most one dot, at most two
/// fraction digits, and at least one digit overall.
pub open spec fn valid_amount_chars(s: Seq<char>) -> bool {
    let fd = first_dot(s);
    let ip = s.subrange(0, fd);
    if fd == s.len() {
        all_digits(ip) && s.len() >= 1
    } else {
        let fr = s.subrange(fd + 1, s.len() as int);
        all_digits(ip) && all_digits(fr) && fr.len() <= 2 && ip.len() + fr.len() >= 1
    }
}

/// Fraction digits scaled to hundredths: one digit counts tens, two
/// digits count tens and units.
pub open spec fn frac_cents(fr: Seq<char>) -> int {
    if fr.len() == 0 {
        0
    } else if fr.len() == 1 {
        digit_val(fr[0]) * 10
    } else {
        digit_val(fr[0]) * 10 + digit_val(fr[1])
    }
}

/// The amount written by `s`, in minor units (hundredths).
pub open spec fn amount_cents_of(s: Seq<char>) -> int {
    let fd = first_dot(s);
    let ip = s.subrange(0, fd);
    let fr = if fd == s.len() {
        Seq::<char>::empty()
    } else {
        s.subrange(fd + 1, s.len() as int)
    };
    digits_val(ip) * 100 + frac_cents(fr)
}

/// Parses a decimal amount string into minor units, refusing strings
/// outside the amount grammar and values above `MAX_AMOUNT_CENTS`.
pub fn parse_amount_cents(s: &str) -> (r: Option<u64>)
    ensures
        match r {
            Some(v) => valid_amount_chars(s@) && v == amount_cents_of(s@) && v
                <= MAX_AMOUNT_CENTS,
            None => !valid_amount_chars(s@) || amount_cents_of(s@) > MAX_AMOUNT_CENTS,
        },
{
    let len = s.unicode_len();
    let mut dot: usize = len;
    let mut i: usize = 0;
    while i < len
        invariant
            i <= len,
            len == s@.len(),
            dot == len || (dot < i && s@[dot as int] == '.' && forall|k: int|
                0 <= k < dot as int ==> s@[k] != '.'),
            dot == len ==> forall|k: int| 0 <= k < i as int ==> s@[k] != '.',
        decreases len - i,
    {
        if dot == len {
            if s.get_char(i) == '.' {
                dot = i;
            }
        }
        i = i + 1;
    }
    proof {
        lemma_first_dot(s@);
        assert(dot as int == first_dot(s@));
    }
    let ghost ip = s@.subrange(0, dot as int);
    let int_val = match parse_digits(s, 0, dot, MAX_AMOUNT_CENTS) {
        Some(v) => v,
        None => {
            proof {
                if valid_amount_chars(s@) && digits_val(ip) > MAX_AMOUNT_CENTS {
                    reject_large_int_part(s@);
                }
            }
            return None;
        },
    };
    let mut cents: u64 = 0;
    if dot < len {
        let frac_len = len - dot - 1;
        if frac_len > 2 {
            return None;
        }
        if dot == 0 && frac_len == 0 {
            return None;
        }
        let ghost fr = s@.subrange(dot as int + 1, len as int);
        if frac_len >= 1 {
            let c1 = s.get_char(dot + 1);
            let v1: u32 = c1 as u32;
            proof {
                assert(fr[0] == s@[dot as int + 1]);
            }
            if !(48 <= v1 && v1 <= 57) {
                return None;
            }
            cents = ((v1 - 48) as u64) * 10;
        }
        if frac_len == 2 {
            let c2 = s.get_char(dot + 2);
            let v2: u32 = c2 as u32;
            proof {
                assert(fr[1] == s@[dot as int + 2]);
            }
            if !(48 <= v2 && v2 <= 57) {
                return None;
            }
            cents = cents + (v2 - 48) as u64;
        }
        proof {
            assert forall|k: int| 0 <= k < fr.len() implies is_digit_char(#[trigger] fr[k]) by {
                assert(fr[k] == s@[dot as int + 1 + k]);
            }
            assert(cents == frac_cents(fr));
        }
    } else {
        if len == 0 {
            return None;
        }
    }
    let total: u64 = int_val * 100 + cents;
    if total > MAX_AMOUNT_CENTS {
        return None;
    }
    Some(total)
}

/// When the integer part alone exceeds the cap, the whole amount does.
proof fn reject_large_int_part(s: Seq<char>)
    requires
        valid_amount_chars(s),
        digits_val(s.subrange(0, first_dot(s))) > MAX_AMOUNT_CENTS,
    ensures
        amount_cents_of(s) > MAX_AMOUNT_CENTS,
{
    let fd = first_dot(s);
    let ip = s.subrange(0, fd);
    let fr = if fd == s.len() {
        Seq::<char>::empty()
    } else {
        s.subrange(fd + 1, s.len() as int)
    };
    assert(frac_cents(fr) >= 0);
    assert(digits_val(ip) * 100 >= digits_val(ip));
}

} // verus!
