//! Verified formatting: decimal digit strings, `YYYY-MM` month keys,
//! date display in the two supported language styles, and currency
//! display of fixed-point amounts.

use vstd::prelude::*;
use vstd::string::{StrSliceExecFns, StringExecFns};
use crate::text::str_eq;
use crate::parse::{parse_date, valid_date_chars};

verus! {

/// The ASCII digit character with value `d` (meaningful for 0..=9).
pub open spec fn digit_char(d: int) -> char {
    if d == 0 {
        '0'
    } else if d == 1 {
        '1'
    } else if d == 2 {
        '2'
    } else if d == 3 {
        '3'
    } else if d == 4 {
        '4'
    } else if d == 5 {
        '5'
    } else if d == 6 {
        '6'
    } else if d == 7 {
        '7'
    } else if d == 8 {
        '8'
    } else {
        '9'
    }
}

/// The decimal digit string of `n` (meaningful for `n >= 0`), without
/// padding: `dec_digits(7)` is `7`, `dec_digits(2024)` is `2024`.
pub open spec fn dec_digits(n: int) -> Seq<char>
    decreases n,
    when n >= 0
{
    if n <= 9 {
        seq![digit_char(n)]
    } else {
        dec_digits(n / 10).push(digit_char(n % 10))
    }
}

/// The decimal digit string of `n` padded on the left to two places.
pub open spec fn pad2(n: int) -> Seq<char> {
    if 0 <= n <= 9 {
        seq!['0'] + dec_digits(n)
    } else {
        dec_digits(n)
    }
}

/// A one-character string for one decimal digit.
fn digit_str(d: u64) -> (r: &'static str)
    requires
        d <= 9,
    ensures
        r@ == seq![digit_char(d as int)],
{
    let r: &'static str = if d == 0 {
        "0"
    } else if d == 1 {
        "1"
    } else if d == 2 {
        "2"
    } else if d == 3 {
        "3"
    } else if d == 4 {
        "4"
    } else if d == 5 {
        "5"
    } else if d == 6 {
        "6"
    } else if d == 7 {
        "7"
    } else if d == 8 {
        "8"
    } else {
        "9"
    };
    proof {
        reveal_strlit("0");
        reveal_strlit("1");
        reveal_strlit("2");
        reveal_strlit("3");
        reveal_strlit("4");
        reveal_strlit("5");
        reveal_strlit("6");
        reveal_strlit("7");
        reveal_strlit("8");
        reveal_strlit("9");
        assert(r@ =~= seq![digit_char(d as int)]);
    }
    r
}

/// Renders `n` in decimal, without padding.
pub fn number_string(n: u128) -> (r: String)
    ensures
        r@ == dec_digits(n as int),
    decreases n,
{
    if n <= 9 {
        String::from_str(digit_str(n as u64))
    } else {
        let r = number_string(n / 10);
        let d = digit_str((n % 10) as u64);
        proof {
            assert(dec_digits(n as int) =~= dec_digits(n as int / 10).push(
                digit_char(n as int % 10),
            ));
            assert(dec_digits(n as int / 10).push(digit_char(n as int % 10)) =~= dec_digits(
                n as int / 10,
            ) + seq![digit_char(n as int % 10)]);
        }
        r.concat(d)
    }
}

/// Renders `n` in decimal, padded on the left to two places.
pub fn two_digit_string(n: u64) -> (r: String)
    requires
        n <= 99,
    ensures
        r@ == pad2(n as int),
{
    if n <= 9 {
        let r = String::from_str("0").concat(digit_str(n));
        proof {
            reveal_strlit("0");
            assert("0"@ =~= seq!['0']);
            assert(r@ =~= pad2(n as int));
        }
        r
    } else {
        number_string(n as u128)
    }
}

/// The limits-table key for a month: the year in decimal, a dash, and
/// the month padded to two digits.
pub open spec fn spec_month_key(y: int, m: int) -> Seq<char> {
    dec_digits(y) + "-"@ + pad2(m)
}

/// Builds the `YYYY-MM` limits-table key for a year and month.
pub fn month_key(year: u64, month: u64) -> (r: String)
    requires
        month <= 99,
    ensures
        r@ == spec_month_key(year as int, month as int),
{
    let y = number_string(year as u128);
    let m = two_digit_string(month);
    let r = y.concat("-").concat(m.as_str());
    proof {
        assert(r@ =~= spec_month_key(year as int, month as int));
    }
    r
}

/// How a date is displayed: `MM/DD/YYYY` in English, `DD.MM.YYYY`
/// otherwise; a string that is not a well-formed date is shown as it is.
pub open spec fn spec_format_date(s: Seq<char>, lang: Seq<char>) -> Seq<char> {
    if valid_date_chars(s) {
        if lang == "en"@ {
            s.subrange(5, 7) + "/"@ + s.subrange(8, 10) + "/"@ + s.subrange(0, 4)
        } else {
            s.subrange(8, 10) + "."@ + s.subrange(5, 7) + "."@ + s.subrange(0, 4)
        }
    } else {
        s
    }
}

/// Formats a `YYYY-MM-DD` date for display in the given language.
pub fn format_date_display(date_str: &str, lang: &str) -> (r: String)
    ensures
        r@ == spec_format_date(date_str@, lang@),
{
    match parse_date(date_str) {
        Some(_) => {
            let yyyy = date_str.substring_char(0, 4);
            let mm = date_str.substring_char(5, 7);
            let dd = date_str.substring_char(8, 10);
            if str_eq(lang, "en") {
                let r = String::from_str(mm).concat("/").concat(dd).concat("/").concat(yyyy);
                proof {
                    assert(r@ =~= spec_format_date(date_str@, lang@));
                }
                r
            } else {
                let r = String::from_str(dd).concat(".").concat(mm).concat(".").concat(yyyy);
                proof {
                    assert(r@ =~= spec_format_date(date_str@, lang@));
                }
                r
            }
        },
        None => date_str.to_owned(),
    }
}

/// How an amount in minor units is displayed: dollar and euro amounts
/// carry their symbol in front, every other currency code follows the
/// number after a space; the number always shows two fraction digits.
pub open spec fn spec_format_currency(cents: int, currency: Seq<char>) -> Seq<char> {
    let num = dec_digits(cents / 100) + "."@ + pad2(cents % 100);
    if currency == "USD"@ {
        "$"@ + num
    } else if currency == "EUR"@ {
        "\u{20ac}"@ + num
    } else {
        num + " "@ + currency
    }
}

/// Formats an amount of minor units in the given currency for display.
/// The language does not affect the number format.
pub fn format_currency(cents: u128, currency: &str, _lang: &str) -> (r: String)
    ensures
        r@ == spec_format_currency(cents as int, currency@),
{
    let whole = cents / 100;
    let frac = (cents % 100) as u64;
    let num = number_string(whole).concat(".").concat(two_digit_string(frac).as_str());
    if str_eq(currency, "USD") {
        let r = String::from_str("$").concat(num.as_str());
        proof {
            assert(r@ =~= spec_format_currency(cents as int, currency@));
        }
        r
    } else if str_eq(currency, "EUR") {
        let r = String::from_str("\u{20ac}").concat(num.as_str());
        proof {
            assert(r@ =~= spec_format_currency(cents as int, currency@));
        }
        r
    } else {
        let r = num.concat(" ").concat(currency);
        proof {
            assert(r@ =~= spec_format_currency(cents as int, currency@));
        }
        r
    }
}

} // verus!
