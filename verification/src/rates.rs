//! The static exchange rate table, fixed at build time. Rates are kept
//! in hundredths of the base unit: PLN is 1.00, USD 4.10, EUR 4.35, and
//! every unknown code falls back to 1.00.

use vstd::prelude::*;
use crate::text::str_eq;

verus! {

/// Rate of a currency code in hundredths of the base unit.
pub open spec fn spec_rate(code: Seq<char>) -> int {
    if code == "PLN"@ {
        100
    } else if code == "USD"@ {
        410
    } else if code == "EUR"@ {
        435
    } else {
        100
    }
}

pub proof fn lemma_rate_range(code: Seq<char>)
    ensures
        100 <= spec_rate(code) <= 435,
{
}

/// Looks a currency code up in the static rate table; unknown codes
/// default to the base rate.
pub fn get_exchange_rate(currency_code: &str) -> (r: u64)
    ensures
        r == spec_rate(currency_code@),
        100 <= r <= 435,
{
    if str_eq(currency_code, "PLN") {
        100
    } else if str_eq(currency_code, "USD") {
        410
    } else if str_eq(currency_code, "EUR") {
        435
    } else {
        100
    }
}

} // verus!
