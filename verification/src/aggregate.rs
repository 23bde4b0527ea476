//! The aggregation engine: pure, recompute-on-read views over the
//! state. Monthly figures filter transactions by a literal string
//! prefix match of the date against the month key; the yearly summary
//! parses each date and buckets amounts by calendar month.

use vstd::prelude::*;
use crate::models::{
    AppState, LimitEntry, MonthlyLimitData, Transaction, general_of, has_month, limits_wf,
    month_index,
};
use crate::text::{is_prefix, str_starts_with};
use crate::parse::{date_month, date_year, parse_date, valid_date_chars};
use crate::fmt::{month_key, spec_month_key};

verus! {

/// Sum of the amounts of the transactions whose date starts with `key`.
pub open spec fn month_total(txs: Seq<Transaction>, key: Seq<char>) -> int
    decreases txs.len(),
{
    if txs.len() == 0 {
        0
    } else {
        month_total(txs.drop_last(), key) + if is_prefix(key, txs.last().date@) {
            txs.last().amount as int
        } else {
            0
        }
    }
}

/// Number of transactions whose date starts with `key`.
pub open spec fn month_count(txs: Seq<Transaction>, key: Seq<char>) -> int
    decreases txs.len(),
{
    if txs.len() == 0 {
        0
    } else {
        month_count(txs.drop_last(), key) + if is_prefix(key, txs.last().date@) {
            1int
        } else {
            0
        }
    }
}

/// Sum of the amounts of the transactions whose date is a well-formed
/// calendar date in the given year and month. Unparsable dates are
/// skipped.
pub open spec fn year_month_total(txs: Seq<Transaction>, year: int, month: int) -> int
    decreases txs.len(),
{
    if txs.len() == 0 {
        0
    } else {
        year_month_total(txs.drop_last(), year, month) + {
            let d = txs.last().date@;
            if valid_date_chars(d) && date_year(d) == year && date_month(d) == month {
                txs.last().amount as int
            } else {
                0
            }
        }
    }
}

/// Finds the first limits entry carrying `key`, if any.
pub fn find_month(limits: &Vec<LimitEntry>, key: &str) -> (r: Option<usize>)
    ensures
        match r {
            Some(i) => i < limits@.len() && limits@[i as int].month@ == key@ && forall|j: int|
                0 <= j < i as int ==> limits@[j].month@ != key@,
            None => !has_month(limits@, key@),
        },
{
    let mut i: usize = 0;
    while i < limits.len()
        invariant
            i <= limits@.len(),
            forall|j: int| 0 <= j < i as int ==> limits@[j].month@ != key@,
        decreases limits@.len() - i,
    {
        if crate::text::str_eq(limits[i].month.as_str(), key) {
            return Some(i);
        }
        i = i + 1;
    }
    None
}

/// The limit record for a month key: a copy of the table entry, or the
/// zero-value record when the table has no entry. Never touches the
/// table itself.
pub fn monthly_limits(state: &AppState, month_key: &str) -> (d: MonthlyLimitData)
    requires
        limits_wf(state.limits@),
    ensures
        d.general == general_of(state.limits@, month_key@),
        has_month(state.limits@, month_key@) ==> {
            let e = state.limits@[month_index(state.limits@, month_key@)];
            &&& d.categories@.len() == e.data.categories@.len()
            &&& forall|i: int| 0 <= i < e.data.categories@.len() ==> {
                &&& (#[trigger] d.categories@[i]).name@ == e.data.categories@[i].name@
                &&& d.categories@[i].value == e.data.categories@[i].value
            }
        },
        !has_month(state.limits@, month_key@) ==> d.categories@.len() == 0,
{
    match find_month(&state.limits, month_key) {
        Some(i) => {
            proof {
                assert(has_month(state.limits@, month_key@));
                assert(month_index(state.limits@, month_key@) == i as int);
            }
            state.limits[i].data.duplicate()
        },
        None => MonthlyLimitData::zero(),
    }
}

/// Sum of the amounts of the transactions whose date starts with the
/// month key: the literal prefix filter, applied to every transaction.
pub fn monthly_total(state: &AppState, month_key: &str) -> (total: u128)
    ensures
        total == month_total(state.transactions@, month_key@),
{
    let ghost txs = state.transactions@;
    let mut total: u128 = 0;
    let mut i: usize = 0;
    while i < state.transactions.len()
        invariant
            i <= txs.len(),
            txs == state.transactions@,
            total == month_total(txs.subrange(0, i as int), month_key@),
            total <= (i as int) * 0xffff_ffff_ffff_ffff,
        decreases txs.len() - i,
    {
        let t = &state.transactions[i];
        proof {
            assert(txs.subrange(0, i as int + 1).drop_last() =~= txs.subrange(0, i as int));
            assert(txs.subrange(0, i as int + 1).last() == txs[i as int]);
        }
        if str_starts_with(t.date.as_str(), month_key) {
            total = total + t.amount as u128;
        }
        i = i + 1;
    }
    proof {
        assert(txs.subrange(0, txs.len() as int) =~= txs);
    }
    total
}

/// Number of transactions whose date starts with the month key.
pub fn monthly_count(state: &AppState, month_key: &str) -> (count: usize)
    ensures
        count == month_count(state.transactions@, month_key@),
{
    let ghost txs = state.transactions@;
    let mut count: usize = 0;
    let mut i: usize = 0;
    while i < state.transactions.len()
        invariant
            i <= txs.len(),
            txs == state.transactions@,
            count == month_count(txs.subrange(0, i as int), month_key@),
            count <= i,
        decreases txs.len() - i,
    {
        let t = &state.transactions[i];
        proof {
            assert(txs.subrange(0, i as int + 1).drop_last() =~= txs.subrange(0, i as int));
            assert(txs.subrange(0, i as int + 1).last() == txs[i as int]);
        }
        if str_starts_with(t.date.as_str(), month_key) {
            count = count + 1;
        }
        i = i + 1;
    }
    proof {
        assert(txs.subrange(0, txs.len() as int) =~= txs);
    }
    count
}

/// Twelve `(spent, limit)` pairs for the year, January first: spent is
/// the sum of the amounts whose parsed date falls in that month of the
/// year; limit is the overall limit recorded under that month's key.
pub fn yearly_summary(state: &AppState, year: u64) -> (v: Vec<(u128, u64)>)
    requires
        limits_wf(state.limits@),
    ensures
        v@.len() == 12,
        forall|m: int|
            0 <= m < 12 ==> (#[trigger] v@[m]).0 == year_month_total(
                state.transactions@,
                year as int,
                m + 1,
            ),
        forall|m: int|
            0 <= m < 12 ==> (#[trigger] v@[m]).1 == general_of(
                state.limits@,
                spec_month_key(year as int, m + 1),
            ),
{
    let ghost txs = state.transactions@;
    let mut v: Vec<(u128, u64)> = Vec::new();
    let mut k: usize = 0;
    while k < 12
        invariant
            k <= 12,
            v@.len() == k,
            forall|m: int| 0 <= m < k as int ==> (#[trigger] v@[m]) == (0u128, 0u64),
        decreases 12 - k,
    {
        v.push((0, 0));
        k = k + 1;
    }
    let mut i: usize = 0;
    while i < state.transactions.len()
        invariant
            i <= txs.len(),
            txs == state.transactions@,
            v@.len() == 12,
            forall|m: int|
                0 <= m < 12 ==> (#[trigger] v@[m]).0 == year_month_total(
                    txs.subrange(0, i as int),
                    year as int,
                    m + 1,
                ),
            forall|m: int| 0 <= m < 12 ==> (#[trigger] v@[m]).1 == 0,
            forall|m: int| 0 <= m < 12 ==> (#[trigger] v@[m]).0 <= (i as int) * 0xffff_ffff_ffff_ffff,
        decreases txs.len() - i,
    {
        let t = &state.transactions[i];
        proof {
            assert(txs.subrange(0, i as int + 1).drop_last() =~= txs.subrange(0, i as int));
            assert(txs.subrange(0, i as int + 1).last() == txs[i as int]);
        }
        match parse_date(t.date.as_str()) {
            Some(ymd) => {
                if ymd.0 == year {
                    let idx = (ymd.1 - 1) as usize;
                    let cur = v[idx];
                    v.set(idx, (cur.0 + t.amount as u128, cur.1));
                }
            },
            None => {},
        }
        i = i + 1;
    }
    proof {
        assert(txs.subrange(0, txs.len() as int) =~= txs);
    }
    let mut m: usize = 1;
    while m <= 12
        invariant
            1 <= m <= 13,
            v@.len() == 12,
            forall|j: int|
                0 <= j < 12 ==> (#[trigger] v@[j]).0 == year_month_total(txs, year as int, j + 1),
            forall|j: int|
                0 <= j < m as int - 1 ==> (#[trigger] v@[j]).1 == general_of(
                    state.limits@,
                    spec_month_key(year as int, j + 1),
                ),
            forall|j: int| m as int - 1 <= j < 12 ==> (#[trigger] v@[j]).1 == 0,
            limits_wf(state.limits@),
        decreases 13 - m,
    {
        let key = month_key(year, m as u64);
        match find_month(&state.limits, key.as_str()) {
            Some(e) => {
                proof {
                    assert(has_month(state.limits@, key@));
                    assert(month_index(state.limits@, key@) == e as int);
                }
                let cur = v[m - 1];
                v.set(m - 1, (cur.0, state.limits[e].data.general));
            },
            None => {},
        }
        m = m + 1;
    }
    v
}

} // verus!
