//! The domain model: transactions, monthly limits and the persisted
//! application state, together with the documented default state.

use vstd::prelude::*;

verus! {

/// Largest monetary value, in minor units, that a user entry may carry.
/// Chosen so that any value times any exchange rate stays below
/// `MONEY_BOUND`, which keeps every rebasing step inside `u64` range.
pub const MAX_AMOUNT_CENTS: u64 = 2_000_000_000_000_000;

/// Bound on `value * rate` for every monetary value in a well-formed
/// state; `MAX_AMOUNT_CENTS` times the largest rate stays below it.
pub const MONEY_BOUND: u64 = 1_000_000_000_000_000_000;

/// A single recorded expense. `amount` is in minor units (hundredths)
/// of the currency the state is currently denominated in; `date` is a
/// `YYYY-MM-DD` string.
#[derive(Clone, Debug, PartialEq)]
pub struct Transaction {
    pub id: u32,
    pub title: String,
    pub amount: u64,
    pub date: String,
    pub category: String,
}

/// One per-category limit inside a month's limit record.
#[derive(Clone, Debug, PartialEq)]
pub struct CategoryLimit {
    pub name: String,
    pub value: u64,
}

/// Spending limits for one calendar month: an overall limit (0 means
/// unset) and per-category limits.
#[derive(Clone, Debug, PartialEq)]
pub struct MonthlyLimitData {
    pub general: u64,
    pub categories: Vec<CategoryLimit>,
}

/// The limits table entry for one month key (`YYYY-MM`).
#[derive(Clone, Debug, PartialEq)]
pub struct LimitEntry {
    pub month: String,
    pub data: MonthlyLimitData,
}

/// The persisted root of the application: all transactions, the limits
/// table keyed by month, and the display configuration.
#[derive(Clone, Debug, PartialEq)]
pub struct AppState {
    pub transactions: Vec<Transaction>,
    pub limits: Vec<LimitEntry>,
    pub theme: String,
    pub language: String,
    pub currency: String,
}

/// Transaction identifiers are unique across the collection.
pub open spec fn tx_ids_unique(txs: Seq<Transaction>) -> bool {
    forall|i: int, j: int| 0 <= i < j < txs.len() ==> (#[trigger] txs[i]).id != (#[trigger] txs[j]).id
}

/// Category names are unique within one month's limit record.
pub open spec fn cat_names_unique(cats: Seq<CategoryLimit>) -> bool {
    forall|i: int, j: int| 0 <= i < j < cats.len() ==> (#[trigger] cats[i]).name@ != (#[trigger] cats[j]).name@
}

/// The limits table is a mapping: month keys are unique, and so are
/// the category names inside each entry.
pub open spec fn limits_wf(limits: Seq<LimitEntry>) -> bool {
    &&& forall|i: int, j: int|
        0 <= i < j < limits.len() ==> (#[trigger] limits[i]).month@ != (#[trigger] limits[j]).month@
    &&& forall|i: int|
        0 <= i < limits.len() ==> cat_names_unique(#[trigger] limits[i].data.categories@)
}

/// Every monetary value of the state, multiplied by the rate of the
/// currency it is denominated in, stays below `MONEY_BOUND`; this keeps
/// rebasing inside machine range.
pub open spec fn money_wf(s: AppState) -> bool {
    let rate = crate::rates::spec_rate(s.currency@);
    &&& forall|i: int|
        0 <= i < s.transactions@.len() ==> (#[trigger] s.transactions@[i]).amount * rate
            <= MONEY_BOUND
    &&& forall|i: int|
        0 <= i < s.limits@.len() ==> (#[trigger] s.limits@[i]).data.general * rate <= MONEY_BOUND
    &&& forall|i: int, j: int|
        0 <= i < s.limits@.len() && 0 <= j < s.limits@[i].data.categories@.len() ==> (
        #[trigger] s.limits@[i].data.categories@[j]).value * rate <= MONEY_BOUND
}

/// A structurally valid state: unique transaction identifiers below the
/// identifier ceiling, a well-formed limits table, and monetary values
/// in machine range. A persisted document that fails this is treated as
/// undecodable and replaced by the default.
pub open spec fn state_wf(s: AppState) -> bool {
    &&& tx_ids_unique(s.transactions@)
    &&& forall|i: int| 0 <= i < s.transactions@.len() ==> (#[trigger] s.transactions@[i]).id < u32::MAX
    &&& limits_wf(s.limits@)
    &&& money_wf(s)
}

/// Some entry of the limits table carries this month key.
pub open spec fn has_month(limits: Seq<LimitEntry>, key: Seq<char>) -> bool {
    exists|i: int| 0 <= i < limits.len() && (#[trigger] limits[i]).month@ == key
}

/// The index of the entry carrying this month key (meaningful when
/// `has_month` holds; unique under `limits_wf`).
pub open spec fn month_index(limits: Seq<LimitEntry>, key: Seq<char>) -> int {
    choose|i: int| 0 <= i < limits.len() && (#[trigger] limits[i]).month@ == key
}

/// The overall limit recorded for this month key, or 0 when the table
/// has no entry for it.
pub open spec fn general_of(limits: Seq<LimitEntry>, key: Seq<char>) -> int {
    if has_month(limits, key) {
        limits[month_index(limits, key)].data.general as int
    } else {
        0
    }
}

/// Some category limit of this record carries this name.
pub open spec fn has_cat(cats: Seq<CategoryLimit>, name: Seq<char>) -> bool {
    exists|i: int| 0 <= i < cats.len() && (#[trigger] cats[i]).name@ == name
}

/// The index of the category limit carrying this name (meaningful when
/// `has_cat` holds; unique under `cat_names_unique`).
pub open spec fn cat_index(cats: Seq<CategoryLimit>, name: Seq<char>) -> int {
    choose|i: int| 0 <= i < cats.len() && (#[trigger] cats[i]).name@ == name
}

/// The limit recorded for this category name, or 0 when absent.
pub open spec fn cat_value_of(cats: Seq<CategoryLimit>, name: Seq<char>) -> int {
    if has_cat(cats, name) {
        cats[cat_index(cats, name)].value as int
    } else {
        0
    }
}

/// The documented default state: no transactions, no limits, light
/// theme, Polish language, amounts in PLN.
pub open spec fn is_default_state(s: AppState) -> bool {
    &&& s.transactions@.len() == 0
    &&& s.limits@.len() == 0
    &&& s.theme@ == "light"@
    &&& s.language@ == "pl"@
    &&& s.currency@ == "PLN"@
}

impl Default for AppState {
    /// Materializes the documented default state.
    fn default() -> (s: Self)
        ensures
            is_default_state(s),
    {
        AppState {
            transactions: Vec::new(),
            limits: Vec::new(),
            theme: "light".to_owned(),
            language: "pl".to_owned(),
            currency: "PLN".to_owned(),
        }
    }
}

impl MonthlyLimitData {
    /// The zero-value limit record: no overall limit, no category limits.
    pub fn zero() -> (d: Self)
        ensures
            d.general == 0,
            d.categories@.len() == 0,
    {
        MonthlyLimitData { general: 0, categories: Vec::new() }
    }

    /// An owned copy with the same contents, field for field.
    pub fn duplicate(&self) -> (d: Self)
        ensures
            d.general == self.general,
            d.categories@.len() == self.categories@.len(),
            forall|i: int| 0 <= i < self.categories@.len() ==> {
                &&& (#[trigger] d.categories@[i]).name@ == self.categories@[i].name@
                &&& d.categories@[i].value == self.categories@[i].value
            },
    {
        let mut cats: Vec<CategoryLimit> = Vec::new();
        let mut i: usize = 0;
        while i < self.categories.len()
            invariant
                i <= self.categories@.len(),
                cats@.len() == i,
                forall|j: int| 0 <= j < i as int ==> {
                    &&& (#[trigger] cats@[j]).name@ == self.categories@[j].name@
                    &&& cats@[j].value == self.categories@[j].value
                },
            decreases self.categories@.len() - i,
        {
            let c = &self.categories[i];
            cats.push(CategoryLimit { name: c.name.clone(), value: c.value });
            i = i + 1;
        }
        MonthlyLimitData { general: self.general, categories: cats }
    }
}

} // verus!
