//! The state lifecycle controller: the single owner of the application
//! state. It moves from `Uninitialized` through `Loading` to `Ready`;
//! only a `Ready` controller accepts mutations, and every accepted
//! mutation reports that a full-state save must be issued. No save is
//! ever requested before the load has installed its result.

use vstd::prelude::*;
use vstd::arithmetic::mul::lemma_mul_upper_bound;
use crate::models::{
    AppState, CategoryLimit, LimitEntry, MonthlyLimitData, Transaction, MAX_AMOUNT_CENTS,
    MONEY_BOUND, cat_names_unique, has_month, is_default_state, limits_wf, money_wf, month_index,
    state_wf, tx_ids_unique,
};
use crate::rates::{get_exchange_rate, spec_rate, lemma_rate_range};
use crate::text::{has_content, str_eq, str_has_content};
use crate::parse::{amount_cents_of, parse_amount_cents, valid_amount_chars};
use crate::aggregate::find_month;

verus! {

/// Lifecycle phase of the controller.
#[derive(Clone, Copy, Debug, PartialEq, Eq, Structural)]
pub enum Phase {
    Uninitialized,
    Loading,
    Ready,
}

/// The process-wide owner of the state: the current phase, the state
/// itself, and the next fresh transaction identifier.
pub struct Controller {
    pub phase: Phase,
    pub state: AppState,
    pub next_id: u32,
}

/// Some transaction carries this identifier.
pub open spec fn has_tx(txs: Seq<Transaction>, id: u32) -> bool {
    exists|i: int| 0 <= i < txs.len() && (#[trigger] txs[i]).id == id
}

/// The index of the transaction carrying this identifier (meaningful
/// when `has_tx` holds; unique under `tx_ids_unique`).
pub open spec fn tx_index(txs: Seq<Transaction>, id: u32) -> int {
    choose|i: int| 0 <= i < txs.len() && (#[trigger] txs[i]).id == id
}

/// The limit value a user's input stands for: its minor units when it
/// is a well-formed amount in range, and 0 (meaning unset) otherwise.
pub open spec fn limit_value_of(sv: Seq<char>) -> int {
    if valid_amount_chars(sv) && amount_cents_of(sv) <= MAX_AMOUNT_CENTS {
        amount_cents_of(sv)
    } else {
        0
    }
}

impl Controller {
    /// Well-formedness: a valid state whose transaction identifiers all
    /// lie below the next fresh identifier.
    pub open spec fn wf(self) -> bool {
        &&& state_wf(self.state)
        &&& forall|i: int|
            0 <= i < self.state.transactions@.len() ==> (
            #[trigger] self.state.transactions@[i]).id < self.next_id
    }

    /// A fresh controller: not yet loaded, holding the default state.
    pub fn new() -> (c: Controller)
        ensures
            c.wf(),
            c.phase == Phase::Uninitialized,
            is_default_state(c.state),
            c.next_id == 1,
    {
        Controller { phase: Phase::Uninitialized, state: AppState::default(), next_id: 1 }
    }

    /// Enters `Loading` from `Uninitialized`; the load request is
    /// issued at most once per session.
    pub fn begin_load(&mut self) -> (started: bool)
        requires
            old(self).wf(),
        ensures
            final(self).wf(),
            started == (old(self).phase == Phase::Uninitialized),
            started ==> *final(self) == (Controller { phase: Phase::Loading, ..*old(self) }),
            !started ==> *final(self) == *old(self),
    {
        if self.phase == Phase::Uninitialized {
            self.phase = Phase::Loading;
            true
        } else {
            false
        }
    }

    /// Installs the outcome of the load request and enters `Ready`.
    /// An absent document, or one that is not a valid state, is
    /// replaced by the documented default.
    pub fn finish_load(&mut self, doc: Option<AppState>) -> (installed: bool)
        requires
            old(self).wf(),
        ensures
            final(self).wf(),
            installed == (old(self).phase == Phase::Loading),
            !installed ==> *final(self) == *old(self),
            installed ==> final(self).phase == Phase::Ready,
            installed ==> match doc {
                Option::None => is_default_state(final(self).state),
                Option::Some(d) => if state_wf(d) {
                    final(self).state == d
                } else {
                    is_default_state(final(self).state)
                },
            },
    {
        if self.phase != Phase::Loading {
            return false;
        }
        match doc {
            Option::Some(d) => {
                if validate_state(&d) {
                    let max = max_tx_id(&d.transactions);
                    self.state = d;
                    self.next_id = max + 1;
                } else {
                    self.state = AppState::default();
                    self.next_id = 1;
                }
            },
            Option::None => {
                self.state = AppState::default();
                self.next_id = 1;
            },
        }
        self.phase = Phase::Ready;
        true
    }
}

impl Controller {
    /// When `add_transaction` accepts: the controller is ready, the
    /// title is not blank, the amount is a well-formed positive decimal
    /// in range, and a fresh identifier is available.
    pub open spec fn add_accepted(self, title: Seq<char>, amount: Seq<char>) -> bool {
        &&& self.phase == Phase::Ready
        &&& has_content(title)
        &&& valid_amount_chars(amount)
        &&& 1 <= amount_cents_of(amount) <= MAX_AMOUNT_CENTS
        &&& self.next_id < u32::MAX
    }

    /// Validates and records a new transaction. A blank title or an
    /// amount that is not a positive decimal is rejected: the state is
    /// left untouched and no save is requested. On acceptance the
    /// transaction is appended with a fresh unique identifier.
    pub fn add_transaction(&mut self, title: &str, amount: &str, date: String, category: String)
        -> (saved: bool)
        requires
            old(self).wf(),
        ensures
            final(self).wf(),
            saved == old(self).add_accepted(title@, amount@),
            !saved ==> *final(self) == *old(self),
            saved ==> {
                let txs0 = old(self).state.transactions@;
                let txs1 = final(self).state.transactions@;
                &&& txs1 == txs0.push(txs1.last())
                &&& txs1.last().id == old(self).next_id
                &&& txs1.last().title@ == title@
                &&& txs1.last().amount == amount_cents_of(amount@)
                &&& txs1.last().date == date
                &&& txs1.last().category == category
                &&& final(self).state.limits == old(self).state.limits
                &&& final(self).state.theme == old(self).state.theme
                &&& final(self).state.language == old(self).state.language
                &&& final(self).state.currency == old(self).state.currency
                &&& final(self).phase == old(self).phase
                &&& final(self).next_id == old(self).next_id + 1
            },
    {
        if self.phase != Phase::Ready {
            return false;
        }
        if !str_has_content(title) {
            return false;
        }
        let cents = match parse_amount_cents(amount) {
            Option::Some(c) => c,
            Option::None => {
                return false;
            },
        };
        if cents == 0 {
            return false;
        }
        if self.next_id == u32::MAX {
            return false;
        }
        let t = Transaction {
            id: self.next_id,
            title: title.to_owned(),
            amount: cents,
            date,
            category,
        };
        proof {
            lemma_rate_range(self.state.currency@);
            lemma_mul_upper_bound(
                cents as int,
                MAX_AMOUNT_CENTS as int,
                spec_rate(self.state.currency@),
                435,
            );
        }
        self.state.transactions.push(t);
        self.next_id = self.next_id + 1;
        true
    }

    /// Removes the first transaction carrying this identifier; does
    /// nothing (and requests no save) when none carries it.
    pub fn remove_transaction(&mut self, id: u32) -> (saved: bool)
        requires
            old(self).wf(),
        ensures
            final(self).wf(),
            saved == (old(self).phase == Phase::Ready && has_tx(
                old(self).state.transactions@,
                id,
            )),
            !saved ==> *final(self) == *old(self),
            saved ==> {
                let txs0 = old(self).state.transactions@;
                &&& final(self).state.transactions@ == txs0.remove(tx_index(txs0, id))
                &&& final(self).state.limits == old(self).state.limits
                &&& final(self).state.theme == old(self).state.theme
                &&& final(self).state.language == old(self).state.language
                &&& final(self).state.currency == old(self).state.currency
                &&& final(self).phase == old(self).phase
                &&& final(self).next_id == old(self).next_id
            },
    {
        if self.phase != Phase::Ready {
            return false;
        }
        let ghost txs0 = self.state.transactions@;
        let mut i: usize = 0;
        while i < self.state.transactions.len()
            invariant
                i <= txs0.len(),
                *self == *old(self),
                old(self).wf(),
                old(self).phase == Phase::Ready,
                txs0 == self.state.transactions@,
                forall|j: int| 0 <= j < i as int ==> (#[trigger] txs0[j]).id != id,
            decreases txs0.len() - i,
        {
            if self.state.transactions[i].id == id {
                proof {
                    assert(has_tx(txs0, id));
                    assert(tx_index(txs0, id) == i as int);
                }
                self.state.transactions.remove(i);
                proof {
                    txs0.remove_ensures(i as int);
                    let txs1 = self.state.transactions@;
                    assert forall|x: int, y: int| 0 <= x < y < txs1.len() implies (
                    #[trigger] txs1[x]).id != (#[trigger] txs1[y]).id by {
                        if y < i as int {
                            assert(txs1[x] == txs0[x] && txs1[y] == txs0[y]);
                        } else if x < i as int {
                            assert(txs1[x] == txs0[x] && txs1[y] == txs0[y + 1]);
                        } else {
                            assert(txs1[x] == txs0[x + 1] && txs1[y] == txs0[y + 1]);
                        }
                    }
                }
                return true;
            }
            i = i + 1;
        }
        false
    }
}

impl Controller {
    /// Sets the overall limit for a month to the value the input
    /// stands for (0 when it is not a well-formed amount), creating the
    /// month's entry lazily when it is absent.
    pub fn update_general_limit(&mut self, month: &str, value: &str) -> (saved: bool)
        requires
            old(self).wf(),
        ensures
            final(self).wf(),
            saved == (old(self).phase == Phase::Ready),
            !saved ==> *final(self) == *old(self),
            saved ==> {
                let l0 = old(self).state.limits@;
                let l1 = final(self).state.limits@;
                &&& crate::models::general_of(l1, month@) == limit_value_of(value@)
                &&& has_month(l1, month@)
                &&& (if has_month(l0, month@) {
                    let k = month_index(l0, month@);
                    &&& l1.len() == l0.len()
                    &&& forall|j: int| 0 <= j < l0.len() && j != k ==> l1[j] == #[trigger] l0[j]
                    &&& l1[k].month == l0[k].month
                    &&& l1[k].data.general == limit_value_of(value@)
                    &&& l1[k].data.categories == l0[k].data.categories
                } else {
                    &&& l1.len() == l0.len() + 1
                    &&& forall|j: int| 0 <= j < l0.len() ==> l1[j] == #[trigger] l0[j]
                    &&& l1.last().month@ == month@
                    &&& l1.last().data.general == limit_value_of(value@)
                    &&& l1.last().data.categories@.len() == 0
                })
                &&& final(self).state.transactions == old(self).state.transactions
                &&& final(self).state.theme == old(self).state.theme
                &&& final(self).state.language == old(self).state.language
                &&& final(self).state.currency == old(self).state.currency
                &&& final(self).phase == old(self).phase
                &&& final(self).next_id == old(self).next_id
            },
    {
        if self.phase != Phase::Ready {
            return false;
        }
        let val = match parse_amount_cents(value) {
            Option::Some(c) => c,
            Option::None => 0,
        };
        let ghost l0 = self.state.limits@;
        proof {
            lemma_rate_range(self.state.currency@);
            lemma_mul_upper_bound(
                val as int,
                MAX_AMOUNT_CENTS as int,
                spec_rate(self.state.currency@),
                435,
            );
        }
        match find_month(&self.state.limits, month) {
            Option::Some(i) => {
                let e = self.state.limits.remove(i);
                let e2 = LimitEntry {
                    month: e.month,
                    data: MonthlyLimitData { general: val, categories: e.data.categories },
                };
                self.state.limits.insert(i, e2);
                proof {
                    assert(has_month(l0, month@));
                    assert(month_index(l0, month@) == i as int);
                    assert(self.state.limits@ =~= l0.update(i as int, self.state.limits@[i as int]));
                    assert(has_month(self.state.limits@, month@));
                    assert(month_index(self.state.limits@, month@) == i as int);
                }
            },
            Option::None => {
                let e = LimitEntry {
                    month: month.to_owned(),
                    data: MonthlyLimitData { general: val, categories: Vec::new() },
                };
                self.state.limits.push(e);
                proof {
                    let l1 = self.state.limits@;
                    assert(l1.last().month@ == month@);
                    assert(has_month(l1, month@));
                    assert(month_index(l1, month@) == l0.len() as int);
                }
            },
        }
        true
    }

    /// Sets one category's limit for a month to the value the input
    /// stands for, creating the month's entry lazily (with no overall
    /// limit) and the category's slot lazily when they are absent.
    pub fn update_cat_limit(&mut self, month: &str, category: &str, value: &str) -> (saved: bool)
        requires
            old(self).wf(),
        ensures
            final(self).wf(),
            saved == (old(self).phase == Phase::Ready),
            !saved ==> *final(self) == *old(self),
            saved ==> {
                let l0 = old(self).state.limits@;
                let l1 = final(self).state.limits@;
                &&& has_month(l1, month@)
                &&& crate::models::cat_value_of(
                    l1[month_index(l1, month@)].data.categories@,
                    category@,
                ) == limit_value_of(value@)
                &&& (if has_month(l0, month@) {
                    let k = month_index(l0, month@);
                    let c0 = l0[k].data.categories@;
                    let c1 = l1[k].data.categories@;
                    &&& l1.len() == l0.len()
                    &&& month_index(l1, month@) == k
                    &&& forall|j: int| 0 <= j < l0.len() && j != k ==> l1[j] == #[trigger] l0[j]
                    &&& l1[k].month == l0[k].month
                    &&& l1[k].data.general == l0[k].data.general
                    &&& (if crate::models::has_cat(c0, category@) {
                        let c = crate::models::cat_index(c0, category@);
                        &&& c1.len() == c0.len()
                        &&& forall|j: int| 0 <= j < c0.len() && j != c ==> c1[j] == #[trigger] c0[j]
                        &&& c1[c].name == c0[c].name
                        &&& c1[c].value == limit_value_of(value@)
                    } else {
                        &&& c1.len() == c0.len() + 1
                        &&& forall|j: int| 0 <= j < c0.len() ==> c1[j] == #[trigger] c0[j]
                        &&& c1.last().name@ == category@
                        &&& c1.last().value == limit_value_of(value@)
                    })
                } else {
                    let e = l1.last();
                    &&& l1.len() == l0.len() + 1
                    &&& month_index(l1, month@) == l0.len() as int
                    &&& forall|j: int| 0 <= j < l0.len() ==> l1[j] == #[trigger] l0[j]
                    &&& e.month@ == month@
                    &&& e.data.general == 0
                    &&& e.data.categories@.len() == 1
                    &&& e.data.categories@[0].name@ == category@
                    &&& e.data.categories@[0].value == limit_value_of(value@)
                })
                &&& final(self).state.transactions == old(self).state.transactions
                &&& final(self).state.theme == old(self).state.theme
                &&& final(self).state.language == old(self).state.language
                &&& final(self).state.currency == old(self).state.currency
                &&& final(self).phase == old(self).phase
                &&& final(self).next_id == old(self).next_id
            },
    {
        if self.phase != Phase::Ready {
            return false;
        }
        let val = match parse_amount_cents(value) {
            Option::Some(c) => c,
            Option::None => 0,
        };
        let ghost l0 = self.state.limits@;
        proof {
            lemma_rate_range(self.state.currency@);
            lemma_mul_upper_bound(
                val as int,
                MAX_AMOUNT_CENTS as int,
                spec_rate(self.state.currency@),
                435,
            );
        }
        match find_month(&self.state.limits, month) {
            Option::Some(i) => {
                let e = self.state.limits.remove(i);
                let ghost c0 = e.data.categories@;
                let mut cats = e.data.categories;
                match find_cat(&cats, category) {
                    Option::Some(c) => {
                        let oldc = cats.remove(c);
                        cats.insert(c, CategoryLimit { name: oldc.name, value: val });
                        proof {
                            assert(crate::models::has_cat(c0, category@));
                            assert(crate::models::cat_index(c0, category@) == c as int);
                            assert(cats@ =~= c0.update(c as int, cats@[c as int]));
                        }
                    },
                    Option::None => {
                        cats.push(CategoryLimit { name: category.to_owned(), value: val });
                    },
                }
                let e2 = LimitEntry {
                    month: e.month,
                    data: MonthlyLimitData { general: e.data.general, categories: cats },
                };
                self.state.limits.insert(i, e2);
                proof {
                    assert(has_month(l0, month@));
                    assert(month_index(l0, month@) == i as int);
                    assert(self.state.limits@ =~= l0.update(i as int, self.state.limits@[i as int]));
                    assert(has_month(self.state.limits@, month@));
                    assert(month_index(self.state.limits@, month@) == i as int);
                    let c1 = self.state.limits@[i as int].data.categories@;
                    if crate::models::has_cat(c0, category@) {
                        assert(crate::models::cat_names_unique(c1));
                        assert(crate::models::has_cat(c1, category@));
                        assert(crate::models::cat_index(c1, category@) == crate::models::cat_index(
                            c0,
                            category@,
                        ));
                    } else {
                        assert(c1.last().name@ == category@);
                        assert(crate::models::has_cat(c1, category@));
                        assert(crate::models::cat_names_unique(c1));
                        assert(crate::models::cat_index(c1, category@) == c0.len() as int);
                    }
                }
            },
            Option::None => {
                let mut cats: Vec<CategoryLimit> = Vec::new();
                cats.push(CategoryLimit { name: category.to_owned(), value: val });
                let e = LimitEntry {
                    month: month.to_owned(),
                    data: MonthlyLimitData { general: 0, categories: cats },
                };
                self.state.limits.push(e);
                proof {
                    let l1 = self.state.limits@;
                    assert(l1.last().month@ == month@);
                    assert(has_month(l1, month@));
                    assert(month_index(l1, month@) == l0.len() as int);
                    let c1 = l1.last().data.categories@;
                    assert(c1.len() == 1 && c1[0].name@ == category@);
                    assert(crate::models::has_cat(c1, category@));
                    assert(crate::models::cat_index(c1, category@) == 0);
                }
            },
        }
        true
    }
}

/// Scaling a value from the old rate to the new one stays in range:
/// the scaled value times the new rate never exceeds what the old
/// value times the old rate was.
pub proof fn lemma_scaled_in_bound(a: int, rf: int, rt: int, b: int)
    requires
        0 <= a,
        0 < rf,
        0 < rt,
        a * rf <= b,
    ensures
        0 <= (a * rf) / rt,
        ((a * rf) / rt) * rt <= a * rf,
        (a * rf) / rt <= a * rf,
{
    let p = a * rf;
    vstd::arithmetic::mul::lemma_mul_nonnegative(a, rf);
    vstd::arithmetic::div_mod::lemma_div_pos_is_pos(p, rt);
    vstd::arithmetic::div_mod::lemma_div_nonincreasing(p, rt);
    vstd::arithmetic::div_mod::lemma_fundamental_div_mod(p, rt);
    vstd::arithmetic::div_mod::lemma_mod_bound(p, rt);
    assert(rt * (p / rt) == p - p % rt);
}

impl Controller {
    /// Re-denominates every monetary value from the current currency
    /// into `new_currency` at the static rate ratio, in one pass over
    /// the whole state, and records the new currency. A no-op (with no
    /// save) when the currency does not change.
    pub fn change_currency(&mut self, new_currency: String) -> (saved: bool)
        requires
            old(self).wf(),
        ensures
            final(self).wf(),
            saved == (old(self).phase == Phase::Ready && new_currency@ != old(
                self,
            ).state.currency@),
            !saved ==> *final(self) == *old(self),
            saved ==> {
                let rf = spec_rate(old(self).state.currency@);
                let rt = spec_rate(new_currency@);
                let txs0 = old(self).state.transactions@;
                let txs1 = final(self).state.transactions@;
                let l0 = old(self).state.limits@;
                let l1 = final(self).state.limits@;
                &&& txs1.len() == txs0.len()
                &&& forall|i: int|
                    0 <= i < txs0.len() ==> {
                        let t0 = #[trigger] txs0[i];
                        let t1 = txs1[i];
                        &&& t1.id == t0.id
                        &&& t1.title == t0.title
                        &&& t1.date == t0.date
                        &&& t1.category == t0.category
                        &&& t1.amount == t0.amount * rf / rt
                    }
                &&& l1.len() == l0.len()
                &&& forall|i: int|
                    0 <= i < l0.len() ==> {
                        let e0 = #[trigger] l0[i];
                        let e1 = l1[i];
                        &&& e1.month == e0.month
                        &&& e1.data.general == e0.data.general * rf / rt
                        &&& e1.data.categories@.len() == e0.data.categories@.len()
                        &&& forall|j: int|
                            0 <= j < e0.data.categories@.len() ==> {
                                let c0 = #[trigger] e0.data.categories@[j];
                                let c1 = e1.data.categories@[j];
                                &&& c1.name == c0.name
                                &&& c1.value == c0.value * rf / rt
                            }
                    }
                &&& final(self).state.currency == new_currency
                &&& final(self).state.theme == old(self).state.theme
                &&& final(self).state.language == old(self).state.language
                &&& final(self).phase == old(self).phase
                &&& final(self).next_id == old(self).next_id
            },
    {
        if self.phase != Phase::Ready {
            return false;
        }
        if str_eq(self.state.currency.as_str(), new_currency.as_str()) {
            return false;
        }
        let rf = get_exchange_rate(self.state.currency.as_str());
        let rt = get_exchange_rate(new_currency.as_str());
        let ghost txs0 = self.state.transactions@;
        let mut i: usize = 0;
        while i < self.state.transactions.len()
            invariant
                old(self).wf(),
                old(self).phase == Phase::Ready,
                i <= txs0.len(),
                txs0 == old(self).state.transactions@,
                rf == spec_rate(old(self).state.currency@),
                rt == spec_rate(new_currency@),
                100 <= rf <= 435,
                100 <= rt <= 435,
                self.phase == old(self).phase,
                self.state.limits == old(self).state.limits,
                self.state.theme == old(self).state.theme,
                self.state.language == old(self).state.language,
                self.state.currency == old(self).state.currency,
                self.next_id == old(self).next_id,
                self.state.transactions@.len() == txs0.len(),
                forall|j: int|
                    i as int <= j < txs0.len() ==> self.state.transactions@[j] == #[trigger] txs0[j],
                forall|j: int|
                    0 <= j < i as int ==> {
                        let t0 = #[trigger] txs0[j];
                        let t1 = self.state.transactions@[j];
                        &&& t1.id == t0.id
                        &&& t1.title == t0.title
                        &&& t1.date == t0.date
                        &&& t1.category == t0.category
                        &&& t1.amount == t0.amount * rf / (rt as int)
                        &&& t1.amount * rt <= MONEY_BOUND
                    },
            decreases txs0.len() - i,
        {
            let ghost before = self.state.transactions@;
            let t = self.state.transactions.remove(i);
            proof {
                before.remove_ensures(i as int);
                assert(t == txs0[i as int]);
                assert((old(self).state.transactions@[i as int]).amount * spec_rate(
                    old(self).state.currency@,
                ) <= MONEY_BOUND);
                lemma_scaled_in_bound(t.amount as int, rf as int, rt as int, MONEY_BOUND as int);
            }
            let na = (t.amount * rf) / rt;
            self.state.transactions.insert(
                i,
                Transaction { id: t.id, title: t.title, amount: na, date: t.date, category: t.category },
            );
            proof {
                assert(self.state.transactions@ =~= before.update(
                    i as int,
                    self.state.transactions@[i as int],
                ));
            }
            i = i + 1;
        }
        let ghost l0 = self.state.limits@;
        let mut k: usize = 0;
        while k < self.state.limits.len()
            invariant
                old(self).wf(),
                old(self).phase == Phase::Ready,
                k <= l0.len(),
                l0 == old(self).state.limits@,
                rf == spec_rate(old(self).state.currency@),
                rt == spec_rate(new_currency@),
                100 <= rf <= 435,
                100 <= rt <= 435,
                self.phase == old(self).phase,
                self.state.theme == old(self).state.theme,
                self.state.language == old(self).state.language,
                self.state.currency == old(self).state.currency,
                self.next_id == old(self).next_id,
                self.state.transactions@.len() == old(self).state.transactions@.len(),
                forall|j: int|
                    0 <= j < old(self).state.transactions@.len() ==> {
                        let t0 = #[trigger] old(self).state.transactions@[j];
                        let t1 = self.state.transactions@[j];
                        &&& t1.id == t0.id
                        &&& t1.title == t0.title
                        &&& t1.date == t0.date
                        &&& t1.category == t0.category
                        &&& t1.amount == t0.amount * rf / (rt as int)
                        &&& t1.amount * rt <= MONEY_BOUND
                    },
                self.state.limits@.len() == l0.len(),
                forall|j: int| k as int <= j < l0.len() ==> self.state.limits@[j] == #[trigger] l0[j],
                forall|j: int|
                    0 <= j < k as int ==> {
                        let e0 = #[trigger] l0[j];
                        let e1 = self.state.limits@[j];
                        &&& e1.month == e0.month
                        &&& e1.data.general == e0.data.general * rf / (rt as int)
                        &&& e1.data.general * rt <= MONEY_BOUND
                        &&& e1.data.categories@.len() == e0.data.categories@.len()
                        &&& forall|c: int|
                            0 <= c < e0.data.categories@.len() ==> {
                                let c0 = #[trigger] e0.data.categories@[c];
                                let c1 = e1.data.categories@[c];
                                &&& c1.name == c0.name
                                &&& c1.value == c0.value * rf / (rt as int)
                                &&& c1.value * rt <= MONEY_BOUND
                            }
                    },
            decreases l0.len() - k,
        {
            let ghost lk = self.state.limits@;
            let e = self.state.limits.remove(k);
            proof {
                lk.remove_ensures(k as int);
                assert(e == l0[k as int]);
                assert((old(self).state.limits@[k as int]).data.general * spec_rate(
                    old(self).state.currency@,
                ) <= MONEY_BOUND);
                lemma_scaled_in_bound(
                    e.data.general as int,
                    rf as int,
                    rt as int,
                    MONEY_BOUND as int,
                );
            }
            let ng = (e.data.general * rf) / rt;
            let ghost c0 = e.data.categories@;
            let mut cats = e.data.categories;
            let mut ci: usize = 0;
            while ci < cats.len()
                invariant
                    old(self).wf(),
                    ci <= c0.len(),
                    (k as int) < old(self).state.limits@.len(),
                    c0 == old(self).state.limits@[k as int].data.categories@,
                    rf == spec_rate(old(self).state.currency@),
                    rt == spec_rate(new_currency@),
                    100 <= rf <= 435,
                    100 <= rt <= 435,
                    cats@.len() == c0.len(),
                    forall|j: int| ci as int <= j < c0.len() ==> cats@[j] == #[trigger] c0[j],
                    forall|j: int|
                        0 <= j < ci as int ==> {
                            let cc0 = #[trigger] c0[j];
                            let cc1 = cats@[j];
                            &&& cc1.name == cc0.name
                            &&& cc1.value == cc0.value * rf / (rt as int)
                            &&& cc1.value * rt <= MONEY_BOUND
                        },
                decreases c0.len() - ci,
            {
                let ghost cb = cats@;
                let c = cats.remove(ci);
                proof {
                    cb.remove_ensures(ci as int);
                    assert(c == c0[ci as int]);
                    assert((old(self).state.limits@[k as int].data.categories@[ci as int]).value
                        * spec_rate(old(self).state.currency@) <= MONEY_BOUND);
                    lemma_scaled_in_bound(c.value as int, rf as int, rt as int, MONEY_BOUND as int);
                }
                let nv = (c.value * rf) / rt;
                cats.insert(ci, CategoryLimit { name: c.name, value: nv });
                proof {
                    assert(cats@ =~= cb.update(ci as int, cats@[ci as int]));
                }
                ci = ci + 1;
            }
            self.state.limits.insert(
                k,
                LimitEntry { month: e.month, data: MonthlyLimitData { general: ng, categories: cats } },
            );
            proof {
                assert(self.state.limits@ =~= lk.update(k as int, self.state.limits@[k as int]));
                let e1 = self.state.limits@[k as int];
                let e0 = l0[k as int];
                assert(e1.month == e0.month);
                assert(e1.data.general == e0.data.general * rf / (rt as int));
                assert(e1.data.general * rt <= MONEY_BOUND);
                assert(e1.data.categories@.len() == e0.data.categories@.len());
                assert forall|c: int| 0 <= c < e0.data.categories@.len() implies {
                    let cc0 = #[trigger] e0.data.categories@[c];
                    let cc1 = e1.data.categories@[c];
                    &&& cc1.name == cc0.name
                    &&& cc1.value == cc0.value * rf / (rt as int)
                    &&& cc1.value * rt <= MONEY_BOUND
                } by {
                    assert(c0[c] == e0.data.categories@[c]);
                }
                assert forall|j: int| 0 <= j < (k as int) + 1 implies {
                    let f0 = #[trigger] l0[j];
                    let f1 = self.state.limits@[j];
                    &&& f1.month == f0.month
                    &&& f1.data.general == f0.data.general * rf / (rt as int)
                    &&& f1.data.general * rt <= MONEY_BOUND
                    &&& f1.data.categories@.len() == f0.data.categories@.len()
                    &&& forall|c: int|
                        0 <= c < f0.data.categories@.len() ==> {
                            let cc0 = #[trigger] f0.data.categories@[c];
                            let cc1 = f1.data.categories@[c];
                            &&& cc1.name == cc0.name
                            &&& cc1.value == cc0.value * rf / (rt as int)
                            &&& cc1.value * rt <= MONEY_BOUND
                        }
                } by {
                    if j < k as int {
                        assert(self.state.limits@[j] == lk[j]);
                    } else {
                        assert(j == k as int);
                    }
                }
            }
            k = k + 1;
        }
        self.state.currency = new_currency;
        proof {
            let s1 = self.state;
            assert forall|i2: int|
                0 <= i2 < s1.transactions@.len() implies (#[trigger] s1.transactions@[i2]).amount
                * spec_rate(s1.currency@) <= MONEY_BOUND by {
                let t0 = old(self).state.transactions@[i2];
                assert(s1.transactions@[i2] == self.state.transactions@[i2]);
                assert(s1.transactions@[i2].amount * rt <= MONEY_BOUND);
                assert(spec_rate(s1.currency@) == rt);
            }
            assert forall|i2: int|
                0 <= i2 < s1.limits@.len() implies (#[trigger] s1.limits@[i2]).data.general
                * spec_rate(s1.currency@) <= MONEY_BOUND by {
                assert(l0[i2] == old(self).state.limits@[i2]);
            }
            assert forall|i2: int, j2: int|
                0 <= i2 < s1.limits@.len() && 0 <= j2 < s1.limits@[i2].data.categories@.len()
                implies (#[trigger] s1.limits@[i2].data.categories@[j2]).value * spec_rate(
                s1.currency@) <= MONEY_BOUND by {
                assert(l0[i2] == old(self).state.limits@[i2]);
                assert(l0[i2].data.categories@[j2] == old(self).state.limits@[i2].data.categories@[j2]);
            }
            assert(money_wf(self.state));
            assert forall|x: int, y: int|
                0 <= x < y < s1.transactions@.len() implies (#[trigger] s1.transactions@[x]).id
                != (#[trigger] s1.transactions@[y]).id by {
                let t0x = old(self).state.transactions@[x];
                let t0y = old(self).state.transactions@[y];
                assert(s1.transactions@[x].id == t0x.id && s1.transactions@[y].id == t0y.id);
            }
            assert forall|x: int|
                0 <= x < s1.transactions@.len() implies (#[trigger] s1.transactions@[x]).id
                < u32::MAX && (#[trigger] s1.transactions@[x]).id < self.next_id by {
                let t0x = old(self).state.transactions@[x];
                assert(s1.transactions@[x].id == t0x.id);
            }
            assert forall|x: int, y: int|
                0 <= x < y < s1.limits@.len() implies (#[trigger] s1.limits@[x]).month@ != (
                #[trigger] s1.limits@[y]).month@ by {
                assert(l0[x] == old(self).state.limits@[x]);
                assert(l0[y] == old(self).state.limits@[y]);
                assert(s1.limits@[x].month == l0[x].month);
                assert(s1.limits@[y].month == l0[y].month);
            }
            assert forall|x: int|
                0 <= x < s1.limits@.len() implies cat_names_unique(
                #[trigger] s1.limits@[x].data.categories@) by {
                assert(l0[x] == old(self).state.limits@[x]);
                let d1 = s1.limits@[x].data.categories@;
                let d0 = l0[x].data.categories@;
                assert forall|a: int, b: int|
                    0 <= a < b < d1.len() implies (#[trigger] d1[a]).name@ != (
                    #[trigger] d1[b]).name@ by {
                    assert(d1[a].name == d0[a].name);
                    assert(d1[b].name == d0[b].name);
                }
            }
        }
        true
    }

    /// Records the chosen theme; a save is requested whenever ready.
    pub fn change_theme(&mut self, theme: String) -> (saved: bool)
        requires
            old(self).wf(),
        ensures
            final(self).wf(),
            saved == (old(self).phase == Phase::Ready),
            !saved ==> *final(self) == *old(self),
            saved ==> final(self).state.theme == theme,
            saved ==> final(self).state == (AppState { theme, ..old(self).state }),
            saved ==> final(self).phase == old(self).phase && final(self).next_id == old(
                self,
            ).next_id,
    {
        if self.phase != Phase::Ready {
            return false;
        }
        self.state.theme = theme;
        true
    }

    /// Records the chosen language; a save is requested whenever ready.
    pub fn change_language(&mut self, language: String) -> (saved: bool)
        requires
            old(self).wf(),
        ensures
            final(self).wf(),
            saved == (old(self).phase == Phase::Ready),
            !saved ==> *final(self) == *old(self),
            saved ==> final(self).state.language == language,
            saved ==> final(self).state == (AppState { language, ..old(self).state }),
            saved ==> final(self).phase == old(self).phase && final(self).next_id == old(
                self,
            ).next_id,
    {
        if self.phase != Phase::Ready {
            return false;
        }
        self.state.language = language;
        true
    }

    /// Resets the state to the documented default; the one save
    /// requested carries exactly that default, so the persisted and
    /// in-memory state remain identical.
    pub fn clear_all(&mut self) -> (saved: bool)
        requires
            old(self).wf(),
        ensures
            final(self).wf(),
            saved == (old(self).phase == Phase::Ready),
            !saved ==> *final(self) == *old(self),
            saved ==> is_default_state(final(self).state),
            saved ==> final(self).phase == old(self).phase,
            saved ==> final(self).next_id == 1,
    {
        if self.phase != Phase::Ready {
            return false;
        }
        self.state = AppState::default();
        self.next_id = 1;
        true
    }
}

/// Finds the first category slot carrying `name`, if any.
fn find_cat(cats: &Vec<CategoryLimit>, name: &str) -> (r: Option<usize>)
    ensures
        match r {
            Some(i) => i < cats@.len() && cats@[i as int].name@ == name@ && forall|j: int|
                0 <= j < i as int ==> cats@[j].name@ != name@,
            None => !crate::models::has_cat(cats@, name@),
        },
{
    let mut i: usize = 0;
    while i < cats.len()
        invariant
            i <= cats@.len(),
            forall|j: int| 0 <= j < i as int ==> cats@[j].name@ != name@,
        decreases cats@.len() - i,
    {
        if str_eq(cats[i].name.as_str(), name) {
            return Some(i);
        }
        i = i + 1;
    }
    None
}

/// Largest transaction identifier, or 0 when there are none.
fn max_tx_id(txs: &Vec<Transaction>) -> (m: u32)
    ensures
        forall|i: int| 0 <= i < txs@.len() ==> (#[trigger] txs@[i]).id <= m,
        m == 0 || exists|i: int| 0 <= i < txs@.len() && (#[trigger] txs@[i]).id == m,
{
    let mut m: u32 = 0;
    let mut i: usize = 0;
    while i < txs.len()
        invariant
            i <= txs@.len(),
            forall|j: int| 0 <= j < i as int ==> (#[trigger] txs@[j]).id <= m,
            m == 0 || exists|j: int| 0 <= j < i as int && (#[trigger] txs@[j]).id == m,
        decreases txs@.len() - i,
    {
        if txs[i].id > m {
            m = txs[i].id;
        }
        i = i + 1;
    }
    m
}

/// Decides whether transaction identifiers are unique and below the
/// identifier ceiling.
fn check_ids(txs: &Vec<Transaction>) -> (ok: bool)
    ensures
        ok == (tx_ids_unique(txs@) && forall|i: int|
            0 <= i < txs@.len() ==> (#[trigger] txs@[i]).id < u32::MAX),
{
    let n = txs.len();
    let mut i: usize = 0;
    while i < n
        invariant
            i <= n,
            n == txs@.len(),
            forall|x: int, y: int|
                0 <= x < y < n && x < i as int ==> (#[trigger] txs@[x]).id != (
                #[trigger] txs@[y]).id,
            forall|x: int| 0 <= x < i as int ==> (#[trigger] txs@[x]).id < u32::MAX,
        decreases n - i,
    {
        if txs[i].id == u32::MAX {
            return false;
        }
        let mut j: usize = i + 1;
        while j < n
            invariant
                i < j <= n,
                n == txs@.len(),
                forall|y: int| (i as int) < y && y < (j as int) ==> txs@[i as int].id != (
                #[trigger] txs@[y]).id,
            decreases n - j,
        {
            if txs[j].id == txs[i].id {
                return false;
            }
            j = j + 1;
        }
        i = i + 1;
    }
    true
}

/// Decides whether the limits table is a mapping: unique month keys,
/// unique category names within each entry.
fn check_limits_struct(limits: &Vec<LimitEntry>) -> (ok: bool)
    ensures
        ok == limits_wf(limits@),
{
    let n = limits.len();
    let mut i: usize = 0;
    while i < n
        invariant
            i <= n,
            n == limits@.len(),
            forall|x: int, y: int|
                0 <= x < y < n && x < i as int ==> (#[trigger] limits@[x]).month@ != (
                #[trigger] limits@[y]).month@,
            forall|x: int|
                0 <= x < i as int ==> cat_names_unique(#[trigger] limits@[x].data.categories@),
        decreases n - i,
    {
        let mut j: usize = i + 1;
        while j < n
            invariant
                i < j <= n,
                n == limits@.len(),
                forall|y: int| (i as int) < y && y < (j as int) ==> limits@[i as int].month@ != (
                #[trigger] limits@[y]).month@,
            decreases n - j,
        {
            if str_eq(limits[i].month.as_str(), limits[j].month.as_str()) {
                proof {
                    assert((limits@[i as int]).month@ == (limits@[j as int]).month@);
                    assert(!limits_wf(limits@));
                }
                return false;
            }
            j = j + 1;
        }
        let cats = &limits[i].data.categories;
        let cn = cats.len();
        let mut a: usize = 0;
        while a < cn
            invariant
                a <= cn,
                cn == cats@.len(),
                (i as int) < limits@.len(),
                cats == limits@[i as int].data.categories,
                forall|x: int, y: int|
                    0 <= x < y < cn && x < a as int ==> (#[trigger] cats@[x]).name@ != (
                    #[trigger] cats@[y]).name@,
            decreases cn - a,
        {
            let mut b: usize = a + 1;
            while b < cn
                invariant
                    a < b <= cn,
                    cn == cats@.len(),
                    (i as int) < limits@.len(),
                    cats == limits@[i as int].data.categories,
                    forall|y: int| (a as int) < y && y < (b as int) ==> cats@[a as int].name@ != (
                    #[trigger] cats@[y]).name@,
                decreases cn - b,
            {
                if str_eq(cats[a].name.as_str(), cats[b].name.as_str()) {
                    proof {
                        assert((limits@[i as int].data.categories@[a as int]).name@ == (
                        limits@[i as int].data.categories@[b as int]).name@);
                        assert(!cat_names_unique(limits@[i as int].data.categories@));
                        assert(!limits_wf(limits@));
                    }
                    return false;
                }
                b = b + 1;
            }
            a = a + 1;
        }
        i = i + 1;
    }
    true
}

/// Decides whether every monetary value of the state lies within the
/// machine bound for its currency.
fn check_money(s: &AppState) -> (ok: bool)
    ensures
        ok == money_wf(*s),
{
    let rate = get_exchange_rate(s.currency.as_str());
    let mut i: usize = 0;
    while i < s.transactions.len()
        invariant
            i <= s.transactions@.len(),
            rate == spec_rate(s.currency@),
            forall|j: int|
                0 <= j < i as int ==> (#[trigger] s.transactions@[j]).amount * spec_rate(
                    s.currency@,
                ) <= MONEY_BOUND,
        decreases s.transactions@.len() - i,
    {
        let amt = s.transactions[i].amount;
        proof {
            lemma_mul_upper_bound(amt as int, 0xffff_ffff_ffff_ffff, rate as int, 435);
        }
        if (amt as u128) * (rate as u128) > MONEY_BOUND as u128 {
            return false;
        }
        i = i + 1;
    }
    let mut k: usize = 0;
    while k < s.limits.len()
        invariant
            k <= s.limits@.len(),
            rate == spec_rate(s.currency@),
            forall|j: int|
                0 <= j < s.transactions@.len() ==> (#[trigger] s.transactions@[j]).amount
                    * spec_rate(s.currency@) <= MONEY_BOUND,
            forall|j: int|
                0 <= j < k as int ==> (#[trigger] s.limits@[j]).data.general * spec_rate(
                    s.currency@,
                ) <= MONEY_BOUND,
            forall|j: int, c: int|
                0 <= j < k as int && 0 <= c < s.limits@[j].data.categories@.len() ==> (
                #[trigger] s.limits@[j].data.categories@[c]).value * spec_rate(s.currency@)
                    <= MONEY_BOUND,
        decreases s.limits@.len() - k,
    {
        let e = &s.limits[k];
        proof {
            lemma_mul_upper_bound(e.data.general as int, 0xffff_ffff_ffff_ffff, rate as int, 435);
        }
        if (e.data.general as u128) * (rate as u128) > MONEY_BOUND as u128 {
            return false;
        }
        let mut c: usize = 0;
        while c < e.data.categories.len()
            invariant
                c <= e.data.categories@.len(),
                rate == spec_rate(s.currency@),
                e == s.limits@[k as int],
                k < s.limits@.len(),
                forall|j: int|
                    0 <= j < c as int ==> (#[trigger] e.data.categories@[j]).value * spec_rate(
                        s.currency@,
                    ) <= MONEY_BOUND,
            decreases e.data.categories@.len() - c,
        {
            let cv = e.data.categories[c].value;
            proof {
                lemma_mul_upper_bound(cv as int, 0xffff_ffff_ffff_ffff, rate as int, 435);
            }
            if (cv as u128) * (rate as u128) > MONEY_BOUND as u128 {
                return false;
            }
            c = c + 1;
        }
        k = k + 1;
    }
    true
}

/// Decides whether a decoded document is a valid state; an invalid one
/// is treated as undecodable and replaced by the default.
pub fn validate_state(s: &AppState) -> (ok: bool)
    ensures
        ok == state_wf(*s),
{
    let a = check_ids(&s.transactions);
    let b = check_limits_struct(&s.limits);
    let c = check_money(s);
    a && b && c
}

} // verus!
