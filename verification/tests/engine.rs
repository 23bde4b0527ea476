use cashflow_core::aggregate::{monthly_count, monthly_limits, monthly_total, yearly_summary};
use cashflow_core::controller::{Controller, Phase};
use cashflow_core::models::AppState;

fn ready_controller() -> Controller {
    let mut c = Controller::new();
    assert!(c.begin_load());
    assert!(c.finish_load(None));
    c
}

fn add(c: &mut Controller, title: &str, amount: &str, date: &str) -> bool {
    c.add_transaction(title, amount, date.to_string(), "Jedzenie".to_string())
}

#[test]
fn default_state_fields() {
    let s = AppState::default();
    assert!(s.transactions.is_empty());
    assert!(s.limits.is_empty());
    assert_eq!(s.theme, "light");
    assert_eq!(s.language, "pl");
    assert_eq!(s.currency, "PLN");
}

#[test]
fn load_without_document_gives_default() {
    let c = ready_controller();
    assert_eq!(c.state, AppState::default());
    assert!(matches!(c.phase, Phase::Ready));
}

#[test]
fn load_installs_valid_document() {
    let mut donor = ready_controller();
    assert!(add(&mut donor, "groceries", "12.34", "2024-03-01"));
    let doc = donor.state.clone();
    let mut c = Controller::new();
    c.begin_load();
    assert!(c.finish_load(Some(doc.clone())));
    assert_eq!(c.state, doc);
}

#[test]
fn load_rejects_duplicate_ids() {
    let mut donor = ready_controller();
    assert!(add(&mut donor, "a", "1", "2024-03-01"));
    assert!(add(&mut donor, "b", "2", "2024-03-02"));
    let mut doc = donor.state.clone();
    let first_id = doc.transactions[0].id;
    doc.transactions[1].id = first_id;
    let mut c = Controller::new();
    c.begin_load();
    assert!(c.finish_load(Some(doc)));
    assert_eq!(c.state, AppState::default());
}

#[test]
fn no_mutation_before_ready() {
    let mut c = Controller::new();
    assert!(!add(&mut c, "early", "5", "2024-03-01"));
    assert!(c.state.transactions.is_empty());
    let mut l = Controller::new();
    l.begin_load();
    assert!(!l.add_transaction("early", "5", "2024-03-01".to_string(), "x".to_string()));
    assert!(l.state.transactions.is_empty());
}

#[test]
fn begin_load_only_once() {
    let mut c = Controller::new();
    assert!(c.begin_load());
    assert!(!c.begin_load());
    assert!(c.finish_load(None));
    assert!(!c.finish_load(None));
}

#[test]
fn add_then_remove_restores() {
    let mut c = ready_controller();
    assert!(add(&mut c, "base", "10", "2024-03-01"));
    assert!(c.update_general_limit("2024-03", "100"));
    let before = c.state.clone();
    assert!(add(&mut c, "extra", "42.50", "2024-03-15"));
    let new_id = c.state.transactions.last().unwrap().id;
    assert!(c.remove_transaction(new_id));
    assert_eq!(c.state, before);
}

#[test]
fn add_rejects_blank_title() {
    let mut c = ready_controller();
    let before = c.state.clone();
    assert!(!add(&mut c, "", "10", "2024-03-01"));
    assert!(!add(&mut c, "   ", "10", "2024-03-01"));
    assert_eq!(c.state, before);
}

#[test]
fn add_rejects_nonpositive_amount() {
    let mut c = ready_controller();
    let before = c.state.clone();
    assert!(!add(&mut c, "zero", "0", "2024-03-01"));
    assert!(!add(&mut c, "zero", "0.00", "2024-03-01"));
    assert_eq!(c.state, before);
}

#[test]
fn add_rejects_non_numeric_amount() {
    let mut c = ready_controller();
    let before = c.state.clone();
    assert!(!add(&mut c, "junk", "abc", "2024-03-01"));
    assert!(!add(&mut c, "junk", "12.3.4", "2024-03-01"));
    assert!(!add(&mut c, "junk", "1,50", "2024-03-01"));
    assert!(!add(&mut c, "junk", "", "2024-03-01"));
    assert_eq!(c.state, before);
}

#[test]
fn add_parses_decimal_amounts() {
    let mut c = ready_controller();
    assert!(add(&mut c, "a", "12.34", "2024-03-01"));
    assert!(add(&mut c, "b", "7", "2024-03-02"));
    assert!(add(&mut c, "c", ".5", "2024-03-03"));
    assert!(add(&mut c, "d", "5.", "2024-03-04"));
    assert!(add(&mut c, "e", "3.4", "2024-03-05"));
    let amounts: Vec<u64> = c.state.transactions.iter().map(|t| t.amount).collect();
    assert_eq!(amounts, vec![1234, 700, 50, 500, 340]);
}

#[test]
fn fresh_ids_are_unique() {
    let mut c = ready_controller();
    assert!(add(&mut c, "a", "1", "2024-03-01"));
    assert!(add(&mut c, "b", "1", "2024-03-01"));
    assert!(add(&mut c, "c", "1", "2024-03-01"));
    let ids: Vec<u32> = c.state.transactions.iter().map(|t| t.id).collect();
    assert_ne!(ids[0], ids[1]);
    assert_ne!(ids[1], ids[2]);
    assert_ne!(ids[0], ids[2]);
}

#[test]
fn remove_missing_id_is_noop() {
    let mut c = ready_controller();
    assert!(add(&mut c, "only", "10", "2024-03-01"));
    let before = c.state.clone();
    let absent = c.state.transactions[0].id.wrapping_add(1);
    assert!(!c.remove_transaction(absent));
    assert_eq!(c.state, before);
}

#[test]
fn monthly_total_uses_prefix_filter() {
    let mut c = ready_controller();
    assert!(add(&mut c, "march a", "50", "2024-03-01"));
    assert!(add(&mut c, "march b", "30", "2024-03-15"));
    assert!(add(&mut c, "april", "99", "2024-04-01"));
    assert_eq!(monthly_total(&c.state, "2024-03"), 8000);
    assert_eq!(monthly_total(&c.state, "2024-04"), 9900);
    assert_eq!(monthly_total(&c.state, "2025-03"), 0);
    assert_eq!(monthly_count(&c.state, "2024-03"), 2);
    assert_eq!(monthly_count(&c.state, "2024-04"), 1);
}

#[test]
fn yearly_summary_march_bucket() {
    let mut c = ready_controller();
    assert!(add(&mut c, "march a", "50", "2024-03-01"));
    assert!(add(&mut c, "march b", "30", "2024-03-15"));
    assert!(add(&mut c, "april", "99", "2024-04-01"));
    assert!(c.update_general_limit("2024-03", "100"));
    let summary = yearly_summary(&c.state, 2024);
    assert_eq!(summary.len(), 12);
    assert_eq!(summary[2], (8000, 10000));
    assert_eq!(summary[3], (9900, 0));
    assert_eq!(summary[0], (0, 0));
}

#[test]
fn yearly_summary_skips_unparsable_dates() {
    let mut c = ready_controller();
    assert!(add(&mut c, "good", "10", "2024-03-01"));
    assert!(add(&mut c, "bad", "20", "2024-03"));
    assert!(add(&mut c, "worse", "30", "not a date"));
    let summary = yearly_summary(&c.state, 2024);
    assert_eq!(summary[2], (1000, 0));
    let spent: u128 = summary.iter().map(|p| p.0).sum();
    assert_eq!(spent, 1000);
}

#[test]
fn monthly_limits_absent_month_is_zero() {
    let c = ready_controller();
    let d = monthly_limits(&c.state, "2024-03");
    assert_eq!(d.general, 0);
    assert!(d.categories.is_empty());
}

#[test]
fn monthly_limits_returns_recorded_entry() {
    let mut c = ready_controller();
    assert!(c.update_general_limit("2024-03", "250.75"));
    assert!(c.update_cat_limit("2024-03", "Jedzenie", "80"));
    let d = monthly_limits(&c.state, "2024-03");
    assert_eq!(d.general, 25075);
    assert_eq!(d.categories.len(), 1);
    assert_eq!(d.categories[0].name, "Jedzenie");
    assert_eq!(d.categories[0].value, 8000);
}

#[test]
fn update_general_limit_overwrites() {
    let mut c = ready_controller();
    assert!(c.update_general_limit("2024-03", "100"));
    assert!(c.update_general_limit("2024-03", "200"));
    assert_eq!(c.state.limits.len(), 1);
    assert_eq!(c.state.limits[0].data.general, 20000);
}

#[test]
fn update_cat_limit_creates_month_lazily() {
    let mut c = ready_controller();
    assert!(c.update_general_limit("2024-04", "50"));
    let other_before = c.state.limits[0].clone();
    assert!(c.update_cat_limit("2024-05", "Rachunki", "120"));
    assert_eq!(c.state.limits.len(), 2);
    let entry = c
        .state
        .limits
        .iter()
        .find(|e| e.month == "2024-05")
        .expect("entry for the edited month");
    assert_eq!(entry.data.general, 0);
    assert_eq!(entry.data.categories.len(), 1);
    assert_eq!(entry.data.categories[0].name, "Rachunki");
    assert_eq!(entry.data.categories[0].value, 12000);
    assert_eq!(c.state.limits[0], other_before);
}

#[test]
fn limit_from_unparsable_input_is_zero() {
    let mut c = ready_controller();
    assert!(c.update_general_limit("2024-03", "junk"));
    assert_eq!(c.state.limits[0].data.general, 0);
    assert!(c.update_cat_limit("2024-03", "Auto i Transport", "not a number"));
    assert_eq!(c.state.limits[0].data.categories[0].value, 0);
}

#[test]
fn rebase_scales_every_amount() {
    let mut c = ready_controller();
    assert!(add(&mut c, "a", "41", "2024-03-01"));
    assert!(c.update_general_limit("2024-03", "82"));
    assert!(c.update_cat_limit("2024-03", "Jedzenie", "20.50"));
    assert!(c.change_currency("USD".to_string()));
    assert_eq!(c.state.currency, "USD");
    assert_eq!(c.state.transactions[0].amount, 1000);
    assert_eq!(c.state.limits[0].data.general, 2000);
    assert_eq!(c.state.limits[0].data.categories[0].value, 500);
}

#[test]
fn rebase_round_trip_is_close() {
    let mut c = ready_controller();
    assert!(add(&mut c, "a", "123.45", "2024-03-01"));
    let original = c.state.transactions[0].amount;
    assert!(c.change_currency("USD".to_string()));
    assert!(c.change_currency("PLN".to_string()));
    let back = c.state.transactions[0].amount;
    assert!(back <= original);
    assert!(original - back <= 5);
}

#[test]
fn rebase_same_currency_is_noop() {
    let mut c = ready_controller();
    assert!(add(&mut c, "a", "10", "2024-03-01"));
    let before = c.state.clone();
    assert!(!c.change_currency("PLN".to_string()));
    assert_eq!(c.state, before);
}

#[test]
fn clear_all_resets_to_default() {
    let mut c = ready_controller();
    assert!(add(&mut c, "a", "10", "2024-03-01"));
    assert!(c.update_general_limit("2024-03", "100"));
    assert!(c.change_theme("dark".to_string()));
    let saved = c.clear_all();
    assert!(saved);
    assert_eq!(c.state, AppState::default());
}

#[test]
fn theme_and_language_changes_request_saves() {
    let mut c = ready_controller();
    assert!(c.change_theme("dark".to_string()));
    assert_eq!(c.state.theme, "dark");
    assert!(c.change_language("en".to_string()));
    assert_eq!(c.state.language, "en");
    assert!(c.change_theme("dark".to_string()));
}
