use cashflow_core::fmt::{format_currency, format_date_display, month_key};
use cashflow_core::parse::{parse_amount_cents, parse_date, parse_month_key};
use cashflow_core::rates::get_exchange_rate;
use cashflow_core::styles::{
    get_box_style, get_card_style, get_input_style, get_main_style, get_tab_style,
};
use cashflow_core::today::parsed_date_from_str;

#[test]
fn rate_table_values() {
    assert_eq!(get_exchange_rate("PLN"), 100);
    assert_eq!(get_exchange_rate("USD"), 410);
    assert_eq!(get_exchange_rate("EUR"), 435);
    assert_eq!(get_exchange_rate("GBP"), 100);
    assert_eq!(get_exchange_rate(""), 100);
}

#[test]
fn currency_formatting() {
    assert_eq!(format_currency(150, "USD", "en"), "$1.50");
    assert_eq!(format_currency(150, "EUR", "pl"), "\u{20ac}1.50");
    assert_eq!(format_currency(1234, "PLN", "pl"), "12.34 PLN");
    assert_eq!(format_currency(0, "PLN", "pl"), "0.00 PLN");
    assert_eq!(format_currency(105, "PLN", "pl"), "1.05 PLN");
    assert_eq!(format_currency(123456789, "USD", "en"), "$1234567.89");
}

#[test]
fn date_display_by_language() {
    assert_eq!(format_date_display("2024-03-05", "en"), "03/05/2024");
    assert_eq!(format_date_display("2024-03-05", "pl"), "05.03.2024");
    assert_eq!(format_date_display("2024-12-31", "de"), "31.12.2024");
    assert_eq!(format_date_display("nonsense", "en"), "nonsense");
    assert_eq!(format_date_display("2024-3-05", "en"), "2024-3-05");
}

#[test]
fn month_key_layout() {
    assert_eq!(month_key(2024, 3), "2024-03");
    assert_eq!(month_key(2024, 11), "2024-11");
    assert_eq!(month_key(999, 1), "999-01");
}

#[test]
fn date_parsing_and_calendar() {
    assert_eq!(parse_date("2024-03-05"), Some((2024, 3, 5)));
    assert_eq!(parse_date("2024-02-29"), Some((2024, 2, 29)));
    assert_eq!(parse_date("2023-02-29"), None);
    assert_eq!(parse_date("2000-02-29"), Some((2000, 2, 29)));
    assert_eq!(parse_date("1900-02-29"), None);
    assert_eq!(parse_date("2024-13-01"), None);
    assert_eq!(parse_date("2024-00-10"), None);
    assert_eq!(parse_date("2024-04-31"), None);
    assert_eq!(parse_date("2024-04-30"), Some((2024, 4, 30)));
    assert_eq!(parse_date("2024-3-05"), None);
    assert_eq!(parse_date(""), None);
}

#[test]
fn month_key_parsing() {
    assert_eq!(parse_month_key("2024-03"), Some((2024, 3)));
    assert_eq!(parse_month_key("2024-13"), None);
    assert_eq!(parse_month_key("2024-3"), None);
    assert_eq!(parse_month_key("garbage"), None);
}

#[test]
fn amount_parsing() {
    assert_eq!(parse_amount_cents("12.34"), Some(1234));
    assert_eq!(parse_amount_cents("7"), Some(700));
    assert_eq!(parse_amount_cents(".5"), Some(50));
    assert_eq!(parse_amount_cents("5."), Some(500));
    assert_eq!(parse_amount_cents("0.05"), Some(5));
    assert_eq!(parse_amount_cents("0"), Some(0));
    assert_eq!(parse_amount_cents("."), None);
    assert_eq!(parse_amount_cents(""), None);
    assert_eq!(parse_amount_cents("1.234"), None);
    assert_eq!(parse_amount_cents("1,50"), None);
    assert_eq!(parse_amount_cents("-5"), None);
}

#[test]
fn month_start_from_key() {
    assert_eq!(parsed_date_from_str("2024-05"), (2024, 5, 1));
    assert_eq!(parsed_date_from_str("0001-12"), (1, 12, 1));
    let (_, m, d) = parsed_date_from_str("not a month");
    assert!((1..=12).contains(&m));
    assert!((1..=31).contains(&d));
}

#[test]
fn style_classes_follow_theme() {
    assert_eq!(
        get_input_style(false),
        "border p-2 rounded w-full bg-white border-gray-300 text-black placeholder-gray-500"
    );
    assert_eq!(
        get_input_style(true),
        "border p-2 rounded w-full bg-gray-700 border-gray-600 text-white placeholder-gray-400"
    );
    assert_eq!(get_box_style(true), "p-4 rounded-lg border bg-gray-700 border-gray-600");
    assert_eq!(get_box_style(false), "p-4 rounded-lg border bg-gray-50 border-gray-200");
    assert!(get_main_style(true).contains("bg-slate-900"));
    assert!(get_main_style(false).contains("bg-slate-50"));
    assert!(get_card_style(true).contains("bg-slate-800"));
    assert!(get_card_style(false).contains("bg-white"));
    assert!(get_tab_style(true, true).contains("text-emerald-400"));
    assert!(get_tab_style(true, false).contains("text-emerald-600"));
    assert!(get_tab_style(false, true).contains("text-slate-400"));
}
