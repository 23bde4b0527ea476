//! Core of a personal finance tracker: the in-memory data model, its
//! load/save lifecycle, derived monthly and yearly views, and the
//! currency-rebasing transform. Monetary values are fixed-point minor
//! units (hundredths of the active currency unit).

pub mod models;
pub mod text;
pub mod rates;
pub mod styles;
pub mod parse;
pub mod fmt;
pub mod aggregate;
pub mod controller;
pub mod laws;
pub mod today;
