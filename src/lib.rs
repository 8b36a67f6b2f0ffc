//! Market-data client core: dataset model, ordering engine, starred symbols,
//! fetch bookkeeping and the small text helpers the views rely on.

pub mod about;
pub mod app;
pub mod cache;
pub mod config;
pub mod grouping;
pub mod latest;
pub mod order;
pub mod stats;
pub mod tr;
pub mod util;
