//! Verified core of a DNS answer monitor.

pub mod addr;
pub mod app;
pub mod areas;
pub mod args;
pub mod capture;
pub mod clock;
pub mod commands;
pub mod display;
pub mod event;
pub mod feed;
pub mod filter;
pub mod keys;
pub mod laws;
pub mod layout;
pub mod order;
pub mod ordering;
pub mod payload;
pub mod reading;
pub mod records;
pub mod reverse;
pub mod roundtrip;
pub mod screen;
pub mod snapshot;
pub mod sort;
pub mod stages;
pub mod table;
pub mod text;
pub mod views;
pub mod wire;
pub mod worker;
