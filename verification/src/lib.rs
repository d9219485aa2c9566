//! Watches a sports-facility booking site for free court slots.
//!
//! The library holds the verified core: the time-interval model, the
//! schedule parser, the pagination state machine, the window filter and
//! the report builder. Network calls and the polling loop itself live in
//! the surrounding application.

pub mod activity;
pub mod dates;
pub mod digits;
pub mod filter;
pub mod pagination;
pub mod report;
pub mod schedule;
pub mod scrape;
pub mod times;
