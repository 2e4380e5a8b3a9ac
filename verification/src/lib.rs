//! A conditional-order matcher for spot trading pairs.
//!
//! Limit orders wait in a repository; an oracle publishes one price per pair;
//! a matcher compares the latest price with every live order of its asset,
//! fills the orders whose limit crosses the price and opens the ones it has
//! seen for the first time.

pub mod decimal;
pub mod utils;
pub mod entities;
pub mod errors;
pub mod oracle_service;
pub mod repositories;
pub mod engine;
pub mod handlers;
