//! The shared vocabulary: orders and order books.

pub mod order;
pub mod orderbook;
