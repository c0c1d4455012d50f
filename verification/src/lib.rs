//! Cross-venue order-book aggregation and execution pricing.
//!
//! Prices and quantities are fixed-point integers, counted in units of one
//! hundred-millionth; the decimal text that venues publish is read by
//! [`decimal::parse_decimal`]. A cost is a price times a quantity and so
//! counts units of the square of that.

pub mod quote;
pub mod decimal;
pub mod ladder;
pub mod pricer;
pub mod limiter;
pub mod venue;
