//! Values a personal portfolio of crypto, fiat and metal holdings against
//! freshly fetched rates, and compares the result with the money invested.
//!
//! All amounts are exact fixed-point numbers with six decimal places
//! (`SCALE` units make one whole unit); class values are exact ratios, so the
//! valuation never rounds and never divides by zero.
pub mod holdings;
pub mod rates;
pub mod valuation;
pub mod report;
