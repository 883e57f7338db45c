//! Price-history extraction for marketplace listing pages.
//!
//! The library scans the raw text of a public listings page for embedded
//! `["<date>", <price>, "<count>"]` tuples, normalizes each date string into a
//! UTC calendar timestamp, parses each price as an exact decimal, and exposes
//! the resulting ordered price history together with its derived queries
//! (current price, full rendered history).

pub mod datetime;
pub mod error;
pub mod extract;
pub mod item;
pub mod price;
pub mod text;
