//! The failure kinds of price-history extraction.

use vstd::prelude::*;

verus! {

/// Why an extraction, a normalization or a derived query failed.
/// Transport failures live with the caller that performs the network I/O;
/// the library itself only parses.
#[derive(Debug)]
pub enum ExtractError {
    /// The page held zero recognizable observations.
    EmptyHistory,
    /// A matched price field could not be parsed as a decimal number;
    /// `raw` is the offending fragment.
    BadPrice { raw: String },
    /// A matched date field could not be normalized to a UTC timestamp;
    /// `raw` is the offending fragment.
    BadDate { raw: String },
}

} // verus!
