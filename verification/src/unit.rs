//! Units of measurement.
use vstd::prelude::*;

verus! {

/// Represents a unit of measurement, most commonly the minor unit of a currency.
/// Units are identified by integers, such as ISO 4217 numeric currency codes.
pub trait Unit: Ord + Clone {}

impl Unit for u64 {}

} // verus!
