//! The reconciliation itself: for one day, and over all days.

pub mod errors;
pub mod use_cases;
