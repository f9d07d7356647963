//! Choosing the slots that suit best.

pub mod algo;

pub use algo::find_opt;
