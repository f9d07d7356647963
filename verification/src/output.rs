//! The chosen slots as text.

pub mod write;

pub use write::write_slots;
