//! Field-level helper shared by the FIX parsers.
pub use super::messages::parse_fix_field;
