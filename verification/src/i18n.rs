//! Message catalogues.
pub mod en_US;
