//! Parsers for the supported shortcut-export formats.

pub mod kde;
pub mod jetbrains;
pub mod xml;
