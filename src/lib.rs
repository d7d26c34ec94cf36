//! Renders hardware-description syntax trees to Verilog-like source text
//! through a small composable document model.

pub mod ast;
pub mod doc;
pub mod num;
pub mod print;
pub mod laws;
