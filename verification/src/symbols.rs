//! The symbol model: typed nodes with parent and child links.
pub mod symbol_mgr;
pub mod symbol;
pub mod variable_symbol;
pub mod function_symbol;
pub mod class_symbol;
pub mod file_symbol;
pub mod root_symbol;
pub mod graph;
