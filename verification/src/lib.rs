//! A small CSS engine: a stylesheet parser and a cascade that resolves, for
//! every node of a document tree, the property values that apply to it.
//!
//! Every executable function carries a contract over mathematical models of
//! its data, and the contracts are machine-checked.

pub mod strings;
pub mod css;
pub mod name_map;
pub mod dom;
pub mod style;
pub mod parser;
pub mod syntax;
pub mod html;
pub mod laws;
