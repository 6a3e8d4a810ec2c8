//! A small regular-expression language: its syntax tree, a parser from
//! text to trees, and matchers built from trees.
pub mod grep;
pub mod regex_parser;
pub mod syntax_tree;
pub mod transformers;
