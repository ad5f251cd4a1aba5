//! A style-resolution engine for a CSS-like styling language: selector
//! paths, specificity-ordered rule sets, dynamic (runtime-overridable)
//! property declarations, right-to-left selector matching against a node
//! tree, and a cascade pass that distributes matching and inherited
//! declarations over every node.

pub mod cascade;
pub mod group;
pub mod matching;
pub mod parse;
pub mod properties;
pub mod selector;
pub mod strutil;
pub mod stylesheet;
pub mod tree;
