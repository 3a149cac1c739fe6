//! Deterministic readers for controlled-Korean product specifications.
use vstd::prelude::*;

pub mod ast;
pub mod blocks;
pub mod constraint;
pub mod creation;
pub mod cursor;
pub mod declarations;
pub mod diagnostic;
pub mod document;
pub mod edit;
pub mod formatter;
pub mod frontend;
pub mod frontmatter;
pub mod json;
pub mod list;
pub mod outline;
pub mod parser;
pub mod policy;
pub mod producer;
pub mod relation;
pub mod render;
pub mod scanner;
pub mod screen;
pub mod sdk;
pub mod sentence;
pub mod solver;
pub mod text;

verus! {
} // verus!
