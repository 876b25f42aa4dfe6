//! The expression-evaluation core of an XPath 1.0 engine: a tree of
//! expression nodes that, evaluated against a context bound to a position in
//! a document, produces an XPath value — a nodeset, string, number or
//! boolean — or one of five errors.

pub mod axis;
pub mod context;
pub mod expression;
pub mod function;
pub mod name;
pub mod node_test;
pub mod nodeset;
pub mod num;
pub mod value;
