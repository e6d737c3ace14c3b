//! A verified parser for a small linear-programming text notation.
//!
//! A document is a sequence of `;`-terminated statements: variable
//! declarations (`var x`), one objective (`maximize profit: 2*x + y`),
//! and named constraints (`subject to c1: x + y <= 10`).  The parser
//! segments the document, classifies each statement, extracts the typed
//! records, and aggregates them into a [`model::Components`] value, or
//! fails with one of four error kinds.

pub mod model;
pub mod grammar;
pub mod laws;
pub mod number;
pub mod parser;
pub mod text;
