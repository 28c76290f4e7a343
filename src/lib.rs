//! Conversion of a small XML dialect into a JSON-shaped value tree.
//!
//! A hand-written recognizer (`grammar`) checks the text against the
//! grammar; a transformer (`transform`) folds the document's element into a
//! `Value` whose mappings keep insertion order.
mod chars;
pub mod grammar;
pub mod laws;
pub mod transform;
pub mod value;

pub use grammar::{Grammar, Pair, Rule, XmlError};
pub use transform::{parse_element, parse_open_tag, start_parser};
pub use value::{Json, Value};
