//! A small JSON library: a recursive-descent parser that turns text into a
//! tree of values, dotted-path and index lookup into that tree, a deep
//! case-insensitive search over its string values, and a renderer that turns
//! the tree back into indented (optionally colorized) text.

pub mod cli;
pub mod grammar;
pub mod laws;
pub mod lower;
pub mod numbers;
pub mod parser;
pub mod query;
pub mod render;
pub mod roundtrip;
pub mod search;
pub mod text;
pub mod value;

pub use cli::Command;
pub use grammar::ParseError;
pub use parser::JsonParser;
pub use query::LookupOutcome;
pub use render::ColorScheme;
pub use value::JsonValue;
pub use value::JsonView;
