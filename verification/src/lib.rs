//! A minimal markup parser: it turns a textual document into a tree of
//! element and text nodes, with typed errors for malformed input.
//!
//! - `dom` holds the tree model and its mathematical shape.
//! - `grammar` states the grammar as total functions over character
//!   sequences: what each scanning step returns, and which error otherwise.
//! - `parser` is the scanner itself, each function proved to do what the
//!   grammar says; its entry point is [`parse`].
//! - `laws` states and proves the grammar's properties: single-root
//!   normalization, attribute overwrite, key uniqueness, whitespace
//!   insensitivity between siblings, and exact tag matching.

pub mod dom;
pub mod grammar;
pub mod laws;
pub mod parser;

pub use dom::Element;
pub use dom::Node;
pub use dom::create_text_element;
pub use dom::create_text_node;
pub use grammar::ParseErrorKind;
pub use parser::ParseError;
pub use parser::parse;
