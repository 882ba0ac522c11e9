pub mod grammar;
pub mod model;
pub mod number;
pub mod parse;
pub mod layout;
pub mod document;
pub mod access;
pub mod writer;
pub mod edit;
pub mod roundtrip;

pub use document::{parse, Document};
pub use grammar::JsoncError;
pub use model::{ArrayNode, Node, ObjectNode, Value};
