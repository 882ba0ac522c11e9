pub mod fetch;
pub mod response;

pub use fetch::{Fetched, Registry};
