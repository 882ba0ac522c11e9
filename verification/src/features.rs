pub mod source;
pub mod users;

pub use source::FeatureSource;
pub mod mount;
pub mod manifest;
pub mod plan;
pub mod fetch;
pub mod exports;
