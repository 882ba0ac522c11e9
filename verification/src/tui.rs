pub mod command;
pub mod view;

pub use command::Terminal;
