pub mod command;

pub use command::{Host, HostCmd};
