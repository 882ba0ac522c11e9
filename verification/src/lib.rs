pub mod devcontainer;
pub mod text;
pub mod search;
pub mod tui;
pub mod error;
pub mod random_string;
pub mod features;
pub mod docker;
pub mod cli;
pub mod uid;
pub mod oci;
pub mod setup;
pub mod lifecycle;
pub mod host_exec;
pub mod session;
pub mod shell_flow;
pub mod registry;
