pub mod config;
pub mod docker_compose;
pub mod docker_args;
pub mod build_laws;
pub mod jsonc;
pub mod metadata;
pub mod shell;
pub mod variables;
pub mod variable_laws;
