//! Compiler version manager core: versions, tool specs, remote indexes,
//! build profiles and the shell snippets that switch toolchains.
pub mod text;
pub mod version;
pub mod tool;
pub mod remote;
pub mod resolve;
pub mod paths;
pub mod shell;
pub mod profile;
pub mod cache;
pub mod cli;
pub mod platform;
pub mod listing;

pub use paths::{cvm_home_from_env, install_prefix_for_home};
pub use remote::{parse_remote_index_latest, parse_remote_index_versions, RemoteVersion};
pub use shell::{env_script, init_script};
pub use tool::{parse_tool_spec, Tool, ToolSpec};
pub use version::Version;
