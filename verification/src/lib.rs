//! Spaces of repositories and the agent conversations held in them.

pub mod ancestry;
pub mod app;
pub mod cli;
pub mod cli_laws;
pub mod data;
pub mod data_laws;
pub mod dismantle;
pub mod git;
pub mod handoff;
pub mod json;
pub mod key_laws;
pub mod list_laws;
pub mod machine_laws;
pub mod member_laws;
pub mod names;
pub mod order;
pub mod parse;
pub mod parse_laws;
pub mod path;
pub mod path_laws;
pub mod policy;
pub mod pool_laws;
pub mod pull_laws;
pub mod search_laws;
pub mod space;
pub mod space_laws;
pub mod stack;
pub mod stack_laws;
pub mod text;
pub mod text_laws;
pub mod ui;
pub mod ui_laws;
pub mod worktree;
