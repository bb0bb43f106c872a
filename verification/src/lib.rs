//! Verified decision and data-structure logic of the Vector editor: extension
//! index bookkeeping, auto-update decisions, worktree ordering, git merge
//! tracking, LSP capability filtering, theme token matching and the small
//! text formats these rely on.
use vstd::prelude::*;

pub mod text;
pub mod extension_index;
pub mod llm_client;
pub mod syntax;
pub mod worktree_store;
pub mod auto_update;
pub mod lsp_ext;
pub mod lsp_command;
pub mod extensions;
pub mod reliability;
pub mod terminals;
pub mod task_store;
pub mod debugger;
pub mod toolchain_store;
pub mod edit_prediction;
pub mod title_bar;
pub mod git;
pub mod http;
pub mod extension_catalog;
pub mod sorted_table;
pub mod extension_scan;
pub mod diff_state;
pub mod git_jobs;
pub mod git_status;
pub mod git_routing;
pub mod plugin_queries;

verus! {

} // verus!
