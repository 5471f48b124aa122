//! karmx: verified core logic of the karmX terminal agent.

pub mod text;
pub mod stop_reason;
pub mod thresholds;
pub mod undo;
pub mod tool_meta;
pub mod csp;
pub mod proto;
pub mod actions;
pub mod budget;
pub mod enhance;
pub mod rerank;
pub mod control;
pub mod preview;
pub mod presentation;
pub mod slash_menu;
pub mod model_picker;
pub mod model_config;
pub mod local_fusion;
pub mod context_tools;
pub mod workspace;
pub mod update;
pub mod tools;
