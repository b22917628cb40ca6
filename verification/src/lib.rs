//! Text-processing core of the agent run loop: code fences, tool-name
//! canonicalisation, plan blocks, settings paths, and tool-output shaping.

pub mod text;
pub mod plan_stream;
pub mod plan_display;
pub mod spool;
pub mod code_fence;
pub mod canonical;
pub mod settings_path;
pub mod settings_view;
pub mod limits;
pub mod permission;
pub mod status;
pub mod output;
pub mod queue;
pub mod plan_streaming;
pub mod settings_tree;
pub mod settings_edit;
pub mod settings_labels;
pub mod overlay;
pub mod activity;
pub mod settings_items;
pub mod settings_palette;
pub mod ls_styles;
pub mod hook_approval;
pub mod trajectory;
