//! Verified core of the rich terminal client: follow-up directives, local model routing,
//! fenced code extraction, code-row wrapping, OAuth transport recovery state and the
//! per-thread `Auto` selection.

pub mod auto_selection;
pub mod code_panel;
pub mod directive_attributes;
pub mod endpoint;
pub mod followup_directives;
pub mod followups;
pub mod local_auto_router;
pub mod markdown_code_blocks;
pub mod oauth_transport;
pub mod text;
