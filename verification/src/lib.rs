//! Decision logic of an adversarial goal-verification harness and of the
//! credential plumbing around it.

pub mod api_key;
pub mod chatgpt_auth;
pub mod chatgpt_catalog;
pub mod config_doc;
pub mod digest;
pub mod facets;
pub mod fingerprint;
pub mod json_doc;
pub mod manifest;
pub mod model_entries;
pub mod panel;
pub mod paths;
pub mod plan;
pub mod prompt;
pub mod receipts;
pub mod runtime;
pub mod scope;
pub mod skeptic;
pub mod snapshot;
pub mod sources;
pub mod stage;
pub mod subagent_failure;
pub mod text;
pub mod verdict;
