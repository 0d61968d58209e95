//! Cadenza: a verified orchestration core for Codex-driven issue work.
pub mod text;
pub mod domain;
pub mod strmap;
pub mod ordering;
pub mod orchestrator;
pub mod lifecycle;
pub mod contracts;
pub mod pr_gate;
pub mod obs;
pub mod snapshot;
pub mod scrubber;
pub mod codex;
pub mod launcher;
pub mod workflow;
pub mod source;
pub mod hooks;
pub mod wasm_host;
pub mod capabilities;
pub mod tracker;
pub mod workspace;
pub mod json;
pub mod events;
pub mod linear_http;
pub mod component_scan;
