//! Verified core of Handy's transcript post-processing: text handling,
//! JWT claim extraction, Codex account flow decisions, SSE stream
//! decoding and local GGUF helper bookkeeping.

pub mod codex;
pub mod helper;
pub mod device;
pub mod json;
pub mod jwt;
pub mod keychain;
pub mod local_llm;
pub mod model_commands;
pub mod postprocess;
pub mod text;
pub mod unsupported;
