//! A local LLM hub: device-aware model recommendation, an OpenAI-compatible
//! gateway in front of a local model runtime, and conversation storage.
use vstd::prelude::*;

pub mod api;
pub mod catalog;
pub mod device;
pub mod domain;
pub mod json;
pub mod runtime;
pub mod schema;
pub mod store;
pub mod stream;
pub mod text;

verus! {
}
