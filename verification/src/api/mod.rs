//! What is exchanged with model providers.

pub mod error;
pub mod error_laws;
pub mod line_laws;
pub mod lines;
pub mod anthropic;
pub mod diagnostics;
pub mod openai_compat;
pub mod openai_request_laws;
pub mod openai_responses;
pub mod openai_stream;
pub mod openai_stream_laws;
pub mod reasoning;
pub mod request_laws;
pub mod stream;
pub mod stream_laws;
pub mod types;
pub mod wire;
