//! Two services that answer for language models, in the terms of one protocol:
//! what a conversation is as a request to either, and what the answer of either
//! is as a stream of events.
//!
//! - `protocol` and `prompt`: the items of a conversation, the events of an
//!   answer, and what a model is asked.
//! - `chat_wire` and `anthropic_wire`: a prompt as a request.
//! - `chat_stream`, `think` and `anthropic_stream`: an answer as events.
//! - `endpoint`, `headers` and `providers`: where and how a service is reached.
//! - `json` and `text`: values and texts that the others are made of.
//!
//! The modules whose names end in `laws` state what holds across functions.

pub mod anthropic_event_laws;
pub mod anthropic_laws;
pub mod anthropic_request_laws;
pub mod anthropic_stream;
pub mod anthropic_wire;
pub mod anthropic_wire_laws;
pub mod chat_answer_laws;
pub mod chat_event_laws;
pub mod chat_laws;
pub mod chat_request_laws;
pub mod chat_stream;
pub mod chat_wire;
pub mod chat_wire_laws;
pub mod endpoint;
pub mod header_laws;
pub mod headers;
pub mod json;
pub mod prompt;
pub mod prompt_laws;
pub mod protocol;
pub mod provider_laws;
pub mod providers;
pub mod text;
pub mod text_laws;
pub mod think;
pub mod think_laws;
pub mod view_laws;
