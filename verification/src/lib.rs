//! A proxy that serves the OpenAI API from MiniMax and OpenAI: everything it decides.

use vstd::prelude::*;

pub mod answer_laws;
pub mod argument_laws;
pub mod block_laws;
pub mod call_laws;
pub mod capture;
pub mod capture_laws;
pub mod chat;
pub mod chat_laws;
pub mod config;
pub mod conversation_laws;
pub mod events;
pub mod fetch_calls;
pub mod fetch_loop;
pub mod flow;
pub mod handler_laws;
pub mod handlers;
pub mod json;
pub mod json_ops;
pub mod keeping_laws;
pub mod message_laws;
pub mod messages;
pub mod number;
pub mod order_laws;
pub mod page_laws;
pub mod pattern;
pub mod piece_laws;
pub mod repair_laws;
pub mod replay;
pub mod replay_laws;
pub mod request;
pub mod request_laws;
pub mod response;
pub mod response_laws;
pub mod round_laws;
pub mod sending_laws;
pub mod setting_laws;
pub mod store;
pub mod store_laws;
pub mod stream;
pub mod stream_laws;
pub mod text;
pub mod text_laws;
pub mod util;
pub mod value_laws;
pub mod web_fetch;
pub mod wire;
pub mod words;

verus! {

} // verus!
