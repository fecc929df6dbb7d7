//! Chat conversations with tool calling.

pub mod consumer;
pub mod dispatch;
pub mod message;
pub mod orchestrator;
pub mod run;
pub mod tools;
pub mod value;
pub mod wire;
