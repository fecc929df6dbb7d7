//! Generation of model output.

pub mod chat;
