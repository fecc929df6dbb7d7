//! A conversational agent loop with tool calling: the schema that describes
//! tools to a model backend, the registry that resolves the calls a model
//! makes, and the turn-by-turn protocol that ties them together.

pub mod generation;
