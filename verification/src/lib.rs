//! A line-oriented chat client: the wire command model, its codec, stream
//! framing and the client state that dispatches typed commands.

pub mod channel;
pub mod client;
pub mod codec;
pub mod command;
pub mod fields;
pub mod framing;
pub mod prompt;
pub mod stream;
pub mod tasks;
pub mod text;
