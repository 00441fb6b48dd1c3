//! Scripted dialogue for a typewriter-style text box: a script parser, a
//! cursor that reveals a dialogue one tick at a time, and the engine that
//! drives the cursor from elapsed time.

pub mod annotated;
pub mod cache;
pub mod chunk;
pub mod command;
pub mod cursor;
pub mod cursor_proofs;
pub mod dialogue;
pub mod dialogue_engine;
pub mod interop;
pub mod number;
pub mod script;
pub mod talker;
pub mod text;
