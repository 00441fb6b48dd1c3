//! What a host needs around the engine: the arguments of a queue request,
//! the files that are loaded, and the dialogues that play only once.

pub mod global_state;
pub mod iter_wrapper;
pub mod queue_params;
