//! The small services of the console that have nothing to do with audio: what
//! they decide, not the calls themselves.

pub mod fs;
pub mod laws;
pub mod log;
pub mod power;
pub mod ps_lock;
pub mod store;
