//! Instruments a program tree for live reloading: every function that calls
//! hooks gets a signature handle, a marker call at the top of its body and a
//! register call that carries the signature of its hook calls.

pub mod ast;
pub mod handles;
pub mod hooks;
pub mod register;
pub mod scope;
pub mod signature;
