//! Control plane for jailed Firecracker microVMs.
//!
//! The library decides and computes; the program around it does the input and output. It starts
//! Firecracker in a jail ([`vm::jail`]), writes the requests to its API and reads the replies
//! ([`vm::api`], [`vm::http`]), waits ([`vm::wait`]), serves page faults from a memory snapshot
//! ([`vm::uffd`]) and measures time ([`telemetry`]). [`demo`] is a run through all of it.

pub mod demo;
pub mod telemetry;
pub mod text;
pub mod vm;
