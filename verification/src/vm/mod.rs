//! Jailed microVMs: starting them, talking to their API, taking them down.

pub mod api;
pub mod error;
pub mod http;
pub mod jail;
pub mod json;
pub mod path;
pub mod uffd;
pub mod wait;

pub use api::ApiCall;
pub use error::VmError;
pub use jail::{spawn_jailed_firecracker, JailedVm, VmConfig};
