//! Isolator wire: guest dispatch, client decisions, and the Podman backend.

pub mod client;
pub mod close;
pub mod dispatch;
pub mod podman;
pub mod quadlet;
pub mod serve;
pub mod wire;
