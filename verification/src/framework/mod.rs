//! Framework: contract, policy, credentials, protocol, and isolator types.

pub mod conduct;
pub mod contract;
pub mod credentials;
pub mod discovery;
pub mod fdpass;
pub mod guest;
pub mod handles;
pub mod isolator;
pub mod json;
pub mod pattern;
pub mod policy;
pub mod prepare;
pub mod protocol;
pub mod signals;
pub mod stream;
