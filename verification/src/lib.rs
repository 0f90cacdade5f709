//! Arweave block polling: configuration from the environment, conversion of
//! JSON blocks into their protobuf form, fork tracking over the unconfirmed
//! window and the `DMLOG` output format.

pub mod cmd;
pub mod result;
pub mod num;
pub mod env;
pub mod difficulty;
pub mod text;
pub mod types;
pub mod pb;
pub mod polling;

pub use env::{Env, EnvVars};
pub use polling::Polling;
pub use result::{Error, IntErrorKind, Result};
