//! Bootstrap core for a desktop launcher that prepares a filesystem and
//! network environment, reconciles persisted configuration, and supervises a
//! separate server process.
//!
//! The crate holds the decision logic only: retry policies for writability
//! probing, the configuration document codec, working-directory resolution,
//! environment-variable assembly, port allocation, and log-line relaying.
//! All file, network and process side effects are performed by the caller,
//! which feeds their outcomes back into these functions.

pub mod config;
pub mod envmap;
pub mod errors;
pub mod logger;
pub mod logrelay;
pub mod memos;
pub mod port;
pub mod text;
pub mod workdir;
pub mod writable;
