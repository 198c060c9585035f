//! Control-plane core of an FTP server: command parsing, reply formatting,
//! per-connection session state, data-transfer progress and a bounded
//! cache of open file handles.

pub mod cmd;
pub mod code;
pub mod file;
pub mod file_type;
pub mod text;
pub mod thread_pool;
pub mod transfer;
pub mod user;
