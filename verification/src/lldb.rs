//! The logic of the LLDB backend: the driver protocol's replies and
//! requests, and what they mean for the debugger's model.
pub mod json;
pub mod protocol;
pub mod decode;
pub mod session;
pub mod replies;
pub mod requests;
pub mod backend;
