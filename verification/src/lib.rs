//! Boundary layer of an HTTP client: status codes, buffers, header maps that
//! keep the spelling of each name, message wrappers, and the rules by which a
//! streamed body is handed to a caller.
#![allow(non_camel_case_types)]

pub mod buf;
pub mod code;
pub mod error;
pub mod task;
pub mod headers;
pub mod header_laws;
pub mod body;
pub mod http_types;
