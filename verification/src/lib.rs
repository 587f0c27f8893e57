//! Serves an application's assets through a server on localhost.
//!
//! Two sources are tried in turn:
//!
//! 1. Embedded assets, which are part of the program.
//! 2. Files below a static root. Each file is read once and then served from memory.
//!
//! Requests for `/Extension/<absolute path>` are apart from these: they are served from
//! disk, and only below the roots that were registered for extensions.
//!
//! A pre-compressed sibling (`<file>.br`) is served with `Content-Encoding: br` where the
//! request that loads the file takes Brotli.
//!
//! The crate decides what a request is answered with. It performs no input or output:
//! see [`exchange`] for how the two meet.

pub mod builder;
pub mod cache;
pub mod decode;
pub mod exchange;
pub mod extension;
pub mod headers;
pub mod message;
pub mod mime;
pub mod path;
pub mod response;
pub mod route;
pub mod serving;
pub mod table;
pub mod text;

pub use crate::builder::{Builder, Server};
pub use crate::message::{Request, Response};
