//! Installs of a server program, release by release: what to fetch, where to
//! keep it, and how to put an install together from what is kept.
//!
//! The library decides and computes. It touches neither files nor the
//! network: an operation that needs them is a value that asks its caller for
//! one piece of work at a time and takes the reply.

pub mod artifact;
pub mod backend;
pub mod cache;
pub mod decimal;
pub mod download;
pub mod error;
pub mod http;
pub mod instance;
pub mod link;
pub mod platform;
pub mod release;
pub mod server;
pub mod text;
pub mod work;

pub use artifact::Artifact;
pub use backend::{Backend, Backends};
pub use error::Error;
pub use http::Progress;
pub use instance::{Instance, Settings};
pub use platform::Platform;
pub use release::Build;
pub use server::{Server, Stage};
