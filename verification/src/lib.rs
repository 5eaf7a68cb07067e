//! A client for the SpiceDB gRPC API, and the maintenance logic that keeps
//! its vendored protocol definitions and workspace version up to date.

pub mod text;
pub mod version;
pub mod transport;
pub mod auth;
pub mod client;
pub mod proto_sync;
pub mod rewrite;

pub use auth::AuthInterceptor;
pub use client::{build_client, endpoint_with_scheme, Client, ClientBuilder, ClientError};
