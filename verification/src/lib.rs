//! Verified core logic of the scuffle HTTP, RTMP and tooling crates.
pub mod error;
pub mod headers;
pub mod bytes_util;
pub mod proto;
pub mod h1_body;
pub mod text;
pub mod h1;
pub mod tcp_util;
pub mod h1_send;
pub mod h2_body;
pub mod tcp_config;
pub mod server;
pub mod profile_picture;
pub mod body;
pub mod bootstrap;
pub mod rtmp;
pub mod postcompile;
pub mod powerset;
pub mod combinations;
pub mod package_features;
