pub mod attach;
pub mod audio;
pub mod builtin;
pub mod capture;
pub mod config;
pub mod environment;
pub mod failure;
pub mod harness;
pub mod image;
pub mod json;
pub mod laws;
pub mod mirror;
pub mod networking;
pub mod order;
pub mod paths;
pub mod platform;
pub mod podman;
pub mod progress;
pub mod pull;
pub mod registry;
pub mod run;
pub mod sandbox;
pub mod session;
pub mod snapshot;
pub mod text;
pub mod toolchain;
pub mod workspace;
