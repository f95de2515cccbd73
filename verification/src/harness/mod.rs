//! Harnesses that are described by definitions: what a definition says, where
//! definitions come from, and what they ask of podman.

pub mod credentials;
pub mod def;
pub mod embedded;
pub mod loader;
pub mod mount;
pub mod registry;
pub mod selection;
pub mod translate;
pub mod types;
