//! What the library's results come to for those who read them: the packet
//! filter, the shell, the container engine. Each law here is stated over such a
//! reading, and not over the way in which a result is put together.

pub mod container;
pub mod copying;
pub mod definitions;
pub mod egress;
pub mod embedded;
pub mod engine;
pub mod host;
pub mod launch;
pub mod mounts;
pub mod reading;
pub mod review;
pub mod selection;
pub mod sessions;
pub mod settings;
pub mod snapshots;
pub mod texts;
