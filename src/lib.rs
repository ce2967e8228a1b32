//! Filesystem-like storage: a mount table over pluggable stores, stores merged
//! by priority, and an in-memory store.
pub mod error;
pub mod file;
pub mod local;
pub mod mount;
pub mod path;
pub mod ram;
pub mod store;

pub use error::Error;
pub use file::File;
pub use local::Local;
pub use mount::MiniFs;
pub use ram::Ram;
pub use store::{Empty, Merge, MergeAll, Store};
