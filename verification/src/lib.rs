//! Directory listings: a packed grid of names, or an aligned table with
//! permissions, ownership, size and modification time.
//!
//! The library works on plain values. What was read of the file system comes
//! in as [`Target`]s; what is to be shown goes out as lines of text.

pub mod batch;
pub mod calendar;
pub mod entry;
pub mod error;
pub mod layout;
pub mod listing;
pub mod meta;
pub mod order;
pub mod platform;
pub mod table;
pub mod text;
pub mod widths;

pub use batch::Batch;
pub use entry::{Entry, OsText, Stat, Target};
pub use error::{ErrorKind, ListError};
pub use listing::{Core, Listing, Options};
pub use meta::{Labels, Meta};
pub use table::ResolvedBatch;
pub use widths::MaxInfo;
