//! A terminal browser session for a bucket of an object store: the listing of
//! one path at a time, a selection cursor over the entries that match a
//! filter, sorting, and the key table that drives it.

pub mod app;
pub mod entry;
pub mod list;
pub mod path;
pub mod sort;
pub mod text;

pub use app::{App, AppMode, Effect, Key, Navigation};
pub use entry::{Entry, EntryKind, ListingError, Timestamp};
pub use list::StatefulList;
pub use path::parse_prev_path;
pub use sort::{SortConfig, SortKey};
pub use text::fmt_size;
