use vstd::prelude::*;

use crate::path::{is_dir_path, label_from_path, label_of};

verus! {

/// Whether an entry is a directory-like common prefix or a leaf object.
#[derive(PartialEq, Eq, Structural, Clone, Copy, Debug)]
pub enum EntryKind {
    Directory,
    File,
}

/// A modification time as seconds since the Unix epoch and the nanoseconds
/// within that second.
#[derive(PartialEq, Eq, Structural, Clone, Copy, Debug)]
pub struct Timestamp {
    pub secs: i64,
    pub nanos: u32,
}

/// One child of a listed path.
#[derive(Clone, Debug, PartialEq, Eq)]
pub struct Entry {
    /// The full key or prefix.
    pub path: String,
    /// The last segment of `path`, for display.
    pub label: String,
    pub kind: EntryKind,
    /// The size in bytes (zero for a directory).
    pub size: i64,
    /// The formatted modification time, absent for a directory.
    pub last_modified: Option<String>,
    /// Whether the entry matches the current filter text.
    pub is_matched: bool,
}

/// An error from the listing service (network, credentials, missing bucket).
#[derive(Clone, Debug, PartialEq, Eq)]
pub struct ListingError {
    pub message: String,
}

/// What `DateTime::fmt` with `Format::DateTime` returns for a time that it
/// can format.
pub uninterp spec fn rfc3339_text(secs: int, nanos: int) -> Seq<char>;

/// The times that RFC 3339 can write: years 1 to 9999.
pub open spec fn rfc3339_in_range(secs: int) -> bool {
    -62_135_596_800 <= secs <= 253_402_300_799
}

/// Relies on `aws_smithy_types::DateTime::fmt` with `Format::DateTime` (on a
/// `DateTime::from_secs_and_nanos`, which panics when `nanos` reaches one
/// second): the RFC 3339 text, which fails outside years 1 to 9999.
#[verifier::external_body]
fn format_date_time(secs: i64, nanos: u32) -> (r: Option<String>)
    requires
        nanos < 1_000_000_000,
    ensures
        r is Some <==> rfc3339_in_range(secs as int),
        r matches Some(t) ==> t@ == rfc3339_text(secs as int, nanos as int),
{
    aws_smithy_types::DateTime::from_secs_and_nanos(secs, nanos)
        .fmt(aws_smithy_types::date_time::Format::DateTime)
        .ok()
}

/// The text shown for a modification time, absent when there is none or it
/// cannot be written.
pub open spec fn modified_text(modified: Option<Timestamp>) -> Option<Seq<char>> {
    match modified {
        Some(t) => if t.nanos < 1_000_000_000 && rfc3339_in_range(t.secs as int) {
            Some(rfc3339_text(t.secs as int, t.nanos as int))
        } else {
            None
        },
        None => None,
    }
}

pub open spec fn opt_view(o: Option<String>) -> Option<Seq<char>> {
    match o {
        Some(s) => Some(s@),
        None => None,
    }
}

/// The kind that a path names.
pub open spec fn kind_of(p: Seq<char>) -> EntryKind {
    if is_dir_path(p) {
        EntryKind::Directory
    } else {
        EntryKind::File
    }
}

impl Entry {
    /// The modification time as sort key: an absent time is the empty text,
    /// below every other.
    pub open spec fn modified_key(&self) -> Seq<char> {
        match self.last_modified {
            Some(t) => t@,
            None => Seq::empty(),
        }
    }

    /// Builds the entry for a key or prefix returned by the listing service:
    /// a path ending in the separator is a directory.
    pub fn new(path: String, size: i64, modified: Option<Timestamp>) -> (r: Entry)
        ensures
            r.path@ == path@,
            r.label@ == label_of(path@),
            r.kind == kind_of(path@),
            r.size == size,
            opt_view(r.last_modified) == modified_text(modified),
            r.is_matched,
    {
        let label = label_from_path(path.as_str());
        let n = path.as_str().unicode_len();
        let kind = if n > 0 && path.as_str().get_char(n - 1) == '/' {
            EntryKind::Directory
        } else {
            EntryKind::File
        };
        let last_modified = match modified {
            Some(t) => if t.nanos < 1_000_000_000 {
                format_date_time(t.secs, t.nanos)
            } else {
                None
            },
            None => None,
        };
        Entry { path, label, kind, size, last_modified, is_matched: true }
    }
}

} // verus!
