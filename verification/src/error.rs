use vstd::prelude::*;

verus! {

/// The failure conditions a browsing operation can report.
///
/// Per-item failures during a multi-item delete or paste are reported for
/// that item alone and do not abort the processing of its siblings.
#[derive(Copy, Clone, Debug, PartialEq, Eq, Structural)]
pub enum OpError {
    /// The directory itself could not be scanned.
    NotReadable,
    /// Metadata of a single entry could not be read; degrades that entry only.
    MetadataUnavailable,
    /// An I/O failure in the middle of a tree copy; aborts that item.
    CopyFailed,
    /// No disambiguated destination name could be found.
    NameResolutionExhausted,
    /// An index no longer refers to an entry of the current catalog.
    ItemNotFound,
}

} // verus!
