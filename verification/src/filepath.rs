use vstd::prelude::*;

verus! {

/// The metadata of one filesystem entry, held as plain values: the entry's
/// kind, its size in bytes, and its three timestamps, each measured in
/// nanoseconds since the epoch and absent when the filesystem could not
/// provide it.
#[derive(Clone, Debug)]
pub struct FileMeta {
    pub is_file: bool,
    pub is_dir: bool,
    pub size: u64,
    pub created: Option<u64>,
    pub modified: Option<u64>,
    pub accessed: Option<u64>,
}

/// A selected path together with the one piece of metadata that filtering
/// or sorting asked for; the pieces that were not asked for keep their
/// default values.
#[derive(Clone, Debug)]
pub struct FilePath {
    pub path: String,
    pub size: u64,
    pub date_created: Option<u64>,
    pub last_modified: Option<u64>,
    pub last_accessed: Option<u64>,
}

impl FilePath {
    /// An entry carrying no metadata at all.
    pub fn new(path: String) -> (r: Self)
        ensures
            r.path == path,
            r.size == 0,
            r.date_created is None,
            r.last_modified is None,
            r.last_accessed is None,
    {
        FilePath { path, size: 0, date_created: None, last_modified: None, last_accessed: None }
    }

    /// An entry carrying only its size.
    pub fn with_size(path: String, size: u64) -> (r: Self)
        ensures
            r.path == path,
            r.size == size,
            r.date_created is None,
            r.last_modified is None,
            r.last_accessed is None,
    {
        FilePath { path, size, date_created: None, last_modified: None, last_accessed: None }
    }

    /// An entry carrying only its creation time.
    pub fn with_date_created(path: String, date_created: Option<u64>) -> (r: Self)
        ensures
            r.path == path,
            r.size == 0,
            r.date_created == date_created,
            r.last_modified is None,
            r.last_accessed is None,
    {
        FilePath { path, size: 0, date_created, last_modified: None, last_accessed: None }
    }

    /// An entry carrying only its modification time.
    pub fn with_last_modified(path: String, last_modified: Option<u64>) -> (r: Self)
        ensures
            r.path == path,
            r.size == 0,
            r.date_created is None,
            r.last_modified == last_modified,
            r.last_accessed is None,
    {
        FilePath { path, size: 0, date_created: None, last_modified, last_accessed: None }
    }

    /// An entry carrying only its access time.
    pub fn with_last_accessed(path: String, last_accessed: Option<u64>) -> (r: Self)
        ensures
            r.path == path,
            r.size == 0,
            r.date_created is None,
            r.last_modified is None,
            r.last_accessed == last_accessed,
    {
        FilePath { path, size: 0, date_created: None, last_modified: None, last_accessed }
    }
}

} // verus!
