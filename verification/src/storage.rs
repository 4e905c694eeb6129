//! The byte-storage capability: a trait the surrounding runtime implements
//! for real sinks (the local filesystem, an object store). The library only
//! states the interface; performing the writes is I/O and lives outside.
use vstd::prelude::*;
use vstd::string::StringExecFns;

verus! {

/// Why storing bytes failed.
#[derive(Debug)]
pub enum StorageError {
    /// The sink reported an input/output failure; the payload summarizes it.
    Io(String),
}

/// A sink for result bytes: `save_bytes` stores a payload and returns a
/// location that `read(location)` outside the library can serve back.
pub trait Storage {
    /// Store the payload under a name derived from the hint; the returned
    /// string locates the stored bytes.
    fn save_bytes(&self, bytes: &Vec<u8>, filename_hint: &str) -> (r: Result<
        String,
        StorageError,
    >);
}

/// Storage on a local directory; the writes themselves are performed by the
/// surrounding runtime's adapter.
pub struct LocalStorage {
    pub base_path: String,
}

impl LocalStorage {
    /// Storage rooted at the given directory.
    pub fn new(base: String) -> (s: LocalStorage)
        ensures
            s.base_path@ == base@,
    {
        LocalStorage { base_path: base }
    }
}

/// Storage on an S3-style object store; not wired up in this deployment.
pub struct S3Storage {
    pub bucket: String,
    pub endpoint: String,
}

impl S3Storage {
    /// Storage under the given bucket and endpoint.
    pub fn new(bucket: &str, endpoint: &str) -> (s: S3Storage)
        ensures
            s.bucket@ == bucket@,
            s.endpoint@ == endpoint@,
    {
        S3Storage { bucket: String::from_str(bucket), endpoint: String::from_str(endpoint) }
    }
}

impl Storage for S3Storage {
    /// The object-store sink is not wired up in this deployment: every save
    /// is refused and no bytes are stored anywhere.
    fn save_bytes(&self, bytes: &Vec<u8>, filename_hint: &str) -> (r: Result<
        String,
        StorageError,
    >)
        ensures
            r is Err,
    {
        Err(StorageError::Io(String::from_str("S3 storage not implemented")))
    }
}

} // verus!
