//! Where chunks and blobs are kept on the local disk. Reading and writing
//! the files is the application's part; the library holds the places.
use std::path::PathBuf;

use vstd::prelude::*;

verus! {

/// The error type of `std::io`.
#[verifier::external_type_specification]
#[verifier::external_body]
pub struct ExIoError(std::io::Error);

/// A filesystem path.
#[verifier::external_type_specification]
#[verifier::external_body]
pub struct ExPathBuf(PathBuf);

/// A store of blobs, each kept under a chunk id.
pub trait BlobStore {
    /// Stores `data` under `chunk_id`, replacing what was there.
    fn upload_chunk(&self, chunk_id: &str, data: &[u8]) -> std::io::Result<()>;
}

/// A blob store that keeps each blob in a file named by its chunk id under
/// a base directory.
pub struct LocalFileBlobStore {
    base_path: String,
}

impl LocalFileBlobStore {
    /// The directory the blobs are kept in.
    pub closed spec fn base(&self) -> Seq<char> {
        self.base_path@
    }

    /// A store keeping its blobs under `base_path`.
    pub fn new(base_path: String) -> (r: Self)
        ensures
            r.base() == base_path@,
    {
        Self { base_path }
    }

    /// The directory the blobs are kept in.
    pub fn base_path(&self) -> (r: &str)
        ensures
            r@ == self.base(),
    {
        self.base_path.as_str()
    }
}

/// A chunk store that keeps each chunk in a file named by its id under a
/// directory.
#[derive(Debug)]
pub struct LocalChunkStore {
    directory: PathBuf,
}

impl LocalChunkStore {
    /// The directory the chunks are kept in.
    pub closed spec fn dir(&self) -> PathBuf {
        self.directory
    }

    /// A store keeping its chunks under `directory`.
    pub fn new(directory: PathBuf) -> (r: Self)
        ensures
            r.dir() == directory,
    {
        Self { directory }
    }

    /// The directory the chunks are kept in.
    pub fn directory(&self) -> (r: &PathBuf)
        ensures
            *r == self.dir(),
    {
        &self.directory
    }
}

} // verus!
