use vstd::prelude::*;
use std::path::PathBuf;

verus! {

#[verifier::external_type_specification]
#[verifier::external_body]
pub struct ExPathBuf(PathBuf);

/// Stores entities as files below a root directory.
pub struct FileSystemArchivist;

/// Where in the file system an entity is stored.
pub struct FileSystemMetadata {
    id: String,
    filename: String,
    collection: String,
    root: PathBuf,
}

} // verus!
