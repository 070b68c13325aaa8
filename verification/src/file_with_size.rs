//! One entry of a directory listing: a path, with a byte size when the
//! entry is a file.

use vstd::prelude::*;

verus! {

/// A listed path and, for files, its size in bytes.
#[derive(Debug)]
pub struct FileWithSize {
    pub path: String,
    pub size: Option<u64>,
}

/// The mathematical content of a [`FileWithSize`].
pub struct FileWithSizeModel {
    pub path: Seq<char>,
    pub size: Option<u64>,
}

impl View for FileWithSize {
    type V = FileWithSizeModel;

    open spec fn view(&self) -> FileWithSizeModel {
        FileWithSizeModel { path: self.path@, size: self.size }
    }
}

/// The models of a listing.
pub open spec fn fws_models(s: Seq<FileWithSize>) -> Seq<FileWithSizeModel> {
    s.map_values(|f: FileWithSize| f@)
}

impl FileWithSize {
    /// A file entry carrying its size.
    pub fn with_size(path: String, size: u64) -> (r: FileWithSize)
        ensures
            r@ == (FileWithSizeModel { path: path@, size: Some(size) }),
    {
        FileWithSize { path, size: Some(size) }
    }

    /// A directory entry, which carries no size.
    pub fn without_size(path: String) -> (r: FileWithSize)
        ensures
            r@ == (FileWithSizeModel { path: path@, size: None }),
    {
        FileWithSize { path, size: None }
    }
}

} // verus!
