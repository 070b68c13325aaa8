//! The three kinds of directory listing a client can request.

use vstd::prelude::*;

use crate::strings::str_eq_str;

verus! {

/// Which slice of a directory a listing request asks for: previewable
/// media files, other files, or subdirectories.
#[derive(Debug, Copy, Clone, PartialEq, Eq, Structural)]
pub enum FileType {
    Preview,
    Extra,
    Folder,
}

impl FileType {
    /// Parses a request parameter into a listing kind; only the three
    /// canonical names are accepted, case-sensitively.
    pub fn from_name(name: &str) -> (r: Option<FileType>)
        ensures
            name@ == "Preview"@ ==> r == Some(FileType::Preview),
            name@ == "Extra"@ ==> r == Some(FileType::Extra),
            name@ == "Folder"@ ==> r == Some(FileType::Folder),
            (name@ != "Preview"@ && name@ != "Extra"@ && name@ != "Folder"@) ==> r is None,
    {
        proof {
            reveal_strlit("Preview");
            reveal_strlit("Extra");
            reveal_strlit("Folder");
            assert("Preview"@.len() == 7);
            assert("Extra"@.len() == 5);
            assert("Folder"@.len() == 6);
            assert("Extra"@[0] != "Folder"@[0]);
        }
        if str_eq_str(name, "Preview") {
            Some(FileType::Preview)
        } else if str_eq_str(name, "Extra") {
            Some(FileType::Extra)
        } else if str_eq_str(name, "Folder") {
            Some(FileType::Folder)
        } else {
            None
        }
    }

    /// The canonical name of the listing kind, as it appears in request
    /// paths and metric labels.
    pub fn as_str(&self) -> (r: &'static str)
        ensures
            self is Preview ==> r@ == "Preview"@,
            self is Extra ==> r@ == "Extra"@,
            self is Folder ==> r@ == "Folder"@,
    {
        match self {
            FileType::Preview => "Preview",
            FileType::Extra => "Extra",
            FileType::Folder => "Folder",
        }
    }
}

} // verus!
