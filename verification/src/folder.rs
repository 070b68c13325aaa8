//! A single path rule of the configuration.

use vstd::prelude::*;

verus! {

/// One access rule, tied to an absolute path.
///
/// The optional fields mirror the configuration file, where each of them
/// may be omitted: a missing flag counts as `false` and a missing
/// principal list as empty.  A *principal* is either a literal email or
/// a group reference written `#<group-name>`.
#[derive(Debug)]
pub struct Folder {
    pub path: String,
    pub inheritable: Option<bool>,
    pub breaks_inheritance: Option<bool>,
    pub allowed: Option<Vec<String>>,
    pub denied: Option<Vec<String>>,
}

/// The mathematical content of a [`Folder`], with the configuration-file
/// defaults already applied.
pub struct FolderModel {
    pub path: Seq<char>,
    pub inheritable: bool,
    pub breaks_inheritance: bool,
    pub allowed: Seq<Seq<char>>,
    pub denied: Seq<Seq<char>>,
}

/// An absent principal list means the empty list.
pub open spec fn opt_principals(o: Option<Vec<String>>) -> Seq<Seq<char>> {
    match o {
        Some(v) => v.deep_view(),
        None => Seq::empty(),
    }
}

impl View for Folder {
    type V = FolderModel;

    open spec fn view(&self) -> FolderModel {
        FolderModel {
            path: self.path@,
            inheritable: self.inheritable == Some(true),
            breaks_inheritance: self.breaks_inheritance == Some(true),
            allowed: opt_principals(self.allowed),
            denied: opt_principals(self.denied),
        }
    }
}

impl Clone for Folder {
    /// A clone carries the same model.
    fn clone(&self) -> (r: Folder)
        ensures
            r@ == self@,
    {
        let r = Folder {
            path: self.path.clone(),
            inheritable: match self.inheritable {
                Some(b) => Some(b),
                None => None,
            },
            breaks_inheritance: match self.breaks_inheritance {
                Some(b) => Some(b),
                None => None,
            },
            allowed: match &self.allowed {
                Some(v) => Some(v.clone()),
                None => None,
            },
            denied: match &self.denied {
                Some(v) => Some(v.clone()),
                None => None,
            },
        };
        proof {
            lemma_string_vec_clone(&self.allowed, &r.allowed);
            lemma_string_vec_clone(&self.denied, &r.denied);
        }
        r
    }
}

/// An element-wise clone of a `Vec<String>` has the same deep view.
proof fn lemma_string_vec_clone(a: &Option<Vec<String>>, b: &Option<Vec<String>>)
    requires
        match (a, b) {
            (Some(va), Some(vb)) => {
                &&& va.len() == vb.len()
                &&& forall|i: int|
                    #![all_triggers]
                    0 <= i < va.len() ==> vstd::pervasive::cloned::<String>(va[i], vb[i])
            },
            (None, None) => true,
            _ => false,
        },
    ensures
        opt_principals(*a) == opt_principals(*b),
{
    match (a, b) {
        (Some(va), Some(vb)) => {
            assert forall|i: int| 0 <= i < va.len() implies va@[i]@ == vb@[i]@ by {
                assert(vstd::pervasive::cloned::<String>(va[i], vb[i]));
            }
            assert(va.deep_view() =~= vb.deep_view());
        },
        _ => {},
    }
}

/// The models of a sequence of folders.
pub open spec fn folder_models(folders: Seq<Folder>) -> Seq<FolderModel> {
    folders.map_values(|f: Folder| f@)
}

} // verus!
