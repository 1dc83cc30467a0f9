//! The server's endpoint for static files.

use vstd::prelude::*;
use vstd::string::StringExecFns;

use crate::text::join;

verus! {

/// Server endpoint that serves the files under a directory.
pub struct Files {
    /// The directory.
    pub root: String,
    /// The permission label that a client's token must have.
    pub permission: Option<String>,
}

/// The model of [`Files`].
pub struct FilesView {
    pub root: Seq<char>,
    pub permission: Option<Seq<char>>,
}

impl View for Files {
    type V = FilesView;

    open spec fn view(&self) -> FilesView {
        FilesView {
            root: self.root@,
            permission: match self.permission {
                Some(label) => Some(label@),
                None => None,
            },
        }
    }
}

impl Files {
    /// An endpoint that is open to all.
    pub fn new(root: &str) -> (r: Files)
        ensures
            r@ == (FilesView { root: root@, permission: None }),
    {
        Files { root: root.to_owned(), permission: None }
    }

    /// Requires a permission label in the token of a client.
    pub fn require_permission(&mut self, permission: &String)
        ensures
            final(self)@ == (FilesView { permission: Some(permission@), ..old(self)@ }),
    {
        self.permission = Some(permission.as_str().to_owned());
    }

    /// The endpoint in the notation of the log.
    pub fn fmt(&self) -> (s: String)
        ensures
            s@ == "Files("@ + self@.root + ")"@,
    {
        let mut s = join("Files(", self.root.as_str());
        s.append(")");
        s
    }
}

} // verus!
